//! Lists of names in which no name is wanted twice.

use vstd::prelude::*;

use crate::text::str_eq;

verus! {

/// The texts of a list of strings.
pub open spec fn texts(v: Seq<String>) -> Seq<Seq<char>> {
    Seq::new(v.len(), |i: int| v[i]@)
}

/// The list without `name`.
pub open spec fn without(list: Seq<Seq<char>>, name: Seq<char>) -> Seq<Seq<char>> {
    list.filter(|t: Seq<char>| t != name)
}

/// The list with `name`, at the end if it was not there.
pub open spec fn including(list: Seq<Seq<char>>, name: Seq<char>) -> Seq<Seq<char>> {
    if list.contains(name) {
        list
    } else {
        list.push(name)
    }
}

/// What [`without`] leaves: everything but `name`, each still once.
pub proof fn lemma_without(list: Seq<Seq<char>>, name: Seq<char>)
    ensures
        !without(list, name).contains(name),
        forall|t: Seq<char>| t != name ==> without(list, name).contains(t) == list.contains(t),
        list.no_duplicates() ==> without(list, name).no_duplicates(),
        !list.contains(name) ==> without(list, name) == list,
    decreases list.len(),
{
    reveal(Seq::filter);
    if list.len() > 0 {
        let rest = list.drop_last();
        let last = list.last();
        lemma_without(rest, name);
        let w = without(rest, name);
        assert(list =~= rest.push(last));
        assert(without(list, name) == if last != name { w.push(last) } else { w });
        assert forall|t: Seq<char>| list.contains(t) == (rest.contains(t) || t == last) by {
            if rest.contains(t) {
                let i = rest.index_of(t);
                assert(list[i] == t);
            }
            assert(list[list.len() - 1] == last);
            if list.contains(t) {
                let i = list.index_of(t);
                if i < rest.len() {
                    assert(rest[i] == t);
                }
            }
        }
        assert forall|t: Seq<char>| w.push(last).contains(t) == (w.contains(t) || t == last) by {
            if w.contains(t) {
                let i = w.index_of(t);
                assert(w.push(last)[i] == t);
            }
            assert(w.push(last)[w.len() as int] == last);
            if w.push(last).contains(t) {
                let i = w.push(last).index_of(t);
                if i < w.len() {
                    assert(w[i] == t);
                }
            }
        }
        if list.no_duplicates() {
            assert(rest.no_duplicates());
            assert(!rest.contains(last)) by {
                if rest.contains(last) {
                    let i = rest.index_of(last);
                    assert(list[i] == list[list.len() - 1]);
                }
            }
            if last != name {
                assert(!w.contains(last));
                assert(w.push(last).no_duplicates());
            }
        }
    }
}

/// What [`including`] gives: `name` and what was there, each still once.
pub proof fn lemma_including(list: Seq<Seq<char>>, name: Seq<char>)
    ensures
        including(list, name).contains(name),
        forall|t: Seq<char>| t != name ==> including(list, name).contains(t) == list.contains(t),
        list.no_duplicates() ==> including(list, name).no_duplicates(),
{
    let w = list.push(name);
    assert(w[list.len() as int] == name);
    assert forall|t: Seq<char>| t != name implies w.contains(t) == list.contains(t) by {
        if list.contains(t) {
            let i = list.index_of(t);
            assert(w[i] == t);
        }
        if w.contains(t) {
            let i = w.index_of(t);
            assert(list[i] == t);
        }
    }
    if list.no_duplicates() && !list.contains(name) {
        assert(w.no_duplicates());
    }
}

/// Taking a name off a list in which it stands once closes the gap, and leaves the order.
pub proof fn leaving_keeps_the_order(list: Seq<Seq<char>>, name: Seq<char>, i: int)
    requires
        list.no_duplicates(),
        0 <= i < list.len(),
        list[i] == name,
    ensures
        without(list, name) == list.remove(i),
    decreases list.len(),
{
    reveal(Seq::filter);
    let rest = list.drop_last();
    let last = list.last();
    assert(rest.no_duplicates());
    if i == rest.len() {
        if rest.contains(name) {
            let k = rest.index_of(name);
            assert(list[k] == list[i]);
        }
        lemma_without(rest, name);
        assert(list.remove(i) =~= rest);
    } else {
        assert(rest[i] == name);
        leaving_keeps_the_order(rest, name, i);
        assert(last != name) by {
            if last == name {
                assert(list[list.len() - 1] == list[i]);
            }
        }
        assert(list.remove(i) =~= rest.remove(i).push(last));
    }
}

/// A name is put at the end of a list, unless it is there.
pub proof fn new_names_come_last(list: Seq<Seq<char>>, name: Seq<char>)
    ensures
        list.contains(name) ==> including(list, name) == list,
        !list.contains(name) ==> including(list, name) == list.push(name),
{
}

/// Whether `name` is on the list.
pub fn has_name(v: &Vec<String>, name: &str) -> (r: bool)
    ensures
        r == texts(v@).contains(name@),
{
    let mut i: usize = 0;
    while i < v.len()
        invariant
            i <= v.len(),
            forall|j: int| 0 <= j < i ==> (#[trigger] v@[j])@ != name@,
        decreases v.len() - i,
    {
        if str_eq(v[i].as_str(), name) {
            assert(texts(v@)[i as int] == name@);
            return true;
        }
        i = i + 1;
    }
    proof {
        if texts(v@).contains(name@) {
            let k = texts(v@).index_of(name@);
            assert(v@[k]@ == name@);
        }
    }
    false
}

/// Puts `name` on the list, unless it is there.
pub fn add_name(v: &mut Vec<String>, name: &str)
    ensures
        texts(final(v)@) == including(texts(old(v)@), name@),
{
    if !has_name(v, name) {
        v.push(name.to_owned());
        proof {
            assert(texts(v@) =~= texts(old(v)@).push(name@));
        }
    }
}

/// Takes `name` off the list, wherever it stands.
pub fn drop_name(v: &mut Vec<String>, name: &str)
    ensures
        texts(final(v)@) == without(texts(old(v)@), name@),
{
    let ghost all = v@;
    let ghost keep = |t: Seq<char>| t != name@;
    let mut kept: Vec<String> = Vec::new();
    let mut i: usize = 0;
    proof {
        reveal(Seq::filter);
        assert(texts(all).take(0) =~= Seq::<Seq<char>>::empty());
        assert(texts(kept@) =~= Seq::<Seq<char>>::empty());
    }
    while i < v.len()
        invariant
            i <= v.len(),
            v@ == all,
            texts(kept@) == texts(all).take(i as int).filter(keep),
            keep == (|t: Seq<char>| t != name@),
        decreases v.len() - i,
    {
        proof {
            reveal(Seq::filter);
            assert(texts(all).take(i + 1).drop_last() =~= texts(all).take(i as int));
        }
        let ghost before = kept@;
        if !str_eq(v[i].as_str(), name) {
            kept.push(v[i].clone());
            proof {
                assert(texts(kept@) =~= texts(before).push(all[i as int]@));
            }
        }
        i = i + 1;
    }
    proof {
        assert(texts(all).take(i as int) =~= texts(all));
    }
    *v = kept;
}

/// A copy of the list.
pub fn copy_names(v: &Vec<String>) -> (r: Vec<String>)
    ensures
        texts(r@) == texts(v@),
{
    let mut r: Vec<String> = Vec::new();
    let mut i: usize = 0;
    while i < v.len()
        invariant
            i <= v.len(),
            r@.len() == i,
            forall|j: int| 0 <= j < i ==> (#[trigger] r@[j])@ == v@[j]@,
        decreases v.len() - i,
    {
        r.push(v[i].clone());
        i = i + 1;
    }
    proof {
        assert(texts(r@) =~= texts(v@));
    }
    r
}

} // verus!
