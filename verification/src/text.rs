//! Text helpers: comparing strings, and rendering numbers in decimal and hexadecimal.

use vstd::prelude::*;
use vstd::utf8::{encode_utf8, encode_utf8_decode_utf8};

verus! {

/// `String::push` appends exactly the given character.
pub assume_specification[ String::push ](s: &mut String, c: char)
    ensures
        final(s)@ == old(s)@.push(c),
;

/// The decimal digit `d`, for `d < 10`.
pub open spec fn digit_char(d: nat) -> char {
    (0x30 + d) as char
}

/// `n` in decimal, without leading zeros.
pub open spec fn decimal(n: nat) -> Seq<char>
    decreases n,
{
    if n < 10 {
        seq![digit_char(n)]
    } else {
        decimal(n / 10).push(digit_char(n % 10))
    }
}

/// The last `width` decimal digits of `n`, zeros included.
pub open spec fn zero_padded(n: nat, width: nat) -> Seq<char>
    decreases width,
{
    if width == 0 {
        Seq::empty()
    } else {
        zero_padded(n / 10, (width - 1) as nat).push(digit_char(n % 10))
    }
}

/// The lowercase hexadecimal digit `d`, for `d < 16`.
pub open spec fn hex_char(d: nat) -> char {
    if d < 10 {
        (0x30 + d) as char
    } else {
        (0x57 + d) as char
    }
}

/// The uppercase hexadecimal digit `d`, for `d < 16`.
pub open spec fn upper_hex_char(d: nat) -> char {
    if d < 10 {
        (0x30 + d) as char
    } else {
        (0x37 + d) as char
    }
}

/// The last `width` lowercase hexadecimal digits of `n`, zeros included.
pub open spec fn lower_hex(n: nat, width: nat) -> Seq<char>
    decreases width,
{
    if width == 0 {
        Seq::empty()
    } else {
        lower_hex(n / 16, (width - 1) as nat).push(hex_char(n % 16))
    }
}

/// The last `width` uppercase hexadecimal digits of `n`, zeros included.
pub open spec fn upper_hex(n: nat, width: nat) -> Seq<char>
    decreases width,
{
    if width == 0 {
        Seq::empty()
    } else {
        upper_hex(n / 16, (width - 1) as nat).push(upper_hex_char(n % 16))
    }
}

/// Two lowercase hexadecimal digits per byte, in order.
pub open spec fn hex_of(bytes: Seq<u8>) -> Seq<char> {
    Seq::new(
        2 * bytes.len(),
        |i: int| {
            let b = bytes[i / 2] as nat;
            hex_char(if i % 2 == 0 { b / 16 } else { b % 16 })
        },
    )
}

/// What a hexadecimal digit of either case stands for.
pub open spec fn hex_value(c: char) -> Option<u8> {
    if '0' <= c <= '9' {
        Some((c as u32 - 0x30) as u8)
    } else if 'a' <= c <= 'f' {
        Some((c as u32 - 0x57) as u8)
    } else if 'A' <= c <= 'F' {
        Some((c as u32 - 0x37) as u8)
    } else {
        None
    }
}

/// Whether every character is a hexadecimal digit.
pub open spec fn all_hex(s: Seq<char>) -> bool {
    forall|i: int| 0 <= i < s.len() ==> hex_value(#[trigger] s[i]) is Some
}

/// The bytes that pairs of hexadecimal digits stand for.
pub open spec fn unhex(s: Seq<char>) -> Seq<u8> {
    Seq::new(
        s.len() / 2,
        |i: int| (hex_value(s[2 * i])->0 * 16 + hex_value(s[2 * i + 1])->0) as u8,
    )
}

/// `true` when `a` comes strictly before `b` in the order that compares byte by byte.
pub open spec fn bytes_before(a: Seq<u8>, b: Seq<u8>) -> bool
    decreases a.len(),
{
    if b.len() == 0 {
        false
    } else if a.len() == 0 {
        true
    } else if a[0] != b[0] {
        a[0] < b[0]
    } else {
        bytes_before(a.drop_first(), b.drop_first())
    }
}

/// Strings with the same bytes are the same string.
pub proof fn lemma_utf8_injective(a: Seq<char>, b: Seq<char>)
    requires
        encode_utf8(a) == encode_utf8(b),
    ensures
        a == b,
{
    encode_utf8_decode_utf8(a);
    encode_utf8_decode_utf8(b);
}

/// Compares two byte slices.
pub fn bytes_eq(a: &[u8], b: &[u8]) -> (r: bool)
    ensures
        r == (a@ == b@),
{
    if a.len() != b.len() {
        return false;
    }
    let mut i: usize = 0;
    while i < a.len()
        invariant
            i <= a.len(),
            a.len() == b.len(),
            forall|k: int| 0 <= k < i ==> a@[k] == b@[k],
        decreases a.len() - i,
    {
        if a[i] != b[i] {
            return false;
        }
        i = i + 1;
    }
    assert(a@ =~= b@);
    true
}

/// Compares two strings.
pub fn str_eq(a: &str, b: &str) -> (r: bool)
    ensures
        r == (a@ == b@),
{
    let r = bytes_eq(a.as_bytes(), b.as_bytes());
    proof {
        if r {
            lemma_utf8_injective(a@, b@);
        }
    }
    r
}

/// `true` when `a` comes strictly before `b` in byte order.
pub fn str_before(a: &str, b: &str) -> (r: bool)
    ensures
        r == bytes_before(encode_utf8(a@), encode_utf8(b@)),
{
    let x = a.as_bytes();
    let y = b.as_bytes();
    let mut i: usize = 0;
    proof {
        assert(x@.skip(0) =~= x@);
        assert(y@.skip(0) =~= y@);
    }
    while i < x.len() && i < y.len()
        invariant
            i <= x.len(),
            i <= y.len(),
            x@ == encode_utf8(a@),
            y@ == encode_utf8(b@),
            bytes_before(x@, y@) == bytes_before(x@.skip(i as int), y@.skip(i as int)),
        decreases x.len() - i,
    {
        proof {
            assert(x@.skip(i as int).drop_first() =~= x@.skip(i + 1));
            assert(y@.skip(i as int).drop_first() =~= y@.skip(i + 1));
        }
        if x[i] != y[i] {
            return x[i] < y[i];
        }
        i = i + 1;
    }
    i < y.len()
}

/// Appends `n` in decimal.
pub fn push_decimal(s: &mut String, n: u64)
    ensures
        final(s)@ == old(s)@ + decimal(n as nat),
    decreases n,
{
    if n >= 10 {
        push_decimal(s, n / 10);
    }
    let d: u8 = (n % 10) as u8;
    s.push((0x30 + d) as char);
    proof {
        assert(s@ =~= old(s)@ + decimal(n as nat));
    }
}

/// Appends the last `width` decimal digits of `n`.
pub fn push_zero_padded(s: &mut String, n: u64, width: u8)
    ensures
        final(s)@ == old(s)@ + zero_padded(n as nat, width as nat),
    decreases width,
{
    if width > 0 {
        push_zero_padded(s, n / 10, width - 1);
        let d: u8 = (n % 10) as u8;
        s.push((0x30 + d) as char);
    }
    proof {
        assert(s@ =~= old(s)@ + zero_padded(n as nat, width as nat));
    }
}

/// The lowercase hexadecimal digit `d`.
pub fn hex_digit(d: u8) -> (c: char)
    requires
        d < 16,
    ensures
        c == hex_char(d as nat),
{
    if d < 10 {
        (0x30 + d) as char
    } else {
        (0x57 + d) as char
    }
}

/// Appends the last `width` lowercase hexadecimal digits of `n`.
pub fn push_lower_hex(s: &mut String, n: u32, width: u8)
    ensures
        final(s)@ == old(s)@ + lower_hex(n as nat, width as nat),
    decreases width,
{
    if width > 0 {
        push_lower_hex(s, n / 16, width - 1);
        s.push(hex_digit((n % 16) as u8));
    }
    proof {
        assert(s@ =~= old(s)@ + lower_hex(n as nat, width as nat));
    }
}

/// Appends the last `width` uppercase hexadecimal digits of `n`.
pub fn push_upper_hex(s: &mut String, n: u32, width: u8)
    ensures
        final(s)@ == old(s)@ + upper_hex(n as nat, width as nat),
    decreases width,
{
    if width > 0 {
        push_upper_hex(s, n / 16, width - 1);
        let d: u8 = (n % 16) as u8;
        let c = if d < 10 {
            (0x30 + d) as char
        } else {
            (0x37 + d) as char
        };
        s.push(c);
    }
    proof {
        assert(s@ =~= old(s)@ + upper_hex(n as nat, width as nat));
    }
}

/// Two lowercase hexadecimal digits per byte.
pub fn hex_string(bytes: &[u8]) -> (s: String)
    ensures
        s@ == hex_of(bytes@),
{
    let mut s = String::new();
    let mut i: usize = 0;
    while i < bytes.len()
        invariant
            i <= bytes.len(),
            s@ == hex_of(bytes@.take(i as int)),
        decreases bytes.len() - i,
    {
        let b = bytes[i];
        s.push(hex_digit(b / 16));
        s.push(hex_digit(b % 16));
        i = i + 1;
        proof {
            assert(s@ =~= hex_of(bytes@.take(i as int)));
        }
    }
    proof {
        assert(bytes@.take(i as int) =~= bytes@);
    }
    s
}

/// What an ASCII hexadecimal digit stands for.
fn nibble(b: u8) -> (r: Option<u8>)
    requires
        b < 0x80,
    ensures
        r == hex_value(b as char),
        r matches Some(v) ==> v < 16,
{
    if 0x30 <= b && b <= 0x39 {
        Some(b - 0x30)
    } else if 0x61 <= b && b <= 0x66 {
        Some(b - 0x57)
    } else if 0x41 <= b && b <= 0x46 {
        Some(b - 0x37)
    } else {
        None
    }
}

/// Reads sixteen hexadecimal digits of either case as eight bytes; anything else is `None`.
pub fn parse_hex8(s: &str) -> (r: Option<[u8; 8]>)
    ensures
        r is Some <==> s@.len() == 16 && all_hex(s@),
        r matches Some(out) ==> out@ == unhex(s@),
{
    broadcast use vstd::string::is_ascii_spec_bytes;

    if !s.is_ascii() {
        proof {
            if all_hex(s@) {
                assert forall|i: int| 0 <= i < s@.len() implies '\0' <= #[trigger] s@[i] <= '\u{7f}' by {
                    assert(hex_value(s@[i]) is Some);
                }
                assert(false);
            }
        }
        return None;
    }
    let b = s.as_bytes();
    if b.len() != 16 {
        return None;
    }
    let mut out: [u8; 8] = [0u8; 8];
    let mut i: usize = 0;
    while i < 8
        invariant
            i <= 8,
            s.is_ascii(),
            b@.len() == 16,
            s@.len() == 16,
            b@ =~= Seq::new(s@.len(), |k: int| s@[k] as u8),
            forall|k: int| 0 <= k < 2 * i ==> hex_value(#[trigger] s@[k]) is Some,
            forall|k: int| 0 <= k < i ==> out@[k] == #[trigger] unhex(s@)[k],
        decreases 8 - i,
    {
        assert('\0' <= s@[2 * i] <= '\u{7f}');
        assert('\0' <= s@[2 * i + 1] <= '\u{7f}');
        let hi = nibble(b[2 * i]);
        let lo = nibble(b[2 * i + 1]);
        assert(b@[2 * i] as char == s@[2 * i as int]);
        assert(b@[2 * i + 1] as char == s@[2 * i + 1]);
        match (hi, lo) {
            (Some(h), Some(l)) => {
                out[i] = h * 16 + l;
                i = i + 1;
            },
            _ => {
                return None;
            },
        }
    }
    proof {
        assert(out@ =~= unhex(s@));
    }
    Some(out)
}

/// Reading back what [`hex_of`] wrote for eight bytes gives those bytes.
pub proof fn lemma_unhex_of_hex(bytes: Seq<u8>)
    ensures
        all_hex(hex_of(bytes)),
        unhex(hex_of(bytes)) == bytes,
{
    let s = hex_of(bytes);
    assert forall|i: int| 0 <= i < s.len() implies hex_value(#[trigger] s[i]) is Some by {}
    assert forall|i: int| 0 <= i < bytes.len() implies #[trigger] unhex(s)[i] == bytes[i] by {
        assert(s[2 * i] == hex_char(bytes[i] as nat / 16));
        assert(s[2 * i + 1] == hex_char(bytes[i] as nat % 16));
    }
    assert(unhex(s) =~= bytes);
}

/// A zero padded number has exactly `width` characters, all decimal digits.
pub proof fn lemma_zero_padded_digits(n: nat, width: nat)
    ensures
        zero_padded(n, width).len() == width,
        forall|i: int| 0 <= i < width ==> '0' <= #[trigger] zero_padded(n, width)[i] <= '9',
    decreases width,
{
    if width > 0 {
        lemma_zero_padded_digits(n / 10, (width - 1) as nat);
    }
}

/// Byte order is total: of two different sequences exactly one comes first.
pub proof fn lemma_bytes_before_total(a: Seq<u8>, b: Seq<u8>)
    ensures
        a == b ==> !bytes_before(a, b),
        a != b ==> bytes_before(a, b) != bytes_before(b, a),
    decreases a.len(),
{
    if a.len() == 0 || b.len() == 0 {
        if a.len() == b.len() {
            assert(a =~= b);
        }
    } else if a[0] == b[0] {
        lemma_bytes_before_total(a.drop_first(), b.drop_first());
        if a.drop_first() == b.drop_first() {
            assert(a =~= seq![a[0]] + a.drop_first());
            assert(b =~= seq![b[0]] + b.drop_first());
        } else {
            assert(a != b);
        }
    }
}

/// A decimal number grows by a digit at its end where it is multiplied by ten, and a number under
/// ten is its digit.
pub proof fn decimal_digits(n: nat, d: nat)
    requires
        d < 10,
    ensures
        decimal(d) == seq!["0123456789"@[d as int]],
        n > 0 ==> decimal(10 * n + d) == decimal(n).push("0123456789"@[d as int]),
{
    lemma_digits(d);
    assert((10 * n + d) / 10 == n && (10 * n + d) % 10 == d);
}

/// Padded numbers have a fixed width, and grow by a digit at their end where they are multiplied
/// by the base.
pub proof fn padded_digits(n: nat, width: nat, d: nat)
    requires
        d < 16,
    ensures
        zero_padded(n, 0) == Seq::<char>::empty(),
        lower_hex(n, 0) == Seq::<char>::empty(),
        upper_hex(n, 0) == Seq::<char>::empty(),
        d < 10 ==> zero_padded(10 * n + d, width + 1) == zero_padded(n, width).push(
            "0123456789"@[d as int],
        ),
        lower_hex(16 * n + d, width + 1) == lower_hex(n, width).push("0123456789abcdef"@[d as int]),
        upper_hex(16 * n + d, width + 1) == upper_hex(n, width).push("0123456789ABCDEF"@[d as int]),
{
    lemma_digits(d);
    assert((16 * n + d) / 16 == n && (16 * n + d) % 16 == d);
    assert(d < 10 ==> (10 * n + d) / 10 == n && (10 * n + d) % 10 == d);
}

proof fn lemma_digits(d: nat)
    requires
        d < 16,
    ensures
        d < 10 ==> digit_char(d) == "0123456789"@[d as int],
        hex_char(d) == "0123456789abcdef"@[d as int],
        upper_hex_char(d) == "0123456789ABCDEF"@[d as int],
{
    reveal_strlit("0123456789");
    reveal_strlit("0123456789abcdef");
    reveal_strlit("0123456789ABCDEF");
}

/// A hexadecimal digit of either case stands for its place among the sixteen, and nothing else is
/// one.
pub proof fn hex_digits(c: char, d: nat)
    requires
        d < 16,
    ensures
        hex_value("0123456789abcdef"@[d as int]) == Some(d as u8),
        hex_value("0123456789ABCDEF"@[d as int]) == Some(d as u8),
        hex_value(c) is Some ==> "0123456789abcdef"@[hex_value(c)->0 as int] == c
            || "0123456789ABCDEF"@[hex_value(c)->0 as int] == c,
{
    lemma_digits(d);
    if let Some(v) = hex_value(c) {
        lemma_digits(v as nat);
    }
}

/// Each byte is two digits, the high one first, in both directions.
pub proof fn bytes_are_pairs_of_digits(bytes: Seq<u8>, s: Seq<char>, i: int)
    ensures
        hex_of(bytes).len() == 2 * bytes.len(),
        0 <= i < bytes.len() ==> hex_of(bytes)[2 * i] == "0123456789abcdef"@[bytes[i] as int / 16]
            && hex_of(bytes)[2 * i + 1] == "0123456789abcdef"@[bytes[i] as int % 16],
        unhex(s).len() == s.len() / 2,
        all_hex(s) && 0 <= i < s.len() / 2 ==> unhex(s)[i] == 16 * hex_value(s[2 * i])->0
            + hex_value(s[2 * i + 1])->0,
        all_hex(s) <==> forall|k: int| 0 <= k < s.len() ==> hex_value(#[trigger] s[k]) is Some,
{
    if 0 <= i < bytes.len() {
        lemma_digits(bytes[i] as nat / 16);
        lemma_digits(bytes[i] as nat % 16);
    }
}

/// Of two byte sequences the first difference decides; one that ends there comes first.
pub proof fn first_difference_decides(a: Seq<u8>, b: Seq<u8>, k: int)
    requires
        0 <= k <= a.len(),
        k <= b.len(),
        forall|i: int| 0 <= i < k ==> #[trigger] a[i] == b[i],
    ensures
        k < a.len() && k < b.len() && a[k] != b[k] ==> bytes_before(a, b) == (a[k] < b[k]),
        k == a.len() && k < b.len() ==> bytes_before(a, b),
        k == b.len() ==> !bytes_before(a, b),
    decreases k,
{
    if k > 0 {
        assert(a[0] == b[0]);
        let (x, y) = (a.drop_first(), b.drop_first());
        assert forall|i: int| 0 <= i < k - 1 implies #[trigger] x[i] == y[i] by {
            assert(a[i + 1] == b[i + 1]);
        }
        first_difference_decides(x, y, k - 1);
    }
}

} // verus!
