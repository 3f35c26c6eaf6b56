//! The rooms that a node is in, and whom it lets in.

use vstd::prelude::*;

use crate::mesh::node::{Node, NodeView};
use crate::protocol::errors::{MlinkError, Result};
use crate::protocol::types::Handshake;
use crate::text::bytes_eq;

verus! {

/// Whether a peer that claims a room is let in: a node in no room lets everyone in, and any
/// other asks for one of its own rooms.
pub open spec fn room_admits(rooms: Set<[u8; 8]>, claim: Option<[u8; 8]>) -> bool {
    rooms == Set::<[u8; 8]>::empty() || (claim matches Some(h) && rooms.contains(h))
}

/// Joining a room lets in those who claim it; while the node is in some room, those who claim
/// none, or one that it has left, stay out.
pub proof fn rooms_decide_who_is_admitted(rooms: Set<[u8; 8]>, h: [u8; 8])
    ensures
        room_admits(rooms.insert(h), Some(h)),
        !room_admits(rooms.insert(h), None),
        rooms.remove(h) != Set::<[u8; 8]>::empty() ==> !room_admits(rooms.remove(h), Some(h)),
        room_admits(Set::<[u8; 8]>::empty(), None),
{
    assert(rooms.insert(h).contains(h));
    assert(!Set::<[u8; 8]>::empty().contains(h));
}

/// A node in no room lets everyone in. One that is in a room lets in exactly those who claim one of
/// its rooms, whichever it is.
pub proof fn every_own_room_admits(
    rooms: Set<[u8; 8]>,
    member: [u8; 8],
    claim: [u8; 8],
    anything: Option<[u8; 8]>,
)
    ensures
        room_admits(Set::<[u8; 8]>::empty(), anything),
        rooms.contains(member) ==> {
            &&& room_admits(rooms, Some(member))
            &&& !room_admits(rooms, None)
            &&& room_admits(rooms, Some(claim)) <==> rooms.contains(claim)
        },
{
    assert(!Set::<[u8; 8]>::empty().contains(member));
}

/// The place of a hash in a list.
fn hash_position(hashes: &Vec<[u8; 8]>, h: &[u8; 8]) -> (r: Option<usize>)
    ensures
        match r {
            Some(i) => i < hashes@.len() && hashes@[i as int] == *h,
            None => !hashes@.contains(*h),
        },
{
    let mut i: usize = 0;
    while i < hashes.len()
        invariant
            i <= hashes@.len(),
            forall|j: int| 0 <= j < i ==> #[trigger] hashes@[j] != *h,
        decreases hashes@.len() - i,
    {
        if bytes_eq(&hashes[i], h) {
            assert(hashes@[i as int] =~= *h);
            return Some(i);
        }
        i = i + 1;
    }
    None
}

impl<C: ?Sized> Node<C> {
    /// Joins a room.
    pub fn add_room_hash(&mut self, hash: [u8; 8])
        requires
            old(self).wf(),
        ensures
            final(self).wf(),
            final(self)@ == (NodeView { rooms: old(self)@.rooms.insert(hash), ..old(self)@ }),
    {
        let ghost had = self.room_hashes@;
        if hash_position(&self.room_hashes, &hash).is_none() {
            self.room_hashes.push(hash);
            proof {
                let now = self.room_hashes@;
                assert forall|x: [u8; 8]| #[trigger] now.contains(x) == (had.contains(x) || x
                    == hash) by {
                    if had.contains(x) {
                        let i = had.index_of(x);
                        assert(now[i] == x);
                    }
                    if x == hash {
                        assert(now[had.len() as int] == x);
                    }
                    if now.contains(x) {
                        let i = now.index_of(x);
                        if i < had.len() {
                            assert(had[i] == x);
                        }
                    }
                }
            }
        }
        assert(self@.rooms =~= had.to_set().insert(hash));
    }

    /// Leaves a room.
    pub fn remove_room_hash(&mut self, hash: &[u8; 8])
        requires
            old(self).wf(),
        ensures
            final(self).wf(),
            final(self)@ == (NodeView { rooms: old(self)@.rooms.remove(*hash), ..old(self)@ }),
    {
        let ghost had = self.room_hashes@;
        if let Some(i) = hash_position(&self.room_hashes, hash) {
            let _ = self.room_hashes.remove(i);
            proof {
                let now = self.room_hashes@;
                assert forall|x: [u8; 8]| #[trigger] now.contains(x) == (had.contains(x) && x
                    != *hash) by {
                    if now.contains(x) {
                        let j = now.index_of(x);
                        let k = if j < i {
                            j
                        } else {
                            j + 1
                        };
                        assert(had[k] == x);
                    }
                    if had.contains(x) && x != *hash {
                        let k = had.index_of(x);
                        let j = if k < i {
                            k
                        } else {
                            k - 1
                        };
                        assert(now[j] == x);
                    }
                }
            }
        }
        assert(self@.rooms =~= had.to_set().remove(*hash));
    }

    /// The rooms that the node is in, each once.
    pub fn room_hashes(&self) -> (r: Vec<[u8; 8]>)
        requires
            self.wf(),
        ensures
            r@.no_duplicates(),
            r@.to_set() == self@.rooms,
    {
        let mut r: Vec<[u8; 8]> = Vec::new();
        let mut i: usize = 0;
        while i < self.room_hashes.len()
            invariant
                i <= self.room_hashes@.len(),
                r@ == self.room_hashes@.take(i as int),
            decreases self.room_hashes@.len() - i,
        {
            r.push(self.room_hashes[i]);
            i = i + 1;
        }
        assert(r@ =~= self.room_hashes@);
        r
    }

    /// The room that the node claims in a handshake: one of its own, if it is in any.
    pub fn wire_room_hash(&self) -> (r: Option<[u8; 8]>)
        requires
            self.wf(),
        ensures
            match r {
                Some(h) => self@.rooms.contains(h),
                None => self@.rooms == Set::<[u8; 8]>::empty(),
            },
    {
        if self.room_hashes.len() == 0 {
            assert(self@.rooms =~= Set::<[u8; 8]>::empty());
            None
        } else {
            assert(self.room_hashes@.contains(self.room_hashes@[0]));
            Some(self.room_hashes[0])
        }
    }

    /// Whether a peer is let in by the room that it claims. `mismatch_peer_id` is the name that
    /// the error gives a peer who is not.
    pub fn check_room(&self, peer_hs: &Handshake, mismatch_peer_id: &str) -> (r: Result<()>)
        requires
            self.wf(),
        ensures
            if room_admits(self@.rooms, peer_hs.room_hash) {
                r is Ok
            } else {
                r matches Err(MlinkError::RoomMismatch { peer_id }) && peer_id@
                    == mismatch_peer_id@
            },
    {
        if self.room_hashes.len() == 0 {
            assert(self@.rooms =~= Set::<[u8; 8]>::empty());
            return Ok(());
        }
        proof {
            assert(self.room_hashes@.contains(self.room_hashes@[0]));
            assert(self@.rooms.contains(self.room_hashes@[0]));
        }
        let matched = match &peer_hs.room_hash {
            Some(h) => hash_position(&self.room_hashes, h).is_some(),
            None => false,
        };
        if matched {
            Ok(())
        } else {
            Err(MlinkError::RoomMismatch { peer_id: mismatch_peer_id.to_owned() })
        }
    }
}

} // verus!
