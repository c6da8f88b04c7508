//! The user entries of a file's POSIX ACL, and the grants made in them.

use vstd::prelude::*;
use crate::access::Access;
use crate::assoc::{find_id, keys_distinct, lemma_pairs_map_at, lemma_pairs_map_dom, lemma_pairs_map_push,
    lemma_pairs_map_remove, lemma_pairs_map_update, pairs_map};

verus! {

/// ACL permission bit of read access.
pub const ACL_READ: u32 = 4;

/// ACL permission bit of write access.
pub const ACL_WRITE: u32 = 2;

/// ACL permission bit of execute access.
pub const ACL_EXECUTE: u32 = 1;

/// Error returned for a permission string with a character other than r, w or x.
#[derive(Clone, Copy, Debug, PartialEq, Eq, Structural)]
pub struct InvalidPermission;

/// The ACL bit of a permission letter, in either case.
pub open spec fn permission_letter(c: char) -> Option<u32> {
    if c == 'r' || c == 'R' {
        Some(ACL_READ)
    } else if c == 'w' || c == 'W' {
        Some(ACL_WRITE)
    } else if c == 'x' || c == 'X' {
        Some(ACL_EXECUTE)
    } else {
        None
    }
}

/// The ACL bits of a permission string, or `None` if a character is not a permission letter.
pub open spec fn permission_bits(s: Seq<char>) -> Option<u32>
    decreases s.len(),
{
    if s.len() == 0 {
        Some(0)
    } else {
        match (permission_bits(s.drop_last()), permission_letter(s.last())) {
            (Some(acc), Some(b)) => Some(acc | b),
            _ => None,
        }
    }
}

/// The ACL bits of a permission string such as `rw` or `RX`.
pub fn str_to_permission(perm: &str) -> (r: Result<u32, InvalidPermission>)
    ensures
        match permission_bits(perm@) {
            Some(b) => r == Ok::<u32, InvalidPermission>(b),
            None => r == Err::<u32, InvalidPermission>(InvalidPermission),
        },
{
    let n = perm.unicode_len();
    let mut bits: u32 = 0;
    let mut i: usize = 0;
    while i < n
        invariant
            n == perm@.len(),
            i <= n,
            permission_bits(perm@.subrange(0, i as int)) == Some(bits),
        decreases n - i,
    {
        let c = perm.get_char(i);
        proof {
            assert(perm@.subrange(0, i + 1).drop_last() =~= perm@.subrange(0, i as int));
            assert(perm@.subrange(0, i + 1).last() == c);
        }
        let b: u32 = if c == 'r' || c == 'R' {
            ACL_READ
        } else if c == 'w' || c == 'W' {
            ACL_WRITE
        } else if c == 'x' || c == 'X' {
            ACL_EXECUTE
        } else {
            proof {
                lemma_bad_letter_stays(perm@, i as int);
            }
            return Err(InvalidPermission);
        };
        bits = bits | b;
        i = i + 1;
    }
    proof {
        assert(perm@.subrange(0, n as int) =~= perm@);
    }
    Ok(bits)
}

proof fn lemma_bad_letter_stays(s: Seq<char>, i: int)
    requires
        0 <= i < s.len(),
        permission_letter(s[i]) is None,
    ensures
        permission_bits(s) is None,
    decreases s.len(),
{
    if i < s.len() - 1 {
        lemma_bad_letter_stays(s.drop_last(), i);
    }
}

/// The ACL bits of an access: read, write and execute have the same bits in both.
pub fn access_permission(access: Access) -> (r: u32)
    ensures
        r == access.bits as u32,
{
    access.bits as u32
}

/// The permission of a user after a grant of `requested`: what the user held, if
/// anything, with the requested bits added.
pub open spec fn granted_permission(held: Option<u32>, requested: u32) -> u32 {
    match held {
        Some(h) => h | requested,
        None => requested,
    }
}

/// The user entries after a grant of `requested` to `uid`.
pub open spec fn acl_after_grant(m: Map<u32, u32>, uid: u32, requested: u32) -> Map<u32, u32> {
    m.insert(uid, granted_permission(if m.contains_key(uid) { Some(m[uid]) } else { None }, requested))
}

/// The user entries of one file's ACL: user id to permission bits.
#[derive(Debug)]
pub struct UserAcl {
    /// The entries; user ids are distinct.
    pub entries: Vec<(u32, u32)>,
}

impl View for UserAcl {
    type V = Map<u32, u32>;

    open spec fn view(&self) -> Map<u32, u32> {
        pairs_map(self.entries@)
    }
}

impl UserAcl {
    /// Whether user ids are distinct.
    pub open spec fn wf(&self) -> bool {
        keys_distinct(self.entries@)
    }

    /// No user entry.
    pub fn new() -> (r: UserAcl)
        ensures
            r.wf(),
            r@ == Map::<u32, u32>::empty(),
    {
        let r = UserAcl { entries: Vec::new() };
        assert(r@ =~= Map::<u32, u32>::empty());
        r
    }

    /// The permission held by `uid`, if any.
    pub fn get(&self, uid: u32) -> (r: Option<u32>)
        requires
            self.wf(),
        ensures
            r == (if self@.contains_key(uid) { Some(self@[uid]) } else { None::<u32> }),
    {
        match find_id(&self.entries, uid) {
            Some(i) => {
                proof {
                    lemma_pairs_map_at(self.entries@, i as int);
                }
                Some(self.entries[i].1)
            },
            None => {
                proof {
                    lemma_pairs_map_dom(self.entries@, uid);
                }
                None
            },
        }
    }

    /// Sets the permission of `uid`, replacing what it held.
    pub fn set(&mut self, uid: u32, perm: u32)
        requires
            old(self).wf(),
        ensures
            final(self).wf(),
            final(self)@ == old(self)@.insert(uid, perm),
    {
        match find_id(&self.entries, uid) {
            Some(i) => {
                proof {
                    lemma_pairs_map_update(self.entries@, i as int, (uid, perm));
                }
                self.entries.set(i, (uid, perm));
            },
            None => {
                proof {
                    lemma_pairs_map_dom(self.entries@, uid);
                    lemma_pairs_map_push(self.entries@, (uid, perm));
                }
                self.entries.push((uid, perm));
            },
        }
    }

    /// Adds `requested` to the permission of `uid`.
    pub fn grant(&mut self, uid: u32, requested: u32)
        requires
            old(self).wf(),
        ensures
            final(self).wf(),
            final(self)@ == acl_after_grant(old(self)@, uid, requested),
    {
        let perm = match self.get(uid) {
            Some(h) => h | requested,
            None => requested,
        };
        self.set(uid, perm);
    }

    /// Removes the entry of `uid` altogether.
    pub fn revoke(&mut self, uid: u32)
        requires
            old(self).wf(),
        ensures
            final(self).wf(),
            final(self)@ == old(self)@.remove(uid),
    {
        match find_id(&self.entries, uid) {
            Some(i) => {
                proof {
                    lemma_pairs_map_remove(self.entries@, i as int);
                }
                self.entries.remove(i);
            },
            None => {
                proof {
                    lemma_pairs_map_dom(self.entries@, uid);
                    assert(self@.remove(uid) =~= self@);
                }
            },
        }
    }
}

/// A grant to a user with no entry, followed by its revocation, restores the entries.
pub proof fn lemma_acl_round_trip(acl: UserAcl, uid: u32, requested: u32)
    requires
        acl.wf(),
        !acl@.contains_key(uid),
    ensures
        acl_after_grant(acl@, uid, requested).remove(uid) == acl@,
{
    assert(acl_after_grant(acl@, uid, requested).remove(uid) =~= acl@);
}

/// After a grant, the user holds every requested bit and every bit held before.
pub proof fn lemma_grant_covers(m: Map<u32, u32>, uid: u32, requested: u32)
    ensures
        acl_after_grant(m, uid, requested)[uid] & requested == requested,
        m.contains_key(uid) ==> acl_after_grant(m, uid, requested)[uid] & m[uid] == m[uid],
{
    let v = acl_after_grant(m, uid, requested)[uid];
    if m.contains_key(uid) {
        let h = m[uid];
        assert((h | requested) & requested == requested && (h | requested) & h == h) by (bit_vector);
    } else {
        assert(requested & requested == requested) by (bit_vector);
    }
}

} // verus!
