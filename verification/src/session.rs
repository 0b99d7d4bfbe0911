//! The per-browser-session account registry.
//!
//! It maps logical backend user ids to opaque backend session keys and
//! remembers which user is the owner: the identity whose key authenticates
//! account-management calls. It lives inside the session store between
//! requests; a handler reads a snapshot, mutates it locally, and writes it
//! back, so the later of two concurrent write-backs wins — inherited
//! behaviour, kept as is.
//!
//! An owner id that has no entry in the key map is an invariant violation;
//! [`AccountList::owner_key`] answers it with `None` instead of failing, so
//! a handler can report "not found" rather than crash.

use vstd::prelude::*;

use crate::response::view_pairs;
use crate::strutil::str_eq;

verus! {

broadcast use vstd::seq::group_seq_axioms, vstd::std_specs::vec::group_vec_axioms;

/// First match wins; with unique keys, the only match.
pub open spec fn pair_lookup(s: Seq<(Seq<char>, Seq<char>)>, k: Seq<char>) -> Option<Seq<char>>
    decreases s.len(),
{
    if s.len() == 0 {
        None
    } else if s[0].0 == k {
        Some(s[0].1)
    } else {
        pair_lookup(s.skip(1), k)
    }
}

/// Holds the session keys for the backend RPC. This struct is carried in the
/// browser session's accounts entry.
pub struct AccountList {
    pub owner_id: Option<String>,
    pub rpc_session_keys: Vec<(String, String)>,
}

impl AccountList {
    /// The pairs, as their models.
    pub open spec fn pairs(self) -> Seq<(Seq<char>, Seq<char>)> {
        view_pairs(self.rpc_session_keys@)
    }

    /// Each user id occurs at most once.
    pub open spec fn wf(self) -> bool {
        forall|i: int, j: int|
            0 <= i < j < self.rpc_session_keys@.len() ==> #[trigger] self.rpc_session_keys@[i].0@
                != #[trigger] self.rpc_session_keys@[j].0@
    }

    /// The registry as a map from user id to session key.
    pub open spec fn keys_map(self) -> Map<Seq<char>, Seq<char>> {
        Map::new(
            |k: Seq<char>| pair_lookup(self.pairs(), k).is_some(),
            |k: Seq<char>| pair_lookup(self.pairs(), k).unwrap(),
        )
    }

    pub open spec fn owner_view(self) -> Option<Seq<char>> {
        match self.owner_id {
            Some(o) => Some(o@),
            None => None,
        }
    }

    /// Signed in means at least one account key is held.
    pub open spec fn spec_signed_in(self) -> bool {
        self.rpc_session_keys@.len() > 0
    }

    /// What [`AccountList::owner_key`] returns: the owner's stored key, or
    /// nothing when no owner is set or the owner has no entry.
    pub open spec fn spec_owner_key(self) -> Option<Seq<char>> {
        match self.owner_view() {
            Some(o) => if self.keys_map().contains_key(o) {
                Some(self.keys_map()[o])
            } else {
                None
            },
            None => None,
        }
    }
}

pub proof fn lemma_view_pairs_len(s: Seq<(String, String)>)
    ensures
        view_pairs(s).len() == s.len(),
    decreases s.len(),
{
    if s.len() > 0 {
        lemma_view_pairs_len(s.skip(1));
    }
}

pub proof fn lemma_view_pairs_index(s: Seq<(String, String)>, i: int)
    requires
        0 <= i < s.len(),
    ensures
        view_pairs(s).len() == s.len(),
        view_pairs(s)[i] == (s[i].0@, s[i].1@),
    decreases s.len(),
{
    lemma_view_pairs_len(s);
    if i > 0 {
        lemma_view_pairs_index(s.skip(1), i - 1);
    }
}

/// A found index pins the lookup result, provided keys are unique.
proof fn lemma_pair_lookup_at(s: Seq<(Seq<char>, Seq<char>)>, i: int)
    requires
        0 <= i < s.len(),
        forall|a: int, b: int| 0 <= a < b < s.len() ==> #[trigger] s[a].0 != #[trigger] s[b].0,
    ensures
        pair_lookup(s, s[i].0) == Some(s[i].1),
    decreases s.len(),
{
    if i > 0 {
        assert(s[0].0 != s[i].0);
        assert(forall|a: int, b: int|
            0 <= a < b < s.skip(1).len() ==> #[trigger] s.skip(1)[a].0 != #[trigger] s.skip(
                1,
            )[b].0) by {
            assert(forall|a: int| 0 <= a < s.skip(1).len() ==> s.skip(1)[a] == s[a + 1]);
        }
        lemma_pair_lookup_at(s.skip(1), i - 1);
    }
}

/// An absent key means no pair carries it.
proof fn lemma_pair_lookup_absent(s: Seq<(Seq<char>, Seq<char>)>, k: Seq<char>)
    requires
        forall|i: int| 0 <= i < s.len() ==> (#[trigger] s[i]).0 != k,
    ensures
        pair_lookup(s, k) is None,
    decreases s.len(),
{
    if s.len() > 0 {
        assert(forall|i: int| 0 <= i < s.skip(1).len() ==> (#[trigger] s.skip(1)[i]).0 != k) by {
            assert(forall|i: int| 0 <= i < s.skip(1).len() ==> s.skip(1)[i] == s[i + 1]);
        }
        lemma_pair_lookup_absent(s.skip(1), k);
    }
}

impl AccountList {
    /// The key stored for `id`, if any; absence is not an error.
    pub fn key_for(&self, id: &str) -> (r: Option<String>)
        requires
            self.wf(),
        ensures
            match r {
                Some(key) => self.keys_map().contains_key(id@) && key@ == self.keys_map()[id@],
                None => !self.keys_map().contains_key(id@),
            },
    {
        let n = self.rpc_session_keys.len();
        let mut i: usize = 0;
        while i < n
            invariant
                self.wf(),
                i <= n,
                n == self.rpc_session_keys@.len(),
                forall|a: int| 0 <= a < i ==> (#[trigger] self.rpc_session_keys@[a]).0@ != id@,
            decreases n - i,
        {
            if str_eq(self.rpc_session_keys[i].0.as_str(), id) {
                let key = self.rpc_session_keys[i].1.clone();
                proof {
                    lemma_view_pairs_index(self.rpc_session_keys@, i as int);
                    assert(forall|a: int, b: int|
                        0 <= a < b < self.pairs().len() ==> #[trigger] self.pairs()[a].0
                            != #[trigger] self.pairs()[b].0) by {
                        assert(forall|a: int|
                            0 <= a < self.pairs().len() ==> #[trigger] self.pairs()[a] == (
                            self.rpc_session_keys@[a].0@,
                            self.rpc_session_keys@[a].1@,
                            )) by {
                            assert forall|a: int| 0 <= a < self.pairs().len() implies #
                            [trigger] self.pairs()[a] == (
                            self.rpc_session_keys@[a].0@,
                            self.rpc_session_keys@[a].1@,
                            ) by {
                                lemma_view_pairs_index(self.rpc_session_keys@, a);
                            }
                        }
                    }
                    lemma_pair_lookup_at(self.pairs(), i as int);
                }
                return Some(key);
            }
            i = i + 1;
        }
        proof {
            lemma_view_pairs_len(self.rpc_session_keys@);
            assert forall|a: int| 0 <= a < self.pairs().len() implies (
            #[trigger] self.pairs()[a]).0 != id@ by {
                lemma_view_pairs_index(self.rpc_session_keys@, a);
            }
            lemma_pair_lookup_absent(self.pairs(), id@);
        }
        None
    }

    /// The owner's session key: `None` when no owner is set, and also when
    /// the owner id has no entry — the invariant violation is answered, not
    /// escalated.
    pub fn owner_key(&self) -> (r: Option<String>)
        requires
            self.wf(),
        ensures
            match r {
                Some(key) => self.owner_view() matches Some(o) && self.keys_map().contains_key(o)
                    && key@ == self.keys_map()[o],
                None => match self.owner_view() {
                    Some(o) => !self.keys_map().contains_key(o),
                    None => true,
                },
            },
    {
        match &self.owner_id {
            Some(o) => self.key_for(o.as_str()),
            None => None,
        }
    }

    /// True exactly when some account is registered.
    pub fn signed_in(&self) -> (b: bool)
        ensures
            b == self.spec_signed_in(),
    {
        self.rpc_session_keys.len() > 0
    }
}

impl Default for AccountList {
    /// A fresh registry: no owner, no keys — not signed in.
    fn default() -> (r: AccountList)
        ensures
            r.owner_id is None,
            r.rpc_session_keys@.len() == 0,
            r.wf(),
            !r.spec_signed_in(),
    {
        AccountList { owner_id: None, rpc_session_keys: Vec::new() }
    }
}

proof fn lemma_pair_lookup_some_exists(s: Seq<(Seq<char>, Seq<char>)>, k: Seq<char>)
    requires
        pair_lookup(s, k).is_some(),
    ensures
        exists|i: int|
            0 <= i < s.len() && (#[trigger] s[i]).0 == k && s[i].1 == pair_lookup(s, k).unwrap(),
    decreases s.len(),
{
    if s[0].0 == k {
        assert(s[0].0 == k && s[0].1 == pair_lookup(s, k).unwrap());
    } else {
        lemma_pair_lookup_some_exists(s.skip(1), k);
        let i0 = choose|i: int|
            0 <= i < s.skip(1).len() && (#[trigger] s.skip(1)[i]).0 == k && s.skip(1)[i].1
                == pair_lookup(s.skip(1), k).unwrap();
        assert(s[i0 + 1] == s.skip(1)[i0]);
    }
}

proof fn lemma_pair_lookup_none(s: Seq<(Seq<char>, Seq<char>)>, k: Seq<char>)
    requires
        pair_lookup(s, k) is None,
    ensures
        forall|i: int| 0 <= i < s.len() ==> (#[trigger] s[i]).0 != k,
    decreases s.len(),
{
    if s.len() > 0 {
        lemma_pair_lookup_none(s.skip(1), k);
        assert forall|i: int| 0 <= i < s.len() implies (#[trigger] s[i]).0 != k by {
            if i > 0 {
                assert(s[i] == s.skip(1)[i - 1]);
            }
        }
    }
}

/// The map a pair sequence denotes when later entries overwrite earlier
/// ones — the resynchronization order.
pub open spec fn fold_pairs(s: Seq<(Seq<char>, Seq<char>)>) -> Map<Seq<char>, Seq<char>>
    decreases s.len(),
{
    if s.len() == 0 {
        Map::empty()
    } else {
        fold_pairs(s.drop_last()).insert(s.last().0, s.last().1)
    }
}

impl AccountList {
    /// Stores `session_key` for `user_id`, replacing any earlier key for the
    /// same user: the registry always holds the latest key per user.
    fn upsert(&mut self, user_id: String, session_key: String)
        requires
            old(self).wf(),
        ensures
            final(self).wf(),
            final(self).keys_map() == old(self).keys_map().insert(user_id@, session_key@),
            final(self).owner_id == old(self).owner_id,
            final(self).spec_signed_in(),
    {
        let ghost oldkeys = old(self).rpc_session_keys@;
        let ghost oldp = view_pairs(oldkeys);
        let n = self.rpc_session_keys.len();
        let mut found: Option<usize> = None;
        let mut i: usize = 0;
        while i < n
            invariant
                self == old(self),
                n == self.rpc_session_keys@.len(),
                i <= n,
                match found {
                    Some(f) => f < i && self.rpc_session_keys@[f as int].0@ == user_id@,
                    None => forall|a: int|
                        0 <= a < i ==> (#[trigger] self.rpc_session_keys@[a]).0@ != user_id@,
                },
            decreases n - i,
        {
            if found.is_none() && str_eq(self.rpc_session_keys[i].0.as_str(), user_id.as_str()) {
                found = Some(i);
            }
            i = i + 1;
        }
        let ghost mid: Seq<(String, String)> = match found {
            Some(f) => oldkeys.remove(f as int),
            None => oldkeys,
        };
        match found {
            Some(f) => {
                self.rpc_session_keys.remove(f);
            },
            None => {},
        }
        self.rpc_session_keys.push((user_id, session_key));
        proof {
            let u = user_id@;
            let key = session_key@;
            let newkeys = self.rpc_session_keys@;
            let newp = view_pairs(newkeys);
            lemma_view_pairs_len(oldkeys);
            lemma_view_pairs_len(newkeys);
            // every entry of `mid` is an entry of the old sequence whose key
            // is not `u`
            assert forall|a: int| 0 <= a < mid.len() implies (exists|b: int|
                0 <= b < oldkeys.len() && #[trigger] mid[a] == oldkeys[b]) && mid[a].0@ != u by {
                match found {
                    Some(f) => {
                        if a < f {
                            assert(mid[a] == oldkeys[a]);
                        } else {
                            assert(mid[a] == oldkeys[a + 1]);
                        }
                        assert(mid[a].0@ != u) by {
                            if a < f {
                                assert(oldkeys[a].0@ != oldkeys[f as int].0@);
                            } else {
                                assert(oldkeys[f as int].0@ != oldkeys[a + 1].0@);
                            }
                        }
                    },
                    None => {
                        assert(mid[a] == oldkeys[a]);
                    },
                }
            }
            // `mid` keeps the old sequence's distinct keys
            assert forall|a: int, b: int| 0 <= a < b < mid.len() implies (
            #[trigger] mid[a]).0@ != (#[trigger] mid[b]).0@ by {
                match found {
                    Some(f) => {
                        let a2: int = if a < f {
                            a
                        } else {
                            a + 1
                        };
                        let b2: int = if b < f {
                            b
                        } else {
                            b + 1
                        };
                        assert(mid[a] == oldkeys[a2] && mid[b] == oldkeys[b2]);
                        assert(oldkeys[a2].0@ != oldkeys[b2].0@);
                    },
                    None => {},
                }
            }
            assert(newkeys =~= mid.push((user_id, session_key)));
            assert(self.wf()) by {
                assert forall|a: int, b: int|
                    0 <= a < b < newkeys.len() implies (#[trigger] newkeys[a]).0@ != (
                #[trigger] newkeys[b]).0@ by {
                    if b < newkeys.len() - 1 {
                        assert(newkeys[a] == mid[a] && newkeys[b] == mid[b]);
                    } else {
                        assert(newkeys[a] == mid[a] && newkeys[b] == (user_id, session_key));
                    }
                }
            }
            // lookups in the new sequence
            assert forall|k2: Seq<char>| true implies #[trigger] pair_lookup(newp, k2) == (if k2
                == u {
                Some(key)
            } else {
                pair_lookup(oldp, k2)
            }) by {
                assert forall|a: int| 0 <= a < newp.len() implies #[trigger] newp[a] == (
                newkeys[a].0@,
                newkeys[a].1@,
                ) by {
                    lemma_view_pairs_index(newkeys, a);
                }
                assert forall|a: int, b: int| 0 <= a < b < newp.len() implies (
                #[trigger] newp[a]).0 != (#[trigger] newp[b]).0 by {
                    assert(newp[a].0 == newkeys[a].0@ && newp[b].0 == newkeys[b].0@);
                }
                if k2 == u {
                    assert(newp[newp.len() - 1] == (u, key));
                    lemma_pair_lookup_at(newp, newp.len() - 1);
                } else {
                    if pair_lookup(oldp, k2).is_some() {
                        lemma_pair_lookup_some_exists(oldp, k2);
                        let i0 = choose|i: int|
                            0 <= i < oldp.len() && (#[trigger] oldp[i]).0 == k2 && oldp[i].1
                                == pair_lookup(oldp, k2).unwrap();
                        lemma_view_pairs_index(oldkeys, i0);
                        assert(oldkeys[i0].0@ == k2);
                        let j0: int = match found {
                            Some(f) => if i0 < f {
                                i0
                            } else {
                                i0 - 1
                            },
                            None => i0,
                        };
                        assert(0 <= j0 < mid.len() && mid[j0] == oldkeys[i0]) by {
                            match found {
                                Some(f) => {
                                    assert(i0 != f);
                                    if i0 < f {
                                        assert(mid[i0] == oldkeys[i0]);
                                    } else {
                                        assert(mid[i0 - 1] == oldkeys[(i0 - 1) + 1]);
                                    }
                                },
                                None => {},
                            }
                        }
                        assert(newkeys[j0] == mid[j0]);
                        assert(newp[j0] == (oldkeys[i0].0@, oldkeys[i0].1@));
                        lemma_pair_lookup_at(newp, j0);
                    } else {
                        lemma_pair_lookup_none(oldp, k2);
                        assert forall|a: int| 0 <= a < newp.len() implies (
                        #[trigger] newp[a]).0 != k2 by {
                            if a < newp.len() - 1 {
                                assert(newkeys[a] == mid[a]);
                                let b = choose|b: int|
                                    0 <= b < oldkeys.len() && mid[a] == oldkeys[b];
                                lemma_view_pairs_index(oldkeys, b);
                                assert(oldp[b].0 != k2);
                            } else {
                                assert(newp[a].0 == u);
                            }
                        }
                        lemma_pair_lookup_absent(newp, k2);
                    }
                }
            }
            assert(self.keys_map() =~= old(self).keys_map().insert(u, key));
        }
    }

    /// Registers one account: the key is stored (overwriting any earlier key
    /// for that user), and the user becomes owner if no owner was set.
    pub fn register_account(&mut self, user_id: String, session_key: String)
        requires
            old(self).wf(),
        ensures
            final(self).wf(),
            final(self).keys_map() == old(self).keys_map().insert(user_id@, session_key@),
            final(self).owner_view() == (match old(self).owner_view() {
                Some(o) => Some(o),
                None => Some(user_id@),
            }),
            final(self).spec_signed_in(),
    {
        let promote = self.owner_id.is_none();
        let owner_copy = if promote {
            Some(user_id.clone())
        } else {
            None
        };
        self.upsert(user_id, session_key);
        if promote {
            self.owner_id = owner_copy;
        }
    }

    /// Full resynchronization from a backend account list: the stored keys
    /// are replaced wholesale (entries absent from `pairs` are dropped, later
    /// duplicates win) and the owner is reset to the backend-reported owner.
    pub fn resync_accounts(&mut self, owner: Option<String>, pairs: Vec<(String, String)>)
        ensures
            final(self).wf(),
            final(self).keys_map() == fold_pairs(view_pairs(pairs@)),
            final(self).owner_view() == (match owner {
                Some(o) => Some(o@),
                None => None,
            }),
    {
        let ghost ps = view_pairs(pairs@);
        self.rpc_session_keys = Vec::new();
        proof {
            lemma_view_pairs_len(pairs@);
            assert(self.pairs() =~= Seq::<(Seq<char>, Seq<char>)>::empty());
            assert(self.keys_map() =~= Map::<Seq<char>, Seq<char>>::empty());
            assert(ps.take(0) =~= Seq::<(Seq<char>, Seq<char>)>::empty());
            assert(fold_pairs(ps.take(0)) == Map::<Seq<char>, Seq<char>>::empty());
        }
        let n = pairs.len();
        let mut i: usize = 0;
        while i < n
            invariant
                i <= n,
                n == pairs@.len(),
                ps == view_pairs(pairs@),
                ps.len() == n,
                self.wf(),
                self.keys_map() == fold_pairs(ps.take(i as int)),
                self.owner_id == old(self).owner_id,
            decreases n - i,
        {
            let user_id = pairs[i].0.clone();
            let key = pairs[i].1.clone();
            proof {
                lemma_view_pairs_index(pairs@, i as int);
                assert(ps.take(i as int + 1).drop_last() =~= ps.take(i as int));
                assert(ps.take(i as int + 1).last() == ps[i as int]);
            }
            self.upsert(user_id, key);
            i = i + 1;
        }
        proof {
            assert(ps.take(n as int) =~= ps);
        }
        self.owner_id = owner;
    }

    /// The registered user ids, in storage order — one per account, no
    /// duplicates while the registry is well formed.
    pub fn user_ids(&self) -> (r: Vec<String>)
        ensures
            r@.len() == self.rpc_session_keys@.len(),
            forall|i: int|
                0 <= i < r@.len() ==> (#[trigger] r@[i])@ == self.rpc_session_keys@[i].0@,
    {
        let mut out: Vec<String> = Vec::new();
        let mut i: usize = 0;
        while i < self.rpc_session_keys.len()
            invariant
                i <= self.rpc_session_keys@.len(),
                out@.len() == i,
                forall|a: int|
                    0 <= a < i ==> (#[trigger] out@[a])@ == self.rpc_session_keys@[a].0@,
            decreases self.rpc_session_keys@.len() - i,
        {
            out.push(self.rpc_session_keys[i].0.clone());
            i = i + 1;
        }
        out
    }
}

/// A registry holding a key for some user is signed in.
pub proof fn lemma_signed_in_when_key_held(r: AccountList, u: Seq<char>)
    requires
        r.keys_map().contains_key(u),
    ensures
        r.spec_signed_in(),
{
    if r.rpc_session_keys@.len() == 0 {
        assert(r.pairs().len() == 0) by {
            lemma_view_pairs_len(r.rpc_session_keys@);
        }
        assert(pair_lookup(r.pairs(), u) is None);
    }
}

} // verus!
