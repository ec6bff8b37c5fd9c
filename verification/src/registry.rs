//! The connection registry: which users are connected, and on which
//! outbound channel. One live entry per user; a later registration for the
//! same user replaces the earlier channel.

use vstd::prelude::*;

verus! {

/// True when `s` holds an entry for the user `k`.
pub open spec fn seq_has_key(s: Seq<(u128, u64)>, k: u128) -> bool {
    exists|i: int| 0 <= i < s.len() && s[i].0 == k
}

/// The position of the entry for `k` (meaningful only when the keys of `s`
/// are unique and `k` is present).
pub open spec fn key_index(s: Seq<(u128, u64)>, k: u128) -> int {
    choose|i: int| 0 <= i < s.len() && s[i].0 == k
}

/// Every user occurs in at most one entry.
pub open spec fn unique_keys(s: Seq<(u128, u64)>) -> bool {
    forall|i: int, j: int|
        0 <= i < s.len() && 0 <= j < s.len() && s[i].0 == s[j].0 ==> i == j
}

proof fn lemma_key_at(s: Seq<(u128, u64)>, i: int)
    requires
        unique_keys(s),
        0 <= i < s.len(),
    ensures
        seq_has_key(s, s[i].0),
        key_index(s, s[i].0) == i,
{
    assert(seq_has_key(s, s[i].0));
    let j = key_index(s, s[i].0);
    assert(0 <= j < s.len() && s[j].0 == s[i].0);
}

/// Maps each connected user to its outbound channel handle.
pub struct ConnectionRegistry {
    entries: Vec<(u128, u64)>,
}

impl ConnectionRegistry {
    /// The registry as a mathematical map from user id to channel handle.
    pub closed spec fn view(&self) -> Map<u128, u64> {
        Map::new(
            |k: u128| seq_has_key(self.entries@, k),
            |k: u128| self.entries@[key_index(self.entries@, k)].1,
        )
    }

    /// Internal consistency: one entry per user.
    pub closed spec fn wf(&self) -> bool {
        unique_keys(self.entries@)
    }

    /// An empty registry.
    pub fn new() -> (r: ConnectionRegistry)
        ensures
            r.wf(),
            r@ == Map::<u128, u64>::empty(),
    {
        let r = ConnectionRegistry { entries: Vec::new() };
        proof {
            assert(r@ =~= Map::<u128, u64>::empty());
        }
        r
    }

    /// Inserts or replaces the channel for `user` (last registration wins).
    pub fn register(&mut self, user: u128, channel: u64)
        requires
            old(self).wf(),
        ensures
            final(self).wf(),
            final(self)@ == old(self)@.insert(user, channel),
    {
        self.unregister(user);
        let ghost mid = self@;
        let ghost s0 = self.entries@;
        proof {
            assert(!mid.contains_key(user));
            assert(!seq_has_key(s0, user));
        }
        self.entries.push((user, channel));
        proof {
            let s1 = self.entries@;
            assert(s1 == s0.push((user, channel)));
            assert forall|m: int, n: int|
                0 <= m < s1.len() && 0 <= n < s1.len() && s1[m].0 == s1[n].0 implies m == n by {
                if m < s0.len() && n < s0.len() {
                    assert(s0[m].0 == s0[n].0);
                } else if m == s0.len() && n < s0.len() {
                    assert(s0[n].0 == user);
                } else if n == s0.len() && m < s0.len() {
                    assert(s0[m].0 == user);
                }
            }
            assert(unique_keys(s1));
            assert forall|k: u128| seq_has_key(s1, k) implies
                mid.insert(user, channel).contains_key(k)
                    && s1[key_index(s1, k)].1 == mid.insert(user, channel)[k] by {
                let j = key_index(s1, k);
                assert(0 <= j < s1.len() && s1[j].0 == k);
                if k == user {
                    assert(j == s0.len());
                } else {
                    assert(j < s0.len());
                    assert(s0[j].0 == k);
                    lemma_key_at(s0, j);
                    assert(key_index(s1, k) == j);
                }
            }
            assert forall|k: u128| mid.insert(user, channel).contains_key(k) implies
                seq_has_key(s1, k) by {
                if k == user {
                    assert(s1[s0.len() as int].0 == k);
                } else {
                    let j = choose|j: int| 0 <= j < s0.len() && s0[j].0 == k;
                    assert(s1[j].0 == k);
                }
            }
            assert(self@ =~= mid.insert(user, channel));
            assert(self@ =~= old(self)@.insert(user, channel));
        }
    }

    /// Removes the entry for `user`; a no-op when none exists.
    pub fn unregister(&mut self, user: u128)
        requires
            old(self).wf(),
        ensures
            final(self).wf(),
            final(self)@ == old(self)@.remove(user),
    {
        let ghost s0 = self.entries@;
        let mut i: usize = 0;
        while i < self.entries.len()
            invariant
                self.entries@ == s0,
                old(self).entries@ == s0,
                unique_keys(s0),
                0 <= i <= s0.len(),
                forall|j: int| 0 <= j < i ==> s0[j].0 != user,
            decreases s0.len() - i,
        {
            if self.entries[i].0 == user {
                self.entries.remove(i);
                proof {
                    let s1 = self.entries@;
                    assert(s1 == s0.remove(i as int));
                    assert forall|m: int, n: int|
                        0 <= m < s1.len() && 0 <= n < s1.len() && s1[m].0 == s1[n].0 implies m == n by {
                        let m0: int = if m < i { m } else { m + 1 };
                        let n0: int = if n < i { n } else { n + 1 };
                        assert(s1[m] == s0[m0] && s1[n] == s0[n0]);
                    }
                    assert(unique_keys(s1));
                    assert forall|k: u128| #[trigger] seq_has_key(s1, k) implies
                        k != user && seq_has_key(s0, k) by {
                        let j = choose|j: int| 0 <= j < s1.len() && s1[j].0 == k;
                        let j0: int = if j < i { j } else { j + 1 };
                        assert(s0[j0].0 == k);
                        if k == user {
                            lemma_key_at(s0, j0);
                            assert(j0 == i);
                        }
                    }
                    assert forall|k: u128| k != user && #[trigger] seq_has_key(s0, k) implies
                        seq_has_key(s1, k) && s1[key_index(s1, k)].1 == s0[key_index(s0, k)].1 by {
                        let j0 = key_index(s0, k);
                        assert(0 <= j0 < s0.len() && s0[j0].0 == k);
                        assert(j0 != i);
                        let j1: int = if j0 < i { j0 } else { j0 - 1 };
                        assert(s1[j1] == s0[j0]);
                        assert(seq_has_key(s1, k));
                        let j2 = key_index(s1, k);
                        assert(0 <= j2 < s1.len() && s1[j2].0 == k);
                        let j3: int = if j2 < i { j2 } else { j2 + 1 };
                        assert(s0[j3] == s1[j2]);
                        lemma_key_at(s0, j3);
                        assert(j3 == j0);
                    }
                    assert forall|k: u128| self@.contains_key(k)
                        == old(self)@.remove(user).contains_key(k) by {
                        assert(self@.contains_key(k) == seq_has_key(s1, k));
                        assert(old(self)@.contains_key(k) == seq_has_key(s0, k));
                        assert(old(self)@.remove(user).contains_key(k) == (seq_has_key(s0, k)
                            && k != user));
                        if seq_has_key(s1, k) {
                            assert(k != user && seq_has_key(s0, k));
                        }
                        if k != user && seq_has_key(s0, k) {
                            assert(seq_has_key(s1, k));
                        }
                    }
                    assert forall|k: u128| self@.contains_key(k) implies
                        self@[k] == old(self)@.remove(user)[k] by {
                        assert(k != user && seq_has_key(s0, k));
                        assert(s1[key_index(s1, k)].1 == s0[key_index(s0, k)].1);
                    }
                    assert(self@ =~= old(self)@.remove(user));
                }
                return;
            }
            i += 1;
        }
        proof {
            assert(!seq_has_key(s0, user));
            assert(self@ =~= old(self)@.remove(user));
        }
    }

    /// Looks up the channel registered for `user`.
    pub fn lookup(&self, user: u128) -> (r: Option<u64>)
        requires
            self.wf(),
        ensures
            r == if self@.contains_key(user) {
                Some(self@[user])
            } else {
                None::<u64>
            },
    {
        let mut i: usize = 0;
        while i < self.entries.len()
            invariant
                self.wf(),
                0 <= i <= self.entries@.len(),
                forall|j: int| 0 <= j < i ==> self.entries@[j].0 != user,
            decreases self.entries@.len() - i,
        {
            if self.entries[i].0 == user {
                proof {
                    lemma_key_at(self.entries@, i as int);
                }
                return Some(self.entries[i].1);
            }
            i += 1;
        }
        proof {
            assert(!seq_has_key(self.entries@, user));
        }
        None
    }

    /// The users currently connected, each exactly once.
    pub fn users(&self) -> (r: Vec<u128>)
        requires
            self.wf(),
        ensures
            forall|u: u128| r@.contains(u) <==> self@.contains_key(u),
            forall|i: int, j: int| 0 <= i < r@.len() && 0 <= j < r@.len() && r@[i] == r@[j] ==> i == j,
    {
        let mut r: Vec<u128> = Vec::new();
        let mut i: usize = 0;
        while i < self.entries.len()
            invariant
                self.wf(),
                0 <= i <= self.entries@.len(),
                r@.len() == i,
                forall|j: int| 0 <= j < i ==> r@[j] == self.entries@[j].0,
            decreases self.entries@.len() - i,
        {
            r.push(self.entries[i].0);
            i += 1;
        }
        proof {
            assert forall|u: u128| r@.contains(u) implies self@.contains_key(u) by {
                let j = choose|j: int| 0 <= j < r@.len() && r@[j] == u;
                assert(self.entries@[j].0 == u);
            }
            assert forall|u: u128| self@.contains_key(u) implies r@.contains(u) by {
                let j = choose|j: int| 0 <= j < self.entries@.len() && self.entries@[j].0 == u;
                assert(r@[j] == u);
            }
        }
        r
    }
}

} // verus!
