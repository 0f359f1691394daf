//! The tables of the position engine: open positions by (owner, id), and the
//! next id of each owner.
use vstd::prelude::*;
use crate::account::AccountId;
use crate::position::Position;

verus! {

/// Open positions, each stored once under (owner, id).
#[derive(Clone)]
pub struct PositionBook {
    entries: Vec<Position>,
    map: Ghost<Map<(AccountId, u128), Position>>,
}

pub open spec fn key_of(p: Position) -> (AccountId, u128) {
    (p.user, p.id)
}

impl PositionBook {
    pub closed spec fn view(&self) -> Map<(AccountId, u128), Position> {
        self.map@
    }

    pub closed spec fn wf(&self) -> bool {
        &&& forall|i: int|
            0 <= i < self.entries@.len() ==> #[trigger] self.map@.contains_key(key_of(self.entries@[i]))
                && self.map@[key_of(self.entries@[i])] == self.entries@[i]
        &&& forall|k: (AccountId, u128)|
            #[trigger] self.map@.contains_key(k) ==> exists|i: int|
                0 <= i < self.entries@.len() && #[trigger] key_of(self.entries@[i]) == k
        &&& forall|i: int, j: int|
            0 <= i < j < self.entries@.len() ==> #[trigger] key_of(self.entries@[i]) != #[trigger] key_of(
                self.entries@[j],
            )
        &&& forall|k: (AccountId, u128)| #[trigger]
            self.map@.contains_key(k) ==> key_of(self.map@[k]) == k
    }

    pub fn new() -> (r: PositionBook)
        ensures
            r.wf(),
            r@ == Map::<(AccountId, u128), Position>::empty(),
    {
        PositionBook { entries: Vec::new(), map: Ghost(Map::empty()) }
    }

    fn find(&self, user: &AccountId, id: u128) -> (r: Option<usize>)
        requires
            self.wf(),
        ensures
            r matches Some(i) ==> i < self.entries@.len() && key_of(self.entries@[i as int]) == (*user, id),
            r is None ==> !self@.contains_key((*user, id)),
    {
        let mut i: usize = 0;
        while i < self.entries.len()
            invariant
                self.wf(),
                0 <= i <= self.entries@.len(),
                forall|j: int| 0 <= j < i ==> key_of(self.entries@[j]) != (*user, id),
            decreases self.entries@.len() - i,
        {
            if self.entries[i].id == id && self.entries[i].user == *user {
                return Some(i);
            }
            i = i + 1;
        }
        proof {
            if self.map@.contains_key((*user, id)) {
                let j = choose|j: int| 0 <= j < self.entries@.len() && #[trigger] key_of(self.entries@[j]) == (*user, id);
                assert(key_of(self.entries@[j]) == (*user, id));
            }
        }
        None
    }

    /// The position stored under (user, id), if any.
    pub fn get(&self, user: &AccountId, id: u128) -> (r: Option<Position>)
        requires
            self.wf(),
        ensures
            r is Some <==> self@.contains_key((*user, id)),
            r matches Some(p) ==> p == self@[(*user, id)],
    {
        match self.find(user, id) {
            Some(i) => {
                assert(self.map@.contains_key(key_of(self.entries@[i as int])));
                Some(self.entries[i])
            },
            None => None,
        }
    }

    /// Every key of the book is the key of its position.
    pub proof fn lemma_keys(&self, k: (AccountId, u128))
        requires
            self.wf(),
            self@.contains_key(k),
        ensures
            key_of(self@[k]) == k,
    {
    }

    /// Stores `p`, whose key is not yet in the book.
    pub fn insert(&mut self, p: Position)
        requires
            old(self).wf(),
            !old(self)@.contains_key(key_of(p)),
        ensures
            final(self).wf(),
            final(self)@ == old(self)@.insert(key_of(p), p),
    {
        let ghost old_entries = self.entries@;
        self.entries.push(p);
        proof {
            self.map@ = self.map@.insert(key_of(p), p);
            assert forall|q: (AccountId, u128)| #[trigger] self.map@.contains_key(q) implies exists|j: int|
                0 <= j < self.entries@.len() && #[trigger] key_of(self.entries@[j]) == q by {
                if q == key_of(p) {
                    assert(key_of(self.entries@[old_entries.len() as int]) == q);
                } else {
                    let j = choose|j: int| 0 <= j < old_entries.len() && #[trigger] key_of(old_entries[j]) == q;
                    assert(key_of(self.entries@[j]) == q);
                }
            }
            assert forall|a: int, b: int| 0 <= a < b < self.entries@.len() implies #[trigger] key_of(
                self.entries@[a],
            ) != #[trigger] key_of(self.entries@[b]) by {
                if b == old_entries.len() {
                    assert(old(self).map@.contains_key(key_of(old_entries[a])));
                } else {
                    assert(key_of(old_entries[a]) != key_of(old_entries[b]));
                }
            }
            assert forall|j: int| 0 <= j < self.entries@.len() implies #[trigger] self.map@.contains_key(
                key_of(self.entries@[j]),
            ) && self.map@[key_of(self.entries@[j])] == self.entries@[j] by {
                if j < old_entries.len() {
                    assert(old(self).map@.contains_key(key_of(old_entries[j])));
                }
            }
        }
    }

    /// Removes the position stored under (user, id). The order of the others
    /// is not kept.
    #[verifier::spinoff_prover]
    pub fn remove(&mut self, user: &AccountId, id: u128)
        requires
            old(self).wf(),
            old(self)@.contains_key((*user, id)),
        ensures
            final(self).wf(),
            final(self)@ == old(self)@.remove((*user, id)),
    {
        let i = match self.find(user, id) {
            Some(i) => i,
            None => return,
        };
        let k = (*user, id);
        let ghost old_entries = self.entries@;
        self.entries.swap_remove(i);
        proof {
            self.map@ = self.map@.remove(k);
            let n = old_entries.len() - 1;
            assert forall|j: int| 0 <= j < self.entries@.len() implies #[trigger] self.entries@[j] == if j == i {
                old_entries[n]
            } else {
                old_entries[j]
            } by {}
            assert forall|q: (AccountId, u128)| #[trigger] self.map@.contains_key(q) implies exists|j: int|
                0 <= j < self.entries@.len() && #[trigger] key_of(self.entries@[j]) == q by {
                let j = choose|j: int| 0 <= j < old_entries.len() && #[trigger] key_of(old_entries[j]) == q;
                if j == n {
                    assert(key_of(self.entries@[i as int]) == q);
                } else {
                    assert(key_of(self.entries@[j]) == q);
                }
            }
            assert forall|a: int, b: int| 0 <= a < b < self.entries@.len() implies #[trigger] key_of(
                self.entries@[a],
            ) != #[trigger] key_of(self.entries@[b]) by {
                let oa = if a == i { n } else { a };
                let ob = if b == i { n } else { b };
                assert(oa != ob);
                if oa < ob {
                    assert(key_of(old_entries[oa]) != key_of(old_entries[ob]));
                } else {
                    assert(key_of(old_entries[ob]) != key_of(old_entries[oa]));
                }
            }
            assert forall|j: int| 0 <= j < self.entries@.len() implies #[trigger] self.map@.contains_key(
                key_of(self.entries@[j]),
            ) && self.map@[key_of(self.entries@[j])] == self.entries@[j] by {
                let oj = if j == i { n } else { j };
                assert(self.entries@[j] == old_entries[oj]);
                assert(oj != i);
                if oj < i {
                    assert(key_of(old_entries[oj]) != key_of(old_entries[i as int]));
                } else {
                    assert(key_of(old_entries[i as int]) != key_of(old_entries[oj]));
                }
                assert(old(self).map@.contains_key(key_of(old_entries[oj])));
            }
            assert(self.wf());
        }
    }

    /// The positions of `user`, in no particular order.
    pub fn positions_of(&self, user: &AccountId) -> (r: Vec<Position>)
        requires
            self.wf(),
        ensures
            forall|i: int| 0 <= i < r@.len() ==> #[trigger] r@[i].user == *user && self@.contains_key(key_of(r@[i]))
                && self@[key_of(r@[i])] == r@[i],
            forall|id: u128| #[trigger]
                self@.contains_key((*user, id)) ==> exists|i: int| 0 <= i < r@.len() && #[trigger] r@[i].id == id,
            forall|i: int, j: int| 0 <= i < j < r@.len() ==> #[trigger] r@[i].id != #[trigger] r@[j].id,
    {
        let mut out: Vec<Position> = Vec::new();
        let ghost mut src: Seq<int> = Seq::empty();
        let mut i: usize = 0;
        while i < self.entries.len()
            invariant
                self.wf(),
                0 <= i <= self.entries@.len(),
                src.len() == out@.len(),
                forall|t: int| 0 <= t < out@.len() ==> 0 <= #[trigger] src[t] < i && out@[t] == self.entries@[src[t]],
                forall|t: int| 0 <= t < out@.len() ==> #[trigger] out@[t].user == *user,
                forall|a: int, b: int| 0 <= a < b < out@.len() ==> #[trigger] src[a] < #[trigger] src[b],
                forall|j: int|
                    0 <= j < i && #[trigger] self.entries@[j].user == *user ==> exists|t: int|
                        0 <= t < out@.len() && #[trigger] src[t] == j,
            decreases self.entries@.len() - i,
        {
            let p = self.entries[i];
            let ghost before = src;
            if p.user == *user {
                out.push(p);
                proof {
                    src = src.push(i as int);
                }
            }
            i = i + 1;
            proof {
                assert forall|j: int| 0 <= j < i && #[trigger] self.entries@[j].user == *user implies exists|t: int|
                    0 <= t < out@.len() && #[trigger] src[t] == j by {
                    if j == i - 1 {
                        assert(src[src.len() - 1] == j);
                    } else {
                        let t = choose|t: int| 0 <= t < before.len() && #[trigger] before[t] == j;
                        assert(src[t] == j);
                    }
                }
            }
        }
        proof {
            assert forall|t: int| 0 <= t < out@.len() implies #[trigger] out@[t].user == *user && self.map@.contains_key(
                key_of(out@[t]),
            ) && self.map@[key_of(out@[t])] == out@[t] by {
                assert(self.map@.contains_key(key_of(self.entries@[src[t]])));
            }
            assert forall|id: u128| #[trigger] self.map@.contains_key((*user, id)) implies exists|t: int|
                0 <= t < out@.len() && #[trigger] out@[t].id == id by {
                let j = choose|j: int| 0 <= j < self.entries@.len() && #[trigger] key_of(self.entries@[j]) == (*user, id);
                assert(self.entries@[j].user == *user);
                let t = choose|t: int| 0 <= t < out@.len() && #[trigger] src[t] == j;
                assert(out@[t].id == id);
            }
            assert forall|a: int, b: int| 0 <= a < b < out@.len() implies #[trigger] out@[a].id != #[trigger] out@[b].id by {
                assert(src[a] < src[b]);
                assert(key_of(self.entries@[src[a]]) != key_of(self.entries@[src[b]]));
            }
        }
        out
    }
}

/// The next id of each owner; an owner not yet seen starts at zero.
#[derive(Clone)]
pub struct IdCounters {
    entries: Vec<(AccountId, u128)>,
    map: Ghost<Map<AccountId, u128>>,
}

impl IdCounters {
    pub closed spec fn view(&self) -> Map<AccountId, u128> {
        self.map@
    }

    pub open spec fn of(&self, user: AccountId) -> u128 {
        if self@.contains_key(user) {
            self@[user]
        } else {
            0
        }
    }

    pub closed spec fn wf(&self) -> bool {
        &&& forall|i: int|
            0 <= i < self.entries@.len() ==> #[trigger] self.map@.contains_key(self.entries@[i].0)
                && self.map@[self.entries@[i].0] == self.entries@[i].1
        &&& forall|u: AccountId|
            #[trigger] self.map@.contains_key(u) ==> exists|i: int|
                0 <= i < self.entries@.len() && #[trigger] self.entries@[i].0 == u
        &&& forall|i: int, j: int|
            0 <= i < j < self.entries@.len() ==> #[trigger] self.entries@[i].0 != #[trigger] self.entries@[j].0
    }

    pub fn new() -> (r: IdCounters)
        ensures
            r.wf(),
            r@ == Map::<AccountId, u128>::empty(),
    {
        IdCounters { entries: Vec::new(), map: Ghost(Map::empty()) }
    }

    fn find(&self, user: &AccountId) -> (r: Option<usize>)
        requires
            self.wf(),
        ensures
            r matches Some(i) ==> i < self.entries@.len() && self.entries@[i as int].0 == *user,
            r is None ==> !self@.contains_key(*user),
    {
        let mut i: usize = 0;
        while i < self.entries.len()
            invariant
                self.wf(),
                0 <= i <= self.entries@.len(),
                forall|j: int| 0 <= j < i ==> self.entries@[j].0 != *user,
            decreases self.entries@.len() - i,
        {
            if self.entries[i].0 == *user {
                return Some(i);
            }
            i = i + 1;
        }
        proof {
            if self.map@.contains_key(*user) {
                let j = choose|j: int| 0 <= j < self.entries@.len() && #[trigger] self.entries@[j].0 == *user;
                assert(self.entries@[j].0 == *user);
            }
        }
        None
    }

    pub fn get(&self, user: &AccountId) -> (r: u128)
        requires
            self.wf(),
        ensures
            r == self.of(*user),
    {
        match self.find(user) {
            Some(i) => {
                assert(self.map@.contains_key(self.entries@[i as int].0));
                self.entries[i].1
            },
            None => 0,
        }
    }

    pub fn set(&mut self, user: &AccountId, next: u128)
        requires
            old(self).wf(),
        ensures
            final(self).wf(),
            final(self)@ == old(self)@.insert(*user, next),
    {
        let ghost old_entries = self.entries@;
        match self.find(user) {
            Some(i) => {
                self.entries.set(i, (*user, next));
                proof {
                    self.map@ = self.map@.insert(*user, next);
                    assert forall|q: AccountId| #[trigger] self.map@.contains_key(q) implies exists|j: int|
                        0 <= j < self.entries@.len() && #[trigger] self.entries@[j].0 == q by {
                        let j = choose|j: int| 0 <= j < old_entries.len() && #[trigger] old_entries[j].0 == q;
                        assert(self.entries@[j].0 == q);
                    }
                    assert forall|j: int| 0 <= j < self.entries@.len() implies #[trigger] self.map@.contains_key(
                        self.entries@[j].0,
                    ) && self.map@[self.entries@[j].0] == self.entries@[j].1 by {
                        if j != i {
                            assert(old(self).map@.contains_key(old_entries[j].0));
                        }
                    }
                }
            },
            None => {
                self.entries.push((*user, next));
                proof {
                    self.map@ = self.map@.insert(*user, next);
                    assert forall|q: AccountId| #[trigger] self.map@.contains_key(q) implies exists|j: int|
                        0 <= j < self.entries@.len() && #[trigger] self.entries@[j].0 == q by {
                        if q == *user {
                            assert(self.entries@[old_entries.len() as int].0 == q);
                        } else {
                            let j = choose|j: int| 0 <= j < old_entries.len() && #[trigger] old_entries[j].0 == q;
                            assert(self.entries@[j].0 == q);
                        }
                    }
                    assert forall|j: int| 0 <= j < self.entries@.len() implies #[trigger] self.map@.contains_key(
                        self.entries@[j].0,
                    ) && self.map@[self.entries@[j].0] == self.entries@[j].1 by {
                        if j < old_entries.len() {
                            assert(old(self).map@.contains_key(old_entries[j].0));
                        }
                    }
                    assert forall|a: int, b: int| 0 <= a < b < self.entries@.len() implies #[trigger] self.entries@[a].0
                        != #[trigger] self.entries@[b].0 by {
                        if b == old_entries.len() {
                            assert(old(self).map@.contains_key(old_entries[a].0));
                        } else {
                            assert(old_entries[a].0 != old_entries[b].0);
                        }
                    }
                }
            },
        }
    }
}

} // verus!
