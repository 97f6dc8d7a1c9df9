use vstd::prelude::*;

use crate::address::Address;
use crate::codec::{push_u64, u64_be};
use crate::crypto::{signature_valid, verify_detached};

verus! {

/// How long, in seconds, a message may wait for a quorum before its claims are dropped.
pub const CLAIM_TIMEOUT_SECS: u64 = 120;

/// Number of distinct signers whose agreement settles an outcome.
pub const QUORUM_SIZE: usize = 5;

/// What became of one contribution.
#[derive(PartialEq, Eq, Structural)]
pub enum Contribution {
    /// The id was settled earlier: the contribution is dropped.
    Ignored,
    /// Recorded; the outcome now has this many distinct signers.
    Pending(usize),
    /// This contribution brought the outcome to quorum: the id is now settled.
    Quorum,
}

/// Why a contribution was refused.
#[derive(PartialEq, Eq, Structural, Clone, Copy)]
pub enum ConsensusError {
    InvalidSignature,
}

/// The bytes a signer signs to claim `outcome` for message `id`: the id in eight big-endian
/// bytes, then the outcome.
pub open spec fn claim_data(id: u64, outcome: Seq<u8>) -> Seq<u8> {
    u64_be(id) + outcome
}

/// The signers gathered for one outcome of one message.
struct Claim {
    id: u64,
    outcome: Vec<u8>,
    signers: Vec<Address>,
    /// When the first contribution came.
    opened: u64,
}

/// Signed claims about the outcome of messages, gathered until a quorum of distinct signers
/// agrees on one outcome.
pub struct Accumulator {
    claims: Vec<Claim>,
    settled: Vec<u64>,
}

/// Whether the claim `c` is about `outcome` of message `id`.
spec fn claim_is(c: Claim, id: u64, outcome: Seq<u8>) -> bool {
    c.id == id && c.outcome@ == outcome
}

/// Whether a claim opened at `opened` has timed out at `now`.
pub open spec fn claim_expired(opened: u64, now: u64) -> bool {
    now >= opened + CLAIM_TIMEOUT_SECS
}

spec fn signer_at(c: Claim, j: int) -> Seq<u8> {
    c.signers@[j]@
}

impl Accumulator {
    /// Whether message `id` has been settled.
    pub closed spec fn is_settled(&self, id: u64) -> bool {
        self.settled@.contains(id)
    }

    /// Whether `signer` has a recorded contribution for `outcome` of message `id`.
    pub closed spec fn has_signed(&self, id: u64, outcome: Seq<u8>, signer: Seq<u8>) -> bool {
        exists|i: int, j: int|
            0 <= i < self.claims@.len() && claim_is(self.claims@[i], id, outcome) && 0 <= j
                < self.claims@[i].signers@.len() && #[trigger] signer_at(self.claims@[i], j) == signer
    }

    /// Number of distinct signers recorded for `outcome` of message `id`.
    pub closed spec fn count(&self, id: u64, outcome: Seq<u8>) -> nat {
        if exists|i: int| 0 <= i < self.claims@.len() && claim_is(self.claims@[i], id, outcome) {
            let i = choose|i: int| 0 <= i < self.claims@.len() && claim_is(self.claims@[i], id, outcome);
            self.claims@[i].signers@.len()
        } else {
            0
        }
    }

    /// Whether some claim about message `id` is held.
    pub closed spec fn has_claim_of(&self, id: u64) -> bool {
        exists|i: int| 0 <= i < self.claims@.len() && self.claims@[i].id == id
    }

    /// Whether some claim about message `id` was opened at least `CLAIM_TIMEOUT_SECS`
    /// before `now`.
    pub closed spec fn has_expired_claim(&self, id: u64, now: u64) -> bool {
        exists|i: int| 0 <= i < self.claims@.len() && self.claims@[i].id == id
            && claim_expired(self.claims@[i].opened, now)
    }

    pub closed spec fn wf(&self) -> bool {
        &&& forall|i: int, k: int| 0 <= i < self.claims@.len() && 0 <= k < self.claims@.len() && i != k
            ==> !claim_is(self.claims@[i], self.claims@[k].id, self.claims@[k].outcome@)
        &&& forall|i: int| 0 <= i < self.claims@.len() ==> self.claims@[i].signers@.len() < QUORUM_SIZE
        &&& forall|i: int| 0 <= i < self.claims@.len() ==> !self.settled@.contains(#[trigger] self.claims@[i].id)
        &&& forall|i: int, j: int, k: int| 0 <= i < self.claims@.len() && 0 <= j < k < self.claims@[i].signers@.len()
            ==> signer_at(self.claims@[i], j) != signer_at(self.claims@[i], k)
    }

    /// What adding a contribution by `signer` for `outcome` of message `id` yields.
    pub open spec fn next(&self, id: u64, outcome: Seq<u8>, signer: Seq<u8>) -> Contribution {
        if self.is_settled(id) {
            Contribution::Ignored
        } else {
            let n = if self.has_signed(id, outcome, signer) {
                self.count(id, outcome)
            } else {
                self.count(id, outcome) + 1
            };
            if n >= QUORUM_SIZE {
                Contribution::Quorum
            } else {
                Contribution::Pending(n as usize)
            }
        }
    }

    pub fn new() -> (r: Accumulator)
        ensures
            r.wf(),
            forall|id: u64| !r.is_settled(id),
            forall|id: u64, o: Seq<u8>| r.count(id, o) == 0,
            forall|id: u64, o: Seq<u8>, a: Seq<u8>| !r.has_signed(id, o, a),
            forall|id: u64, t: u64| !r.has_expired_claim(id, t),
    {
        Accumulator { claims: Vec::new(), settled: Vec::new() }
    }

    /// `self` and `other` agree on every claim but those of message `id`, and on whether every
    /// other message is settled.
    pub open spec fn agrees_except(&self, other: &Accumulator, id: u64) -> bool {
        &&& forall|id2: u64, o: Seq<u8>, a: Seq<u8>| id2 != id ==> self.has_signed(id2, o, a) == other.has_signed(id2, o, a)
        &&& forall|id2: u64, o: Seq<u8>| id2 != id ==> self.count(id2, o) == other.count(id2, o)
        &&& forall|id2: u64| id2 != id ==> self.is_settled(id2) == other.is_settled(id2)
    }

    /// `self` is `before` with `signer` added for `outcome` of message `id`, which now has `n`
    /// signers and is not settled.
    pub open spec fn recorded(&self, before: &Accumulator, id: u64, outcome: Seq<u8>, signer: Seq<u8>, n: nat) -> bool {
        &&& !self.is_settled(id)
        &&& self.count(id, outcome) == n
        &&& forall|a: Seq<u8>| self.has_signed(id, outcome, a) == (before.has_signed(id, outcome, a) || a == signer)
        &&& forall|o: Seq<u8>, a: Seq<u8>| o != outcome ==> self.has_signed(id, o, a) == before.has_signed(id, o, a)
            && self.count(id, o) == before.count(id, o)
    }

    /// Records a contribution by `signer` for `outcome` of message `id`. Once `QUORUM_SIZE`
    /// distinct signers agree on one outcome, the message is settled, its claims are dropped,
    /// and later contributions for it are ignored.
    pub fn add(&mut self, id: u64, outcome: &Vec<u8>, signer: &Address, now: u64) -> (r: Contribution)
        requires
            old(self).wf(),
        ensures
            final(self).wf(),
            r == old(self).next(id, outcome@, signer@),
            final(self).agrees_except(old(self), id),
            r is Ignored ==> final(self).is_settled(id) && forall|o: Seq<u8>, a: Seq<u8>|
                final(self).has_signed(id, o, a) == old(self).has_signed(id, o, a)
                && final(self).count(id, o) == old(self).count(id, o),
            r is Quorum ==> final(self).is_settled(id) && forall|o: Seq<u8>, a: Seq<u8>|
                !final(self).has_signed(id, o, a) && final(self).count(id, o) == 0,
            r is Pending ==> final(self).recorded(old(self), id, outcome@, signer@, r->Pending_0 as nat),
    {
        if self.settled_contains(id) {
            return Contribution::Ignored;
        }
        proof {
            self.lemma_count_at_none(id, outcome@);
        }
        let r = match self.find_claim(id, outcome) {
            Some(i) => {
                proof { self.lemma_count_at(i as int); }
                if signers_contain(&self.claims[i].signers, signer) {
                    return Contribution::Pending(self.claims[i].signers.len());
                }
                if self.claims[i].signers.len() + 1 >= QUORUM_SIZE {
                    Contribution::Quorum
                } else {
                    let ghost before = *self;
                    let mut c = self.claims.remove(i);
                    c.signers.push(signer.copy());
                    let n = c.signers.len();
                    self.claims.insert(i, c);
                    assert forall|k: int| 0 <= k < self.claims@.len() && k != i implies self.claims@[k] == before.claims@[k] by {
                        if k < i {
                            assert(self.claims@[k] == before.claims@[k]);
                        } else {
                            assert(self.claims@[k] == before.claims@[k]);
                        }
                    }
                    proof {
                        self.lemma_after_push(&before, i as int, signer@);
                        assert(self.recorded(&before, id, outcome@, signer@, n as nat));
                    }
                    return Contribution::Pending(n);
                }
            },
            None => {
                if 1 >= QUORUM_SIZE {
                    Contribution::Quorum
                } else {
                    let ghost before = *self;
                    let mut signers: Vec<Address> = Vec::new();
                    signers.push(signer.copy());
                    self.claims.push(Claim { id, outcome: outcome.clone(), signers, opened: now });
                    proof {
                        self.lemma_after_new(&before, id, outcome@, signer@);
                        Self::lemma_key_absent(&before, id, outcome@);
                        assert(!self.is_settled(id));
                        assert(self.count(id, outcome@) == 1);
                        assert forall|a: Seq<u8>| self.has_signed(id, outcome@, a) == (before.has_signed(id, outcome@, a) || a == signer@) by {
                            assert(!before.has_signed(id, outcome@, a));
                        }
                        assert(self.recorded(&before, id, outcome@, signer@, 1));
                    }
                    return Contribution::Pending(1);
                }
            },
        };
        let ghost before = *self;
        self.drop_claims(id);
        let ghost mid = *self;
        self.settled.push(id);
        proof {
            assert forall|id2: u64| id2 != id implies self.is_settled(id2) == before.is_settled(id2) by {
                assert(self.settled@ == mid.settled@.push(id));
                if mid.settled@.contains(id2) {
                    let q = choose|q: int| 0 <= q < mid.settled@.len() && mid.settled@[q] == id2;
                    assert(self.settled@[q] == id2);
                }
            }
            assert(self.settled@[self.settled@.len() - 1] == id);
            assert forall|o: Seq<u8>, a: Seq<u8>| !self.has_signed(id, o, a) && self.count(id, o) == 0 by {
                Self::lemma_key_absent(self, id, o);
            }
        }
        r
    }

    /// Drops every claim about message `id`.
    fn drop_claims(&mut self, id: u64)
        requires
            old(self).wf(),
        ensures
            final(self).wf(),
            final(self).settled@ == old(self).settled@,
            final(self).agrees_except(old(self), id),
            forall|i: int| 0 <= i < final(self).claims@.len() ==> final(self).claims@[i].id != id,
            forall|id2: u64| id2 != id ==> final(self).has_claim_of(id2) == old(self).has_claim_of(id2),
            forall|id2: u64, t: u64| id2 != id ==> final(self).has_expired_claim(id2, t) == old(self).has_expired_claim(id2, t),
            old(self).has_claim_of(id) ==> final(self).claims@.len() < old(self).claims@.len(),
    {
        let ghost start = *self;
        let mut i: usize = 0;
        while i < self.claims.len()
            invariant
                self.wf(),
                i <= self.claims@.len(),
                self.settled@ == start.settled@,
                self.agrees_except(&start, id),
                forall|k: int| 0 <= k < i ==> self.claims@[k].id != id,
                forall|id2: u64| id2 != id ==> self.has_claim_of(id2) == start.has_claim_of(id2),
                forall|id2: u64, t: u64| id2 != id ==> self.has_expired_claim(id2, t) == start.has_expired_claim(id2, t),
                self.claims@.len() < start.claims@.len() || self.claims@ == start.claims@,
            decreases self.claims@.len() - i,
        {
            if self.claims[i].id == id {
                let ghost before = *self;
                let _ = self.claims.remove(i);
                proof {
                    self.lemma_after_remove(&before, i as int);
                    self.lemma_remove_other_ids(&before, i as int);
                }
                assert forall|k: int| 0 <= k < i implies self.claims@[k].id != id by {
                    assert(self.claims@[k] == before.claims@[k]);
                }
            } else {
                i = i + 1;
            }
        }
    }

    proof fn lemma_key_equal(a: &Accumulator, b: &Accumulator, id: u64, o: Seq<u8>, ia: int, ib: int)
        requires
            a.wf(),
            b.wf(),
            0 <= ia < a.claims@.len(),
            0 <= ib < b.claims@.len(),
            claim_is(a.claims@[ia], id, o),
            claim_is(b.claims@[ib], id, o),
            a.claims@[ia].signers@ == b.claims@[ib].signers@,
        ensures
            a.count(id, o) == b.count(id, o),
            forall|s: Seq<u8>| a.has_signed(id, o, s) == b.has_signed(id, o, s),
    {
        assert forall|s: Seq<u8>| a.has_signed(id, o, s) implies b.has_signed(id, o, s) by {
            let (i, j) = choose|i: int, j: int| 0 <= i < a.claims@.len() && claim_is(a.claims@[i], id, o)
                && 0 <= j < a.claims@[i].signers@.len() && #[trigger] signer_at(a.claims@[i], j) == s;
            assert(i == ia);
            assert(signer_at(b.claims@[ib], j) == s);
        }
        assert forall|s: Seq<u8>| b.has_signed(id, o, s) implies a.has_signed(id, o, s) by {
            let (i, j) = choose|i: int, j: int| 0 <= i < b.claims@.len() && claim_is(b.claims@[i], id, o)
                && 0 <= j < b.claims@[i].signers@.len() && #[trigger] signer_at(b.claims@[i], j) == s;
            assert(i == ib);
            assert(signer_at(a.claims@[ia], j) == s);
        }
    }

    proof fn lemma_key_absent(a: &Accumulator, id: u64, o: Seq<u8>)
        requires
            forall|i: int| 0 <= i < a.claims@.len() ==> !claim_is(a.claims@[i], id, o),
        ensures
            a.count(id, o) == 0,
            forall|s: Seq<u8>| !a.has_signed(id, o, s),
    {
    }

    proof fn lemma_count_at_none(&self, id: u64, o: Seq<u8>)
        ensures
            (forall|i: int| 0 <= i < self.claims@.len() ==> !claim_is(self.claims@[i], id, o)) ==> self.count(id, o) == 0
                && forall|s: Seq<u8>| !self.has_signed(id, o, s),
    {
    }

    proof fn lemma_count_at(&self, i: int)
        requires
            self.wf(),
            0 <= i < self.claims@.len(),
        ensures
            self.count(self.claims@[i].id, self.claims@[i].outcome@) == self.claims@[i].signers@.len(),
            forall|s: Seq<u8>| self.has_signed(self.claims@[i].id, self.claims@[i].outcome@, s)
                == exists|j: int| 0 <= j < self.claims@[i].signers@.len() && self.claims@[i].signers@[j]@ == s,
    {
        Self::lemma_key_equal(self, self, self.claims@[i].id, self.claims@[i].outcome@, i, i);
        assert forall|s: Seq<u8>| self.has_signed(self.claims@[i].id, self.claims@[i].outcome@, s) implies
            exists|j: int| 0 <= j < self.claims@[i].signers@.len() && self.claims@[i].signers@[j]@ == s by {
            let (k, j) = choose|k: int, j: int| 0 <= k < self.claims@.len()
                && claim_is(self.claims@[k], self.claims@[i].id, self.claims@[i].outcome@)
                && 0 <= j < self.claims@[k].signers@.len() && #[trigger] signer_at(self.claims@[k], j) == s;
            assert(k == i);
        }
        assert forall|s: Seq<u8>| (exists|j: int| 0 <= j < self.claims@[i].signers@.len() && self.claims@[i].signers@[j]@ == s)
            implies self.has_signed(self.claims@[i].id, self.claims@[i].outcome@, s) by {
            let j = choose|j: int| 0 <= j < self.claims@[i].signers@.len() && self.claims@[i].signers@[j]@ == s;
            assert(signer_at(self.claims@[i], j) == s);
        }
    }

    /// Removing claim `k` leaves every other claim as it was.
    proof fn lemma_after_remove(&self, before: &Accumulator, k: int)
        requires
            before.wf(),
            0 <= k < before.claims@.len(),
            self.claims@ == before.claims@.remove(k),
            self.settled@ == before.settled@,
        ensures
            self.wf(),
            forall|id: u64, o: Seq<u8>| !claim_is(before.claims@[k], id, o) ==> self.count(id, o) == before.count(id, o)
                && forall|s: Seq<u8>| self.has_signed(id, o, s) == before.has_signed(id, o, s),
            self.agrees_except(before, before.claims@[k].id),
    {
        assert forall|id: u64, o: Seq<u8>| !claim_is(before.claims@[k], id, o) implies self.count(id, o) == before.count(id, o)
            && forall|s: Seq<u8>| self.has_signed(id, o, s) == before.has_signed(id, o, s) by {
            self.lemma_remove_key(before, k, id, o);
        }
        let idk = before.claims@[k].id;
        assert forall|id2: u64, o: Seq<u8>, a: Seq<u8>| id2 != idk implies self.has_signed(id2, o, a) == before.has_signed(id2, o, a) by {
            self.lemma_remove_key(before, k, id2, o);
        }
        assert forall|id2: u64, o: Seq<u8>| id2 != idk implies self.count(id2, o) == before.count(id2, o) by {
            self.lemma_remove_key(before, k, id2, o);
        }
    }

    /// Removing claim `k` keeps what is known of every other message.
    proof fn lemma_remove_other_ids(&self, before: &Accumulator, k: int)
        requires
            0 <= k < before.claims@.len(),
            self.claims@ == before.claims@.remove(k),
        ensures
            forall|id: u64| id != before.claims@[k].id ==> self.has_claim_of(id) == before.has_claim_of(id),
            forall|id: u64, t: u64| id != before.claims@[k].id ==> self.has_expired_claim(id, t) == before.has_expired_claim(id, t),
    {
        assert forall|id: u64| id != before.claims@[k].id implies self.has_claim_of(id) == before.has_claim_of(id) by {
            if before.has_claim_of(id) {
                let m = choose|m: int| 0 <= m < before.claims@.len() && before.claims@[m].id == id;
                let m2 = if m < k { m } else { m - 1 };
                assert(self.claims@[m2] == before.claims@[m]);
            }
            if self.has_claim_of(id) {
                let m = choose|m: int| 0 <= m < self.claims@.len() && self.claims@[m].id == id;
                let m2 = if m < k { m } else { m + 1 };
                assert(self.claims@[m] == before.claims@[m2]);
            }
        }
        assert forall|id: u64, t: u64| id != before.claims@[k].id implies self.has_expired_claim(id, t) == before.has_expired_claim(id, t) by {
            if before.has_expired_claim(id, t) {
                let m = choose|m: int| 0 <= m < before.claims@.len() && before.claims@[m].id == id
                    && claim_expired(before.claims@[m].opened, t);
                let m2 = if m < k { m } else { m - 1 };
                assert(self.claims@[m2] == before.claims@[m]);
            }
            if self.has_expired_claim(id, t) {
                let m = choose|m: int| 0 <= m < self.claims@.len() && self.claims@[m].id == id
                    && claim_expired(self.claims@[m].opened, t);
                let m2 = if m < k { m } else { m + 1 };
                assert(self.claims@[m] == before.claims@[m2]);
            }
        }
    }

    proof fn lemma_remove_key(&self, before: &Accumulator, k: int, id: u64, o: Seq<u8>)
        requires
            before.wf(),
            self.wf(),
            0 <= k < before.claims@.len(),
            self.claims@ == before.claims@.remove(k),
            !claim_is(before.claims@[k], id, o),
        ensures
            self.count(id, o) == before.count(id, o),
            forall|s: Seq<u8>| self.has_signed(id, o, s) == before.has_signed(id, o, s),
    {
        if exists|m: int| 0 <= m < before.claims@.len() && claim_is(before.claims@[m], id, o) {
            let m = choose|m: int| 0 <= m < before.claims@.len() && claim_is(before.claims@[m], id, o);
            let m2 = if m < k { m } else { m - 1 };
            assert(self.claims@[m2] == before.claims@[m]);
            Self::lemma_key_equal(self, before, id, o, m2, m);
        } else {
            assert forall|i: int| 0 <= i < self.claims@.len() implies !claim_is(self.claims@[i], id, o) by {
                if i < k {
                    assert(self.claims@[i] == before.claims@[i]);
                } else {
                    assert(self.claims@[i] == before.claims@[i + 1]);
                }
            }
        }
    }

    /// Adding signer `a` to claim `i` changes that claim alone.
    proof fn lemma_after_push(&self, before: &Accumulator, i: int, a: Seq<u8>)
        requires
            before.wf(),
            0 <= i < before.claims@.len(),
            self.claims@.len() == before.claims@.len(),
            self.settled@ == before.settled@,
            forall|k: int| 0 <= k < self.claims@.len() && k != i ==> self.claims@[k] == before.claims@[k],
            self.claims@[i].id == before.claims@[i].id,
            self.claims@[i].outcome@ == before.claims@[i].outcome@,
            self.claims@[i].signers@.len() == before.claims@[i].signers@.len() + 1,
            self.claims@[i].signers@.len() < QUORUM_SIZE,
            forall|j: int| 0 <= j < before.claims@[i].signers@.len() ==> signer_at(self.claims@[i], j) == signer_at(before.claims@[i], j),
            signer_at(self.claims@[i], before.claims@[i].signers@.len() as int) == a,
            !before.has_signed(before.claims@[i].id, before.claims@[i].outcome@, a),
        ensures
            self.wf(),
            self.agrees_except(before, before.claims@[i].id),
            self.count(before.claims@[i].id, before.claims@[i].outcome@) == before.count(before.claims@[i].id, before.claims@[i].outcome@) + 1,
            forall|s: Seq<u8>| self.has_signed(before.claims@[i].id, before.claims@[i].outcome@, s)
                == (before.has_signed(before.claims@[i].id, before.claims@[i].outcome@, s) || s == a),
            forall|o: Seq<u8>, s: Seq<u8>| o != before.claims@[i].outcome@ ==>
                self.has_signed(before.claims@[i].id, o, s) == before.has_signed(before.claims@[i].id, o, s)
                && self.count(before.claims@[i].id, o) == before.count(before.claims@[i].id, o),
    {
        let id = before.claims@[i].id;
        let oi = before.claims@[i].outcome@;
        before.lemma_count_at(i);
        assert forall|j: int, k: int| 0 <= j < k < self.claims@[i].signers@.len() implies
            signer_at(self.claims@[i], j) != signer_at(self.claims@[i], k) by {
            if k == before.claims@[i].signers@.len() {
                assert(signer_at(before.claims@[i], j) == before.claims@[i].signers@[j]@);
            }
        }
        assert(self.wf());
        self.lemma_count_at(i);
        assert forall|s: Seq<u8>| self.has_signed(id, oi, s) == (before.has_signed(id, oi, s) || s == a) by {
            if self.has_signed(id, oi, s) {
                let j = choose|j: int| 0 <= j < self.claims@[i].signers@.len() && self.claims@[i].signers@[j]@ == s;
                if j < before.claims@[i].signers@.len() {
                    assert(signer_at(self.claims@[i], j) == signer_at(before.claims@[i], j));
                    assert(before.claims@[i].signers@[j]@ == s);
                }
            }
            if before.has_signed(id, oi, s) {
                let j = choose|j: int| 0 <= j < before.claims@[i].signers@.len() && before.claims@[i].signers@[j]@ == s;
                assert(signer_at(self.claims@[i], j) == signer_at(before.claims@[i], j));
                assert(self.claims@[i].signers@[j]@ == s);
            }
            if s == a {
                assert(self.claims@[i].signers@[before.claims@[i].signers@.len() as int]@ == s);
            }
        }
        assert forall|id2: u64, o: Seq<u8>| !claim_is(before.claims@[i], id2, o) implies self.count(id2, o) == before.count(id2, o)
            && forall|s: Seq<u8>| self.has_signed(id2, o, s) == before.has_signed(id2, o, s) by {
            if exists|m: int| 0 <= m < before.claims@.len() && claim_is(before.claims@[m], id2, o) {
                let m = choose|m: int| 0 <= m < before.claims@.len() && claim_is(before.claims@[m], id2, o);
                Self::lemma_key_equal(self, before, id2, o, m, m);
            } else {
                assert forall|k: int| 0 <= k < self.claims@.len() implies !claim_is(self.claims@[k], id2, o) by {
                    if k != i {
                        assert(self.claims@[k] == before.claims@[k]);
                    }
                }
            }
        }
    }

    /// Appending a new claim, for a key that had none, with the one signer `a`.
    proof fn lemma_after_new(&self, before: &Accumulator, id: u64, o: Seq<u8>, a: Seq<u8>)
        requires
            before.wf(),
            !before.settled@.contains(id),
            forall|k: int| 0 <= k < before.claims@.len() ==> !claim_is(before.claims@[k], id, o),
            self.claims@.len() == before.claims@.len() + 1,
            self.settled@ == before.settled@,
            forall|k: int| 0 <= k < before.claims@.len() ==> self.claims@[k] == before.claims@[k],
            claim_is(self.claims@[before.claims@.len() as int], id, o),
            self.claims@[before.claims@.len() as int].signers@.len() == 1,
            1 < QUORUM_SIZE,
            signer_at(self.claims@[before.claims@.len() as int], 0) == a,
        ensures
            self.wf(),
            self.agrees_except(before, id),
            self.count(id, o) == 1,
            forall|s: Seq<u8>| self.has_signed(id, o, s) == (s == a),
            forall|o2: Seq<u8>, s: Seq<u8>| o2 != o ==> self.has_signed(id, o2, s) == before.has_signed(id, o2, s)
                && self.count(id, o2) == before.count(id, o2),
    {
        let n = before.claims@.len() as int;
        assert(self.wf());
        self.lemma_count_at(n);
        assert forall|s: Seq<u8>| self.has_signed(id, o, s) == (s == a) by {
            if s == a {
                assert(self.claims@[n].signers@[0]@ == s);
            }
        }
        assert forall|id2: u64, o2: Seq<u8>| !(id2 == id && o2 == o) implies self.count(id2, o2) == before.count(id2, o2)
            && forall|s: Seq<u8>| self.has_signed(id2, o2, s) == before.has_signed(id2, o2, s) by {
            if exists|m: int| 0 <= m < before.claims@.len() && claim_is(before.claims@[m], id2, o2) {
                let m = choose|m: int| 0 <= m < before.claims@.len() && claim_is(before.claims@[m], id2, o2);
                Self::lemma_key_equal(self, before, id2, o2, m, m);
            } else {
                assert forall|k: int| 0 <= k < self.claims@.len() implies !claim_is(self.claims@[k], id2, o2) by {
                    if k < n {
                        assert(self.claims@[k] == before.claims@[k]);
                    }
                }
            }
        }
    }

    /// Records a contribution signed with `signature` under the signer's `public_key`, and
    /// refuses it if the signature does not check out for `claim_data(id, outcome)`.
    pub fn add_signed(
        &mut self,
        id: u64,
        outcome: &Vec<u8>,
        signer: &Address,
        public_key: &Vec<u8>,
        signature: &Vec<u8>,
        now: u64,
    ) -> (r: Result<Contribution, ConsensusError>)
        requires
            old(self).wf(),
        ensures
            final(self).wf(),
            !signature_valid(signature@, claim_data(id, outcome@), public_key@) ==> r == Err::<Contribution, ConsensusError>(
                ConsensusError::InvalidSignature) && *final(self) == *old(self),
            signature_valid(signature@, claim_data(id, outcome@), public_key@) ==> r == Ok::<Contribution, ConsensusError>(
                old(self).next(id, outcome@, signer@)),
            signature_valid(signature@, claim_data(id, outcome@), public_key@) ==> final(self).agrees_except(old(self), id),
    {
        let mut data: Vec<u8> = Vec::new();
        push_u64(&mut data, id);
        let mut i: usize = 0;
        while i < outcome.len()
            invariant
                i <= outcome@.len(),
                data@ == u64_be(id) + outcome@.subrange(0, i as int),
            decreases outcome@.len() - i,
        {
            data.push(outcome[i]);
            assert(outcome@.subrange(0, i + 1) =~= outcome@.subrange(0, i as int).push(outcome@[i as int]));
            i = i + 1;
        }
        assert(outcome@.subrange(0, outcome@.len() as int) =~= outcome@);
        if !verify_detached(signature.as_slice(), data.as_slice(), public_key.as_slice()) {
            return Err(ConsensusError::InvalidSignature);
        }
        Ok(self.add(id, outcome, signer, now))
    }

    /// Drops the claims of every message that has a claim older than `CLAIM_TIMEOUT_SECS` at
    /// `now`, and gives back those messages' ids: their operations have failed.
    pub fn remove_expired(&mut self, now: u64) -> (r: Vec<u64>)
        requires
            old(self).wf(),
        ensures
            final(self).wf(),
            forall|id: u64| final(self).is_settled(id) == old(self).is_settled(id),
            forall|id: u64| !final(self).has_expired_claim(id, now),
            forall|id: u64| old(self).has_expired_claim(id, now) ==> r@.contains(id) && forall|o: Seq<u8>, a: Seq<u8>|
                !final(self).has_signed(id, o, a) && final(self).count(id, o) == 0,
            forall|id: u64| !old(self).has_expired_claim(id, now) ==> !r@.contains(id) && forall|o: Seq<u8>, a: Seq<u8>|
                final(self).has_signed(id, o, a) == old(self).has_signed(id, o, a)
                && final(self).count(id, o) == old(self).count(id, o),
    {
        let ghost start = *self;
        let mut r: Vec<u64> = Vec::new();
        loop
            invariant
                self.wf(),
                self.settled@ == start.settled@,
                forall|id: u64| r@.contains(id) ==> start.has_expired_claim(id, now) && !self.has_claim_of(id)
                    && forall|o: Seq<u8>, a: Seq<u8>| !self.has_signed(id, o, a) && self.count(id, o) == 0,
                forall|id: u64| !r@.contains(id) ==> self.has_expired_claim(id, now) == start.has_expired_claim(id, now)
                    && forall|o: Seq<u8>, a: Seq<u8>| self.has_signed(id, o, a) == start.has_signed(id, o, a)
                    && self.count(id, o) == start.count(id, o),
            ensures
                forall|id: u64| !self.has_expired_claim(id, now),
            decreases self.claims@.len(),
        {
            let k = match self.first_expired(now) {
                Some(k) => k,
                None => break,
            };
            let x = self.claims[k].id;
            let ghost before = *self;
            let ghost r0 = r@;
            assert(before.has_claim_of(x));
            assert(before.has_expired_claim(x, now));
            self.drop_claims(x);
            r.push(x);
            proof {
                assert(r@ == r0.push(x));
                assert forall|id: u64| r@.contains(id) implies start.has_expired_claim(id, now) && !self.has_claim_of(id)
                    && forall|o: Seq<u8>, a: Seq<u8>| !self.has_signed(id, o, a) && self.count(id, o) == 0 by {
                    if id == x {
                        assert forall|o: Seq<u8>, a: Seq<u8>| !self.has_signed(id, o, a) && self.count(id, o) == 0 by {
                            Self::lemma_key_absent(self, id, o);
                        }
                    } else {
                        assert(r0.contains(id));
                    }
                }
                assert forall|id: u64| !r@.contains(id) implies self.has_expired_claim(id, now) == start.has_expired_claim(id, now)
                    && forall|o: Seq<u8>, a: Seq<u8>| self.has_signed(id, o, a) == start.has_signed(id, o, a)
                    && self.count(id, o) == start.count(id, o) by {
                    if r0.contains(id) {
                        let q = choose|q: int| 0 <= q < r0.len() && r0[q] == id;
                        assert(r@[q] == id);
                    }
                    if id == x {
                        assert(r@[r0.len() as int] == x);
                    }
                }
            }
        }
        proof {
            assert forall|id: u64| start.has_expired_claim(id, now) implies r@.contains(id) by {
                if !r@.contains(id) {
                    assert(self.has_expired_claim(id, now));
                }
            }
        }
        r
    }

    /// The index of a claim that has timed out at `now`, if there is one.
    fn first_expired(&self, now: u64) -> (r: Option<usize>)
        ensures
            r is None ==> forall|id: u64| !self.has_expired_claim(id, now),
            r matches Some(k) ==> k < self.claims@.len() && claim_expired(self.claims@[k as int].opened, now),
    {
        let mut i: usize = 0;
        while i < self.claims.len()
            invariant
                i <= self.claims@.len(),
                forall|k: int| 0 <= k < i ==> !claim_expired(self.claims@[k].opened, now),
            decreases self.claims@.len() - i,
        {
            if now as u128 >= self.claims[i].opened as u128 + CLAIM_TIMEOUT_SECS as u128 {
                return Some(i);
            }
            i = i + 1;
        }
        None
    }

    fn find_claim(&self, id: u64, outcome: &Vec<u8>) -> (r: Option<usize>)
        ensures
            r is None ==> forall|i: int| 0 <= i < self.claims@.len() ==> !claim_is(self.claims@[i], id, outcome@),
            r matches Some(i) ==> i < self.claims@.len() && claim_is(self.claims@[i as int], id, outcome@),
    {
        let mut i: usize = 0;
        while i < self.claims.len()
            invariant
                i <= self.claims@.len(),
                forall|k: int| 0 <= k < i ==> !claim_is(self.claims@[k], id, outcome@),
            decreases self.claims@.len() - i,
        {
            if self.claims[i].id == id && bytes_equal(&self.claims[i].outcome, outcome) {
                return Some(i);
            }
            i = i + 1;
        }
        None
    }

    fn settled_contains(&self, id: u64) -> (r: bool)
        ensures
            r == self.is_settled(id),
    {
        let mut i: usize = 0;
        while i < self.settled.len()
            invariant
                i <= self.settled@.len(),
                forall|k: int| 0 <= k < i ==> self.settled@[k] != id,
            decreases self.settled@.len() - i,
        {
            if self.settled[i] == id {
                assert(self.settled@[i as int] == id);
                return true;
            }
            i = i + 1;
        }
        false
    }
}

/// A signer who has already contributed to an outcome of an unsettled message adds nothing by
/// contributing again: the contribution is reported with the count unchanged, however often
/// it is repeated.
pub proof fn lemma_resubmission_counts_once(acc: &Accumulator, id: u64, outcome: Seq<u8>, signer: Seq<u8>)
    requires
        acc.wf(),
        acc.has_signed(id, outcome, signer),
        !acc.is_settled(id),
    ensures
        acc.count(id, outcome) < QUORUM_SIZE,
        acc.next(id, outcome, signer) == Contribution::Pending(acc.count(id, outcome) as usize),
{
    let (i, j) = choose|i: int, j: int| 0 <= i < acc.claims@.len() && claim_is(acc.claims@[i], id, outcome)
        && 0 <= j < acc.claims@[i].signers@.len() && #[trigger] signer_at(acc.claims@[i], j) == signer;
    acc.lemma_count_at(i);
}

/// Once a message is settled every further contribution for it is ignored, so the quorum of
/// a message is reported once, however many contributions follow.
pub proof fn lemma_settled_ignores(acc: &Accumulator, id: u64, outcome: Seq<u8>, signer: Seq<u8>)
    requires
        acc.is_settled(id),
    ensures
        acc.next(id, outcome, signer) == Contribution::Ignored,
{
}

/// Whether two byte strings are equal.
pub fn bytes_equal(a: &Vec<u8>, b: &Vec<u8>) -> (r: bool)
    ensures
        r == (a@ == b@),
{
    if a.len() != b.len() {
        return false;
    }
    let mut i: usize = 0;
    while i < a.len()
        invariant
            i <= a@.len(),
            a@.len() == b@.len(),
            forall|k: int| 0 <= k < i ==> a@[k] == b@[k],
        decreases a@.len() - i,
    {
        if a[i] != b[i] {
            return false;
        }
        i = i + 1;
    }
    assert(a@ =~= b@);
    true
}

fn signers_contain(signers: &Vec<Address>, signer: &Address) -> (r: bool)
    ensures
        r == exists|j: int| 0 <= j < signers@.len() && signers@[j]@ == signer@,
{
    let mut i: usize = 0;
    while i < signers.len()
        invariant
            i <= signers@.len(),
            forall|k: int| 0 <= k < i ==> signers@[k]@ != signer@,
        decreases signers@.len() - i,
    {
        if signers[i].same_as(signer) {
            return true;
        }
        i = i + 1;
    }
    false
}

} // verus!
