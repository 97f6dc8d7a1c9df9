use vstd::prelude::*;

use crate::address::Address;

verus! {

/// How long, in seconds, a processed message stays in the filter.
pub const FILTER_EXPIRY_SECS: u64 = 1200;

/// The logical identity of a message: its id, its source and the type of its payload.
pub struct MessageIdentity {
    pub id: u64,
    pub source: Address,
    pub kind: u64,
}

impl MessageIdentity {
    pub open spec fn view(&self) -> (u64, Seq<u8>, u64) {
        (self.id, self.source@, self.kind)
    }

    pub fn copy(&self) -> (r: MessageIdentity)
        ensures
            r@ == self@,
    {
        MessageIdentity { id: self.id, source: self.source.copy(), kind: self.kind }
    }

    pub fn same_as(&self, other: &MessageIdentity) -> (r: bool)
        ensures
            r == (self@ == other@),
    {
        self.id == other.id && self.kind == other.kind && self.source.same_as(&other.source)
    }
}

/// Whether an entry made at `inserted` is still live at `now`.
pub open spec fn live(inserted: u64, now: u64) -> bool {
    now < inserted + FILTER_EXPIRY_SECS
}

/// Whether `s` holds a live entry for `m` at `now`.
pub open spec fn seen(s: Seq<((u64, Seq<u8>, u64), u64)>, m: (u64, Seq<u8>, u64), now: u64) -> bool {
    exists|i: int| 0 <= i < s.len() && s[i].0 == m && live(s[i].1, now)
}

/// Messages processed recently, each with the time at which it was first processed.
pub struct MessageFilter {
    entries: Vec<(MessageIdentity, u64)>,
}

impl MessageFilter {
    pub closed spec fn view(&self) -> Seq<((u64, Seq<u8>, u64), u64)> {
        self.entries@.map_values(|e: (MessageIdentity, u64)| (e.0@, e.1))
    }

    pub fn new() -> (r: MessageFilter)
        ensures
            r@ == Seq::<((u64, Seq<u8>, u64), u64)>::empty(),
    {
        let r = MessageFilter { entries: Vec::new() };
        assert(r@ =~= Seq::<((u64, Seq<u8>, u64), u64)>::empty());
        r
    }

    pub fn len(&self) -> (r: usize)
        ensures
            r == self@.len(),
    {
        self.entries.len()
    }

    /// Whether `message` was processed within the expiry period before `now`.
    pub fn contains(&self, message: &MessageIdentity, now: u64) -> (r: bool)
        ensures
            r == seen(self@, message@, now),
    {
        let mut i: usize = 0;
        while i < self.entries.len()
            invariant
                i <= self.entries.len(),
                forall|j: int| 0 <= j < i ==> !(self@[j].0 == message@ && live(self@[j].1, now)),
            decreases self.entries.len() - i,
        {
            let (ref m, t) = self.entries[i];
            if (now as u128) < (t as u128) + (FILTER_EXPIRY_SECS as u128) && m.same_as(message) {
                assert(self@[i as int].0 == message@ && live(self@[i as int].1, now));
                return true;
            }
            i = i + 1;
        }
        false
    }

    /// Decides whether `message`, arriving at `now`, is to be processed: it is unless a live
    /// entry for it is held. A message to be processed is recorded with the time `now`.
    pub fn check_and_insert(&mut self, message: &MessageIdentity, now: u64) -> (r: bool)
        ensures
            r == !seen(old(self)@, message@, now),
            r ==> final(self)@ == old(self)@.push((message@, now)),
            !r ==> final(self)@ == old(self)@,
    {
        if self.contains(message, now) {
            return false;
        }
        let ghost s0 = self@;
        self.entries.push((message.copy(), now));
        assert(self@ =~= s0.push((message@, now)));
        true
    }

    /// Drops every entry that is no longer live at `now`.
    pub fn remove_expired(&mut self, now: u64)
        ensures
            forall|i: int| 0 <= i < final(self)@.len() ==> live(final(self)@[i].1, now)
                && old(self)@.contains(final(self)@[i]),
            forall|i: int| 0 <= i < old(self)@.len() && live(old(self)@[i].1, now)
                ==> final(self)@.contains(old(self)@[i]),
    {
        let ghost s0 = self@;
        let mut kept: Vec<(MessageIdentity, u64)> = Vec::new();
        let mut i: usize = 0;
        while i < self.entries.len()
            invariant
                i <= self.entries.len(),
                self@ == s0,
                forall|k: int| 0 <= k < kept@.len() ==> live(kept@[k].1, now)
                    && s0.contains((kept@[k].0@, kept@[k].1)),
                forall|k: int| 0 <= k < i && live(s0[k].1, now) ==>
                    exists|q: int| 0 <= q < kept@.len() && (kept@[q].0@, kept@[q].1) == s0[k],
            decreases self.entries.len() - i,
        {
            let t = self.entries[i].1;
            let ghost k0 = kept@;
            if (now as u128) < (t as u128) + (FILTER_EXPIRY_SECS as u128) {
                let e = (self.entries[i].0.copy(), t);
                kept.push(e);
                assert((kept@[kept@.len() - 1].0@, kept@[kept@.len() - 1].1) == s0[i as int]);
            }
            assert forall|k: int| 0 <= k < i + 1 && live(s0[k].1, now) implies
                exists|q: int| 0 <= q < kept@.len() && (kept@[q].0@, kept@[q].1) == s0[k] by {
                if k < i {
                    let q = choose|q: int| 0 <= q < k0.len() && (k0[q].0@, k0[q].1) == s0[k];
                    assert(kept@[q] == k0[q]);
                } else {
                    assert((kept@[kept@.len() - 1].0@, kept@[kept@.len() - 1].1) == s0[k]);
                }
            }
            i = i + 1;
        }
        self.entries = kept;
        assert forall|i: int| 0 <= i < s0.len() && live(s0[i].1, now) implies self@.contains(s0[i]) by {
            let q = choose|q: int| 0 <= q < kept@.len() && (kept@[q].0@, kept@[q].1) == s0[i];
            assert(self@[q] == s0[i]);
        }
        assert forall|i: int| 0 <= i < self@.len() implies live(self@[i].1, now)
            && s0.contains(self@[i]) by {
            assert(self@[i] == (kept@[i].0@, kept@[i].1));
        }
    }
}

/// A message recorded as processed at `first` is refused while its entry lives and processed
/// again once it has expired.
pub proof fn lemma_filter_expiry(
    s: Seq<((u64, Seq<u8>, u64), u64)>,
    m: (u64, Seq<u8>, u64),
    first: u64,
    later: u64,
)
    requires
        !seen(s, m, first),
        first <= later,
    ensures
        later < first + FILTER_EXPIRY_SECS ==> seen(s.push((m, first)), m, later),
        later >= first + FILTER_EXPIRY_SECS ==> !seen(s.push((m, first)), m, later),
{
    let t = s.push((m, first));
    if later < first + FILTER_EXPIRY_SECS {
        assert(t[s.len() as int].0 == m && live(t[s.len() as int].1, later));
    } else {
        assert forall|i: int| 0 <= i < t.len() && t[i].0 == m implies !live(t[i].1, later) by {
            if i < s.len() {
                assert(s[i] == t[i]);
                assert(!live(s[i].1, first));
            }
        }
    }
}

} // verus!
