use vstd::prelude::*;

verus! {

/// Number of bytes in an address.
pub const ADDRESS_LEN: usize = 64;

/// A 512-bit identifier in the overlay's address space.
pub struct Address {
    pub bytes: [u8; 64],
}

impl Address {
    pub open spec fn view(&self) -> Seq<u8> {
        self.bytes@
    }

    pub fn new(bytes: [u8; 64]) -> (r: Address)
        ensures
            r@ == bytes@,
    {
        Address { bytes }
    }

    pub fn copy(&self) -> (r: Address)
        ensures
            r@ == self@,
    {
        Address { bytes: self.bytes }
    }

    /// Bitwise equality of two addresses.
    pub fn same_as(&self, other: &Address) -> (r: bool)
        ensures
            r == (self@ == other@),
    {
        let mut i: usize = 0;
        while i < ADDRESS_LEN
            invariant
                i <= ADDRESS_LEN,
                self@.len() == ADDRESS_LEN,
                other@.len() == ADDRESS_LEN,
                forall|j: int| 0 <= j < i ==> self@[j] == other@[j],
            decreases ADDRESS_LEN - i,
        {
            if self.bytes[i] != other.bytes[i] {
                return false;
            }
            i = i + 1;
        }
        assert(self@ =~= other@);
        true
    }
}

/// The XOR distance between two byte strings of one width, byte by byte.
pub open spec fn distance(a: Seq<u8>, b: Seq<u8>) -> Seq<u8> {
    Seq::new(a.len(), |i: int| a[i] ^ b[i])
}

/// Big-endian comparison of two numbers of one width: `x < y`.
pub open spec fn below(x: Seq<u8>, y: Seq<u8>) -> bool {
    exists|i: int|
        0 <= i < x.len() && i < y.len() && x[i] < y[i] && (forall|j: int| 0 <= j < i ==> x[j]
            == y[j])
}

/// `a` is strictly closer to `target` than `b` is.
pub open spec fn closer(a: Seq<u8>, b: Seq<u8>, target: Seq<u8>) -> bool {
    below(distance(a, target), distance(b, target))
}

/// `a` is closer to `target` than `b`, or equally close.
pub open spec fn closer_or_equal(a: Seq<u8>, b: Seq<u8>, target: Seq<u8>) -> bool {
    !closer(b, a, target)
}

/// Whether `a` is strictly closer to `target` than `b` is.
pub fn closer_to_target(a: &Address, b: &Address, target: &Address) -> (r: bool)
    ensures
        r == closer(a@, b@, target@),
{
    let ghost da = distance(a@, target@);
    let ghost db = distance(b@, target@);
    let mut i: usize = 0;
    while i < ADDRESS_LEN
        invariant
            i <= ADDRESS_LEN,
            a@.len() == ADDRESS_LEN,
            b@.len() == ADDRESS_LEN,
            target@.len() == ADDRESS_LEN,
            da == distance(a@, target@),
            db == distance(b@, target@),
            forall|j: int| 0 <= j < i ==> da[j] == db[j],
        decreases ADDRESS_LEN - i,
    {
        let x = a.bytes[i] ^ target.bytes[i];
        let y = b.bytes[i] ^ target.bytes[i];
        assert(da[i as int] == x && db[i as int] == y);
        if x < y {
            assert(below(da, db));
            return true;
        }
        if x > y {
            assert forall|k: int| 0 <= k < da.len() && k < db.len() && da[k] < db[k] implies
                !(forall|j: int| 0 <= j < k ==> da[j] == db[j]) by {
                if k > i {
                    assert(da[i as int] != db[i as int]);
                }
            }
            return false;
        }
        i = i + 1;
    }
    false
}

/// Whether `a` is closer to `target` than `b`, or equally close.
pub fn closer_to_target_or_equal(a: &Address, b: &Address, target: &Address) -> (r: bool)
    ensures
        r == closer_or_equal(a@, b@, target@),
{
    !closer_to_target(b, a, target)
}

/// An address is at distance zero from itself.
pub proof fn lemma_distance_to_self_is_zero(a: Seq<u8>)
    ensures
        distance(a, a) =~= Seq::new(a.len(), |i: int| 0u8),
{
    assert forall|i: int| 0 <= i < a.len() implies distance(a, a)[i] == 0u8 by {
        let x = a[i];
        assert(x ^ x == 0u8) by (bit_vector);
    }
}

/// Distance does not depend on the order of its two arguments.
pub proof fn lemma_distance_symmetric(a: Seq<u8>, b: Seq<u8>)
    requires
        a.len() == b.len(),
    ensures
        distance(a, b) =~= distance(b, a),
{
    assert forall|i: int| 0 <= i < a.len() implies distance(a, b)[i] == distance(b, a)[i] by {
        let x = a[i];
        let y = b[i];
        assert(x ^ y == y ^ x) by (bit_vector);
    }
}

/// Nothing is strictly closer to a target than itself.
pub proof fn lemma_closer_irreflexive(a: Seq<u8>, target: Seq<u8>)
    ensures
        !closer(a, a, target),
{
}

/// Strict closeness is transitive.
pub proof fn lemma_closer_transitive(a: Seq<u8>, b: Seq<u8>, c: Seq<u8>, target: Seq<u8>)
    requires
        a.len() == target.len(),
        b.len() == target.len(),
        c.len() == target.len(),
        closer(a, b, target),
        closer(b, c, target),
    ensures
        closer(a, c, target),
{
    let da = distance(a, target);
    let db = distance(b, target);
    let dc = distance(c, target);
    let i = choose|i: int|
        0 <= i < da.len() && i < db.len() && da[i] < db[i] && (forall|j: int| 0 <= j < i ==> da[j]
            == db[j]);
    let k = choose|k: int|
        0 <= k < db.len() && k < dc.len() && db[k] < dc[k] && (forall|j: int| 0 <= j < k ==> db[j]
            == dc[j]);
    let m = if i < k { i } else { k };
    assert(da[m] < dc[m]);
    assert(forall|j: int| 0 <= j < m ==> da[j] == dc[j]);
}

/// Two byte strings of one width that agree before index `n` and differ somewhere are
/// ordered one way or the other.
proof fn lemma_below_from(x: Seq<u8>, y: Seq<u8>, n: int)
    requires
        x.len() == y.len(),
        0 <= n <= x.len(),
        forall|j: int| 0 <= j < n ==> x[j] == y[j],
        !(x =~= y),
    ensures
        below(x, y) || below(y, x),
    decreases x.len() - n,
{
    if n == x.len() {
        assert(x =~= y);
    } else if x[n] < y[n] {
        assert(below(x, y));
    } else if y[n] < x[n] {
        assert(below(y, x));
    } else {
        lemma_below_from(x, y, n + 1);
    }
}

/// Two distances of one width are ordered one way or the other, or are equal.
pub proof fn lemma_below_total(x: Seq<u8>, y: Seq<u8>)
    requires
        x.len() == y.len(),
    ensures
        below(x, y) || below(y, x) || x =~= y,
{
    if !(x =~= y) {
        lemma_below_from(x, y, 0);
    }
}

/// Two different addresses are never at one distance from a target.
pub proof fn lemma_distance_injective(a: Seq<u8>, b: Seq<u8>, target: Seq<u8>)
    requires
        a.len() == target.len(),
        b.len() == target.len(),
        distance(a, target) =~= distance(b, target),
    ensures
        a == b,
{
    assert forall|i: int| 0 <= i < a.len() implies a[i] == b[i] by {
        let x = a[i];
        let y = b[i];
        let t = target[i];
        assert(distance(a, target)[i] == distance(b, target)[i]);
        assert((x ^ t) == (y ^ t) ==> x == y) by (bit_vector);
    }
    assert(a =~= b);
}

/// Closeness to a target orders all addresses of one width strictly and totally: it is
/// irreflexive and transitive, and of two different addresses one is strictly closer.
pub proof fn lemma_closeness_strict_total_order(a: Seq<u8>, b: Seq<u8>, c: Seq<u8>, target: Seq<u8>)
    requires
        a.len() == target.len(),
        b.len() == target.len(),
        c.len() == target.len(),
    ensures
        !closer(a, a, target),
        closer(a, b, target) && closer(b, c, target) ==> closer(a, c, target),
        a != b ==> closer(a, b, target) || closer(b, a, target),
        closer(a, b, target) ==> !closer(b, a, target),
{
    lemma_closer_irreflexive(a, target);
    if closer(a, b, target) && closer(b, c, target) {
        lemma_closer_transitive(a, b, c, target);
    }
    lemma_below_total(distance(a, target), distance(b, target));
    if distance(a, target) =~= distance(b, target) {
        lemma_distance_injective(a, b, target);
    }
    if closer(a, b, target) && closer(b, a, target) {
        lemma_closer_transitive(a, b, a, target);
    }
}

} // verus!
