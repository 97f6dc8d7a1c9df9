use vstd::prelude::*;

use crate::address::{closer, closer_to_target, lemma_closeness_strict_total_order, Address};

verus! {

/// Most entries a routing table holds.
pub const ROUTING_TABLE_SIZE: usize = 64;

/// Number of nodes in a close group.
pub const GROUP_SIZE: usize = 8;

/// Number of nodes a message is forwarded to in parallel.
pub const PARALLELISM: usize = 4;

/// A known peer: its address and the handle of its connection.
pub struct NodeInfo {
    pub address: Address,
    pub endpoint: u64,
}

impl NodeInfo {
    pub open spec fn view(&self) -> (Seq<u8>, u64) {
        (self.address@, self.endpoint)
    }

    pub fn copy(&self) -> (r: NodeInfo)
        ensures
            r@ == self@,
    {
        NodeInfo { address: self.address.copy(), endpoint: self.endpoint }
    }
}

/// Whether some entry of `s` has address `a`.
pub open spec fn holds(s: Seq<(Seq<u8>, u64)>, a: Seq<u8>) -> bool {
    exists|i: int| 0 <= i < s.len() && s[i].0 == a
}

/// Whether some entry of `s` has connection handle `e`.
pub open spec fn uses_endpoint(s: Seq<(Seq<u8>, u64)>, e: u64) -> bool {
    exists|i: int| 0 <= i < s.len() && s[i].1 == e
}

/// Whether `a` is in the close group of `owner` in `s`: it is held, and fewer than
/// `GROUP_SIZE` entries are closer to `owner` than it is.
pub open spec fn in_close_group(s: Seq<(Seq<u8>, u64)>, owner: Seq<u8>, a: Seq<u8>) -> bool {
    holds(s, a) && count_closer(s, a, owner) < GROUP_SIZE
}

/// What a routing table owned by `owner` may hold: at most the capacity, never the owner,
/// no address twice, no connection handle twice.
pub open spec fn table_ok(owner: Seq<u8>, s: Seq<(Seq<u8>, u64)>) -> bool {
    &&& s.len() <= ROUTING_TABLE_SIZE
    &&& forall|i: int| 0 <= i < s.len() ==> s[i].0 != owner && s[i].0.len() == owner.len()
    &&& forall|i: int, j: int| 0 <= i < s.len() && 0 <= j < s.len() && i != j ==> s[i].0 != s[j].0
    &&& forall|i: int, j: int| 0 <= i < s.len() && 0 <= j < s.len() && i != j ==> s[i].1 != s[j].1
}

/// The peers closest to the owner's address.
pub struct RoutingTable {
    owner: Address,
    entries: Vec<NodeInfo>,
}

impl RoutingTable {
    pub closed spec fn view(&self) -> Seq<(Seq<u8>, u64)> {
        self.entries@.map_values(|n: NodeInfo| n@)
    }

    pub closed spec fn owner(&self) -> Seq<u8> {
        self.owner@
    }

    pub open spec fn wf(&self) -> bool {
        table_ok(self.owner(), self@)
    }

    /// An empty table for the node at `owner`.
    pub fn new(owner: &Address) -> (r: RoutingTable)
        ensures
            r.wf(),
            r.owner() == owner@,
            r@ == Seq::<(Seq<u8>, u64)>::empty(),
    {
        let r = RoutingTable { owner: owner.copy(), entries: Vec::new() };
        assert(r@ =~= Seq::<(Seq<u8>, u64)>::empty());
        r
    }

    pub fn our_address(&self) -> (r: Address)
        ensures
            r@ == self.owner(),
    {
        self.owner.copy()
    }

    pub fn size(&self) -> (r: usize)
        ensures
            r == self@.len(),
    {
        self.entries.len()
    }

    fn position(&self, address: &Address) -> (r: Option<usize>)
        ensures
            r is None ==> !holds(self@, address@),
            r matches Some(k) ==> k < self@.len() && self@[k as int].0 == address@,
    {
        let mut i: usize = 0;
        while i < self.entries.len()
            invariant
                i <= self.entries.len(),
                forall|j: int| 0 <= j < i ==> self@[j].0 != address@,
            decreases self.entries.len() - i,
        {
            if self.entries[i].address.same_as(address) {
                return Some(i);
            }
            i = i + 1;
        }
        None
    }

    /// Whether some entry has `address`.
    pub fn contains(&self, address: &Address) -> (r: bool)
        ensures
            r == holds(self@, address@),
    {
        self.position(address).is_some()
    }

    /// The entry with `address`, if there is one.
    pub fn get(&self, address: &Address) -> (r: Option<NodeInfo>)
        ensures
            r is None == !holds(self@, address@),
            r matches Some(n) ==> n@.0 == address@ && self@.contains(n@),
    {
        match self.position(address) {
            Some(k) => Some(self.entries[k].copy()),
            None => None,
        }
    }

    /// Index of an entry no nearer to the owner than any other.
    fn farthest(&self) -> (r: usize)
        requires
            self.wf(),
            self@.len() > 0,
        ensures
            r < self@.len(),
            forall|j: int| 0 <= j < self@.len() ==> !closer(self@[r as int].0, self@[j].0, self.owner()),
    {
        let mut k: usize = 0;
        let mut i: usize = 1;
        while i < self.entries.len()
            invariant
                k < i <= self.entries.len(),
                self.wf(),
                forall|j: int| 0 <= j < i ==> !closer(self@[k as int].0, self@[j].0, self.owner()),
            decreases self.entries.len() - i,
        {
            if closer_to_target(&self.entries[k].address, &self.entries[i].address, &self.owner) {
                assert forall|j: int| 0 <= j < i + 1 implies !closer(self@[i as int].0, self@[j].0, self.owner()) by {
                    lemma_closeness_strict_total_order(self@[i as int].0, self@[k as int].0, self@[j].0, self.owner());
                    if j < i {
                        lemma_closeness_strict_total_order(self@[k as int].0, self@[j].0, self@[i as int].0, self.owner());
                        lemma_closeness_strict_total_order(self@[i as int].0, self@[j].0, self@[k as int].0, self.owner());
                    }
                }
                k = i;
            }
            i = i + 1;
        }
        k
    }

    /// The candidates to forward a message for `target` to. An entry at `target` in the
    /// owner's close group is the one hop. Otherwise the `PARALLELISM` entries closest to
    /// `target`, closest first: every entry left out is no closer than every entry chosen.
    pub fn target_nodes(&self, target: &Address) -> (r: Vec<NodeInfo>)
        requires
            self.wf(),
        ensures
            in_close_group(self@, self.owner(), target@) ==> r@.len() == 1 && r@[0]@.0 == target@
                && self@.contains(r@[0]@),
            !in_close_group(self@, self.owner(), target@) ==> closest(self@, target@, nodes_view(r@)),
    {
        if let Some(k) = self.position(target) {
            if self.count_nearer(target, &self.owner) < GROUP_SIZE {
                let mut r: Vec<NodeInfo> = Vec::new();
                r.push(self.entries[k].copy());
                return r;
            }
        }
        let ghost s = self@;
        let ghost t = target@;
        let mut best: Vec<NodeInfo> = Vec::new();
        let ghost mut idx: Seq<int> = Seq::empty();
        let mut i: usize = 0;
        while i < self.entries.len()
            invariant
                s == self@,
                t == target@,
                self.wf(),
                i <= s.len(),
                best@.len() == if i < PARALLELISM { i as int } else { PARALLELISM as int },
                idx.len() == best@.len(),
                forall|p: int| 0 <= p < idx.len() ==> 0 <= #[trigger] idx[p] < i && nodes_view(best@)[p] == s[idx[p]],
                forall|p: int, q: int| 0 <= p < q < idx.len() ==> idx[p] != idx[q],
                forall|p: int, q: int| 0 <= p < q < idx.len() ==> !closer(nodes_view(best@)[q].0, nodes_view(best@)[p].0, t),
                i <= PARALLELISM ==> forall|k: int| 0 <= k < i ==> idx.contains(k),
                forall|k: int, p: int| 0 <= k < i && !idx.contains(k) && 0 <= p < idx.len() ==> !closer(s[k].0, nodes_view(best@)[p].0, t),
            decreases s.len() - i,
        {
            let ghost bv = nodes_view(best@);
            let ghost old_idx = idx;
            let ghost x = s[i as int];
            let pos = insert_position(&best, &self.entries[i].address, target);
            assert(pos < bv.len() ==> closer(x.0, bv[pos as int].0, t));
            if best.len() < PARALLELISM {
                best.insert(pos, self.entries[i].copy());
                proof {
                    idx = old_idx.insert(pos as int, i as int);
                    assert(nodes_view(best@) =~= bv.insert(pos as int, x));
                    self.lemma_insert_sorted(bv, nodes_view(best@), pos as int, x, t);
                    assert(i < PARALLELISM);
                    assert forall|k: int| 0 <= k < i + 1 implies idx.contains(k) by {
                        if k < i {
                            assert(old_idx.contains(k));
                            let p = choose|p: int| 0 <= p < old_idx.len() && old_idx[p] == k;
                            if p < pos {
                                assert(idx[p] == k);
                            } else {
                                assert(idx[p + 1] == k);
                            }
                        } else {
                            assert(idx[pos as int] == k);
                        }
                    }
                }
            } else if pos < best.len() {
                best.insert(pos, self.entries[i].copy());
                let _ = best.pop();
                proof {
                    let mid = bv.insert(pos as int, x);
                    self.lemma_insert_sorted(bv, mid, pos as int, x, t);
                    assert(nodes_view(best@) =~= mid.drop_last());
                    idx = old_idx.insert(pos as int, i as int).drop_last();
                    let last = bv.len() - 1;
                    assert forall|k: int, p: int| 0 <= k < i + 1 && !idx.contains(k) && 0 <= p < idx.len() implies
                        !closer(s[k].0, nodes_view(best@)[p].0, t) by {
                        let nv = nodes_view(best@);
                        if k == i {
                            assert(idx[pos as int] == k);
                        } else if old_idx.contains(k) {
                            let q = choose|q: int| 0 <= q < old_idx.len() && old_idx[q] == k;
                            if q < pos {
                                assert(idx[q] == k);
                            } else if q < last {
                                assert(idx[q + 1] == k);
                            }
                            assert(q == last);
                            assert(s[k] == bv[last]);
                            if p < pos {
                                assert(nv[p] == bv[p]);
                            } else if p == pos {
                                assert(nv[p] == x);
                                if closer(s[k].0, x.0, t) {
                                    lemma_closeness_strict_total_order(s[k].0, x.0, bv[pos as int].0, t);
                                }
                            } else {
                                assert(nv[p] == bv[p - 1]);
                            }
                        } else {
                            if p < pos {
                                assert(nv[p] == bv[p]);
                            } else if p == pos {
                                assert(nv[p] == x);
                                if closer(s[k].0, x.0, t) {
                                    lemma_closeness_strict_total_order(s[k].0, x.0, bv[pos as int].0, t);
                                }
                            } else {
                                assert(nv[p] == bv[p - 1]);
                            }
                        }
                    }
                }
            } else {
                proof {
                    assert forall|k: int, p: int| 0 <= k < i + 1 && !idx.contains(k) && 0 <= p < idx.len() implies
                        !closer(s[k].0, nodes_view(best@)[p].0, t) by {
                        if k == i {
                            assert(!closer(x.0, bv[p].0, t));
                        }
                    }
                }
            }
            i = i + 1;
        }
        proof {
            let v = nodes_view(best@);
            assert forall|p: int| 0 <= p < v.len() implies s.contains(#[trigger] v[p]) by {
                assert(s[idx[p]] == v[p]);
            }
            assert forall|p: int, q: int| 0 <= p < q < v.len() implies v[p].0 != v[q].0 && v[p].1 != v[q].1 by {
                assert(v[p] == s[idx[p]] && v[q] == s[idx[q]]);
            }
            assert forall|k: int, p: int| 0 <= k < s.len() && 0 <= p < v.len() && !v.contains(s[k]) implies
                !closer(s[k].0, v[p].0, t) by {
                if idx.contains(k) {
                    let q = choose|q: int| 0 <= q < idx.len() && idx[q] == k;
                    assert(v[q] == s[k]);
                }
            }
        }
        best
    }

    proof fn lemma_insert_sorted(&self, bv: Seq<(Seq<u8>, u64)>, nv: Seq<(Seq<u8>, u64)>, pos: int, x: (Seq<u8>, u64), t: Seq<u8>)
        requires
            0 <= pos <= bv.len(),
            nv == bv.insert(pos, x),
            x.0.len() == t.len(),
            forall|q: int| 0 <= q < bv.len() ==> bv[q].0.len() == t.len(),
            forall|p: int, q: int| 0 <= p < q < bv.len() ==> !closer(bv[q].0, bv[p].0, t),
            forall|q: int| 0 <= q < pos ==> !closer(x.0, bv[q].0, t),
            pos < bv.len() ==> closer(x.0, bv[pos].0, t),
        ensures
            forall|p: int, q: int| 0 <= p < q < nv.len() ==> !closer(nv[q].0, nv[p].0, t),
    {
        assert forall|p: int, q: int| 0 <= p < q < nv.len() implies !closer(nv[q].0, nv[p].0, t) by {
            if p < pos && q == pos {
            } else if p == pos && q > pos {
                if closer(bv[q - 1].0, x.0, t) {
                    lemma_closeness_strict_total_order(bv[q - 1].0, x.0, bv[pos].0, t);
                    if q - 1 > pos {
                        assert(!closer(bv[q - 1].0, bv[pos].0, t));
                    }
                }
            } else if p < pos && q > pos {
                assert(nv[q] == bv[q - 1]);
                assert(nv[p] == bv[p]);
            } else if q < pos {
            } else {
                assert(nv[q] == bv[q - 1]);
                assert(nv[p] == bv[p - 1]);
            }
        }
    }

    /// Whether this node is within the close group of `target`: fewer than `GROUP_SIZE` known
    /// peers are closer to `target` than the node itself.
    pub fn is_close(&self, target: &Address) -> (r: bool)
        ensures
            r == (count_closer(self@, self.owner(), target@) < GROUP_SIZE),
    {
        self.count_nearer(&self.owner, target) < GROUP_SIZE
    }

    /// How many entries are strictly closer to `target` than `a` is.
    fn count_nearer(&self, a: &Address, target: &Address) -> (r: usize)
        ensures
            r == count_closer(self@, a@, target@),
    {
        let ghost s = self@;
        let mut count: usize = 0;
        let mut i: usize = 0;
        while i < self.entries.len()
            invariant
                s == self@,
                i <= s.len(),
                count <= i,
                count == count_closer(s.take(i as int), a@, target@),
            decreases s.len() - i,
        {
            assert(s.take(i + 1).drop_last() =~= s.take(i as int));
            if closer_to_target(&self.entries[i].address, a, target) {
                count = count + 1;
            }
            i = i + 1;
        }
        assert(s.take(s.len() as int) =~= s);
        count
    }

    fn endpoint_in_use(&self, endpoint: u64) -> (r: bool)
        ensures
            r == uses_endpoint(self@, endpoint),
    {
        let mut i: usize = 0;
        while i < self.entries.len()
            invariant
                i <= self.entries.len(),
                forall|j: int| 0 <= j < i ==> self@[j].1 != endpoint,
            decreases self.entries.len() - i,
        {
            if self.entries[i].endpoint == endpoint {
                assert(self@[i as int].1 == endpoint);
                return true;
            }
            i = i + 1;
        }
        false
    }

    /// Adds a peer. A peer at the owner's address, at an address already held, or on a
    /// connection already in use is refused. A full table takes it only in place of its
    /// farthest entry, and only when the peer is nearer to the owner than that entry.
    pub fn add(&mut self, node: NodeInfo) -> (r: bool)
        requires
            old(self).wf(),
        ensures
            final(self).wf(),
            final(self).owner() == old(self).owner(),
            node@.0 == old(self).owner() || holds(old(self)@, node@.0) || uses_endpoint(old(self)@, node@.1)
                ==> !r && final(self)@ == old(self)@,
            node@.0 != old(self).owner() && !holds(old(self)@, node@.0) && !uses_endpoint(old(self)@, node@.1)
                && old(self)@.len() < ROUTING_TABLE_SIZE ==> r && final(self)@ == old(self)@.push(node@),
            node@.0 != old(self).owner() && !holds(old(self)@, node@.0) && !uses_endpoint(old(self)@, node@.1)
                && old(self)@.len() == ROUTING_TABLE_SIZE ==> {
                &&& r == exists|j: int| 0 <= j < old(self)@.len() && closer(node@.0, old(self)@[j].0, old(self).owner())
                &&& !r ==> final(self)@ == old(self)@
                &&& r ==> exists|k: int| 0 <= k < old(self)@.len()
                    && final(self)@ == old(self)@.update(k, node@)
                    && forall|j: int| 0 <= j < old(self)@.len() ==> !closer(old(self)@[k].0, old(self)@[j].0, old(self).owner())
            },
    {
        if node.address.same_as(&self.owner) || self.contains(&node.address) || self.endpoint_in_use(node.endpoint) {
            return false;
        }
        let ghost s0 = self@;
        if self.entries.len() < ROUTING_TABLE_SIZE {
            self.entries.push(node);
            assert(self@ =~= s0.push(node@));
            return true;
        }
        let k = self.farthest();
        if closer_to_target(&node.address, &self.entries[k].address, &self.owner) {
            self.entries.set(k, node);
            assert(self@ =~= s0.update(k as int, node@));
            assert(closer(node@.0, s0[k as int].0, self.owner()));
            assert(0 <= k < s0.len() && self@ == s0.update(k as int, node@)
                && forall|j: int| 0 <= j < s0.len() ==> !closer(s0[k as int].0, s0[j].0, self.owner()));
            true
        } else {
            assert forall|j: int| 0 <= j < s0.len() implies !closer(node@.0, s0[j].0, self.owner()) by {
                lemma_closeness_strict_total_order(node@.0, s0[k as int].0, s0[j].0, self.owner());
                lemma_closeness_strict_total_order(s0[k as int].0, node@.0, s0[j].0, self.owner());
            }
            false
        }
    }

    /// Drops the entry with `address`, if there is one.
    pub fn remove(&mut self, address: &Address) -> (r: bool)
        requires
            old(self).wf(),
        ensures
            final(self).wf(),
            final(self).owner() == old(self).owner(),
            r == holds(old(self)@, address@),
            !holds(final(self)@, address@),
            !r ==> final(self)@ == old(self)@,
            r ==> exists|k: int| 0 <= k < old(self)@.len() && old(self)@[k].0 == address@
                && final(self)@ == old(self)@.remove(k),
    {
        let ghost s0 = self@;
        match self.position(address) {
            None => false,
            Some(k) => {
                let _ = self.entries.remove(k);
                assert(self@ =~= s0.remove(k as int));
                assert forall|i: int| 0 <= i < self@.len() implies self@[i].0 != address@ by {
                    if i < k {
                        assert(self@[i] == s0[i]);
                    } else {
                        assert(self@[i] == s0[i + 1]);
                    }
                }
                true
            },
        }
    }
}

/// The first position in `best` whose entry is farther from `target` than `a`, or the end.
fn insert_position(best: &Vec<NodeInfo>, a: &Address, target: &Address) -> (pos: usize)
    ensures
        pos <= best@.len(),
        forall|q: int| 0 <= q < pos ==> !closer(a@, nodes_view(best@)[q].0, target@),
        pos < best@.len() ==> closer(a@, nodes_view(best@)[pos as int].0, target@),
{
    let mut pos: usize = 0;
    while pos < best.len()
        invariant
            pos <= best@.len(),
            forall|q: int| 0 <= q < pos ==> !closer(a@, nodes_view(best@)[q].0, target@),
        decreases best@.len() - pos,
    {
        if closer_to_target(a, &best[pos].address, target) {
            return pos;
        }
        pos = pos + 1;
    }
    pos
}

/// How many entries of `s` are strictly closer to `target` than `owner` is.
pub open spec fn count_closer(s: Seq<(Seq<u8>, u64)>, owner: Seq<u8>, target: Seq<u8>) -> nat
    decreases s.len(),
{
    if s.len() == 0 {
        0
    } else {
        count_closer(s.drop_last(), owner, target) + if closer(s.last().0, owner, target) { 1nat } else { 0nat }
    }
}

/// The views of the nodes of `v`.
pub open spec fn nodes_view(v: Seq<NodeInfo>) -> Seq<(Seq<u8>, u64)> {
    v.map_values(|n: NodeInfo| n@)
}

/// `v` holds the `PARALLELISM` entries of `s` closest to `target` (all of them if `s` holds
/// fewer), each once and each on its own connection, closest first, and no entry of `s` left out is closer than one chosen.
pub open spec fn closest(s: Seq<(Seq<u8>, u64)>, target: Seq<u8>, v: Seq<(Seq<u8>, u64)>) -> bool {
    &&& v.len() == if s.len() < PARALLELISM { s.len() } else { PARALLELISM as nat }
    &&& forall|p: int| 0 <= p < v.len() ==> s.contains(#[trigger] v[p])
    &&& forall|p: int, q: int| 0 <= p < q < v.len() ==> v[p].0 != v[q].0
    &&& forall|p: int, q: int| 0 <= p < q < v.len() ==> v[p].1 != v[q].1
    &&& forall|p: int, q: int| 0 <= p < q < v.len() ==> !closer(v[q].0, v[p].0, target)
    &&& forall|k: int, p: int| 0 <= k < s.len() && 0 <= p < v.len() && !v.contains(s[k])
        ==> !closer(s[k].0, v[p].0, target)
}

/// A well-formed routing table never holds its owner's address, holds no address twice, and
/// holds at most `ROUTING_TABLE_SIZE` entries. `new` makes a well-formed table, and `add` and
/// `remove` keep it well formed, so this holds after any sequence of them.
pub proof fn lemma_table_invariants(t: &RoutingTable)
    requires
        t.wf(),
    ensures
        !holds(t@, t.owner()),
        forall|i: int, j: int| 0 <= i < j < t@.len() ==> t@[i].0 != t@[j].0,
        t@.len() <= ROUTING_TABLE_SIZE,
{
}

/// The forwarding candidates for a target depend on which peers a table holds, not on the
/// order they were added in: two well-formed tables holding the same entries choose the same
/// candidates, in the same order.
pub proof fn lemma_choice_ignores_insertion_order(
    owner: Seq<u8>,
    s1: Seq<(Seq<u8>, u64)>,
    s2: Seq<(Seq<u8>, u64)>,
    target: Seq<u8>,
    v1: Seq<(Seq<u8>, u64)>,
    v2: Seq<(Seq<u8>, u64)>,
)
    requires
        table_ok(owner, s1),
        table_ok(owner, s2),
        s1.len() == s2.len(),
        forall|x: (Seq<u8>, u64)| s1.contains(x) <==> s2.contains(x),
        target.len() == owner.len(),
        closest(s1, target, v1),
        closest(s2, target, v2),
    ensures
        v1 == v2,
{
    lemma_same_prefix(owner, s1, s2, target, v1, v2, v1.len() as int);
    assert(v1 =~= v2);
}

proof fn lemma_same_prefix(
    owner: Seq<u8>,
    s1: Seq<(Seq<u8>, u64)>,
    s2: Seq<(Seq<u8>, u64)>,
    target: Seq<u8>,
    v1: Seq<(Seq<u8>, u64)>,
    v2: Seq<(Seq<u8>, u64)>,
    n: int,
)
    requires
        table_ok(owner, s1),
        table_ok(owner, s2),
        s1.len() == s2.len(),
        forall|x: (Seq<u8>, u64)| s1.contains(x) <==> s2.contains(x),
        target.len() == owner.len(),
        closest(s1, target, v1),
        closest(s2, target, v2),
        0 <= n <= v1.len(),
    ensures
        v1.len() == v2.len(),
        forall|q: int| 0 <= q < n ==> v1[q] == v2[q],
    decreases n,
{
    if n > 0 {
        lemma_same_prefix(owner, s1, s2, target, v1, v2, n - 1);
        let m = n - 1;
        let a = v1[m];
        let b = v2[m];
        assert(s1.contains(a));
        assert(s2.contains(b));
        assert(s1.contains(b));
        assert(s2.contains(a));
        let ia = choose|i: int| 0 <= i < s1.len() && s1[i] == a;
        let ib = choose|i: int| 0 <= i < s1.len() && s1[i] == b;
        let ka = choose|i: int| 0 <= i < s2.len() && s2[i] == a;
        let kb = choose|i: int| 0 <= i < s2.len() && s2[i] == b;
        if a != b {
            if a.0 == b.0 {
                assert(ia == ib);
            } else {
                lemma_closeness_strict_total_order(a.0, b.0, b.0, target);
                if closer(a.0, b.0, target) {
                    if v2.contains(a) {
                        let q = choose|q: int| 0 <= q < v2.len() && v2[q] == a;
                        if q < m {
                            assert(v1[q] == a);
                        } else {
                            assert(q > m);
                        }
                    } else {
                        assert(!closer(s2[ka].0, v2[m].0, target));
                    }
                } else {
                    if v1.contains(b) {
                        let q = choose|q: int| 0 <= q < v1.len() && v1[q] == b;
                        if q < m {
                            assert(v2[q] == b);
                        } else {
                            assert(q > m);
                        }
                    } else {
                        assert(!closer(s1[ib].0, v1[m].0, target));
                    }
                }
            }
        }
    }
}

} // verus!
