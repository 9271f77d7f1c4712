use crate::node::{node_wf, with_is_even, ListBoxNode, ListBoxNodeId};
use crate::selection::SelectionSet;
use vstd::prelude::*;

verus! {

/// One slot of the pool: the node's id, its visual state, and whether the
/// node was drawn (touched) since the last end-of-frame sweep.
#[derive(Clone, Copy, Debug, PartialEq, Eq, Structural)]
pub struct PoolEntry {
    pub id: ListBoxNodeId,
    pub touched: bool,
    pub node: ListBoxNode,
}

/// A keyed pool of node visual state: nodes are created lazily on first
/// draw, reused across frames, and evicted at end of frame when neither
/// drawn that frame nor selected. Entries keep insertion order, so iterating
/// while inserting stays stable.
#[derive(Clone, Debug)]
pub struct NodePool {
    pub entries: Vec<PoolEntry>,
}

/// Whether some entry of `s` carries `id`.
pub open spec fn has_id(s: Seq<PoolEntry>, id: ListBoxNodeId) -> bool {
    exists|i: int| 0 <= i < s.len() && s[i].id == id
}

/// The index of the entry carrying `id`.
pub open spec fn index_of_id(s: Seq<PoolEntry>, id: ListBoxNodeId) -> int {
    choose|i: int| 0 <= i < s.len() && s[i].id == id
}

/// Ids are unique and every node is well formed.
pub open spec fn pool_wf(p: NodePool) -> bool {
    &&& forall|i: int, j: int| 0 <= i < j < p.entries@.len() ==> p.entries@[i].id != p.entries@[j].id
    &&& forall|i: int| 0 <= i < p.entries@.len() ==> node_wf(#[trigger] p.entries@[i].node)
}

/// An entry survives the sweep when it was drawn this frame or is selected.
pub open spec fn keep_entry(e: PoolEntry, sel: Seq<ListBoxNodeId>) -> bool {
    e.touched || sel.contains(e.id)
}

/// The entry with its per-frame mark cleared.
pub open spec fn clear_touched(e: PoolEntry) -> PoolEntry {
    PoolEntry { touched: false, ..e }
}

/// The end-of-frame sweep: keeps the surviving entries in order, with their
/// marks cleared for the next frame.
pub open spec fn sweep_spec(s: Seq<PoolEntry>, sel: Seq<ListBoxNodeId>) -> Seq<PoolEntry>
    decreases s.len(),
{
    if s.len() == 0 {
        Seq::empty()
    } else {
        let pre = sweep_spec(s.drop_last(), sel);
        if keep_entry(s.last(), sel) {
            pre.push(clear_touched(s.last()))
        } else {
            pre
        }
    }
}

/// Sweep membership law: an id survives the sweep exactly when its entry was
/// drawn this frame or stands in the selection.
pub proof fn lemma_sweep_membership(s: Seq<PoolEntry>, sel: Seq<ListBoxNodeId>, id: ListBoxNodeId)
    ensures
        has_id(sweep_spec(s, sel), id) <==> exists|i: int|
            0 <= i < s.len() && s[i].id == id && keep_entry(#[trigger] s[i], sel),
    decreases s.len(),
{
    if s.len() == 0 {
    } else {
        let pre = sweep_spec(s.drop_last(), sel);
        lemma_sweep_membership(s.drop_last(), sel, id);
        let sw = sweep_spec(s, sel);
        if keep_entry(s.last(), sel) {
            assert(sw == pre.push(clear_touched(s.last())));
        }
        // survivor in the tail lifts to the whole, and the last entry
        // contributes exactly when it is kept
        if has_id(sw, id) {
            let w = choose|w: int| 0 <= w < sw.len() && sw[w].id == id;
            if keep_entry(s.last(), sel) && w == sw.len() - 1 {
                assert(s[s.len() - 1].id == id && keep_entry(s[s.len() - 1], sel));
            } else {
                assert(pre[w].id == id);
                let v = choose|v: int|
                    0 <= v < s.drop_last().len() && s.drop_last()[v].id == id && keep_entry(
                        s.drop_last()[v],
                        sel,
                    );
                assert(s[v].id == id && keep_entry(s[v], sel));
            }
        }
        if exists|i: int| 0 <= i < s.len() && s[i].id == id && keep_entry(#[trigger] s[i], sel) {
            let i = choose|i: int|
                0 <= i < s.len() && s[i].id == id && keep_entry(#[trigger] s[i], sel);
            if i == s.len() - 1 {
                assert(keep_entry(s.last(), sel));
                assert(sw[sw.len() - 1].id == id);
            } else {
                assert(s.drop_last()[i].id == id && keep_entry(s.drop_last()[i], sel));
                assert(has_id(pre, id));
                let w = choose|w: int| 0 <= w < pre.len() && pre[w].id == id;
                assert(sw[w].id == id);
            }
        }
    }
}

/// Replacing an entry by one with the same id leaves id membership as it
/// was.
pub proof fn lemma_has_id_update(s: Seq<PoolEntry>, i: int, e: PoolEntry, id: ListBoxNodeId)
    requires
        0 <= i < s.len(),
        e.id == s[i].id,
    ensures
        has_id(s.update(i, e), id) == has_id(s, id),
{
    let t = s.update(i, e);
    if has_id(s, id) {
        let w = choose|w: int| 0 <= w < s.len() && s[w].id == id;
        assert(t[w].id == id);
    }
    if has_id(t, id) {
        let w = choose|w: int| 0 <= w < t.len() && t[w].id == id;
        assert(s[w].id == id);
    }
}

/// The sweep of a well-formed pool sequence keeps ids unique and nodes well
/// formed.
pub proof fn lemma_sweep_wf(s: Seq<PoolEntry>, sel: Seq<ListBoxNodeId>)
    requires
        forall|i: int, j: int| 0 <= i < j < s.len() ==> s[i].id != s[j].id,
        forall|i: int| 0 <= i < s.len() ==> node_wf(#[trigger] s[i].node),
    ensures
        forall|i: int, j: int|
            0 <= i < j < sweep_spec(s, sel).len() ==> sweep_spec(s, sel)[i].id != sweep_spec(
                s,
                sel,
            )[j].id,
        forall|j: int|
            0 <= j < sweep_spec(s, sel).len() ==> node_wf(#[trigger] sweep_spec(s, sel)[j].node),
    decreases s.len(),
{
    if s.len() > 0 {
        assert forall|i: int|
            0 <= i < s.drop_last().len() implies node_wf(#[trigger] s.drop_last()[i].node) by {
            assert(s.drop_last()[i] == s[i]);
        }
        lemma_sweep_wf(s.drop_last(), sel);
        let pre = sweep_spec(s.drop_last(), sel);
        let sw = sweep_spec(s, sel);
        if keep_entry(s.last(), sel) {
            assert(sw == pre.push(clear_touched(s.last())));
            lemma_sweep_membership(s.drop_last(), sel, s.last().id);
            assert forall|i: int, j: int| 0 <= i < j < sw.len() implies sw[i].id != sw[j].id by {
                if j == sw.len() - 1 {
                    if sw[i].id == s.last().id {
                        assert(pre[i].id == s.last().id);
                        assert(has_id(pre, s.last().id));
                        let v = choose|v: int|
                            0 <= v < s.drop_last().len() && s.drop_last()[v].id == s.last().id
                                && keep_entry(#[trigger] s.drop_last()[v], sel);
                        assert(s[v].id == s[s.len() - 1].id);
                        assert(false);
                    }
                } else {
                    assert(sw[i] == pre[i] && sw[j] == pre[j]);
                }
            }
            assert forall|j: int| 0 <= j < sw.len() implies node_wf(
                #[trigger] sw[j].node,
            ) by {
                if j == sw.len() - 1 {
                    assert(sw[j].node == s[s.len() - 1].node);
                } else {
                    assert(sw[j] == pre[j]);
                }
            }
        }
    }
}

impl NodePool {
    /// The empty pool.
    pub fn new() -> (p: NodePool)
        ensures
            p.entries@ =~= Seq::<PoolEntry>::empty(),
            pool_wf(p),
    {
        NodePool { entries: Vec::new() }
    }

    /// How many nodes the pool holds.
    pub fn len(&self) -> (n: usize)
        ensures
            n == self.entries@.len(),
    {
        self.entries.len()
    }

    /// Returns the index of the state for `id`, creating it from the
    /// template on first request. A second request for the same id in the
    /// same frame finds the same entry again and constructs nothing: the
    /// pool and the index come back unchanged.
    #[verifier::loop_isolation(false)]
    pub fn get_or_create(&mut self, id: ListBoxNodeId, template: &ListBoxNode) -> (idx: usize)
        requires
            pool_wf(*old(self)),
            node_wf(*template),
            old(self).entries@.len() < 0x1_0000_0000,
        ensures
            pool_wf(*final(self)),
            idx < final(self).entries@.len(),
            final(self).entries@[idx as int].id == id,
            final(self).entries@[idx as int].touched,
            has_id(old(self).entries@, id) ==> {
                &&& idx == index_of_id(old(self).entries@, id)
                &&& final(self).entries@ == old(self).entries@.update(
                    idx as int,
                    PoolEntry { touched: true, ..old(self).entries@[idx as int] },
                )
                &&& final(self).entries@[idx as int].node == old(self).entries@[idx as int].node
                &&& final(self).entries@.len() == old(self).entries@.len()
            },
            !has_id(old(self).entries@, id) ==> final(self).entries@ == old(self).entries@.push(
                PoolEntry { id, touched: true, node: *template },
            ),
    {
        let n: usize = self.entries.len();
        let mut i: usize = 0;
        while i < n
            invariant
                n == self.entries@.len(),
                i <= n,
                forall|j: int| 0 <= j < i ==> self.entries@[j].id != id,
                self == old(self),
            decreases n - i,
        {
            if self.entries[i].id.0 == id.0 {
                proof {
                    assert(self.entries@[i as int].id == id);
                    assert(has_id(self.entries@, id));
                    let w = index_of_id(self.entries@, id);
                    assert(0 <= w < self.entries@.len() && self.entries@[w].id == id);
                    if w < i as int {
                        assert(self.entries@[w].id != self.entries@[i as int].id);
                    } else if w > i as int {
                        assert(self.entries@[i as int].id != self.entries@[w].id);
                    }
                    assert(w == i as int);
                }
                let mut e: PoolEntry = self.entries[i];
                e.touched = true;
                self.entries[i] = e;
                proof {
                    assert forall|a: int, b: int|
                        0 <= a < b < self.entries@.len() implies self.entries@[a].id
                        != self.entries@[b].id by {
                        assert(self.entries@[a].id == old(self).entries@[a].id);
                        assert(self.entries@[b].id == old(self).entries@[b].id);
                    }
                    assert forall|a: int|
                        0 <= a < self.entries@.len() implies node_wf(
                        #[trigger] self.entries@[a].node,
                    ) by {
                        assert(self.entries@[a].node == old(self).entries@[a].node);
                    }
                }
                return i;
            }
            i = i + 1;
        }
        proof {
            if has_id(self.entries@, id) {
                let w = choose|w: int| 0 <= w < self.entries@.len() && self.entries@[w].id == id;
                assert(self.entries@[w].id != id);
            }
        }
        self.entries.push(PoolEntry { id, touched: true, node: *template });
        proof {
            assert forall|i: int, j: int|
                0 <= i < j < self.entries@.len() implies self.entries@[i].id
                != self.entries@[j].id by {
                if j == self.entries@.len() - 1 {
                    assert(old(self).entries@[i].id != id);
                }
            }
        }
        n
    }

    /// Looks the id up: the index of its entry, or nothing.
    #[verifier::loop_isolation(false)]
    pub fn find(&self, id: ListBoxNodeId) -> (r: Option<usize>)
        requires
            pool_wf(*self),
        ensures
            match r {
                Some(i) => has_id(self.entries@, id) && i == index_of_id(self.entries@, id) && i
                    < self.entries@.len() && self.entries@[i as int].id == id,
                None => !has_id(self.entries@, id),
            },
    {
        let n: usize = self.entries.len();
        let mut i: usize = 0;
        while i < n
            invariant
                i <= n,
                forall|j: int| 0 <= j < i ==> self.entries@[j].id != id,
            decreases n - i,
        {
            if self.entries[i].id.0 == id.0 {
                proof {
                    assert(self.entries@[i as int].id == id);
                    assert(has_id(self.entries@, id));
                    let w = index_of_id(self.entries@, id);
                    assert(0 <= w < self.entries@.len() && self.entries@[w].id == id);
                    if w < i as int {
                        assert(self.entries@[w].id != self.entries@[i as int].id);
                    } else if w > i as int {
                        assert(self.entries@[i as int].id != self.entries@[w].id);
                    }
                }
                return Some(i);
            }
            i = i + 1;
        }
        proof {
            if has_id(self.entries@, id) {
                let w = choose|w: int| 0 <= w < self.entries@.len() && self.entries@[w].id == id;
                assert(self.entries@[w].id != id);
            }
        }
        None
    }

    /// Replaces the node at a pool index, keeping id and mark.
    pub fn set_node_at(&mut self, idx: usize, n: ListBoxNode)
        requires
            idx < old(self).entries@.len(),
        ensures
            final(self).entries@ == old(self).entries@.update(
                idx as int,
                PoolEntry { node: n, ..old(self).entries@[idx as int] },
            ),
    {
        let mut e: PoolEntry = self.entries[idx];
        e.node = n;
        self.entries[idx] = e;
    }

    /// Read access to the node at a pool index.
    pub fn node_at(&self, idx: usize) -> (n: &ListBoxNode)
        requires
            idx < self.entries@.len(),
        ensures
            *n == self.entries@[idx as int].node,
    {
        &self.entries[idx].node
    }

    /// Prepares the node at `idx` for its draw call with the row parity.
    pub fn draw_at(&mut self, idx: usize, is_even: bool)
        requires
            idx < old(self).entries@.len(),
        ensures
            final(self).entries@ == old(self).entries@.update(
                idx as int,
                PoolEntry {
                    node: with_is_even(old(self).entries@[idx as int].node, is_even),
                    ..old(self).entries@[idx as int]
                },
            ),
    {
        let mut e: PoolEntry = self.entries[idx];
        e.node.set_draw_state(is_even);
        self.entries[idx] = e;
    }

    /// The end-of-frame sweep: every entry neither drawn this frame nor
    /// selected is deleted; the survivors keep their state and order, with
    /// their per-frame marks cleared.
    #[verifier::loop_isolation(false)]
    pub fn end_frame(&mut self, selected: &SelectionSet)
        requires
            pool_wf(*old(self)),
        ensures
            pool_wf(*final(self)),
            final(self).entries@ == sweep_spec(old(self).entries@, selected.ids@),
            forall|id: ListBoxNodeId|
                has_id(final(self).entries@, id) <==> exists|i: int|
                    0 <= i < old(self).entries@.len() && old(self).entries@[i].id == id
                        && keep_entry(#[trigger] old(self).entries@[i], selected.ids@),
    {
        let n: usize = self.entries.len();
        let mut out: Vec<PoolEntry> = Vec::new();
        let mut i: usize = 0;
        while i < n
            invariant
                n == self.entries@.len(),
                i <= n,
                self == old(self),
                out@ == sweep_spec(self.entries@.take(i as int), selected.ids@),
            decreases n - i,
        {
            let e: PoolEntry = self.entries[i];
            proof {
                let t1 = self.entries@.take(i as int + 1);
                assert(t1.drop_last() =~= self.entries@.take(i as int));
                assert(t1.last() == e);
            }
            if e.touched || selected.contains(e.id) {
                let mut kept: PoolEntry = e;
                kept.touched = false;
                proof {
                    assert(kept == clear_touched(e));
                }
                out.push(kept);
            } else {
                proof {
                    assert(!keep_entry(e, selected.ids@));
                }
            }
            i = i + 1;
        }
        proof {
            assert(self.entries@.take(n as int) =~= self.entries@);
        }
        self.entries = out;
        proof {
            lemma_sweep_wf(old(self).entries@, selected.ids@);
            assert forall|id: ListBoxNodeId|
                has_id(self.entries@, id) <==> exists|i: int|
                    0 <= i < old(self).entries@.len() && old(self).entries@[i].id == id
                        && keep_entry(#[trigger] old(self).entries@[i], selected.ids@) by {
                lemma_sweep_membership(old(self).entries@, selected.ids@, id);
            }
        }
    }
}

} // verus!
