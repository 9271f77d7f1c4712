use crate::geom::{in_coord_range, max_i, min_i, COORD_MAX};
use crate::node::{
    node_action, node_step, node_wf, with_is_even, with_selected, Hit, ListBoxNode,
    ListBoxNodeAction, ListBoxNodeId, AMOUNT_ONE,
};
use crate::pool::{
    has_id, index_of_id, keep_entry, lemma_has_id_update, pool_wf, sweep_spec, NodePool, PoolEntry,
};
use crate::selection::{sel_wf, SelectionSet};
use vstd::prelude::*;

verus! {

/// What the list box reports to its parent.
#[derive(Clone, Copy, Debug, PartialEq, Eq, Structural)]
pub enum ListBoxAction {
    WasClicked(ListBoxNodeId),
    NoAction,
}

/// One pointer event already resolved to a node's hit area.
#[derive(Clone, Copy, Debug, PartialEq, Eq, Structural)]
pub struct NodeHit {
    pub id: ListBoxNodeId,
    pub hit: Hit,
}

/// One blank row drawn below the last item to fill the leftover space.
#[derive(Clone, Copy, Debug, PartialEq, Eq, Structural)]
pub struct Filler {
    pub is_even: bool,
    pub height: i64,
}

/// A virtualized, selectable list box: a pool of per-item visual state, the
/// current selection, and the per-frame row counter. The scrolling, layout
/// and draw-call plumbing around it lives with the drawing backend.
#[derive(Clone, Debug)]
pub struct ListBox {
    pub node_height: i64,
    pub multi_select: bool,
    pub items: Vec<String>,
    pub selected_node_ids: SelectionSet,
    pub list_nodes: NodePool,
    pub count: usize,
    pub template: ListBoxNode,
}

/// Row parity: the first row (count 1) is odd.
pub open spec fn is_even_spec(count: int) -> bool {
    count % 2 == 0
}

/// The event's coordinates are in range for the drag-distance check.
pub open spec fn hit_ok(h: Hit) -> bool {
    match h {
        Hit::FingerMove { abs, abs_start } => in_coord_range(abs) && in_coord_range(abs_start),
        _ => true,
    }
}

/// The list box invariant: a sane row height, a well-formed pool and
/// selection, and every selected id backed by a pooled node.
pub open spec fn list_wf(lb: ListBox) -> bool {
    &&& 1 <= lb.node_height <= COORD_MAX
    &&& pool_wf(lb.list_nodes)
    &&& sel_wf(lb.selected_node_ids)
    &&& node_wf(lb.template)
    &&& forall|i: int|
        0 <= i < lb.selected_node_ids.ids@.len() ==> has_id(
            lb.list_nodes.entries@,
            #[trigger] lb.selected_node_ids.ids@[i],
        )
}

/// One entry after the single-select policy ran for a click on `clicked`:
/// every other selected node is animated to not-selected.
pub open spec fn click_one(
    e: PoolEntry,
    sel: Seq<ListBoxNodeId>,
    clicked: ListBoxNodeId,
) -> PoolEntry {
    if sel.contains(e.id) && e.id != clicked {
        PoolEntry { node: with_selected(e.node, 0u16), ..e }
    } else {
        e
    }
}

pub open spec fn click_entries(
    entries: Seq<PoolEntry>,
    sel: Seq<ListBoxNodeId>,
    clicked: ListBoxNodeId,
) -> Seq<PoolEntry> {
    entries.map_values(|e: PoolEntry| click_one(e, sel, clicked))
}

/// The pool and selection after one node hit: the addressed node steps its
/// state machine; a press additionally runs the single-select policy and
/// leaves exactly the pressed id selected. A hit for an id without a pooled
/// node changes nothing.
pub open spec fn list_step(
    entries: Seq<PoolEntry>,
    sel: Seq<ListBoxNodeId>,
    nh: NodeHit,
) -> (Seq<PoolEntry>, Seq<ListBoxNodeId>) {
    if !has_id(entries, nh.id) {
        (entries, sel)
    } else {
        let i = index_of_id(entries, nh.id);
        let stepped = entries.update(
            i,
            PoolEntry { node: node_step(entries[i].node, nh.hit), ..entries[i] },
        );
        if nh.hit is FingerDown {
            (click_entries(stepped, sel, nh.id), seq![nh.id])
        } else {
            (stepped, sel)
        }
    }
}

/// The pool and selection after a sequence of node hits, in order.
pub open spec fn run_hits(
    entries: Seq<PoolEntry>,
    sel: Seq<ListBoxNodeId>,
    hits: Seq<NodeHit>,
) -> (Seq<PoolEntry>, Seq<ListBoxNodeId>)
    decreases hits.len(),
{
    if hits.len() == 0 {
        (entries, sel)
    } else {
        let prev = run_hits(entries, sel, hits.drop_last());
        list_step(prev.0, prev.1, hits.last())
    }
}

/// The fillers drawn below the last row: each takes one row of the leftover
/// height (the last one whatever remains), and the row parity keeps
/// counting.
pub open spec fn filler_seq(count: int, nh: int, left: int) -> Seq<Filler>
    decreases max_i(left, 0),
{
    if left <= 0 {
        Seq::empty()
    } else {
        seq![
            Filler { is_even: is_even_spec(count + 1), height: min_i(nh, left) as i64 },
        ] + filler_seq(count + 1, nh, left - max_i(nh, 1))
    }
}

/// The pool after one row was drawn for `id`: its node exists (created from
/// the template on first sight), is marked as drawn this frame, and both its
/// draw objects carry the row parity.
pub open spec fn drawn_entries(
    entries: Seq<PoolEntry>,
    id: ListBoxNodeId,
    template: ListBoxNode,
    even: bool,
) -> Seq<PoolEntry> {
    if has_id(entries, id) {
        let i = index_of_id(entries, id);
        entries.update(
            i,
            PoolEntry { touched: true, node: with_is_even(entries[i].node, even), ..entries[i] },
        )
    } else {
        entries.push(PoolEntry { id, touched: true, node: with_is_even(template, even) })
    }
}

/// The node id a plain item list derives for its `i`-th item.
pub fn node_id_of_index(i: usize) -> (id: ListBoxNodeId)
    ensures
        id.0 == i as u64,
{
    ListBoxNodeId(i as u64)
}

/// Single-select law: a press on node `nh.id` while any other set of nodes
/// is selected leaves exactly `nh.id` selected; the pressed node's selection
/// amount is fully on, and every other previously selected node's is fully
/// off.
pub proof fn lemma_single_select(entries: Seq<PoolEntry>, sel: Seq<ListBoxNodeId>, nh: NodeHit)
    requires
        has_id(entries, nh.id),
        nh.hit is FingerDown,
        forall|i: int, j: int| 0 <= i < j < entries.len() ==> entries[i].id != entries[j].id,
    ensures
        list_step(entries, sel, nh).1 =~= seq![nh.id],
        list_step(entries, sel, nh).0.len() == entries.len(),
        list_step(entries, sel, nh).0[index_of_id(entries, nh.id)].node.selected == AMOUNT_ONE,
        forall|j: int|
            0 <= j < entries.len() && sel.contains(#[trigger] entries[j].id) && entries[j].id
                != nh.id ==> list_step(entries, sel, nh).0[j].node.selected == 0,
{
    let i = index_of_id(entries, nh.id);
    assert(0 <= i < entries.len() && entries[i].id == nh.id);
    let stepped = entries.update(
        i,
        PoolEntry { node: node_step(entries[i].node, nh.hit), ..entries[i] },
    );
    let out = click_entries(stepped, sel, nh.id);
    assert(out[i] == click_one(stepped[i], sel, nh.id));
    assert(out[i].node.selected == AMOUNT_ONE);
    assert forall|j: int|
        0 <= j < entries.len() && sel.contains(#[trigger] entries[j].id) && entries[j].id
            != nh.id implies out[j].node.selected == 0 by {
        assert(j != i);
        assert(stepped[j] == entries[j]);
        assert(out[j] == click_one(entries[j], sel, nh.id));
    }
}

impl ListBox {
    /// An empty list box around a node template.
    pub fn new(node_height: i64, multi_select: bool, template: ListBoxNode) -> (lb: ListBox)
        requires
            1 <= node_height <= COORD_MAX,
            node_wf(template),
        ensures
            list_wf(lb),
            lb.node_height == node_height,
            lb.multi_select == multi_select,
            lb.template == template,
            lb.count == 0,
            lb.list_nodes.entries@.len() == 0,
            lb.selected_node_ids.ids@.len() == 0,
            lb.items@.len() == 0,
    {
        ListBox {
            node_height,
            multi_select,
            items: Vec::new(),
            selected_node_ids: SelectionSet::new(),
            list_nodes: NodePool::new(),
            count: 0,
            template,
        }
    }

    /// Starts a frame's draw pass: the row counter returns to zero.
    pub fn begin(&mut self)
        ensures
            *final(self) == (ListBox { count: 0, ..*old(self) }),
    {
        self.count = 0;
    }

    /// Row parity for a 1-based row count: even rows get the alternate
    /// background.
    pub fn is_even(count: usize) -> (r: bool)
        ensures
            r == is_even_spec(count as int),
    {
        count % 2 == 0
    }

    /// Draws one item row: counts the row, finds or creates the node state
    /// for `node_id` and marks it drawn, and hands its draw objects the row
    /// parity. Returns the pool index of the node, through which the backend
    /// issues the quad and text draw calls.
    pub fn draw_node(&mut self, node_id: ListBoxNodeId) -> (idx: usize)
        requires
            list_wf(*old(self)),
            old(self).count < 0x1000_0000,
            old(self).list_nodes.entries@.len() < 0x1_0000_0000,
        ensures
            list_wf(*final(self)),
            final(self).count == old(self).count + 1,
            final(self).list_nodes.entries@ == drawn_entries(
                old(self).list_nodes.entries@,
                node_id,
                old(self).template,
                is_even_spec(old(self).count + 1),
            ),
            idx < final(self).list_nodes.entries@.len(),
            final(self).list_nodes.entries@[idx as int].id == node_id,
            final(self).list_nodes.entries@[idx as int].touched,
            final(self).selected_node_ids == old(self).selected_node_ids,
            final(self).node_height == old(self).node_height,
            final(self).template == old(self).template,
            final(self).multi_select == old(self).multi_select,
    {
        self.count = self.count + 1;
        let even: bool = ListBox::is_even(self.count);
        let ghost entries0 = self.list_nodes.entries@;
        let idx: usize = self.list_nodes.get_or_create(node_id, &self.template);
        let ghost entries1 = self.list_nodes.entries@;
        self.list_nodes.draw_at(idx, even);
        proof {
            if has_id(entries0, node_id) {
                let i = index_of_id(entries0, node_id);
                assert(self.list_nodes.entries@ =~= drawn_entries(
                    entries0,
                    node_id,
                    self.template,
                    even,
                ));
            } else {
                assert(entries1 == entries0.push(
                    PoolEntry { id: node_id, touched: true, node: self.template },
                ));
                assert(self.list_nodes.entries@ =~= drawn_entries(
                    entries0,
                    node_id,
                    self.template,
                    even,
                ));
            }
            // ids are unchanged or extended, so uniqueness, node health and
            // the selection's backing survive
            let cur = self.list_nodes.entries@;
            assert forall|a: int, b: int| 0 <= a < b < cur.len() implies cur[a].id != cur[b].id by {
                if has_id(entries0, node_id) {
                    assert(cur[a].id == entries0[a].id && cur[b].id == entries0[b].id);
                } else {
                    if b < entries0.len() {
                        assert(cur[a].id == entries0[a].id && cur[b].id == entries0[b].id);
                    } else {
                        assert(cur[b].id == node_id);
                        if cur[a].id == node_id {
                            assert(entries0[a].id == node_id);
                            assert(has_id(entries0, node_id));
                        }
                    }
                }
            }
            assert forall|a: int| 0 <= a < cur.len() implies node_wf(#[trigger] cur[a].node) by {
                if has_id(entries0, node_id) {
                    let i = index_of_id(entries0, node_id);
                    if a == i {
                        assert(node_wf(entries0[a].node));
                    } else {
                        assert(cur[a].node == entries0[a].node);
                    }
                } else {
                    if a < entries0.len() {
                        assert(cur[a].node == entries0[a].node);
                    }
                }
            }
            assert forall|k: int|
                0 <= k < self.selected_node_ids.ids@.len() implies has_id(
                cur,
                #[trigger] self.selected_node_ids.ids@[k],
            ) by {
                let sid = self.selected_node_ids.ids@[k];
                assert(has_id(entries0, sid));
                let w = choose|w: int| 0 <= w < entries0.len() && entries0[w].id == sid;
                assert(cur[w].id == sid);
            }
        }
        idx
    }

    /// Ends a frame's draw pass. The leftover height below the last row is
    /// covered with filler rows, whose parities and heights come back for
    /// the backend to draw; then the pool evicts every node that was neither
    /// drawn this frame nor is selected.
    #[verifier::loop_isolation(false)]
    pub fn end(&mut self, height_left: i64) -> (fillers: Vec<Filler>)
        requires
            list_wf(*old(self)),
            0 <= height_left <= COORD_MAX,
            old(self).count < 0x1000_0000,
        ensures
            list_wf(*final(self)),
            fillers@ == filler_seq(
                old(self).count as int,
                old(self).node_height as int,
                height_left as int,
            ),
            final(self).count == old(self).count + fillers@.len(),
            final(self).list_nodes.entries@ == sweep_spec(
                old(self).list_nodes.entries@,
                old(self).selected_node_ids.ids@,
            ),
            forall|id: ListBoxNodeId|
                has_id(final(self).list_nodes.entries@, id) <==> exists|i: int|
                    0 <= i < old(self).list_nodes.entries@.len() && old(
                        self,
                    ).list_nodes.entries@[i].id == id && keep_entry(
                        #[trigger] old(self).list_nodes.entries@[i],
                        old(self).selected_node_ids.ids@,
                    ),
            final(self).selected_node_ids == old(self).selected_node_ids,
            final(self).node_height == old(self).node_height,
            final(self).template == old(self).template,
    {
        let nh: i64 = self.node_height;
        let ghost count0: int = self.count as int;
        let mut walk: i64 = 0;
        let mut fillers: Vec<Filler> = Vec::new();
        while walk < height_left
            invariant
                0 <= walk <= height_left + nh,
                self.count as int == count0 + fillers@.len(),
                fillers@.len() <= walk,
                fillers@ + filler_seq(self.count as int, nh as int, height_left - walk)
                    =~= filler_seq(count0, nh as int, height_left as int),
                self.list_nodes == old(self).list_nodes,
                self.selected_node_ids == old(self).selected_node_ids,
                self.node_height == old(self).node_height,
                self.template == old(self).template,
                self.multi_select == old(self).multi_select,
                self.items == old(self).items,
            decreases max_i(height_left - walk, 0),
        {
            let ghost pre = fillers@;
            let ghost cpre: int = self.count as int;
            let ghost leftpre: int = height_left - walk;
            self.count = self.count + 1;
            let even: bool = ListBox::is_even(self.count);
            let h: i64 = if nh <= height_left - walk { nh } else { height_left - walk };
            let f = Filler { is_even: even, height: h };
            fillers.push(f);
            walk = walk + (if nh >= 1 { nh } else { 1 });
            proof {
                assert(filler_seq(cpre, nh as int, leftpre) =~= seq![f] + filler_seq(
                    cpre + 1,
                    nh as int,
                    leftpre - max_i(nh as int, 1),
                ));
                assert(fillers@ =~= pre + seq![f]);
                assert(fillers@ + filler_seq(self.count as int, nh as int, height_left - walk)
                    =~= (pre + seq![f]) + filler_seq(cpre + 1, nh as int, leftpre - max_i(
                    nh as int,
                    1,
                )));
                assert((pre + seq![f]) + filler_seq(cpre + 1, nh as int, leftpre - max_i(
                    nh as int,
                    1,
                )) =~= pre + (seq![f] + filler_seq(cpre + 1, nh as int, leftpre - max_i(
                    nh as int,
                    1,
                ))));
            }
        }
        proof {
            assert(filler_seq(self.count as int, nh as int, height_left - walk)
                =~= Seq::<Filler>::empty());
            assert(fillers@ =~= filler_seq(count0, nh as int, height_left as int));
        }
        self.list_nodes.end_frame(&self.selected_node_ids);
        proof {
            assert forall|k: int|
                0 <= k < self.selected_node_ids.ids@.len() implies has_id(
                self.list_nodes.entries@,
                #[trigger] self.selected_node_ids.ids@[k],
            ) by {
                let sid = self.selected_node_ids.ids@[k];
                assert(has_id(old(self).list_nodes.entries@, sid));
                let w = choose|w: int|
                    0 <= w < old(self).list_nodes.entries@.len() && old(
                        self,
                    ).list_nodes.entries@[w].id == sid;
                assert(keep_entry(old(self).list_nodes.entries@[w], self.selected_node_ids.ids@))
                    by {
                    assert(self.selected_node_ids.ids@.contains(sid));
                }
            }
        }
        fillers
    }

    /// Feeds one resolved pointer event to its node: the node's state
    /// machine runs, and on a press the single-select policy deselects every
    /// other node and leaves the pressed id the only selection. Returns what
    /// the node reported.
    #[verifier::loop_isolation(false)]
    pub fn handle_node_hit(&mut self, id: ListBoxNodeId, hit: Hit) -> (act: ListBoxNodeAction)
        requires
            list_wf(*old(self)),
            hit_ok(hit),
        ensures
            list_wf(*final(self)),
            final(self).list_nodes.entries@ == list_step(
                old(self).list_nodes.entries@,
                old(self).selected_node_ids.ids@,
                NodeHit { id, hit },
            ).0,
            final(self).selected_node_ids.ids@ == list_step(
                old(self).list_nodes.entries@,
                old(self).selected_node_ids.ids@,
                NodeHit { id, hit },
            ).1,
            act == if has_id(old(self).list_nodes.entries@, id) {
                node_action(
                    old(self).list_nodes.entries@[index_of_id(old(self).list_nodes.entries@, id)].node,
                    hit,
                )
            } else {
                ListBoxNodeAction::NoAction
            },
            final(self).count == old(self).count,
            final(self).node_height == old(self).node_height,
            final(self).template == old(self).template,
            final(self).multi_select == old(self).multi_select,
    {
        let ghost entries0 = self.list_nodes.entries@;
        let ghost sel0 = self.selected_node_ids.ids@;
        let found: Option<usize> = self.list_nodes.find(id);
        match found {
            Option::None => ListBoxNodeAction::NoAction,
            Option::Some(i) => {
                let mut node: ListBoxNode = *self.list_nodes.node_at(i);
                let act: ListBoxNodeAction = node.handle_event(hit);
                self.list_nodes.set_node_at(i, node);
                let ghost stepped = self.list_nodes.entries@;
                proof {
                    assert(stepped == entries0.update(
                        i as int,
                        PoolEntry { node: node_step(entries0[i as int].node, hit), ..entries0[i as int] },
                    ));
                    lemma_has_id_update(
                        entries0,
                        i as int,
                        PoolEntry { node: node_step(entries0[i as int].node, hit), ..entries0[i as int] },
                        id,
                    );
                    assert forall|a: int, b: int|
                        0 <= a < b < stepped.len() implies stepped[a].id != stepped[b].id by {
                        assert(stepped[a].id == entries0[a].id && stepped[b].id == entries0[b].id);
                    }
                    assert forall|a: int| 0 <= a < stepped.len() implies node_wf(
                        #[trigger] stepped[a].node,
                    ) by {
                        if a != i as int {
                            assert(stepped[a].node == entries0[a].node);
                        }
                    }
                }
                match hit {
                    Hit::FingerDown => {
                        let n: usize = self.list_nodes.len();
                        let mut j: usize = 0;
                        while j < n
                            invariant
                                j <= n,
                                n == self.list_nodes.entries@.len(),
                                self.list_nodes.entries@.len() == stepped.len(),
                                forall|k: int|
                                    0 <= k < j ==> #[trigger] self.list_nodes.entries@[k]
                                        == click_one(stepped[k], sel0, id),
                                forall|k: int|
                                    j <= k < stepped.len() ==> #[trigger] self.list_nodes.entries@[k]
                                        == stepped[k],
                                self.selected_node_ids == old(self).selected_node_ids,
                                self.count == old(self).count,
                                self.node_height == old(self).node_height,
                                self.template == old(self).template,
                                self.multi_select == old(self).multi_select,
                                self.items == old(self).items,
                            decreases n - j,
                        {
                            let e_id: ListBoxNodeId = self.list_nodes.entries[j].id;
                            if j != i && self.selected_node_ids.contains(e_id) {
                                let mut nj: ListBoxNode = *self.list_nodes.node_at(j);
                                nj.set_is_selected(false);
                                self.list_nodes.set_node_at(j, nj);
                                proof {
                                    assert(stepped[j as int].id != stepped[i as int].id);
                                    assert(self.list_nodes.entries@[j as int] == click_one(
                                        stepped[j as int],
                                        sel0,
                                        id,
                                    ));
                                }
                            } else {
                                proof {
                                    if j == i {
                                        assert(stepped[j as int].id == id);
                                    }
                                    assert(self.list_nodes.entries@[j as int] == click_one(
                                        stepped[j as int],
                                        sel0,
                                        id,
                                    ));
                                }
                            }
                            j = j + 1;
                        }
                        self.selected_node_ids.clear();
                        self.selected_node_ids.insert(id);
                        proof {
                            assert(self.selected_node_ids.ids@ =~= seq![id]);
                            let cur = self.list_nodes.entries@;
                            assert(cur =~= click_entries(stepped, sel0, id));
                            assert forall|a: int, b: int|
                                0 <= a < b < cur.len() implies cur[a].id != cur[b].id by {
                                assert(cur[a].id == stepped[a].id && cur[b].id == stepped[b].id);
                            }
                            assert forall|a: int| 0 <= a < cur.len() implies node_wf(
                                #[trigger] cur[a].node,
                            ) by {
                                assert(cur[a] == click_one(stepped[a], sel0, id));
                            }
                            assert forall|k: int|
                                0 <= k < self.selected_node_ids.ids@.len() implies has_id(
                                cur,
                                #[trigger] self.selected_node_ids.ids@[k],
                            ) by {
                                assert(self.selected_node_ids.ids@[k] == id);
                                assert(cur[i as int].id == id);
                            }
                        }
                        act
                    },
                    _ => {
                        proof {
                            assert forall|k: int|
                                0 <= k < self.selected_node_ids.ids@.len() implies has_id(
                                self.list_nodes.entries@,
                                #[trigger] self.selected_node_ids.ids@[k],
                            ) by {
                                let sid = self.selected_node_ids.ids@[k];
                                assert(has_id(entries0, sid));
                                lemma_has_id_update(
                                    entries0,
                                    i as int,
                                    PoolEntry {
                                        node: node_step(entries0[i as int].node, hit),
                                        ..entries0[i as int]
                                    },
                                    sid,
                                );
                            }
                        }
                        act
                    },
                }
            },
        }
    }

    /// Feeds a frame's resolved pointer events to their nodes, in order.
    #[verifier::loop_isolation(false)]
    pub fn handle_event(&mut self, hits: &Vec<NodeHit>)
        requires
            list_wf(*old(self)),
            forall|k: int| 0 <= k < hits@.len() ==> hit_ok(#[trigger] hits@[k].hit),
        ensures
            list_wf(*final(self)),
            final(self).list_nodes.entries@ == run_hits(
                old(self).list_nodes.entries@,
                old(self).selected_node_ids.ids@,
                hits@,
            ).0,
            final(self).selected_node_ids.ids@ == run_hits(
                old(self).list_nodes.entries@,
                old(self).selected_node_ids.ids@,
                hits@,
            ).1,
            final(self).count == old(self).count,
            final(self).node_height == old(self).node_height,
            final(self).template == old(self).template,
    {
        let ghost entries0 = old(self).list_nodes.entries@;
        let ghost sel0 = old(self).selected_node_ids.ids@;
        let n: usize = hits.len();
        let mut k: usize = 0;
        while k < n
            invariant
                k <= n,
                list_wf(*self),
                self.list_nodes.entries@ == run_hits(entries0, sel0, hits@.take(k as int)).0,
                self.selected_node_ids.ids@ == run_hits(entries0, sel0, hits@.take(k as int)).1,
                self.count == old(self).count,
                self.node_height == old(self).node_height,
                self.template == old(self).template,
            decreases n - k,
        {
            let nh: NodeHit = hits[k];
            self.handle_node_hit(nh.id, nh.hit);
            proof {
                let t1 = hits@.take(k as int + 1);
                assert(t1.drop_last() =~= hits@.take(k as int));
                assert(t1.last() == nh);
            }
            k = k + 1;
        }
        proof {
            assert(hits@.take(n as int) =~= hits@);
        }
    }

    /// Reapplies the template's configuration to every pooled node, as a
    /// style reload does; the nodes' animated amounts keep their values.
    #[verifier::loop_isolation(false)]
    pub fn after_apply(&mut self)
        requires
            list_wf(*old(self)),
        ensures
            list_wf(*final(self)),
            final(self).list_nodes.entries@.len() == old(self).list_nodes.entries@.len(),
            forall|k: int|
                0 <= k < old(self).list_nodes.entries@.len()
                    ==> #[trigger] final(self).list_nodes.entries@[k] == (PoolEntry {
                    node: ListBoxNode {
                        indent_width: old(self).template.indent_width,
                        min_drag_distance: old(self).template.min_drag_distance,
                        ..old(self).list_nodes.entries@[k].node
                    },
                    ..old(self).list_nodes.entries@[k]
                }),
            final(self).selected_node_ids == old(self).selected_node_ids,
            final(self).count == old(self).count,
            final(self).template == old(self).template,
    {
        let iw: i64 = self.template.indent_width;
        let mdd: i64 = self.template.min_drag_distance;
        let n: usize = self.list_nodes.len();
        let mut k: usize = 0;
        while k < n
            invariant
                k <= n,
                n == self.list_nodes.entries@.len(),
                self.list_nodes.entries@.len() == old(self).list_nodes.entries@.len(),
                forall|a: int|
                    0 <= a < k ==> #[trigger] self.list_nodes.entries@[a] == (PoolEntry {
                        node: ListBoxNode {
                            indent_width: iw,
                            min_drag_distance: mdd,
                            ..old(self).list_nodes.entries@[a].node
                        },
                        ..old(self).list_nodes.entries@[a]
                    }),
                forall|a: int|
                    k <= a < n ==> #[trigger] self.list_nodes.entries@[a] == old(
                        self,
                    ).list_nodes.entries@[a],
                self.selected_node_ids == old(self).selected_node_ids,
                self.count == old(self).count,
                self.template == old(self).template,
                self.node_height == old(self).node_height,
                self.multi_select == old(self).multi_select,
                self.items == old(self).items,
            decreases n - k,
        {
            let mut nk: ListBoxNode = *self.list_nodes.node_at(k);
            nk.indent_width = iw;
            nk.min_drag_distance = mdd;
            self.list_nodes.set_node_at(k, nk);
            k = k + 1;
        }
        proof {
            let cur = self.list_nodes.entries@;
            let prev = old(self).list_nodes.entries@;
            assert forall|a: int, b: int| 0 <= a < b < cur.len() implies cur[a].id != cur[b].id by {
                assert(cur[a].id == prev[a].id && cur[b].id == prev[b].id);
            }
            assert forall|a: int| 0 <= a < cur.len() implies node_wf(#[trigger] cur[a].node) by {
                assert(node_wf(prev[a].node));
            }
            assert forall|kk: int|
                0 <= kk < self.selected_node_ids.ids@.len() implies has_id(
                cur,
                #[trigger] self.selected_node_ids.ids@[kk],
            ) by {
                let sid = self.selected_node_ids.ids@[kk];
                assert(has_id(prev, sid));
                let w = choose|w: int| 0 <= w < prev.len() && prev[w].id == sid;
                assert(cur[w].id == sid);
            }
        }
    }
}

} // verus!
