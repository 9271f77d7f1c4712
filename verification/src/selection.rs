use crate::node::ListBoxNodeId;
use vstd::prelude::*;

verus! {

/// The set of currently selected node ids, kept as a duplicate-free vector.
#[derive(Clone, Debug)]
pub struct SelectionSet {
    pub ids: Vec<ListBoxNodeId>,
}

/// No id occurs twice.
pub open spec fn sel_wf(s: SelectionSet) -> bool {
    forall|i: int, j: int| 0 <= i < j < s.ids@.len() ==> s.ids@[i] != s.ids@[j]
}

impl SelectionSet {
    /// The empty selection.
    pub fn new() -> (s: SelectionSet)
        ensures
            s.ids@ =~= Seq::<ListBoxNodeId>::empty(),
            sel_wf(s),
    {
        SelectionSet { ids: Vec::new() }
    }

    /// Whether `id` is selected.
    pub fn contains(&self, id: ListBoxNodeId) -> (r: bool)
        ensures
            r == self.ids@.contains(id),
    {
        let mut i: usize = 0;
        let n: usize = self.ids.len();
        while i < n
            invariant
                n == self.ids@.len(),
                i <= n,
                forall|j: int| 0 <= j < i ==> self.ids@[j] != id,
            decreases n - i,
        {
            if self.ids[i].0 == id.0 {
                proof {
                    assert(self.ids@[i as int] == id);
                }
                return true;
            }
            i = i + 1;
        }
        proof {
            if self.ids@.contains(id) {
                let w = choose|w: int| 0 <= w < self.ids@.len() && self.ids@[w] == id;
                assert(self.ids@[w] != id);
            }
        }
        false
    }

    /// Adds `id`; selecting an already selected id changes nothing.
    pub fn insert(&mut self, id: ListBoxNodeId)
        requires
            sel_wf(*old(self)),
        ensures
            sel_wf(*final(self)),
            old(self).ids@.contains(id) ==> final(self).ids@ == old(self).ids@,
            !old(self).ids@.contains(id) ==> final(self).ids@ == old(self).ids@.push(id),
            forall|x: ListBoxNodeId| #[trigger] final(self).ids@.contains(x) <==> (old(
                self,
            ).ids@.contains(x) || x == id),
    {
        let present: bool = self.contains(id);
        if !present {
            self.ids.push(id);
        }
        proof {
            assert forall|x: ListBoxNodeId| #[trigger] self.ids@.contains(x) <==> (old(
                self,
            ).ids@.contains(x) || x == id) by {
                if !present {
                    assert(self.ids@ == old(self).ids@.push(id));
                    if old(self).ids@.contains(x) {
                        let w = choose|w: int|
                            0 <= w < old(self).ids@.len() && old(self).ids@[w] == x;
                        assert(self.ids@[w] == x);
                    }
                    if x == id {
                        assert(self.ids@[self.ids@.len() - 1] == x);
                    }
                    if self.ids@.contains(x) {
                        let w = choose|w: int| 0 <= w < self.ids@.len() && self.ids@[w] == x;
                        if w < self.ids@.len() - 1 {
                            assert(old(self).ids@[w] == x);
                        }
                    }
                }
            }
        }
    }

    /// Empties the selection.
    pub fn clear(&mut self)
        ensures
            final(self).ids@ =~= Seq::<ListBoxNodeId>::empty(),
            sel_wf(*final(self)),
    {
        self.ids.clear();
    }

    /// How many ids are selected.
    pub fn len(&self) -> (n: usize)
        ensures
            n == self.ids@.len(),
    {
        self.ids.len()
    }
}

} // verus!
