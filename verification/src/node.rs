use crate::geom::{in_coord_range, Point, COORD_MAX};
use vstd::prelude::*;

verus! {

/// Animation amounts run in per-mille: 0 is fully off, `AMOUNT_ONE` fully on.
/// The animation backend interpolates between them over time; this state
/// machine only sets the targets.
pub const AMOUNT_ONE: u16 = 1000;

/// Stable identifier of one logical list item, unique within one list box.
#[derive(Clone, Copy, Debug, Default, PartialEq, Eq, Hash, Structural)]
pub struct ListBoxNodeId(pub u64);

/// What one node reports upward from an input event.
#[derive(Clone, Copy, Debug, PartialEq, Eq, Structural)]
pub enum ListBoxNodeAction {
    WasClicked,
    ShouldStartDragging,
    NoAction,
}

/// A pointer event, already resolved against the node's hit area by the
/// event source.
#[derive(Clone, Copy, Debug, PartialEq, Eq, Structural)]
pub enum Hit {
    FingerHoverIn,
    FingerHoverOut,
    FingerMove { abs: Point, abs_start: Point },
    FingerDown,
    Nothing,
}

/// The scalar inputs one draw object reads: the row parity and the two
/// animated amounts.
#[derive(Clone, Copy, Debug, PartialEq, Eq, Structural)]
pub struct DrawVars {
    pub is_even: bool,
    pub hover: u16,
    pub selected: u16,
}

/// The visual state of one list node: the two draw objects' inputs, the
/// node's own animated amounts, and its configuration.
#[derive(Clone, Copy, Debug, PartialEq, Eq, Structural)]
pub struct ListBoxNode {
    pub bg_quad: DrawVars,
    pub name_text: DrawVars,
    pub indent_width: i64,
    pub min_drag_distance: i64,
    pub opened: u16,
    pub hover: u16,
    pub selected: u16,
}

/// Amounts stay in range and the drag threshold is a sane distance.
pub open spec fn node_wf(n: ListBoxNode) -> bool {
    &&& n.bg_quad.hover <= AMOUNT_ONE && n.bg_quad.selected <= AMOUNT_ONE
    &&& n.name_text.hover <= AMOUNT_ONE && n.name_text.selected <= AMOUNT_ONE
    &&& n.hover <= AMOUNT_ONE && n.selected <= AMOUNT_ONE && n.opened <= AMOUNT_ONE
    &&& 0 <= n.min_drag_distance <= COORD_MAX
}

/// The node with its hover amount (and the draw objects' copies) set.
pub open spec fn with_hover(n: ListBoxNode, amt: u16) -> ListBoxNode {
    ListBoxNode {
        hover: amt,
        bg_quad: DrawVars { hover: amt, ..n.bg_quad },
        name_text: DrawVars { hover: amt, ..n.name_text },
        ..n
    }
}

/// The node with its selected amount (and the draw objects' copies) set.
pub open spec fn with_selected(n: ListBoxNode, amt: u16) -> ListBoxNode {
    ListBoxNode {
        selected: amt,
        bg_quad: DrawVars { selected: amt, ..n.bg_quad },
        name_text: DrawVars { selected: amt, ..n.name_text },
        ..n
    }
}

/// The node with both draw objects told the row parity.
pub open spec fn with_is_even(n: ListBoxNode, is_even: bool) -> ListBoxNode {
    ListBoxNode {
        bg_quad: DrawVars { is_even, ..n.bg_quad },
        name_text: DrawVars { is_even, ..n.name_text },
        ..n
    }
}

/// Whether a pointer move has travelled at least the drag threshold from
/// where it went down (compared on squared distances, so it is exact).
pub open spec fn drag_exceeds(abs: Point, abs_start: Point, mdd: int) -> bool {
    (abs.x - abs_start.x) * (abs.x - abs_start.x) + (abs.y - abs_start.y) * (abs.y
        - abs_start.y) >= mdd * mdd
}

/// The node state after one event.
pub open spec fn node_step(n: ListBoxNode, hit: Hit) -> ListBoxNode {
    match hit {
        Hit::FingerHoverIn => with_hover(n, AMOUNT_ONE),
        Hit::FingerHoverOut => with_hover(n, 0),
        Hit::FingerMove { .. } => n,
        Hit::FingerDown => with_selected(n, AMOUNT_ONE),
        Hit::Nothing => n,
    }
}

/// What the node reports for one event.
pub open spec fn node_action(n: ListBoxNode, hit: Hit) -> ListBoxNodeAction {
    match hit {
        Hit::FingerMove { abs, abs_start } => if drag_exceeds(
            abs,
            abs_start,
            n.min_drag_distance as int,
        ) {
            ListBoxNodeAction::ShouldStartDragging
        } else {
            ListBoxNodeAction::NoAction
        },
        Hit::FingerDown => ListBoxNodeAction::WasClicked,
        _ => ListBoxNodeAction::NoAction,
    }
}

impl ListBoxNode {
    /// A node built from the configured template values, everything else at
    /// rest.
    pub fn new(indent_width: i64, min_drag_distance: i64) -> (n: ListBoxNode)
        requires
            0 <= min_drag_distance <= COORD_MAX,
        ensures
            node_wf(n),
            n.indent_width == indent_width,
            n.min_drag_distance == min_drag_distance,
            n.hover == 0 && n.selected == 0 && n.opened == 0,
            n.bg_quad == (DrawVars { is_even: false, hover: 0, selected: 0 }),
            n.name_text == (DrawVars { is_even: false, hover: 0, selected: 0 }),
    {
        ListBoxNode {
            bg_quad: DrawVars { is_even: false, hover: 0, selected: 0 },
            name_text: DrawVars { is_even: false, hover: 0, selected: 0 },
            indent_width,
            min_drag_distance,
            opened: 0,
            hover: 0,
            selected: 0,
        }
    }

    /// Tells both draw objects the row parity.
    pub fn set_draw_state(&mut self, is_even: bool)
        ensures
            *final(self) == with_is_even(*old(self), is_even),
    {
        self.bg_quad.is_even = is_even;
        self.name_text.is_even = is_even;
    }

    /// Prepares the node for its draw call: the parity goes to the draw
    /// objects, and the row height the quad will occupy is handed back for
    /// the backend's layout walk.
    pub fn draw_node(&mut self, is_even: bool, node_height: i64) -> (h: i64)
        ensures
            *final(self) == with_is_even(*old(self), is_even),
            h == node_height,
    {
        self.set_draw_state(is_even);
        node_height
    }

    /// Snaps the selection amount fully on or off.
    pub fn set_is_selected(&mut self, is_selected: bool)
        ensures
            *final(self) == with_selected(*old(self), if is_selected { AMOUNT_ONE } else { 0u16 }),
    {
        let amt: u16 = if is_selected { AMOUNT_ONE } else { 0 };
        self.selected = amt;
        self.bg_quad.selected = amt;
        self.name_text.selected = amt;
    }

    /// Feeds one pointer event to the node: hover in and out move the hover
    /// amount, a press selects the node and reports a click, and a move past
    /// the drag threshold reports that dragging should start.
    pub fn handle_event(&mut self, hit: Hit) -> (act: ListBoxNodeAction)
        requires
            node_wf(*old(self)),
            match hit {
                Hit::FingerMove { abs, abs_start } => in_coord_range(abs) && in_coord_range(
                    abs_start,
                ),
                _ => true,
            },
        ensures
            *final(self) == node_step(*old(self), hit),
            act == node_action(*old(self), hit),
            node_wf(*final(self)),
    {
        match hit {
            Hit::FingerHoverIn => {
                self.hover = AMOUNT_ONE;
                self.bg_quad.hover = AMOUNT_ONE;
                self.name_text.hover = AMOUNT_ONE;
                ListBoxNodeAction::NoAction
            },
            Hit::FingerHoverOut => {
                self.hover = 0;
                self.bg_quad.hover = 0;
                self.name_text.hover = 0;
                ListBoxNodeAction::NoAction
            },
            Hit::FingerMove { abs, abs_start } => {
                let dx: i64 = abs.x - abs_start.x;
                let dy: i64 = abs.y - abs_start.y;
                proof {
                    assert(dx * dx + dy * dy <= 0x80_0000_0000_0000 && dx * dx >= 0 && dy * dy
                        >= 0 && self.min_drag_distance * self.min_drag_distance
                        <= 0x100_0000_0000) by (nonlinear_arith)
                        requires
                            -0x40_0000 <= dx <= 0x40_0000 && -0x40_0000 <= dy <= 0x40_0000 && 0
                                <= self.min_drag_distance <= 0x10_0000;
                }
                if dx * dx + dy * dy >= self.min_drag_distance * self.min_drag_distance {
                    ListBoxNodeAction::ShouldStartDragging
                } else {
                    ListBoxNodeAction::NoAction
                }
            },
            Hit::FingerDown => {
                self.selected = AMOUNT_ONE;
                self.bg_quad.selected = AMOUNT_ONE;
                self.name_text.selected = AMOUNT_ONE;
                ListBoxNodeAction::WasClicked
            },
            Hit::Nothing => ListBoxNodeAction::NoAction,
        }
    }
}

} // verus!
