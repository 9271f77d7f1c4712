use listbox::geom::Point;
use listbox::list_box::{node_id_of_index, ListBox, NodeHit};
use listbox::node::{Hit, ListBoxNode, ListBoxNodeAction, ListBoxNodeId, AMOUNT_ONE};
use listbox::pool::NodePool;
use listbox::selection::SelectionSet;

fn template() -> ListBoxNode {
    ListBoxNode::new(10, 10)
}

fn list() -> ListBox {
    ListBox::new(20, false, template())
}

#[test]
fn is_even_alternates() {
    assert!(!ListBox::is_even(1));
    assert!(ListBox::is_even(2));
    assert!(!ListBox::is_even(3));
    assert!(ListBox::is_even(0));
}

#[test]
fn node_hover_and_select_amounts() {
    let mut n = template();
    assert_eq!(n.handle_event(Hit::FingerHoverIn), ListBoxNodeAction::NoAction);
    assert_eq!(n.hover, AMOUNT_ONE);
    assert_eq!(n.bg_quad.hover, AMOUNT_ONE);
    assert_eq!(n.name_text.hover, AMOUNT_ONE);
    assert_eq!(n.handle_event(Hit::FingerHoverOut), ListBoxNodeAction::NoAction);
    assert_eq!(n.hover, 0);
    assert_eq!(n.handle_event(Hit::FingerDown), ListBoxNodeAction::WasClicked);
    assert_eq!(n.selected, AMOUNT_ONE);
    assert_eq!(n.bg_quad.selected, AMOUNT_ONE);
    n.set_is_selected(false);
    assert_eq!(n.selected, 0);
    assert_eq!(n.name_text.selected, 0);
}

#[test]
fn node_drag_threshold_is_euclidean() {
    let mut n = template();
    // distance 10 exactly (6-8-10 triangle) reaches the threshold
    let act = n.handle_event(Hit::FingerMove {
        abs: Point { x: 6, y: 8 },
        abs_start: Point { x: 0, y: 0 },
    });
    assert_eq!(act, ListBoxNodeAction::ShouldStartDragging);
    // distance below it does not
    let act = n.handle_event(Hit::FingerMove {
        abs: Point { x: 6, y: 7 },
        abs_start: Point { x: 0, y: 0 },
    });
    assert_eq!(act, ListBoxNodeAction::NoAction);
}

#[test]
fn get_or_create_returns_the_same_entry() {
    // two requests for one id in the same frame find the same slot and
    // construct nothing new
    let mut pool = NodePool::new();
    let t = template();
    let id = ListBoxNodeId(7);
    let first = pool.get_or_create(id, &t);
    assert_eq!(pool.len(), 1);
    let second = pool.get_or_create(id, &t);
    assert_eq!(first, second);
    assert_eq!(pool.len(), 1);
    let other = pool.get_or_create(ListBoxNodeId(8), &t);
    assert_eq!(pool.len(), 2);
    assert_ne!(other, first);
}

#[test]
fn end_frame_keeps_drawn_or_selected() {
    let mut pool = NodePool::new();
    let t = template();
    let drawn = ListBoxNodeId(1);
    let selected = ListBoxNodeId(2);
    let stale = ListBoxNodeId(3);
    pool.get_or_create(drawn, &t);
    pool.get_or_create(selected, &t);
    pool.get_or_create(stale, &t);
    let mut sel = SelectionSet::new();
    sel.insert(selected);
    // first sweep clears all marks; everything was just drawn, so all stay
    pool.end_frame(&sel);
    assert_eq!(pool.len(), 3);
    // next frame only `drawn` is drawn: `selected` survives by selection,
    // `stale` is evicted
    pool.get_or_create(drawn, &t);
    pool.end_frame(&sel);
    assert_eq!(pool.len(), 2);
    assert!(pool.find(drawn).is_some());
    assert!(pool.find(selected).is_some());
    assert!(pool.find(stale).is_none());
}

#[test]
fn selection_set_basics() {
    let mut sel = SelectionSet::new();
    assert_eq!(sel.len(), 0);
    assert!(!sel.contains(ListBoxNodeId(4)));
    sel.insert(ListBoxNodeId(4));
    sel.insert(ListBoxNodeId(4));
    assert_eq!(sel.len(), 1);
    assert!(sel.contains(ListBoxNodeId(4)));
    sel.clear();
    assert_eq!(sel.len(), 0);
}

#[test]
fn single_select_click_switches_selection() {
    // clicking node B while node A is selected leaves only B selected and
    // animates A to not-selected
    let mut lb = list();
    let a = ListBoxNodeId(1);
    let b = ListBoxNodeId(2);
    lb.begin();
    let ia = lb.draw_node(a);
    let ib = lb.draw_node(b);
    lb.handle_node_hit(a, Hit::FingerDown);
    assert_eq!(lb.selected_node_ids.ids.len(), 1);
    assert!(lb.selected_node_ids.contains(a));
    assert_eq!(lb.list_nodes.entries[ia].node.selected, AMOUNT_ONE);
    lb.handle_node_hit(b, Hit::FingerDown);
    assert_eq!(lb.selected_node_ids.ids.len(), 1);
    assert!(lb.selected_node_ids.contains(b));
    assert!(!lb.selected_node_ids.contains(a));
    assert_eq!(lb.list_nodes.entries[ia].node.selected, 0);
    assert_eq!(lb.list_nodes.entries[ia].node.bg_quad.selected, 0);
    assert_eq!(lb.list_nodes.entries[ib].node.selected, AMOUNT_ONE);
}

#[test]
fn batched_events_run_in_order() {
    // hovering A and clicking first A then B in one frame's batch leaves
    // only B selected, with A hovered but deselected
    let mut lb = list();
    let a = ListBoxNodeId(1);
    let b = ListBoxNodeId(2);
    lb.begin();
    let ia = lb.draw_node(a);
    let ib = lb.draw_node(b);
    let hits = vec![
        NodeHit { id: a, hit: Hit::FingerHoverIn },
        NodeHit { id: a, hit: Hit::FingerDown },
        NodeHit { id: b, hit: Hit::FingerDown },
    ];
    lb.handle_event(&hits);
    assert!(lb.selected_node_ids.contains(b));
    assert!(!lb.selected_node_ids.contains(a));
    assert_eq!(lb.list_nodes.entries[ia].node.hover, AMOUNT_ONE);
    assert_eq!(lb.list_nodes.entries[ia].node.selected, 0);
    assert_eq!(lb.list_nodes.entries[ib].node.selected, AMOUNT_ONE);
}

#[test]
fn hit_for_unknown_id_changes_nothing() {
    let mut lb = list();
    lb.begin();
    lb.draw_node(ListBoxNodeId(1));
    let act = lb.handle_node_hit(ListBoxNodeId(99), Hit::FingerDown);
    assert_eq!(act, ListBoxNodeAction::NoAction);
    assert_eq!(lb.selected_node_ids.ids.len(), 0);
    assert_eq!(lb.list_nodes.entries.len(), 1);
}

#[test]
fn selected_node_survives_end_frame_undrawn() {
    // a selected id survives the sweep even when not drawn that frame; an
    // id neither drawn nor selected is removed
    let mut lb = list();
    let a = ListBoxNodeId(1);
    let b = ListBoxNodeId(2);
    lb.begin();
    lb.draw_node(a);
    lb.draw_node(b);
    lb.handle_node_hit(b, Hit::FingerDown);
    lb.end(0);
    assert_eq!(lb.list_nodes.entries.len(), 2);
    // next frame: draw neither; only the selected one survives
    lb.begin();
    lb.end(0);
    assert_eq!(lb.list_nodes.entries.len(), 1);
    assert_eq!(lb.list_nodes.entries[0].id, b);
}

#[test]
fn fillers_cover_the_leftover_height() {
    let mut lb = list();
    lb.begin();
    // node height 20, 50 pixels left: rows of 20, 20 and 10
    let fillers = lb.end(50);
    assert_eq!(fillers.len(), 3);
    assert_eq!(fillers[0].height, 20);
    assert_eq!(fillers[1].height, 20);
    assert_eq!(fillers[2].height, 10);
    // parity keeps counting from the last drawn row
    assert!(!fillers[0].is_even);
    assert!(fillers[1].is_even);
    assert!(!fillers[2].is_even);
    assert_eq!(lb.count, 3);
    // no leftover space: no fillers
    let mut lb2 = list();
    lb2.begin();
    assert_eq!(lb2.end(0).len(), 0);
}

#[test]
fn draw_marks_row_parity_on_the_node() {
    let mut lb = list();
    lb.begin();
    let i1 = lb.draw_node(ListBoxNodeId(1));
    let i2 = lb.draw_node(ListBoxNodeId(2));
    assert!(!lb.list_nodes.entries[i1].node.bg_quad.is_even);
    assert!(lb.list_nodes.entries[i2].node.bg_quad.is_even);
    assert!(lb.list_nodes.entries[i2].node.name_text.is_even);
    assert_eq!(lb.count, 2);
}

#[test]
fn after_apply_reapplies_template_config() {
    let mut lb = list();
    lb.begin();
    let i1 = lb.draw_node(ListBoxNodeId(1));
    lb.template.min_drag_distance = 25;
    lb.after_apply();
    assert_eq!(lb.list_nodes.entries[i1].node.min_drag_distance, 25);
}

#[test]
fn node_ids_follow_item_indices() {
    assert_eq!(node_id_of_index(0), ListBoxNodeId(0));
    assert_eq!(node_id_of_index(41), ListBoxNodeId(41));
}
