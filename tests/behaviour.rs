use std::cell::RefCell;

use ranma_core::bridge::{DisplayInfo, RanmaError, StateChangeEvent, StateChangeHandler};
use ranma_core::error::StoreError;
use ranma_core::ipc::protocol::{AddCommand, Command, Response};
use ranma_core::ipc::server::handle_command;
use ranma_core::node::{BarNode, NodeType};
use ranma_core::props::Properties;
use ranma_core::resolve::apply_properties;
use ranma_core::state::BarState;
use ranma_core::text::{parse_i32, parse_u32, text_eq};
use ranma_core::{main_display_id, notify, set_displays};

fn metric(v: &str) -> Option<u32> {
    v.parse::<f32>().ok().map(f32::to_bits)
}

fn bag(entries: &[(&str, &str)]) -> Properties {
    let mut p = Properties::new();
    for (k, v) in entries {
        p.insert(k.to_string(), v.to_string(), metric(v));
    }
    p
}

fn node(name: &str, node_type: NodeType, parent: Option<&str>, position: i32, display: u32) -> BarNode {
    BarNode::bare(name.to_string(), node_type, parent.map(|s| s.to_string()), position, display)
}

fn display(id: u32, is_main: bool) -> DisplayInfo {
    DisplayInfo { id, name: format!("screen {id}"), is_main }
}

fn add_request(name: &str) -> AddCommand {
    AddCommand {
        name: name.to_string(),
        node_type: None,
        parent: None,
        label: None,
        label_color: None,
        icon: None,
        icon_color: None,
        background_color: None,
        border_color: None,
        border_width: None,
        corner_radius: None,
        padding_left: None,
        padding_right: None,
        padding_top: None,
        padding_bottom: None,
        shadow_color: None,
        shadow_radius: None,
        width: None,
        height: None,
        gap: None,
        margin_left: None,
        margin_right: None,
        margin_top: None,
        margin_bottom: None,
        padding: None,
        padding_horizontal: None,
        padding_vertical: None,
        margin: None,
        margin_horizontal: None,
        margin_vertical: None,
        font_size: None,
        font_weight: None,
        font_family: None,
        notch_align: None,
        align_items: None,
        justify_content: None,
        hover_background_color: None,
        hover_label_color: None,
        hover_icon_color: None,
        on_click: None,
        position: None,
        display: None,
    }
}

fn names(nodes: &[BarNode]) -> Vec<String> {
    nodes.iter().map(|n| n.name.clone()).collect()
}

fn query_names(state: &mut BarState, displays: &Vec<DisplayInfo>, name: Option<&str>, d: Option<u32>) -> Vec<String> {
    let req = Command::Query { name: name.map(|s| s.to_string()), display: d };
    match handle_command(state, displays, Ok(req)).0 {
        Response::QueryResult { nodes } => nodes.into_iter().map(|n| n.name).collect(),
        _ => panic!("expected a query result"),
    }
}

#[test]
fn add_then_query_returns_supplied_attributes() {
    let mut state = BarState::default();
    let mut n = node("clock", NodeType::Item, None, 3, 2);
    n.label = Some("12:00".to_string());
    n.style.gap = metric("4");
    state.add_node(n).unwrap();
    let all = state.get_nodes();
    assert_eq!(all.len(), 1);
    assert_eq!(all[0].name, "clock");
    assert_eq!(all[0].label.as_deref(), Some("12:00"));
    assert_eq!(all[0].position, 3);
    assert_eq!(all[0].display, 2);
    assert_eq!(all[0].style.gap, Some(4.0f32.to_bits()));
    assert_eq!(all[0].style.width, None);
    assert_eq!(all[0].icon, None);
}

#[test]
fn add_duplicate_name_on_other_display_fails() {
    let mut state = BarState::default();
    state.add_node(node("a", NodeType::Item, None, 0, 1)).unwrap();
    let err = state.add_node(node("a", NodeType::Row, None, 7, 2)).unwrap_err();
    assert!(matches!(err, StoreError::AlreadyExists { ref name } if name == "a"));
    assert_eq!(err.message(), "node 'a' already exists");
    let all = state.get_nodes();
    assert_eq!(all.len(), 1);
    assert_eq!(all[0].display, 1);
    assert!(state.get_nodes_for_display(2).is_empty());
}

#[test]
fn add_under_missing_parent_fails() {
    let mut state = BarState::default();
    let err = state.add_node(node("a", NodeType::Item, Some("nope"), 0, 1)).unwrap_err();
    assert_eq!(err.message(), "node 'nope' not found");
    assert!(state.get_nodes().is_empty());
}

#[test]
fn add_under_item_parent_fails() {
    let mut state = BarState::default();
    state.add_node(node("leaf", NodeType::Item, None, 0, 1)).unwrap();
    let err = state.add_node(node("a", NodeType::Item, Some("leaf"), 0, 1)).unwrap_err();
    assert!(matches!(err, StoreError::InvalidParent { .. }));
    assert_eq!(err.message(), "'leaf' is an item and cannot have children");
}

#[test]
fn nodes_sorted_by_position_with_ties_in_insertion_order() {
    let mut state = BarState::default();
    state.add_node(node("a", NodeType::Item, None, 5, 1)).unwrap();
    state.add_node(node("b", NodeType::Item, None, 1, 1)).unwrap();
    state.add_node(node("c", NodeType::Item, None, 5, 1)).unwrap();
    state.add_node(node("d", NodeType::Item, None, -2, 1)).unwrap();
    assert_eq!(names(&state.get_nodes_for_display(1)), vec!["d", "b", "a", "c"]);
}

#[test]
fn cascade_reaches_other_displays() {
    let mut state = BarState::default();
    state.add_node(node("row", NodeType::Row, None, 0, 1)).unwrap();
    state.add_node(node("kid", NodeType::Item, Some("row"), 0, 1)).unwrap();
    state.add_node(node("far", NodeType::Column, Some("row"), 0, 2)).unwrap();
    state.add_node(node("farther", NodeType::Item, Some("far"), 0, 3)).unwrap();
    state.add_node(node("other", NodeType::Item, None, 4, 2)).unwrap();
    state.remove_node("row").unwrap();
    assert!(state.get_nodes_for_display(1).is_empty());
    assert_eq!(names(&state.get_nodes_for_display(2)), vec!["other"]);
    assert!(state.get_nodes_for_display(3).is_empty());
}

#[test]
fn cascade_follows_a_child_moved_to_another_display() {
    let mut state = BarState::default();
    state.add_node(node("r", NodeType::Row, None, 0, 1)).unwrap();
    state.add_node(node("c", NodeType::Item, Some("r"), 0, 1)).unwrap();
    state.set_properties("c", &bag(&[("display", "2")]), 1).unwrap();
    state.remove_node("r").unwrap();
    assert!(state.get_nodes().is_empty());
}

#[test]
fn specific_edge_overrides_shorthand() {
    let n = node("n", NodeType::Item, None, 0, 1);
    let out = apply_properties(&n, &bag(&[("padding", "5"), ("padding_left", "1")])).unwrap();
    assert_eq!(out.style.padding_left, Some(1.0f32.to_bits()));
    assert_eq!(out.style.padding_right, Some(5.0f32.to_bits()));
    assert_eq!(out.style.padding_top, Some(5.0f32.to_bits()));
    assert_eq!(out.style.padding_bottom, Some(5.0f32.to_bits()));
    // the order of the bag does not matter
    let out = apply_properties(&n, &bag(&[("padding_left", "1"), ("padding", "5")])).unwrap();
    assert_eq!(out.style.padding_left, Some(1.0f32.to_bits()));
    assert_eq!(out.style.padding_bottom, Some(5.0f32.to_bits()));
}

#[test]
fn margin_axis_shorthand() {
    let n = node("n", NodeType::Item, None, 0, 1);
    let out = apply_properties(&n, &bag(&[("margin", "2"), ("margin_vertical", "3")])).unwrap();
    assert_eq!(out.style.margin_left, Some(2.0f32.to_bits()));
    assert_eq!(out.style.margin_right, Some(2.0f32.to_bits()));
    assert_eq!(out.style.margin_top, Some(3.0f32.to_bits()));
    assert_eq!(out.style.margin_bottom, Some(3.0f32.to_bits()));
}

#[test]
fn empty_value_clears_clearable_fields() {
    let mut n = node("n", NodeType::Item, None, 0, 1);
    n.style.width = metric("10");
    n.label = Some("x".to_string());
    let out = apply_properties(&n, &bag(&[("width", ""), ("label", "")])).unwrap();
    assert_eq!(out.style.width, None);
    assert_eq!(out.label, None);
}

#[test]
fn empty_value_fails_for_required_metric() {
    let n = node("n", NodeType::Item, None, 0, 1);
    let err = apply_properties(&n, &bag(&[("height", "")])).unwrap_err();
    assert_eq!(err.message(), "invalid height: ");
}

#[test]
fn bad_number_and_unknown_property_fail() {
    let n = node("n", NodeType::Item, None, 0, 1);
    let err = apply_properties(&n, &bag(&[("position", "1.5")])).unwrap_err();
    assert!(matches!(err, StoreError::InvalidValue { .. }));
    assert_eq!(err.message(), "invalid position: 1.5");
    let err = apply_properties(&n, &bag(&[("colour", "red")])).unwrap_err();
    assert_eq!(err.message(), "unknown property: colour");
    let out = apply_properties(&n, &bag(&[("position", "-12"), ("icon", "bolt")])).unwrap();
    assert_eq!(out.position, -12);
    assert_eq!(out.icon.as_deref(), Some("bolt"));
}

#[test]
fn failed_set_changes_nothing() {
    let mut state = BarState::default();
    state.add_node(node("n", NodeType::Item, None, 0, 1)).unwrap();
    let err = state
        .set_properties("n", &bag(&[("label", "hi"), ("bogus", "1"), ("display", "2")]), 1)
        .unwrap_err();
    assert_eq!(err.message(), "unknown property: bogus");
    let all = state.get_nodes();
    assert_eq!(all[0].label, None);
    assert_eq!(all[0].display, 1);
    let err = state.set_properties("n", &bag(&[("display", "x")]), 1).unwrap_err();
    assert_eq!(err.message(), "invalid display: x");
    let err = state.set_properties("m", &bag(&[("label", "a")]), 1).unwrap_err();
    assert_eq!(err.message(), "node 'm' not found");
}

#[test]
fn set_display_moves_node() {
    let mut state = BarState::default();
    state.add_node(node("a", NodeType::Item, None, 1, 1)).unwrap();
    state.add_node(node("x", NodeType::Item, None, 0, 2)).unwrap();
    state.add_node(node("y", NodeType::Item, None, 9, 2)).unwrap();
    let moved = state.set_properties("a", &bag(&[("display", "2")]), 1).unwrap();
    assert_eq!(moved.display, 2);
    assert!(moved.display_explicit);
    assert!(state.get_nodes_for_display(1).is_empty());
    assert_eq!(names(&state.get_nodes_for_display(2)), vec!["x", "a", "y"]);
}

#[test]
fn set_empty_display_unpins_to_main() {
    let mut state = BarState::default();
    state.add_node(node("a", NodeType::Item, None, 0, 3)).unwrap();
    let moved = state.set_properties("a", &bag(&[("display", "")]), 1).unwrap();
    assert_eq!(moved.display, 1);
    assert!(!moved.display_explicit);
    assert_eq!(names(&state.get_nodes_for_display(1)), vec!["a"]);
}

#[test]
fn set_position_resorts_collection() {
    let mut state = BarState::default();
    state.add_node(node("a", NodeType::Item, None, 1, 1)).unwrap();
    state.add_node(node("b", NodeType::Item, None, 2, 1)).unwrap();
    state.add_node(node("c", NodeType::Item, None, 3, 1)).unwrap();
    state.set_properties("a", &bag(&[("position", "3")]), 1).unwrap();
    assert_eq!(names(&state.get_nodes_for_display(1)), vec!["b", "a", "c"]);
    state.set_properties("c", &bag(&[("position", "0")]), 1).unwrap();
    assert_eq!(names(&state.get_nodes_for_display(1)), vec!["c", "b", "a"]);
}

#[test]
fn display_removal_migrates_unpinned_nodes() {
    let mut known = vec![display(1, true), display(2, false)];
    let mut state = BarState::default();
    let mut pinned = node("pinned", NodeType::Row, None, 0, 2);
    pinned.display_explicit = true;
    state.add_node(pinned).unwrap();
    state.add_node(node("under", NodeType::Item, Some("pinned"), 1, 2)).unwrap();
    state.add_node(node("free", NodeType::Item, None, 2, 2)).unwrap();
    state.add_node(node("home", NodeType::Item, None, 5, 1)).unwrap();
    let events = set_displays(&mut known, &mut state, vec![display(1, true)]);
    assert_eq!(known.len(), 1);
    assert_eq!(events.len(), 1);
    match &events[0] {
        StateChangeEvent::NodeMoved { old_display, new_display, node } => {
            assert_eq!((*old_display, *new_display), (2, 1));
            assert_eq!(node.name, "free");
            assert_eq!(node.display, 1);
        }
        _ => panic!("expected a move"),
    }
    assert_eq!(names(&state.get_nodes_for_display(1)), vec!["free", "home"]);
    assert_eq!(names(&state.get_nodes_for_display(2)), vec!["pinned", "under"]);
}

#[test]
fn migration_drops_emptied_collection() {
    let mut state = BarState::default();
    state.add_node(node("a", NodeType::Item, None, 0, 2)).unwrap();
    state.add_node(node("b", NodeType::Item, None, 0, 1)).unwrap();
    let moved = state.migrate_nodes(2, 1);
    assert_eq!(names(&moved), vec!["a"]);
    let all = state.get_nodes();
    assert_eq!(names(&all), vec!["b", "a"]);
    assert!(all.iter().all(|n| n.display == 1));
    assert!(state.migrate_nodes(7, 1).is_empty());
}

#[test]
fn no_migration_without_main_display() {
    let mut known = vec![display(1, false), display(2, false)];
    let mut state = BarState::default();
    state.add_node(node("a", NodeType::Item, None, 0, 2)).unwrap();
    let events = set_displays(&mut known, &mut state, vec![display(1, false)]);
    assert!(events.is_empty());
    assert_eq!(names(&state.get_nodes_for_display(2)), vec!["a"]);
}

#[test]
fn end_to_end_container_and_item() {
    let displays = vec![display(1, true)];
    let mut state = BarState::default();
    let mut bar = add_request("bar");
    bar.node_type = Some("row".to_string());
    bar.display = Some(1);
    let (resp, ev) = handle_command(&mut state, &displays, Ok(Command::Add(bar)));
    assert!(matches!(resp, Response::Success));
    assert!(matches!(ev, Some(StateChangeEvent::NodeAdded { display: 1, .. })));
    let mut clock = add_request("clock");
    clock.parent = Some("bar".to_string());
    let (resp, _) = handle_command(&mut state, &displays, Ok(Command::Add(clock)));
    assert!(matches!(resp, Response::Success));
    match handle_command(&mut state, &displays, Ok(Command::Query { name: None, display: Some(1) })).0 {
        Response::QueryResult { nodes } => {
            assert_eq!(nodes.len(), 2);
            assert_eq!(nodes[0].name, "bar");
            assert_eq!(nodes[0].node_type, "row");
            assert_eq!(nodes[1].name, "clock");
            assert_eq!(nodes[1].parent.as_deref(), Some("bar"));
        }
        _ => panic!("expected a query result"),
    }
    let (resp, ev) = handle_command(&mut state, &displays, Ok(Command::Remove { name: "bar".to_string() }));
    assert!(matches!(resp, Response::Success));
    assert!(matches!(ev, Some(StateChangeEvent::NodeRemoved { display: 1, .. })));
    assert!(query_names(&mut state, &displays, None, Some(1)).is_empty());
}

#[test]
fn end_to_end_position_order() {
    let displays = vec![display(1, true)];
    let mut state = BarState::default();
    let mut a = add_request("a");
    a.position = Some(5);
    let mut b = add_request("b");
    b.position = Some(1);
    handle_command(&mut state, &displays, Ok(Command::Add(a)));
    handle_command(&mut state, &displays, Ok(Command::Add(b)));
    assert_eq!(query_names(&mut state, &displays, None, None), vec!["b", "a"]);
    assert_eq!(query_names(&mut state, &displays, Some("a"), None), vec!["a"]);
}

#[test]
fn bad_request_line_then_valid_line() {
    let displays = vec![display(1, true)];
    let mut state = BarState::default();
    let (resp, ev) = handle_command(&mut state, &displays, Err("expected value".to_string()));
    match resp {
        Response::Error { message } => assert_eq!(message, "invalid command: expected value"),
        _ => panic!("expected an error"),
    }
    assert!(ev.is_none());
    assert!(state.get_nodes().is_empty());
    let (resp, _) = handle_command(&mut state, &displays, Ok(Command::Add(add_request("ok"))));
    assert!(matches!(resp, Response::Success));
}

#[test]
fn add_shorthands_fill_unset_edges() {
    let displays = vec![display(4, true)];
    let mut state = BarState::default();
    let mut c = add_request("n");
    c.padding = metric("8");
    c.padding_horizontal = metric("2");
    c.padding_top = metric("1");
    handle_command(&mut state, &displays, Ok(Command::Add(c)));
    let n = &state.get_nodes()[0];
    assert_eq!(n.display, 4);
    assert!(!n.display_explicit);
    assert_eq!(n.style.padding_left, Some(2.0f32.to_bits()));
    assert_eq!(n.style.padding_right, Some(2.0f32.to_bits()));
    assert_eq!(n.style.padding_top, Some(1.0f32.to_bits()));
    assert_eq!(n.style.padding_bottom, Some(8.0f32.to_bits()));
}

#[test]
fn set_request_reports_move_or_update() {
    let displays = vec![display(1, true), display(2, false)];
    let mut state = BarState::default();
    handle_command(&mut state, &displays, Ok(Command::Add(add_request("n"))));
    let (_, ev) = handle_command(
        &mut state,
        &displays,
        Ok(Command::SetProperties { name: "n".to_string(), properties: bag(&[("label", "x")]) }),
    );
    assert!(matches!(ev, Some(StateChangeEvent::NodeUpdated { display: 1, .. })));
    let (_, ev) = handle_command(
        &mut state,
        &displays,
        Ok(Command::SetProperties { name: "n".to_string(), properties: bag(&[("display", "2")]) }),
    );
    assert!(matches!(ev, Some(StateChangeEvent::NodeMoved { old_display: 1, new_display: 2, .. })));
    let (resp, ev) = handle_command(
        &mut state,
        &displays,
        Ok(Command::SetProperties { name: "zz".to_string(), properties: bag(&[]) }),
    );
    assert!(ev.is_none());
    assert!(matches!(resp, Response::Error { ref message } if message == "node 'zz' not found"));
}

#[test]
fn displays_request_lists_known_displays() {
    let displays = vec![display(3, false), display(1, true)];
    let mut state = BarState::default();
    match handle_command(&mut state, &displays, Ok(Command::Displays)).0 {
        Response::DisplayList { displays } => {
            assert_eq!(displays.len(), 2);
            assert_eq!(displays[1].id, 1);
            assert!(displays[1].is_main);
            assert_eq!(displays[0].name, "screen 3");
        }
        _ => panic!("expected a display list"),
    }
    assert_eq!(main_display_id(&displays), 1);
    assert_eq!(main_display_id(&vec![display(3, false)]), 0);
}

#[test]
fn integer_parsing() {
    assert_eq!(parse_u32("42"), Some(42));
    assert_eq!(parse_u32("+7"), Some(7));
    assert_eq!(parse_u32("4294967295"), Some(u32::MAX));
    assert_eq!(parse_u32("4294967296"), None);
    assert_eq!(parse_u32("-1"), None);
    assert_eq!(parse_u32(""), None);
    assert_eq!(parse_u32("+"), None);
    assert_eq!(parse_i32("-2147483648"), Some(i32::MIN));
    assert_eq!(parse_i32("2147483647"), Some(i32::MAX));
    assert_eq!(parse_i32("2147483648"), None);
    assert_eq!(parse_i32("-0"), Some(0));
    assert_eq!(parse_i32(" 1"), None);
    assert!(text_eq("abc", "abc"));
    assert!(!text_eq("abc", "abd"));
}

struct Recorder {
    seen: RefCell<Vec<String>>,
}

impl StateChangeHandler for Recorder {
    fn on_state_change(&self, event: StateChangeEvent) -> Result<(), RanmaError> {
        if let StateChangeEvent::NodeRemoved { name, .. } = event {
            self.seen.borrow_mut().push(name);
        }
        Err(RanmaError::General { message: "ignored".to_string() })
    }
}

#[test]
fn notify_delivers_and_ignores_failure() {
    let rec = Recorder { seen: RefCell::new(Vec::new()) };
    notify(Some(&rec), StateChangeEvent::NodeRemoved { display: 1, name: "x".to_string() });
    notify::<Recorder>(None, StateChangeEvent::NodeRemoved { display: 1, name: "y".to_string() });
    assert_eq!(*rec.seen.borrow(), vec!["x".to_string()]);
}

#[test]
fn query_reports_image_attributes() {
    let displays = vec![display(1, true)];
    let mut state = BarState::default();
    handle_command(&mut state, &displays, Ok(Command::Add(add_request("pic"))));
    handle_command(
        &mut state,
        &displays,
        Ok(Command::SetProperties {
            name: "pic".to_string(),
            properties: bag(&[("image", "logo.png"), ("image_scale", "0.5")]),
        }),
    );
    match handle_command(&mut state, &displays, Ok(Command::Query { name: Some("pic".to_string()), display: None })).0 {
        Response::QueryResult { nodes } => {
            assert_eq!(nodes.len(), 1);
            assert_eq!(nodes[0].image.as_deref(), Some("logo.png"));
            assert_eq!(nodes[0].image_scale, Some(0.5f32.to_bits()));
            assert!(!nodes[0].display_explicit);
        }
        _ => panic!("expected a query result"),
    }
}

#[test]
fn duplicate_name_is_refused_before_parent_checks() {
    let mut state = BarState::default();
    state.add_node(node("a", NodeType::Item, None, 0, 1)).unwrap();
    let err = state.add_node(node("a", NodeType::Item, Some("zzz"), 0, 2)).unwrap_err();
    assert!(matches!(err, StoreError::AlreadyExists { .. }));
    let err = state.add_node(node("a", NodeType::Item, Some("a"), 0, 1)).unwrap_err();
    assert_eq!(err.message(), "node 'a' already exists");
    assert_eq!(state.get_nodes().len(), 1);

    let displays = vec![display(1, true)];
    let mut c = add_request("a");
    c.parent = Some("zzz".to_string());
    let (resp, ev) = handle_command(&mut state, &displays, Ok(Command::Add(c)));
    assert!(ev.is_none());
    assert!(matches!(resp, Response::Error { ref message } if message == "node 'a' already exists"));
    assert_eq!(state.get_nodes().len(), 1);
}
