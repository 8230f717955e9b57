use naaw::dispatch::{dispatch, Command, TAGGED_BORDER_WIDTH};
use naaw::event::Event;
use naaw::node::{Node, TagStatus};
use naaw::state::State;

fn node(id: &str) -> Node {
    Node(id.to_string())
}

fn ids(nodes: &[Node]) -> Vec<String> {
    let mut v: Vec<String> = nodes.iter().map(|n| n.0.clone()).collect();
    v.sort();
    v
}

fn sorted_ids(state: &State) -> (Vec<String>, Vec<String>) {
    (ids(&state.tagged_nodes()), ids(&state.untagged_nodes()))
}

fn assert_disjoint(state: &State) {
    let (tagged, untagged) = sorted_ids(state);
    for t in &tagged {
        assert!(!untagged.contains(t), "{} is in both sets", t);
    }
}

#[test]
fn new_state_is_empty_and_shown() {
    let state = State::new();
    assert!(state.is_tag_shown());
    assert!(state.tagged_nodes().is_empty());
    assert!(state.untagged_nodes().is_empty());
    assert_eq!(state.tag_status(&node("0x1")), None);
}

#[test]
fn add_then_tag_sets_border() {
    let mut state = State::new();
    let c1 = dispatch(&mut state, Event::AddNode(node("0x1")));
    assert!(c1.is_empty());
    let c2 = dispatch(&mut state, Event::ToggleTag(node("0x1")));
    assert_eq!(sorted_ids(&state), (vec!["0x1".to_string()], vec![]));
    assert_eq!(c2.len(), 1);
    match &c2[0] {
        Command::SetBorderWidth(n, w) => {
            assert_eq!(n.0, "0x1");
            assert_eq!(*w, TAGGED_BORDER_WIDTH);
            assert_eq!(*w, 3);
        }
        other => panic!("unexpected command {:?}", other),
    }
}

#[test]
fn tag_again_resets_border() {
    let mut state = State::new();
    dispatch(&mut state, Event::AddNode(node("0x1")));
    dispatch(&mut state, Event::ToggleTag(node("0x1")));
    let c = dispatch(&mut state, Event::ToggleTag(node("0x1")));
    assert_eq!(sorted_ids(&state), (vec![], vec!["0x1".to_string()]));
    assert_eq!(c.len(), 1);
    match &c[0] {
        Command::ResetBorderWidth(n) => assert_eq!(n.0, "0x1"),
        other => panic!("unexpected command {:?}", other),
    }
}

#[test]
fn visibility_toggle_hides_tagged_once() {
    let mut state = State::new();
    dispatch(&mut state, Event::AddNode(node("0x1")));
    dispatch(&mut state, Event::ToggleTag(node("0x1")));
    let c = dispatch(&mut state, Event::ToggleTagVisibility);
    assert!(!state.is_tag_shown());
    assert_eq!(c.len(), 1);
    match &c[0] {
        Command::ToggleVisibility(n) => assert_eq!(n.0, "0x1"),
        other => panic!("unexpected command {:?}", other),
    }
}

#[test]
fn remove_absent_node_changes_nothing() {
    let mut state = State::new();
    dispatch(&mut state, Event::AddNode(node("0x2")));
    dispatch(&mut state, Event::ToggleTag(node("0x3")));
    let before = sorted_ids(&state);
    let c = dispatch(&mut state, Event::RemoveNode(node("0x1")));
    assert!(c.is_empty());
    assert_eq!(sorted_ids(&state), before);
    assert!(state.is_tag_shown());
}

#[test]
fn sets_stay_disjoint_over_mixed_events() {
    let mut state = State::new();
    let events = vec![
        Event::AddNode(node("a")),
        Event::ToggleTag(node("a")),
        Event::AddNode(node("a")),
        Event::ToggleTag(node("b")),
        Event::AddNode(node("b")),
        Event::ToggleTag(node("a")),
        Event::ToggleTagVisibility,
        Event::ToggleTag(node("a")),
        Event::RemoveNode(node("b")),
        Event::AddNode(node("c")),
    ];
    for e in events {
        dispatch(&mut state, e);
        assert_disjoint(&state);
    }
    assert_eq!(
        sorted_ids(&state),
        (vec!["a".to_string()], vec!["c".to_string()])
    );
}

#[test]
fn add_of_tagged_node_keeps_it_tagged() {
    let mut state = State::new();
    state.add_node(node("a"));
    assert_eq!(state.toggle_tag(node("a")), TagStatus::Tagged);
    state.add_node(node("a"));
    assert_eq!(state.tag_status(&node("a")), Some(TagStatus::Tagged));
    assert_eq!(sorted_ids(&state), (vec!["a".to_string()], vec![]));
}

#[test]
fn add_twice_is_idempotent() {
    let mut state = State::new();
    state.add_node(node("a"));
    state.add_node(node("a"));
    assert_eq!(sorted_ids(&state), (vec![], vec!["a".to_string()]));
}

#[test]
fn remove_twice_equals_once() {
    let mut once = State::new();
    let mut twice = State::new();
    for s in [&mut once, &mut twice] {
        s.add_node(node("a"));
        s.add_node(node("b"));
        s.toggle_tag(node("a"));
    }
    once.remove_node(&node("a"));
    twice.remove_node(&node("a"));
    twice.remove_node(&node("a"));
    assert_eq!(sorted_ids(&once), sorted_ids(&twice));
    assert_eq!(sorted_ids(&once), (vec![], vec!["b".to_string()]));
    assert_eq!(once.is_tag_shown(), twice.is_tag_shown());
}

#[test]
fn toggle_twice_restores_membership() {
    let mut state = State::new();
    state.add_node(node("a"));
    state.add_node(node("b"));
    state.toggle_tag(node("b"));
    let before = sorted_ids(&state);
    assert_eq!(state.toggle_tag(node("a")), TagStatus::Tagged);
    assert_eq!(state.toggle_tag(node("a")), TagStatus::Untagged);
    assert_eq!(sorted_ids(&state), before);
    assert_eq!(state.toggle_tag(node("b")), TagStatus::Untagged);
    assert_eq!(state.toggle_tag(node("b")), TagStatus::Tagged);
    assert_eq!(sorted_ids(&state), before);
}

#[test]
fn toggle_twice_while_hidden_hides_only_on_entry() {
    let mut state = State::new();
    dispatch(&mut state, Event::AddNode(node("a")));
    dispatch(&mut state, Event::ToggleTagVisibility);
    let into = dispatch(&mut state, Event::ToggleTag(node("a")));
    let out = dispatch(&mut state, Event::ToggleTag(node("a")));
    assert_eq!(into.len(), 2);
    assert!(matches!(&into[0], Command::SetBorderWidth(n, 3) if n.0 == "a"));
    assert!(matches!(&into[1], Command::ToggleVisibility(n) if n.0 == "a"));
    assert_eq!(out.len(), 1);
    assert!(matches!(&out[0], Command::ResetBorderWidth(n) if n.0 == "a"));
    assert_eq!(sorted_ids(&state), (vec![], vec!["a".to_string()]));
}

#[test]
fn toggle_untracked_node_tags_it() {
    let mut state = State::new();
    state.add_node(node("b"));
    let c = dispatch(&mut state, Event::ToggleTag(node("x")));
    assert_eq!(state.tag_status(&node("x")), Some(TagStatus::Tagged));
    assert_eq!(
        sorted_ids(&state),
        (vec!["x".to_string()], vec!["b".to_string()])
    );
    assert_eq!(c.len(), 1);
    assert!(matches!(&c[0], Command::SetBorderWidth(n, 3) if n.0 == "x"));
}

#[test]
fn visibility_toggle_with_no_tagged_nodes() {
    let mut state = State::new();
    state.add_node(node("a"));
    let c = dispatch(&mut state, Event::ToggleTagVisibility);
    assert!(c.is_empty());
    assert!(!state.is_tag_shown());
    let c = dispatch(&mut state, Event::ToggleTagVisibility);
    assert!(c.is_empty());
    assert!(state.is_tag_shown());
    assert_eq!(sorted_ids(&state), (vec![], vec!["a".to_string()]));
}

#[test]
fn visibility_toggle_covers_every_tagged_node_once() {
    let mut state = State::new();
    for id in ["a", "b", "c", "d"] {
        state.add_node(node(id));
    }
    for id in ["a", "c", "d"] {
        state.toggle_tag(node(id));
    }
    let returned = state.toggle_tag_visibility();
    assert!(!state.is_tag_shown());
    assert_eq!(
        ids(&returned),
        vec!["a".to_string(), "c".to_string(), "d".to_string()]
    );
    let c = dispatch(&mut state, Event::ToggleTagVisibility);
    assert!(state.is_tag_shown());
    let mut toggled: Vec<String> = c
        .iter()
        .map(|cmd| match cmd {
            Command::ToggleVisibility(n) => n.0.clone(),
            other => panic!("unexpected command {:?}", other),
        })
        .collect();
    toggled.sort();
    assert_eq!(toggled, vec!["a".to_string(), "c".to_string(), "d".to_string()]);
}

#[test]
fn node_helpers_compare_and_copy() {
    let a = node("0x1");
    assert!(a.same_as(&node("0x1")));
    assert!(!a.same_as(&node("0x2")));
    assert_eq!(a.duplicate(), a);
}
