use azul::dom::{Callback, Dom, EventFilter, FilterClass, HoverGroup, NodeData, TabIndex};
use azul::ui_state::{RuntimeError, TagAllocator, UiState};

fn filter(class: FilterClass, event: u32) -> EventFilter {
    EventFilter { class, event }
}

fn plain(ty: &str) -> NodeData {
    NodeData::new(ty.to_string())
}

/// root div; 1: clickable button; 2: negated-only span; 3: draggable div; 4: focusable input;
/// 5: plain p; 6: window-callback div
fn sample_dom() -> Dom {
    let mut dom = Dom::new("div".to_string());
    let mut button = plain("button");
    button.callbacks.push((filter(FilterClass::Regular, 1), Callback::Inline(10)));
    button.callbacks.push((filter(FilterClass::Regular, 2), Callback::Default(20)));
    dom.add_child(0, button);
    let mut span = plain("span");
    span.callbacks.push((filter(FilterClass::Not, 3), Callback::Inline(30)));
    span.callbacks.push((filter(FilterClass::Not, 4), Callback::Default(40)));
    dom.add_child(0, span);
    let mut drag = plain("div");
    drag.draggable = true;
    dom.add_child(0, drag);
    let mut input = plain("input");
    input.tab_index = Some(TabIndex::OverrideInParent(2));
    dom.add_child(0, input);
    dom.add_child(0, plain("p"));
    let mut win = plain("div");
    win.callbacks.push((filter(FilterClass::Window, 5), Callback::Inline(50)));
    win.callbacks.push((filter(FilterClass::Desktop, 6), Callback::Default(60)));
    dom.add_child(0, win);
    dom
}

fn assert_bijective(s: &UiState) {
    assert_eq!(s.tag_ids_to_node_ids.len(), s.node_ids_to_tag_ids.len());
    for (t, n) in &s.tag_ids_to_node_ids {
        assert_eq!(s.node_ids_to_tag_ids.get(n), Some(t));
    }
    for (n, t) in &s.node_ids_to_tag_ids {
        assert_eq!(s.tag_ids_to_node_ids.get(t), Some(n));
    }
}

#[test]
fn registry_tags_hit_testable_nodes_in_order() {
    let mut alloc = TagAllocator::new();
    let s = UiState::from_dom(sample_dom(), &mut alloc);
    assert_bijective(&s);
    let tagged: Vec<(usize, u64)> = s.node_ids_to_tag_ids.iter().map(|(n, t)| (*n, *t)).collect();
    assert_eq!(tagged, vec![(1, 1), (3, 2), (4, 3)]);
    assert_eq!(alloc.new_tag_id(), 4);
    assert_eq!(s.tag_ids_to_callbacks.get(&1).unwrap().get(&1), Some(&10));
    assert_eq!(s.tag_ids_to_callbacks.len(), 1);
    assert_eq!(s.tag_ids_to_default_callbacks.get(&1).unwrap().get(&2), Some(&20));
    assert_eq!(s.tag_ids_to_default_callbacks.len(), 1);
    assert_eq!(s.draggable_tags.get(&2), Some(&3));
    assert_eq!(s.draggable_tags.len(), 1);
    assert_eq!(s.tab_index_tags.get(&3), Some(&(4, TabIndex::OverrideInParent(2))));
    assert_eq!(s.tab_index_tags.len(), 1);
    assert!(s.tag_ids_to_hover_active_states.is_empty());
    assert_eq!(s.window_callbacks.get(&6).unwrap().get(&5), Some(&50));
    assert_eq!(s.desktop_default_callbacks.get(&6).unwrap().get(&6), Some(&60));
    assert!(s.window_default_callbacks.is_empty());
    assert!(s.desktop_callbacks.is_empty());
    assert_eq!(s.dom.arena.len(), 7);
}

#[test]
fn negated_filters_never_allocate_tags() {
    let mut alloc = TagAllocator::new();
    let s = UiState::from_dom(sample_dom(), &mut alloc);
    assert!(!s.node_ids_to_tag_ids.contains_key(&2));
    assert!(s.tag_ids_to_node_ids.values().all(|n| *n != 2));
    assert_eq!(s.not_callbacks.get(&2).unwrap().get(&3), Some(&30));
    assert_eq!(s.not_default_callbacks.get(&2).unwrap().get(&4), Some(&40));
    assert_eq!(s.not_callbacks.len(), 1);
}

#[test]
fn later_callback_for_same_event_replaces_earlier() {
    let mut dom = Dom::new("div".to_string());
    let mut n = plain("button");
    n.callbacks.push((filter(FilterClass::Regular, 1), Callback::Inline(10)));
    n.callbacks.push((filter(FilterClass::Regular, 1), Callback::Inline(11)));
    dom.add_child(0, n);
    let mut alloc = TagAllocator::new();
    let s = UiState::from_dom(dom, &mut alloc);
    let tag = *s.node_ids_to_tag_ids.get(&1).unwrap();
    assert_eq!(s.tag_ids_to_callbacks.get(&tag).unwrap().len(), 1);
    assert_eq!(s.tag_ids_to_callbacks.get(&tag).unwrap().get(&1), Some(&11));
}

#[test]
fn hover_reuses_existing_tag() {
    let mut alloc = TagAllocator::new();
    let mut s = UiState::from_dom(sample_dom(), &mut alloc);
    let drag_tag = *s.node_ids_to_tag_ids.get(&3).unwrap();
    let group = HoverGroup { affects_layout: false, active: false };
    s.create_tags_for_hover_nodes(&vec![(3, group)], &mut alloc);
    assert_eq!(*s.node_ids_to_tag_ids.get(&3).unwrap(), drag_tag);
    assert_eq!(s.tag_ids_to_hover_active_states.get(&drag_tag), Some(&(3, group)));
    assert_eq!(s.node_ids_to_tag_ids.len(), 3);
    assert_eq!(alloc.new_tag_id(), 4);
    assert_bijective(&s);
}

#[test]
fn hover_allocates_fresh_tag_for_untagged_node() {
    let mut alloc = TagAllocator::new();
    let mut s = UiState::from_dom(sample_dom(), &mut alloc);
    let g1 = HoverGroup { affects_layout: true, active: false };
    let g2 = HoverGroup { affects_layout: false, active: true };
    s.create_tags_for_hover_nodes(&vec![(5, g1), (5, g2)], &mut alloc);
    assert_eq!(s.node_ids_to_tag_ids.get(&5), Some(&4));
    assert_eq!(s.tag_ids_to_node_ids.get(&4), Some(&5));
    assert_eq!(s.tag_ids_to_hover_active_states.get(&4), Some(&(5, g2)));
    assert_eq!(s.tag_ids_to_hover_active_states.len(), 1);
    assert_eq!(alloc.new_tag_id(), 5);
    assert_bijective(&s);
}

#[test]
fn missing_window_is_an_error() {
    let mut alloc = TagAllocator::new();
    let r = UiState::from_app_state(None, &mut alloc);
    assert!(matches!(r, Err(RuntimeError::WindowIndexError)));
    assert_eq!(alloc.new_tag_id(), 1);
    let ok = UiState::from_app_state(Some(sample_dom()), &mut alloc);
    assert!(ok.is_ok());
    assert_eq!(ok.ok().unwrap().node_ids_to_tag_ids.get(&1), Some(&2));
}
