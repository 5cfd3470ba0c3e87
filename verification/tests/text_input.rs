//! The text-input widget end to end: composition, focus, typing, and the
//! per-tick reconciliation of the label.

use widget_core::container::WidgetState;
use widget_core::event::Key;
use widget_core::property::AccessError;
use widget_core::property::PropertyKind;
use widget_core::property::PropertyValue;
use widget_core::runtime::KeyInput;
use widget_core::runtime::WidgetTree;
use widget_core::shared_property::PropertyArena;
use widget_core::template::ParentType;
use widget_core::widget::Widget;
use widget_core::widget::stack::Stack;
use widget_core::widget::text_box::TextBox;

fn label_of(tree: &WidgetTree, arena: &PropertyArena, node: usize) -> Vec<char> {
    match tree.nodes[node].get_property(arena, PropertyKind::Label) {
        Ok(PropertyValue::Label(text)) => text,
        other => panic!("expected a label, got {:?}", other),
    }
}

#[test]
fn text_input_scenario() {
    let mut arena = PropertyArena::new();
    let template = TextBox::create(&mut arena);
    let mut tree = WidgetTree::instantiate(&template);

    // Key 'a' while unfocused: not consumed, label stays empty.
    let consumed = tree.dispatch_key(0, Key::Printable('a'));
    assert!(!consumed);
    tree.update(&mut arena);
    assert_eq!(label_of(&tree, &arena, 0), Vec::<char>::new());

    // Focus the widget; the state pulls the flag on the next update.
    assert!(tree.nodes[0].set_property(&mut arena, PropertyValue::Focused(true)).is_ok());
    tree.update(&mut arena);

    // Type 'a', 'b', 'c': each is consumed; after the next update the
    // label reads "abc".
    assert!(tree.dispatch_key(0, Key::Printable('a')));
    assert!(tree.dispatch_key(0, Key::Printable('b')));
    assert!(tree.dispatch_key(0, Key::Printable('c')));
    tree.update(&mut arena);
    assert_eq!(label_of(&tree, &arena, 0), vec!['a', 'b', 'c']);

    // Backspace removes the last character.
    assert!(tree.dispatch_key(0, Key::Backspace));
    tree.update(&mut arena);
    assert_eq!(label_of(&tree, &arena, 0), vec!['a', 'b']);
}

#[test]
fn text_input_scenario_through_tick() {
    let mut arena = PropertyArena::new();
    let template = TextBox::create(&mut arena);
    let mut tree = WidgetTree::instantiate(&template);

    assert!(tree.nodes[0].set_property(&mut arena, PropertyValue::Focused(true)).is_ok());
    tree.tick(&mut arena, &Vec::new());

    let events = vec![
        KeyInput { target: 0, key: Key::Printable('h') },
        KeyInput { target: 0, key: Key::Printable('i') },
    ];
    tree.tick(&mut arena, &events);
    assert_eq!(label_of(&tree, &arena, 0), vec!['h', 'i']);

    let events = vec![KeyInput { target: 0, key: Key::Backspace }];
    tree.tick(&mut arena, &events);
    assert_eq!(label_of(&tree, &arena, 0), vec!['h']);
}

#[test]
fn text_box_expands_to_its_composition_in_preorder() {
    let mut arena = PropertyArena::new();
    let template = TextBox::create(&mut arena);
    let tree = WidgetTree::instantiate(&template);

    let names: Vec<&str> = vec![
        "TextBox",
        "Container",
        "Stack",
        "ScrollViewer",
        "WaterMarkTextBlock",
        "Cursor",
    ];
    assert_eq!(tree.nodes.len(), names.len());
    for (i, name) in names.iter().enumerate() {
        assert_eq!(tree.nodes[i].debug_name.as_str(), *name);
    }
    let counts: Vec<usize> = vec![1, 1, 2, 1, 0, 0];
    for (i, count) in counts.iter().enumerate() {
        assert_eq!(tree.nodes[i].child_count, *count);
    }
    // The root carries the state and the key callback chain.
    assert!(matches!(tree.nodes[0].state, Some(WidgetState::TextBox(_))));
    assert_eq!(tree.nodes[0].key_actions.len(), 1);
    // Three shared cells were allocated: label, watermark, selector.
    assert_eq!(arena.cells.len(), 3);
}

#[test]
fn descendants_share_the_label_cell() {
    let mut arena = PropertyArena::new();
    let template = TextBox::create(&mut arena);
    let mut tree = WidgetTree::instantiate(&template);

    assert!(tree.nodes[0].set_property(&mut arena, PropertyValue::Focused(true)).is_ok());
    tree.update(&mut arena);
    assert!(tree.dispatch_key(0, Key::Printable('x')));
    tree.update(&mut arena);

    // The watermark text block (node 4) resolves the same label cell the
    // root's state wrote into.
    assert_eq!(label_of(&tree, &arena, 4), vec!['x']);
    // The selector threads into the nested container as well.
    match tree.nodes[1].get_property(&arena, PropertyKind::Selector) {
        Ok(PropertyValue::Selector(sel)) => {
            assert_eq!(sel, vec!['t', 'e', 'x', 't', 'b', 'o', 'x'])
        },
        other => panic!("expected the selector, got {:?}", other),
    }
    // The stack (node 2) declares no label of its own and shares none.
    assert_eq!(
        tree.nodes[2].get_property(&arena, PropertyKind::Label),
        Err(AccessError::PropertyNotFound)
    );
}

#[test]
fn two_text_boxes_under_a_stack_keep_separate_labels() {
    let mut arena = PropertyArena::new();
    let first = TextBox::create(&mut arena);
    let second = TextBox::create(&mut arena);
    let template = Stack::create(&mut arena).with_child(first).with_child(second);
    assert_eq!(template.parent_type, ParentType::Multi);
    let mut tree = WidgetTree::instantiate(&template);

    // Stack root at 0; each text box expands to six nodes.
    assert_eq!(tree.nodes.len(), 13);
    let first_root = 1;
    let second_root = 7;

    assert!(tree.nodes[first_root].set_property(&mut arena, PropertyValue::Focused(true)).is_ok());
    tree.update(&mut arena);
    assert!(tree.dispatch_key(first_root, Key::Printable('a')));
    tree.update(&mut arena);

    // Only the focused box's cells changed: each widget allocated its own.
    assert_eq!(label_of(&tree, &arena, first_root), vec!['a']);
    assert_eq!(label_of(&tree, &arena, second_root), Vec::<char>::new());
}

#[test]
fn event_with_out_of_range_target_is_dropped() {
    let mut arena = PropertyArena::new();
    let template = TextBox::create(&mut arena);
    let mut tree = WidgetTree::instantiate(&template);
    assert!(tree.nodes[0].set_property(&mut arena, PropertyValue::Focused(true)).is_ok());
    tree.tick(&mut arena, &Vec::new());

    let events = vec![KeyInput { target: 99, key: Key::Printable('a') }];
    tree.tick(&mut arena, &events);
    assert_eq!(label_of(&tree, &arena, 0), Vec::<char>::new());
}

#[test]
fn unknown_key_is_consumed_while_focused_but_edits_nothing() {
    let mut arena = PropertyArena::new();
    let template = TextBox::create(&mut arena);
    let mut tree = WidgetTree::instantiate(&template);

    assert!(tree.nodes[0].set_property(&mut arena, PropertyValue::Focused(true)).is_ok());
    tree.update(&mut arena);

    let consumed = tree.dispatch_key(0, Key::Other);
    assert!(consumed);
    tree.update(&mut arena);
    assert_eq!(label_of(&tree, &arena, 0), Vec::<char>::new());
}

#[test]
fn backspace_on_empty_label_leaves_it_empty() {
    let mut arena = PropertyArena::new();
    let template = TextBox::create(&mut arena);
    let mut tree = WidgetTree::instantiate(&template);

    assert!(tree.nodes[0].set_property(&mut arena, PropertyValue::Focused(true)).is_ok());
    tree.update(&mut arena);
    assert!(tree.dispatch_key(0, Key::Backspace));
    tree.update(&mut arena);
    assert_eq!(label_of(&tree, &arena, 0), Vec::<char>::new());
}
