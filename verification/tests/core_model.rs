//! The core model piece by piece: shared-property aliasing, the
//! directional state-update protocol, event consumption, builder
//! behaviour and arity.

use widget_core::container::WidgetContainer;
use widget_core::container::WidgetState;
use widget_core::event::Key;
use widget_core::event::KeyAction;
use widget_core::event::KeyEventHandler;
use widget_core::property::AccessError;
use widget_core::property::PropertyBag;
use widget_core::property::PropertyKind;
use widget_core::property::PropertyValue;
use widget_core::shared_property::PropertyArena;
use widget_core::template::LayoutObject;
use widget_core::template::ParentType;
use widget_core::template::Template;
use widget_core::widget::Widget;
use widget_core::widget::stack::Stack;
use widget_core::widget::text_box::TextBoxState;

/// A bare container holding one local label and the given text-box state.
fn labelled_container(label: Vec<char>, state: TextBoxState) -> WidgetContainer {
    let mut properties = PropertyBag::new();
    properties.set(PropertyValue::Label(label));
    WidgetContainer {
        properties,
        shared: Vec::new(),
        state: Some(WidgetState::TextBox(state)),
        key_actions: vec![KeyAction::EditText],
        child_count: 0,
        debug_name: String::new(),
    }
}

fn state_of(c: &WidgetContainer) -> &TextBoxState {
    match &c.state {
        Some(WidgetState::TextBox(s)) => s,
        None => panic!("expected a state"),
    }
}

#[test]
fn shared_property_aliasing() {
    let mut arena = PropertyArena::new();
    let owner = arena.create_shared(PropertyValue::Label(vec!['x']));
    // Any number of holders: copies of the handle alias the same cell.
    let holder_b = owner;
    let holder_c = owner;

    arena.write(owner, PropertyValue::Label(vec!['y']));
    assert_eq!(arena.read(holder_b), PropertyValue::Label(vec!['y']));
    assert_eq!(arena.read(holder_c), PropertyValue::Label(vec!['y']));

    // Writes through a later holder flow back just the same.
    arena.write(holder_c, PropertyValue::Label(vec!['z']));
    assert_eq!(arena.read(owner), PropertyValue::Label(vec!['z']));

    // A second cell is untouched by all of it.
    let other = arena.create_shared(PropertyValue::Focused(true));
    arena.write(owner, PropertyValue::Label(vec!['w']));
    assert_eq!(arena.read(other), PropertyValue::Focused(true));
}

#[test]
fn update_on_steady_state_mutates_nothing() {
    let mut arena = PropertyArena::new();
    let state = TextBoxState { text: vec!['h', 'i'], focused: false, updated: false };
    let mut c = labelled_container(vec!['h', 'i'], state);

    let mut taken = match c.state.take() {
        Some(WidgetState::TextBox(s)) => s,
        None => panic!(),
    };
    taken.update(&mut c, &mut arena);
    assert_eq!(
        c.properties.get(PropertyKind::Label),
        Ok(PropertyValue::Label(vec!['h', 'i']))
    );
    assert_eq!(taken.text, vec!['h', 'i']);
    assert!(!taken.updated);
}

#[test]
fn update_pushes_internal_value_outward() {
    let mut arena = PropertyArena::new();
    let state = TextBoxState { text: vec!['n', 'e', 'w'], focused: false, updated: true };
    let mut c = labelled_container(vec!['o', 'l', 'd'], state);

    let mut taken = match c.state.take() {
        Some(WidgetState::TextBox(s)) => s,
        None => panic!(),
    };
    taken.update(&mut c, &mut arena);
    // Internal changes win: the label now shows the buffer, the flag is
    // cleared, the buffer is untouched.
    assert_eq!(
        c.properties.get(PropertyKind::Label),
        Ok(PropertyValue::Label(vec!['n', 'e', 'w']))
    );
    assert_eq!(taken.text, vec!['n', 'e', 'w']);
    assert!(!taken.updated);
}

#[test]
fn update_pulls_external_value_inward() {
    let mut arena = PropertyArena::new();
    let state = TextBoxState { text: vec!['m', 'i', 'n', 'e'], focused: false, updated: false };
    let mut c = labelled_container(vec!['z'], state);

    let mut taken = match c.state.take() {
        Some(WidgetState::TextBox(s)) => s,
        None => panic!(),
    };
    taken.update(&mut c, &mut arena);
    // External changes win while no internal mutation is pending.
    assert_eq!(taken.text, vec!['z']);
    assert!(!taken.updated);
    assert_eq!(c.properties.get(PropertyKind::Label), Ok(PropertyValue::Label(vec!['z'])));
}

#[test]
fn consumed_event_stops_later_callbacks() {
    // Two callbacks over the same focused state: the first consumes the
    // key, so the second never observes it — one 'a', not two.
    let state = TextBoxState { text: Vec::new(), focused: true, updated: false };
    let mut c = labelled_container(Vec::new(), state);
    c.key_actions = vec![KeyAction::EditText, KeyAction::EditText];

    let consumed = c.dispatch_key_down(Key::Printable('a'));
    assert!(consumed);
    assert_eq!(state_of(&c).text, vec!['a']);
}

#[test]
fn unconsumed_event_reaches_every_callback() {
    // While unfocused no callback consumes, every one observes the event,
    // and none mutates anything.
    let state = TextBoxState { text: Vec::new(), focused: false, updated: false };
    let mut c = labelled_container(Vec::new(), state);
    c.key_actions = vec![KeyAction::EditText, KeyAction::EditText];

    let consumed = c.dispatch_key_down(Key::Printable('a'));
    assert!(!consumed);
    assert_eq!(state_of(&c).text, Vec::<char>::new());
    assert!(!state_of(&c).updated);
}

#[test]
fn single_arity_keeps_exactly_one_child() {
    let first = Template::default().with_debug_name("first");
    let second = Template::default().with_debug_name("second");
    let t = Template::default()
        .as_parent_type(ParentType::Single)
        .with_child(first)
        .with_child(second);
    // The second child is refused, never silently accepted: the single
    // slot still holds the first child.
    assert_eq!(t.children.len(), 1);
    assert_eq!(t.children[0].debug_name.as_str(), "first");
}

#[test]
fn multi_arity_appends_in_order() {
    let t = Template::default()
        .as_parent_type(ParentType::Multi)
        .with_child(Template::default().with_debug_name("first"))
        .with_child(Template::default().with_debug_name("second"));
    assert_eq!(t.children.len(), 2);
    assert_eq!(t.children[0].debug_name.as_str(), "first");
    assert_eq!(t.children[1].debug_name.as_str(), "second");
}

#[test]
fn later_property_of_same_kind_overwrites() {
    let t = Template::default()
        .with_property(PropertyValue::Focused(false))
        .with_property(PropertyValue::Focused(true));
    assert_eq!(t.properties.get(PropertyKind::Focused), Ok(PropertyValue::Focused(true)));
    assert_eq!(t.properties.entries.len(), 1);
}

#[test]
fn missing_property_is_property_not_found() {
    let arena = PropertyArena::new();
    let c = WidgetContainer {
        properties: PropertyBag::new(),
        shared: Vec::new(),
        state: None,
        key_actions: Vec::new(),
        child_count: 0,
        debug_name: String::new(),
    };
    assert_eq!(
        c.get_property(&arena, PropertyKind::Label),
        Err(AccessError::PropertyNotFound)
    );
    let mut c = c;
    let mut arena = arena;
    assert_eq!(
        c.set_property(&mut arena, PropertyValue::Focused(true)),
        Err(AccessError::PropertyNotFound)
    );
}

#[test]
fn stack_is_a_multi_arity_stretch_node() {
    let mut arena = PropertyArena::new();
    let t = Stack::create(&mut arena);
    assert_eq!(t.parent_type, ParentType::Multi);
    assert_eq!(t.layout_object, Some(LayoutObject::Stretch));
    assert_eq!(t.debug_name.as_str(), "Stack");
    assert!(t.state.is_none());
    assert_eq!(t.children.len(), 0);
    assert_eq!(arena.cells.len(), 0);
}

#[test]
fn builder_settings_land_in_the_template() {
    let state = TextBoxState::default().into_state();
    let handler = KeyEventHandler::default().on_key_down(KeyAction::EditText);
    let t = Template::default()
        .as_parent_type(ParentType::Multi)
        .with_layout_object(LayoutObject::Stretch)
        .with_state(state)
        .with_event_handler(handler)
        .with_debug_name("node");
    assert_eq!(t.parent_type, ParentType::Multi);
    assert_eq!(t.layout_object, Some(LayoutObject::Stretch));
    assert!(matches!(t.state, Some(WidgetState::TextBox(_))));
    assert_eq!(t.event_handlers.len(), 1);
    assert_eq!(t.event_handlers[0].actions, vec![KeyAction::EditText]);
    assert_eq!(t.debug_name.as_str(), "node");
}
