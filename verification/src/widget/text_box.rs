//! The text-input widget and its per-widget state.

use vstd::prelude::*;

use crate::container::ContainerView;
use crate::container::WidgetContainer;
use crate::container::cv_wf;
use crate::container::lemma_set_resolved_reads_back;
use crate::container::resolved_prop;
use crate::container::set_resolved;
use crate::container::WidgetState;
use crate::container::WidgetStateView;
use crate::container::opt_state_view;
use crate::event::Key;
use crate::event::KeyAction;
use crate::event::KeyEventHandler;
use crate::event::chain_of;
use crate::property::PropVal;
use crate::property::PropertyKind;
use crate::property::PropertyValue;
use crate::property::chars_eq;
use crate::property::chars_of_str;
use crate::property::copy_chars;
use crate::property::kind_of;
use crate::runtime::children_bags_wf;
use crate::runtime::children_wf;
use crate::runtime::node_view_of;
use crate::runtime::template_bags_wf;
use crate::runtime::template_wf;
use crate::shared_property::PropertyArena;
use crate::shared_property::same_kinds;
use crate::template::ParentType;
use crate::template::Template;
use crate::widget::Container;
use crate::widget::Cursor;
use crate::widget::ScrollViewer;
use crate::widget::WaterMarkTextBlock;
use crate::widget::Widget;
use crate::widget::stack::Stack;

verus! {

/// Mathematical value of a [`TextBoxState`].
#[verifier::ext_equal]
pub struct TextBoxStateView {
    pub text: Seq<char>,
    pub focused: bool,
    pub updated: bool,
}

/// The private state of a text box: the text buffer being edited, a mirror
/// of the `Focused` property, and the `updated` flag that records an
/// internal mutation since the last update tick.
#[derive(Debug, PartialEq)]
pub struct TextBoxState {
    pub text: Vec<char>,
    pub focused: bool,
    pub updated: bool,
}

impl View for TextBoxState {
    type V = TextBoxStateView;

    open spec fn view(&self) -> TextBoxStateView {
        TextBoxStateView { text: self.text@, focused: self.focused, updated: self.updated }
    }
}

impl Default for TextBoxState {
    /// Empty buffer, not focused, no pending internal mutation.
    fn default() -> (s: TextBoxState)
        ensures
            s@ == (TextBoxStateView { text: Seq::<char>::empty(), focused: false, updated: false }),
    {
        TextBoxState { text: Vec::new(), focused: false, updated: false }
    }
}

/// What one key does to the text buffer: append a printable character,
/// remove the last character on a backspace-class key, and nothing on any
/// other key.
pub open spec fn edited_text(text: Seq<char>, key: Key) -> Seq<char> {
    match key {
        Key::Printable(c) => text.push(c),
        Key::Backspace => if text.len() == 0 {
            text
        } else {
            text.drop_last()
        },
        Key::Other => text,
    }
}

/// The key-down callback of the text box, as a function of the state and
/// the key. While the state is not focused the event is left alone and not
/// consumed; while it is focused the buffer is edited, the internal
/// mutation is recorded, and the event is consumed.
pub open spec fn update_text_spec(st: TextBoxStateView, key: Key) -> (TextBoxStateView, bool) {
    if !st.focused {
        (st, false)
    } else {
        (
            TextBoxStateView { text: edited_text(st.text, key), focused: st.focused, updated: true },
            true,
        )
    }
}

impl TextBoxState {
    /// Feed one key to the buffer. Returns whether the event was consumed.
    /// While unfocused nothing is touched and the event is passed on.
    pub fn update_text(&mut self, key: Key) -> (consumed: bool)
        ensures
            final(self)@ == update_text_spec(old(self)@, key).0,
            consumed == update_text_spec(old(self)@, key).1,
    {
        if !self.focused {
            return false;
        }
        match key {
            Key::Printable(c) => {
                self.text.push(c);
            },
            Key::Backspace => {
                self.text.pop();
            },
            Key::Other => {},
        }
        self.updated = true;
        proof {
            if key is Backspace && old(self)@.text.len() > 0 {
                assert(old(self)@.text.subrange(0, old(self)@.text.len() - 1)
                    =~= old(self)@.text.drop_last());
            }
        }
        true
    }
}

/// The focus flag after the pull from the container: the `Focused`
/// property if the widget declares one, else the mirror kept so far.
pub open spec fn pulled_focus(c: ContainerView, a: Seq<PropVal>, dflt: bool) -> bool {
    match resolved_prop(c, a, PropertyKind::Focused) {
        Some(PropVal::Focused(b)) => b,
        _ => dflt,
    }
}

/// One update tick of a text box against its container, as a function of
/// the state, the container and the arena. First the focus mirror is
/// pulled. Then the label is reconciled by direction: if the external
/// label already equals the internal buffer nothing happens; else, if an
/// internal mutation is pending (`updated`), the buffer is pushed outward
/// and the flag cleared — internal changes win; else the external label is
/// pulled inward — external changes win.
pub open spec fn text_box_update_spec(
    st: TextBoxStateView,
    c: ContainerView,
    a: Seq<PropVal>,
) -> (TextBoxStateView, ContainerView, Seq<PropVal>) {
    let st1 = TextBoxStateView { focused: pulled_focus(c, a, st.focused), ..st };
    match resolved_prop(c, a, PropertyKind::Label) {
        Some(PropVal::Label(l)) => if l == st1.text {
            (st1, c, a)
        } else if st1.updated {
            let r = set_resolved(c, a, PropVal::Label(st1.text));
            (TextBoxStateView { updated: false, ..st1 }, r.0, r.1)
        } else {
            (TextBoxStateView { text: l, updated: false, ..st1 }, c, a)
        },
        _ => (st1, c, a),
    }
}

impl TextBoxState {
    /// One update tick: reconcile this state with the widget's externally
    /// visible properties, following `text_box_update_spec`.
    pub fn update(&mut self, widget: &mut WidgetContainer, arena: &mut PropertyArena)
        requires
            old(widget).wf(old(arena)@),
        ensures
            final(widget).wf(final(arena)@),
            same_kinds(old(arena)@, final(arena)@),
            (final(self)@, final(widget)@, final(arena)@) == text_box_update_spec(
                old(self)@,
                old(widget)@,
                old(arena)@,
            ),
    {
        match widget.get_property(arena, PropertyKind::Focused) {
            Ok(PropertyValue::Focused(b)) => {
                self.focused = b;
            },
            _ => {},
        }
        match widget.get_property(arena, PropertyKind::Label) {
            Ok(PropertyValue::Label(l)) => {
                if chars_eq(&l, &self.text) {
                    return;
                }
                if self.updated {
                    let r = widget.set_property(
                        arena,
                        PropertyValue::Label(copy_chars(&self.text)),
                    );
                    match r {
                        Ok(_) => {},
                        Err(_) => {
                            proof {
                                assert(false);
                            }
                        },
                    }
                } else {
                    self.text = l;
                }
                self.updated = false;
            },
            _ => {},
        }
    }

    /// A state with the same mathematical content.
    pub fn duplicate(&self) -> (r: TextBoxState)
        ensures
            r@ == self@,
    {
        TextBoxState { text: copy_chars(&self.text), focused: self.focused, updated: self.updated }
    }

    /// Wrap this state for a container or a `with_state` call.
    pub fn into_state(self) -> (r: WidgetState)
        ensures
            r == WidgetState::TextBox(self),
    {
        WidgetState::TextBox(self)
    }
}

/// A single-line text-input widget.
///
/// It declares a by-value `Focused` property, creates three shared cells —
/// the label text, the watermark placeholder text and the theming
/// selector — and threads their handles into a nested composition
/// (container, stack, scroll viewer with watermark text block, cursor).
/// It attaches a state that reconciles the label by direction each tick,
/// and a key-down callback that edits the text only while focused.
pub struct TextBox;

impl Widget for TextBox {
    fn create(arena: &mut PropertyArena) -> (t: Template)
        ensures
            final(arena)@ == old(arena)@ + seq![
                PropVal::Label(Seq::<char>::empty()),
                PropVal::WaterMark(Seq::<char>::empty()),
                PropVal::Selector("textbox"@),
            ],
            t.parent_type == ParentType::Single,
            t.properties.wf(),
            t.properties@ == Map::<PropertyKind, PropVal>::empty().insert(
                PropertyKind::Focused,
                PropVal::Focused(false),
            ),
            t.shared_properties@.len() == 3,
            t.shared_properties@[0].index as int == old(arena)@.len(),
            t.shared_properties@[1].index as int == old(arena)@.len() + 2,
            t.shared_properties@[2].index as int == old(arena)@.len() + 1,
            opt_state_view(t.state) == Some(
                WidgetStateView::TextBox(
                    TextBoxStateView { text: Seq::<char>::empty(), focused: false, updated: false },
                ),
            ),
            chain_of(t.event_handlers@) == seq![KeyAction::EditText],
            t.debug_name@ == "TextBox"@,
            t.children@.len() == 1,
            ({
                let container = t.children@[0];
                let stack = container.children@[0];
                &&& container.children@.len() == 1
                &&& container.shared_properties@ == seq![t.shared_properties@[1]]
                &&& container.debug_name@ == "Container"@
                &&& stack.children@.len() == 2
                &&& stack.debug_name@ == "Stack"@
                &&& stack.children@[0].children@.len() == 1
                &&& stack.children@[0].children@[0].shared_properties@ == seq![
                    t.shared_properties@[0],
                    t.shared_properties@[1],
                    t.shared_properties@[2],
                ]
                &&& stack.children@[1].debug_name@ == "Cursor"@
            }),
            template_bags_wf(t),
            template_wf(t, final(arena)@),
    {
        let label = arena.create_shared(PropertyValue::Label(Vec::new()));
        let water_mark = arena.create_shared(PropertyValue::WaterMark(Vec::new()));
        let selector = arena.create_shared(PropertyValue::Selector(chars_of_str("textbox")));
        let state = TextBoxState::default();

        let text_block = WaterMarkTextBlock::create(arena)
            .with_shared_property(label)
            .with_shared_property(selector)
            .with_shared_property(water_mark);
        let scroll_viewer = ScrollViewer::create(arena).with_child(text_block);
        let cursor = Cursor::create(arena);
        let stack = Stack::create(arena).with_child(scroll_viewer).with_child(cursor);
        let container = Container::create(arena).with_child(stack).with_shared_property(selector);

        let t = Template::default()
            .as_parent_type(ParentType::Single)
            .with_property(PropertyValue::Focused(false))
            .with_child(container)
            .with_state(WidgetState::TextBox(state))
            .with_debug_name("TextBox")
            .with_shared_property(label)
            .with_shared_property(selector)
            .with_shared_property(water_mark)
            .with_event_handler(KeyEventHandler::default().on_key_down(KeyAction::EditText));
        proof {
            let a2 = arena@;
            assert(t.children@ =~= seq![container]);
            assert(t.shared_properties@ =~= seq![label, selector, water_mark]);
            assert(container.shared_properties@ =~= seq![selector]);
            assert(container.children@ =~= seq![stack]);
            assert(stack.children@ =~= seq![scroll_viewer, cursor]);
            assert(scroll_viewer.children@ =~= seq![text_block]);
            assert(text_block.shared_properties@ =~= seq![label, selector, water_mark]);
            assert(chain_of(t.event_handlers@) =~= seq![KeyAction::EditText]) by {
                assert(t.event_handlers@.drop_last() =~= Seq::<KeyEventHandler>::empty());
                assert(t.event_handlers@.last().actions@ =~= seq![KeyAction::EditText]);
                assert(chain_of(Seq::<KeyEventHandler>::empty()) == Seq::<KeyAction>::empty());
            }
            lemma_text_box_template_wf(t, a2, old(arena)@.len() as int);
        }
        t
    }
}

/// The instantiation facts of the text-box template: every bag carries
/// distinct kinds and every node reaches each property kind once.
proof fn lemma_text_box_template_wf(t: Template, a: Seq<PropVal>, n: int)
    requires
        n >= 0,
        a.len() == n + 3,
        kind_of(a[n]) == PropertyKind::Label,
        kind_of(a[n + 1]) == PropertyKind::WaterMark,
        kind_of(a[n + 2]) == PropertyKind::Selector,
        t.properties.wf(),
        t.properties@ == Map::<PropertyKind, PropVal>::empty().insert(
            PropertyKind::Focused,
            PropVal::Focused(false),
        ),
        t.shared_properties@.len() == 3,
        t.shared_properties@[0].index as int == n,
        t.shared_properties@[1].index as int == n + 2,
        t.shared_properties@[2].index as int == n + 1,
        t.children@.len() == 1,
        ({
            let container = t.children@[0];
            let stack = container.children@[0];
            &&& container.properties.wf()
            &&& container.properties@ == Map::<PropertyKind, PropVal>::empty()
            &&& container.children@.len() == 1
            &&& container.shared_properties@ == seq![t.shared_properties@[1]]
            &&& stack.properties.wf()
            &&& stack.properties@ == Map::<PropertyKind, PropVal>::empty()
            &&& stack.children@.len() == 2
            &&& stack.shared_properties@.len() == 0
            &&& stack.children@[0].properties.wf()
            &&& stack.children@[0].properties@ == Map::<PropertyKind, PropVal>::empty()
            &&& stack.children@[0].shared_properties@.len() == 0
            &&& stack.children@[0].children@.len() == 1
            &&& stack.children@[0].children@[0].properties.wf()
            &&& stack.children@[0].children@[0].properties@ == Map::<
                PropertyKind,
                PropVal,
            >::empty()
            &&& stack.children@[0].children@[0].shared_properties@ == seq![
                t.shared_properties@[0],
                t.shared_properties@[1],
                t.shared_properties@[2],
            ]
            &&& stack.children@[0].children@[0].children@.len() == 0
            &&& stack.children@[1].properties.wf()
            &&& stack.children@[1].properties@ == Map::<PropertyKind, PropVal>::empty()
            &&& stack.children@[1].shared_properties@.len() == 0
            &&& stack.children@[1].children@.len() == 0
        }),
    ensures
        template_bags_wf(t),
        template_wf(t, a),
{
    let container = t.children@[0];
    let stack = container.children@[0];
    let scroll = stack.children@[0];
    let text_block = scroll.children@[0];
    let cursor = stack.children@[1];

    lemma_siblings_wf_empty(a);
    assert(template_wf(text_block, a)) by {
        assert(cv_wf(node_view_of(text_block), a));
        assert(text_block.children@ =~= Seq::<Template>::empty());
    }
    assert(template_wf(cursor, a)) by {
        assert(cv_wf(node_view_of(cursor), a));
        assert(cursor.children@ =~= Seq::<Template>::empty());
    }
    assert(template_wf(scroll, a)) by {
        assert(cv_wf(node_view_of(scroll), a));
        lemma_siblings_wf_one(text_block, a);
        assert(scroll.children@ =~= seq![text_block]);
    }
    assert(template_wf(stack, a)) by {
        assert(cv_wf(node_view_of(stack), a));
        lemma_siblings_wf_two(scroll, cursor, a);
        assert(stack.children@ =~= seq![scroll, cursor]);
    }
    assert(template_wf(container, a)) by {
        assert(cv_wf(node_view_of(container), a));
        lemma_siblings_wf_one(stack, a);
        assert(container.children@ =~= seq![stack]);
    }
    assert(template_wf(t, a)) by {
        assert(cv_wf(node_view_of(t), a)) by {
            assert(!node_view_of(t).properties.dom().contains(PropertyKind::Label));
            assert(!node_view_of(t).properties.dom().contains(PropertyKind::Selector));
            assert(!node_view_of(t).properties.dom().contains(PropertyKind::WaterMark));
        }
        lemma_siblings_wf_one(container, a);
        assert(t.children@ =~= seq![container]);
    }
    assert(template_bags_wf(t)) by {
        assert(template_bags_wf(text_block)) by {
            assert(text_block.children@ =~= Seq::<Template>::empty());
        }
        assert(template_bags_wf(cursor)) by {
            assert(cursor.children@ =~= Seq::<Template>::empty());
        }
        assert(template_bags_wf(scroll)) by {
            lemma_siblings_bags_wf_one(text_block);
            assert(scroll.children@ =~= seq![text_block]);
        }
        assert(template_bags_wf(stack)) by {
            lemma_siblings_bags_wf_two(scroll, cursor);
            assert(stack.children@ =~= seq![scroll, cursor]);
        }
        assert(template_bags_wf(container)) by {
            lemma_siblings_bags_wf_one(stack);
            assert(container.children@ =~= seq![stack]);
        }
        lemma_siblings_bags_wf_one(container);
        assert(t.children@ =~= seq![container]);
    }
}

/// No siblings are vacuously well-formed.
proof fn lemma_siblings_wf_empty(a: Seq<PropVal>)
    ensures
        children_wf(Seq::<Template>::empty(), a),
        children_bags_wf(Seq::<Template>::empty()),
{
}

/// One well-formed sibling.
proof fn lemma_siblings_wf_one(t: Template, a: Seq<PropVal>)
    requires
        template_wf(t, a),
    ensures
        children_wf(seq![t], a),
{
    lemma_siblings_wf_empty(a);
    assert(seq![t].drop_last() =~= Seq::<Template>::empty());
    assert(seq![t].last() == t);
}

/// Two well-formed siblings.
proof fn lemma_siblings_wf_two(t1: Template, t2: Template, a: Seq<PropVal>)
    requires
        template_wf(t1, a),
        template_wf(t2, a),
    ensures
        children_wf(seq![t1, t2], a),
{
    lemma_siblings_wf_one(t1, a);
    assert(seq![t1, t2].drop_last() =~= seq![t1]);
    assert(seq![t1, t2].last() == t2);
}

/// One sibling with well-formed bags.
proof fn lemma_siblings_bags_wf_one(t: Template)
    requires
        template_bags_wf(t),
    ensures
        children_bags_wf(seq![t]),
{
    assert(children_bags_wf(Seq::<Template>::empty()));
    assert(seq![t].drop_last() =~= Seq::<Template>::empty());
    assert(seq![t].last() == t);
}

/// Two siblings with well-formed bags.
proof fn lemma_siblings_bags_wf_two(t1: Template, t2: Template)
    requires
        template_bags_wf(t1),
        template_bags_wf(t2),
    ensures
        children_bags_wf(seq![t1, t2]),
{
    lemma_siblings_bags_wf_one(t1);
    assert(seq![t1, t2].drop_last() =~= seq![t1]);
    assert(seq![t1, t2].last() == t2);
}

/// Idempotence law: a state whose external property already equals its
/// internal buffer performs no external mutation on update — container and
/// arena are left exactly as they were, on this tick and so on every
/// later one.
pub proof fn lemma_update_idempotent(st: TextBoxStateView, c: ContainerView, a: Seq<PropVal>)
    requires
        resolved_prop(c, a, PropertyKind::Label) matches Some(l) && l == PropVal::Label(st.text),
    ensures
        text_box_update_spec(st, c, a).1 == c,
        text_box_update_spec(st, c, a).2 == a,
        text_box_update_spec(st, c, a).0.text == st.text,
{
}

/// Internal-wins law: after an internal mutation (`updated` set) that left
/// the buffer different from the external label, one update pushes the
/// buffer into the external label and clears `updated`.
pub proof fn lemma_update_pushes_internal(st: TextBoxStateView, c: ContainerView, a: Seq<PropVal>)
    requires
        st.updated,
        cv_wf(c, a),
        resolved_prop(c, a, PropertyKind::Label) matches Some(l) && l is Label && l != PropVal::Label(st.text),
    ensures
        ({
            let r = text_box_update_spec(st, c, a);
            &&& resolved_prop(r.1, r.2, PropertyKind::Label) == Some(PropVal::Label(st.text))
            &&& r.0.text == st.text
            &&& !r.0.updated
        }),
{
    let r = text_box_update_spec(st, c, a);
    lemma_set_resolved_reads_back(c, a, PropVal::Label(st.text));
}

/// External-wins law: with no internal mutation pending, one update pulls
/// the external label into the internal buffer and touches nothing
/// external.
pub proof fn lemma_update_pulls_external(st: TextBoxStateView, c: ContainerView, a: Seq<PropVal>)
    requires
        !st.updated,
        resolved_prop(c, a, PropertyKind::Label) matches Some(l) && l is Label,
    ensures
        ({
            let r = text_box_update_spec(st, c, a);
            &&& PropVal::Label(r.0.text) == resolved_prop(c, a, PropertyKind::Label)->Some_0
            &&& r.1 == c
            &&& r.2 == a
            &&& !r.0.updated
        }),
{
}

} // verus!

