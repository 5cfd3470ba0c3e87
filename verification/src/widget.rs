//! The widget capability and the built-in widgets.
//!
//! Anything that can produce a [`crate::template::Template`] is a widget;
//! producing a template is the sole extension point for new widget kinds.
//! A composite widget's creation routine allocates the shared cells it
//! wants to flow into its descendants, nests other widgets' templates
//! while threading the same handles into each descendant that needs the
//! data, and finally attaches its own state and event handlers.

pub mod stack;
pub mod text_box;

use vstd::prelude::*;

use crate::property::PropVal;
use crate::property::PropertyKind;
use crate::shared_property::PropertyArena;
use crate::template::ParentType;
use crate::template::Template;

verus! {

/// The widget capability: produce a template. Creation is side-effect-free
/// except for allocating, in `arena`, the shared cells and state objects
/// the widget introduces.
pub trait Widget {
    fn create(arena: &mut PropertyArena) -> Template;
}

/// A composition node that frames one child. Its own catalog behaviour is
/// outside this core; only its place in a composition is modelled.
pub struct Container;

impl Widget for Container {
    fn create(arena: &mut PropertyArena) -> (t: Template)
        ensures
            final(arena)@ == old(arena)@,
            t.parent_type == ParentType::Single,
            t.children@.len() == 0,
            t.properties.wf(),
            t.properties@ == Map::<PropertyKind, PropVal>::empty(),
            t.shared_properties@.len() == 0,
            t.state is None,
            t.event_handlers@.len() == 0,
            t.debug_name@ == "Container"@,
    {
        Template::default().with_debug_name("Container")
    }
}

/// A scrolling viewport around one child. Its own catalog behaviour is
/// outside this core; only its place in a composition is modelled.
pub struct ScrollViewer;

impl Widget for ScrollViewer {
    fn create(arena: &mut PropertyArena) -> (t: Template)
        ensures
            final(arena)@ == old(arena)@,
            t.parent_type == ParentType::Single,
            t.children@.len() == 0,
            t.properties.wf(),
            t.properties@ == Map::<PropertyKind, PropVal>::empty(),
            t.shared_properties@.len() == 0,
            t.state is None,
            t.event_handlers@.len() == 0,
            t.debug_name@ == "ScrollViewer"@,
    {
        Template::default().with_debug_name("ScrollViewer")
    }
}

/// A text block that shows a watermark while its label is empty. Its own
/// catalog behaviour is outside this core; only its place in a
/// composition — and the shared cells threaded into it — is modelled.
pub struct WaterMarkTextBlock;

impl Widget for WaterMarkTextBlock {
    fn create(arena: &mut PropertyArena) -> (t: Template)
        ensures
            final(arena)@ == old(arena)@,
            t.parent_type == ParentType::Single,
            t.children@.len() == 0,
            t.properties.wf(),
            t.properties@ == Map::<PropertyKind, PropVal>::empty(),
            t.shared_properties@.len() == 0,
            t.state is None,
            t.event_handlers@.len() == 0,
            t.debug_name@ == "WaterMarkTextBlock"@,
    {
        Template::default().with_debug_name("WaterMarkTextBlock")
    }
}

/// The text cursor of a text input. Its own catalog behaviour is outside
/// this core; only its place in a composition is modelled.
pub struct Cursor;

impl Widget for Cursor {
    fn create(arena: &mut PropertyArena) -> (t: Template)
        ensures
            final(arena)@ == old(arena)@,
            t.parent_type == ParentType::Single,
            t.children@.len() == 0,
            t.properties.wf(),
            t.properties@ == Map::<PropertyKind, PropVal>::empty(),
            t.shared_properties@.len() == 0,
            t.state is None,
            t.event_handlers@.len() == 0,
            t.debug_name@ == "Cursor"@,
    {
        Template::default().with_debug_name("Cursor")
    }
}

} // verus!
