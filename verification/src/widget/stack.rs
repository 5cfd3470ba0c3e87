//! The stacking container widget.

use vstd::prelude::*;

use crate::property::PropVal;
use crate::property::PropertyKind;
use crate::shared_property::PropertyArena;
use crate::template::LayoutObject;
use crate::template::ParentType;
use crate::template::Template;
use crate::widget::Widget;

verus! {

/// A layout widget that stacks its children on the z-axis: parent arity
/// `Multi`, a stretch layout descriptor, no state and no properties of its
/// own — purely a composition node.
pub struct Stack;

impl Widget for Stack {
    fn create(arena: &mut PropertyArena) -> (t: Template)
        ensures
            final(arena)@ == old(arena)@,
            t.parent_type == ParentType::Multi,
            t.children@.len() == 0,
            t.properties.wf(),
            t.properties@ == Map::<PropertyKind, PropVal>::empty(),
            t.shared_properties@.len() == 0,
            t.layout_object == Some(LayoutObject::Stretch),
            t.state is None,
            t.event_handlers@.len() == 0,
            t.debug_name@ == "Stack"@,
    {
        Template::default()
            .as_parent_type(ParentType::Multi)
            .with_layout_object(LayoutObject::Stretch)
            .with_debug_name("Stack")
    }
}

} // verus!
