//! Templates: immutable tree-node descriptors.
//!
//! A widget's creation routine describes its child structure, properties,
//! shared properties, layout descriptor, state and event handlers as a
//! [`Template`]. The builder calls are pure value transformers; a later
//! property of the same kind overwrites the earlier one, and `with_child`
//! never exceeds the declared parent arity.

use vstd::prelude::*;
use vstd::string::StringExecFns;

use crate::container::WidgetState;
use crate::event::KeyEventHandler;
use crate::property::PropertyBag;
use crate::property::PropertyValue;
use crate::property::kind_of;
use crate::shared_property::SharedProperty;

verus! {

/// Declared limit on a widget's child count: `Single` offers exactly one
/// child slot, `Multi` an ordered sequence of children.
#[derive(Clone, Copy, PartialEq, Eq, Structural, Debug)]
pub enum ParentType {
    Single,
    Multi,
}

/// Descriptor handed to the layout collaborator. The core only stores it;
/// it never computes geometry.
#[derive(Clone, Copy, PartialEq, Eq, Structural, Debug)]
pub enum LayoutObject {
    /// Stretch-style layout: children fill the node's bounds.
    Stretch,
}

/// Immutable descriptor of one widget tree node, built once per widget
/// expansion and consumed by the runtime.
#[derive(Debug, PartialEq)]
pub struct Template {
    pub parent_type: ParentType,
    pub children: Vec<Template>,
    pub properties: PropertyBag,
    pub shared_properties: Vec<SharedProperty>,
    pub layout_object: Option<LayoutObject>,
    pub state: Option<WidgetState>,
    pub event_handlers: Vec<KeyEventHandler>,
    pub debug_name: String,
}

impl Default for Template {
    /// A leaf descriptor: single child slot, no properties, no state, no
    /// handlers, no layout descriptor, empty debug name.
    fn default() -> (t: Template)
        ensures
            t.parent_type == ParentType::Single,
            t.children@.len() == 0,
            t.properties.wf(),
            t.properties@ == Map::<crate::property::PropertyKind, crate::property::PropVal>::empty(),
            t.shared_properties@.len() == 0,
            t.layout_object is None,
            t.state is None,
            t.event_handlers@.len() == 0,
            t.debug_name@.len() == 0,
    {
        Template {
            parent_type: ParentType::Single,
            children: Vec::new(),
            properties: PropertyBag::new(),
            shared_properties: Vec::new(),
            layout_object: None,
            state: None,
            event_handlers: Vec::new(),
            debug_name: String::new(),
        }
    }
}

impl Template {
    /// Whether one more child still fits under the declared arity: always
    /// under `Multi`, only into an empty slot under `Single`.
    pub open spec fn accepts_child(&self) -> bool {
        self.parent_type == ParentType::Multi || self.children@.len() == 0
    }

    /// Declare the parent arity.
    pub fn as_parent_type(self, parent_type: ParentType) -> (t: Template)
        ensures
            t == (Template { parent_type, ..self }),
    {
        Template { parent_type, ..self }
    }

    /// Append a child descriptor. A child beyond the declared arity — a
    /// second child of a `Single` node — is refused: the template keeps
    /// exactly the one child slot it had.
    pub fn with_child(self, child: Template) -> (t: Template)
        ensures
            self.accepts_child() ==> t.children@ == self.children@.push(child),
            !self.accepts_child() ==> t.children@ == self.children@,
            t == (Template { children: t.children, ..self }),
    {
        let mut s = self;
        let fits = match s.parent_type {
            ParentType::Multi => true,
            ParentType::Single => s.children.len() == 0,
        };
        if fits {
            s.children.push(child);
        }
        s
    }

    /// Attach a by-value property; a later value of the same kind
    /// overwrites the earlier one.
    pub fn with_property(self, value: PropertyValue) -> (t: Template)
        requires
            self.properties.wf(),
        ensures
            t.properties.wf(),
            t.properties@ == self.properties@.insert(kind_of(value@), value@),
            t == (Template { properties: t.properties, ..self }),
    {
        let mut s = self;
        s.properties.set(value);
        s
    }

    /// Attach a handle to a shared property cell.
    pub fn with_shared_property(self, handle: SharedProperty) -> (t: Template)
        ensures
            t.shared_properties@ == self.shared_properties@.push(handle),
            t == (Template { shared_properties: t.shared_properties, ..self }),
    {
        let mut s = self;
        s.shared_properties.push(handle);
        s
    }

    /// Attach the descriptor for the layout collaborator.
    pub fn with_layout_object(self, layout_object: LayoutObject) -> (t: Template)
        ensures
            t == (Template { layout_object: Some(layout_object), ..self }),
    {
        Template { layout_object: Some(layout_object), ..self }
    }

    /// Attach the widget's state object.
    pub fn with_state(self, state: WidgetState) -> (t: Template)
        ensures
            t == (Template { state: Some(state), ..self }),
    {
        Template { state: Some(state), ..self }
    }

    /// Register an event handler; it runs after those already registered.
    pub fn with_event_handler(self, handler: KeyEventHandler) -> (t: Template)
        ensures
            t.event_handlers@ == self.event_handlers@.push(handler),
            t == (Template { event_handlers: t.event_handlers, ..self }),
    {
        let mut s = self;
        s.event_handlers.push(handler);
        s
    }

    /// Name the node for debugging.
    pub fn with_debug_name(self, name: &str) -> (t: Template)
        ensures
            t.debug_name@ == name@,
            t == (Template { debug_name: t.debug_name, ..self }),
    {
        Template { debug_name: String::from_str(name), ..self }
    }
}

} // verus!
