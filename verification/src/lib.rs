//! Declarative widget-composition and state-update core of a retained-mode
//! UI toolkit.
//!
//! Widgets are described as [`template::Template`] trees. Each template node
//! carries typed properties, handles to shared property cells, an optional
//! per-widget state object and an ordered chain of key-event callbacks. The
//! runtime consumes a template into a tree of
//! [`container::WidgetContainer`]s and then, tick by tick, dispatches input
//! events and reconciles every widget's private state with its externally
//! visible properties.
//!
//! Layout, painting, theming and the input loop are outside collaborators:
//! the core only stores their descriptors and consumes the events they hand
//! in.

pub mod container;
pub mod event;
pub mod property;
pub mod runtime;
pub mod shared_property;
pub mod template;
pub mod widget;
