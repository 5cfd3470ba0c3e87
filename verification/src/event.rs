//! Input events and per-widget event handlers.
//!
//! A key-event handler holds an ordered chain of callbacks. Dispatch
//! invokes the callbacks in registration order and stops at the first one
//! that consumes the event. Callbacks are named behaviours rather than
//! stored closures, so the verifier can reason about what each one does to
//! the widget it runs against.

use vstd::prelude::*;

verus! {

/// A key handed in by the input-loop collaborator.
#[derive(Clone, Copy, PartialEq, Eq, Structural, Debug)]
pub enum Key {
    /// A key that stands for a printable character.
    Printable(char),
    /// A key of the backspace class: it removes the last character.
    Backspace,
    /// Any other key.
    Other,
}

/// One key-down callback.
#[derive(Clone, Copy, PartialEq, Eq, Structural, Debug)]
pub enum KeyAction {
    /// Feed the key to the widget's own text-editing state: append a
    /// printable character or remove the last one, while the widget is
    /// focused.
    EditText,
}

/// An ordered chain of key-down callbacks registered by one
/// `with_event_handler` call.
#[derive(Debug, PartialEq)]
pub struct KeyEventHandler {
    pub actions: Vec<KeyAction>,
}

impl Default for KeyEventHandler {
    /// A handler with no callbacks yet.
    fn default() -> (h: KeyEventHandler)
        ensures
            h.actions@ == Seq::<KeyAction>::empty(),
    {
        KeyEventHandler { actions: Vec::new() }
    }
}

impl KeyEventHandler {
    /// Register one more key-down callback; it runs after those already
    /// registered.
    pub fn on_key_down(self, action: KeyAction) -> (h: KeyEventHandler)
        ensures
            h.actions@ == self.actions@.push(action),
    {
        let mut actions = self.actions;
        actions.push(action);
        KeyEventHandler { actions }
    }
}

/// The callbacks of a sequence of handlers, flattened in registration
/// order.
pub open spec fn chain_of(handlers: Seq<KeyEventHandler>) -> Seq<KeyAction>
    decreases handlers.len(),
{
    if handlers.len() == 0 {
        Seq::empty()
    } else {
        chain_of(handlers.drop_last()) + handlers.last().actions@
    }
}

/// Flatten the callbacks of `handlers` into one chain, keeping
/// registration order.
pub fn flatten_handlers(handlers: &Vec<KeyEventHandler>) -> (chain: Vec<KeyAction>)
    ensures
        chain@ == chain_of(handlers@),
{
    let mut chain: Vec<KeyAction> = Vec::new();
    let mut i: usize = 0;
    while i < handlers.len()
        invariant
            i <= handlers@.len(),
            chain@ == chain_of(handlers@.subrange(0, i as int)),
        decreases handlers@.len() - i,
    {
        let mut j: usize = 0;
        let ghost chain0 = chain@;
        while j < handlers[i].actions.len()
            invariant
                i < handlers@.len(),
                j <= handlers@[i as int].actions@.len(),
                chain@ == chain0 + handlers@[i as int].actions@.subrange(0, j as int),
            decreases handlers@[i as int].actions@.len() - j,
        {
            chain.push(handlers[i].actions[j]);
            proof {
                let acts = handlers@[i as int].actions@;
                assert(chain0 + acts.subrange(0, j as int).push(acts[j as int]) =~= chain0
                    + acts.subrange(0, j + 1 as int));
            }
            j = j + 1;
        }
        proof {
            let pre = handlers@.subrange(0, i + 1 as int);
            assert(pre.drop_last() =~= handlers@.subrange(0, i as int));
            let acts = handlers@[i as int].actions@;
            assert(acts.subrange(0, acts.len() as int) =~= acts);
            assert(chain@ =~= chain_of(pre));
        }
        i = i + 1;
    }
    proof {
        assert(handlers@.subrange(0, handlers@.len() as int) =~= handlers@);
    }
    chain
}

} // verus!
