//! The runtime view of one tree node.
//!
//! A [`WidgetContainer`] holds the resolved by-value properties of one
//! widget, the handles to the shared cells it aliases, its optional state
//! object and its key-event callback chain. Typed access resolves a kind
//! first against the local bag and then against the shared cells, so a
//! shared property reads the same underlying cell regardless of which
//! holder asks.

use vstd::prelude::*;

use crate::event::Key;
use crate::event::KeyAction;
use crate::property::AccessError;
use crate::property::PropVal;
use crate::property::PropertyBag;
use crate::property::PropertyKind;
use crate::property::PropertyValue;
use crate::property::kind_of;
use crate::shared_property::PropertyArena;
use crate::shared_property::SharedProperty;
use crate::shared_property::same_kinds;
use crate::widget::text_box::TextBoxState;
use crate::widget::text_box::TextBoxStateView;
use crate::widget::text_box::update_text_spec;

verus! {

/// The state object a container may own. The runtime owns its states as
/// plain data, so the kinds of state are a closed enumeration rather than
/// a trait object.
#[derive(Debug, PartialEq)]
pub enum WidgetState {
    TextBox(TextBoxState),
}

/// Mathematical value of a [`WidgetState`].
#[verifier::ext_equal]
pub enum WidgetStateView {
    TextBox(TextBoxStateView),
}

impl View for WidgetState {
    type V = WidgetStateView;

    open spec fn view(&self) -> WidgetStateView {
        match self {
            WidgetState::TextBox(s) => WidgetStateView::TextBox(s@),
        }
    }
}

impl WidgetState {
    /// A state object with the same mathematical content.
    pub fn duplicate(&self) -> (r: WidgetState)
        ensures
            r@ == self@,
    {
        match self {
            WidgetState::TextBox(s) => WidgetState::TextBox(s.duplicate()),
        }
    }
}

/// The state an optional [`WidgetState`] stands for.
pub open spec fn opt_state_view(s: Option<WidgetState>) -> Option<WidgetStateView> {
    match s {
        Some(w) => Some(w@),
        None => None,
    }
}

/// Mathematical value of a [`WidgetContainer`].
#[verifier::ext_equal]
pub struct ContainerView {
    pub properties: Map<PropertyKind, PropVal>,
    pub shared: Seq<SharedProperty>,
    pub state: Option<WidgetStateView>,
    pub key_actions: Seq<KeyAction>,
    pub child_count: nat,
    pub debug_name: Seq<char>,
}

/// Runtime node of the widget tree.
#[derive(Debug)]
pub struct WidgetContainer {
    /// By-value properties, one per kind.
    pub properties: PropertyBag,
    /// Handles to the shared cells this widget aliases.
    pub shared: Vec<SharedProperty>,
    /// The widget's state object, if it declared one.
    pub state: Option<WidgetState>,
    /// Key-down callbacks in registration order.
    pub key_actions: Vec<KeyAction>,
    /// How many direct children the node has in the instantiated tree.
    pub child_count: usize,
    /// Debug name taken over from the template.
    pub debug_name: String,
}

impl View for WidgetContainer {
    type V = ContainerView;

    open spec fn view(&self) -> ContainerView {
        ContainerView {
            properties: self.properties@,
            shared: self.shared@,
            state: opt_state_view(self.state),
            key_actions: self.key_actions@,
            child_count: self.child_count as nat,
            debug_name: self.debug_name@,
        }
    }
}

/// Handle `c.shared[i]` names a cell of kind `k`.
pub open spec fn shared_entry_at(
    c: ContainerView,
    a: Seq<PropVal>,
    k: PropertyKind,
    i: int,
) -> bool {
    0 <= i < c.shared.len() && c.shared[i].index < a.len() && kind_of(a[c.shared[i].index as int])
        == k
}

/// Some handle of the container names a cell of kind `k`.
pub open spec fn shared_has(c: ContainerView, a: Seq<PropVal>, k: PropertyKind) -> bool {
    exists|i: int| shared_entry_at(c, a, k, i)
}

/// The arena slot behind the container's shared property of kind `k`
/// (meaningful only when `shared_has`).
pub open spec fn shared_slot(c: ContainerView, a: Seq<PropVal>, k: PropertyKind) -> int {
    c.shared[choose|i: int| shared_entry_at(c, a, k, i)].index as int
}

/// The value a typed access of kind `k` resolves to: the local bag first,
/// then the shared cells, else nothing.
pub open spec fn resolved_prop(c: ContainerView, a: Seq<PropVal>, k: PropertyKind) -> Option<
    PropVal,
> {
    if c.properties.dom().contains(k) {
        Some(c.properties[k])
    } else if shared_has(c, a, k) {
        Some(a[shared_slot(c, a, k)])
    } else {
        None
    }
}

/// Where a write of value `v` lands: the local bag if the kind is local,
/// else the shared cell of that kind, else nowhere.
pub open spec fn set_resolved(c: ContainerView, a: Seq<PropVal>, v: PropVal) -> (
    ContainerView,
    Seq<PropVal>,
) {
    let k = kind_of(v);
    if c.properties.dom().contains(k) {
        (ContainerView { properties: c.properties.insert(k, v), ..c }, a)
    } else if shared_has(c, a, k) {
        (c, a.update(shared_slot(c, a, k), v))
    } else {
        (c, a)
    }
}

/// The container's handles are valid in the arena, and the kinds it can
/// reach — local and shared together — are pairwise distinct, so each kind
/// resolves to one place.
pub open spec fn cv_wf(c: ContainerView, a: Seq<PropVal>) -> bool {
    &&& forall|i: int| 0 <= i < c.shared.len() ==> (#[trigger] c.shared[i]).index < a.len()
    &&& forall|i: int, j: int|
        0 <= i < j < c.shared.len() ==> kind_of(a[(#[trigger] c.shared[i]).index as int])
            != kind_of(a[(#[trigger] c.shared[j]).index as int])
    &&& forall|i: int|
        0 <= i < c.shared.len() ==> !c.properties.dom().contains(
            kind_of(a[(#[trigger] c.shared[i]).index as int]),
        )
}

impl WidgetContainer {
    /// Well-formed against the arena: unique kinds and valid handles.
    pub open spec fn wf(&self, a: Seq<PropVal>) -> bool {
        self.properties.wf() && cv_wf(self@, a)
    }

    /// Position of the handle whose cell has kind `kind`, if any.
    fn find_shared(&self, arena: &PropertyArena, kind: PropertyKind) -> (r: Option<usize>)
        requires
            self.wf(arena@),
        ensures
            match r {
                Some(i) => shared_entry_at(self@, arena@, kind, i as int),
                None => !shared_has(self@, arena@, kind),
            },
    {
        let mut i: usize = 0;
        while i < self.shared.len()
            invariant
                self.wf(arena@),
                i <= self.shared@.len(),
                forall|j: int|
                    0 <= j < i ==> kind_of(arena@[(#[trigger] self.shared@[j]).index as int])
                        != kind,
            decreases self.shared@.len() - i,
        {
            let h = self.shared[i];
            if self.cell_kind(arena, h) == kind {
                return Some(i);
            }
            i = i + 1;
        }
        None
    }

    /// The kind of the cell behind `h`.
    fn cell_kind(&self, arena: &PropertyArena, h: SharedProperty) -> (k: PropertyKind)
        requires
            h.in_arena(arena@.len() as nat),
        ensures
            k == kind_of(arena@[h.index as int]),
    {
        arena.cells[h.index].kind()
    }

    /// Typed read: the single value of kind `kind`, whether it lives in the
    /// local bag or in a shared cell, or `PropertyNotFound` if the widget
    /// never declared that kind. A shared read reflects the latest write
    /// through any holder's handle.
    pub fn get_property(&self, arena: &PropertyArena, kind: PropertyKind) -> (r: Result<
        PropertyValue,
        AccessError,
    >)
        requires
            self.wf(arena@),
        ensures
            match r {
                Ok(v) => resolved_prop(self@, arena@, kind) == Some(v@),
                Err(e) => e == AccessError::PropertyNotFound && resolved_prop(
                    self@,
                    arena@,
                    kind,
                ) is None,
            },
    {
        match self.properties.get(kind) {
            Ok(v) => Ok(v),
            Err(_) => {
                match self.find_shared(arena, kind) {
                    Some(i) => {
                        proof {
                            lemma_shared_slot_at(self@, arena@, kind, i as int);
                        }
                        Ok(arena.read(self.shared[i]))
                    },
                    None => Err(AccessError::PropertyNotFound),
                }
            },
        }
    }

    /// Typed write: store `value` under its own kind, into the local bag
    /// if the kind is local, else into the shared cell of that kind — every
    /// holder of a handle to it sees the new value at once. Fails with
    /// `PropertyNotFound`, touching nothing, if the widget never declared
    /// the kind.
    pub fn set_property(&mut self, arena: &mut PropertyArena, value: PropertyValue) -> (r: Result<
        (),
        AccessError,
    >)
        requires
            old(self).wf(old(arena)@),
        ensures
            final(self).wf(final(arena)@),
            same_kinds(old(arena)@, final(arena)@),
            match r {
                Ok(_) => resolved_prop(old(self)@, old(arena)@, kind_of(value@)) is Some && (
                final(self)@,
                final(arena)@,
                ) == set_resolved(old(self)@, old(arena)@, value@),
                Err(e) => e == AccessError::PropertyNotFound && resolved_prop(
                    old(self)@,
                    old(arena)@,
                    kind_of(value@),
                ) is None && final(self)@ == old(self)@ && final(arena)@ == old(arena)@,
            },
    {
        let kind = value.kind();
        if self.properties.contains(kind) {
            self.properties.set(value);
            proof {
                assert(final(self)@ =~= set_resolved(old(self)@, old(arena)@, value@).0);
            }
            Ok(())
        } else {
            match self.find_shared(arena, kind) {
                Some(i) => {
                    proof {
                        lemma_shared_slot_at(self@, arena@, kind, i as int);
                    }
                    let h = self.shared[i];
                    arena.write(h, value);
                    proof {
                        lemma_cv_wf_arena_kind_update(old(self)@, old(arena)@, final(arena)@);
                    }
                    Ok(())
                },
                None => Err(AccessError::PropertyNotFound),
            }
        }
    }
}

/// With distinct kinds, the handle at `i` is the one a shared access of
/// kind `k` resolves to.
pub proof fn lemma_shared_slot_at(c: ContainerView, a: Seq<PropVal>, k: PropertyKind, i: int)
    requires
        cv_wf(c, a),
        shared_entry_at(c, a, k, i),
    ensures
        shared_has(c, a, k),
        shared_slot(c, a, k) == c.shared[i].index as int,
{
    let j = choose|j: int| shared_entry_at(c, a, k, j);
    assert(shared_entry_at(c, a, k, j));
    assert(j == i);
}

/// An arena update that keeps every cell's kind keeps a container
/// well-formed and leaves which place each kind resolves to unchanged.
pub proof fn lemma_cv_wf_arena_kind_update(c: ContainerView, a1: Seq<PropVal>, a2: Seq<PropVal>)
    requires
        cv_wf(c, a1),
        a2.len() == a1.len(),
        forall|i: int| 0 <= i < a1.len() ==> kind_of(#[trigger] a2[i]) == kind_of(a1[i]),
    ensures
        cv_wf(c, a2),
        forall|k: PropertyKind| #[trigger] shared_has(c, a2, k) == shared_has(c, a1, k),
        forall|k: PropertyKind|
            shared_has(c, a1, k) ==> #[trigger] shared_slot(c, a2, k) == shared_slot(c, a1, k),
{
    assert forall|k: PropertyKind| #[trigger] shared_has(c, a1, k) implies shared_has(
        c,
        a2,
        k,
    ) by {
        let w = choose|w: int| shared_entry_at(c, a1, k, w);
        assert(shared_entry_at(c, a2, k, w));
    }
    assert forall|k: PropertyKind| #[trigger] shared_has(c, a2, k) implies shared_has(
        c,
        a1,
        k,
    ) by {
        let w = choose|w: int| shared_entry_at(c, a2, k, w);
        assert(shared_entry_at(c, a1, k, w));
    }
    assert forall|k: PropertyKind| shared_has(c, a1, k) implies #[trigger] shared_slot(c, a2, k)
        == shared_slot(c, a1, k) by {
        let w1 = choose|w: int| shared_entry_at(c, a1, k, w);
        assert(shared_entry_at(c, a1, k, w1));
        assert(shared_entry_at(c, a2, k, w1));
        let w2 = choose|w: int| shared_entry_at(c, a2, k, w);
        assert(shared_entry_at(c, a2, k, w2));
        assert(shared_entry_at(c, a1, k, w2));
        assert(w1 == w2);
    }
}

/// A write that a container resolves lands where the kind resolves: read
/// back, it returns exactly the written value, and every other kind still
/// resolves to the value it had.
pub proof fn lemma_set_resolved_reads_back(c: ContainerView, a: Seq<PropVal>, v: PropVal)
    requires
        cv_wf(c, a),
        resolved_prop(c, a, kind_of(v)) is Some,
    ensures
        ({
            let r = set_resolved(c, a, v);
            &&& resolved_prop(r.0, r.1, kind_of(v)) == Some(v)
            &&& same_kinds(a, r.1)
            &&& cv_wf(r.0, r.1)
            &&& forall|k2: PropertyKind|
                k2 != kind_of(v) ==> #[trigger] resolved_prop(r.0, r.1, k2) == resolved_prop(
                    c,
                    a,
                    k2,
                )
        }),
{
    let k = kind_of(v);
    let r = set_resolved(c, a, v);
    if c.properties.dom().contains(k) {
        assert(r.0.properties[k] == v);
        assert(cv_wf(r.0, r.1)) by {
            assert forall|i: int| 0 <= i < r.0.shared.len() implies !r.0.properties.dom().contains(
                kind_of(a[(#[trigger] r.0.shared[i]).index as int]),
            ) by {
                assert(kind_of(a[c.shared[i].index as int]) != k);
            }
        }
        assert forall|k2: PropertyKind| k2 != k implies #[trigger] resolved_prop(r.0, r.1, k2)
            == resolved_prop(c, a, k2) by {
            assert(r.0.properties.dom().contains(k2) == c.properties.dom().contains(k2));
            if c.properties.dom().contains(k2) {
                assert(r.0.properties[k2] == c.properties[k2]);
            } else {
                if shared_has(c, a, k2) {
                    let w2 = choose|i: int| shared_entry_at(c, a, k2, i);
                    assert(shared_entry_at(c, a, k2, w2));
                    assert(shared_entry_at(r.0, a, k2, w2));
                    lemma_shared_slot_at(c, a, k2, w2);
                    lemma_shared_slot_at(r.0, a, k2, w2);
                }
                if shared_has(r.0, a, k2) {
                    let w3 = choose|i: int| shared_entry_at(r.0, a, k2, i);
                    assert(shared_entry_at(r.0, a, k2, w3));
                    assert(shared_entry_at(c, a, k2, w3));
                }
            }
        }
    } else if shared_has(c, a, k) {
        let slot = shared_slot(c, a, k);
        let w = choose|i: int| shared_entry_at(c, a, k, i);
        assert(shared_entry_at(c, a, k, w));
        assert(kind_of(a[slot]) == k);
        assert(same_kinds(a, r.1));
        lemma_cv_wf_arena_kind_update(c, a, r.1);
        assert(shared_entry_at(r.0, r.1, k, w));
        lemma_shared_slot_at(r.0, r.1, k, w);
        assert(resolved_prop(r.0, r.1, k) == Some(r.1[slot]));
        assert forall|k2: PropertyKind| k2 != k implies #[trigger] resolved_prop(r.0, r.1, k2)
            == resolved_prop(c, a, k2) by {
            if !c.properties.dom().contains(k2) && shared_has(c, a, k2) {
                let s2 = shared_slot(c, a, k2);
                let w2 = choose|i: int| shared_entry_at(c, a, k2, i);
                assert(shared_entry_at(c, a, k2, w2));
                assert(kind_of(a[s2]) == k2);
                assert(s2 != slot);
                assert(shared_slot(r.0, r.1, k2) == s2);
            }
        }
    }
}

/// What one callback does to the dispatched event: the pair of the state
/// it leaves behind and whether it consumed the event.
pub open spec fn key_action_step(action: KeyAction, key: Key, st: Option<WidgetStateView>) -> (
    Option<WidgetStateView>,
    bool,
) {
    match action {
        KeyAction::EditText => match st {
            Some(WidgetStateView::TextBox(t)) => {
                let r = update_text_spec(t, key);
                (Some(WidgetStateView::TextBox(r.0)), r.1)
            },
            None => (st, false),
        },
    }
}

/// Run a callback chain in order: each callback sees the state the
/// previous ones left; the first one that consumes the event ends the run.
pub open spec fn run_key_actions(
    chain: Seq<KeyAction>,
    key: Key,
    st: Option<WidgetStateView>,
) -> (Option<WidgetStateView>, bool)
    decreases chain.len(),
{
    if chain.len() == 0 {
        (st, false)
    } else {
        let r = key_action_step(chain[0], key, st);
        if r.1 {
            (r.0, true)
        } else {
            run_key_actions(chain.drop_first(), key, r.0)
        }
    }
}

/// Consumption law: once a callback consumes the event, no callback
/// registered after it observes that event instance — the outcome over any
/// extension of the chain equals the outcome over the chain cut off at the
/// consumer.
pub proof fn lemma_consumed_stops_chain(
    chain: Seq<KeyAction>,
    rest: Seq<KeyAction>,
    key: Key,
    st: Option<WidgetStateView>,
)
    requires
        run_key_actions(chain, key, st).1,
    ensures
        run_key_actions(chain + rest, key, st) == run_key_actions(chain, key, st),
    decreases chain.len(),
{
    assert(chain.len() > 0);
    let r = key_action_step(chain[0], key, st);
    assert((chain + rest)[0] == chain[0]);
    assert((chain + rest).drop_first() =~= chain.drop_first() + rest);
    if !r.1 {
        lemma_consumed_stops_chain(chain.drop_first(), rest, key, r.0);
    }
}

impl WidgetContainer {
    /// Deliver one key-down event to this widget: invoke its callbacks in
    /// registration order and stop at the first one that consumes the
    /// event. Returns whether the event was consumed; if not, the runtime
    /// may forward it under its own propagation policy. Only the widget's
    /// state is touched.
    pub fn dispatch_key_down(&mut self, key: Key) -> (consumed: bool)
        ensures
            final(self)@ == (ContainerView {
                state: run_key_actions(old(self)@.key_actions, key, old(self)@.state).0,
                ..old(self)@
            }),
            consumed == run_key_actions(old(self)@.key_actions, key, old(self)@.state).1,
            *final(self) == (WidgetContainer { state: final(self).state, ..*old(self) }),
    {
        let ghost chain = self@.key_actions;
        let ghost st0 = self@.state;
        proof {
            assert(chain.skip(0) =~= chain);
        }
        let mut i: usize = 0;
        while i < self.key_actions.len()
            invariant
                i <= chain.len(),
                chain == old(self)@.key_actions,
                st0 == old(self)@.state,
                self.key_actions == old(self).key_actions,
                self.key_actions@ == chain,
                self.properties == old(self).properties,
                self.shared == old(self).shared,
                self.child_count == old(self).child_count,
                self.debug_name == old(self).debug_name,
                run_key_actions(chain, key, st0) == run_key_actions(
                    chain.skip(i as int),
                    key,
                    opt_state_view(self.state),
                ),
            decreases chain.len() - i,
        {
            let ghost st_here = opt_state_view(self.state);
            let ghost suffix = chain.skip(i as int);
            proof {
                assert(suffix[0] == chain[i as int]);
                assert(suffix.drop_first() =~= chain.skip(i + 1 as int));
            }
            let action = self.key_actions[i];
            let consumed_here = match action {
                KeyAction::EditText => {
                    match self.state.take() {
                        Some(WidgetState::TextBox(mut t)) => {
                            let c = t.update_text(key);
                            self.state = Some(WidgetState::TextBox(t));
                            c
                        },
                        None => {
                            self.state = None;
                            false
                        },
                    }
                },
            };
            proof {
                assert((opt_state_view(self.state), consumed_here) == key_action_step(
                    chain[i as int],
                    key,
                    st_here,
                ));
            }
            if consumed_here {
                proof {
                    assert(run_key_actions(suffix, key, st_here) == (
                        opt_state_view(self.state),
                        true,
                    ));
                    assert(self@ =~= (ContainerView {
                        state: run_key_actions(chain, key, st0).0,
                        ..old(self)@
                    }));
                }
                return true;
            }
            i = i + 1;
        }
        proof {
            assert(chain.skip(chain.len() as int) =~= Seq::<KeyAction>::empty());
            assert(self@ =~= (ContainerView {
                state: run_key_actions(chain, key, st0).0,
                ..old(self)@
            }));
        }
        false
    }
}

} // verus!
