//! The runtime: template instantiation and the tick protocol.
//!
//! A template tree is consumed into a [`WidgetTree`] of containers, one
//! container per template node, held in pre-order — a parent stands before
//! its children, children in declaration order. Each tick first routes the
//! pending input events to their target widgets and then invokes the state
//! update of every widget that declares one, in tree order,
//! unconditionally.

use vstd::prelude::*;

use crate::container::ContainerView;
use crate::container::WidgetContainer;
use crate::container::cv_wf;
use crate::container::lemma_cv_wf_arena_kind_update;
use crate::container::lemma_set_resolved_reads_back;
use crate::container::resolved_prop;
use crate::container::set_resolved;
use crate::container::opt_state_view;
use crate::container::run_key_actions;
use crate::container::WidgetState;
use crate::container::WidgetStateView;
use crate::event::Key;
use crate::event::chain_of;
use crate::event::flatten_handlers;
use crate::property::PropVal;
use crate::property::PropertyKind;
use crate::shared_property::PropertyArena;
use crate::shared_property::copy_handles;
use crate::shared_property::same_kinds;
use crate::template::Template;
use crate::widget::text_box::TextBoxStateView;
use crate::widget::text_box::pulled_focus;
use crate::widget::text_box::text_box_update_spec;

verus! {

/// The views of a sequence of containers.
pub open spec fn views_of(s: Seq<WidgetContainer>) -> Seq<ContainerView> {
    s.map_values(|c: WidgetContainer| c@)
}

/// The container view one template node is instantiated into.
pub open spec fn node_view_of(t: Template) -> ContainerView {
    ContainerView {
        properties: t.properties@,
        shared: t.shared_properties@,
        state: opt_state_view(t.state),
        key_actions: chain_of(t.event_handlers@),
        child_count: t.children@.len() as nat,
        debug_name: t.debug_name@,
    }
}

/// The pre-order sequence of container views a template expands into.
pub open spec fn flatten_template(t: Template) -> Seq<ContainerView>
    decreases t,
{
    seq![node_view_of(t)] + flatten_children(t.children@)
}

/// The pre-order expansion of a sequence of sibling templates.
pub open spec fn flatten_children(ts: Seq<Template>) -> Seq<ContainerView>
    decreases ts,
{
    if ts.len() == 0 {
        Seq::empty()
    } else {
        flatten_children(ts.drop_last()) + flatten_template(ts.last())
    }
}

/// Every property bag of the template tree carries distinct kinds.
pub open spec fn template_bags_wf(t: Template) -> bool
    decreases t,
{
    t.properties.wf() && children_bags_wf(t.children@)
}

/// Bag well-formedness over a sequence of sibling templates.
pub open spec fn children_bags_wf(ts: Seq<Template>) -> bool
    decreases ts,
{
    if ts.len() == 0 {
        true
    } else {
        children_bags_wf(ts.drop_last()) && template_bags_wf(ts.last())
    }
}

/// Bag well-formedness passes to each sibling.
pub proof fn lemma_children_bags_wf_index(ts: Seq<Template>, i: int)
    requires
        children_bags_wf(ts),
        0 <= i < ts.len(),
    ensures
        template_bags_wf(ts[i]),
    decreases ts.len(),
{
    if i == ts.len() - 1 {
    } else {
        lemma_children_bags_wf_index(ts.drop_last(), i);
        assert(ts.drop_last()[i] == ts[i]);
    }
}

/// The instantiated widget tree: one container per template node, held in
/// pre-order.
#[derive(Debug)]
pub struct WidgetTree {
    pub nodes: Vec<WidgetContainer>,
}

impl WidgetTree {
    /// Every node is well-formed against the arena.
    pub open spec fn wf(&self, a: Seq<PropVal>) -> bool {
        forall|i: int| 0 <= i < self.nodes@.len() ==> (#[trigger] self.nodes@[i]).wf(a)
    }

    /// Consume a template into its container tree. The containers stand in
    /// pre-order, one for each template node, each carrying that node's
    /// properties, shared handles, state, flattened callback chain, child
    /// count and debug name.
    pub fn instantiate(template: &Template) -> (tree: WidgetTree)
        requires
            template_bags_wf(*template),
        ensures
            views_of(tree.nodes@) == flatten_template(*template),
            forall|i: int|
                0 <= i < tree.nodes@.len() ==> (#[trigger] tree.nodes@[i]).properties.wf(),
            forall|a: Seq<PropVal>| template_wf(*template, a) ==> tree.wf(a),
    {
        let mut nodes: Vec<WidgetContainer> = Vec::new();
        push_subtree(template, &mut nodes);
        proof {
            assert(views_of(Seq::<WidgetContainer>::empty()) =~= Seq::<ContainerView>::empty());
            assert(views_of(nodes@) =~= flatten_template(*template));
        }
        let tree = WidgetTree { nodes };
        proof {
            assert forall|a: Seq<PropVal>| template_wf(*template, a) implies tree.wf(a) by {
                lemma_flatten_wf(*template, a);
                assert forall|i: int|
                    0 <= i < tree.nodes@.len() implies (#[trigger] tree.nodes@[i]).wf(a) by {
                    assert(tree.nodes@[i]@ == flatten_template(*template)[i]);
                }
            }
        }
        tree
    }
}

/// One update tick of a single node: if it declares a state, the state is
/// reconciled against the node and the arena; a node without state is left
/// alone.
pub open spec fn update_node_spec(c: ContainerView, a: Seq<PropVal>) -> (ContainerView, Seq<
    PropVal,
>) {
    match c.state {
        Some(WidgetStateView::TextBox(st)) => {
            let c0 = ContainerView { state: None, ..c };
            let r = text_box_update_spec(st, c0, a);
            (ContainerView { state: Some(WidgetStateView::TextBox(r.0)), ..r.1 }, r.2)
        },
        None => (c, a),
    }
}

/// The state-update phase of one tick: every node is updated once, in tree
/// order — a parent before its children, children in declaration order —
/// each seeing the arena as the nodes before it left it.
pub open spec fn update_pass(nodes: Seq<ContainerView>, a: Seq<PropVal>) -> (Seq<ContainerView>, Seq<
    PropVal,
>)
    decreases nodes.len(),
{
    if nodes.len() == 0 {
        (Seq::empty(), a)
    } else {
        let r = update_pass(nodes.drop_last(), a);
        let rn = update_node_spec(nodes.last(), r.1);
        (r.0.push(rn.0), rn.1)
    }
}

/// Redundant-update law: one update settles a node. A second update of
/// the same node — within the same tick or on any later tick in which
/// nothing else touched its properties — changes neither the node, nor
/// the arena, nor the state. With the idempotence of the steady state
/// this extends over every sequence of ticks.
pub proof fn lemma_update_node_idempotent(c: ContainerView, a: Seq<PropVal>)
    requires
        cv_wf(c, a),
    ensures
        ({
            let r = update_node_spec(c, a);
            update_node_spec(r.0, r.1) == r
        }),
{
    match c.state {
        None => {},
        Some(WidgetStateView::TextBox(st)) => {
            let c0 = ContainerView { state: None, ..c };
            assert(cv_wf(c0, a));
            let r1 = text_box_update_spec(st, c0, a);
            let st1 = TextBoxStateView {
                focused: pulled_focus(c0, a, st.focused),
                ..st
            };
            let r = update_node_spec(c, a);
            let c0b = ContainerView { state: None, ..r.0 };
            match resolved_prop(c0, a, PropertyKind::Label) {
                Some(PropVal::Label(l)) => {
                    if l == st1.text {
                        assert(c0b =~= c0);
                        assert(update_node_spec(r.0, r.1) == r);
                    } else if st1.updated {
                        let w = set_resolved(c0, a, PropVal::Label(st1.text));
                        lemma_set_resolved_reads_back(c0, a, PropVal::Label(st1.text));
                        assert(c0b =~= w.0);
                        assert(resolved_prop(c0b, w.1, PropertyKind::Label)
                            == Some(PropVal::Label(st1.text)));
                        assert(resolved_prop(c0b, w.1, PropertyKind::Focused)
                            == resolved_prop(c0, a, PropertyKind::Focused));
                        assert(update_node_spec(r.0, r.1) == r);
                    } else {
                        assert(c0b =~= c0);
                        assert(update_node_spec(r.0, r.1) == r);
                    }
                },
                _ => {
                    assert(c0b =~= c0);
                    assert(update_node_spec(r.0, r.1) == r);
                },
            }
        },
    }
}

/// One update tick of one container.
fn update_node(node: &mut WidgetContainer, arena: &mut PropertyArena)
    requires
        old(node).wf(old(arena)@),
    ensures
        final(node).wf(final(arena)@),
        same_kinds(old(arena)@, final(arena)@),
        (final(node)@, final(arena)@) == update_node_spec(old(node)@, old(arena)@),
{
    match node.state.take() {
        Some(WidgetState::TextBox(mut st)) => {
            proof {
                assert(node@ =~= (ContainerView { state: None, ..old(node)@ }));
                assert(node.wf(arena@));
            }
            st.update(node, arena);
            node.state = Some(WidgetState::TextBox(st));
            proof {
                let r = text_box_update_spec(
                    old(node)@.state->Some_0->TextBox_0,
                    (ContainerView { state: None, ..old(node)@ }),
                    old(arena)@,
                );
                assert(node@ =~= (ContainerView {
                    state: Some(WidgetStateView::TextBox(r.0)),
                    ..r.1
                }));
            }
        },
        None => {},
    }
}

impl WidgetTree {
    /// The state-update phase of one tick: invoke the state of every
    /// widget that declares one, in tree order, unconditionally.
    pub fn update(&mut self, arena: &mut PropertyArena)
        requires
            old(self).wf(old(arena)@),
        ensures
            final(self).wf(final(arena)@),
            same_kinds(old(arena)@, final(arena)@),
            views_of(final(self).nodes@) == update_pass(views_of(old(self).nodes@), old(arena)@).0,
            final(arena)@ == update_pass(views_of(old(self).nodes@), old(arena)@).1,
    {
        let ghost vs0 = views_of(old(self).nodes@);
        let ghost a0 = old(arena)@;
        proof {
            assert(vs0.subrange(0, 0) =~= Seq::<ContainerView>::empty());
            assert(views_of(self.nodes@).subrange(0, 0) =~= Seq::<ContainerView>::empty());
        }
        let mut i: usize = 0;
        while i < self.nodes.len()
            invariant
                vs0 == views_of(old(self).nodes@),
                a0 == old(arena)@,
                self.nodes@.len() == vs0.len(),
                i <= vs0.len(),
                same_kinds(a0, arena@),
                views_of(self.nodes@).subrange(0, i as int) == update_pass(
                    vs0.subrange(0, i as int),
                    a0,
                ).0,
                arena@ == update_pass(vs0.subrange(0, i as int), a0).1,
                forall|j: int| i <= j < vs0.len() ==> self.nodes@[j] == old(self).nodes@[j],
                forall|j: int|
                    0 <= j < vs0.len() ==> (#[trigger] self.nodes@[j]).wf(arena@),
            decreases vs0.len() - i,
        {
            let ghost nodes_before = self.nodes@;
            let ghost a_before = arena@;
            let node = &mut self.nodes[i];
            update_node(node, arena);
            proof {
                let pre = vs0.subrange(0, i + 1 as int);
                assert(pre.drop_last() =~= vs0.subrange(0, i as int));
                assert(pre.last() == vs0[i as int]);
                assert(nodes_before[i as int]@ == vs0[i as int]);
                assert(views_of(self.nodes@).subrange(0, i + 1 as int) =~= update_pass(
                    pre,
                    a0,
                ).0);
                assert(same_kinds(a0, arena@));
                assert forall|j: int|
                    0 <= j < vs0.len() implies (#[trigger] self.nodes@[j]).wf(arena@) by {
                    if j != i {
                        assert(self.nodes@[j] == nodes_before[j]);
                        assert(nodes_before[j].wf(a_before));
                        lemma_cv_wf_arena_kind_update(nodes_before[j]@, a_before, arena@);
                    }
                }
            }
            i = i + 1;
        }
        proof {
            assert(vs0.subrange(0, vs0.len() as int) =~= vs0);
            assert(views_of(self.nodes@).subrange(0, vs0.len() as int) =~= views_of(
                self.nodes@,
            ));
        }
    }

    /// Deliver one key-down event to the widget the input collaborator
    /// targeted. Callbacks run in registration order; the first one that
    /// consumes the event stops the chain. Only that widget's state is
    /// touched; whether an unconsumed event is forwarded is the embedding
    /// runtime's propagation policy.
    pub fn dispatch_key(&mut self, target: usize, key: Key) -> (consumed: bool)
        requires
            target < old(self).nodes@.len(),
        ensures
            views_of(final(self).nodes@) == views_of(old(self).nodes@).update(
                target as int,
                dispatch_node(views_of(old(self).nodes@)[target as int], key),
            ),
            consumed == run_key_actions(
                views_of(old(self).nodes@)[target as int].key_actions,
                key,
                views_of(old(self).nodes@)[target as int].state,
            ).1,
            forall|a: Seq<PropVal>| old(self).wf(a) ==> final(self).wf(a),
    {
        let node = &mut self.nodes[target];
        let consumed = node.dispatch_key_down(key);
        proof {
            assert(views_of(self.nodes@) =~= views_of(old(self).nodes@).update(
                target as int,
                dispatch_node(views_of(old(self).nodes@)[target as int], key),
            ));
            assert forall|a: Seq<PropVal>| old(self).wf(a) implies self.wf(a) by {
                assert forall|j: int|
                    0 <= j < self.nodes@.len() && old(self).wf(a) implies (#[trigger] self.nodes@[j]).wf(
                    a,
                ) by {
                    assert(old(self).nodes@[j].wf(a));
                    if j == target {
                        assert(self.nodes@[j].properties == old(self).nodes@[j].properties);
                        assert(self.nodes@[j]@.shared == old(self).nodes@[j]@.shared);
                    }
                }
            }
        }
        consumed
    }
}

/// The container view after one event is delivered to it.
pub open spec fn dispatch_node(c: ContainerView, key: Key) -> ContainerView {
    ContainerView { state: run_key_actions(c.key_actions, key, c.state).0, ..c }
}

/// One pending input event: the key and the node the focus or hit-test
/// collaborator targeted.
#[derive(Clone, Copy, PartialEq, Eq, Structural, Debug)]
pub struct KeyInput {
    pub target: usize,
    pub key: Key,
}

/// The event phase of one tick: deliver each pending event, in order, to
/// its target node. An event whose target is out of range is dropped.
pub open spec fn dispatch_pass(nodes: Seq<ContainerView>, events: Seq<KeyInput>) -> Seq<
    ContainerView,
>
    decreases events.len(),
{
    if events.len() == 0 {
        nodes
    } else {
        let prev = dispatch_pass(nodes, events.drop_last());
        let e = events.last();
        if e.target < prev.len() {
            prev.update(e.target as int, dispatch_node(prev[e.target as int], e.key))
        } else {
            prev
        }
    }
}

impl WidgetTree {
    /// One tick: the event phase — every pending event delivered to its
    /// target, in order — followed by the state-update phase over the
    /// whole tree in tree order. Once a tick's update phase is done the
    /// properties are settled until the next tick.
    pub fn tick(&mut self, arena: &mut PropertyArena, events: &Vec<KeyInput>)
        requires
            old(self).wf(old(arena)@),
        ensures
            final(self).wf(final(arena)@),
            same_kinds(old(arena)@, final(arena)@),
            views_of(final(self).nodes@) == update_pass(
                dispatch_pass(views_of(old(self).nodes@), events@),
                old(arena)@,
            ).0,
            final(arena)@ == update_pass(
                dispatch_pass(views_of(old(self).nodes@), events@),
                old(arena)@,
            ).1,
    {
        let ghost vs0 = views_of(self.nodes@);
        let mut i: usize = 0;
        while i < events.len()
            invariant
                vs0 == views_of(old(self).nodes@),
                i <= events@.len(),
                self.nodes@.len() == views_of(self.nodes@).len(),
                arena@ == old(arena)@,
                views_of(self.nodes@) == dispatch_pass(vs0, events@.subrange(0, i as int)),
                self.wf(arena@),
            decreases events@.len() - i,
        {
            proof {
                assert(dispatch_pass(vs0, events@.subrange(0, 0)) == vs0);
            }
            let e = events[i];
            if e.target < self.nodes.len() {
                let _consumed = self.dispatch_key(e.target, e.key);
            }
            proof {
                let pre = events@.subrange(0, i + 1 as int);
                assert(pre.drop_last() =~= events@.subrange(0, i as int));
                assert(pre.last() == events@[i as int]);
                assert(views_of(self.nodes@) =~= dispatch_pass(vs0, pre));
            }
            i = i + 1;
        }
        proof {
            assert(events@.subrange(0, 0) =~= Seq::<KeyInput>::empty());
            assert(events@.subrange(0, events@.len() as int) =~= events@);
        }
        self.update(arena);
    }
}

/// The whole template tree is well-formed against the arena: every node's
/// bag has distinct kinds, its handles are valid, and no kind is reachable
/// twice from one node.
pub open spec fn template_wf(t: Template, a: Seq<PropVal>) -> bool
    decreases t,
{
    &&& t.properties.wf()
    &&& cv_wf(node_view_of(t), a)
    &&& children_wf(t.children@, a)
}

/// Tree well-formedness over a sequence of sibling templates.
pub open spec fn children_wf(ts: Seq<Template>, a: Seq<PropVal>) -> bool
    decreases ts,
{
    if ts.len() == 0 {
        true
    } else {
        children_wf(ts.drop_last(), a) && template_wf(ts.last(), a)
    }
}

/// Every container view a well-formed template flattens into is itself
/// well-formed against the arena.
proof fn lemma_flatten_wf(t: Template, a: Seq<PropVal>)
    requires
        template_wf(t, a),
    ensures
        forall|i: int|
            0 <= i < flatten_template(t).len() ==> cv_wf(#[trigger] flatten_template(t)[i], a),
    decreases t,
{
    lemma_flatten_children_wf(t.children@, a);
    assert forall|i: int|
        0 <= i < flatten_template(t).len() implies cv_wf(#[trigger] flatten_template(t)[i], a) by {
        if i == 0 {
            assert(flatten_template(t)[0] == node_view_of(t));
        } else {
            assert(flatten_template(t)[i] == flatten_children(t.children@)[i - 1]);
        }
    }
}

/// Sibling version of `lemma_flatten_wf`.
proof fn lemma_flatten_children_wf(ts: Seq<Template>, a: Seq<PropVal>)
    requires
        children_wf(ts, a),
    ensures
        forall|i: int|
            0 <= i < flatten_children(ts).len() ==> cv_wf(#[trigger] flatten_children(ts)[i], a),
    decreases ts,
{
    if ts.len() == 0 {
    } else {
        lemma_flatten_children_wf(ts.drop_last(), a);
        lemma_flatten_wf(ts.last(), a);
        let head = flatten_children(ts.drop_last());
        let tail = flatten_template(ts.last());
        assert forall|i: int|
            0 <= i < flatten_children(ts).len() implies cv_wf(
            #[trigger] flatten_children(ts)[i],
            a,
        ) by {
            if i < head.len() {
                assert(flatten_children(ts)[i] == head[i]);
            } else {
                assert(flatten_children(ts)[i] == tail[i - head.len()]);
            }
        }
    }
}

/// The single container a template node itself is instantiated into.
fn node_of_template(t: &Template) -> (node: WidgetContainer)
    requires
        t.properties.wf(),
    ensures
        node@ == node_view_of(*t),
        node.properties.wf(),
{
    let state = match &t.state {
        Some(s) => Some(s.duplicate()),
        None => None,
    };
    let node = WidgetContainer {
        properties: t.properties.duplicate(),
        shared: copy_handles(&t.shared_properties),
        state,
        key_actions: flatten_handlers(&t.event_handlers),
        child_count: t.children.len(),
        debug_name: t.debug_name.clone(),
    };
    proof {
        assert(node@ =~= node_view_of(*t));
    }
    node
}

/// Append the pre-order expansion of `t` to `out`.
fn push_subtree(t: &Template, out: &mut Vec<WidgetContainer>)
    requires
        template_bags_wf(*t),
    ensures
        views_of(final(out)@) == views_of(old(out)@) + flatten_template(*t),
        forall|j: int| 0 <= j < old(out)@.len() ==> final(out)@[j] == old(out)@[j],
        final(out)@.len() >= old(out)@.len(),
        forall|j: int|
            old(out)@.len() <= j < final(out)@.len() ==> (#[trigger] final(out)@[j]).properties.wf(),
    decreases *t,
{
    let node = node_of_template(t);
    out.push(node);
    let ghost base = old(out)@;
    proof {
        assert(views_of(out@) =~= views_of(base) + seq![node_view_of(*t)]);
        assert(flatten_children(t.children@.subrange(0, 0)) =~= Seq::<ContainerView>::empty());
        assert(views_of(out@) =~= views_of(base) + seq![node_view_of(*t)] + flatten_children(
            t.children@.subrange(0, 0),
        ));
    }
    let mut i: usize = 0;
    while i < t.children.len()
        invariant
            template_bags_wf(*t),
            i <= t.children@.len(),
            base == old(out)@,
            views_of(out@) == views_of(base) + seq![node_view_of(*t)] + flatten_children(
                t.children@.subrange(0, i as int),
            ),
            forall|j: int| 0 <= j < base.len() ==> out@[j] == base[j],
            out@.len() >= base.len(),
            forall|j: int|
                base.len() <= j < out@.len() ==> (#[trigger] out@[j]).properties.wf(),
        decreases t.children@.len() - i,
    {
        proof {
            lemma_children_bags_wf_index(t.children@, i as int);
        }
        push_subtree(&t.children[i], out);
        proof {
            let pre = t.children@.subrange(0, i + 1 as int);
            assert(pre.drop_last() =~= t.children@.subrange(0, i as int));
            assert(pre.last() == t.children@[i as int]);
            assert(views_of(out@) =~= views_of(base) + seq![node_view_of(*t)] + flatten_children(
                pre,
            ));
        }
        i = i + 1;
    }
    proof {
        assert(t.children@.subrange(0, t.children@.len() as int) =~= t.children@);
        assert(views_of(out@) =~= views_of(base) + flatten_template(*t));
    }
}

} // verus!
