//! What holds of every run of the engine, proved over its model.

use crate::bus::error::{
    fully_resolved, source_of, BaseFireEventError, CallNode, FireEventError, Resolution,
};
use crate::bus::model::{
    begin, failed, forwarded, holder, holding, lemma_holder_found, nested, no_handler,
    not_holding, of_other_types, of_type, pool_claims, returned, shaped, succeeded, with_child,
    Effect, Engine, FrameModel,
};
use crate::dyn_var::DynVar;
use crate::event::{attached, HandlerEntry};
use crate::stop::BusStopContainer;
use std::any::TypeId;
use vstd::multiset::Multiset;
use vstd::prelude::*;
use vstd::seq_lib::{to_multiset_build, to_multiset_remove};

verus! {

/// A call of an event that no stop in the pool answers ends at once, as a
/// failure: its node is resolved as unhandled and gets no children, no frame
/// is opened and the pool stays as it was.
pub proof fn law_no_handler<H>(
    pool: Seq<BusStopContainer<H>>,
    def: TypeId,
    args: DynVar,
    node: CallNode,
)
    requires
        pool_claims(pool, def) == 0,
    ensures
        begin(pool, def, args, node).0 == (Engine { pool, frames: Seq::empty() }),
        begin(pool, def, args, node).1 == Effect::Done(None, no_handler(node)),
        no_handler(node).resolution == Some(
            Resolution::BusError(FireEventError { err: BaseFireEventError::NoHandler }),
        ),
        no_handler(node).inner == node.inner,
        source_of(no_handler(node)) == Some(no_handler(node)),
{
}

/// A call whose handler returns without calling anything ends as a success:
/// the value comes back, the root of the trace is resolved as `Success` and
/// holds the text of the value, and the stop is in the pool again.
pub proof fn law_single_level<H>(
    pool: Seq<BusStopContainer<H>>,
    def: TypeId,
    args: DynVar,
    node: CallNode,
    value: DynVar,
)
    requires
        pool_claims(pool, def) == 1,
    ensures
        ({
            let started = begin(pool, def, args, node);
            let ended = returned(started.0, value);
            let k = holder(pool, def);
            &&& 0 <= k < pool.len()
            &&& started.1 == (Effect::Launch { def, args })
            &&& ended.1 == Effect::Done(Some(value), succeeded(node, value))
            &&& succeeded(node, value).resolution == Some(Resolution::Success)
            &&& succeeded(node, value).return_v == Some(value.snapshot_text())
            &&& succeeded(node, value).inner == node.inner
            &&& ended.0.frames.len() == 0
            &&& ended.0.pool == pool.remove(k).push(pool[k])
        }),
{
    lemma_holder_found(pool, def);
}

/// A handler that calls a second event and then returns: the node of the
/// nested call is resolved as `Success` and stands as the one child of the
/// root while the root is still unresolved; the root is resolved as
/// `Success` only when the outer handler returns.
pub proof fn law_nested_call<H>(
    pool: Seq<BusStopContainer<H>>,
    outer: TypeId,
    outer_args: DynVar,
    outer_node: CallNode,
    inner: TypeId,
    inner_args: DynVar,
    inner_node: CallNode,
    inner_value: DynVar,
    outer_value: DynVar,
)
    requires
        pool_claims(pool, outer) == 1,
        pool_claims(begin(pool, outer, outer_args, outer_node).0.pool, inner) == 1,
        outer_node.inner.len() == 0,
        outer_node.resolution is None,
    ensures
        ({
            let s1 = begin(pool, outer, outer_args, outer_node);
            let s2 = nested(s1.0, inner, inner_args, inner_node);
            let s3 = returned(s2.0, inner_value);
            let s4 = returned(s3.0, outer_value);
            let child = succeeded(inner_node, inner_value);
            &&& s2.1 == (Effect::Launch { def: inner, args: inner_args })
            &&& s3.1 == Effect::Respond(Ok(inner_value))
            &&& s3.0.frames.len() == 1
            &&& s3.0.frames[0].trace.inner == seq![child]
            &&& s3.0.frames[0].trace.resolution is None
            &&& child.resolution == Some(Resolution::Success)
            &&& s4.1 matches Effect::Done(Some(v), root)
            &&& v == outer_value
            &&& root.resolution == Some(Resolution::Success)
            &&& root.inner == seq![child]
        }),
{
    let s1 = begin(pool, outer, outer_args, outer_node);
    let s2 = nested(s1.0, inner, inner_args, inner_node);
    let s3 = returned(s2.0, inner_value);
    let child = succeeded(inner_node, inner_value);
    assert(s1.0.frames.len() == 1);
    assert(s2.0.frames.len() == 2);
    assert(s3.0.frames.len() == 1);
    assert(s3.0.frames[0].trace.inner =~= seq![child]);
}

/// A handler that gives up and passes on the failure `error`: its node is
/// resolved as a nested failure and gets `error` as its last child, and the
/// origin of the failure is found below it, where `error` has it.
pub proof fn law_forwarding<H>(
    pool: Seq<BusStopContainer<H>>,
    def: TypeId,
    args: DynVar,
    node: CallNode,
    error: CallNode,
)
    requires
        pool_claims(pool, def) == 1,
    ensures
        ({
            let s1 = begin(pool, def, args, node);
            let s2 = forwarded(s1.0, error);
            &&& s2.1 matches Effect::Done(None, root)
            &&& root.resolution == Some(Resolution::NestedCallError)
            &&& root.inner == node.inner.push(error)
            &&& (node.inner.len() == 0 ==> root.inner == seq![error])
            &&& source_of(root) == source_of(error)
            &&& (error.resolution matches Some(Resolution::BusError(_)) ==> source_of(root)
                == Some(error))
        }),
{
    let root = failed(node, error);
    assert(root.inner[root.inner.len() - 1] == error);
    if node.inner.len() == 0 {
        assert(root.inner =~= seq![error]);
    }
}

/// A failure that is passed on through every level of a chain of calls: the
/// innermost event has no handler, the handler in the middle passes the
/// failure on, and so does the outermost. The trace that comes out leads
/// from the root through the passing nodes to the unhandled call, which is
/// what the origin of the failure is.
pub proof fn law_forwarding_chain<H>(
    pool: Seq<BusStopContainer<H>>,
    outer: TypeId,
    outer_args: DynVar,
    outer_node: CallNode,
    middle: TypeId,
    middle_args: DynVar,
    middle_node: CallNode,
    inner: TypeId,
    inner_args: DynVar,
    inner_node: CallNode,
)
    requires
        pool_claims(pool, outer) == 1,
        pool_claims(begin(pool, outer, outer_args, outer_node).0.pool, middle) == 1,
        pool_claims(
            nested(
                begin(pool, outer, outer_args, outer_node).0,
                middle,
                middle_args,
                middle_node,
            ).0.pool,
            inner,
        ) == 0,
        outer_node.inner.len() == 0,
        middle_node.inner.len() == 0,
    ensures
        ({
            let s1 = begin(pool, outer, outer_args, outer_node);
            let s2 = nested(s1.0, middle, middle_args, middle_node);
            let s3 = nested(s2.0, inner, inner_args, inner_node);
            let lost = no_handler(inner_node);
            let s4 = forwarded(s3.0, lost);
            let passed = failed(middle_node, lost);
            let s5 = forwarded(s4.0, passed);
            &&& s3.1 == Effect::Respond(Err(lost))
            &&& s3.0 == s2.0
            &&& s4.1 == Effect::Respond(Err(passed))
            &&& s5.1 matches Effect::Done(None, root)
            &&& root.resolution == Some(Resolution::NestedCallError)
            &&& root.inner == seq![passed]
            &&& passed.resolution == Some(Resolution::NestedCallError)
            &&& passed.inner == seq![lost]
            &&& source_of(root) == Some(lost)
        }),
{
    let s1 = begin(pool, outer, outer_args, outer_node);
    let s2 = nested(s1.0, middle, middle_args, middle_node);
    let s3 = nested(s2.0, inner, inner_args, inner_node);
    let lost = no_handler(inner_node);
    let s4 = forwarded(s3.0, lost);
    let passed = failed(middle_node, lost);
    let s5 = forwarded(s4.0, passed);
    let root = failed(outer_node, passed);
    assert(s1.0.frames.len() == 1);
    assert(s2.0.frames.len() == 2);
    assert(s4.0.frames.len() == 1);
    assert(passed.inner =~= seq![lost]);
    assert(root.inner =~= seq![passed]);
    assert(passed.inner[passed.inner.len() - 1] == lost);
    assert(root.inner[root.inner.len() - 1] == passed);
    assert(source_of(lost) == Some(lost));
    assert(source_of(passed) == Some(lost));
    assert(source_of(root) == Some(lost));
}

/// A stop that is registered and taken out again by its type, with no other
/// stop of that type in the pool, comes back alone and as it went in, and
/// the pool is left as it was before, without any stop of that type.
pub proof fn law_register_deregister<H>(pool: Seq<BusStopContainer<H>>, stop: BusStopContainer<H>)
    requires
        forall|i: int|
            0 <= i < pool.len() ==> (#[trigger] pool[i]).inner.type_identity()
                != stop.inner.type_identity(),
    ensures
        of_type(pool.push(stop), stop.inner.type_identity()) == seq![stop],
        of_other_types(pool.push(stop), stop.inner.type_identity()) == pool,
        of_type(pool, stop.inner.type_identity()).len() == 0,
{
    let id = stop.inner.type_identity();
    lemma_other_types_only(pool, id);
    assert(pool.push(stop).drop_last() =~= pool);
    assert(of_type(pool.push(stop), id) =~= seq![stop]);
}

/// An instance that is registered and taken out again by its type, with no
/// other instance of that type in the pool, comes back alone and as it went
/// in: the one stop that is taken is the one that was registered, what it
/// holds is the instance, and the pool is left as it was before.
pub proof fn law_instance_comes_back<H, T: 'static>(
    pool: Seq<BusStopContainer<H>>,
    stop: BusStopContainer<H>,
    instance: T,
)
    requires
        stop.inner.holds(instance),
        forall|i: int| 0 <= i < pool.len() ==> !(#[trigger] pool[i]).inner.is_a::<T>(),
    ensures
        holding::<H, T>(pool.push(stop)) == seq![stop],
        not_holding::<H, T>(pool.push(stop)) == pool,
        forall|other: T| stop.inner.holds_only(other) ==> other == instance,
{
    lemma_none_holding::<H, T>(pool);
    assert(pool.push(stop).drop_last() =~= pool);
    assert(stop.inner.is_a::<T>());
    assert(holding::<H, T>(pool.push(stop)) =~= seq![stop]);
}

/// A pool without an instance of some type loses nothing when the instances
/// of that type are taken out.
pub proof fn lemma_none_holding<H, T: 'static>(pool: Seq<BusStopContainer<H>>)
    requires
        forall|i: int| 0 <= i < pool.len() ==> !(#[trigger] pool[i]).inner.is_a::<T>(),
    ensures
        holding::<H, T>(pool).len() == 0,
        not_holding::<H, T>(pool) == pool,
    decreases pool.len(),
{
    if pool.len() > 0 {
        let rest = pool.drop_last();
        assert forall|i: int| 0 <= i < rest.len() implies !(#[trigger] rest[i]).inner.is_a::<T>() by {
            assert(rest[i] == pool[i]);
        }
        lemma_none_holding::<H, T>(rest);
        assert(pool.last() == pool[pool.len() - 1]);
        assert(rest.push(pool.last()) =~= pool);
    } else {
        assert(not_holding::<H, T>(pool) =~= pool);
    }
}

/// A pool without a stop of some type loses nothing when the stops of that type are taken out.
pub proof fn lemma_other_types_only<H>(pool: Seq<BusStopContainer<H>>, id: TypeId)
    requires
        forall|i: int| 0 <= i < pool.len() ==> (#[trigger] pool[i]).inner.type_identity() != id,
    ensures
        of_type(pool, id).len() == 0,
        of_other_types(pool, id) == pool,
    decreases pool.len(),
{
    if pool.len() > 0 {
        let rest = pool.drop_last();
        assert forall|i: int| 0 <= i < rest.len() implies (#[trigger] rest[i]).inner.type_identity()
            != id by {
            assert(rest[i] == pool[i]);
        }
        lemma_other_types_only(rest, id);
        assert(pool.last() == pool[pool.len() - 1]);
        assert(rest.push(pool.last()) =~= pool);
    } else {
        assert(of_other_types(pool, id) =~= pool);
    }
}

/// Whenever the engine asks for a handler to be started, the stop on top is
/// one that answers the event: the handler to start is in its table.
pub proof fn law_started_stop_answers<H>(e: Engine<H>, def: TypeId, args: DynVar, node: CallNode)
    requires
        shaped(e.frames),
    ensures
        begin(e.pool, def, args, node).1 is Launch ==> begin(
            e.pool,
            def,
            args,
            node,
        ).0.frames.last().handler.claims(def) >= 1,
        nested(e, def, args, node).1 is Launch ==> nested(
            e,
            def,
            args,
            node,
        ).0.frames.last().handler.claims(def) >= 1,
{
    if pool_claims(e.pool, def) >= 1 {
        lemma_holder_found(e.pool, def);
    }
}

/// A handler has one request open at a time: once the call it asked for has
/// started, its frame waits below the frame of that call, and only the frame
/// on top is polled. The handler is ready again when, and only when, the
/// engine answers it.
pub proof fn law_one_request_at_a_time<H>(
    e: Engine<H>,
    def: TypeId,
    args: DynVar,
    node: CallNode,
)
    requires
        shaped(e.frames),
        node.resolution is None,
        pool_claims(e.pool, def) == 1,
    ensures
        ({
            let next = nested(e, def, args, node);
            &&& next.1 == (Effect::Launch { def, args })
            &&& next.0.frames.len() == e.frames.len() + 1
            &&& next.0.frames[e.frames.len() - 1].waiting
            &&& next.0.frames[e.frames.len() - 1].trace == e.frames.last().trace
            &&& !next.0.frames.last().waiting
            &&& shaped(next.0.frames)
        }),
{
}

/// The frames stay well shaped through every step that does not end the
/// outermost call: below the frame on top, every frame waits.
pub proof fn law_shape_kept<H>(e: Engine<H>, value: DynVar, error: CallNode)
    requires
        shaped(e.frames),
        e.frames.len() >= 2,
    ensures
        shaped(returned(e, value).0.frames),
        shaped(forwarded(e, error).0.frames),
        returned(e, value).0.frames.len() == e.frames.len() - 1,
        forwarded(e, error).0.frames.len() == e.frames.len() - 1,
{
}


/// The frames stay well shaped when the handler on top works on the instance of its stop.
pub proof fn law_shape_kept_by_handler<H>(
    frames: Seq<FrameModel<H>>,
    handler: BusStopContainer<H>,
)
    requires
        shaped(frames),
    ensures
        shaped(frames.drop_last().push(FrameModel { handler, ..frames.last() })),
{
    let after = frames.drop_last().push(FrameModel { handler, ..frames.last() });
    assert forall|i: int| 0 <= i < after.len() implies (#[trigger] after[i]).waiting == (i
        < after.len() - 1) && after[i].trace.resolution is None by {
        if i < after.len() - 1 {
            assert(after[i] == frames[i]);
        } else {
            assert(frames[i] == frames.last());
        }
    }
}

/// Every call below the node `n` has its resolution, and so has all that is below them.
pub open spec fn children_resolved(n: CallNode) -> bool {
    forall|i: int| 0 <= i < n.inner.len() ==> fully_resolved(#[trigger] n.inner[i])
}

/// The calls in progress are settled below: of every frame, the nested calls
/// that are recorded have ended.
pub open spec fn settled<H>(frames: Seq<FrameModel<H>>) -> bool {
    forall|i: int| 0 <= i < frames.len() ==> children_resolved((#[trigger] frames[i]).trace)
}

/// A trace that the engine hands out is complete: as long as every call
/// starts with a node whose recorded calls have ended, and handlers pass on
/// only failures that are complete, each answer to a handler and the trace
/// that ends the outermost call have a resolution at every node, so that they
/// can be shown.
pub proof fn law_traces_complete<H>(
    e: Engine<H>,
    def: TypeId,
    args: DynVar,
    node: CallNode,
    value: DynVar,
    error: CallNode,
)
    requires
        shaped(e.frames),
        settled(e.frames),
        children_resolved(node),
        fully_resolved(error),
    ensures
        complete(begin(e.pool, def, args, node)),
        complete(nested(e, def, args, node)),
        complete(returned(e, value)),
        complete(forwarded(e, error)),
{
    let top = e.frames.last();
    assert(children_resolved(top.trace));
    let done = succeeded(top.trace, value);
    assert(fully_resolved(done)) by {
        assert forall|i: int| 0 <= i < done.inner.len() implies fully_resolved(
            #[trigger] done.inner[i],
        ) by {
            assert(done.inner[i] == top.trace.inner[i]);
        }
    }
    let lost = failed(top.trace, error);
    assert(fully_resolved(lost)) by {
        assert forall|i: int| 0 <= i < lost.inner.len() implies fully_resolved(
            #[trigger] lost.inner[i],
        ) by {
            if i < top.trace.inner.len() {
                assert(lost.inner[i] == top.trace.inner[i]);
            }
        }
    }
    assert(fully_resolved(no_handler(node))) by {
        assert forall|i: int| 0 <= i < no_handler(node).inner.len() implies fully_resolved(
            #[trigger] no_handler(node).inner[i],
        ) by {
            assert(no_handler(node).inner[i] == node.inner[i]);
        }
    }
    assert(settled(begin(e.pool, def, args, node).0.frames));
    assert(settled(nested(e, def, args, node).0.frames)) by {
        let after = nested(e, def, args, node).0.frames;
        assert forall|i: int| 0 <= i < after.len() implies children_resolved(
            (#[trigger] after[i]).trace,
        ) by {
            if pool_claims(e.pool, def) != 0 {
                if i < e.frames.len() - 1 {
                    assert(after[i] == e.frames[i]);
                } else if i == e.frames.len() - 1 {
                    assert(after[i].trace == e.frames[i].trace);
                }
            }
        }
    }
    if e.frames.len() >= 2 {
        let parent = e.frames[e.frames.len() - 2];
        assert(children_resolved(parent.trace));
        let grown = with_child(parent.trace, done);
        assert(children_resolved(grown)) by {
            assert forall|i: int| 0 <= i < grown.inner.len() implies fully_resolved(
                #[trigger] grown.inner[i],
            ) by {
                if i < parent.trace.inner.len() {
                    assert(grown.inner[i] == parent.trace.inner[i]);
                }
            }
        }
        assert(settled(returned(e, value).0.frames)) by {
            let after = returned(e, value).0.frames;
            assert forall|i: int| 0 <= i < after.len() implies children_resolved(
                (#[trigger] after[i]).trace,
            ) by {
                if i < e.frames.len() - 2 {
                    assert(after[i] == e.frames[i]);
                }
            }
        }
        assert(settled(forwarded(e, error).0.frames)) by {
            let after = forwarded(e, error).0.frames;
            assert forall|i: int| 0 <= i < after.len() implies children_resolved(
                (#[trigger] after[i]).trace,
            ) by {
                if i < e.frames.len() - 2 {
                    assert(after[i] == e.frames[i]);
                } else {
                    assert(after[i].trace == parent.trace);
                }
            }
        }
    }
}

/// What a step leaves behind is complete: the calls still in progress are
/// settled below, and a trace that is handed out has a resolution at every node.
pub open spec fn complete<H>(next: (Engine<H>, Effect)) -> bool {
    &&& settled(next.0.frames)
    &&& match next.1 {
        Effect::Launch { .. } => true,
        Effect::Respond(Ok(_)) => true,
        Effect::Respond(Err(n)) => fully_resolved(n),
        Effect::Done(_, n) => fully_resolved(n),
    }
}

/// Whether two tables hold the same entries in the same order: the same
/// events, handlers and texts.
pub open spec fn same_table<H>(a: Seq<HandlerEntry<H>>, b: Seq<HandlerEntry<H>>) -> bool {
    &&& a.len() == b.len()
    &&& forall|i: int|
        0 <= i < a.len() ==> (#[trigger] a[i]).event == b[i].event && a[i].handler == b[i].handler
            && a[i].label@ == b[i].label@
}

/// Building a table is repeatable: the same entry attached to the same table
/// gives the same table, so that a table built twice by the same calls is
/// the same both times, in order and content.
pub proof fn law_registration_repeats<H>(
    a: Seq<HandlerEntry<H>>,
    b: Seq<HandlerEntry<H>>,
    ra: Seq<HandlerEntry<H>>,
    rb: Seq<HandlerEntry<H>>,
    event: TypeId,
    func: H,
    name: Seq<char>,
    args_t: Seq<char>,
    return_t: Seq<char>,
)
    requires
        same_table(a, b),
        attached(a, ra, event, func, name, args_t, return_t),
        attached(b, rb, event, func, name, args_t, return_t),
    ensures
        same_table(ra, rb),
{
    assert forall|i: int| 0 <= i < ra.len() implies (#[trigger] ra[i]).event == rb[i].event
        && ra[i].handler == rb[i].handler && ra[i].label@ == rb[i].label@ by {
        if i < a.len() {
            assert(ra[i] == ra.drop_last()[i]);
            assert(rb[i] == rb.drop_last()[i]);
        } else {
            assert(ra[i] == ra.last());
            assert(rb[i] == rb.last());
        }
    }
}


/// Without a call in progress no stop is in flight.
pub proof fn lemma_none_in_flight<H>()
    ensures
        Seq::<BusStopContainer<H>>::empty().to_multiset() == Multiset::<
            BusStopContainer<H>,
        >::empty(),
{
    let none = Seq::<BusStopContainer<H>>::empty();
    none.to_multiset_ensures();
    assert forall|c: BusStopContainer<H>| none.to_multiset().count(c) == 0 by {
        assert(!none.contains(c));
    }
    assert(none.to_multiset() =~= Multiset::empty());
}

/// The stops that run the calls in progress, the outermost first.
pub open spec fn stops_in_flight<H>(frames: Seq<FrameModel<H>>) -> Seq<BusStopContainer<H>> {
    Seq::new(frames.len(), |i: int| frames[i].handler)
}

/// Every stop that the engine holds: those in the pool and those that run a call.
pub open spec fn all_stops<H>(e: Engine<H>) -> Multiset<BusStopContainer<H>> {
    e.pool.to_multiset().add(stops_in_flight(e.frames).to_multiset())
}

/// No step makes or loses a stop: a stop is either in the pool or runs one
/// call. When a call starts, the stop that answers it moves from the pool to
/// the frame of the call, and when the handler returns or gives up, it moves
/// back; nothing else changes where a stop is.
pub proof fn law_stops_conserved<H>(
    e: Engine<H>,
    def: TypeId,
    args: DynVar,
    node: CallNode,
    value: DynVar,
    error: CallNode,
)
    requires
        shaped(e.frames),
    ensures
        all_stops(begin(e.pool, def, args, node).0) == e.pool.to_multiset(),
        all_stops(nested(e, def, args, node).0) == all_stops(e),
        all_stops(returned(e, value).0) == all_stops(e),
        all_stops(forwarded(e, error).0) == all_stops(e),
{
    let flight = stops_in_flight(e.frames);
    let top = e.frames.last();
    lemma_none_in_flight::<H>();
    assert(flight =~= flight.drop_last().push(top.handler));
    to_multiset_build(flight.drop_last(), top.handler);
    to_multiset_build(e.pool, top.handler);
    // a call starts
    if pool_claims(e.pool, def) == 0 {
        assert(stops_in_flight(Seq::<FrameModel<H>>::empty()) =~= Seq::empty());
        assert(all_stops(begin(e.pool, def, args, node).0) =~= e.pool.to_multiset());
    } else {
        lemma_holder_found(e.pool, def);
        let k = holder(e.pool, def);
        to_multiset_remove(e.pool, k);
        e.pool.to_multiset_ensures();
        assert(e.pool.contains(e.pool[k]));
        let first = begin(e.pool, def, args, node).0;
        assert(stops_in_flight(first.frames) =~= Seq::<BusStopContainer<H>>::empty().push(
            e.pool[k],
        ));
        to_multiset_build(Seq::<BusStopContainer<H>>::empty(), e.pool[k]);
        assert(all_stops(first) =~= e.pool.to_multiset());
        let next = nested(e, def, args, node).0;
        assert(stops_in_flight(next.frames) =~= flight.push(e.pool[k]));
        to_multiset_build(flight, e.pool[k]);
        assert(all_stops(next) =~= all_stops(e));
    }
    // a call ends
    if e.frames.len() == 1 {
        assert(flight.drop_last() =~= Seq::empty());
        assert(stops_in_flight(returned(e, value).0.frames) =~= Seq::empty());
        assert(stops_in_flight(forwarded(e, error).0.frames) =~= Seq::empty());
    } else {
        assert(stops_in_flight(returned(e, value).0.frames) =~= flight.drop_last());
        assert(stops_in_flight(forwarded(e, error).0.frames) =~= flight.drop_last());
    }
    assert(all_stops(returned(e, value).0) =~= all_stops(e));
    assert(all_stops(forwarded(e, error).0) =~= all_stops(e));
}

} // verus!
