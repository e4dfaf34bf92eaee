//! The model of the engine: the pool and the calls in progress as sequences,
//! and each step as a function from the state before it to the state after
//! it and what the step asks for.

use crate::bus::error::{BaseFireEventError, CallNode, FireEventError, Resolution};
use crate::dyn_var::DynVar;
use crate::stop::BusStopContainer;
use std::any::TypeId;
use vstd::prelude::*;

verus! {

/// How many entries, over all the stops of a pool, answer the event `id`.
pub open spec fn pool_claims<H>(pool: Seq<BusStopContainer<H>>, id: TypeId) -> nat
    decreases pool.len(),
{
    if pool.len() == 0 {
        0
    } else {
        pool_claims(pool.drop_last(), id) + pool.last().claims(id)
    }
}

/// The position of the first stop of a pool that answers the event `id`, or
/// the length of the pool where none does.
pub open spec fn holder<H>(pool: Seq<BusStopContainer<H>>, id: TypeId) -> int
    decreases pool.len(),
{
    if pool.len() == 0 {
        0
    } else if pool.first().claims(id) >= 1 {
        0
    } else {
        1 + holder(pool.drop_first(), id)
    }
}

/// No stop of a pool claims more than the pool as a whole.
pub proof fn lemma_claims_bound<H>(pool: Seq<BusStopContainer<H>>, id: TypeId, i: int)
    requires
        0 <= i < pool.len(),
    ensures
        pool[i].claims(id) <= pool_claims(pool, id),
    decreases pool.len(),
{
    if i < pool.len() - 1 {
        lemma_claims_bound(pool.drop_last(), id, i);
    }
}

/// A pool that claims at most one entry for an event, and holds a stop that answers it, claims one.
pub proof fn lemma_claims_one<H>(pool: Seq<BusStopContainer<H>>, id: TypeId, i: int)
    requires
        0 <= i < pool.len(),
        pool_claims(pool, id) <= 1,
        pool[i].claims(id) == 1,
    ensures
        pool_claims(pool, id) == 1,
{
    lemma_claims_bound(pool, id, i);
}

/// A pool in which no stop answers an event claims nothing for it.
pub proof fn lemma_claims_none<H>(pool: Seq<BusStopContainer<H>>, id: TypeId)
    requires
        forall|j: int| 0 <= j < pool.len() ==> (#[trigger] pool[j]).claims(id) == 0,
    ensures
        pool_claims(pool, id) == 0,
    decreases pool.len(),
{
    if pool.len() > 0 {
        assert forall|j: int| 0 <= j < pool.drop_last().len() implies (#[trigger] pool.drop_last()[j]).claims(id) == 0 by {
            assert(pool.drop_last()[j] == pool[j]);
        }
        lemma_claims_none(pool.drop_last(), id);
    }
}

/// The first stop that answers an event is found by passing over those that do not.
pub proof fn lemma_holder<H>(pool: Seq<BusStopContainer<H>>, id: TypeId, i: int)
    requires
        0 <= i <= pool.len(),
        forall|j: int| 0 <= j < i ==> (#[trigger] pool[j]).claims(id) == 0,
        i < pool.len() ==> pool[i].claims(id) >= 1,
    ensures
        holder(pool, id) == i,
    decreases pool.len(),
{
    if pool.len() > 0 && i > 0 {
        assert(pool[0].claims(id) == 0);
        let rest = pool.drop_first();
        assert forall|j: int| 0 <= j < i - 1 implies (#[trigger] rest[j]).claims(id) == 0 by {
            assert(rest[j] == pool[j + 1]);
        }
        if i < pool.len() {
            assert(rest[i - 1] == pool[i]);
        }
        lemma_holder(rest, id, i - 1);
    }
}

/// A pool that claims an event holds a stop that answers it, at the position
/// where the engine looks for it.
pub proof fn lemma_holder_found<H>(pool: Seq<BusStopContainer<H>>, def: TypeId)
    requires
        pool_claims(pool, def) >= 1,
    ensures
        0 <= holder(pool, def) < pool.len(),
        pool[holder(pool, def)].claims(def) >= 1,
    decreases pool.len(),
{
    if pool.len() > 0 && pool.first().claims(def) == 0 {
        let rest = pool.drop_first();
        lemma_claims_split(pool, def);
        lemma_holder_found(rest, def);
        assert(rest[holder(rest, def)] == pool[holder(rest, def) + 1]);
    }
}

/// The claims of a pool are those of its first stop and those of the rest.
pub proof fn lemma_claims_split<H>(pool: Seq<BusStopContainer<H>>, def: TypeId)
    requires
        pool.len() > 0,
    ensures
        pool_claims(pool, def) == pool.first().claims(def) + pool_claims(pool.drop_first(), def),
    decreases pool.len(),
{
    if pool.len() == 1 {
        assert(pool.drop_last() =~= pool.drop_first());
        assert(pool.last() == pool.first());
    } else {
        lemma_claims_split(pool.drop_last(), def);
        assert(pool.drop_last().drop_first() =~= pool.drop_first().drop_last());
        assert(pool.drop_first().last() == pool.last());
        assert(pool.drop_last().first() == pool.first());
    }
}

/// One call in progress as the model sees it: whether it waits for a call that
/// its handler made, the stop that runs it, and the node that records it.
pub ghost struct FrameModel<H> {
    pub waiting: bool,
    pub handler: BusStopContainer<H>,
    pub trace: CallNode,
}

/// The state of the engine between two steps: the pool, and the frames of
/// the calls in progress, the outermost first.
pub ghost struct Engine<H> {
    pub pool: Seq<BusStopContainer<H>>,
    pub frames: Seq<FrameModel<H>>,
}

/// What a step asks of the one who drives the engine.
pub ghost enum Effect {
    /// Start the handler of the frame that is now on top, for this event and
    /// with these arguments.
    Launch { def: TypeId, args: DynVar },
    /// Answer the call that the handler of the frame now on top is waiting
    /// for, and go on polling that handler.
    Respond(Result<DynVar, CallNode>),
    /// The outermost call has ended, with this value, if it succeeded, and this trace.
    Done(Option<DynVar>, CallNode),
}

/// The frames of calls in progress are well shaped when there is at least
/// one, only the innermost is ready to be polled, and none is resolved yet.
pub open spec fn shaped<H>(frames: Seq<FrameModel<H>>) -> bool {
    &&& frames.len() >= 1
    &&& forall|i: int| 0 <= i < frames.len() ==> (#[trigger] frames[i]).waiting == (i
        < frames.len() - 1)
    &&& forall|i: int| 0 <= i < frames.len() ==> (#[trigger] frames[i]).trace.resolution is None
}

/// The frame `f`, waiting for a nested call, or ready again.
pub open spec fn set_waiting<H>(f: FrameModel<H>, waiting: bool) -> FrameModel<H> {
    FrameModel { waiting, ..f }
}

/// The start of a call of the event `def`: without a stop that answers it the
/// call ends at once, its node resolved as unhandled; else that stop leaves
/// the pool and a frame is opened for it.
pub open spec fn begin<H>(
    pool: Seq<BusStopContainer<H>>,
    def: TypeId,
    args: DynVar,
    node: CallNode,
) -> (Engine<H>, Effect) {
    if pool_claims(pool, def) == 0 {
        (Engine { pool, frames: Seq::empty() }, Effect::Done(None, no_handler(node)))
    } else {
        let k = holder(pool, def);
        (
            Engine {
                pool: pool.remove(k),
                frames: seq![FrameModel { waiting: false, handler: pool[k], trace: node }],
            },
            Effect::Launch { def, args },
        )
    }
}

/// The handler on top asks for the event `def`: without a stop that answers
/// it, the handler gets the failure as its answer and stays on top; else its
/// frame waits below the frame of the new call.
pub open spec fn nested<H>(e: Engine<H>, def: TypeId, args: DynVar, node: CallNode) -> (
    Engine<H>,
    Effect,
) {
    if pool_claims(e.pool, def) == 0 {
        (e, Effect::Respond(Err(no_handler(node))))
    } else {
        let k = holder(e.pool, def);
        (
            Engine {
                pool: e.pool.remove(k),
                frames: e.frames.drop_last().push(set_waiting(e.frames.last(), true)).push(
                    FrameModel { waiting: false, handler: e.pool[k], trace: node },
                ),
            },
            Effect::Launch { def, args },
        )
    }
}

/// The node `n`, resolved as an event that no stop handles.
pub open spec fn no_handler(n: CallNode) -> CallNode {
    CallNode {
        resolution: Some(Resolution::BusError(FireEventError { err: BaseFireEventError::NoHandler })),
        ..n
    }
}

/// The node of a call that returned `value`.
pub open spec fn succeeded(n: CallNode, value: DynVar) -> CallNode {
    CallNode {
        resolution: Some(Resolution::Success),
        return_v: Some(value.snapshot_text()),
        ..n
    }
}

/// The node of a call whose handler passed on the failure `error`.
pub open spec fn failed(n: CallNode, error: CallNode) -> CallNode {
    CallNode { resolution: Some(Resolution::NestedCallError), inner: n.inner.push(error), ..n }
}

/// The node `n` with one more nested call.
pub open spec fn with_child(n: CallNode, child: CallNode) -> CallNode {
    CallNode { inner: n.inner.push(child), ..n }
}

/// The handler on top returned `value`: its stop goes back to the pool and
/// its node is resolved as a success. The outermost call ends with that; a
/// nested one becomes a child of its caller, who gets the value and is ready again.
pub open spec fn returned<H>(e: Engine<H>, value: DynVar) -> (Engine<H>, Effect) {
    let top = e.frames.last();
    let node = succeeded(top.trace, value);
    let pool = e.pool.push(top.handler);
    if e.frames.len() == 1 {
        (Engine { pool, frames: Seq::empty() }, Effect::Done(Some(value), node))
    } else {
        let parent = e.frames[e.frames.len() - 2];
        (
            Engine {
                pool,
                frames: e.frames.drop_last().drop_last().push(
                    FrameModel { waiting: false, trace: with_child(parent.trace, node), ..parent },
                ),
            },
            Effect::Respond(Ok(value)),
        )
    }
}

/// The handler on top gave up and passed on the failure `error`: its stop
/// goes back to the pool and its node is resolved as a nested failure, with
/// `error` as its last child. The outermost call ends with that; the caller of
/// a nested one gets the node as a failure and is ready again.
pub open spec fn forwarded<H>(e: Engine<H>, error: CallNode) -> (Engine<H>, Effect) {
    let top = e.frames.last();
    let node = failed(top.trace, error);
    let pool = e.pool.push(top.handler);
    if e.frames.len() == 1 {
        (Engine { pool, frames: Seq::empty() }, Effect::Done(None, node))
    } else {
        let parent = e.frames[e.frames.len() - 2];
        (
            Engine { pool, frames: e.frames.drop_last().drop_last().push(set_waiting(parent, false)) },
            Effect::Respond(Err(node)),
        )
    }
}

/// The stops of a pool whose instance is of the type with the identity `id`, in their order.
pub open spec fn of_type<H>(pool: Seq<BusStopContainer<H>>, id: TypeId) -> Seq<BusStopContainer<H>>
    decreases pool.len(),
{
    if pool.len() == 0 {
        Seq::empty()
    } else if pool.last().inner.type_identity() == id {
        of_type(pool.drop_last(), id).push(pool.last())
    } else {
        of_type(pool.drop_last(), id)
    }
}

/// The stops of a pool whose instance is of another type than the one with the identity `id`, in their order.
pub open spec fn of_other_types<H>(pool: Seq<BusStopContainer<H>>, id: TypeId) -> Seq<
    BusStopContainer<H>,
>
    decreases pool.len(),
{
    if pool.len() == 0 {
        Seq::empty()
    } else if pool.last().inner.type_identity() == id {
        of_other_types(pool.drop_last(), id)
    } else {
        of_other_types(pool.drop_last(), id).push(pool.last())
    }
}

/// The stops of a pool whose instance is a `T`, in their order.
pub open spec fn holding<H, T: 'static>(pool: Seq<BusStopContainer<H>>) -> Seq<BusStopContainer<H>>
    decreases pool.len(),
{
    if pool.len() == 0 {
        Seq::empty()
    } else if pool.last().inner.is_a::<T>() {
        holding::<H, T>(pool.drop_last()).push(pool.last())
    } else {
        holding::<H, T>(pool.drop_last())
    }
}

/// The stops of a pool whose instance is no `T`, in their order.
pub open spec fn not_holding<H, T: 'static>(pool: Seq<BusStopContainer<H>>) -> Seq<
    BusStopContainer<H>,
>
    decreases pool.len(),
{
    if pool.len() == 0 {
        Seq::empty()
    } else if pool.last().inner.is_a::<T>() {
        not_holding::<H, T>(pool.drop_last())
    } else {
        not_holding::<H, T>(pool.drop_last()).push(pool.last())
    }
}

} // verus!
