//! The requests that a running handler can make of the engine, and what a
//! handler makes of the answers.

use crate::bus::error::{CallEvent, CallNode, CallTrace};
use crate::dyn_var::DynVar;
use crate::event::EventDef;
use std::any::TypeId;
use std::fmt::Debug;
use vstd::prelude::*;

verus! {

/// What a running handler can ask of the engine that runs it.
pub enum BusInterfaceEvent {
    /// Run the event `def` with `args`, and record the call in `trace_data`.
    Fire { def: TypeId, args: DynVar, trace_data: CallEvent },
    /// Give up, and hand `error` to the caller of this handler.
    FwdBusError { error: CallTrace },
}

/// Why a call gave no value of the type that its event promises.
pub enum Unrecovered {
    /// The call failed; the trace says where.
    Failed(CallTrace),
    /// The call gave a value of another type, which is handed back with its trace.
    Mistyped(DynVar, Option<CallTrace>),
}

/// The node of a call of an event with these names, before it has run.
pub open spec fn fresh_node(
    name: Seq<char>,
    args_t: Seq<char>,
    return_t: Seq<char>,
    args: Seq<char>,
) -> CallNode {
    CallNode {
        handler_name: name,
        handler_args_t: args_t,
        handler_args: Some(args),
        inner: Seq::empty(),
        resolution: None,
        return_t: return_t,
        return_v: None,
    }
}

impl BusInterfaceEvent {
    /// The request of a handler to run the event `def` with `args`: the
    /// arguments are wrapped with the text they show, and the node of the
    /// call is made ready.
    pub fn fire<Tag, At: Debug + Send + Sync + 'static, Rt>(
        def: &EventDef<Tag, At, Rt>,
        args: At,
    ) -> (r: Self)
        ensures
            match r {
                BusInterfaceEvent::Fire { def: d, args: a, trace_data: t } => {
                    &&& d == def.identity()
                    &&& a.holds(args)
                    &&& a.snapshot() is Some
                    &&& t@ == fresh_node(def.name()@, def.args_type()@, def.return_type()@, a.snapshot_text())
                },
                BusInterfaceEvent::FwdBusError { .. } => false,
            },
    {
        let args = DynVar::new_debug(args);
        let trace_data = CallEvent::from_event_def(def, &args);
        BusInterfaceEvent::Fire { def: def.identity(), args, trace_data }
    }

    /// The request of a handler to give up and pass `error` on to its caller.
    pub fn fwd_bus_err(error: CallTrace) -> (r: Self)
        ensures
            r == (BusInterfaceEvent::FwdBusError { error }),
    {
        BusInterfaceEvent::FwdBusError { error }
    }

    /// What a handler makes of the answer to its request: the failure of the
    /// call; the value that the call gave, where it is an `Rt`; or, where it
    /// is not, the container handed back.
    pub fn recover<Rt: 'static>(response: Result<DynVar, CallTrace>) -> (r: Result<Rt, Unrecovered>)
        ensures
            match response {
                Err(t) => r == Err::<Rt, Unrecovered>(Unrecovered::Failed(t)),
                Ok(v) => match r {
                    Ok(x) => v.holds_only(x),
                    Err(u) => u == Unrecovered::Mistyped(v, None) && !v.is_a::<Rt>(),
                },
            },
    {
        match response {
            Err(trace) => Err(Unrecovered::Failed(trace)),
            Ok(value) => match value.try_to::<Rt>() {
                Ok(x) => Ok(x),
                Err(value) => Err(Unrecovered::Mistyped(value, None)),
            },
        }
    }

    /// The value of a nested call, or the request to pass its failure on.
    pub fn unwrap_or_fwd<T>(result: Result<T, CallTrace>) -> (r: Result<T, BusInterfaceEvent>)
        ensures
            match result {
                Ok(x) => r == Ok::<T, BusInterfaceEvent>(x),
                Err(error) => r == Err::<T, BusInterfaceEvent>(
                    BusInterfaceEvent::FwdBusError { error },
                ),
            },
    {
        match result {
            Ok(x) => Ok(x),
            Err(error) => Err(BusInterfaceEvent::FwdBusError { error }),
        }
    }
}

} // verus!
