//! The bus: the pool of stops, and the start of calls.

pub mod error;
pub mod frame;
pub mod model;

use crate::bus::error::{BaseFireEventError, CallEvent, CallTrace, FireEventError, Resolution};
use crate::bus::frame::{agrees, Execution, Frame, Progress, Reply};
use crate::bus::model::{
    begin, holder, lemma_claims_bound, lemma_claims_none, lemma_claims_one, lemma_holder, holding, not_holding,
    no_handler, of_other_types, of_type, pool_claims, FrameModel,
};
use crate::dyn_var::DynVar;
use crate::event::EventDef;
use crate::interface::{fresh_node, Unrecovered};
use crate::stop::{BusStop, BusStopContainer};
use std::any::TypeId;
use std::fmt::Debug;
use vstd::prelude::*;

verus! {

/// The bus: the pool of the stops that are free to take a call.
pub struct DABus<H> {
    registered_stops: Vec<BusStopContainer<H>>,
}

impl<H> DABus<H> {
    /// The stops that are free to take a call, in the order in which they came.
    pub closed spec fn stops(&self) -> Seq<BusStopContainer<H>> {
        self.registered_stops@
    }

    /// A bus without stops.
    pub fn new() -> (r: Self)
        ensures
            r.stops().len() == 0,
    {
        DABus { registered_stops: Vec::new() }
    }

    /// Puts a stop at the end of the pool.
    pub fn register<T: BusStop<H> + Debug + Send + Sync + 'static>(&mut self, stop: T)
        ensures
            final(self).stops().len() == old(self).stops().len() + 1,
            final(self).stops().drop_last() == old(self).stops(),
            final(self).stops().last().inner.holds(stop),
            final(self).stops().last().inner.snapshot() is Some,
    {
        self.registered_stops.push(BusStopContainer::new(stop));
        assert(self.registered_stops@.drop_last() =~= old(self).registered_stops@);
    }

    /// Takes out of the pool the stops whose instance is a `T`, and gives
    /// their instances, in the order in which the stops stood. The stops
    /// that stay, stay as they are and in their order.
    pub fn deregister<T: 'static>(&mut self) -> (r: Vec<T>)
        ensures
            final(self).stops() == not_holding::<H, T>(old(self).stops()),
            r.len() == holding::<H, T>(old(self).stops()).len(),
            forall|i: int|
                0 <= i < r.len() ==> holding::<H, T>(old(self).stops())[i].inner.holds_only(
                    #[trigger] r@[i],
                ),
            r.len() + final(self).stops().len() == old(self).stops().len(),
    {
        let mut all: Vec<BusStopContainer<H>> = Vec::new();
        std::mem::swap(&mut self.registered_stops, &mut all);
        let ghost pool = all@;
        let mut taken: Vec<T> = Vec::new();
        for c in it: all
            invariant
                it.seq() == pool,
                taken.len() + self.registered_stops@.len() == it.index(),
                self.registered_stops@ == not_holding::<H, T>(
                    pool.subrange(0, it.index() as int),
                ),
                taken.len() == holding::<H, T>(pool.subrange(0, it.index() as int)).len(),
                forall|i: int|
                    0 <= i < taken.len() ==> holding::<H, T>(
                        pool.subrange(0, it.index() as int),
                    )[i].inner.holds_only(#[trigger] taken@[i]),
        {
            let ghost k = it.index() as int;
            assert(pool.subrange(0, k + 1).drop_last() =~= pool.subrange(0, k));
            assert(pool.subrange(0, k + 1).last() == c);
            let BusStopContainer { inner, handlers } = c;
            match inner.try_to::<T>() {
                Ok(stop) => {
                    assert(c.inner.is_a::<T>()) by {
                        assert(c.inner.holds(stop));
                    }
                    taken.push(stop);
                },
                Err(inner) => {
                    self.registered_stops.push(BusStopContainer { inner, handlers });
                },
            }
        }
        assert(pool.subrange(0, pool.len() as int) =~= pool);
        taken
    }

    /// Takes out of the pool every stop whose instance is of the type with the identity `id`.
    pub fn deregister_type(&mut self, id: &TypeId) -> (r: Vec<BusStopContainer<H>>)
        ensures
            r@ == of_type(old(self).stops(), *id),
            final(self).stops() == of_other_types(old(self).stops(), *id),
    {
        let mut all: Vec<BusStopContainer<H>> = Vec::new();
        std::mem::swap(&mut self.registered_stops, &mut all);
        let ghost pool = all@;
        let mut taken: Vec<BusStopContainer<H>> = Vec::new();
        for c in it: all
            invariant
                it.seq() == pool,
                taken@ == of_type(pool.subrange(0, it.index() as int), *id),
                self.registered_stops@ == of_other_types(pool.subrange(0, it.index() as int), *id),
        {
            let ghost k = it.index() as int;
            assert(pool.subrange(0, k + 1).drop_last() =~= pool.subrange(0, k));
            assert(pool.subrange(0, k + 1).last() == c);
            if c.inner.is_type(id) {
                taken.push(c);
            } else {
                self.registered_stops.push(c);
            }
        }
        assert(pool.subrange(0, pool.len() as int) =~= pool);
        taken
    }

    /// How many entries, over all the stops in the pool, answer the event.
    /// The answer is 2 where there are more than one.
    pub fn claims(&self, def: &TypeId) -> (n: usize)
        ensures
            n <= 2,
            n == 0 <==> pool_claims(self.stops(), *def) == 0,
            n == 1 <==> pool_claims(self.stops(), *def) == 1,
    {
        let mut n: usize = 0;
        let mut i: usize = 0;
        while i < self.registered_stops.len()
            invariant
                i <= self.registered_stops.len(),
                n <= 2,
                n == 0 <==> pool_claims(self.registered_stops@.subrange(0, i as int), *def) == 0,
                n == 1 <==> pool_claims(self.registered_stops@.subrange(0, i as int), *def) == 1,
            decreases self.registered_stops.len() - i,
        {
            assert(self.registered_stops@.subrange(0, i + 1).drop_last()
                =~= self.registered_stops@.subrange(0, i as int));
            let m = self.registered_stops[i].matches(def);
            if m >= 2 || n >= 2 {
                n = 2;
            } else {
                n = n + m;
            }
            i = i + 1;
        }
        assert(self.registered_stops@.subrange(0, i as int) =~= self.registered_stops@);
        n
    }

    /// Takes out of the pool the stop that answers the event, if there is one.
    pub fn handlers_for(&mut self, def: &TypeId) -> (r: Option<BusStopContainer<H>>)
        requires
            pool_claims(old(self).stops(), *def) <= 1,
        ensures
            match r {
                None => pool_claims(old(self).stops(), *def) == 0 && final(self).stops() == old(
                    self,
                ).stops(),
                Some(c) => {
                    let k = holder(old(self).stops(), *def);
                    &&& pool_claims(old(self).stops(), *def) == 1
                    &&& 0 <= k < old(self).stops().len()
                    &&& c == old(self).stops()[k]
                    &&& final(self).stops() == old(self).stops().remove(k)
                },
            },
    {
        let mut i: usize = 0;
        while i < self.registered_stops.len()
            invariant
                i <= self.registered_stops.len(),
                self.registered_stops@ == old(self).registered_stops@,
                pool_claims(self.registered_stops@, *def) <= 1,
                forall|j: int| 0 <= j < i ==> (#[trigger] self.registered_stops@[j]).claims(*def) == 0,
            decreases self.registered_stops.len() - i,
        {
            proof {
                lemma_claims_bound(self.registered_stops@, *def, i as int);
            }
            if self.registered_stops[i].relevant(def) {
                proof {
                    lemma_holder(self.registered_stops@, *def, i as int);
                    lemma_claims_one(self.registered_stops@, *def, i as int);
                }
                let c = self.registered_stops.remove(i);
                return Some(c);
            }
            i = i + 1;
        }
        proof {
            lemma_claims_none(self.registered_stops@, *def);
        }
        None
    }

    /// Opens the frame of a call of the event `def`, or resolves its node as unhandled.
    fn gen_frame_for(&mut self, def: &TypeId, local_trace_data: CallEvent) -> (r: Result<
        Frame<H>,
        CallEvent,
    >)
        requires
            pool_claims(old(self).stops(), *def) <= 1,
            local_trace_data@.resolution is None,
        ensures
            match r {
                Err(n) => {
                    &&& pool_claims(old(self).stops(), *def) == 0
                    &&& final(self).stops() == old(self).stops()
                    &&& n@ == no_handler(local_trace_data@)
                },
                Ok(f) => {
                    let k = holder(old(self).stops(), *def);
                    &&& pool_claims(old(self).stops(), *def) == 1
                    &&& 0 <= k < old(self).stops().len()
                    &&& final(self).stops() == old(self).stops().remove(k)
                    &&& f@ == (FrameModel {
                        waiting: false,
                        handler: old(self).stops()[k],
                        trace: local_trace_data@,
                    })
                },
            },
    {
        match self.handlers_for(def) {
            None => {
                let mut node = local_trace_data;
                node.resolve(
                    Resolution::BusError(FireEventError { err: BaseFireEventError::NoHandler }),
                );
                Err(node)
            },
            Some(handler) => Ok(Frame::ReadyToPoll { handler, local_trace_data }),
        }
    }

    /// Puts a stop that ran a call at the end of the pool.
    pub(crate) fn give_back(&mut self, stop: BusStopContainer<H>)
        ensures
            final(self).stops() == old(self).stops().push(stop),
    {
        self.registered_stops.push(stop);
    }

    /// Starts a top-level call of the event `def`, whose node is the root of `trace`.
    pub fn raw_fire(&mut self, def: TypeId, args: DynVar, trace: CallTrace) -> (r: Progress<H>)
        requires
            pool_claims(old(self).stops(), def) <= 1,
            trace@ is Some,
            trace@->0.resolution is None,
        ensures
            agrees(r, *final(self), begin(old(self).stops(), def, args, trace@->0)),
    {
        let mut trace = trace;
        let root = trace.take_root().unwrap();
        match self.gen_frame_for(&def, root) {
            Ok(frame) => {
                Progress::Running(Execution::started(frame), Reply::Launch { def, args })
            },
            Err(node) => {
                trace.set_root(node);
                Progress::Done(None, trace)
            },
        }
    }

    /// Starts a top-level call of the event `def` with `args`.
    pub fn fire<Tag, At: Debug + Send + Sync + 'static, Rt>(
        &mut self,
        def: &EventDef<Tag, At, Rt>,
        args: At,
    ) -> (r: Progress<H>)
        requires
            pool_claims(old(self).stops(), def.identity()) <= 1,
        ensures
            exists|a: DynVar|
                a.holds(args) && a.snapshot() is Some && #[trigger] agrees(
                    r,
                    *final(self),
                    begin(
                        old(self).stops(),
                        def.identity(),
                        a,
                        fresh_node(def.name()@, def.args_type()@, def.return_type()@, a.snapshot_text()),
                    ),
                ),
            pool_claims(old(self).stops(), def.identity()) == 0 ==> final(self).stops() == old(
                self,
            ).stops() && match r {
                Progress::Done(None, t) => t@ is Some && t@->0.inner.len() == 0
                    && t@->0.resolution == Some(
                    Resolution::BusError(FireEventError { err: BaseFireEventError::NoHandler }),
                ),
                _ => false,
            },
    {
        let args = DynVar::new_debug(args);
        let trace = CallTrace { root: Some(CallEvent::from_event_def(def, &args)) };
        let r = self.raw_fire(def.identity(), args, trace);
        assert(agrees(
            r,
            *self,
            begin(
                old(self).stops(),
                def.identity(),
                args,
                fresh_node(def.name()@, def.args_type()@, def.return_type()@, args.snapshot_text()),
            ),
        ));
        r
    }
}

impl<H> Default for DABus<H> {
    fn default() -> (r: Self)
        ensures
            r.stops().len() == 0,
    {
        DABus::new()
    }
}

/// What a call that succeeded gave: the value, and the trace of the call.
pub struct FireEvent<T> {
    value: T,
    trace: CallTrace,
}

impl<T> FireEvent<T> {
    /// The value that the call returned.
    pub closed spec fn value(&self) -> T {
        self.value
    }

    /// The trace of the call.
    pub closed spec fn call_trace(&self) -> CallTrace {
        self.trace
    }

    /// The trace of the call.
    pub fn trace(&self) -> (r: CallTrace)
        ensures
            r@ == self.call_trace()@,
    {
        self.trace.clone()
    }

    /// The value that the call returned.
    pub fn ret(self) -> (r: T)
        ensures
            r == self.value(),
    {
        self.value
    }

    /// What the caller of a top-level call gets when the call has ended:
    /// the value as a `T` with the trace, the trace alone where the call
    /// failed, or the value handed back where it is no `T`.
    pub fn finish(value: Option<DynVar>, trace: CallTrace) -> (r: Result<Self, Unrecovered>) where
        T: 'static,

        ensures
            match value {
                None => r == Err::<Self, Unrecovered>(Unrecovered::Failed(trace)),
                Some(v) => match r {
                    Ok(e) => e.call_trace() == trace && v.holds_only(e.value()),
                    Err(u) => u == Unrecovered::Mistyped(v, Some(trace)) && !v.is_a::<T>(),
                },
            },
    {
        match value {
            None => Err(Unrecovered::Failed(trace)),
            Some(v) => match v.try_to::<T>() {
                Ok(value) => Ok(FireEvent { value, trace }),
                Err(v) => Err(Unrecovered::Mistyped(v, Some(trace))),
            },
        }
    }
}

} // verus!
