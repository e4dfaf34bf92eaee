//! The calls in progress of one top-level call, and the steps that the engine
//! takes on them.

use crate::bus::error::{CallEvent, CallTrace, Resolution};
use crate::bus::model::{
    forwarded, nested, pool_claims, returned, set_waiting, shaped, succeeded, with_child, Effect,
    Engine, FrameModel,
};
use crate::bus::DABus;
use crate::dyn_var::DynVar;
use crate::interface::BusInterfaceEvent;
use crate::stop::BusStopContainer;
use std::any::TypeId;
use vstd::prelude::*;

verus! {

/// One call in progress: the stop that runs it, which is out of the pool for
/// as long as the frame lives, and the node that records it. A frame is ready
/// to be polled, or it waits for a call that its handler made.
pub enum Frame<H> {
    ReadyToPoll { handler: BusStopContainer<H>, local_trace_data: CallEvent },
    AwaitingNestedCall { handler: BusStopContainer<H>, local_trace_data: CallEvent },
}

impl<H> View for Frame<H> {
    type V = FrameModel<H>;

    open spec fn view(&self) -> FrameModel<H> {
        match *self {
            Frame::ReadyToPoll { handler, local_trace_data } => FrameModel {
                waiting: false,
                handler,
                trace: local_trace_data@,
            },
            Frame::AwaitingNestedCall { handler, local_trace_data } => FrameModel {
                waiting: true,
                handler,
                trace: local_trace_data@,
            },
        }
    }
}

/// The calls in progress of one top-level call.
pub struct Execution<H> {
    stack: Vec<Frame<H>>,
}

/// What the driver of the engine must do next.
pub enum Reply {
    /// Start the handler of the frame on top, for this event and with these arguments.
    Launch { def: TypeId, args: DynVar },
    /// Answer the call that the handler of the frame on top is waiting for.
    Respond(Result<DynVar, CallTrace>),
}

/// Where a top-level call stands after a step.
pub enum Progress<H> {
    Running(Execution<H>, Reply),
    Done(Option<DynVar>, CallTrace),
}

/// Whether what a step left behind, the pool of `bus` and `r`, is what the
/// model `next` says.
pub open spec fn agrees<H>(r: Progress<H>, bus: DABus<H>, next: (Engine<H>, Effect)) -> bool {
    &&& bus.stops() == next.0.pool
    &&& match r {
        Progress::Running(exec, reply) => {
            &&& exec.frames() == next.0.frames
            &&& exec.wf()
            &&& match reply {
                Reply::Launch { def, args } => next.1 == (Effect::Launch { def, args }),
                Reply::Respond(Ok(v)) => next.1 == Effect::Respond(Ok(v)),
                Reply::Respond(Err(t)) => t@ is Some && next.1 == Effect::Respond(Err(t@->0)),
            }
        },
        Progress::Done(v, t) => {
            &&& next.0.frames.len() == 0
            &&& t@ is Some
            &&& next.1 == Effect::Done(v, t@->0)
        },
    }
}

impl<H> Execution<H> {
    /// The frames of the calls in progress, the outermost first.
    pub closed spec fn frames(&self) -> Seq<FrameModel<H>> {
        Seq::new(self.stack@.len(), |i: int| self.stack@[i]@)
    }

    /// Whether the frames are well shaped.
    pub open spec fn wf(&self) -> bool {
        shaped(self.frames())
    }

    /// The calls in progress when the outermost call has just been started.
    pub(crate) fn started(frame: Frame<H>) -> (r: Self)
        ensures
            r.frames() == seq![frame@],
    {
        let mut stack: Vec<Frame<H>> = Vec::new();
        stack.push(frame);
        let r = Execution { stack };
        assert(r.frames() =~= seq![frame@]);
        r
    }

    /// How many calls are in progress.
    pub fn depth(&self) -> (n: usize)
        ensures
            n == self.frames().len(),
    {
        self.stack.len()
    }

    /// The stop that runs the call on top.
    pub fn current(&self) -> (r: &BusStopContainer<H>)
        requires
            self.wf(),
        ensures
            *r == self.frames().last().handler,
    {
        let n = self.stack.len();
        assert(self.frames()[n - 1] == self.stack@[n - 1]@);
        match &self.stack[n - 1] {
            Frame::ReadyToPoll { handler, .. } => handler,
            Frame::AwaitingNestedCall { handler, .. } => handler,
        }
    }

    /// The instance of the stop that runs the call on top, for its handler to work on.
    pub fn instance_mut(&mut self) -> (r: &mut DynVar)
        requires
            old(self).wf(),
        ensures
            *r == old(self).frames().last().handler.inner,
            final(self).frames() == old(self).frames().drop_last().push(
                FrameModel {
                    handler: BusStopContainer {
                        inner: *final(r),
                        ..old(self).frames().last().handler
                    },
                    ..old(self).frames().last()
                },
            ),
    {
        let n = self.stack.len();
        assert(self.frames()[n - 1] == self.stack@[n - 1]@);
        let top = &mut self.stack[n - 1];
        match top {
            Frame::ReadyToPoll { handler, .. } => &mut handler.inner,
            Frame::AwaitingNestedCall { handler, .. } => &mut handler.inner,
        }
    }

    /// Takes the frame on top off the stack: the stop that runs it and its node.
    fn pop_ready(&mut self) -> (r: (BusStopContainer<H>, CallEvent))
        requires
            old(self).wf(),
        ensures
            r.0 == old(self).frames().last().handler,
            r.1@ == old(self).frames().last().trace,
            final(self).frames() == old(self).frames().drop_last(),
    {
        let ghost before = self.frames();
        let top = self.stack.pop().unwrap();
        assert(top@ == before.last());
        assert(self.frames() =~= before.drop_last());
        match top {
            Frame::ReadyToPoll { handler, local_trace_data } => (handler, local_trace_data),
            Frame::AwaitingNestedCall { handler, local_trace_data } => (
                handler,
                local_trace_data,
            ),
        }
    }

    /// Puts a frame on top of the stack.
    fn push_frame(&mut self, frame: Frame<H>)
        ensures
            final(self).frames() == old(self).frames().push(frame@),
    {
        self.stack.push(frame);
        assert(self.frames() =~= old(self).frames().push(frame@));
    }

    /// What the engine makes of a request of the handler on top.
    pub fn handle(self, bus: &mut DABus<H>, event: BusInterfaceEvent) -> (r: Progress<H>)
        requires
            self.wf(),
            match event {
                BusInterfaceEvent::Fire { def, args, trace_data } => pool_claims(
                    old(bus).stops(),
                    def,
                ) <= 1 && trace_data@.resolution is None,
                BusInterfaceEvent::FwdBusError { error } => error@ is Some,
            },
        ensures
            agrees(
                r,
                *final(bus),
                match event {
                    BusInterfaceEvent::Fire { def, args, trace_data } => nested(
                        Engine { pool: old(bus).stops(), frames: self.frames() },
                        def,
                        args,
                        trace_data@,
                    ),
                    BusInterfaceEvent::FwdBusError { error } => forwarded(
                        Engine { pool: old(bus).stops(), frames: self.frames() },
                        error@->0,
                    ),
                },
            ),
    {
        match event {
            BusInterfaceEvent::Fire { def, args, trace_data } => self.fire(
                bus,
                def,
                args,
                trace_data,
            ),
            BusInterfaceEvent::FwdBusError { error } => self.fwd_bus_err(bus, error),
        }
    }

    /// The handler of the frame on top asks for the event `def`.
    pub fn fire(self, bus: &mut DABus<H>, def: TypeId, args: DynVar, trace_data: CallEvent) -> (r:
        Progress<H>)
        requires
            self.wf(),
            pool_claims(old(bus).stops(), def) <= 1,
            trace_data@.resolution is None,
        ensures
            agrees(
                r,
                *final(bus),
                nested(
                    Engine { pool: old(bus).stops(), frames: self.frames() },
                    def,
                    args,
                    trace_data@,
                ),
            ),
    {
        let mut this = self;
        match bus.gen_frame_for(&def, trace_data) {
            Ok(next_frame) => {
                let (handler, local_trace_data) = this.pop_ready();
                this.push_frame(Frame::AwaitingNestedCall { handler, local_trace_data });
                this.push_frame(next_frame);
                Progress::Running(this, Reply::Launch { def, args })
            },
            Err(error_trace) => Progress::Running(
                this,
                Reply::Respond(Err(CallTrace { root: Some(error_trace) })),
            ),
        }
    }

    /// The handler of the frame on top gave up and passes on the failure `error`.
    pub fn fwd_bus_err(self, bus: &mut DABus<H>, error: CallTrace) -> (r: Progress<H>)
        requires
            self.wf(),
            error@ is Some,
        ensures
            agrees(
                r,
                *final(bus),
                forwarded(Engine { pool: old(bus).stops(), frames: self.frames() }, error@->0),
            ),
    {
        let mut this = self;
        let mut error = error;
        let (handler, mut local_trace_data) = this.pop_ready();
        bus.give_back(handler);
        local_trace_data.resolve(Resolution::NestedCallError);
        local_trace_data.push_inner(error.take_root().unwrap());
        if this.stack.len() == 0 {
            Progress::Done(None, CallTrace { root: Some(local_trace_data) })
        } else {
            assert(this.frames().len() == this.stack@.len());
            let ghost parent = this.frames().last();
            let top = this.stack.pop().unwrap();
            assert(top@ == parent);
            match top {
                Frame::AwaitingNestedCall {
                    handler: nested_handler,
                    local_trace_data: caller_handler_trace_data,
                } => {
                    this.stack.push(
                        Frame::ReadyToPoll {
                            handler: nested_handler,
                            local_trace_data: caller_handler_trace_data,
                        },
                    );
                    assert(this.frames() =~= self.frames().drop_last().drop_last().push(
                        set_waiting(parent, false),
                    ));
                    Progress::Running(
                        this,
                        Reply::Respond(Err(CallTrace { root: Some(local_trace_data) })),
                    )
                },
                Frame::ReadyToPoll { .. } => unreached(),
            }
        }
    }

    /// The handler of the frame on top returned `value`.
    pub fn returned(self, bus: &mut DABus<H>, value: DynVar) -> (r: Progress<H>)
        requires
            self.wf(),
        ensures
            agrees(
                r,
                *final(bus),
                returned(Engine { pool: old(bus).stops(), frames: self.frames() }, value),
            ),
    {
        let mut this = self;
        let (handler, mut local_trace_data) = this.pop_ready();
        bus.give_back(handler);
        local_trace_data.resolve(Resolution::Success);
        local_trace_data.set_return(&value);
        if this.stack.len() == 0 {
            Progress::Done(Some(value), CallTrace { root: Some(local_trace_data) })
        } else {
            assert(this.frames().len() == this.stack@.len());
            let ghost parent = this.frames().last();
            let top = this.stack.pop().unwrap();
            assert(top@ == parent);
            match top {
                Frame::AwaitingNestedCall {
                    handler: returned_handler,
                    local_trace_data: mut caller_handler_trace_data,
                } => {
                    caller_handler_trace_data.push_inner(local_trace_data);
                    this.stack.push(
                        Frame::ReadyToPoll {
                            handler: returned_handler,
                            local_trace_data: caller_handler_trace_data,
                        },
                    );
                    assert(this.frames() =~= self.frames().drop_last().drop_last().push(
                        FrameModel {
                            waiting: false,
                            trace: with_child(parent.trace, succeeded(self.frames().last().trace, value)),
                            ..parent
                        },
                    ));
                    Progress::Running(this, Reply::Respond(Ok(value)))
                },
                Frame::ReadyToPoll { .. } => unreached(),
            }
        }
    }
}

} // verus!
