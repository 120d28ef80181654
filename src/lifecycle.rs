use vstd::prelude::*;

verus! {

/// Where the frame loop stands between start and exit.
#[derive(Clone, Copy, Debug, PartialEq, Eq, Structural)]
pub enum LoopPhase {
    /// Frames are being rendered and ticks sent.
    Running,
    /// The loop has stopped; the shutdown message must reach the worker.
    SendingShutdown,
    /// The shutdown message went out; the worker must finish.
    JoiningWorker,
    /// The worker has finished; the window may now be closed.
    ClosingWindow,
    /// Everything is torn down.
    Closed,
}

/// What happened since the frame loop last asked for its next step.
#[derive(Clone, Copy, Debug, PartialEq, Eq, Structural)]
pub enum LoopEvent {
    /// The top of a frame: whether the window or the program asked to exit.
    FrameStart { close_requested: bool },
    /// The end of a frame: whether the worker's channel took the tick.
    TickSent { accepted: bool },
    /// The shutdown message was handed to the worker's channel, or the
    /// channel was gone.
    ShutdownSent,
    /// The worker task has finished, well or not.
    WorkerJoined,
    /// The native window and devices are released.
    WindowClosed,
}

/// What the frame loop must do next.
#[derive(Clone, Copy, Debug, PartialEq, Eq, Structural)]
pub enum LoopAction {
    /// Drain the worker's messages, render one frame, then send a tick.
    RenderFrame,
    /// Go on to the next frame.
    NextFrame,
    /// Send the shutdown message, waiting for room in the channel.
    SendShutdown,
    /// Wait for the worker task to finish.
    JoinWorker,
    /// Release the native window and devices.
    CloseWindow,
    /// Leave the loop.
    Stop,
}

/// The frame loop's state as a mathematical value.
pub struct LoopView {
    pub phase: LoopPhase,
    pub frames: nat,
    pub ticks: nat,
    pub worker_done: bool,
}

/// The counter after one more frame or tick: it stops at the largest `u64`.
pub open spec fn bump(n: nat) -> nat {
    if n < u64::MAX {
        n + 1
    } else {
        n
    }
}

/// The action that a phase waits on when an event does not move it on.
pub open spec fn waiting_action(p: LoopPhase) -> LoopAction {
    match p {
        LoopPhase::Running => LoopAction::NextFrame,
        LoopPhase::SendingShutdown => LoopAction::SendShutdown,
        LoopPhase::JoiningWorker => LoopAction::JoinWorker,
        LoopPhase::ClosingWindow => LoopAction::CloseWindow,
        LoopPhase::Closed => LoopAction::Stop,
    }
}

impl LoopView {
    /// The window is only torn down after the worker has finished.
    pub open spec fn wf(self) -> bool {
        &&& (self.phase == LoopPhase::ClosingWindow || self.phase == LoopPhase::Closed) ==> self.worker_done
        &&& self.frames <= u64::MAX
        &&& self.ticks <= u64::MAX
    }

    /// The state after `e`, and the action it calls for.
    pub open spec fn step(self, e: LoopEvent) -> (LoopView, LoopAction) {
        match (self.phase, e) {
            (LoopPhase::Running, LoopEvent::FrameStart { close_requested }) => if close_requested {
                (LoopView { phase: LoopPhase::SendingShutdown, ..self }, LoopAction::SendShutdown)
            } else {
                (self, LoopAction::RenderFrame)
            },
            (LoopPhase::Running, LoopEvent::TickSent { accepted }) => if accepted {
                (LoopView { frames: bump(self.frames), ticks: bump(self.ticks), ..self }, LoopAction::NextFrame)
            } else {
                (
                    LoopView { phase: LoopPhase::SendingShutdown, frames: bump(self.frames), ..self },
                    LoopAction::SendShutdown,
                )
            },
            (LoopPhase::SendingShutdown, LoopEvent::ShutdownSent) => (
                LoopView { phase: LoopPhase::JoiningWorker, ..self },
                LoopAction::JoinWorker,
            ),
            (LoopPhase::JoiningWorker, LoopEvent::WorkerJoined) => (
                LoopView { phase: LoopPhase::ClosingWindow, worker_done: true, ..self },
                LoopAction::CloseWindow,
            ),
            (LoopPhase::ClosingWindow, LoopEvent::WindowClosed) => (
                LoopView { phase: LoopPhase::Closed, ..self },
                LoopAction::Stop,
            ),
            _ => (self, waiting_action(self.phase)),
        }
    }

    /// The state after the events of `es` in order.
    pub open spec fn run(self, es: Seq<LoopEvent>) -> LoopView
        decreases es.len(),
    {
        if es.len() == 0 {
            self
        } else {
            self.run(es.drop_last()).step(es.last()).0
        }
    }
}

/// The frame loop's control: it decides, from what happened, whether to
/// render another frame or to shut down, and in which order shutdown runs.
pub struct Lifecycle {
    phase: LoopPhase,
    frames: u64,
    ticks: u64,
    worker_done: bool,
}

impl Lifecycle {
    pub closed spec fn view(&self) -> LoopView {
        LoopView {
            phase: self.phase,
            frames: self.frames as nat,
            ticks: self.ticks as nat,
            worker_done: self.worker_done,
        }
    }

    /// A loop about to render its first frame.
    pub fn new() -> (r: Lifecycle)
        ensures
            r@ == (LoopView { phase: LoopPhase::Running, frames: 0, ticks: 0, worker_done: false }),
            r@.wf(),
    {
        Lifecycle { phase: LoopPhase::Running, frames: 0, ticks: 0, worker_done: false }
    }

    pub fn phase(&self) -> (r: LoopPhase)
        ensures
            r == self@.phase,
    {
        self.phase
    }

    /// The number of frames rendered.
    pub fn frame_count(&self) -> (r: u64)
        ensures
            r == self@.frames,
    {
        self.frames
    }

    /// The number of ticks the worker's channel took.
    pub fn ticks_sent(&self) -> (r: u64)
        ensures
            r == self@.ticks,
    {
        self.ticks
    }

    /// Whether the worker task is known to have finished.
    pub fn worker_done(&self) -> (r: bool)
        ensures
            r == self@.worker_done,
    {
        self.worker_done
    }

    /// Takes in `e` and says what the loop must do next.
    pub fn handle(&mut self, e: LoopEvent) -> (r: LoopAction)
        requires
            old(self)@.wf(),
        ensures
            final(self)@.wf(),
            (final(self)@, r) == old(self)@.step(e),
    {
        match (self.phase, e) {
            (LoopPhase::Running, LoopEvent::FrameStart { close_requested }) => if close_requested {
                self.phase = LoopPhase::SendingShutdown;
                LoopAction::SendShutdown
            } else {
                LoopAction::RenderFrame
            },
            (LoopPhase::Running, LoopEvent::TickSent { accepted }) => {
                if self.frames < u64::MAX {
                    self.frames = self.frames + 1;
                }
                if accepted {
                    if self.ticks < u64::MAX {
                        self.ticks = self.ticks + 1;
                    }
                    LoopAction::NextFrame
                } else {
                    self.phase = LoopPhase::SendingShutdown;
                    LoopAction::SendShutdown
                }
            },
            (LoopPhase::SendingShutdown, LoopEvent::ShutdownSent) => {
                self.phase = LoopPhase::JoiningWorker;
                LoopAction::JoinWorker
            },
            (LoopPhase::JoiningWorker, LoopEvent::WorkerJoined) => {
                self.phase = LoopPhase::ClosingWindow;
                self.worker_done = true;
                LoopAction::CloseWindow
            },
            (LoopPhase::ClosingWindow, LoopEvent::WindowClosed) => {
                self.phase = LoopPhase::Closed;
                LoopAction::Stop
            },
            _ => match self.phase {
                LoopPhase::Running => LoopAction::NextFrame,
                LoopPhase::SendingShutdown => LoopAction::SendShutdown,
                LoopPhase::JoiningWorker => LoopAction::JoinWorker,
                LoopPhase::ClosingWindow => LoopAction::CloseWindow,
                LoopPhase::Closed => LoopAction::Stop,
            },
        }
    }
}

/// Once the loop has left `Running`, whatever happens it never renders a
/// frame or sends a tick again, and it never returns to `Running`.
pub proof fn lemma_no_tick_after_shutdown(s: LoopView, es: Seq<LoopEvent>)
    requires
        s.phase != LoopPhase::Running,
    ensures
        s.run(es).phase != LoopPhase::Running,
        s.run(es).ticks == s.ticks,
        s.run(es).frames == s.frames,
        es.len() > 0 ==> s.run(es.drop_last()).step(es.last()).1 != LoopAction::RenderFrame,
    decreases es.len(),
{
    if es.len() > 0 {
        lemma_no_tick_after_shutdown(s, es.drop_last());
    }
}

/// Whatever happens, the loop calls for closing the window only once the
/// worker has finished, and it reaches that point only through a
/// `WorkerJoined` event.
pub proof fn lemma_worker_finishes_before_teardown(s: LoopView, es: Seq<LoopEvent>)
    requires
        s.wf(),
        !s.worker_done,
    ensures
        s.run(es).wf(),
        s.run(es).worker_done ==> exists|k: int| 0 <= k < es.len() && es[k] == LoopEvent::WorkerJoined,
        es.len() > 0 && s.run(es.drop_last()).step(es.last()).1 == LoopAction::CloseWindow ==> s.run(es).worker_done,
    decreases es.len(),
{
    if es.len() > 0 {
        let init = es.drop_last();
        lemma_worker_finishes_before_teardown(s, init);
        if s.run(init).worker_done {
            let k = choose|k: int| 0 <= k < init.len() && init[k] == LoopEvent::WorkerJoined;
            assert(es[k] == LoopEvent::WorkerJoined);
        } else if s.run(es).worker_done {
            assert(es[es.len() - 1] == LoopEvent::WorkerJoined);
        }
    }
}

} // verus!
