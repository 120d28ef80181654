use vstd::prelude::*;
use crate::bridge::{
    Inbound, MainToWorkerMsg, PeerMessage, PeerState, WorkerToMainMsg, WORKER_TO_MAIN_BUFFER_SIZE, peer_update,
    peers_after, received, worker_errors,
};
use crate::heap::{ResourceHeap, first_free};
use crate::lifecycle::{Lifecycle, LoopAction, LoopEvent, LoopPhase, LoopView};
use tokio::sync::mpsc::{Receiver, Sender};
use crate::mode::{Effect, ModeState, ModeView, PermissionError};
use crate::registry::ResourceKind;

verus! {

#[verifier::external_type_specification]
#[verifier::external_body]
#[verifier::reject_recursive_types(T)]
pub struct ExReceiver<T>(Receiver<T>);

#[verifier::external_type_specification]
#[verifier::external_body]
#[verifier::reject_recursive_types(T)]
pub struct ExSender<T>(Sender<T>);

/// Relies on tokio's `Receiver::try_recv`: it takes the oldest waiting
/// message without blocking, and fails when none waits or every sender is
/// gone. What comes back depends on the worker, so nothing is promised of it.
#[verifier::external_body]
fn try_recv_inbound(rx: &mut Receiver<WorkerToMainMsg>) -> (r: Option<WorkerToMainMsg>) {
    rx.try_recv().ok()
}

/// Relies on tokio's `Sender::try_send`: it queues the message without
/// blocking, and refuses it when the channel is full or its receiver is gone.
#[verifier::external_body]
fn try_send_outbound(tx: &Sender<MainToWorkerMsg>, msg: MainToWorkerMsg) -> (accepted: bool) {
    tx.try_send(msg).is_ok()
}

/// What the frame loop sends the worker at the end of a frame in `phase`:
/// a tick while it runs, nothing once it has stopped.
pub fn frame_end_message(phase: LoopPhase) -> (m: Option<MainToWorkerMsg>)
    ensures
        m == (if phase == LoopPhase::Running {
            Some(MainToWorkerMsg::Tick)
        } else {
            None
        }),
{
    match phase {
        LoopPhase::Running => Some(MainToWorkerMsg::Tick),
        _ => None,
    }
}

/// The process exit codes of the two fatal usage errors.
#[derive(Clone, Copy, Debug, PartialEq, Eq, Structural)]
pub enum ExitErrCode {
    ExitEffectNotPermitted,
    ExitHeapFull,
}

impl ExitErrCode {
    /// The process exit status.
    pub fn code(self) -> (r: i32)
        ensures
            r == match self {
                ExitErrCode::ExitEffectNotPermitted => 1i32,
                ExitErrCode::ExitHeapFull => 2i32,
            },
    {
        match self {
            ExitErrCode::ExitEffectNotPermitted => 1,
            ExitErrCode::ExitHeapFull => 2,
        }
    }
}

/// Why an effect that creates a resource cannot go ahead.
#[derive(Clone, Copy, Debug, PartialEq, Eq, Structural)]
pub enum EffectError {
    /// The effect is illegal in the current mode.
    NotPermitted(PermissionError),
    /// The heap of this kind has no free slot.
    HeapFull(ResourceKind),
}

impl EffectError {
    pub fn exit_code(&self) -> (r: ExitErrCode)
        ensures
            r == match self {
                EffectError::NotPermitted(_) => ExitErrCode::ExitEffectNotPermitted,
                EffectError::HeapFull(_) => ExitErrCode::ExitHeapFull,
            },
    {
        match self {
            EffectError::NotPermitted(_) => ExitErrCode::ExitEffectNotPermitted,
            EffectError::HeapFull(_) => ExitErrCode::ExitHeapFull,
        }
    }
}

/// Whether `level` names one of the log levels of the native library.
pub fn is_log_level(level: i32) -> (r: bool)
    ensures
        r == (0 <= level <= 7),
{
    0 <= level && level <= 7
}

/// The state of a mouse button as the embedded program reads it:
/// 0 pressed this frame, 1 released this frame, 2 held down, 3 up.
pub fn mouse_button_code(pressed: bool, released: bool, down: bool) -> (r: u8)
    ensures
        r == if pressed {
            0u8
        } else if released {
            1u8
        } else if down {
            2u8
        } else {
            3u8
        },
{
    if pressed {
        0
    } else if released {
        1
    } else if down {
        2
    } else {
        3
    }
}

/// What the native library reports of one key in one frame.
#[derive(Clone, Copy, Debug, PartialEq, Eq, Structural)]
pub struct KeyFlags {
    pub pressed: bool,
    pub released: bool,
    pub down: bool,
    pub up: bool,
}

pub open spec fn spec_key_code(k: KeyFlags) -> u8 {
    if k.pressed {
        0
    } else if k.released {
        1
    } else if k.down {
        2
    } else if k.up {
        3
    } else {
        4
    }
}

/// The state of a key as the embedded program reads it: 0 pressed this
/// frame, 1 released this frame, 2 held down, 3 up, 4 repeating.
pub fn key_code(k: KeyFlags) -> (r: u8)
    ensures
        r == spec_key_code(k),
{
    if k.pressed {
        0
    } else if k.released {
        1
    } else if k.down {
        2
    } else if k.up {
        3
    } else {
        4
    }
}

/// The code of every key, in key order.
pub fn key_codes(keys: &Vec<KeyFlags>) -> (r: Vec<u8>)
    ensures
        r@ == keys@.map_values(|k: KeyFlags| spec_key_code(k)),
{
    let mut r: Vec<u8> = Vec::new();
    let mut i: usize = 0;
    while i < keys.len()
        invariant
            i <= keys@.len(),
            r@ == keys@.subrange(0, i as int).map_values(|k: KeyFlags| spec_key_code(k)),
        decreases keys@.len() - i,
    {
        r.push(key_code(keys[i]));
        assert(keys@.subrange(0, i + 1).map_values(|k: KeyFlags| spec_key_code(k)) =~= r@);
        i = i + 1;
    }
    assert(keys@.subrange(0, i as int) =~= keys@);
    r
}

/// Checks an effect that stores a new resource in `heap`: the mode is
/// consulted first, then the heap is asked for a free slot, so that a full
/// heap is found before any native resource is made.
pub fn admit_alloc<T>(mode: &mut ModeState, e: Effect, kind: ResourceKind, heap: &ResourceHeap<T>) -> (r: Result<(), EffectError>)
    requires
        old(mode)@.wf(),
        heap.wf(),
    ensures
        final(mode)@.wf(),
        !old(mode)@.permits(e) ==> final(mode)@ == old(mode)@ && r == Err::<(), EffectError>(
            EffectError::NotPermitted(PermissionError { effect: e, phase: old(mode)@.phase, frame_open: old(mode)@.frame_open }),
        ),
        old(mode)@.permits(e) ==> final(mode)@ == old(mode)@.after(e) && r == if first_free(heap.counts()) is Some {
            Ok::<(), EffectError>(())
        } else {
            Err(EffectError::HeapFull(kind))
        },
{
    match mode.update(e) {
        Err(p) => Err(EffectError::NotPermitted(p)),
        Ok(()) => if heap.has_free_slot() {
            Ok(())
        } else {
            Err(EffectError::HeapFull(kind))
        },
    }
}

/// `s` with every carriage return that stands right before a line feed removed.
pub open spec fn crlf_to_lf(s: Seq<char>) -> Seq<char>
    decreases s.len(),
{
    if s.len() < 2 {
        s
    } else if s[0] == '\r' && s[1] == '\n' {
        seq!['\n'] + crlf_to_lf(s.subrange(2, s.len() as int))
    } else {
        seq![s[0]] + crlf_to_lf(s.drop_first())
    }
}

/// Relies on `str::replace`: it replaces every match of the pattern, left to
/// right and without overlap, by the replacement.
#[verifier::external_body]
fn replace_crlf(s: &str) -> (r: String)
    ensures
        r@ == crlf_to_lf(s@),
{
    s.replace("\r\n", "\n")
}

/// The text of a file as handed to the embedded program: Windows line
/// endings become plain line feeds.
pub fn normalize_line_endings(s: &str) -> (r: String)
    ensures
        r@ == crlf_to_lf(s@),
{
    replace_crlf(s)
}

/// The immutable record handed to the embedded program once per frame.
#[derive(Debug)]
pub struct FrameSnapshot {
    pub frame_count: u64,
    pub timestamp_millis: u64,
    pub peers: Vec<(u128, PeerState)>,
    pub messages: Vec<PeerMessage>,
    pub keys: Vec<u8>,
    pub mouse_buttons: Vec<u8>,
}

/// The host's context: the mode, what came from the network worker, and
/// the frame loop's control.
pub struct App {
    mode: ModeState,
    inbound: Inbound,
    lifecycle: Lifecycle,
}

impl App {
    pub closed spec fn spec_mode(&self) -> ModeView {
        self.mode@
    }

    pub closed spec fn spec_loop(&self) -> LoopView {
        self.lifecycle@
    }

    pub closed spec fn spec_peers(&self) -> Map<u128, PeerState> {
        self.inbound.spec_peers()@
    }

    pub closed spec fn spec_pending(&self) -> Seq<(u128, Seq<u8>)> {
        self.inbound.pending()
    }

    pub closed spec fn wf(&self) -> bool {
        &&& self.mode@.wf()
        &&& self.inbound.wf()
        &&& self.lifecycle@.wf()
    }

    /// The context at process start: nothing initialized, no peers, the loop
    /// ready for its first frame.
    pub fn init() -> (r: App)
        ensures
            r.wf(),
            r.spec_mode() == (ModeView { phase: crate::mode::Phase::Uninitialized, frame_open: false, scopes: Seq::empty() }),
            r.spec_loop() == (LoopView { phase: crate::lifecycle::LoopPhase::Running, frames: 0, ticks: 0, worker_done: false }),
            r.spec_peers() == Map::<u128, PeerState>::empty(),
            r.spec_pending() == Seq::<(u128, Seq<u8>)>::empty(),
    {
        App { mode: ModeState::new(), inbound: Inbound::new(), lifecycle: Lifecycle::new() }
    }

    pub fn mode(&self) -> (r: &ModeState)
        ensures
            r@ == self.spec_mode(),
            self.wf() ==> r@.wf(),
    {
        &self.mode
    }

    pub fn lifecycle(&self) -> (r: &Lifecycle)
        ensures
            r@ == self.spec_loop(),
            self.wf() ==> r@.wf(),
    {
        &self.lifecycle
    }

    /// The state of `peer`, if it has been seen.
    pub fn peer(&self, peer: u128) -> (r: Option<PeerState>)
        requires
            self.wf(),
        ensures
            r == (if self.spec_peers().contains_key(peer) { Some(self.spec_peers()[peer]) } else { None }),
    {
        self.inbound.peers().get(peer)
    }

    /// Checks effect `e` against the mode and moves the mode on.
    pub fn request(&mut self, e: Effect) -> (r: Result<(), PermissionError>)
        requires
            old(self).wf(),
        ensures
            final(self).wf(),
            final(self).spec_loop() == old(self).spec_loop(),
            final(self).spec_peers() == old(self).spec_peers(),
            final(self).spec_pending() == old(self).spec_pending(),
            r is Ok == old(self).spec_mode().permits(e),
            r is Ok ==> final(self).spec_mode() == old(self).spec_mode().after(e),
            r is Err ==> final(self).spec_mode() == old(self).spec_mode() && r == Err::<(), PermissionError>(
                PermissionError { effect: e, phase: old(self).spec_mode().phase, frame_open: old(self).spec_mode().frame_open },
            ),
    {
        self.mode.update(e)
    }

    /// Checks an effect that stores a new resource in `heap`; see `admit_alloc`.
    pub fn request_alloc<T>(&mut self, e: Effect, kind: ResourceKind, heap: &ResourceHeap<T>) -> (r: Result<(), EffectError>)
        requires
            old(self).wf(),
            heap.wf(),
        ensures
            final(self).wf(),
            final(self).spec_loop() == old(self).spec_loop(),
            final(self).spec_peers() == old(self).spec_peers(),
            final(self).spec_pending() == old(self).spec_pending(),
            !old(self).spec_mode().permits(e) ==> final(self).spec_mode() == old(self).spec_mode() && r
                == Err::<(), EffectError>(
                EffectError::NotPermitted(
                    PermissionError { effect: e, phase: old(self).spec_mode().phase, frame_open: old(self).spec_mode().frame_open },
                ),
            ),
            old(self).spec_mode().permits(e) ==> final(self).spec_mode() == old(self).spec_mode().after(e) && r
                == if first_free(heap.counts()) is Some {
                Ok::<(), EffectError>(())
            } else {
                Err(EffectError::HeapFull(kind))
            },
    {
        admit_alloc(&mut self.mode, e, kind, heap)
    }

    /// Handles one message drained from the worker's channel; a worker error
    /// is handed back for the log.
    pub fn receive(&mut self, msg: WorkerToMainMsg) -> (log: Option<String>)
        requires
            old(self).wf(),
        ensures
            final(self).wf(),
            final(self).spec_mode() == old(self).spec_mode(),
            final(self).spec_loop() == old(self).spec_loop(),
            final(self).spec_peers() == peer_update(old(self).spec_peers(), msg),
            final(self).spec_pending() == old(self).spec_pending() + received(seq![msg]),
            log == match msg {
                WorkerToMainMsg::Error(e) => Some(e),
                _ => None::<String>,
            },
    {
        self.inbound.receive(msg)
    }

    /// Takes in what happened in the frame loop and says what it must do next.
    pub fn advance(&mut self, e: LoopEvent) -> (r: LoopAction)
        requires
            old(self).wf(),
        ensures
            final(self).wf(),
            final(self).spec_mode() == old(self).spec_mode(),
            final(self).spec_peers() == old(self).spec_peers(),
            final(self).spec_pending() == old(self).spec_pending(),
            (final(self).spec_loop(), r) == old(self).spec_loop().step(e),
    {
        self.lifecycle.handle(e)
    }

    /// Drains the worker's channel without blocking, taking at most as many
    /// messages as the channel holds, and handles them in the order they were
    /// sent. Returns the worker errors among them, for the log.
    pub fn drain(&mut self, rx: &mut Receiver<WorkerToMainMsg>) -> (errors: Vec<String>)
        requires
            old(self).wf(),
        ensures
            final(self).wf(),
            final(self).spec_mode() == old(self).spec_mode(),
            final(self).spec_loop() == old(self).spec_loop(),
            exists|msgs: Seq<WorkerToMainMsg>|
                msgs.len() <= WORKER_TO_MAIN_BUFFER_SIZE && final(self).spec_peers() == peers_after(
                    old(self).spec_peers(),
                    msgs,
                ) && final(self).spec_pending() == old(self).spec_pending() + received(msgs) && errors@
                    == worker_errors(msgs),
    {
        let mut got: Vec<WorkerToMainMsg> = Vec::new();
        while got.len() < WORKER_TO_MAIN_BUFFER_SIZE
            invariant
                got@.len() <= WORKER_TO_MAIN_BUFFER_SIZE,
            decreases WORKER_TO_MAIN_BUFFER_SIZE - got@.len(),
        {
            match try_recv_inbound(rx) {
                Some(m) => got.push(m),
                None => break,
            }
        }
        let ghost msgs = got@;
        let errors = self.inbound.receive_all(got);
        assert(msgs.len() <= WORKER_TO_MAIN_BUFFER_SIZE && self.spec_peers() == peers_after(old(self).spec_peers(), msgs)
            && self.spec_pending() == old(self).spec_pending() + received(msgs) && errors@ == worker_errors(msgs));
        errors
    }

    /// Ends a frame. While the loop runs, the message of `frame_end_message`
    /// (a tick) is offered to the worker's channel and the loop moves on by
    /// whether the channel took it; once the loop has stopped nothing is sent.
    pub fn end_frame(&mut self, tx: &Sender<MainToWorkerMsg>) -> (r: LoopAction)
        requires
            old(self).wf(),
        ensures
            final(self).wf(),
            final(self).spec_mode() == old(self).spec_mode(),
            final(self).spec_peers() == old(self).spec_peers(),
            final(self).spec_pending() == old(self).spec_pending(),
            exists|accepted: bool| (final(self).spec_loop(), r) == old(self).spec_loop().step(LoopEvent::TickSent { accepted }),
            old(self).spec_loop().phase != LoopPhase::Running ==> (final(self).spec_loop(), r) == old(self).spec_loop().step(
                LoopEvent::TickSent { accepted: false },
            ),
    {
        match frame_end_message(self.lifecycle.phase()) {
            Some(msg) => {
                let accepted = try_send_outbound(tx, msg);
                self.lifecycle.handle(LoopEvent::TickSent { accepted })
            },
            None => self.lifecycle.handle(LoopEvent::TickSent { accepted: false }),
        }
    }

    /// Builds this frame's snapshot: the frame counter, the time, the peer
    /// table, the peer messages received since the last frame (which are then
    /// forgotten), and the input states.
    pub fn snapshot(&mut self, timestamp_millis: u64, keys: Vec<u8>, mouse_buttons: Vec<u8>) -> (r: FrameSnapshot)
        requires
            old(self).wf(),
        ensures
            final(self).wf(),
            final(self).spec_mode() == old(self).spec_mode(),
            final(self).spec_loop() == old(self).spec_loop(),
            final(self).spec_peers() == old(self).spec_peers(),
            final(self).spec_pending() == Seq::<(u128, Seq<u8>)>::empty(),
            r.frame_count == old(self).spec_loop().frames,
            r.timestamp_millis == timestamp_millis,
            r.messages@.map_values(|m: PeerMessage| (m.peer, m.data@)) == old(self).spec_pending(),
            r.keys == keys,
            r.mouse_buttons == mouse_buttons,
            forall|p: u128, s: PeerState| r.peers@.contains((p, s)) <==> old(self).spec_peers().contains_key(p)
                && old(self).spec_peers()[p] == s,
    {
        let peers = self.inbound.peers().to_vec();
        proof {
            let t = self.inbound.spec_peers();
            assert forall|p: u128, s: PeerState| peers@.contains((p, s)) <==> t@.contains_key(p) && t@[p] == s by {
                if peers@.contains((p, s)) {
                    let i = choose|i: int| 0 <= i < peers@.len() && peers@[i] == (p, s);
                    t.lemma_entry_in_view(i);
                }
                if t@.contains_key(p) && t@[p] == s {
                    let i = choose|i: int| 0 <= i < t.entries().len() && (#[trigger] t.entries()[i]).0 == p;
                    t.lemma_entry_in_view(i);
                    assert(peers@[i] == (p, s));
                }
            }
        }
        let messages = self.inbound.take_messages();
        FrameSnapshot {
            frame_count: self.lifecycle.frame_count(),
            timestamp_millis,
            peers,
            messages,
            keys,
            mouse_buttons,
        }
    }
}

} // verus!
