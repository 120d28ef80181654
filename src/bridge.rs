use vstd::prelude::*;

verus! {

/// Capacity of the channel from the frame loop to the network worker.
pub const MAIN_TO_WORKER_BUFFER_SIZE: usize = 100;

/// Capacity of the channel from the network worker to the frame loop.
pub const WORKER_TO_MAIN_BUFFER_SIZE: usize = 1000;

/// The connection state of a remote peer.
#[derive(Clone, Copy, Debug, PartialEq, Eq, Structural)]
pub enum PeerState {
    Connected,
    Disconnected,
}

/// What the frame loop sends to the worker.
#[derive(Clone, Copy, Debug, PartialEq, Eq, Structural)]
pub enum MainToWorkerMsg {
    /// One frame has passed.
    Tick,
    /// The frame loop is stopping; the worker should finish.
    Shutdown,
}

/// What the worker sends to the frame loop. Peers are named by their
/// 128-bit identifier.
#[derive(Debug)]
pub enum WorkerToMainMsg {
    /// The worker is alive and idle.
    Tock,
    PeerConnected(u128),
    PeerDisconnected(u128),
    MessageReceived(u128, Vec<u8>),
    /// A transient failure on the worker's side, for the log.
    Error(String),
}

/// A message from a peer, as handed to the embedded program.
#[derive(Debug)]
pub struct PeerMessage {
    pub peer: u128,
    pub data: Vec<u8>,
}

/// The state of each known peer, keyed by identifier, in the order in which
/// peers were first seen.
pub struct PeerTable {
    entries: Vec<(u128, PeerState)>,
}

impl PeerTable {
    pub closed spec fn entries(&self) -> Seq<(u128, PeerState)> {
        self.entries@
    }

    /// The table as a map from peer to state.
    pub open spec fn view(&self) -> Map<u128, PeerState> {
        Map::new(
            |p: u128| exists|i: int| 0 <= i < self.entries().len() && (#[trigger] self.entries()[i]).0 == p,
            |p: u128| self.entries()[choose|i: int| 0 <= i < self.entries().len() && (#[trigger] self.entries()[i]).0 == p].1,
        )
    }

    /// Each peer appears once.
    pub open spec fn wf(&self) -> bool {
        forall|i: int, j: int|
            0 <= i < self.entries().len() && 0 <= j < self.entries().len() && i != j ==> (#[trigger] self.entries()[i]).0
                != (#[trigger] self.entries()[j]).0
    }

    /// Entry `i` of the table is what the map view gives for its peer.
    pub proof fn lemma_entry_in_view(&self, i: int)
        requires
            self.wf(),
            0 <= i < self.entries().len(),
        ensures
            self@.contains_key(self.entries()[i].0),
            self@[self.entries()[i].0] == self.entries()[i].1,
    {
        let p = self.entries()[i].0;
        assert(exists|k: int| 0 <= k < self.entries().len() && (#[trigger] self.entries()[k]).0 == p);
        let k = choose|k: int| 0 <= k < self.entries().len() && (#[trigger] self.entries()[k]).0 == p;
        assert(k == i);
    }

    pub fn new() -> (r: PeerTable)
        ensures
            r.wf(),
            r@ == Map::<u128, PeerState>::empty(),
    {
        let r = PeerTable { entries: Vec::new() };
        assert(r@ =~= Map::<u128, PeerState>::empty());
        r
    }

    pub fn len(&self) -> (r: usize)
        requires
            self.wf(),
        ensures
            r == self@.len(),
            r == self.entries().len(),
    {
        proof {
            self.lemma_key_count();
        }
        self.entries.len()
    }

    proof fn lemma_key_count(&self)
        requires
            self.wf(),
        ensures
            self@.dom() == self.entries().map_values(|e: (u128, PeerState)| e.0).to_set(),
            self@.len() == self.entries().len(),
    {
        let keys = self.entries().map_values(|e: (u128, PeerState)| e.0);
        assert(self@.dom() =~= keys.to_set()) by {
            assert forall|p: u128| self@.dom().contains(p) implies keys.to_set().contains(p) by {
                let k = choose|k: int| 0 <= k < self.entries().len() && (#[trigger] self.entries()[k]).0 == p;
                assert(keys[k] == p);
            }
            assert forall|p: u128| keys.to_set().contains(p) implies self@.dom().contains(p) by {
                let k = choose|k: int| 0 <= k < keys.len() && keys[k] == p;
                assert(self.entries()[k].0 == p);
            }
        }
        assert(keys.no_duplicates()) by {
            assert forall|i: int, j: int| 0 <= i < keys.len() && 0 <= j < keys.len() && i != j implies keys[i] != keys[j] by {
                assert(keys[i] == self.entries()[i].0 && keys[j] == self.entries()[j].0);
            }
        }
        keys.unique_seq_to_set();
    }

    /// The state of `peer`, if it has been seen.
    pub fn get(&self, peer: u128) -> (r: Option<PeerState>)
        requires
            self.wf(),
        ensures
            r == (if self@.contains_key(peer) { Some(self@[peer]) } else { None }),
    {
        let mut i: usize = 0;
        while i < self.entries.len()
            invariant
                self.wf(),
                i <= self.entries@.len(),
                forall|j: int| 0 <= j < i ==> (#[trigger] self.entries()[j]).0 != peer,
            decreases self.entries@.len() - i,
        {
            if self.entries[i].0 == peer {
                proof {
                    self.lemma_entry_in_view(i as int);
                }
                return Some(self.entries[i].1);
            }
            i = i + 1;
        }
        None
    }

    /// Records `state` for `peer`, adding the peer when it is new.
    pub fn set(&mut self, peer: u128, state: PeerState)
        requires
            old(self).wf(),
        ensures
            final(self).wf(),
            final(self)@ == old(self)@.insert(peer, state),
    {
        let mut i: usize = 0;
        while i < self.entries.len()
            invariant
                *self == *old(self),
                old(self).wf(),
                i <= self.entries@.len(),
                forall|j: int| 0 <= j < i ==> (#[trigger] self.entries()[j]).0 != peer,
            decreases self.entries@.len() - i,
        {
            if self.entries[i].0 == peer {
                self.entries.set(i, (peer, state));
                proof {
                    assert forall|a: int, b: int|
                        0 <= a < self.entries().len() && 0 <= b < self.entries().len() && a != b implies (#[trigger] self.entries()[a]).0
                            != (#[trigger] self.entries()[b]).0 by {
                        assert(old(self).entries()[a].0 != old(self).entries()[b].0);
                    }
                    assert forall|p: u128| #[trigger] self@.contains_key(p) == old(self)@.insert(peer, state).contains_key(p) by {
                        if old(self)@.contains_key(p) {
                            let k = choose|k: int| 0 <= k < old(self).entries().len() && (#[trigger] old(self).entries()[k]).0 == p;
                            assert(self.entries()[k].0 == p);
                        }
                        if self@.contains_key(p) {
                            let k = choose|k: int| 0 <= k < self.entries().len() && (#[trigger] self.entries()[k]).0 == p;
                            assert(old(self).entries()[k].0 == p);
                        }
                    }
                    assert forall|p: u128| #[trigger] self@.contains_key(p) implies self@[p] == old(self)@.insert(peer, state)[p] by {
                        let k = choose|k: int| 0 <= k < self.entries().len() && (#[trigger] self.entries()[k]).0 == p;
                        self.lemma_entry_in_view(k);
                        if p != peer {
                            old(self).lemma_entry_in_view(k);
                        }
                    }
                    assert(self@ =~= old(self)@.insert(peer, state));
                }
                return;
            }
            i = i + 1;
        }
        self.entries.push((peer, state));
        proof {
            let n = old(self).entries().len() as int;
            assert(self.entries()[n].0 == peer);
            assert forall|p: u128| #[trigger] self@.contains_key(p) == old(self)@.insert(peer, state).contains_key(p) by {
                if old(self)@.contains_key(p) {
                    let k = choose|k: int| 0 <= k < old(self).entries().len() && (#[trigger] old(self).entries()[k]).0 == p;
                    assert(self.entries()[k].0 == p);
                }
                if self@.contains_key(p) && p != peer {
                    let k = choose|k: int| 0 <= k < self.entries().len() && (#[trigger] self.entries()[k]).0 == p;
                    assert(old(self).entries()[k].0 == p);
                }
            }
            assert forall|p: u128| #[trigger] self@.contains_key(p) implies self@[p] == old(self)@.insert(peer, state)[p] by {
                let k = choose|k: int| 0 <= k < self.entries().len() && (#[trigger] self.entries()[k]).0 == p;
                self.lemma_entry_in_view(k);
                if p != peer {
                    old(self).lemma_entry_in_view(k);
                }
            }
            assert(self@ =~= old(self)@.insert(peer, state));
        }
    }

    /// The peers and their states, in the order in which they were first seen.
    pub fn to_vec(&self) -> (r: Vec<(u128, PeerState)>)
        ensures
            r@ == self.entries(),
    {
        let mut r: Vec<(u128, PeerState)> = Vec::new();
        let mut i: usize = 0;
        while i < self.entries.len()
            invariant
                i <= self.entries@.len(),
                r@ == self.entries@.subrange(0, i as int),
            decreases self.entries@.len() - i,
        {
            let e = self.entries[i];
            r.push(e);
            assert(r@ =~= self.entries@.subrange(0, i + 1));
            i = i + 1;
        }
        assert(self.entries@.subrange(0, i as int) =~= self.entries@);
        r
    }
}


/// The peer table after the frame loop handles `msg`.
pub open spec fn peer_update(m: Map<u128, PeerState>, msg: WorkerToMainMsg) -> Map<u128, PeerState> {
    match msg {
        WorkerToMainMsg::PeerConnected(p) => m.insert(p, PeerState::Connected),
        WorkerToMainMsg::PeerDisconnected(p) => m.insert(p, PeerState::Disconnected),
        _ => m,
    }
}

/// The peer table after the frame loop handles `msgs` in order.
pub open spec fn peers_after(m: Map<u128, PeerState>, msgs: Seq<WorkerToMainMsg>) -> Map<u128, PeerState>
    decreases msgs.len(),
{
    if msgs.len() == 0 {
        m
    } else {
        peer_update(peers_after(m, msgs.drop_last()), msgs.last())
    }
}

/// The state that the last connect or disconnect of `p` in `msgs` announces.
pub open spec fn last_announced(msgs: Seq<WorkerToMainMsg>, p: u128) -> Option<PeerState>
    decreases msgs.len(),
{
    if msgs.len() == 0 {
        None
    } else {
        match msgs.last() {
            WorkerToMainMsg::PeerConnected(q) if q == p => Some(PeerState::Connected),
            WorkerToMainMsg::PeerDisconnected(q) if q == p => Some(PeerState::Disconnected),
            _ => last_announced(msgs.drop_last(), p),
        }
    }
}

/// The messages from peers in `msgs`, in order.
pub open spec fn received(msgs: Seq<WorkerToMainMsg>) -> Seq<(u128, Seq<u8>)>
    decreases msgs.len(),
{
    if msgs.len() == 0 {
        Seq::empty()
    } else {
        match msgs.last() {
            WorkerToMainMsg::MessageReceived(p, d) => received(msgs.drop_last()).push((p, d@)),
            _ => received(msgs.drop_last()),
        }
    }
}

/// The texts of the worker errors in `msgs`, in order.
pub open spec fn worker_errors(msgs: Seq<WorkerToMainMsg>) -> Seq<String>
    decreases msgs.len(),
{
    if msgs.len() == 0 {
        Seq::empty()
    } else {
        match msgs.last() {
            WorkerToMainMsg::Error(e) => worker_errors(msgs.drop_last()).push(e),
            _ => worker_errors(msgs.drop_last()),
        }
    }
}

proof fn lemma_received_single(m: WorkerToMainMsg)
    ensures
        received(seq![m]) == match m {
            WorkerToMainMsg::MessageReceived(p, d) => seq![(p, d@)],
            _ => Seq::<(u128, Seq<u8>)>::empty(),
        },
{
    let one = seq![m];
    assert(one.drop_last() =~= Seq::<WorkerToMainMsg>::empty());
    assert(one.last() == m);
    assert(received(Seq::<WorkerToMainMsg>::empty()) == Seq::<(u128, Seq<u8>)>::empty());
    match m {
        WorkerToMainMsg::MessageReceived(p, d) => {
            assert(Seq::<(u128, Seq<u8>)>::empty().push((p, d@)) =~= seq![(p, d@)]);
        },
        _ => {},
    }
}

proof fn lemma_received_push(s: Seq<WorkerToMainMsg>, m: WorkerToMainMsg)
    ensures
        received(s.push(m)) == received(s) + received(seq![m]),
{
    lemma_received_single(m);
    assert(s.push(m).drop_last() =~= s);
    assert(seq![m].drop_last() =~= Seq::<WorkerToMainMsg>::empty());
    assert(received(s) + Seq::<(u128, Seq<u8>)>::empty() =~= received(s));
    match m {
        WorkerToMainMsg::MessageReceived(p, d) => {
            assert(received(s).push((p, d@)) =~= received(s) + seq![(p, d@)]);
            assert(Seq::<(u128, Seq<u8>)>::empty().push((p, d@)) =~= seq![(p, d@)]);
        },
        _ => {},
    }
}

/// Messages are handled in the order in which they were sent: after any run
/// of messages, a peer's state is the one its last connect or disconnect
/// announced, and a peer that none of them names keeps its earlier state.
pub proof fn lemma_last_announcement_wins(m: Map<u128, PeerState>, msgs: Seq<WorkerToMainMsg>, p: u128)
    ensures
        match last_announced(msgs, p) {
            Some(s) => peers_after(m, msgs).contains_key(p) && peers_after(m, msgs)[p] == s,
            None => peers_after(m, msgs).contains_key(p) == m.contains_key(p) && (m.contains_key(p)
                ==> peers_after(m, msgs)[p] == m[p]),
        },
    decreases msgs.len(),
{
    if msgs.len() > 0 {
        lemma_last_announcement_wins(m, msgs.drop_last(), p);
    }
}

/// Handling a run of messages in two parts, one after the other, is handling
/// the whole run.
pub proof fn lemma_peers_after_concat(m: Map<u128, PeerState>, a: Seq<WorkerToMainMsg>, b: Seq<WorkerToMainMsg>)
    ensures
        peers_after(m, a + b) == peers_after(peers_after(m, a), b),
    decreases b.len(),
{
    if b.len() == 0 {
        assert(a + b =~= a);
    } else {
        assert((a + b).drop_last() =~= a + b.drop_last());
        lemma_peers_after_concat(m, a, b.drop_last());
    }
}

/// What the frame loop keeps from the worker's messages between two frames:
/// the peer table and the peer messages not yet handed to the embedded program.
pub struct Inbound {
    peers: PeerTable,
    messages: Vec<PeerMessage>,
}

impl Inbound {
    pub open spec fn wf(&self) -> bool {
        self.spec_peers().wf()
    }

    pub closed spec fn spec_peers(&self) -> PeerTable {
        self.peers
    }

    /// The pending peer messages, as peer and bytes.
    pub closed spec fn pending(&self) -> Seq<(u128, Seq<u8>)> {
        self.messages@.map_values(|m: PeerMessage| (m.peer, m.data@))
    }

    pub fn new() -> (r: Inbound)
        ensures
            r.wf(),
            r.spec_peers()@ == Map::<u128, PeerState>::empty(),
            r.pending() == Seq::<(u128, Seq<u8>)>::empty(),
    {
        let r = Inbound { peers: PeerTable::new(), messages: Vec::new() };
        assert(r.pending() =~= Seq::<(u128, Seq<u8>)>::empty());
        r
    }

    pub fn peers(&self) -> (r: &PeerTable)
        ensures
            *r == self.spec_peers(),
    {
        &self.peers
    }

    /// Handles one message from the worker: peer connects and disconnects
    /// update the table, peer messages wait for the next frame, and a worker
    /// error is handed back for the log.
    pub fn receive(&mut self, msg: WorkerToMainMsg) -> (log: Option<String>)
        requires
            old(self).wf(),
        ensures
            final(self).wf(),
            final(self).spec_peers()@ == peer_update(old(self).spec_peers()@, msg),
            final(self).pending() == old(self).pending() + received(seq![msg]),
            log == match msg {
                WorkerToMainMsg::Error(e) => Some(e),
                _ => None::<String>,
            },
    {
        let ghost m = msg;
        proof {
            lemma_received_single(m);
        }
        match msg {
            WorkerToMainMsg::Tock => {
                assert(self.pending() =~= old(self).pending() + received(seq![m]));
                None
            },
            WorkerToMainMsg::PeerConnected(p) => {
                self.peers.set(p, PeerState::Connected);
                assert(self.messages@ == old(self).messages@);
                assert(self.pending() =~= old(self).pending() + received(seq![m]));
                None
            },
            WorkerToMainMsg::PeerDisconnected(p) => {
                self.peers.set(p, PeerState::Disconnected);
                assert(self.messages@ == old(self).messages@);
                assert(self.pending() =~= old(self).pending() + received(seq![m]));
                None
            },
            WorkerToMainMsg::MessageReceived(p, data) => {
                self.messages.push(PeerMessage { peer: p, data });
                assert(self.pending() =~= old(self).pending() + received(seq![m]));
                None
            },
            WorkerToMainMsg::Error(e) => {
                assert(self.pending() =~= old(self).pending() + received(seq![m]));
                Some(e)
            },
        }
    }

    /// Handles the messages of `msgs` in order and returns the worker errors
    /// among them, in order.
    pub fn receive_all(&mut self, msgs: Vec<WorkerToMainMsg>) -> (errors: Vec<String>)
        requires
            old(self).wf(),
        ensures
            final(self).wf(),
            final(self).spec_peers()@ == peers_after(old(self).spec_peers()@, msgs@),
            final(self).pending() == old(self).pending() + received(msgs@),
            errors@ == worker_errors(msgs@),
    {
        let mut errors: Vec<String> = Vec::new();
        let mut rest = msgs;
        let ghost all = rest@;
        let mut msgs_rev: Vec<WorkerToMainMsg> = Vec::new();
        while rest.len() > 0
            invariant
                rest@.len() + msgs_rev@.len() == all.len(),
                forall|k: int| 0 <= k < rest@.len() ==> rest@[k] == all[k],
                forall|k: int| 0 <= k < msgs_rev@.len() ==> msgs_rev@[k] == all[all.len() - 1 - k],
            decreases rest@.len(),
        {
            let m = rest.pop().unwrap();
            msgs_rev.push(m);
        }
        while msgs_rev.len() > 0
            invariant
                self.wf(),
                msgs_rev@.len() <= all.len(),
                forall|k: int| 0 <= k < msgs_rev@.len() ==> msgs_rev@[k] == all[all.len() - 1 - k],
                self.spec_peers()@ == peers_after(old(self).spec_peers()@, all.subrange(0, all.len() - msgs_rev@.len())),
                self.pending() == old(self).pending() + received(all.subrange(0, all.len() - msgs_rev@.len())),
                errors@ == worker_errors(all.subrange(0, all.len() - msgs_rev@.len())),
            decreases msgs_rev@.len(),
        {
            let ghost done = all.subrange(0, all.len() - msgs_rev@.len());
            let m = msgs_rev.pop().unwrap();
            let ghost next = all.subrange(0, all.len() - msgs_rev@.len());
            proof {
                assert(next.drop_last() =~= done);
                assert(next.last() == m);
                assert(seq![m].drop_last() =~= Seq::<WorkerToMainMsg>::empty());
            }
            match self.receive(m) {
                Some(e) => errors.push(e),
                None => {},
            }
            proof {
                lemma_received_push(done, m);
                assert(next =~= done.push(m));
                assert(next.drop_last() == done);
                assert(self.pending() =~= old(self).pending() + received(next));
            }
        }
        assert(all.subrange(0, all.len() as int) =~= all);
        errors
    }

    /// Hands the pending peer messages over, in the order they arrived, and
    /// forgets them.
    pub fn take_messages(&mut self) -> (r: Vec<PeerMessage>)
        requires
            old(self).wf(),
        ensures
            final(self).wf(),
            final(self).spec_peers() == old(self).spec_peers(),
            final(self).pending() == Seq::<(u128, Seq<u8>)>::empty(),
            r@.map_values(|m: PeerMessage| (m.peer, m.data@)) == old(self).pending(),
    {
        let mut r: Vec<PeerMessage> = Vec::new();
        core::mem::swap(&mut r, &mut self.messages);
        assert(self.pending() =~= Seq::<(u128, Seq<u8>)>::empty());
        r
    }
}

} // verus!
