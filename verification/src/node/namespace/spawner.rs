//! The steps by which nodes are started in namespaces, one after the other.
//!
//! A `Spawner` says what to do next, and is told how it went. A node that cannot be started is
//! cleaned up and passed over.

use vstd::prelude::*;

verus! {

/// How far the start of the current node has come.
#[derive(Clone, Copy, Debug, PartialEq, Eq, Structural)]
pub enum Stage {
    /// The bridge and the veth pair of the node are being prepared.
    Preparing,
    /// Its process is being started.
    Starting { veth: u32, peer: u32 },
    /// Its end of the veth pair is being moved into its namespace.
    Joining { veth: u32, pid: i32 },
    /// It is setting up its end of the veth pair.
    Handshaking { veth: u32, pid: i32 },
    /// The other end is being brought up.
    BringingUp { veth: u32, pid: i32 },
    /// The link of the veth pair is being established.
    AwaitingCarrier { pid: i32 },
    /// It has started, and the next node waits for a moment.
    Pausing,
    /// It could not be started, and its traces are being removed.
    Cleaning,
    /// All nodes were tried.
    Finished,
}

/// What to do next.
#[derive(Clone, Copy, Debug, PartialEq, Eq, Structural)]
pub enum SpawnAction {
    /// Make sure that the bridge exists, and create the veth pair of a node.
    Prepare { idx: usize },
    /// Start the process of a node, which sets up an end of its veth pair.
    Start { idx: usize, peer: u32 },
    /// Move an end of the veth pair into the namespace of a process.
    Join { peer: u32, pid: i32 },
    /// Give the process a moment to start, and wait until it has set up its end.
    AwaitHandshake,
    /// Bring up the other end.
    BringUp { veth: u32 },
    /// Wait until the link is established.
    AwaitCarrier { veth: u32 },
    /// Kill a process, wait for its end, and delete the veth pair of the node.
    CleanUp { idx: usize, pid: i32 },
    /// Wait before the next node.
    Pause,
    /// Wait for the signal to shut down.
    AwaitShutdown,
}

/// How an action went.
#[derive(Clone, Copy, Debug, PartialEq, Eq, Structural)]
pub enum SpawnEvent {
    /// The network is prepared.
    Prepared { bridge: u32, veth: u32, peer: u32 },
    /// The process was started.
    Started { pid: i32 },
    /// Any other action is done.
    Done,
    Failed,
}

/// The state of the start of all nodes.
#[verifier::ext_equal]
pub struct Spawning {
    pub n_nodes: usize,
    /// The place of the current node.
    pub idx: usize,
    pub stage: Stage,
    pub bridge_idx: Option<u32>,
    /// The processes of the nodes that have started, and of the current one.
    pub children: Seq<i32>,
}

impl Spawning {
    /// The start of a node, or the end where there is none left.
    pub open spec fn at(self, idx: usize) -> Spawning {
        Spawning {
            idx,
            stage: if idx < self.n_nodes {
                Stage::Preparing
            } else {
                Stage::Finished
            },
            ..self
        }
    }

    /// The start of the next node.
    pub open spec fn next(self) -> Spawning {
        self.at((self.idx + 1) as usize)
    }

    /// The current node has come to a stage.
    pub open spec fn to(self, stage: Stage) -> Spawning {
        Spawning { stage, ..self }
    }

    /// The current node is given up after its process was started.
    pub open spec fn given_up(self) -> Spawning {
        Spawning { stage: Stage::Cleaning, children: self.children.drop_last(), ..self }
    }

    /// What an event leads to. An event that does not belong to the stage counts as a failure.
    pub open spec fn after(self, event: SpawnEvent) -> Spawning {
        match (self.stage, event) {
            (Stage::Preparing, SpawnEvent::Prepared { bridge, veth, peer }) => Spawning {
                bridge_idx: Some(bridge),
                ..self.to(Stage::Starting { veth, peer })
            },
            (Stage::Starting { veth, .. }, SpawnEvent::Started { pid }) => Spawning {
                children: self.children.push(pid),
                ..self.to(Stage::Joining { veth, pid })
            },
            (Stage::Joining { veth, pid }, SpawnEvent::Done) => self.to(
                Stage::Handshaking { veth, pid },
            ),
            (Stage::Handshaking { veth, pid }, SpawnEvent::Done) => self.to(
                Stage::BringingUp { veth, pid },
            ),
            (Stage::BringingUp { pid, .. }, SpawnEvent::Done) => self.to(
                Stage::AwaitingCarrier { pid },
            ),
            (Stage::AwaitingCarrier { .. }, SpawnEvent::Done) => self.to(Stage::Pausing),
            (Stage::Preparing, _) | (Stage::Starting { .. }, _) | (Stage::Pausing, _) | (
                Stage::Cleaning,
                _,
            ) => self.next(),
            (Stage::Finished, _) => self,
            _ => self.given_up(),
        }
    }

    /// The process of the current node, from its start on.
    pub open spec fn pid(self) -> Option<i32> {
        match self.stage {
            Stage::Joining { pid, .. } => Some(pid),
            Stage::Handshaking { pid, .. } => Some(pid),
            Stage::BringingUp { pid, .. } => Some(pid),
            Stage::AwaitingCarrier { pid } => Some(pid),
            _ => None,
        }
    }

    /// What to do after an event.
    pub open spec fn action_after(self, event: SpawnEvent) -> SpawnAction {
        let later = self.after(event);
        match later.stage {
            Stage::Preparing => SpawnAction::Prepare { idx: later.idx },
            Stage::Starting { peer, .. } => SpawnAction::Start { idx: later.idx, peer },
            Stage::Joining { pid, .. } => SpawnAction::Join {
                peer: self.stage->Starting_peer,
                pid,
            },
            Stage::Handshaking { .. } => SpawnAction::AwaitHandshake,
            Stage::BringingUp { veth, .. } => SpawnAction::BringUp { veth },
            Stage::AwaitingCarrier { .. } => SpawnAction::AwaitCarrier {
                veth: self.stage->BringingUp_veth,
            },
            Stage::Pausing => SpawnAction::Pause,
            Stage::Cleaning => SpawnAction::CleanUp { idx: later.idx, pid: self.pid()->0 },
            Stage::Finished => SpawnAction::AwaitShutdown,
        }
    }

    /// The current node is one of the nodes, its process is the last one, and no more nodes have a
    /// process than were tried.
    pub open spec fn inv(self) -> bool {
        &&& self.stage is Finished == (self.idx == self.n_nodes)
        &&& self.idx <= self.n_nodes
        &&& self.pid() matches Some(pid) ==> self.children.len() > 0 && self.children.last() == pid
        &&& self.children.len() <= self.idx + 1
        &&& self.stage !is Pausing && self.pid() is None ==> self.children.len() <= self.idx
    }

    /// What is left to do, as a number.
    pub open spec fn work(self) -> int {
        let left = self.n_nodes - self.idx;
        let stage = match self.stage {
            Stage::Preparing => 8int,
            Stage::Starting { .. } => 7,
            Stage::Joining { .. } => 6,
            Stage::Handshaking { .. } => 5,
            Stage::BringingUp { .. } => 4,
            Stage::AwaitingCarrier { .. } => 3,
            Stage::Pausing => 2,
            Stage::Cleaning => 1,
            Stage::Finished => 0,
        };
        left * 9 + stage
    }
}

/// The steps keep the state sound, whatever happens.
pub proof fn law_spawning_stays_sound(state: Spawning, event: SpawnEvent)
    requires
        state.inv(),
    ensures
        state.after(event).inv(),
{
}

/// Every step brings the start of the nodes closer to its end, whatever happens.
pub proof fn law_spawning_ends(state: Spawning, event: SpawnEvent)
    requires
        state.inv(),
        state.stage !is Finished,
    ensures
        0 <= state.after(event).work() < state.work(),
{
}

/// A node that fails after its process was started leaves nothing behind: the process is killed
/// and no longer counts, and its veth pair is deleted. The other processes stay.
pub proof fn law_failed_node_is_cleaned_up(state: Spawning, event: SpawnEvent)
    requires
        state.inv(),
        state.pid() is Some,
        event !is Done,
    ensures
        state.action_after(event) == (SpawnAction::CleanUp { idx: state.idx, pid: state.pid()->0 }),
        state.after(event).children + seq![state.pid()->0] == state.children,
{
    assert(state.children.drop_last() + seq![state.children.last()] =~= state.children);
}

/// A process counts from its start, and the only thing that ends this is a failure of its node.
pub proof fn law_started_nodes_stay(state: Spawning, event: SpawnEvent)
    requires
        state.inv(),
        state.pid() is None,
    ensures
        state.children.is_prefix_of(state.after(event).children),
{
}

/// Starts nodes in namespaces.
#[derive(Debug)]
pub struct Spawner {
    pub n_nodes: usize,
    pub idx: usize,
    pub stage: Stage,
    pub bridge_idx: Option<u32>,
    pub children: Vec<i32>,
}

impl View for Spawner {
    type V = Spawning;

    open spec fn view(&self) -> Spawning {
        Spawning {
            n_nodes: self.n_nodes,
            idx: self.idx,
            stage: self.stage,
            bridge_idx: self.bridge_idx,
            children: self.children@,
        }
    }
}

impl Spawner {
    /// The start of the first node, and what to do for it.
    pub fn new(n_nodes: usize) -> (spawner: (Self, SpawnAction))
        ensures
            spawner.0@.inv(),
            spawner.0@ == (Spawning {
                n_nodes,
                idx: 0,
                stage: if n_nodes > 0 {
                    Stage::Preparing
                } else {
                    Stage::Finished
                },
                bridge_idx: None,
                children: Seq::empty(),
            }),
            spawner.1 == if n_nodes > 0 {
                SpawnAction::Prepare { idx: 0 }
            } else {
                SpawnAction::AwaitShutdown
            },
    {
        let mut spawner = Spawner {
            n_nodes,
            idx: 0,
            stage: Stage::Finished,
            bridge_idx: None,
            children: Vec::new(),
        };
        let action = if n_nodes > 0 {
            spawner.stage = Stage::Preparing;
            SpawnAction::Prepare { idx: 0 }
        } else {
            SpawnAction::AwaitShutdown
        };
        (spawner, action)
    }

    fn next_node(&mut self) -> (action: SpawnAction)
        requires
            old(self)@.inv(),
            old(self).stage !is Finished,
        ensures
            final(self)@ == old(self)@.next(),
            action == if old(self).idx + 1 < old(self).n_nodes {
                SpawnAction::Prepare { idx: (old(self).idx + 1) as usize }
            } else {
                SpawnAction::AwaitShutdown
            },
    {
        self.idx = self.idx + 1;
        if self.idx < self.n_nodes {
            self.stage = Stage::Preparing;
            SpawnAction::Prepare { idx: self.idx }
        } else {
            self.stage = Stage::Finished;
            SpawnAction::AwaitShutdown
        }
    }

    fn give_up(&mut self, pid: i32) -> (action: SpawnAction)
        requires
            old(self)@.inv(),
            old(self)@.pid() == Some(pid),
        ensures
            final(self)@ == old(self)@.given_up(),
            action == (SpawnAction::CleanUp { idx: old(self).idx, pid }),
    {
        self.children.pop();
        self.stage = Stage::Cleaning;
        SpawnAction::CleanUp { idx: self.idx, pid }
    }

    /// Takes note of how an action went, and says what to do next.
    pub fn handle(&mut self, event: SpawnEvent) -> (action: SpawnAction)
        requires
            old(self)@.inv(),
        ensures
            final(self)@.inv(),
            final(self)@ == old(self)@.after(event),
            action == old(self)@.action_after(event),
    {
        match self.stage {
            Stage::Preparing => match event {
                SpawnEvent::Prepared { bridge, veth, peer } => {
                    self.bridge_idx = Some(bridge);
                    self.stage = Stage::Starting { veth, peer };
                    SpawnAction::Start { idx: self.idx, peer }
                },
                _ => self.next_node(),
            },
            Stage::Starting { veth, peer } => match event {
                SpawnEvent::Started { pid } => {
                    self.children.push(pid);
                    self.stage = Stage::Joining { veth, pid };
                    SpawnAction::Join { peer, pid }
                },
                _ => self.next_node(),
            },
            Stage::Joining { veth, pid } => match event {
                SpawnEvent::Done => {
                    self.stage = Stage::Handshaking { veth, pid };
                    SpawnAction::AwaitHandshake
                },
                _ => self.give_up(pid),
            },
            Stage::Handshaking { veth, pid } => match event {
                SpawnEvent::Done => {
                    self.stage = Stage::BringingUp { veth, pid };
                    SpawnAction::BringUp { veth }
                },
                _ => self.give_up(pid),
            },
            Stage::BringingUp { veth, pid } => match event {
                SpawnEvent::Done => {
                    self.stage = Stage::AwaitingCarrier { pid };
                    SpawnAction::AwaitCarrier { veth }
                },
                _ => self.give_up(pid),
            },
            Stage::AwaitingCarrier { pid } => match event {
                SpawnEvent::Done => {
                    self.stage = Stage::Pausing;
                    SpawnAction::Pause
                },
                _ => self.give_up(pid),
            },
            Stage::Pausing => self.next_node(),
            Stage::Cleaning => self.next_node(),
            Stage::Finished => SpawnAction::AwaitShutdown,
        }
    }
}

/// What a parent reads from the pipe to a process that sets up its network.
#[derive(Clone, Copy, Debug, PartialEq, Eq, Structural)]
pub enum HandshakeRead {
    /// A number of bytes.
    Bytes(usize),
    /// Nothing yet.
    WouldBlock,
    Error,
}

/// Decides after a read whether the handshake is over, and whether it succeeded: one byte tells of
/// success, and anything but an empty pipe tells of failure.
pub fn handshake_outcome(read: HandshakeRead) -> (outcome: Option<bool>)
    ensures
        outcome == match read {
            HandshakeRead::Bytes(n) => Some(n == 1),
            HandshakeRead::WouldBlock => None,
            HandshakeRead::Error => Some(false),
        },
{
    match read {
        HandshakeRead::Bytes(n) => Some(n == 1),
        HandshakeRead::WouldBlock => None,
        HandshakeRead::Error => Some(false),
    }
}

/// What is known of a process that was told to end.
#[derive(Clone, Copy, Debug, PartialEq, Eq, Structural)]
pub enum ChildStatus {
    Exited,
    Signaled,
    StillAlive,
    /// Any other state.
    Other,
    /// Its state cannot be read.
    Unknown,
}

/// Whether a process is still waited for.
pub open spec fn is_remaining(status: ChildStatus) -> bool {
    status is StillAlive || status is Other
}

/// The processes among `pids` that are still waited for.
pub open spec fn remaining_of(pids: Seq<i32>, statuses: Seq<ChildStatus>) -> Seq<i32>
    decreases pids.len(),
{
    if pids.len() == 0 {
        Seq::empty()
    } else {
        let earlier = remaining_of(pids.drop_last(), statuses);
        if is_remaining(statuses[pids.len() - 1]) {
            earlier.push(pids.last())
        } else {
            earlier
        }
    }
}

/// The processes that are still waited for, in their order.
pub fn remaining_children(pids: &Vec<i32>, statuses: &Vec<ChildStatus>) -> (remaining: Vec<i32>)
    requires
        statuses@.len() == pids@.len(),
    ensures
        remaining@ == remaining_of(pids@, statuses@),
{
    let mut remaining: Vec<i32> = Vec::new();
    let mut i: usize = 0;
    assert(pids@.take(0) =~= Seq::<i32>::empty());
    while i < pids.len()
        invariant
            i <= pids@.len(),
            statuses@.len() == pids@.len(),
            remaining@ == remaining_of(pids@.take(i as int), statuses@),
        decreases pids@.len() - i,
    {
        assert(pids@.take(i + 1).drop_last() =~= pids@.take(i as int));
        match statuses[i] {
            ChildStatus::StillAlive | ChildStatus::Other => {
                remaining.push(pids[i]);
            },
            _ => {},
        }
        i = i + 1;
    }
    assert(pids@.take(i as int) =~= pids@);
    remaining
}

/// A node whose steps all go well is started in this order: its network is prepared, its process is
/// started, its end of the veth pair joins the namespace of the process, and when the process has set
/// it up, the other end is brought up and the link awaited. Its process then counts, and the next node
/// follows after a pause.
pub proof fn law_node_starts_step_by_step(
    state: Spawning,
    bridge: u32,
    veth: u32,
    peer: u32,
    pid: i32,
)
    requires
        state.stage is Preparing,
        state.idx < state.n_nodes,
    ensures
        ({
            let prepared = SpawnEvent::Prepared { bridge, veth, peer };
            let started = SpawnEvent::Started { pid };
            let one = state.after(prepared);
            let two = one.after(started);
            let three = two.after(SpawnEvent::Done);
            let four = three.after(SpawnEvent::Done);
            let five = four.after(SpawnEvent::Done);
            let six = five.after(SpawnEvent::Done);
            let seven = six.after(SpawnEvent::Done);
            &&& state.action_after(prepared) == (SpawnAction::Start { idx: state.idx, peer })
            &&& one.action_after(started) == (SpawnAction::Join { peer, pid })
            &&& two.action_after(SpawnEvent::Done) == SpawnAction::AwaitHandshake
            &&& three.action_after(SpawnEvent::Done) == (SpawnAction::BringUp { veth })
            &&& four.action_after(SpawnEvent::Done) == (SpawnAction::AwaitCarrier { veth })
            &&& five.action_after(SpawnEvent::Done) == SpawnAction::Pause
            &&& six.action_after(SpawnEvent::Done) == if state.idx + 1 < state.n_nodes {
                SpawnAction::Prepare { idx: (state.idx + 1) as usize }
            } else {
                SpawnAction::AwaitShutdown
            }
            &&& seven.idx == state.idx + 1
            &&& seven.children == state.children.push(pid)
            &&& seven.bridge_idx == Some(bridge)
            &&& seven.n_nodes == state.n_nodes
            &&& seven.stage is Preparing == (state.idx + 1 < state.n_nodes)
        }),
{
}

/// A node that fails before its process was started is passed over, and so is one that was cleaned up:
/// the next node follows, and the processes stay as they are. When all nodes were tried, nothing
/// follows but the end.
pub proof fn law_failed_nodes_are_passed_over(state: Spawning, event: SpawnEvent)
    requires
        state.inv(),
        state.stage is Preparing && !(event is Prepared) || state.stage is Starting && !(
        event is Started) || state.stage is Cleaning || state.stage is Finished,
    ensures
        state.after(event).children == state.children,
        state.after(event).bridge_idx == state.bridge_idx,
        state.stage is Finished ==> state.after(event) == state && state.action_after(event)
            == SpawnAction::AwaitShutdown,
        !(state.stage is Finished) ==> state.after(event).idx == state.idx + 1
            && state.action_after(event) == if state.idx + 1 < state.n_nodes {
            SpawnAction::Prepare { idx: (state.idx + 1) as usize }
        } else {
            SpawnAction::AwaitShutdown
        },
{
}

/// A process is waited for while it is alive or in a state that is not an end. One that has exited,
/// was killed by a signal or cannot be read is not. The order stays.
pub proof fn law_processes_are_waited_for_until_they_end(
    pids: Seq<i32>,
    statuses: Seq<ChildStatus>,
    pid: i32,
    status: ChildStatus,
)
    requires
        statuses.len() == pids.len(),
    ensures
        remaining_of(pids.push(pid), statuses.push(status)) == if status is StillAlive
            || status is Other {
            remaining_of(pids, statuses).push(pid)
        } else {
            remaining_of(pids, statuses)
        },
        remaining_of(Seq::empty(), statuses) == Seq::<i32>::empty(),
{
    assert(pids.push(pid).drop_last() =~= pids);
    lemma_remaining_ignores_later(pids, statuses, status);
}

proof fn lemma_remaining_ignores_later(
    pids: Seq<i32>,
    statuses: Seq<ChildStatus>,
    status: ChildStatus,
)
    requires
        pids.len() <= statuses.len(),
    ensures
        remaining_of(pids, statuses.push(status)) == remaining_of(pids, statuses),
    decreases pids.len(),
{
    if pids.len() > 0 {
        lemma_remaining_ignores_later(pids.drop_last(), statuses, status);
    }
}

} // verus!
