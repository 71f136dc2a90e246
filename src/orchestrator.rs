//! The launch orchestrator: the state machine that decides, one event at a
//! time, which node to launch next, when to wait, when to read the contact
//! registry, and when the run is over. Whoever drives it performs each action
//! and hands back what came of it.
use vstd::prelude::*;

use crate::endpoint::Endpoint;
use crate::registry::{
    lemma_registry_text_injective, read_registry, reads_back, registry_text, same_members,
    well_formed_registry, ReadError,
};

verus! {

/// Why a launched node did not come up.
#[derive(Clone, Copy, Debug, PartialEq, Eq, Structural)]
pub enum LaunchError {
    /// The process could not be created (missing binary, no permission).
    SpawnFailed,
    /// The process exited within the liveness window, with this exit code
    /// where it has one.
    ExitedEarly(Option<i32>),
}

/// Which node a launch is for. The genesis node has index 1.
#[derive(Clone, Copy, Debug, PartialEq, Eq, Structural)]
pub enum NodeRole {
    Genesis,
    Joining(usize),
}

/// Why a run stopped.
#[derive(Clone, Copy, Debug, PartialEq, Eq, Structural)]
pub enum Failure {
    /// No node binary path was given and the home directory is unknown.
    HomeDirNotFound,
    /// No node was requested, or the node indices would not fit.
    InvalidNodeCount,
    /// Nodes were to be added, but the nodes directory holds no node.
    NoExistingNetwork,
    /// The genesis node's contact registry is missing or malformed.
    RegistryUnavailable(ReadError),
    /// The contact registry lists no address.
    EmptyContactList,
    /// A node failed to start.
    Launch(NodeRole, LaunchError),
    /// An event came that the current state does not wait for.
    OutOfOrder,
}

/// Where a run stands.
#[derive(Clone, Copy, Debug, PartialEq, Eq, Structural)]
pub enum Phase {
    /// Waiting for the number of nodes already in the nodes directory.
    Scanning,
    /// Waiting for the genesis node's launch.
    GenesisPending,
    /// Waiting out the interval after the genesis node.
    GenesisSettling,
    /// Waiting for the contact registry.
    AwaitingContacts,
    /// Waiting for the launch of node `i`.
    Dispatching(usize),
    /// Waiting out the interval after node `i`.
    Settling(usize),
    /// Every requested node is running.
    Done,
    /// The run stopped; nodes already launched keep running.
    Failed(Failure),
}

/// What the driver is to do next.
#[derive(Clone, Copy, Debug, PartialEq, Eq, Structural)]
pub enum Action {
    /// Count the node directories under the nodes directory.
    ScanNodesDir,
    /// Start this node and check that it is still alive after the liveness window.
    Launch(NodeRole),
    /// Sleep this many milliseconds.
    Wait(u64),
    /// Read the genesis node's contact registry.
    ReadContacts,
    /// The run is complete.
    Finish,
    /// The run stopped for this reason.
    Abort(Failure),
}

/// What came of the last action.
#[derive(Debug)]
pub enum Event {
    /// So many node directories exist.
    ExistingNodes(usize),
    /// The node was started and passed its liveness check, or not.
    Launched(Result<(), LaunchError>),
    /// The interval has passed.
    Waited,
    /// The registry file's text, or `None` where there is no such file.
    Registry(Option<String>),
}

/// The state of one run.
#[derive(Debug)]
pub struct Orchestrator {
    /// How many joining nodes were asked for.
    pub requested: usize,
    /// Whether nodes are added to a running network (no genesis node).
    pub extend: bool,
    /// The pause after each launch, in milliseconds.
    pub interval_ms: u64,
    /// How many nodes the network holds before the joining nodes: the genesis
    /// node on a fresh run, the scanned count when extending.
    pub existing: usize,
    /// The index of the last joining node.
    pub last: usize,
    pub phase: Phase,
    /// The indices of the nodes launched so far, in launch order.
    pub launched: Vec<usize>,
}

/// The registry as the orchestrator sees it: unreadable, empty, or holding at
/// least one address.
pub open spec fn registry_state(text: Option<String>) -> Result<bool, ReadError> {
    match text {
        None => Err(ReadError::NotFound),
        Some(t) => if !well_formed_registry(t@) {
            Err(ReadError::Malformed)
        } else {
            Ok(t@ != registry_text(Seq::<Endpoint>::empty()))
        },
    }
}

/// Phase, existing count, last index and action when a run stops for `f`.
pub open spec fn fail(o: Orchestrator, f: Failure) -> (Phase, usize, usize, Action) {
    (Phase::Failed(f), o.existing, o.last, Action::Abort(f))
}

/// How the run moves on when `e` comes: the next phase, existing count, last
/// index, and the action asked for.
pub open spec fn next(o: Orchestrator, e: Event) -> (Phase, usize, usize, Action) {
    match o.phase {
        Phase::Scanning => match e {
            Event::ExistingNodes(k) => if k == 0 {
                fail(o, Failure::NoExistingNetwork)
            } else if k + o.requested > usize::MAX {
                fail(o, Failure::InvalidNodeCount)
            } else {
                (Phase::AwaitingContacts, k, (k + o.requested) as usize, Action::ReadContacts)
            },
            _ => fail(o, Failure::OutOfOrder),
        },
        Phase::GenesisPending => match e {
            Event::Launched(Ok(())) => (
                Phase::GenesisSettling,
                o.existing,
                o.last,
                Action::Wait(o.interval_ms),
            ),
            Event::Launched(Err(x)) => fail(o, Failure::Launch(NodeRole::Genesis, x)),
            _ => fail(o, Failure::OutOfOrder),
        },
        Phase::GenesisSettling => match e {
            Event::Waited => (Phase::AwaitingContacts, o.existing, o.last, Action::ReadContacts),
            _ => fail(o, Failure::OutOfOrder),
        },
        Phase::AwaitingContacts => match e {
            Event::Registry(t) => match registry_state(t) {
                Err(r) => fail(o, Failure::RegistryUnavailable(r)),
                Ok(false) => fail(o, Failure::EmptyContactList),
                Ok(true) => if o.existing < o.last {
                    (
                        Phase::Dispatching((o.existing + 1) as usize),
                        o.existing,
                        o.last,
                        Action::Launch(NodeRole::Joining((o.existing + 1) as usize)),
                    )
                } else {
                    (Phase::Done, o.existing, o.last, Action::Finish)
                },
            },
            _ => fail(o, Failure::OutOfOrder),
        },
        Phase::Dispatching(i) => match e {
            Event::Launched(Ok(())) => (
                Phase::Settling(i),
                o.existing,
                o.last,
                Action::Wait(o.interval_ms),
            ),
            Event::Launched(Err(x)) => fail(o, Failure::Launch(NodeRole::Joining(i), x)),
            _ => fail(o, Failure::OutOfOrder),
        },
        Phase::Settling(i) => match e {
            Event::Waited => if i < o.last {
                (
                    Phase::Dispatching((i + 1) as usize),
                    o.existing,
                    o.last,
                    Action::Launch(NodeRole::Joining((i + 1) as usize)),
                )
            } else {
                (Phase::Done, o.existing, o.last, Action::Finish)
            },
            _ => fail(o, Failure::OutOfOrder),
        },
        Phase::Done => (Phase::Done, o.existing, o.last, Action::Finish),
        Phase::Failed(f) => (Phase::Failed(f), o.existing, o.last, Action::Abort(f)),
    }
}

/// The index of the node that a role stands for.
pub open spec fn role_index(r: NodeRole) -> int {
    match r {
        NodeRole::Genesis => 1,
        NodeRole::Joining(i) => i as int,
    }
}

/// The launch record after action `a`.
pub open spec fn launched_after(l: Seq<usize>, a: Action) -> Seq<usize> {
    match a {
        Action::Launch(r) => l.push(role_index(r) as usize),
        _ => l,
    }
}

/// The nodes that a run launches before its joining nodes: the genesis node
/// on a fresh run, none when extending.
pub open spec fn head(o: Orchestrator) -> Seq<usize> {
    if o.extend {
        Seq::empty()
    } else {
        seq![1usize]
    }
}

/// The launch record of a run whose joining nodes have been launched up to
/// index `j`.
pub open spec fn launched_through(o: Orchestrator, j: int) -> Seq<usize> {
    head(o) + Seq::new((j - o.existing) as nat, |x: int| (o.existing + 1 + x) as usize)
}

/// The run's index range is known and fits.
pub open spec fn ranged(o: Orchestrator) -> bool {
    &&& o.requested >= 1
    &&& o.existing >= 1
    &&& o.last == o.existing + o.requested
    &&& !o.extend ==> o.existing == 1
}

/// What holds of the launch record in every state: the genesis node first on
/// a fresh run, then the joining nodes in increasing order from `existing + 1`.
pub open spec fn record_shape(o: Orchestrator) -> bool {
    let h = head(o);
    let l = o.launched@;
    l.len() == 0 || {
        &&& l.len() >= h.len()
        &&& (!o.extend ==> o.existing == 1)
        &&& forall|j: int|
            0 <= j < l.len() ==> #[trigger] l[j] == if j < h.len() {
                1
            } else {
                o.existing + 1 + (j - h.len())
            }
    }
}

/// How a run starts: the first phase, existing count, last index and action.
pub open spec fn start(requested: usize, extend: bool) -> (Phase, usize, usize, Action) {
    if requested == 0 {
        (Phase::Failed(Failure::InvalidNodeCount), 0, 0, Action::Abort(Failure::InvalidNodeCount))
    } else if extend {
        (Phase::Scanning, 0, 0, Action::ScanNodesDir)
    } else if requested + 1 > usize::MAX {
        (Phase::Failed(Failure::InvalidNodeCount), 0, 0, Action::Abort(Failure::InvalidNodeCount))
    } else {
        (Phase::GenesisPending, 1, (requested + 1) as usize, Action::Launch(NodeRole::Genesis))
    }
}

impl Orchestrator {
    /// The state invariant of a run.
    pub open spec fn inv(&self) -> bool {
        let o = *self;
        &&& record_shape(o)
        &&& match o.phase {
            Phase::Scanning => o.extend && o.requested >= 1 && o.launched@.len() == 0,
            Phase::GenesisPending | Phase::GenesisSettling => {
                &&& !o.extend
                &&& ranged(o)
                &&& o.launched@ == seq![1usize]
            },
            Phase::AwaitingContacts => ranged(o) && o.launched@ == head(o),
            Phase::Dispatching(i) | Phase::Settling(i) => {
                &&& ranged(o)
                &&& o.existing < i <= o.last
                &&& o.launched@ == launched_through(o, i as int)
            },
            Phase::Done => ranged(o) && o.launched@ == launched_through(o, o.last as int),
            Phase::Failed(f) => match f {
                Failure::Launch(NodeRole::Genesis, _) => !o.extend && o.launched@ == seq![1usize],
                Failure::Launch(NodeRole::Joining(i), _) => {
                    &&& ranged(o)
                    &&& o.existing < i <= o.last
                    &&& o.launched@ == launched_through(o, i as int)
                },
                Failure::NoExistingNetwork | Failure::InvalidNodeCount => o.launched@.len() == 0,
                Failure::RegistryUnavailable(_) | Failure::EmptyContactList => ranged(o)
                    && o.launched@ == head(o),
                _ => true,
            },
        }
    }
}

impl Orchestrator {
    /// Starts a run of `requested` joining nodes, after a genesis node unless
    /// `extend` is set, pausing `interval_ms` after each launch.
    pub fn new(requested: usize, extend: bool, interval_ms: u64) -> (r: (Orchestrator, Action))
        ensures
            ({
                let (p, existing, last, a) = start(requested, extend);
                &&& r.0.phase == p
                &&& r.0.existing == existing
                &&& r.0.last == last
                &&& r.1 == a
            }),
            r.0.launched@ == launched_after(Seq::empty(), r.1),
            r.0.requested == requested,
            r.0.extend == extend,
            r.0.interval_ms == interval_ms,
            r.0.inv(),
    {
        let mut o = Orchestrator {
            requested,
            extend,
            interval_ms,
            existing: 0,
            last: 0,
            phase: Phase::Failed(Failure::InvalidNodeCount),
            launched: Vec::new(),
        };
        if requested == 0 {
            return (o, Action::Abort(Failure::InvalidNodeCount));
        }
        if extend {
            o.phase = Phase::Scanning;
            return (o, Action::ScanNodesDir);
        }
        if requested == usize::MAX {
            return (o, Action::Abort(Failure::InvalidNodeCount));
        }
        o.phase = Phase::GenesisPending;
        o.existing = 1;
        o.last = requested + 1;
        o.launched.push(1);
        proof {
            assert(o.launched@ =~= seq![1usize]);
        }
        (o, Action::Launch(NodeRole::Genesis))
    }

    /// Takes in what came of the last action and says what to do next.
    pub fn step(&mut self, event: Event) -> (r: Action)
        ensures
            ({
                let (p, existing, last, a) = next(*old(self), event);
                &&& final(self).phase == p
                &&& final(self).existing == existing
                &&& final(self).last == last
                &&& r == a
            }),
            final(self).launched@ == launched_after(old(self).launched@, r),
            final(self).requested == old(self).requested,
            final(self).extend == old(self).extend,
            final(self).interval_ms == old(self).interval_ms,
            old(self).inv() ==> final(self).inv(),
    {
        let ghost o = *old(self);
        let ghost ev = event;
        let a = match self.phase {
            Phase::Scanning => match event {
                Event::ExistingNodes(k) => {
                    if k == 0 {
                        self.fail(Failure::NoExistingNetwork)
                    } else if k > usize::MAX - self.requested {
                        self.fail(Failure::InvalidNodeCount)
                    } else {
                        self.existing = k;
                        self.last = k + self.requested;
                        self.phase = Phase::AwaitingContacts;
                        Action::ReadContacts
                    }
                },
                _ => self.fail(Failure::OutOfOrder),
            },
            Phase::GenesisPending => match event {
                Event::Launched(Ok(())) => {
                    self.phase = Phase::GenesisSettling;
                    Action::Wait(self.interval_ms)
                },
                Event::Launched(Err(x)) => self.fail(Failure::Launch(NodeRole::Genesis, x)),
                _ => self.fail(Failure::OutOfOrder),
            },
            Phase::GenesisSettling => match event {
                Event::Waited => {
                    self.phase = Phase::AwaitingContacts;
                    Action::ReadContacts
                },
                _ => self.fail(Failure::OutOfOrder),
            },
            Phase::AwaitingContacts => match event {
                Event::Registry(text) => {
                    let view = match &text {
                        Some(t) => Some(t.as_str()),
                        None => None,
                    };
                    match read_registry(view) {
                        Err(e) => self.fail(Failure::RegistryUnavailable(e)),
                        Ok(reg) => {
                            proof {
                                lemma_registry_state(text, reg.addresses@);
                            }
                            if reg.addresses.len() == 0 {
                                self.fail(Failure::EmptyContactList)
                            } else if self.existing < self.last {
                                let i = self.existing + 1;
                                self.phase = Phase::Dispatching(i);
                                self.launched.push(i);
                                Action::Launch(NodeRole::Joining(i))
                            } else {
                                self.phase = Phase::Done;
                                Action::Finish
                            }
                        },
                    }
                },
                _ => self.fail(Failure::OutOfOrder),
            },
            Phase::Dispatching(i) => match event {
                Event::Launched(Ok(())) => {
                    self.phase = Phase::Settling(i);
                    Action::Wait(self.interval_ms)
                },
                Event::Launched(Err(x)) => self.fail(Failure::Launch(NodeRole::Joining(i), x)),
                _ => self.fail(Failure::OutOfOrder),
            },
            Phase::Settling(i) => match event {
                Event::Waited => {
                    if i < self.last {
                        self.phase = Phase::Dispatching(i + 1);
                        self.launched.push(i + 1);
                        Action::Launch(NodeRole::Joining(i + 1))
                    } else {
                        self.phase = Phase::Done;
                        Action::Finish
                    }
                },
                _ => self.fail(Failure::OutOfOrder),
            },
            Phase::Done => Action::Finish,
            Phase::Failed(f) => Action::Abort(f),
        };
        proof {
            if o.inv() {
                lemma_step_keeps_inv(o, ev, *self, a);
            }
        }
        a
    }

    /// Stops the run for `f`.
    fn fail(&mut self, f: Failure) -> (r: Action)
        ensures
            final(self).phase == Phase::Failed(f),
            r == Action::Abort(f),
            final(self).launched == old(self).launched,
            final(self).existing == old(self).existing,
            final(self).last == old(self).last,
            final(self).requested == old(self).requested,
            final(self).extend == old(self).extend,
            final(self).interval_ms == old(self).interval_ms,
    {
        self.phase = Phase::Failed(f);
        Action::Abort(f)
    }
}

/// What the reader hands back tells an empty registry from one with addresses.
proof fn lemma_registry_state(text: Option<String>, v: Seq<Endpoint>)
    requires
        text is Some,
        reads_back(text->0@, v),
    ensures
        registry_state(text) == Ok::<bool, ReadError>(v.len() > 0),
{
    let t = text->0@;
    let l = choose|l: Seq<Endpoint>| #[trigger] registry_text(l) == t && same_members(v, l);
    assert(well_formed_registry(t));
    if v.len() > 0 {
        assert(v.contains(v[0]));
        if t == registry_text(Seq::<Endpoint>::empty()) {
            lemma_registry_text_injective(l, Seq::<Endpoint>::empty());
            assert(l.contains(v[0]));
        }
    } else {
        if l.len() > 0 {
            assert(l.contains(l[0]));
        }
        assert(l =~= Seq::<Endpoint>::empty());
    }
}

/// A record of joining nodes through `i`, pushed with `i + 1`, is the record through `i + 1`.
proof fn lemma_through_push(o: Orchestrator, i: int)
    requires
        i >= o.existing,
    ensures
        launched_through(o, i).push((i + 1) as usize) =~= launched_through(o, i + 1),
{
}

/// A record of joining nodes through `i` has the shape of every record.
proof fn lemma_through_shape(o: Orchestrator, i: int)
    requires
        ranged(o),
        o.existing <= i <= o.last,
        o.launched@ == launched_through(o, i),
    ensures
        record_shape(o),
{
    let h = head(o);
    let l = o.launched@;
    assert forall|j: int| 0 <= j < l.len() implies #[trigger] l[j] == if j < h.len() {
        1
    } else {
        o.existing + 1 + (j - h.len())
    } by {
        if j < h.len() {
            assert(l[j] == h[j]);
        } else {
            let x = j - h.len();
            assert(l[j] == (o.existing + 1 + x) as usize);
        }
    }
}

/// Every step keeps the state invariant.
proof fn lemma_step_keeps_inv(o: Orchestrator, e: Event, n: Orchestrator, a: Action)
    requires
        o.inv(),
        next(o, e) == (n.phase, n.existing, n.last, a),
        n.launched@ == launched_after(o.launched@, a),
        n.requested == o.requested,
        n.extend == o.extend,
    ensures
        n.inv(),
{
    match o.phase {
        Phase::Scanning => {
            assert(n.launched@ =~= head(n));
        },
        Phase::GenesisPending | Phase::GenesisSettling => {},
        Phase::AwaitingContacts => {
            if let Phase::Dispatching(i) = n.phase {
                lemma_through_push(n, o.existing as int);
                assert(launched_through(n, o.existing as int) =~= head(n));
                lemma_through_shape(n, i as int);
            }
        },
        Phase::Dispatching(i) => {
            if let Phase::Settling(_) = n.phase {
                lemma_through_shape(n, i as int);
            }
        },
        Phase::Settling(i) => {
            match n.phase {
                Phase::Dispatching(j) => {
                    lemma_through_push(n, i as int);
                    lemma_through_shape(n, j as int);
                },
                Phase::Done => {
                    lemma_through_shape(n, i as int);
                },
                _ => {},
            }
        },
        _ => {},
    }
}

/// Launches come in strictly increasing index order, in every state of a run.
pub proof fn lemma_launch_order(o: Orchestrator)
    requires
        o.inv(),
    ensures
        forall|i: int, j: int|
            0 <= i < j < o.launched@.len() ==> o.launched@[i] < o.launched@[j],
{
    let h = head(o);
    let l = o.launched@;
    assert forall|i: int, j: int| 0 <= i < j < l.len() implies l[i] < l[j] by {
        assert(l[i] == if i < h.len() {
            1
        } else {
            o.existing + 1 + (i - h.len())
        });
        assert(l[j] == if j < h.len() {
            1
        } else {
            o.existing + 1 + (j - h.len())
        });
    }
}

/// A fresh run that completes has launched exactly `1 + requested` nodes: the
/// genesis node and then every joining node, indices `1..=requested + 1` in
/// increasing order.
pub proof fn lemma_fresh_run_launches(o: Orchestrator)
    requires
        o.inv(),
        !o.extend,
        o.phase == Phase::Done,
    ensures
        o.launched@.len() == o.requested + 1,
        forall|j: int| 0 <= j < o.launched@.len() ==> o.launched@[j] == j + 1,
{
    let l = o.launched@;
    assert forall|j: int| 0 <= j < l.len() implies l[j] == j + 1 by {
        if j == 0 {
            assert(l[0] == head(o)[0]);
        } else {
            assert(l[j] == (o.existing + 1 + (j - 1)) as usize);
        }
    }
}

/// A run that extends a network of `existing` nodes and completes has launched
/// exactly the nodes `existing + 1..=existing + requested`, in increasing order.
pub proof fn lemma_extend_run_launches(o: Orchestrator)
    requires
        o.inv(),
        o.extend,
        o.phase == Phase::Done,
    ensures
        o.launched@.len() == o.requested,
        forall|j: int| 0 <= j < o.launched@.len() ==> o.launched@[j] == o.existing + 1 + j,
{
}

/// Extending a network never launches one of its existing nodes again.
pub proof fn lemma_extend_never_relaunches(o: Orchestrator)
    requires
        o.inv(),
        o.extend,
    ensures
        forall|j: int| 0 <= j < o.launched@.len() ==> o.launched@[j] > o.existing,
{
    let l = o.launched@;
    assert forall|j: int| 0 <= j < l.len() implies l[j] > o.existing by {
        assert(l[j] == o.existing + 1 + j);
    }
}

/// The state after `e`, the launch record aside.
pub open spec fn after(o: Orchestrator, e: Event) -> Orchestrator {
    let (p, existing, last, _) = next(o, e);
    Orchestrator { phase: p, existing, last, ..o }
}

/// The event that answers the current phase when everything succeeds: the
/// nodes directory holds `existing` nodes, launches come up, waits end, and the
/// registry reads `text`.
pub open spec fn ok_event(o: Orchestrator, existing: usize, text: String) -> Event {
    match o.phase {
        Phase::Scanning => Event::ExistingNodes(existing),
        Phase::GenesisPending | Phase::Dispatching(_) => Event::Launched(Ok(())),
        Phase::GenesisSettling | Phase::Settling(_) => Event::Waited,
        _ => Event::Registry(Some(text)),
    }
}

/// The phase and launch record after `fuel` steps in which everything succeeds.
pub open spec fn run_ok(
    o: Orchestrator,
    existing: usize,
    text: String,
    launched: Seq<usize>,
    fuel: nat,
) -> (Phase, Seq<usize>)
    decreases fuel,
{
    if fuel == 0 {
        (o.phase, launched)
    } else {
        let e = ok_event(o, existing, text);
        run_ok(after(o, e), existing, text, launched_after(launched, next(o, e).3), (fuel - 1) as nat)
    }
}

/// The joining nodes `from..=to`.
pub open spec fn index_run(from: int, to: int) -> Seq<usize> {
    Seq::new((to - from + 1) as nat, |x: int| (from + x) as usize)
}

/// From the launch of node `i` on, a run in which everything succeeds launches
/// every node up to `last` in turn and completes.
proof fn lemma_dispatch_completes(
    o: Orchestrator,
    existing: usize,
    text: String,
    pre: Seq<usize>,
    i: usize,
)
    requires
        o.phase == Phase::Dispatching(i),
        o.existing < i <= o.last,
    ensures
        run_ok(o, existing, text, pre + index_run(o.existing + 1, i as int), (2 * (o.last - i)
            + 2) as nat) == (Phase::Done, pre + index_run(o.existing + 1, o.last as int)),
    decreases o.last - i,
{
    let l0 = pre + index_run(o.existing + 1, i as int);
    let e1 = ok_event(o, existing, text);
    let o1 = after(o, e1);
    assert(o1.phase == Phase::Settling(i));
    let e2 = ok_event(o1, existing, text);
    let o2 = after(o1, e2);
    let fuel = (2 * (o.last - i) + 2) as nat;
    assert(run_ok(o, existing, text, l0, fuel) == run_ok(o1, existing, text, l0, (fuel - 1) as nat));
    let l2 = launched_after(l0, next(o1, e2).3);
    assert(run_ok(o1, existing, text, l0, (fuel - 1) as nat) == run_ok(o2, existing, text, l2, (fuel - 2) as nat));
    if i < o.last {
        assert(l2 =~= pre + index_run(o.existing + 1, i + 1));
        lemma_dispatch_completes(o2, existing, text, pre, (i + 1) as usize);
    } else {
        assert(o2.phase == Phase::Done);
    }
}

/// A fresh run in which every node comes up and the registry lists an address
/// launches the genesis node, then every requested node, and completes:
/// `1 + requested` launches, with indices `1..=requested + 1` in order.
pub proof fn lemma_fresh_run_completes(o: Orchestrator, text: String)
    requires
        o.requested >= 1,
        !o.extend,
        start(o.requested, false) == (o.phase, o.existing, o.last, Action::Launch(NodeRole::Genesis)),
        registry_state(Some(text)) == Ok::<bool, ReadError>(true),
    ensures
        run_ok(o, 0, text, seq![1usize], (2 * o.requested + 3) as nat) == (
            Phase::Done,
            index_run(1, o.requested + 1),
        ),
{
    let n = o.requested;
    let e1 = ok_event(o, 0, text);
    let o1 = after(o, e1);
    let e2 = ok_event(o1, 0, text);
    let o2 = after(o1, e2);
    let e3 = ok_event(o2, 0, text);
    let o3 = after(o2, e3);
    assert(o3.phase == Phase::Dispatching(2));
    let l3 = seq![1usize].push(2);
    let fuel = (2 * n + 3) as nat;
    assert(run_ok(o, 0, text, seq![1usize], fuel) == run_ok(o1, 0, text, seq![1usize], (fuel - 1) as nat));
    assert(run_ok(o1, 0, text, seq![1usize], (fuel - 1) as nat) == run_ok(o2, 0, text, seq![1usize], (fuel - 2) as nat));
    assert(run_ok(o2, 0, text, seq![1usize], (fuel - 2) as nat) == run_ok(o3, 0, text, l3, (fuel - 3) as nat));
    assert(l3 =~= seq![1usize] + index_run(2, 2));
    lemma_dispatch_completes(o3, 0, text, seq![1usize], 2);
    assert(seq![1usize] + index_run(2, n + 1) =~= index_run(1, n + 1));
}

/// A run that adds nodes to a network of `existing` nodes, in which every node
/// comes up and the registry lists an address, launches exactly the nodes
/// `existing + 1..=existing + requested`, in order, and completes.
pub proof fn lemma_extend_run_completes(o: Orchestrator, existing: usize, text: String)
    requires
        o.requested >= 1,
        o.extend,
        o.phase == Phase::Scanning,
        existing >= 1,
        existing + o.requested <= usize::MAX,
        registry_state(Some(text)) == Ok::<bool, ReadError>(true),
    ensures
        run_ok(o, existing, text, Seq::empty(), (2 * o.requested + 2) as nat) == (
            Phase::Done,
            index_run(existing + 1, existing + o.requested),
        ),
{
    let n = o.requested;
    let e1 = ok_event(o, existing, text);
    let o1 = after(o, e1);
    assert(o1.phase == Phase::AwaitingContacts && o1.existing == existing);
    let e2 = ok_event(o1, existing, text);
    let o2 = after(o1, e2);
    let k1 = (existing + 1) as usize;
    assert(o2.phase == Phase::Dispatching(k1));
    let l2 = Seq::<usize>::empty().push(k1);
    let fuel = (2 * n + 2) as nat;
    assert(run_ok(o, existing, text, Seq::empty(), fuel) == run_ok(o1, existing, text, Seq::empty(), (fuel - 1) as nat));
    assert(run_ok(o1, existing, text, Seq::empty(), (fuel - 1) as nat) == run_ok(o2, existing, text, l2, (fuel - 2) as nat));
    assert(l2 =~= Seq::<usize>::empty() + index_run(existing + 1, k1 as int));
    lemma_dispatch_completes(o2, existing, text, Seq::empty(), k1);
    assert(Seq::<usize>::empty() + index_run(existing + 1, existing + n) =~= index_run(existing + 1, existing + n));
}

/// A stopped run stays stopped: whatever comes, it launches nothing more and
/// keeps asking to abort for the same reason.
pub proof fn lemma_failed_run_stays_stopped(o: Orchestrator, e: Event)
    requires
        o.phase is Failed,
    ensures
        next(o, e).0 == o.phase,
        next(o, e).3 == Action::Abort(o.phase->Failed_0),
        launched_after(o.launched@, next(o, e).3) == o.launched@,
{
}

/// When node `i` fails its launch, the run stops there: nodes up to `i` were
/// launched (the genesis node first on a fresh run), and no node after `i` is
/// ever launched.
pub proof fn lemma_crash_stops_run(o: Orchestrator, i: usize, x: LaunchError)
    requires
        o.inv(),
        o.phase == Phase::Dispatching(i),
    ensures
        next(o, Event::Launched(Err(x))) == fail(o, Failure::Launch(NodeRole::Joining(i), x)),
        o.launched@ == launched_through(o, i as int),
        o.launched@.last() == i,
        forall|j: int| 0 <= j < o.launched@.len() ==> o.launched@[j] <= i,
{
    let l = o.launched@;
    let h = head(o);
    assert(l[l.len() - 1] == (o.existing + 1 + (l.len() - 1 - h.len())) as usize);
    assert forall|j: int| 0 <= j < l.len() implies l[j] <= i by {
        if j < h.len() {
            assert(l[j] == h[j]);
        } else {
            assert(l[j] == (o.existing + 1 + (j - h.len())) as usize);
        }
    }
}

/// Extending a nodes directory that holds no node fails with
/// `NoExistingNetwork` before any node is launched.
pub proof fn lemma_nothing_to_extend(o: Orchestrator)
    requires
        o.inv(),
        o.phase == Phase::Scanning,
    ensures
        next(o, Event::ExistingNodes(0)).0 == Phase::Failed(Failure::NoExistingNetwork),
        next(o, Event::ExistingNodes(0)).3 == Action::Abort(Failure::NoExistingNetwork),
        o.launched@.len() == 0,
        launched_after(o.launched@, next(o, Event::ExistingNodes(0)).3).len() == 0,
{
}

} // verus!

verus! {

/// How long a freshly started node must stay up, in milliseconds, before its
/// launch counts as a success.
pub const LIVENESS_WINDOW_MS: u64 = 2000;

/// The outcome of a launch whose process was created, given its exit code if
/// it had already exited when the liveness window closed (`Some(None)` for an
/// exit without a code, such as by a signal).
pub fn liveness_verdict(exited: Option<Option<i32>>) -> (r: Result<(), LaunchError>)
    ensures
        r == match exited {
            None => Ok::<(), LaunchError>(()),
            Some(code) => Err(LaunchError::ExitedEarly(code)),
        },
{
    match exited {
        None => Ok(()),
        Some(code) => Err(LaunchError::ExitedEarly(code)),
    }
}

} // verus!
