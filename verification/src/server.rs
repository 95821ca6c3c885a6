//! The server: how it listens, and in which order its parts start and stop.
use std::collections::HashMap;

use vstd::prelude::*;

verus! {

/// How many requests the end point worker takes at once.
pub const DEFAULT_COPROCESSOR_BATCH: usize = 256;

/// The longest message that is received.
pub const MAX_GRPC_RECV_MSG_LEN: usize = 10485760;

/// The name of the threads that serve requests.
pub const GRPC_THREAD_NAME: &'static str = "grpc-server";

/// The name of the worker for coprocessor requests.
pub const END_POINT_WORKER: &'static str = "end-point-worker";

/// The name of the worker for snapshots.
pub const SNAP_WORKER: &'static str = "snap-handler";

/// What one region has read.
#[derive(Clone, Copy, Debug, PartialEq, Eq, Structural)]
pub struct FlowStatistics {
    pub read_keys: u64,
    pub read_bytes: u64,
}

/// What the coprocessor has read, by region.
pub type CopRequestStatistics = HashMap<u64, FlowStatistics>;

/// A message to the raft store.
pub enum Msg {
    /// What the coprocessor has read.
    CoprocessorStats { request_stats: CopRequestStatistics },
}

/// The way to the raft store.
pub trait RaftStoreRouter: Clone {
    /// Hands a message over without waiting; the error says why that failed.
    fn try_send(&self, msg: Msg) -> Result<(), String>;
}

/// Why the coprocessor could not hand something over.
pub enum CopError {
    /// What the receiver said.
    Other(String),
}

/// Where the coprocessor reports what it has read.
pub trait CopSender {
    /// Reports what was read.
    fn send(&self, stats: CopRequestStatistics) -> Result<(), CopError>;
}

/// Reports to the raft store.
pub struct CopReport<R: RaftStoreRouter> {
    pub router: R,
}

impl<R: RaftStoreRouter> CopReport<R> {
    /// Reports over a copy of that router.
    pub fn new(r: R) -> (report: CopReport<R>)
        ensures
            cloned(r, report.router),
    {
        CopReport { router: r.clone() }
    }
}

impl<R: RaftStoreRouter> Clone for CopReport<R> {
    /// A report over a copy of the router.
    fn clone(&self) -> (report: CopReport<R>)
        ensures
            cloned(self.router, report.router),
    {
        CopReport { router: self.router.clone() }
    }
}

/// What a report comes to: the answer of the router, its error passed on.
pub open spec fn reported(answer: Result<(), String>) -> Result<(), CopError> {
    match answer {
        Ok(_) => Ok(()),
        Err(e) => Err(CopError::Other(e)),
    }
}

/// Passes on the answer of a router.
pub fn report(answer: Result<(), String>) -> (r: Result<(), CopError>)
    ensures
        r == reported(answer),
{
    match answer {
        Ok(_) => Ok(()),
        Err(e) => Err(CopError::Other(e)),
    }
}

impl<R: RaftStoreRouter> CopSender for CopReport<R> {
    /// Sends the statistics to the raft store and passes on the answer.
    fn send(&self, stats: CopRequestStatistics) -> (r: Result<(), CopError>)
        ensures
            exists|answer: Result<(), String>|
                r == reported(answer) && #[trigger] call_ensures(
                    R::try_send,
                    (&self.router, Msg::CoprocessorStats { request_stats: stats }),
                    answer,
                ),
    {
        let answer = self.router.try_send(Msg::CoprocessorStats { request_stats: stats });
        assert(call_ensures(
            R::try_send,
            (&self.router, Msg::CoprocessorStats { request_stats: stats }),
            answer,
        ));
        report(answer)
    }
}

/// Takes reports and drops them.
#[derive(Clone, Copy)]
pub struct MockCopSender {}

impl MockCopSender {
    /// A sender that drops what it takes.
    pub fn new() -> (r: MockCopSender)
        ensures
            r == (MockCopSender {  }),
    {
        MockCopSender {  }
    }
}

impl CopSender for MockCopSender {
    /// Drops the statistics; this cannot fail.
    fn send(&self, _stats: CopRequestStatistics) -> (r: Result<(), CopError>)
        ensures
            r == Ok::<(), CopError>(()),
    {
        Ok(())
    }
}

/// What is configured of the server.
pub struct Config {
    pub addr: String,
    pub grpc_concurrency: usize,
    pub grpc_concurrent_stream: usize,
    pub grpc_stream_initial_window_size: u64,
}

/// An internet address and a port.
pub struct Address {
    pub ip: String,
    pub port: u16,
}

/// The model of an address.
pub struct AddressView {
    pub ip: Seq<char>,
    pub port: u16,
}

impl View for Address {
    type V = AddressView;

    open spec fn view(&self) -> AddressView {
        AddressView { ip: self.ip@, port: self.port }
    }
}

/// Why a server could not be set up or started.
pub enum ServerError {
    /// The configured address is none.
    BadAddress,
    /// The host that the listener is bound to is no internet address.
    BadHost,
    /// What a part of the server said.
    Other(String),
}

/// How a server is set up.
pub struct Setup {
    /// Where it listens.
    pub bind: Address,
    /// How many completion queues there are.
    pub cq_count: usize,
    /// The name of the threads.
    pub thread_name: &'static str,
    pub stream_initial_window_size: usize,
    pub max_concurrent_stream: usize,
    pub max_receive_message_len: usize,
    pub max_send_message_len: usize,
    /// Whether the debug service is registered beside the main one.
    pub debug_service: bool,
    /// The name of the worker for coprocessor requests.
    pub end_point_worker: &'static str,
    /// The name of the worker for snapshots.
    pub snap_worker: &'static str,
}

/// A part of starting or stopping a server.
#[derive(Clone, Copy, Debug, PartialEq, Eq, Structural)]
pub enum Task {
    StartEndPoint { batch: usize },
    StartSnapHandler,
    StartGrpc,
    StopEndPoint,
    StopSnapHandler,
    StopStorage,
    ShutdownGrpc,
}

/// How a task ended.
pub enum Outcome {
    Done,
    Failed(String),
}

/// What comes after a task.
pub enum Next {
    Do(Task),
    Finished(Result<(), ServerError>),
}

/// What comes after a task. A worker that does not start ends the start with its error. What goes
/// wrong while stopping is passed over.
pub open spec fn follows(task: Task, outcome: Outcome) -> Next {
    match task {
        Task::StartEndPoint { .. } => match outcome {
            Outcome::Done => Next::Do(Task::StartSnapHandler),
            Outcome::Failed(e) => Next::Finished(Err(ServerError::Other(e))),
        },
        Task::StartSnapHandler => match outcome {
            Outcome::Done => Next::Do(Task::StartGrpc),
            Outcome::Failed(e) => Next::Finished(Err(ServerError::Other(e))),
        },
        Task::StartGrpc => Next::Finished(Ok(())),
        Task::StopEndPoint => Next::Do(Task::StopSnapHandler),
        Task::StopSnapHandler => Next::Do(Task::StopStorage),
        Task::StopStorage => Next::Do(Task::ShutdownGrpc),
        Task::ShutdownGrpc => Next::Finished(Ok(())),
    }
}

/// Whether requests are served after a task, where `before` says whether they were.
pub open spec fn serves_after(task: Task, before: bool) -> bool {
    match task {
        Task::StartGrpc => true,
        Task::ShutdownGrpc => false,
        _ => before,
    }
}

/// How a server is set up by its configuration.
pub open spec fn set_up(
    cfg: Config,
    addr: Option<Address>,
    region_split_size: nat,
    debug_service: bool,
) -> Result<Setup, ServerError> {
    match addr {
        None => Err(ServerError::BadAddress),
        Some(bind) => Ok(
            Setup {
                bind,
                cq_count: cfg.grpc_concurrency,
                thread_name: GRPC_THREAD_NAME,
                stream_initial_window_size: cfg.grpc_stream_initial_window_size as usize,
                max_concurrent_stream: cfg.grpc_concurrent_stream,
                max_receive_message_len: MAX_GRPC_RECV_MSG_LEN,
                max_send_message_len: (4 * region_split_size) as usize,
                debug_service,
                end_point_worker: END_POINT_WORKER,
                snap_worker: SNAP_WORKER,
            },
        ),
    }
}

/// The address of a server whose listener is bound to a port of that number.
pub open spec fn bound_at(ip: Seq<char>, port: u32) -> AddressView {
    AddressView { ip, port: (port % 65536) as u16 }
}

/// A server takes its limits from its configuration, each from the setting that it is for. Four regions
/// of the size at which they are split fit into what is sent at once.
pub proof fn setup_follows_the_configuration(
    cfg: Config,
    addr: Option<Address>,
    size: nat,
    debug: bool,
)
    requires
        4 * size <= usize::MAX,
        cfg.grpc_stream_initial_window_size <= usize::MAX,
    ensures
        addr is None <==> set_up(cfg, addr, size, debug) == Err::<Setup, ServerError>(
            ServerError::BadAddress,
        ),
        addr is Some <==> set_up(cfg, addr, size, debug) is Ok,
        set_up(cfg, addr, size, debug) matches Ok(s) ==> {
            &&& addr == Some(s.bind)
            &&& s.cq_count == cfg.grpc_concurrency
            &&& s.max_concurrent_stream == cfg.grpc_concurrent_stream
            &&& s.stream_initial_window_size == cfg.grpc_stream_initial_window_size
            &&& s.max_send_message_len == size + size + size + size
            &&& s.max_receive_message_len == 10 * 1024 * 1024
            &&& s.debug_service == debug
            &&& s.thread_name@ == "grpc-server"@
            &&& s.end_point_worker@ == "end-point-worker"@
            &&& s.snap_worker@ == "snap-handler"@
        },
{
}

/// A server is bound to the port that its listener has; two numbers that differ by what does not fit
/// into a port are the same port.
pub proof fn servers_are_bound_to_their_port(ip: Seq<char>, port: u16, other: u32)
    ensures
        bound_at(ip, port as u32).ip == ip,
        bound_at(ip, port as u32).port == port,
        other <= u32::MAX - 65536 ==> bound_at(ip, (other + 65536) as u32) == bound_at(ip, other),
{
}

/// A report comes to what the router answers: it succeeds exactly where the router took the message, and
/// fails with the words of the router.
pub proof fn reports_pass_on_the_answer(answer: Result<(), String>)
    ensures
        reported(answer) is Ok <==> answer is Ok,
        reported(answer) matches Err(CopError::Other(e)) ==> answer == Err::<(), String>(e),
{
}

/// A server that is bound to an address. `T` is its transport to other servers.
pub struct Server<T: Clone> {
    local_addr: Address,
    trans: T,
    serving: bool,
}

impl<T: Clone> Server<T> {
    /// The address that the server is bound to.
    pub closed spec fn addr(&self) -> AddressView {
        self.local_addr@
    }

    /// The transport of the server.
    pub closed spec fn trans(&self) -> T {
        self.trans
    }

    /// Whether requests are served.
    pub closed spec fn serves(&self) -> bool {
        self.serving
    }

    /// How a server is set up. `addr` is the configured address as it was read,
    /// none where it is no address.
    pub fn setup(
        cfg: &Config,
        addr: Option<Address>,
        region_split_size: usize,
        debug_service: bool,
    ) -> (r: Result<Setup, ServerError>)
        requires
            region_split_size * 4 <= usize::MAX,
        ensures
            r == set_up(*cfg, addr, region_split_size as nat, debug_service),
            match addr {
                None => r == Err::<Setup, ServerError>(ServerError::BadAddress),
                Some(a) => r == Ok::<Setup, ServerError>(
                    Setup {
                        bind: a,
                        cq_count: cfg.grpc_concurrency,
                        thread_name: GRPC_THREAD_NAME,
                        stream_initial_window_size: cfg.grpc_stream_initial_window_size as usize,
                        max_concurrent_stream: cfg.grpc_concurrent_stream,
                        max_receive_message_len: MAX_GRPC_RECV_MSG_LEN,
                        max_send_message_len: (region_split_size * 4) as usize,
                        debug_service,
                        end_point_worker: END_POINT_WORKER,
                        snap_worker: SNAP_WORKER,
                    },
                ),
            },
    {
        let bind = match addr {
            None => return Err(ServerError::BadAddress),
            Some(a) => a,
        };
        Ok(
            Setup {
                bind,
                cq_count: cfg.grpc_concurrency,
                thread_name: GRPC_THREAD_NAME,
                #[verifier::truncate]
                stream_initial_window_size: cfg.grpc_stream_initial_window_size as usize,
                max_concurrent_stream: cfg.grpc_concurrent_stream,
                max_receive_message_len: MAX_GRPC_RECV_MSG_LEN,
                max_send_message_len: region_split_size * 4,
                debug_service,
                end_point_worker: END_POINT_WORKER,
                snap_worker: SNAP_WORKER,
            },
        )
    }

    /// A server whose listener is bound. `host` is the host of the first bound address as it was
    /// read, none where it is no internet address; of the port the low sixteen bits count.
    pub fn new(trans: T, host: Option<String>, port: u32) -> (r: Result<Server<T>, ServerError>)
        ensures
            host matches Some(ip) ==> r is Ok && r->Ok_0.addr() == bound_at(ip@, port),
            match host {
                None => r == Err::<Server<T>, ServerError>(ServerError::BadHost),
                Some(ip) => r is Ok && r->Ok_0.addr() == (AddressView {
                    ip: ip@,
                    port: (port % 65536) as u16,
                }) && r->Ok_0.trans() == trans && !r->Ok_0.serves(),
            },
    {
        let ip = match host {
            None => return Err(ServerError::BadHost),
            Some(ip) => ip,
        };
        let port = (port % 65536) as u16;
        Ok(Server { local_addr: Address { ip, port }, trans, serving: false })
    }

    /// A copy of the transport.
    pub fn transport(&self) -> (r: T)
        ensures
            cloned(self.trans(), r),
    {
        self.trans.clone()
    }

    /// The first task of starting.
    pub fn start(&mut self) -> (r: Task)
        ensures
            r == (Task::StartEndPoint { batch: DEFAULT_COPROCESSOR_BATCH }),
            *final(self) == *old(self),
    {
        Task::StartEndPoint { batch: DEFAULT_COPROCESSOR_BATCH }
    }

    /// The first task of stopping.
    pub fn stop(&mut self) -> (r: Task)
        ensures
            r == Task::StopEndPoint,
            *final(self) == *old(self),
    {
        Task::StopEndPoint
    }

    /// Takes note of how a task ended and says what comes after it.
    pub fn ended(&mut self, task: Task, outcome: Outcome) -> (r: Next)
        ensures
            r == follows(task, outcome),
            final(self).serves() == serves_after(task, old(self).serves()),
            final(self).addr() == old(self).addr(),
            final(self).trans() == old(self).trans(),
    {
        match task {
            Task::StartEndPoint { .. } => match outcome {
                Outcome::Done => Next::Do(Task::StartSnapHandler),
                Outcome::Failed(e) => Next::Finished(Err(ServerError::Other(e))),
            },
            Task::StartSnapHandler => match outcome {
                Outcome::Done => Next::Do(Task::StartGrpc),
                Outcome::Failed(e) => Next::Finished(Err(ServerError::Other(e))),
            },
            Task::StartGrpc => {
                self.serving = true;
                Next::Finished(Ok(()))
            },
            Task::StopEndPoint => Next::Do(Task::StopSnapHandler),
            Task::StopSnapHandler => Next::Do(Task::StopStorage),
            Task::StopStorage => Next::Do(Task::ShutdownGrpc),
            Task::ShutdownGrpc => {
                self.serving = false;
                Next::Finished(Ok(()))
            },
        }
    }

    /// Whether requests are served.
    pub fn is_serving(&self) -> (r: bool)
        ensures
            r == self.serves(),
    {
        self.serving
    }

    /// The address that the server is bound to, which differs from the configured one where that
    /// leaves the port open.
    pub fn listening_addr(&self) -> (r: Address)
        ensures
            r@ == self.addr(),
    {
        Address { ip: self.local_addr.ip.clone(), port: self.local_addr.port }
    }
}

/// How many tasks come after a task at most.
pub open spec fn tasks_left(task: Task) -> nat {
    match task {
        Task::StartEndPoint { .. } => 2,
        Task::StartSnapHandler => 1,
        Task::StartGrpc => 0,
        Task::StopEndPoint => 3,
        Task::StopSnapHandler => 2,
        Task::StopStorage => 1,
        Task::ShutdownGrpc => 0,
    }
}

/// The tasks from `task` on, where `end` says how each ends.
pub open spec fn performed(task: Task, end: spec_fn(Task) -> Outcome) -> Seq<Task>
    decreases tasks_left(task),
{
    seq![task] + match follows(task, end(task)) {
        Next::Do(t) => performed(t, end),
        Next::Finished(_) => Seq::empty(),
    }
}

/// What the tasks from `task` on come to, where `end` says how each ends.
pub open spec fn concluded(task: Task, end: spec_fn(Task) -> Outcome) -> Result<(), ServerError>
    decreases tasks_left(task),
{
    match follows(task, end(task)) {
        Next::Do(t) => concluded(t, end),
        Next::Finished(r) => r,
    }
}

/// Whether requests are served after the tasks, where `before` says whether they were.
pub open spec fn serves_after_all(tasks: Seq<Task>, before: bool) -> bool
    decreases tasks.len(),
{
    if tasks.len() == 0 {
        before
    } else {
        serves_after_all(tasks.drop_first(), serves_after(tasks[0], before))
    }
}

/// A start runs the end point worker, the snapshot worker and the listener in this order and stops at
/// the first that fails, with its error. The server serves requests after it exactly if both workers
/// run, and then the start succeeds.
pub proof fn start_needs_both_workers(batch: usize, end: spec_fn(Task) -> Outcome)
    ensures
        ({
            let first = Task::StartEndPoint { batch };
            let tasks = performed(first, end);
            let result = concluded(first, end);
            match end(first) {
                Outcome::Failed(e) => tasks == seq![first] && result == Err::<(), ServerError>(
                    ServerError::Other(e),
                ) && !serves_after_all(tasks, false),
                Outcome::Done => match end(Task::StartSnapHandler) {
                    Outcome::Failed(e) => tasks == seq![first, Task::StartSnapHandler] && result
                        == Err::<(), ServerError>(ServerError::Other(e)) && !serves_after_all(
                        tasks,
                        false,
                    ),
                    Outcome::Done => tasks == seq![first, Task::StartSnapHandler, Task::StartGrpc]
                        && result == Ok::<(), ServerError>(()) && serves_after_all(tasks, false),
                },
            }
        }),
{
    reveal_with_fuel(performed, 4);
    reveal_with_fuel(concluded, 4);
    reveal_with_fuel(serves_after_all, 4);
    let first = Task::StartEndPoint { batch };
    let tasks = performed(first, end);
    match (end(first), end(Task::StartSnapHandler)) {
        (Outcome::Failed(_), _) => {
            assert(tasks =~= seq![first]);
        },
        (Outcome::Done, Outcome::Failed(_)) => {
            assert(tasks =~= seq![first, Task::StartSnapHandler]);
        },
        (Outcome::Done, Outcome::Done) => {
            assert(tasks =~= seq![first, Task::StartSnapHandler, Task::StartGrpc]);
            assert(tasks.drop_first().drop_first()[0] == Task::StartGrpc);
        },
    }
}

/// A stop stops both workers, then the storage, then the listener, whatever goes wrong on the way. It
/// always succeeds, and no requests are served after it.
pub proof fn stop_always_reaches_the_end(end: spec_fn(Task) -> Outcome, before: bool)
    ensures
        performed(Task::StopEndPoint, end) == seq![
            Task::StopEndPoint,
            Task::StopSnapHandler,
            Task::StopStorage,
            Task::ShutdownGrpc,
        ],
        concluded(Task::StopEndPoint, end) == Ok::<(), ServerError>(()),
        !serves_after_all(performed(Task::StopEndPoint, end), before),
{
    reveal_with_fuel(performed, 5);
    reveal_with_fuel(concluded, 5);
    reveal_with_fuel(serves_after_all, 5);
    let tasks = performed(Task::StopEndPoint, end);
    assert(tasks =~= seq![
        Task::StopEndPoint,
        Task::StopSnapHandler,
        Task::StopStorage,
        Task::ShutdownGrpc,
    ]);
    assert(tasks.drop_first().drop_first().drop_first()[0] == Task::ShutdownGrpc);
}

} // verus!
