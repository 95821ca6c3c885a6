//! Setting up, starting and stopping servers.
use std::cell::RefCell;
use std::collections::HashMap;
use std::rc::Rc;
use std::sync::atomic::{AtomicUsize, Ordering};
use std::sync::mpsc::{self, Sender};
use std::sync::Arc;
use std::time::Duration;

use tikv_ctl::server::{
    Address, Config, CopError, CopReport, CopRequestStatistics, CopSender, FlowStatistics,
    MockCopSender, Msg, Next, Outcome, RaftStoreRouter, Server, ServerError, Task,
};

fn config() -> Config {
    Config {
        addr: "127.0.0.1:0".to_owned(),
        grpc_concurrency: 4,
        grpc_concurrent_stream: 1024,
        grpc_stream_initial_window_size: 2097152,
    }
}

#[test]
fn setups_follow_the_configuration() {
    let addr = Address { ip: "127.0.0.1".to_owned(), port: 20160 };
    let l = match Server::<String>::setup(&config(), Some(addr), 1024, true) {
        Ok(l) => l,
        Err(_) => panic!("no setup"),
    };
    assert_eq!((l.bind.ip.as_str(), l.bind.port), ("127.0.0.1", 20160));
    assert_eq!((l.cq_count, l.thread_name), (4, "grpc-server"));
    assert_eq!((l.stream_initial_window_size, l.max_concurrent_stream), (2097152, 1024));
    assert_eq!((l.max_receive_message_len, l.max_send_message_len), (10 * 1024 * 1024, 4096));
    assert!(l.debug_service);
    assert_eq!((l.end_point_worker, l.snap_worker), ("end-point-worker", "snap-handler"));
    assert!(matches!(
        Server::<String>::setup(&config(), None, 1024, false),
        Err(ServerError::BadAddress)
    ));
}

fn server(port: u32) -> Server<String> {
    match Server::new("transport".to_owned(), Some("127.0.0.1".to_owned()), port) {
        Ok(s) => s,
        Err(_) => panic!("no server"),
    }
}

#[test]
fn servers_know_where_they_listen() {
    let s = server(20160);
    let addr = s.listening_addr();
    assert_eq!((addr.ip.as_str(), addr.port), ("127.0.0.1", 20160));
    assert_eq!(s.transport(), "transport");
    assert_eq!(server(65536 + 7).listening_addr().port, 7);
    assert!(matches!(Server::new(0u8, None, 1), Err(ServerError::BadHost)));
}

fn run<T: Clone>(
    s: &mut Server<T>,
    first: Task,
    fails: Option<Task>,
) -> (Vec<Task>, Result<(), ServerError>) {
    let mut tasks = vec![first];
    loop {
        let task = tasks[tasks.len() - 1];
        let outcome =
            if fails == Some(task) { Outcome::Failed("no".to_owned()) } else { Outcome::Done };
        match s.ended(task, outcome) {
            Next::Do(t) => tasks.push(t),
            Next::Finished(r) => return (tasks, r),
        }
    }
}

const FIRST: Task = Task::StartEndPoint { batch: 256 };

#[test]
fn a_start_needs_both_workers() {
    let mut s = server(1);
    let first = s.start();
    assert_eq!(first, FIRST);
    let (tasks, result) = run(&mut s, first, None);
    assert_eq!(tasks, vec![FIRST, Task::StartSnapHandler, Task::StartGrpc]);
    assert!(result.is_ok() && s.is_serving());

    let mut s = server(1);
    let (tasks, result) = run(&mut s, FIRST, Some(FIRST));
    assert_eq!(tasks, vec![FIRST]);
    assert!(matches!(result, Err(ServerError::Other(e)) if e == "no") && !s.is_serving());

    let mut s = server(1);
    let (tasks, result) = run(&mut s, FIRST, Some(Task::StartSnapHandler));
    assert_eq!(tasks, vec![FIRST, Task::StartSnapHandler]);
    assert!(result.is_err() && !s.is_serving());
}

#[test]
fn a_stop_always_reaches_the_end() {
    let all = vec![
        Task::StopEndPoint,
        Task::StopSnapHandler,
        Task::StopStorage,
        Task::ShutdownGrpc,
    ];
    for fails in [None, Some(Task::StopStorage), Some(Task::StopEndPoint)] {
        let mut s = server(1);
        let first = s.start();
        run(&mut s, first, None);
        let first = s.stop();
        let (tasks, result) = run(&mut s, first, fails);
        assert_eq!(tasks, all);
        assert!(result.is_ok() && !s.is_serving());
    }
}

#[derive(Clone)]
struct Recorder {
    seen: Rc<RefCell<Vec<CopRequestStatistics>>>,
    full: bool,
}

impl RaftStoreRouter for Recorder {
    fn try_send(&self, msg: Msg) -> Result<(), String> {
        let Msg::CoprocessorStats { request_stats } = msg;
        self.seen.borrow_mut().push(request_stats);
        if self.full {
            Err("channel is full".to_owned())
        } else {
            Ok(())
        }
    }
}

fn stats() -> CopRequestStatistics {
    let mut stats = HashMap::new();
    stats.insert(3, FlowStatistics { read_keys: 1, read_bytes: 20 });
    stats
}

#[test]
fn reports_go_to_the_raft_store() {
    let seen = Rc::new(RefCell::new(vec![]));
    let report = CopReport::new(Recorder { seen: seen.clone(), full: false });
    assert!(report.send(stats()).is_ok());
    assert_eq!(*seen.borrow(), vec![stats()]);
    let report = CopReport::new(Recorder { seen: seen.clone(), full: true });
    assert!(matches!(report.send(stats()), Err(CopError::Other(e)) if e == "channel is full"));
    assert_eq!(seen.borrow().len(), 2);
}

#[test]
fn reports_to_nobody_are_dropped() {
    assert!(MockCopSender::new().send(stats()).is_ok());
}

#[test]
fn reports_are_copied_with_their_router() {
    let seen = Rc::new(RefCell::new(vec![]));
    let report = CopReport::new(Recorder { seen: seen.clone(), full: false });
    assert!(report.clone().send(stats()).is_ok());
    assert_eq!(seen.borrow().len(), 1);
}

#[derive(Clone)]
struct TestRaftStoreRouter {
    tx: Sender<usize>,
    report_unreachable_count: Arc<AtomicUsize>,
}

impl TestRaftStoreRouter {
    fn new(tx: Sender<usize>) -> TestRaftStoreRouter {
        TestRaftStoreRouter { tx, report_unreachable_count: Arc::new(AtomicUsize::new(0)) }
    }

    fn report_unreachable(&self) {
        self.report_unreachable_count.fetch_add(1, Ordering::SeqCst);
    }
}

impl RaftStoreRouter for TestRaftStoreRouter {
    fn try_send(&self, _: Msg) -> Result<(), String> {
        self.tx.send(1).map_err(|e| e.to_string())
    }
}

/// The transport here leads straight to the router; there is no network between them.
#[test]
fn test_peer_resolve() {
    let mut cfg = config();
    cfg.addr = "127.0.0.1:0".to_owned();

    let (tx, rx) = mpsc::channel();
    let router = TestRaftStoreRouter::new(tx);
    let report_unreachable_count = router.report_unreachable_count.clone();

    let addr = Address { ip: "127.0.0.1".to_owned(), port: 0 };
    let setup = match Server::<TestRaftStoreRouter>::setup(&cfg, Some(addr), 1024, false) {
        Ok(s) => s,
        Err(_) => panic!("no setup"),
    };
    assert!(!setup.debug_service);
    let mut server = match Server::new(router, Some(setup.bind.ip), 40123) {
        Ok(s) => s,
        Err(_) => panic!("no server"),
    };
    let addr = server.listening_addr();
    assert_eq!((addr.ip.as_str(), addr.port), ("127.0.0.1", 40123));

    let first = server.start();
    assert!(run(&mut server, first, None).1.is_ok());
    assert!(server.is_serving());

    let trans = server.transport();
    for i in 0..10 {
        if i % 2 == 1 {
            trans.report_unreachable();
        }
        assert_eq!(report_unreachable_count.load(Ordering::SeqCst), (i + 1) / 2);
    }
    assert!(trans.try_send(Msg::CoprocessorStats { request_stats: stats() }).is_ok());
    assert!(rx.recv_timeout(Duration::from_secs(5)).is_ok());
    let first = server.stop();
    assert!(run(&mut server, first, None).1.is_ok());
    assert!(!server.is_serving());
}
