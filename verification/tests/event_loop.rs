use rustgi::error::{Error, PyException};
use rustgi::gateway::{Rustgi, SocketAddress};
use rustgi::gil::{
    is_gil_acquired_in_this_thread, GILFuture, GILLocalCounter, GilStep, LockStep, PollStep,
    ThreadGilCount,
};
use rustgi::io::Attempt;
use rustgi::server::{
    get_unique_token, EventStep, Gate, LoopAction, LoopEvent, PollRun, Readiness, Server,
    ServerRef, N_ROUNDS, SERVER,
};

const READABLE: Readiness = Readiness { readable: true, writable: false };
const WRITABLE: Readiness = Readiness { readable: false, writable: true };

fn server(server_ref: &mut Option<ServerRef>) -> Server<()> {
    let address = SocketAddress { host: "::".to_string(), port: 1 };
    Server::new(Rustgi::new(address, ()), server_ref)
}

fn name(action: LoopAction<&'static str>) -> String {
    match action {
        LoopAction::Ask => "ask".to_string(),
        LoopAction::Accept => "accept".to_string(),
        LoopAction::Register(token) => format!("register {}", token),
        LoopAction::Poll(token) => format!("poll {}", token),
        LoopAction::Deregister(token) => format!("deregister {}", token),
        LoopAction::Wait => "wait".to_string(),
        LoopAction::Fail(err) => format!("fail {}", err),
    }
}

#[test]
fn tokens_leave_out_the_listener() {
    let mut identity: usize = SERVER;
    assert_eq!(get_unique_token(&mut identity), 1);
    assert_eq!(get_unique_token(&mut identity), 2);
    identity = usize::MAX;
    assert_eq!(get_unique_token(&mut identity), 1);
    assert_eq!(identity, 1);
}

#[test]
fn connections_wait_for_their_events() {
    let mut known = ServerRef::new();
    let mut queue: Vec<usize> = Vec::new();
    assert_eq!(known.poll_read(1), Gate::NotFound);
    let token = known.accept();
    assert_eq!(token, 1);
    known.insert(token);
    assert_eq!(known.poll_read(token), Gate::Pending);
    assert_eq!(known.poll_write(token), Gate::Pending);
    assert!(known.poll_shutdown(token));
    assert!(matches!(known.on_event(token, READABLE, &mut queue), EventStep::Queued));
    assert_eq!(known.poll_read(token), Gate::Proceed);
    assert_eq!(known.poll_write(token), Gate::Pending);
    assert!(matches!(known.on_event(token, WRITABLE, &mut queue), EventStep::Queued));
    assert_eq!(known.poll_read(token), Gate::Pending);
    assert_eq!(known.poll_write(token), Gate::Proceed);
    assert!(matches!(known.on_event(7, WRITABLE, &mut queue), EventStep::Ignored));
    assert!(matches!(known.on_event(SERVER, READABLE, &mut queue), EventStep::Accept));
    assert_eq!(queue, vec![1, 1]);
    known.on_polled(token, false);
    assert!(known.poll_shutdown(token));
    known.on_polled(token, true);
    assert!(!known.poll_shutdown(token));
    assert_eq!(known.poll_write(token), Gate::NotFound);
}

#[test]
fn connections_do_not_disturb_each_other() {
    let mut known = ServerRef::new();
    let mut queue: Vec<usize> = Vec::new();
    let one = known.accept();
    known.insert(one);
    let two = known.accept();
    known.insert(two);
    known.on_event(one, READABLE, &mut queue);
    assert_eq!(known.poll_read(two), Gate::Pending);
    known.on_polled(one, true);
    assert_eq!(known.poll_read(two), Gate::Pending);
    assert_eq!(known.poll_read(one), Gate::NotFound);
}

#[test]
fn a_new_server_forgets_the_connections_of_another() {
    let mut known: Option<ServerRef> = None;
    server(&mut known);
    let token = known.as_mut().unwrap().accept();
    known.as_mut().unwrap().insert(token);
    server(&mut known);
    assert!(!known.as_ref().unwrap().poll_shutdown(token));
    assert_eq!(known.as_mut().unwrap().accept(), 1);
}

#[test]
fn a_round_accepts_and_then_polls() {
    let mut known: Option<ServerRef> = None;
    let server = server(&mut known);
    let mut known = known.unwrap();
    let mut run = PollRun::new();
    let events = vec![(9, READABLE), (SERVER, READABLE)];
    let step = server.poll(&mut run, &mut known, LoopEvent::Asked(Attempt::Done(events)));
    assert_eq!(name(step), "accept");
    let step = server.poll(&mut run, &mut known, LoopEvent::Accepted(Attempt::Done(())));
    assert_eq!(name(step), "register 1");
    let step = server.poll(&mut run, &mut known, LoopEvent::Registered(Ok(())));
    assert_eq!(name(step), "accept");
    assert_eq!(known.poll_read(1), Gate::Pending);
    let step = server.poll(&mut run, &mut known, LoopEvent::Accepted(Attempt::Done(())));
    assert_eq!(name(step), "register 2");
    server.poll::<&str>(&mut run, &mut known, LoopEvent::Registered(Ok(())));
    let step = server.poll(&mut run, &mut known, LoopEvent::Accepted(Attempt::WouldBlock("e")));
    assert_eq!(name(step), "ask");

    let events = vec![(2, READABLE), (SERVER, READABLE), (1, WRITABLE)];
    let step = server.poll(&mut run, &mut known, LoopEvent::Asked(Attempt::Done(events)));
    assert_eq!(name(step), "accept");
    assert_eq!(known.poll_read(2), Gate::Proceed);
    let step = server.poll(&mut run, &mut known, LoopEvent::Accepted(Attempt::WouldBlock("e")));
    assert_eq!(name(step), "poll 2");
    assert_eq!(known.poll_write(1), Gate::Proceed);
    let step = server.poll(&mut run, &mut known, LoopEvent::Polled(true));
    assert_eq!(name(step), "deregister 2");
    let step = server.poll(&mut run, &mut known, LoopEvent::Deregistered(Ok(())));
    assert_eq!(name(step), "poll 1");
    assert_eq!(known.poll_read(2), Gate::NotFound);
    let step = server.poll(&mut run, &mut known, LoopEvent::Polled(false));
    assert_eq!(name(step), "ask");
    assert!(known.poll_shutdown(1));
}

#[test]
fn a_server_waits_after_its_rounds() {
    let mut known: Option<ServerRef> = None;
    let server = server(&mut known);
    let mut known = known.unwrap();
    let mut run = PollRun::new();
    let mut asked: usize = 1;
    loop {
        let event = if asked % 2 == 0 {
            LoopEvent::Asked(Attempt::Interrupted("e"))
        } else {
            LoopEvent::Asked(Attempt::Done(Vec::new()))
        };
        let step = name(server.poll(&mut run, &mut known, event));
        if step == "wait" {
            break;
        }
        assert_eq!(step, "ask");
        asked += 1;
    }
    assert_eq!(asked, N_ROUNDS);
    assert_eq!(N_ROUNDS, 16);
}

#[test]
fn a_server_ends_with_an_error() {
    let mut known: Option<ServerRef> = None;
    let server = server(&mut known);
    let mut known = known.unwrap();
    let mut run = PollRun::new();
    let step = server.poll(&mut run, &mut known, LoopEvent::Asked(Attempt::Failed("ask")));
    assert_eq!(name(step), "fail ask");

    let mut run = PollRun::new();
    let events = vec![(SERVER, READABLE)];
    server.poll::<&str>(&mut run, &mut known, LoopEvent::Asked(Attempt::Done(events)));
    let step = server.poll(&mut run, &mut known, LoopEvent::Accepted(Attempt::Interrupted("int")));
    assert_eq!(name(step), "fail int");

    let mut run = PollRun::new();
    let events = vec![(SERVER, READABLE)];
    server.poll::<&str>(&mut run, &mut known, LoopEvent::Asked(Attempt::Done(events)));
    server.poll::<&str>(&mut run, &mut known, LoopEvent::Accepted(Attempt::Done(())));
    let step = server.poll(&mut run, &mut known, LoopEvent::Registered(Err("reg")));
    assert_eq!(name(step), "fail reg");
}

#[test]
fn the_lock_is_counted_per_thread() {
    let mut count = ThreadGilCount::new();
    assert!(!is_gil_acquired_in_this_thread(&count));
    let outer = GILLocalCounter::new(&mut count);
    let inner = GILLocalCounter::new(&mut count);
    assert!(is_gil_acquired_in_this_thread(&count));
    inner.drop(&mut count);
    assert!(is_gil_acquired_in_this_thread(&count));
    outer.drop(&mut count);
    assert!(!is_gil_acquired_in_this_thread(&count));
    GILLocalCounter.drop(&mut count);
    assert!(!is_gil_acquired_in_this_thread(&count));
}

#[test]
fn a_task_takes_turns_for_the_lock() {
    let mut future: GILFuture<&str> = GILFuture::new();
    assert!(matches!(future.poll_gil(true), GilStep::Run));
    assert!(matches!(future.poll_gil(false), GilStep::TryLock(None)));
    assert!(!GILFuture::<&str>::try_lock(true));
    assert!(GILFuture::<&str>::try_lock(false));
    assert!(matches!(GILFuture::<&str>::on_lock(None, false), LockStep::Listen));
    assert!(matches!(GILFuture::on_lock(Some("l"), false), LockStep::Poll("l")));
    assert!(matches!(future.on_poll("l", false), PollStep::Pending));
    assert!(matches!(future.poll_gil(false), GilStep::TryLock(Some("l"))));
    assert!(matches!(
        GILFuture::on_lock(Some("l"), true),
        LockStep::RunAndRelease { notify: false, listener: Some("l") }
    ));
    assert!(matches!(
        GILFuture::<&str>::on_lock(None, true),
        LockStep::RunAndRelease { notify: true, listener: None }
    ));
    assert!(matches!(future.on_poll("l", true), PollStep::Again));
    assert!(matches!(future.poll_gil(false), GilStep::TryLock(None)));
}

/// Polls a task once, round by round, and returns how often it ran, whether it is ready,
/// and whether the lock is held afterwards.
fn poll_task(future: &mut GILFuture<u8>, rounds: &[(bool, bool)]) -> (usize, bool, bool) {
    let mut count = ThreadGilCount::new();
    for (held, ready) in rounds {
        let listener = match future.poll_gil(is_gil_acquired_in_this_thread(&count)) {
            GilStep::Run => panic!("the lock is not held here"),
            GilStep::TryLock(listener) => listener,
        };
        let taken = GILFuture::<u8>::try_lock(*held);
        let listener = match GILFuture::on_lock(listener, taken) {
            LockStep::RunAndRelease { notify, listener } => {
                assert!(notify || listener.is_some());
                let counter = GILLocalCounter::new(&mut count);
                assert!(is_gil_acquired_in_this_thread(&count));
                counter.drop(&mut count);
                assert!(!is_gil_acquired_in_this_thread(&count));
                return (1, true, false);
            }
            LockStep::Listen => 7,
            LockStep::Poll(listener) => listener,
        };
        match future.on_poll(listener, *ready) {
            PollStep::Again => {}
            PollStep::Pending => return (0, false, true),
        }
    }
    panic!("no end")
}

#[test]
fn a_poll_runs_once_or_waits() {
    let mut future: GILFuture<u8> = GILFuture::new();
    assert_eq!(poll_task(&mut future, &[(true, true), (true, false)]), (0, false, true));
    assert_eq!(poll_task(&mut future, &[(true, false)]), (0, false, true));
    assert_eq!(poll_task(&mut future, &[(true, true), (false, false)]), (1, true, false));
    assert_eq!(poll_task(&mut future, &[(false, false)]), (1, true, false));
}

#[test]
fn errors_describe_themselves() {
    let invalid = http::Uri::try_from(b"a b" as &[u8]).unwrap_err();
    let shown = invalid.to_string();
    let cause = rustgi::error::Cause::new(http::Uri::try_from(b"a b" as &[u8]).unwrap_err());
    assert_eq!(cause.text(), shown);
    assert_eq!(cause.into_error().to_string(), shown);
    let err = Error::from(invalid);
    assert_eq!(err.source(), shown);
    assert_eq!(err.describe(), format!("InvalidUri: {}", shown));
    let utf8 = std::str::from_utf8(b"\xff").unwrap_err();
    let shown = utf8.to_string();
    assert_eq!(Error::from(utf8).describe(), format!("UTF8Error: {}", shown));
    let cases = vec![
        (Error::PyError("a".to_string()), "PyError: a"),
        (Error::HTTPError("b".to_string()), "HTTPError: b"),
        (Error::IOError("c".to_string()), "IOError: c"),
        (Error::AddrParseError("d".to_string()), "AddrParseError: d"),
        (Error::HyperError("e".to_string()), "HyperError: e"),
        (Error::BoxError("f".to_string()), "BoxError: f"),
    ];
    for (err, shown) in cases {
        assert_eq!(err.describe(), shown);
        let label = shown.split(": ").next().unwrap();
        assert_eq!(err.describe(), format!("{}: {}", label, err.source()));
    }
}

#[test]
fn errors_become_python_exceptions() {
    assert!(matches!(
        Error::PyError("x".to_string()).into_py_err(),
        PyException::Raised(text) if text == "x"
    ));
    assert!(matches!(
        Error::IOError("y".to_string()).into_py_err(),
        PyException::OsError(text) if text == "y"
    ));
    assert!(matches!(
        Error::HTTPError("z".to_string()).into_py_err(),
        PyException::ValueError(text) if text == "z"
    ));
    let utf8 = std::str::from_utf8(b"\xff").unwrap_err();
    let shown = utf8.to_string();
    assert!(matches!(
        Error::from(utf8).into_py_err(),
        PyException::ValueError(text) if text == shown
    ));
}
