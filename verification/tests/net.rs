use coio::net::echo::{EchoConn, Registration, HUP, READABLE, WRITABLE};
use coio::net::http::conn::{HttpConnector, HttpsConnector, HttpsTarget, InvalidScheme};
use coio::net::http::server::{
    should_keep_alive, ConnectionOption, HttpVersion, RequestHead, Worker, WorkerStep,
};
use coio::net::{
    each_addr, listener_interest, pipe_writer_interest, stream_interest, Attempt, GenericEvented,
    IoError, Operation, Step, SyncGuard,
};
use coio::runtime::timer::Span;
use hyper::header::{Connection, ConnectionOption as Hyper, Headers};

fn step(e: &mut GenericEvented, op: Operation, a: Attempt<u32, &'static str>) -> (String, bool) {
    let mut guard = SyncGuard::new();
    let text = match e.step(op, a, &mut guard) {
        Step::Return(Ok(n)) => format!("ok {}", n),
        Step::Return(Err(IoError::System(e))) => format!("error {}", e),
        Step::Return(Err(IoError::TimedOut)) => "timed out".to_string(),
        Step::Wait { ready_type, timeout } => format!("wait {:?} {:?}", ready_type, timeout),
        Step::Try => "try".to_string(),
    };
    (text, guard.finish())
}

#[test]
fn operation_that_is_done_gives_way() {
    let mut e = GenericEvented::new(3, 4);
    assert_eq!((e.token(), e.ready_states()), (3, 4));
    assert_eq!(step(&mut e, Operation::Read, Attempt::Done(7)), ("ok 7".to_string(), true));
    assert_eq!(step(&mut e, Operation::Write, Attempt::Failed("x")), ("error x".to_string(), true));
}

#[test]
fn operation_that_would_block_waits() {
    let mut e = GenericEvented::new(0, 0);
    let wait = "wait Readable None".to_string();
    assert_eq!(step(&mut e, Operation::Read, Attempt::WouldBlock), (wait.clone(), false));
    assert_eq!(step(&mut e, Operation::Read, Attempt::NotConnected("n")), (wait.clone(), false));
    assert_eq!(step(&mut e, Operation::Accept, Attempt::WouldBlock), (wait, false));
    let error = ("error n".to_string(), true);
    assert_eq!(step(&mut e, Operation::Accept, Attempt::NotConnected("n")), error);
    assert_eq!(step(&mut e, Operation::RecvFrom, Attempt::NotConnected("n")), error);
    let wait = ("wait Writable None".to_string(), false);
    assert_eq!(step(&mut e, Operation::Flush, Attempt::NotConnected("n")), wait);
    assert_eq!(step(&mut e, Operation::SendTo, Attempt::WouldBlock), wait);
}

fn ms(ms: u64) -> Option<Span> {
    Some(Span { secs: ms / 1000, nanos: (ms % 1000) as u32 * 1_000_000 })
}

#[test]
fn each_wait_has_its_timeout() {
    let mut e = GenericEvented::new(0, 0);
    assert_eq!(e.read_timeout(), None);
    e.set_read_timeout(ms(1100));
    e.set_write_timeout(ms(200));
    assert_eq!(e.read_timeout(), ms(1100));
    assert_eq!(e.write_timeout(), ms(200));
    for op in [Operation::Read, Operation::Accept, Operation::RecvFrom] {
        let (text, _) = step(&mut e, op, Attempt::WouldBlock);
        assert_eq!(text, "wait Readable Some(1100)");
    }
    for op in [Operation::Write, Operation::Flush, Operation::SendTo] {
        let (text, _) = step(&mut e, op, Attempt::WouldBlock);
        assert_eq!(text, "wait Writable Some(200)");
    }
    e.set_write_timeout(None);
    let (text, _) = step(&mut e, Operation::Write, Attempt::WouldBlock);
    assert_eq!(text, "wait Writable None");
    let short = Some(Span { secs: 0, nanos: 2_500_000 });
    e.set_read_timeout(short);
    assert_eq!(e.read_timeout(), short);
    let (text, _) = step(&mut e, Operation::Read, Attempt::WouldBlock);
    assert_eq!(text, "wait Readable Some(2)");
    assert_eq!(Span { secs: u64::MAX, nanos: 0 }.as_ms(), u64::MAX);
}

#[test]
fn read_that_waits_too_long_times_out() {
    let mut e = GenericEvented::new(0, 0);
    e.set_read_timeout(ms(100));
    let (text, _) = step(&mut e, Operation::Read, Attempt::WouldBlock);
    assert_eq!(text, "wait Readable Some(100)");
    assert!(matches!(e.wait_ended::<u32, &str>(true), Step::Return(Err(IoError::TimedOut))));
    assert!(matches!(e.wait_ended::<u32, &str>(false), Step::Try));
    assert_eq!(step(&mut e, Operation::Read, Attempt::Done(7)), ("ok 7".to_string(), true));
}

#[test]
fn accept_by_a_path_waits_without_a_limit() {
    let mut e = GenericEvented::new(0, 0);
    e.set_read_timeout(ms(100));
    let wait = ("wait Readable None".to_string(), false);
    assert_eq!(step(&mut e, Operation::AcceptLocal, Attempt::WouldBlock), wait);
    let wait = ("wait Readable Some(100)".to_string(), false);
    assert_eq!(step(&mut e, Operation::Accept, Attempt::WouldBlock), wait);
    let error = ("error n".to_string(), true);
    assert_eq!(step(&mut e, Operation::AcceptLocal, Attempt::NotConnected("n")), error);
}

#[test]
fn sockets_register_for_their_events() {
    assert_eq!(listener_interest().bits, 1);
    assert_eq!(stream_interest().bits, 3);
    assert_eq!(pipe_writer_interest().bits, 2);
}

#[test]
fn first_address_that_works_is_taken() {
    let even = |n: &u32| if n % 2 == 0 { Ok(n * 10) } else { Err(*n) };
    assert_eq!(each_addr(&vec![1, 3, 4, 6], even), Ok(40));
    assert_eq!(each_addr(&vec![1, 3], even), Err(Some(3)));
    assert_eq!(each_addr(&Vec::new(), even), Err(None));
}

#[test]
fn connectors_know_their_schemes() {
    let target = HttpConnector.connect("host", 80, "http").ok().unwrap();
    assert_eq!((target.host.as_str(), target.port), ("host", 80));
    assert_eq!(HttpConnector.connect("host", 80, "https").err(), Some(InvalidScheme));
    assert_eq!(InvalidScheme.description(), "Invalid scheme for Http");
    match HttpsConnector.connect("host", 443, "https") {
        Ok(HttpsTarget::Https(target)) => assert_eq!(target.port, 443),
        _ => panic!("the connection is protected"),
    }
    match HttpsConnector.connect("host", 80, "http") {
        Ok(HttpsTarget::Http(target)) => assert_eq!(target.host, "host"),
        _ => panic!("the connection is plain"),
    }
    assert!(HttpsConnector.connect("host", 21, "ftp").is_err());
}

#[test]
fn keep_alive_agrees_with_hyper() {
    let versions = [
        (HttpVersion::Http09, hyper::version::HttpVersion::Http09),
        (HttpVersion::Http10, hyper::version::HttpVersion::Http10),
        (HttpVersion::Http11, hyper::version::HttpVersion::Http11),
        (HttpVersion::Http20, hyper::version::HttpVersion::Http20),
    ];
    let options = [ConnectionOption::KeepAlive, ConnectionOption::Close, ConnectionOption::Other];
    for (version, theirs) in versions {
        assert_eq!(
            should_keep_alive(version, &None),
            hyper::http::should_keep_alive(theirs, &Headers::new()),
        );
        for bits in 0..8 {
            let mut ours = Vec::new();
            let mut header = Vec::new();
            for i in 0..3 {
                if bits & (1 << i) != 0 {
                    ours.push(options[i]);
                    header.push(match options[i] {
                        ConnectionOption::KeepAlive => Hyper::KeepAlive,
                        ConnectionOption::Close => Hyper::Close,
                        ConnectionOption::Other => "upgrade".parse().unwrap(),
                    });
                }
            }
            let mut headers = Headers::new();
            headers.set(Connection(header));
            assert_eq!(
                should_keep_alive(version, &Some(ours)),
                hyper::http::should_keep_alive(theirs, &headers),
            );
        }
    }
}

fn head(version: HttpVersion, option: Option<ConnectionOption>, expects: bool) -> RequestHead {
    RequestHead { version, connection: option.map(|o| vec![o]), expects_continue: expects }
}

#[test]
fn connection_is_kept_while_both_sides_agree() {
    let mut w = Worker::new();
    assert_eq!(w.step(), WorkerStep::Read);
    w.request_read(Some(head(HttpVersion::Http11, None, false)));
    assert_eq!(w.step(), WorkerStep::Handle { close: false });
    w.handled(&None);
    assert_eq!(w.step(), WorkerStep::Read);
    w.request_read(Some(head(HttpVersion::Http11, None, false)));
    w.handled(&Some(vec![ConnectionOption::Close]));
    assert_eq!(w.step(), WorkerStep::Close);

    let mut w = Worker::new();
    w.request_read(Some(head(HttpVersion::Http10, None, true)));
    assert_eq!(w.step(), WorkerStep::Handle { close: true });
    w.handled(&Some(vec![ConnectionOption::KeepAlive]));
    assert_eq!(w.step(), WorkerStep::Close);

    let mut w = Worker::new();
    w.request_read(None);
    assert_eq!(w.step(), WorkerStep::Close);
}

#[test]
fn client_that_expects_a_status_is_told() {
    let expecting = || head(HttpVersion::Http11, Some(ConnectionOption::Close), true);
    let mut w = Worker::new();
    w.request_read(Some(expecting()));
    assert_eq!(w.step(), WorkerStep::CheckContinue);
    w.handle_expect(true, 100);
    assert_eq!(w.step(), WorkerStep::Handle { close: true });
    let mut w = Worker::new();
    w.request_read(Some(expecting()));
    w.handle_expect(true, 417);
    assert_eq!(w.step(), WorkerStep::Close);
    let mut w = Worker::new();
    w.request_read(Some(expecting()));
    w.handle_expect(false, 100);
    assert_eq!(w.step(), WorkerStep::Close);
}

#[test]
fn echo_reads_and_writes_in_turn() {
    let mut c = EchoConn::new();
    assert_eq!(c.interest, HUP);
    assert_eq!(c.readable::<()>(Attempt::WouldBlock), Registration::Again(HUP));
    let again = Registration::Again(HUP | WRITABLE);
    assert_eq!(c.readable::<()>(Attempt::Done(vec![1, 2])), again);
    assert_eq!(c.buf, Some(vec![1, 2]));
    assert_eq!(c.writable::<()>(Attempt::WouldBlock), again);
    assert_eq!(c.buf, Some(vec![1, 2]));
    assert_eq!(c.writable::<()>(Attempt::Done(2)), Registration::Again(HUP | READABLE));
    assert!(c.buf.is_none() && c.mut_buf);
    assert_eq!(c.readable(Attempt::Failed(())), Registration::Again(HUP));
    let mut c = EchoConn::new();
    assert_eq!(c.readable::<()>(Attempt::Done(Vec::new())), Registration::Dropped);
}
