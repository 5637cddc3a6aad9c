use coio::coroutine::{Coroutine, State};
use coio::options::Options;
use coio::promise::Promise;
use coio::runtime::processor::Processor;
use coio::sync::future::cores::{
    AwaitCoreInner, AwaitHandle, CoreWrapper, PlainCore, PlainCoreInner,
};
use coio::sync::future::{make, ContinueWith, Core, Future, Promise as FuturePromise};
use coio::sync::mutex::PoisonError;
use coio::sync::spinlock::Spinlock;

/// Waits for a result.
type Await = AwaitCoreInner<i32, String, &'static str>;

type Plain = PlainCore<i32, String, Await>;

#[test]
fn result_is_handed_on_once_settled() {
    let mut inner = PlainCoreInner { result: None, next: None };
    inner.settle(Ok(1));
    inner.set_next(Await::new());
    assert_eq!(inner.next.unwrap().result, Some(Ok(1)));
    assert_eq!(inner.result, None);

    let mut inner = PlainCoreInner { result: None, next: None };
    inner.set_next(Await::new());
    inner.settle(Ok(1));
    assert_eq!(inner.next.unwrap().result, Some(Ok(1)));
    assert_eq!(inner.result, None);
}

#[test]
fn cores_can_be_chained() {
    let mut second: PlainCoreInner<i32, String, Await> =
        PlainCoreInner { result: None, next: None };
    second.set_next(Await::new());
    let mut first: PlainCoreInner<i32, String, PlainCoreInner<i32, String, Await>> =
        PlainCoreInner { result: None, next: None };
    first.set_next(second);
    first.continue_with(Err("late".to_string()));
    assert_eq!(first.next.unwrap().next.unwrap().result, Some(Err("late".to_string())));
    let mut last: Plain = CoreWrapper::<PlainCoreInner<i32, String, Await>>::new(None);
    last.set_next(Await::new());
    last.settle(Ok(2));
}

#[test]
fn futures_with_values() {
    let mut future: Future<Plain> = Future::<Plain>::resolved(3);
    future.set_next::<i32, String>(Await::new());
    let _: Future<Plain> = Future::<Plain>::rejected("no".to_string());
    let _: Future<Plain> = Future::<Plain>::with_value(Ok(1));
    let core = Future::with_core(5).into_core();
    assert_eq!(core, 5);
}

#[test]
fn promises_settle_their_core() {
    let inner: PlainCoreInner<i32, String, Await> = PlainCoreInner { result: None, next: None };
    let inner = FuturePromise::with_core(inner).resolve::<i32, String>(7);
    assert_eq!(inner.result, Some(Ok(7)));
    let inner = FuturePromise::with_core(inner).reject::<i32, String>("late".to_string());
    assert_eq!(inner.result, Some(Err("late".to_string())));
}

type Last<T, E> = PlainCoreInner<T, E, AwaitCoreInner<T, E, &'static str>>;

#[test]
fn then_goes_on_with_a_value() {
    let add = |p: FuturePromise<Last<i64, String>>, v: i32| p.resolve(i64::from(v) + 1);
    // settled before
    let core = PlainCore::new(Some(Ok(1)));
    let next = Future::with_core(core).then(add).into_core().into_inner().next.unwrap();
    assert_eq!(next.core.result, Some(Ok(2)));
    assert!(next.handler.is_none());
    // settled after
    let core = Future::with_core(make()).then(add).into_core();
    let core = FuturePromise::with_core(core).resolve::<i32, String>(4);
    assert_eq!(core.into_inner().next.unwrap().core.result, Some(Ok(5)));
    // an error is handed on
    let core = Future::with_core(make()).then(add).into_core();
    let core = FuturePromise::with_core(core).reject::<i32, String>("bad".to_string());
    let next = core.into_inner().next.unwrap();
    assert_eq!(next.core.result, Some(Err("bad".to_string())));
    assert!(next.handler.is_some());
}

#[test]
fn catch_goes_on_with_an_error() {
    let count = |p: FuturePromise<Last<usize, char>>, e: String| p.resolve::<usize, char>(e.len());
    let core = Future::with_core(make()).catch(count).into_core();
    let core = FuturePromise::with_core(core).reject::<usize, String>("bad".to_string());
    assert_eq!(core.into_inner().next.unwrap().core.result, Some(Ok(3)));
    let core = Future::with_core(make()).catch(count).into_core();
    let core = FuturePromise::with_core(core).resolve::<usize, String>(8);
    assert_eq!(core.into_inner().next.unwrap().core.result, Some(Ok(8)));
}

#[test]
fn futures_form_chains() {
    let half = |p: FuturePromise<Last<i32, String>>, v: i32| {
        if v % 2 == 0 {
            p.resolve(v / 2)
        } else {
            p.reject(format!("{} is odd", v))
        }
    };
    for (start, end) in [(6, Ok(3)), (7, Err("7 is odd".to_string()))] {
        let core = Future::with_core(make()).then(half).into_core();
        let mut next = FuturePromise::with_core(core).resolve(start).into_inner().next.unwrap();
        next.set_next(Await::new());
        assert_eq!(next.core.next.unwrap().result, Some(end));
    }
}

#[test]
fn future_is_awaited() {
    let mut settled: Future<Plain> = Future::<Plain>::resolved(3);
    assert_eq!(settled.wait_result(None, "thread"), Some(Ok(3)));
    let mut future: Future<Plain> = Future::with_core(make());
    assert_eq!(future.wait_result(None, "thread"), None);
    let core = FuturePromise::with_core(future.into_core()).resolve::<i32, String>(4);
    let mut next = core.into_inner().next.unwrap();
    assert!(matches!(next.wake(), AwaitHandle::Thread("thread")));
    assert_eq!(next.wait_result(None, "thread"), Some(Ok(4)));
}

#[test]
fn result_is_awaited() {
    let mut core = Await::new();
    assert_eq!(core.wait_result(None, "thread"), None);
    core.continue_with(Ok(1));
    match core.wake() {
        AwaitHandle::Thread(name) => assert_eq!(name, "thread"),
        _ => panic!("a thread waits"),
    }
    assert_eq!(core.wait_result(None, "thread"), Some(Ok(1)));

    let mut opts = Options::new();
    opts.stack_size(4096);
    let mut p = Processor::new(0, 1 << 20);
    p.resume(Coroutine::spawn_opts(6, opts).unwrap());
    assert_eq!(core.wait_result(Some(&mut p), "thread"), None);
    assert!(p.current_coroutine().is_none());
    core.continue_with(Err("x".to_string()));
    match core.wake() {
        AwaitHandle::Coroutine(coro) => {
            assert_eq!(coro.id(), 6);
            assert_eq!(coro.state(), State::Parked);
        }
        _ => panic!("a coroutine waits"),
    }
    match core.wake() {
        AwaitHandle::Nobody => {}
        _ => panic!("nobody waits"),
    }
}

#[test]
fn promise_goes_the_right_way() {
    let r = Promise::<f64, &str>::spawn(|| Ok(1.23))
        .then(
            |res| {
                assert_eq!(res, 1.23);
                Ok(34)
            },
            |err| {
                assert_eq!(err, "Final error");
                Err(44u64)
            },
        )
        .sync();
    assert_eq!(r, Ok(34));
    let r = Promise::<f64, &str>::joined(Err("Final error"))
        .then(|_| Ok(34), |_| if true { Ok(35) } else { Err(44u64) })
        .sync();
    assert_eq!(r, Ok(35));
}

#[test]
fn promise_hands_on_what_does_not_concern_it() {
    assert_eq!(Promise::<i32, i32>::joined(Ok(1)).success(|t| Ok(t + 1)).sync(), Ok(2));
    assert_eq!(Promise::<i32, i32>::joined(Err(1)).success(|t| Ok(t + 1)).sync(), Err(1));
    assert_eq!(Promise::<i32, i32>::joined(Ok(1)).fail(|e| Err(e + 1)).sync(), Ok(1));
    assert_eq!(Promise::<i32, i32>::joined(Err(1)).fail(|e| Err(e + 1)).sync(), Err(2));
    let chained = Promise::<i32, i32>::joined(Err(1)).chain(|r| match r {
        Ok(t) => Err(t),
        Err(e) => Ok(e * 10),
    });
    assert_eq!(chained.sync(), Ok(10));
    Promise::<i32, i32>::joined(Ok(5)).finally(|r| assert_eq!(r, Ok(5)));
    Promise::<i32, i32>::joined(Err(5)).finally_sync(|r| assert_eq!(r, Err(5)));
}

#[test]
fn spinlock_has_one_guard() {
    let mut lock = Spinlock::new(5);
    let mut guard = lock.try_lock().unwrap();
    assert!(lock.try_lock().is_none());
    *guard.deref_mut() += 1;
    lock.unlock(guard);
    let guard = lock.lock();
    assert_eq!(*guard.deref(), 6);
    lock.unlock(guard);
}

#[test]
fn poison_error_holds_its_guard() {
    let mut e = PoisonError::new(3);
    assert_eq!(*e.get_ref(), 3);
    *e.get_mut() = 4;
    assert_eq!(e.description(), "poisoned lock: another task failed inside");
    assert_eq!(e.into_inner(), 4);
}
