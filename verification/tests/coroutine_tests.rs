use std::future::Future;
use std::pin::Pin;

use tikv_bridge::coroutine::{BridgeFault, BridgeMisuse, IterStep, PyCoroutine};
use tikv_bridge::host::{HostException, HostValue};
use tikv_bridge::marshal::to_py_execption;

type TaskResult = Result<HostValue, HostException>;
type BoxedTask = Pin<Box<dyn Future<Output = ()> + Send + 'static>>;

#[test]
fn pending_before_completion_never_blocks() {
    // with the sender alive and nothing sent, a bounded number of polls all
    // yield "not ready" and return immediately
    let (tx, rx) = tokio::sync::oneshot::channel::<TaskResult>();
    let mut co: PyCoroutine<(), HostValue> = PyCoroutine::eager(rx);
    for _ in 0..100 {
        assert!(matches!(co.__next__(), IterStep::Pending));
    }
    tx.send(Ok(HostValue::Int(7))).ok();
    assert!(matches!(co.__next__(), IterStep::Return(HostValue::Int(7))));
}

#[test]
fn value_yielded_exactly_once_then_detectable_misuse() {
    let (tx, rx) = tokio::sync::oneshot::channel::<TaskResult>();
    let mut co: PyCoroutine<(), HostValue> = PyCoroutine::eager(rx);
    tx.send(Ok(HostValue::Bytes(b"v".to_vec()))).ok();
    match co.__next__() {
        IterStep::Return(HostValue::Bytes(b)) => assert_eq!(b, b"v".to_vec()),
        _ => panic!("expected the final value"),
    }
    // a second poll after the terminal result is a detectable misuse
    for _ in 0..3 {
        assert!(matches!(
            co.__next__(),
            IterStep::Fault(BridgeFault::PolledAfterConsumed)
        ));
    }
}

#[test]
fn error_yielded_once_on_polling_side() {
    let (tx, rx) = tokio::sync::oneshot::channel::<TaskResult>();
    let mut co: PyCoroutine<(), HostValue> = PyCoroutine::eager(rx);
    tx.send(Err(to_py_execption("region unavailable"))).ok();
    match co.__next__() {
        IterStep::Raise(e) => assert_eq!(e.message, "region unavailable"),
        _ => panic!("expected the final error"),
    }
    assert!(matches!(
        co.__next__(),
        IterStep::Fault(BridgeFault::PolledAfterConsumed)
    ));
}

#[test]
fn sender_dropped_without_result_is_fatal() {
    let (tx, rx) = tokio::sync::oneshot::channel::<TaskResult>();
    drop(tx);
    let mut co: PyCoroutine<(), HostValue> = PyCoroutine::eager(rx);
    assert!(matches!(co.__next__(), IterStep::Fault(BridgeFault::ChannelClosed)));
    assert_eq!(BridgeFault::ChannelClosed.message(), "oneshot channel closed");
}

#[test]
fn deferred_awaited_twice_fails_distinctly() {
    let (_tx, rx) = tokio::sync::oneshot::channel::<TaskResult>();
    let mut co: PyCoroutine<u32, HostValue> = PyCoroutine::new(42, rx);
    // polling an unstarted deferred handle is just "not ready"
    assert!(matches!(co.__next__(), IterStep::Pending));
    // the first awaiting entry hands the unit of work out
    assert_eq!(co.__await__(), Ok(Some(42)));
    // a second one fails with the distinct misuse error, not a domain error
    assert_eq!(co.__await__(), Err(BridgeMisuse::AwaitedTwice));
    assert_eq!(co.__await__(), Err(BridgeMisuse::AwaitedTwice));
    assert_eq!(
        BridgeMisuse::AwaitedTwice.message(),
        "Awaited twice on PyCoroutine."
    );
}

#[test]
fn eager_awaited_twice_fails_distinctly() {
    let (_tx, rx) = tokio::sync::oneshot::channel::<TaskResult>();
    let mut co: PyCoroutine<(), HostValue> = PyCoroutine::eager(rx);
    assert_eq!(co.__await__(), Ok(None));
    assert_eq!(co.__await__(), Err(BridgeMisuse::AwaitedTwice));
}

#[test]
fn iter_is_identity() {
    let (_tx, rx) = tokio::sync::oneshot::channel::<TaskResult>();
    let co: PyCoroutine<(), HostValue> = PyCoroutine::eager(rx);
    let r = co.__iter__();
    assert!(std::ptr::eq(r, &co));
}

#[test]
fn deferred_task_spawned_on_background_runtime() {
    // the full bridge flow: a deferred unit of work is handed out by the
    // first awaiting entry, spawned on the multi-threaded runtime, delayed
    // artificially, and driven by non-blocking polls from this thread
    let rt = tokio::runtime::Builder::new_multi_thread()
        .worker_threads(2)
        .enable_time()
        .build()
        .unwrap();
    let (tx, rx) = tokio::sync::oneshot::channel::<TaskResult>();
    let task: BoxedTask = Box::pin(async move {
        tokio::time::sleep(std::time::Duration::from_millis(50)).await;
        tx.send(Ok(HostValue::Int(99))).ok();
    });
    let mut co: PyCoroutine<BoxedTask, HostValue> = PyCoroutine::new(task, rx);
    let work = co.__await__().unwrap().unwrap();
    rt.spawn(work);
    let mut polls: u64 = 0;
    loop {
        match co.__next__() {
            IterStep::Pending => {
                polls += 1;
                assert!(polls < 100_000_000, "task never completed");
            },
            IterStep::Return(HostValue::Int(n)) => {
                assert_eq!(n, 99);
                break;
            },
            _ => panic!("expected not-ready or the final value"),
        }
    }
    assert!(matches!(
        co.__next__(),
        IterStep::Fault(BridgeFault::PolledAfterConsumed)
    ));
}

#[test]
fn dropped_handle_discards_the_send() {
    // the background task outlives the handle; its eventual send is a no-op
    let (tx, rx) = tokio::sync::oneshot::channel::<TaskResult>();
    let co: PyCoroutine<(), HostValue> = PyCoroutine::eager(rx);
    drop(co);
    assert!(tx.send(Ok(HostValue::Nothing)).is_err());
}
