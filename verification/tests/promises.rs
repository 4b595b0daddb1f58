use geosia::client::loading::{
    kickoff_connected_game_transition, loading_game_transition_handler, take_transition_params, LoadingTransitionParams,
};
use geosia::voxel::plugin::{chunk_stream_step, ChunkStreamStep};
use geosia::promises::{AsyncResult, GenericAsyncResult, TryRecvFailure};

#[test]
fn object_safe_sync_test() {
    let (r, tx) = AsyncResult::new_pair();
    tx.send(Ok(1i32)).unwrap();
    let mut rbox: Box<dyn GenericAsyncResult> = Box::new(r);
    let _ = rbox.is_ready();
    let _ = rbox.is_ok();
    let _ = rbox.is_err();
    rbox.generic_poll().unwrap().unwrap();
    rbox.blocking_generic_wait().unwrap();
}

#[test]
fn pre_resolved_ok_is_ready_and_yields_its_value() {
    let mut r = AsyncResult::new_ok(5u32);
    match r.poll() {
        Some(Ok(v)) => assert_eq!(*v, 5),
        _ => panic!("expected a ready value"),
    }
    // polling again yields the same value
    match r.poll() {
        Some(Ok(v)) => assert_eq!(*v, 5),
        _ => panic!("expected a ready value"),
    }
    assert_eq!(r.blocking_wait().unwrap(), 5);
}

#[test]
fn pre_resolved_err_yields_the_error() {
    let mut r: AsyncResult<u32> = AsyncResult::new_err(anyhow::Error::msg("boom"));
    assert!(matches!(r.poll(), Some(Err(_))));
    assert_eq!(r.is_err(), Some(true));
    assert_eq!(r.is_ok(), Some(false));
    assert_eq!(r.blocking_wait().unwrap_err().to_string(), "boom");
}

#[test]
fn unresolved_until_sent() {
    let (mut r, tx) = AsyncResult::<u8>::new_pair();
    assert!(r.poll().is_none());
    assert!(!r.is_ready());
    tx.send(Ok(7)).unwrap();
    match r.poll() {
        Some(Ok(v)) => assert_eq!(*v, 7),
        _ => panic!("expected the sent value"),
    }
    assert!(r.is_ready());
}

#[test]
fn dropped_sender_aborts() {
    let (mut r, tx) = AsyncResult::<u8>::new_pair();
    drop(tx);
    // the first poll notices the closed channel and yields the abort at once
    assert!(matches!(r.poll(), Some(Err(_))));
    assert!(matches!(r.poll(), Some(Err(_))));
    assert_eq!(r.is_ok(), Some(false));
}

#[test]
fn blocking_wait_on_sent_pair() {
    let (r, tx) = AsyncResult::<u8>::new_pair();
    tx.send(Ok(3)).unwrap();
    assert_eq!(r.blocking_wait().unwrap(), 3);
}

#[test]
fn loading_waits_for_all_steps_and_reports_failures() {
    let (pending, tx) = AsyncResult::<()>::new_pair();
    let mut promises = vec![
        AsyncResult::new_ok(()),
        pending,
        AsyncResult::new_err(anyhow::Error::msg("load failed")),
    ];
    let (done, errors) = loading_game_transition_handler(&mut promises);
    assert!(!done);
    assert_eq!(errors.len(), 1);
    assert_eq!(errors[0].to_string(), "load failed");
    assert_eq!(promises.len(), 1);

    // nothing new: the pending step stays
    let (done, errors) = loading_game_transition_handler(&mut promises);
    assert!(!done);
    assert!(errors.is_empty());
    assert_eq!(promises.len(), 1);

    tx.send(Ok(())).unwrap();
    let (done, errors) = loading_game_transition_handler(&mut promises);
    assert!(done);
    assert!(errors.is_empty());
    assert!(promises.is_empty());
}

#[test]
fn loading_with_no_steps_is_done() {
    let mut promises: Vec<AsyncResult<()>> = Vec::new();
    let (done, errors) = loading_game_transition_handler(&mut promises);
    assert!(done);
    assert!(errors.is_empty());
}

#[test]
fn kickoff_adds_a_step_resolved_by_the_returned_sender() {
    let mut promises: Vec<AsyncResult<()>> = Vec::new();
    let resolver = kickoff_connected_game_transition(&mut promises);
    assert_eq!(promises.len(), 1);
    let (done, _) = loading_game_transition_handler(&mut promises);
    assert!(!done);
    resolver.0.send(Ok(())).unwrap();
    let (done, _) = loading_game_transition_handler(&mut promises);
    assert!(done);
}

#[test]
fn transition_params_are_taken_once() {
    let mut params: LoadingTransitionParams<u32> =
        LoadingTransitionParams::MultiPlayer { server_address_raw: String::from("[::1]:28032") };
    match take_transition_params(&mut params) {
        LoadingTransitionParams::MultiPlayer { server_address_raw } => assert_eq!(server_address_raw, "[::1]:28032"),
        _ => panic!("expected the multiplayer parameters"),
    }
    assert!(matches!(params, LoadingTransitionParams::NoTransition));
    let mut single: LoadingTransitionParams<u32> = LoadingTransitionParams::SinglePlayer { savefile_metadata: 4 };
    assert!(matches!(take_transition_params(&mut single), LoadingTransitionParams::SinglePlayer { savefile_metadata: 4 }));
}

#[test]
fn chunk_streams_are_requested_then_awaited() {
    let mut awaiting: Option<AsyncResult<u64>> = None;
    assert!(matches!(chunk_stream_step(&mut awaiting), ChunkStreamStep::RequestStream));
    let (pending, tx) = AsyncResult::new_pair();
    awaiting = Some(pending);
    assert!(matches!(chunk_stream_step(&mut awaiting), ChunkStreamStep::KeepWaiting));
    tx.send(Ok(17)).unwrap();
    assert!(matches!(chunk_stream_step(&mut awaiting), ChunkStreamStep::Ready(17)));
    let mut failed: Option<AsyncResult<u64>> = Some(AsyncResult::new_err(anyhow::Error::msg("no stream")));
    assert!(matches!(chunk_stream_step(&mut failed), ChunkStreamStep::Failed));
    assert!(failed.is_some());
}

#[test]
fn settling_follows_the_receive_outcome() {
    let (mut r, _tx) = AsyncResult::<u8>::new_pair();
    assert!(r.settle_receive(Err(TryRecvFailure::Empty)).is_none());
    match r.settle_receive(Ok(Ok(5))) {
        Some(Ok(v)) => assert_eq!(*v, 5),
        _ => panic!("expected the received value"),
    }
    // a ready holder ignores later outcomes
    match r.settle_receive(Err(TryRecvFailure::Closed)) {
        Some(Ok(v)) => assert_eq!(*v, 5),
        _ => panic!("expected the value received first"),
    }
    let (mut c, _tx2) = AsyncResult::<u8>::new_pair();
    assert!(matches!(c.settle_receive(Err(TryRecvFailure::Closed)), Some(Err(_))));
    assert!(matches!(c, AsyncResult::Aborted(_)));
}

#[test]
fn blocking_receive_passes_the_sent_result_through() {
    let v = AsyncResult::<u8>::settle_blocking_receive(Ok(Ok(9))).unwrap();
    assert_eq!(v, 9);
    let e = AsyncResult::<u8>::settle_blocking_receive(Ok(Err(anyhow::Error::msg("boom")))).unwrap_err();
    assert_eq!(e.to_string(), "boom");
    let (tx, rx) = tokio::sync::oneshot::channel::<anyhow::Result<u8>>();
    drop(tx);
    let closed = rx.blocking_recv().unwrap_err();
    assert!(AsyncResult::<u8>::settle_blocking_receive(Err(closed)).is_err());
}
