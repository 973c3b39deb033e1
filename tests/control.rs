use dns_operator::control::{
    ControlError, Controller, Event, LoopAction, LoopInput, NoticeKind, Operator, ProcessAction,
    ProcessError, Runtime, RuntimeCall, Step, Watcher,
};

/// Drives one reconciliation against a recording stand-in for the runtime.
fn drive(event: Event, shutdown: Result<(), ProcessError>, run: Result<(), ProcessError>) -> (Vec<RuntimeCall>, Result<(), ControlError>) {
    let c = Controller::new();
    let mut calls = Vec::new();
    let mut step = c.begin(event);
    loop {
        match step {
            Step::Call(call) => {
                calls.push(call);
                let outcome = match call {
                    RuntimeCall::Shutdown => shutdown,
                    RuntimeCall::Run => run,
                };
                step = c.after(call, outcome);
            }
            Step::Finish(r) => return (calls, r),
        }
    }
}

#[test]
fn scenario_c_update_restarts_once() {
    let (calls, r) = drive(Event::Update, Ok(()), Ok(()));
    assert_eq!(calls, vec![RuntimeCall::Shutdown, RuntimeCall::Run]);
    assert_eq!(r, Ok(()));
}

#[test]
fn scenario_c_shutdown_failure_skips_run() {
    let (calls, r) = drive(Event::Update, Err(ProcessError::NoRunningProcess), Ok(()));
    assert_eq!(calls, vec![RuntimeCall::Shutdown]);
    assert_eq!(r, Err(ControlError::Process(ProcessError::NoRunningProcess)));
}

#[test]
fn run_failure_is_reported() {
    let (calls, r) = drive(Event::Update, Ok(()), Err(ProcessError::SpawnFailed));
    assert_eq!(calls, vec![RuntimeCall::Shutdown, RuntimeCall::Run]);
    assert_eq!(r, Err(ControlError::Process(ProcessError::SpawnFailed)));
}

#[test]
fn create_and_delete_are_unsupported() {
    assert_eq!(drive(Event::Create, Ok(()), Ok(())), (vec![], Err(ControlError::Unsupported(Event::Create))));
    assert_eq!(drive(Event::Delete, Ok(()), Ok(())), (vec![], Err(ControlError::Unsupported(Event::Delete))));
}

#[test]
fn only_content_changes_are_updates() {
    let w = Watcher::new_file_watcher();
    assert_eq!(w.manifest_path, "./dns_manifest");
    assert_eq!(w.config_path, "./corefile");
    assert_eq!(w.classify(NoticeKind::ContentModified), Some(Event::Update));
    for k in [NoticeKind::Created, NoticeKind::Removed, NoticeKind::Renamed, NoticeKind::Accessed, NoticeKind::MetadataModified, NoticeKind::Other] {
        assert_eq!(w.classify(k), None);
    }
}

#[test]
fn runtime_tracks_one_process() {
    let mut rt = Runtime::new();
    assert_eq!(rt.shutdown(), Err(ProcessError::NoRunningProcess));
    assert_eq!(rt.run(), ProcessAction::Spawn);
    rt.settle(ProcessAction::Spawn, true);
    assert_eq!(rt.run(), ProcessAction::Keep);
    assert_eq!(rt.shutdown(), Ok(ProcessAction::Kill));
    rt.settle(ProcessAction::Kill, false);
    assert!(rt.tracking);
    rt.settle(ProcessAction::Kill, true);
    assert!(!rt.tracking);
    assert_eq!(rt.run(), ProcessAction::Spawn);
}

#[test]
fn operator_stops_on_failure() {
    let op = Operator::new(Controller::new(), Runtime::new(), Watcher::new_file_watcher());
    assert_eq!(op.next(LoopInput::Started(Ok(()))), LoopAction::Watch);
    assert_eq!(op.next(LoopInput::Started(Err(ProcessError::SpawnFailed))), LoopAction::Stop(ControlError::Process(ProcessError::SpawnFailed)));
    assert_eq!(op.next(LoopInput::Watched(Ok(Event::Update))), LoopAction::Reconcile(Event::Update));
    assert_eq!(op.next(LoopInput::Watched(Err(()))), LoopAction::Stop(ControlError::WatchFailed));
    assert_eq!(op.next(LoopInput::Reconciled(Ok(()))), LoopAction::Watch);
    assert_eq!(op.next(LoopInput::Reconciled(Err(ControlError::WatchFailed))), LoopAction::Stop(ControlError::WatchFailed));
}

#[test]
fn operator_shutdown_needs_a_process() {
    let mut op = Operator::new(Controller::new(), Runtime::new(), Watcher::new_file_watcher());
    assert_eq!(op.shutdown(), Err(ProcessError::NoRunningProcess));
    op.runtime.settle(ProcessAction::Spawn, true);
    assert_eq!(op.shutdown(), Ok(ProcessAction::Kill));
}
