//! The decisions of the watch -> reconcile -> restart loop. The loop itself,
//! the file notifications and the server process are driven from outside:
//! each function here takes what happened and says what to do next.

use vstd::prelude::*;

verus! {

/// A change of the watched files that the loop reacts to.
#[derive(Clone, Copy, Debug, PartialEq, Eq)]
pub enum Event {
    Create,
    Update,
    Delete,
}

/// The kind of one change notification on a watched path.
#[derive(Clone, Copy, Debug, PartialEq, Eq)]
pub enum NoticeKind {
    Created,
    ContentModified,
    MetadataModified,
    Renamed,
    Removed,
    Accessed,
    Other,
}

/// Why the managed process could not be started or stopped.
#[derive(Clone, Copy, Debug, PartialEq, Eq)]
pub enum ProcessError {
    /// A shutdown was asked for while no process is tracked.
    NoRunningProcess,
    /// The executable could not be started.
    SpawnFailed,
    /// The tracked process could not be terminated.
    KillFailed,
}

/// Why the loop stopped.
#[derive(Clone, Copy, Debug, PartialEq, Eq)]
pub enum ControlError {
    Process(ProcessError),
    /// An event for which no reconciliation is defined.
    Unsupported(Event),
    /// Waiting for the next change failed.
    WatchFailed,
}

/// A call on the runtime that reconciliation asks for.
#[derive(Clone, Copy, Debug, PartialEq, Eq)]
pub enum RuntimeCall {
    Shutdown,
    Run,
}

/// What reconciliation does next: a call on the runtime, or the end with its
/// outcome.
#[derive(Clone, Copy, Debug, PartialEq, Eq)]
pub enum Step {
    Call(RuntimeCall),
    Finish(Result<(), ControlError>),
}

/// The event that a notification yields: only a change of content is one.
pub open spec fn event_of(kind: NoticeKind) -> Option<Event> {
    match kind {
        NoticeKind::ContentModified => Some(Event::Update),
        _ => None,
    }
}

/// Where the watched files are and what their notifications mean.
pub struct Watcher {
    pub manifest_path: String,
    pub config_path: String,
}

impl Watcher {
    /// Watches the manifest and the server's configuration file.
    pub fn new(manifest_path: String, config_path: String) -> (r: Watcher)
        ensures
            r.manifest_path@ == manifest_path@,
            r.config_path@ == config_path@,
    {
        Watcher { manifest_path, config_path }
    }

    /// Watches `./dns_manifest` and `./corefile`.
    pub fn new_file_watcher() -> (r: Watcher)
        ensures
            r.manifest_path@ == "./dns_manifest"@,
            r.config_path@ == "./corefile"@,
    {
        Watcher { manifest_path: "./dns_manifest".to_owned(), config_path: "./corefile".to_owned() }
    }

    /// The event that one notification on a watched path yields, if any.
    /// A wait for the next change ends at the first notification for which
    /// this is `Some`; the others are dropped.
    pub fn classify(&self, kind: NoticeKind) -> (r: Option<Event>)
        ensures
            r == event_of(kind),
    {
        match kind {
            NoticeKind::ContentModified => Some(Event::Update),
            _ => None,
        }
    }
}

/// The first step of reconciling an event.
pub open spec fn first_step(event: Event) -> Step {
    match event {
        Event::Update => Step::Call(RuntimeCall::Shutdown),
        _ => Step::Finish(Err(ControlError::Unsupported(event))),
    }
}

/// The step after a runtime call came back.
pub open spec fn next_step(call: RuntimeCall, outcome: Result<(), ProcessError>) -> Step {
    match (call, outcome) {
        (RuntimeCall::Shutdown, Ok(())) => Step::Call(RuntimeCall::Run),
        (_, Err(e)) => Step::Finish(Err(ControlError::Process(e))),
        (RuntimeCall::Run, Ok(())) => Step::Finish(Ok(())),
    }
}

/// Reconciliation policy: an update restarts the server, stop then start.
pub struct Controller {}

impl Controller {
    pub fn new() -> (r: Controller) {
        Controller {}
    }

    /// The first step of reconciling `event`: a shutdown for an update; the
    /// other events end at once with `Unsupported`.
    pub fn begin(&self, event: Event) -> (r: Step)
        ensures
            r == first_step(event),
    {
        match event {
            Event::Update => Step::Call(RuntimeCall::Shutdown),
            _ => Step::Finish(Err(ControlError::Unsupported(event))),
        }
    }

    /// The step after `call` came back with `outcome`: a successful shutdown
    /// is followed by a run; a failure ends reconciliation with that failure;
    /// a successful run ends it with success.
    pub fn after(&self, call: RuntimeCall, outcome: Result<(), ProcessError>) -> (r: Step)
        ensures
            r == next_step(call, outcome),
    {
        match outcome {
            Err(e) => Step::Finish(Err(ControlError::Process(e))),
            Ok(()) => match call {
                RuntimeCall::Shutdown => Step::Call(RuntimeCall::Run),
                RuntimeCall::Run => Step::Finish(Ok(())),
            },
        }
    }
}

/// What the runtime does with the process on a run or a shutdown.
#[derive(Clone, Copy, Debug, PartialEq, Eq)]
pub enum ProcessAction {
    /// Start the executable and track its handle.
    Spawn,
    /// Terminate the tracked process.
    Kill,
    /// Nothing to do: a process is already tracked.
    Keep,
}

/// The lifecycle of the one managed server process: whether a handle is
/// tracked.
pub struct Runtime {
    pub tracking: bool,
}

impl Runtime {
    /// No process is tracked yet.
    pub fn new() -> (r: Runtime)
        ensures
            !r.tracking,
    {
        Runtime { tracking: false }
    }

    /// What a run does: spawn where no process is tracked, else nothing.
    pub fn run(&self) -> (r: ProcessAction)
        ensures
            r == (if self.tracking { ProcessAction::Keep } else { ProcessAction::Spawn }),
    {
        if self.tracking {
            ProcessAction::Keep
        } else {
            ProcessAction::Spawn
        }
    }

    /// What a shutdown does: terminate the tracked process, or fail with
    /// `NoRunningProcess` where there is none.
    pub fn shutdown(&self) -> (r: Result<ProcessAction, ProcessError>)
        ensures
            r == (if self.tracking {
                Ok::<ProcessAction, ProcessError>(ProcessAction::Kill)
            } else {
                Err::<ProcessAction, ProcessError>(ProcessError::NoRunningProcess)
            }),
    {
        if self.tracking {
            Ok(ProcessAction::Kill)
        } else {
            Err(ProcessError::NoRunningProcess)
        }
    }

    /// Records how an action went: a spawn that succeeded tracks the new
    /// process, a kill that succeeded forgets it; a failure changes nothing.
    pub fn settle(&mut self, action: ProcessAction, succeeded: bool)
        ensures
            final(self).tracking == (match action {
                ProcessAction::Spawn => old(self).tracking || succeeded,
                ProcessAction::Kill => old(self).tracking && !succeeded,
                ProcessAction::Keep => old(self).tracking,
            }),
    {
        match action {
            ProcessAction::Spawn => {
                if succeeded {
                    self.tracking = true;
                }
            },
            ProcessAction::Kill => {
                if succeeded {
                    self.tracking = false;
                }
            },
            ProcessAction::Keep => {},
        }
    }
}

/// What the operator loop receives: the outcome of the start of the runtime,
/// of a wait for a change, or of a reconciliation.
#[derive(Clone, Copy, Debug, PartialEq, Eq)]
pub enum LoopInput {
    Started(Result<(), ProcessError>),
    Watched(Result<Event, ()>),
    Reconciled(Result<(), ControlError>),
}

/// What the operator loop does next.
#[derive(Clone, Copy, Debug, PartialEq, Eq)]
pub enum LoopAction {
    Watch,
    Reconcile(Event),
    Stop(ControlError),
}

pub open spec fn loop_next(input: LoopInput) -> LoopAction {
    match input {
        LoopInput::Started(Ok(())) => LoopAction::Watch,
        LoopInput::Started(Err(e)) => LoopAction::Stop(ControlError::Process(e)),
        LoopInput::Watched(Ok(ev)) => LoopAction::Reconcile(ev),
        LoopInput::Watched(Err(())) => LoopAction::Stop(ControlError::WatchFailed),
        LoopInput::Reconciled(Ok(())) => LoopAction::Watch,
        LoopInput::Reconciled(Err(e)) => LoopAction::Stop(e),
    }
}

/// The operator: starts the runtime once, then waits for a change and
/// reconciles it, over and over, until one of these fails.
pub struct Operator {
    pub controller: Controller,
    pub runtime: Runtime,
    pub watcher: Watcher,
}

impl Operator {
    pub fn new(controller: Controller, runtime: Runtime, watcher: Watcher) -> (r: Operator)
        ensures
            r.runtime == runtime,
            r.watcher == watcher,
    {
        Operator { controller, runtime, watcher }
    }

    /// What stopping the operator does: the runtime's shutdown.
    pub fn shutdown(&self) -> (r: Result<ProcessAction, ProcessError>)
        ensures
            r == (if self.runtime.tracking {
                Ok::<ProcessAction, ProcessError>(ProcessAction::Kill)
            } else {
                Err::<ProcessAction, ProcessError>(ProcessError::NoRunningProcess)
            }),
    {
        self.runtime.shutdown()
    }

    /// The next thing to do: wait for a change after a good start or a good
    /// reconciliation, reconcile what a wait yields, and stop on any failure.
    pub fn next(&self, input: LoopInput) -> (r: LoopAction)
        ensures
            r == loop_next(input),
    {
        match input {
            LoopInput::Started(Ok(())) => LoopAction::Watch,
            LoopInput::Started(Err(e)) => LoopAction::Stop(ControlError::Process(e)),
            LoopInput::Watched(Ok(ev)) => LoopAction::Reconcile(ev),
            LoopInput::Watched(Err(())) => LoopAction::Stop(ControlError::WatchFailed),
            LoopInput::Reconciled(Ok(())) => LoopAction::Watch,
            LoopInput::Reconciled(Err(e)) => LoopAction::Stop(e),
        }
    }
}

} // verus!
