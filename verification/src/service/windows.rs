//! The Windows service: what it answers to the service manager, and when it shuts down.
use vstd::prelude::*;

verus! {

/// The name of the service.
pub const SERVICE_NAME: &'static str = "WHCanRCAssistedListening";

/// Why the program does not run as a service.
#[derive(Debug, Clone, Copy, PartialEq, Eq, Structural)]
pub enum ServiceError {
    /// This system has no Windows services.
    NotWindows,
}

impl ServiceError {
    /// Describes the error in one sentence.
    pub fn message(&self) -> (r: String)
        ensures
            r@ == "Windows service support is only available on Windows"@,
    {
        "Windows service support is only available on Windows".to_string()
    }
}

/// Runs as a service where there are no Windows services: it never does.
pub fn run_as_service() -> (r: Result<(), ServiceError>)
    ensures
        r == Err::<(), ServiceError>(ServiceError::NotWindows),
{
    Err(ServiceError::NotWindows)
}

/// What the service manager asks for.
#[derive(Debug, Clone, Copy, PartialEq, Eq, Structural)]
pub enum ServiceControl {
    Stop,
    Interrogate,
    Other,
}

/// What the service manager is answered.
#[derive(Debug, Clone, Copy, PartialEq, Eq, Structural)]
pub enum ControlResult {
    NoError,
    NotImplemented,
}

/// What the service is doing.
#[derive(Debug, Clone, Copy, PartialEq, Eq, Structural)]
pub enum ServiceState {
    Running,
    Stopped,
}

/// What the service manager is told about the service.
#[derive(Debug, Clone, Copy, PartialEq, Eq, Structural)]
pub struct ServiceStatus {
    pub state: ServiceState,
    /// Whether the service can be asked to stop.
    pub accepts_stop: bool,
    pub exit_code: u32,
    pub checkpoint: u32,
}

impl ServiceState {
    /// The status to report in this state: a running service can be stopped.
    pub fn status(self) -> (r: ServiceStatus)
        ensures
            r.state == self,
            r.accepts_stop == (self == ServiceState::Running),
            r.exit_code == 0,
            r.checkpoint == 0,
    {
        ServiceStatus {
            state: self,
            accepts_stop: match self {
                ServiceState::Running => true,
                ServiceState::Stopped => false,
            },
            exit_code: 0,
            checkpoint: 0,
        }
    }
}

/// The service's side of the conversation with the service manager.
#[derive(Debug)]
pub struct ServiceHandler {
    stop_sent: bool,
}

impl ServiceHandler {
    /// Whether the shutdown was signalled.
    pub closed spec fn stopping(self) -> bool {
        self.stop_sent
    }

    /// Starts with no shutdown signalled.
    pub fn new() -> (r: ServiceHandler)
        ensures
            !r.stopping(),
    {
        ServiceHandler { stop_sent: false }
    }

    /// What a control is answered.
    pub open spec fn answer(control: ServiceControl) -> ControlResult {
        match control {
            ServiceControl::Stop => ControlResult::NoError,
            ServiceControl::Interrogate => ControlResult::NoError,
            ServiceControl::Other => ControlResult::NotImplemented,
        }
    }

    /// Whether a control signals the shutdown, given whether it was signalled before.
    pub open spec fn signals(stopping: bool, control: ServiceControl) -> bool {
        !stopping && control == ServiceControl::Stop
    }

    /// Whether the shutdown was signalled, after a control.
    pub open spec fn stopping_after(stopping: bool, control: ServiceControl) -> bool {
        stopping || control == ServiceControl::Stop
    }

    /// How many of the controls signal the shutdown.
    pub open spec fn signal_count(stopping: bool, controls: Seq<ServiceControl>) -> nat
        decreases controls.len(),
    {
        if controls.len() == 0 {
            0
        } else {
            let now: nat = if Self::signals(stopping, controls[0]) {
                1
            } else {
                0
            };
            now + Self::signal_count(
                Self::stopping_after(stopping, controls[0]),
                controls.drop_first(),
            )
        }
    }

    /// Answers a control, and says whether the shutdown is to be signalled now. It is signalled at
    /// the first stop only.
    pub fn handle(&mut self, control: ServiceControl) -> (r: (ControlResult, bool))
        ensures
            r.0 == ServiceHandler::answer(control),
            r.1 == ServiceHandler::signals(old(self).stopping(), control),
            final(self).stopping() == ServiceHandler::stopping_after(
                old(self).stopping(),
                control,
            ),
    {
        match control {
            ServiceControl::Stop => {
                let signal = !self.stop_sent;
                self.stop_sent = true;
                (ControlResult::NoError, signal)
            },
            ServiceControl::Interrogate => (ControlResult::NoError, false),
            ServiceControl::Other => (ControlResult::NotImplemented, false),
        }
    }
}

/// The next call in the life of the service.
#[derive(Debug, Clone, Copy, PartialEq, Eq, Structural)]
pub enum ServiceStep {
    /// Register the handler of controls.
    Register,
    /// Report that the service is in this state.
    Report(ServiceState),
    /// Create the runtime of the application.
    CreateRuntime,
    /// Run the application until the shutdown is signalled.
    Run,
    /// The service has ended as it should.
    Done,
    /// A call has failed, and the service ends early.
    Failed,
}

impl ServiceStep {
    /// The first call.
    pub open spec fn first() -> ServiceStep {
        ServiceStep::Register
    }

    /// The first call in the life of the service.
    pub fn start() -> (r: ServiceStep)
        ensures
            r == ServiceStep::first(),
    {
        ServiceStep::Register
    }

    /// The call that follows this one. A call that fails is the end, but however the application
    /// ends, the service has then stopped and says so.
    pub open spec fn following(self, ok: bool) -> ServiceStep {
        match self {
            ServiceStep::Run => ServiceStep::Report(ServiceState::Stopped),
            ServiceStep::Done => ServiceStep::Done,
            ServiceStep::Failed => ServiceStep::Failed,
            _ => if !ok {
                ServiceStep::Failed
            } else {
                match self {
                    ServiceStep::Register => ServiceStep::Report(ServiceState::Running),
                    ServiceStep::Report(ServiceState::Running) => ServiceStep::CreateRuntime,
                    ServiceStep::CreateRuntime => ServiceStep::Run,
                    _ => ServiceStep::Done,
                }
            },
        }
    }

    /// Decides which call follows this one.
    pub fn next(self, ok: bool) -> (r: ServiceStep)
        ensures
            r == self.following(ok),
    {
        match self {
            ServiceStep::Run => ServiceStep::Report(ServiceState::Stopped),
            ServiceStep::Done => ServiceStep::Done,
            ServiceStep::Failed => ServiceStep::Failed,
            _ => {
                if !ok {
                    ServiceStep::Failed
                } else {
                    match self {
                        ServiceStep::Register => ServiceStep::Report(ServiceState::Running),
                        ServiceStep::Report(ServiceState::Running) => ServiceStep::CreateRuntime,
                        ServiceStep::CreateRuntime => ServiceStep::Run,
                        _ => ServiceStep::Done,
                    }
                }
            },
        }
    }

    /// How many calls there are at most before the service ends.
    pub open spec fn calls_left(self) -> nat {
        match self {
            ServiceStep::Register => 5,
            ServiceStep::Report(ServiceState::Running) => 4,
            ServiceStep::CreateRuntime => 3,
            ServiceStep::Run => 2,
            ServiceStep::Report(ServiceState::Stopped) => 1,
            _ => 0,
        }
    }

    /// The calls that are made from this one on, in order, when every call ends as `succeeds` says;
    /// the last entry is how the service ends.
    pub open spec fn calls(self, succeeds: spec_fn(ServiceStep) -> bool) -> Seq<ServiceStep>
        decreases self.calls_left(),
    {
        if self is Done || self is Failed {
            seq![self]
        } else {
            seq![self] + self.following(succeeds(self)).calls(succeeds)
        }
    }
}

/// The service reports that it is running before the application runs, and that it has stopped
/// after that, and not otherwise. It ends as it should exactly if no call but the application
/// fails, and at the first that fails otherwise.
pub proof fn reports_frame_the_run(succeeds: spec_fn(ServiceStep) -> bool)
    ensures
        ServiceStep::first().calls(succeeds) == {
            let running = ServiceStep::Report(ServiceState::Running);
            let stopped = ServiceStep::Report(ServiceState::Stopped);
            if !succeeds(ServiceStep::Register) {
                seq![ServiceStep::Register, ServiceStep::Failed]
            } else if !succeeds(running) {
                seq![ServiceStep::Register, running, ServiceStep::Failed]
            } else if !succeeds(ServiceStep::CreateRuntime) {
                seq![
                    ServiceStep::Register,
                    running,
                    ServiceStep::CreateRuntime,
                    ServiceStep::Failed,
                ]
            } else {
                seq![
                    ServiceStep::Register,
                    running,
                    ServiceStep::CreateRuntime,
                    ServiceStep::Run,
                    stopped,
                    if succeeds(stopped) {
                        ServiceStep::Done
                    } else {
                        ServiceStep::Failed
                    },
                ]
            }
        },
{
    reveal_with_fuel(ServiceStep::calls, 7);
}

/// The shutdown is signalled once if the service is asked to stop, however often it is asked, and
/// not at all otherwise.
pub proof fn shutdown_is_signalled_once(stopping: bool, controls: Seq<ServiceControl>)
    ensures
        ServiceHandler::signal_count(stopping, controls) == if !stopping && controls.contains(
            ServiceControl::Stop,
        ) {
            1nat
        } else {
            0nat
        },
    decreases controls.len(),
{
    if controls.len() > 0 {
        let first = controls[0];
        let rest = controls.drop_first();
        shutdown_is_signalled_once(ServiceHandler::stopping_after(stopping, first), rest);
        if rest.contains(ServiceControl::Stop) {
            let i = choose|i: int| 0 <= i < rest.len() && rest[i] == ServiceControl::Stop;
            assert(controls[i + 1] == ServiceControl::Stop);
        }
        if controls.contains(ServiceControl::Stop) && first != ServiceControl::Stop {
            let i = choose|i: int| 0 <= i < controls.len() && controls[i] == ServiceControl::Stop;
            assert(rest[i - 1] == ServiceControl::Stop);
        }
    }
}

/// Stopping and asking how things are is answered without an error, and nothing else is
/// implemented. Only stopping stops.
pub proof fn only_two_controls_are_known(stopping: bool, control: ServiceControl)
    ensures
        ServiceHandler::answer(control) == ControlResult::NotImplemented <==> control
            == ServiceControl::Other,
        ServiceHandler::signals(stopping, control) ==> control == ServiceControl::Stop
            && !stopping,
        ServiceHandler::stopping_after(stopping, control) <==> stopping || control
            == ServiceControl::Stop,
{
}

} // verus!
