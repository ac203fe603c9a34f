//! The connectivity supervisor: configure, bring up, connect, monitor and
//! reconnect, as a state machine over link events.

use embedded_svc::wifi::{ClientConfiguration, Configuration};
use vstd::prelude::*;
use vstd::utf8::encode_utf8;

verus! {

/// The configuration a wireless driver takes, as `embedded_svc` defines it.
/// Nothing is known of what it holds.
#[verifier::external_type_specification]
#[verifier::external_body]
pub struct ExConfiguration(embedded_svc::wifi::Configuration);

/// What the rest of the system may know about the uplink.
#[derive(Clone, Copy, Debug, PartialEq, Eq, Structural)]
pub enum ConnectivityState {
    Idle,
    Configuring,
    Connecting,
    Associated,
    Disconnected,
}

/// The directed edges along which the connectivity state may move.
pub open spec fn legal_edge(from: ConnectivityState, to: ConnectivityState) -> bool {
    match (from, to) {
        (ConnectivityState::Idle, ConnectivityState::Configuring) => true,
        (ConnectivityState::Configuring, ConnectivityState::Connecting) => true,
        (ConnectivityState::Connecting, ConnectivityState::Associated) => true,
        (ConnectivityState::Connecting, ConnectivityState::Disconnected) => true,
        (ConnectivityState::Associated, ConnectivityState::Disconnected) => true,
        (ConnectivityState::Disconnected, ConnectivityState::Connecting) => true,
        _ => false,
    }
}

/// One call moves the state along at most one legal edge.
pub open spec fn on_graph(from: ConnectivityState, to: ConnectivityState) -> bool {
    from == to || legal_edge(from, to)
}

/// Where the supervisor stands inside its cycle. Each stage lies in exactly
/// one connectivity state, given by `state_of`.
#[derive(Clone, Copy, Debug, PartialEq, Eq, Structural)]
pub enum Stage {
    /// Nothing has been applied to the interface yet.
    Unconfigured,
    /// Credentials are applied; the driver is not started.
    Configured,
    /// The driver rejected the credentials. Nothing more can be done.
    ConfigurationFailed,
    /// The driver could not start the hardware. Nothing more can be done.
    StartFailed,
    /// The driver is started and the first link report is awaited.
    Starting,
    /// The link is down and a link report is awaited before the next attempt.
    Reconnecting,
    /// An association attempt is in flight.
    Associating,
    /// Associated; IP-layer readiness is awaited.
    AwaitingIp,
    /// Associated and ready: the cycle is complete.
    Online,
    /// The last attempt failed and the backoff interval is running.
    BackingOff,
    /// Bring-up gave up after too many consecutive failures.
    Exhausted,
}

pub open spec fn state_of(stage: Stage) -> ConnectivityState {
    match stage {
        Stage::Unconfigured => ConnectivityState::Idle,
        Stage::Configured => ConnectivityState::Configuring,
        Stage::ConfigurationFailed => ConnectivityState::Configuring,
        Stage::StartFailed => ConnectivityState::Connecting,
        Stage::Starting => ConnectivityState::Connecting,
        Stage::Associating => ConnectivityState::Connecting,
        Stage::AwaitingIp => ConnectivityState::Associated,
        Stage::Online => ConnectivityState::Associated,
        Stage::Reconnecting => ConnectivityState::Disconnected,
        Stage::BackingOff => ConnectivityState::Disconnected,
        Stage::Exhausted => ConnectivityState::Disconnected,
    }
}

/// The driver has been started: the connect loop may run.
pub open spec fn is_running(stage: Stage) -> bool {
    match stage {
        Stage::Unconfigured => false,
        Stage::Configured => false,
        Stage::ConfigurationFailed => false,
        Stage::StartFailed => false,
        _ => true,
    }
}

/// What the hardware or the driver reported.
#[derive(Clone, Copy, Debug, PartialEq, Eq, Structural)]
pub enum LinkEvent {
    /// The awaited link report arrived: an attempt may start.
    LinkUp,
    /// Waiting for the link report failed.
    LinkUnavailable,
    /// The access point accepted the association.
    Associated,
    /// The association was refused or timed out.
    AssociationFailed,
    /// The IP layer is ready.
    IpReady,
    /// Waiting for the IP layer failed.
    IpFailed,
    /// An established link was lost.
    LinkDown,
    /// The backoff interval has passed.
    BackoffElapsed,
}

/// The outside work the supervisor asks its caller to perform next.
#[derive(Clone, Copy, Debug, PartialEq, Eq, Structural)]
pub enum Action {
    /// Wait for the interface to report that an attempt may start.
    AwaitLink,
    /// Attempt to associate with the access point.
    Associate,
    /// Wait for IP-layer readiness.
    AwaitIp,
    /// Sleep for the given number of seconds.
    Backoff { secs: u64 },
    /// Wait until the established link is lost.
    Monitor,
}

/// Where the bounded bring-up loop stands when it has not failed.
#[derive(Clone, Copy, Debug, PartialEq, Eq, Structural)]
pub enum Progress {
    /// The loop waits for the outcome of this action.
    Pending(Action),
    /// The first connection is established.
    Connected,
}

#[derive(Clone, Copy, Debug, PartialEq, Eq, Structural)]
pub enum WifiError {
    /// The driver rejected the credentials; carries the driver's code.
    ConfigurationError(i32),
    /// The driver could not start the hardware; carries the driver's code.
    DriverStartError(i32),
    /// Bring-up reached its ceiling of consecutive failed attempts.
    RetriesExhausted,
    /// The call does not fit the stage the supervisor is in.
    OutOfOrder,
    /// The network name or the passphrase is longer than an interface takes.
    CredentialsTooLong,
}

/// The longest network name an interface takes, in bytes.
pub const MAX_SSID_BYTES: usize = 32;

/// The longest passphrase an interface takes, in bytes.
pub const MAX_PASSWORD_BYTES: usize = 64;

/// The supervisor as a mathematical value.
pub struct Supervisor {
    pub ssid: Seq<char>,
    pub password: Seq<char>,
    pub stage: Stage,
    pub retries: nat,
    pub retry_limit: nat,
    pub backoff_secs: u64,
}

/// The retry counter after one more failed attempt. It stops at the largest
/// value the counter can hold.
pub open spec fn bump(retries: nat) -> nat {
    if retries < u32::MAX { retries + 1 } else { retries }
}

/// The supervisor after a failed attempt: counted, and backing off.
pub open spec fn failed(s: Supervisor) -> Supervisor {
    Supervisor { stage: Stage::BackingOff, retries: bump(s.retries), ..s }
}

/// One event applied to the connect loop. `bounded` is true during bring-up,
/// where the loop stops at the first connection or at the failure ceiling,
/// and false in steady state, where it never stops. An event that does not
/// answer what the stage awaits changes nothing.
pub open spec fn step(s: Supervisor, event: LinkEvent, bounded: bool) -> Supervisor {
    match (s.stage, event) {
        (Stage::Starting, LinkEvent::LinkUp) => Supervisor { stage: Stage::Associating, ..s },
        (Stage::Reconnecting, LinkEvent::LinkUp) => Supervisor { stage: Stage::Associating, ..s },
        (Stage::Starting, LinkEvent::LinkUnavailable) => failed(s),
        (Stage::Reconnecting, LinkEvent::LinkUnavailable) => failed(s),
        (Stage::Associating, LinkEvent::Associated) => Supervisor { stage: Stage::AwaitingIp, ..s },
        (Stage::Associating, LinkEvent::AssociationFailed) => failed(s),
        (Stage::AwaitingIp, LinkEvent::IpReady) => Supervisor {
            stage: Stage::Online,
            retries: 0,
            ..s
        },
        (Stage::AwaitingIp, LinkEvent::IpFailed) => failed(s),
        (Stage::AwaitingIp, LinkEvent::LinkDown) => failed(s),
        (Stage::Online, LinkEvent::LinkDown) => if bounded {
            s
        } else {
            Supervisor { stage: Stage::Reconnecting, ..s }
        },
        (Stage::BackingOff, LinkEvent::BackoffElapsed) => if bounded && s.retries >= s.retry_limit {
            Supervisor { stage: Stage::Exhausted, ..s }
        } else {
            Supervisor { stage: Stage::Reconnecting, ..s }
        },
        _ => s,
    }
}

/// The events applied in order.
pub open spec fn run(s: Supervisor, events: Seq<LinkEvent>, bounded: bool) -> Supervisor
    decreases events.len(),
{
    if events.len() == 0 {
        s
    } else {
        step(run(s, events.drop_last(), bounded), events.last(), bounded)
    }
}

/// The action a running stage waits on, with the given pause after a failed
/// attempt.
pub open spec fn action_at(stage: Stage, backoff_secs: u64) -> Action {
    match stage {
        Stage::Associating => Action::Associate,
        Stage::AwaitingIp => Action::AwaitIp,
        Stage::Online => Action::Monitor,
        Stage::BackingOff => Action::Backoff { secs: backoff_secs },
        _ => Action::AwaitLink,
    }
}

/// The action a running supervisor waits on in steady state.
pub open spec fn action_of(s: Supervisor) -> Action {
    action_at(s.stage, s.backoff_secs)
}

/// What the bounded bring-up loop reports in a given stage.
pub open spec fn progress_of(s: Supervisor) -> Result<Progress, WifiError> {
    match s.stage {
        Stage::Exhausted => Err(WifiError::RetriesExhausted),
        Stage::Online => Ok(Progress::Connected),
        _ => if is_running(s.stage) {
            Ok(Progress::Pending(action_of(s)))
        } else {
            Err(WifiError::OutOfOrder)
        },
    }
}

/// The connectivity supervisor during configuration and bring-up.
pub struct WifiLoop {
    ssid: String,
    password: String,
    stage: Stage,
    retries: u32,
    retry_limit: u32,
    backoff_secs: u64,
}

impl View for WifiLoop {
    type V = Supervisor;

    closed spec fn view(&self) -> Supervisor {
        Supervisor {
            ssid: self.ssid@,
            password: self.password@,
            stage: self.stage,
            retries: self.retries as nat,
            retry_limit: self.retry_limit as nat,
            backoff_secs: self.backoff_secs,
        }
    }
}

impl WifiLoop {
    /// A supervisor for an interface nothing has been applied to, holding
    /// the credentials to apply. `retry_limit` is the number of consecutive
    /// failed attempts after which bring-up gives up; `backoff_secs` is the
    /// pause after a failed attempt. Credentials that an interface cannot
    /// take are refused here, and only those.
    pub fn new(ssid: &str, password: &str, retry_limit: u32, backoff_secs: u64) -> (res: Result<
        WifiLoop,
        WifiError,
    >)
        ensures
            !credentials_fit(ssid@, password@) ==> res == Err::<WifiLoop, WifiError>(
                WifiError::CredentialsTooLong,
            ),
            credentials_fit(ssid@, password@) ==> res.is_ok() && res.unwrap()@ == (Supervisor {
                ssid: ssid@,
                password: password@,
                stage: Stage::Unconfigured,
                retries: 0,
                retry_limit: retry_limit as nat,
                backoff_secs,
            }),
    {
        if ssid.as_bytes().len() > MAX_SSID_BYTES || password.as_bytes().len()
            > MAX_PASSWORD_BYTES {
            Err(WifiError::CredentialsTooLong)
        } else {
            Ok(
                WifiLoop {
                    ssid: ssid.to_owned(),
                    password: password.to_owned(),
                    stage: Stage::Unconfigured,
                    retries: 0,
                    retry_limit,
                    backoff_secs,
                },
            )
        }
    }

    #[verifier::type_invariant]
    spec fn credentials_held_fit(self) -> bool {
        credentials_fit(self.ssid@, self.password@)
    }

    /// The network name to apply to the interface. It fits.
    pub fn ssid(&self) -> (ssid: &str)
        ensures
            ssid@ == self@.ssid,
            credentials_fit(self@.ssid, self@.password),
    {
        proof {
            use_type_invariant(self);
        }
        self.ssid.as_str()
    }

    /// The passphrase to apply to the interface. It fits.
    pub fn password(&self) -> (password: &str)
        ensures
            password@ == self@.password,
            credentials_fit(self@.ssid, self@.password),
    {
        proof {
            use_type_invariant(self);
        }
        self.password.as_str()
    }

    /// The configuration to apply to the interface: the one that is made of
    /// the credentials held, which always fit into it.
    pub fn configuration(&self) -> (conf: Configuration)
        ensures
            conf == client_configuration_of(self@.ssid, self@.password),
    {
        proof {
            use_type_invariant(self);
        }
        client_configuration(self.ssid.as_str(), self.password.as_str())
    }

    pub fn state(&self) -> (state: ConnectivityState)
        ensures
            state == state_of(self@.stage),
    {
        stage_state(self.stage)
    }

    pub fn stage(&self) -> (stage: Stage)
        ensures
            stage == self@.stage,
    {
        self.stage
    }

    /// The number of consecutive failed attempts since the last success.
    pub fn retries(&self) -> (retries: u32)
        ensures
            retries == self@.retries,
    {
        self.retries
    }

    pub fn retry_limit(&self) -> (limit: u32)
        ensures
            limit == self@.retry_limit,
    {
        self.retry_limit
    }

    pub fn backoff_secs(&self) -> (secs: u64)
        ensures
            secs == self@.backoff_secs,
    {
        self.backoff_secs
    }

    /// Records the driver's answer to applying the credentials. `driver` is
    /// `Ok` when the driver accepted them and `Err` with its code when it
    /// rejected them. Only an idle supervisor can be configured; it enters
    /// `Configuring` either way. A rejection is final: no later call is
    /// taken.
    pub fn configure(&mut self, driver: Result<(), i32>) -> (res: Result<(), WifiError>)
        ensures
            old(self)@.stage != Stage::Unconfigured ==> res == Err::<(), WifiError>(
                WifiError::OutOfOrder,
            ) && final(self)@ == old(self)@,
            old(self)@.stage == Stage::Unconfigured ==> match driver {
                Ok(_) => res == Ok::<(), WifiError>(()) && final(self)@ == (Supervisor {
                    stage: Stage::Configured,
                    ..old(self)@
                }),
                Err(code) => res == Err::<(), WifiError>(WifiError::ConfigurationError(code))
                    && final(self)@ == (Supervisor {
                    stage: Stage::ConfigurationFailed,
                    ..old(self)@
                }),
            },
            on_graph(state_of(old(self)@.stage), state_of(final(self)@.stage)),
    {
        proof {
            use_type_invariant(&*self);
        }
        match self.stage {
            Stage::Unconfigured => match driver {
                Ok(_) => {
                    self.stage = Stage::Configured;
                    Ok(())
                },
                Err(code) => {
                    self.stage = Stage::ConfigurationFailed;
                    Err(WifiError::ConfigurationError(code))
                },
            },
            _ => Err(WifiError::OutOfOrder),
        }
    }

    /// Records the driver's answer to starting the interface. `driver` is
    /// `Ok` when the hardware initialised and `Err` with the driver's code
    /// when it did not. Only a configured supervisor can be brought up; it
    /// enters `Connecting` either way, and after a start awaits the first
    /// link report. A failure is final: no later call is taken.
    pub fn bring_up(&mut self, driver: Result<(), i32>) -> (res: Result<(), WifiError>)
        ensures
            old(self)@.stage != Stage::Configured ==> res == Err::<(), WifiError>(
                WifiError::OutOfOrder,
            ) && final(self)@ == old(self)@,
            old(self)@.stage == Stage::Configured ==> match driver {
                Ok(_) => res == Ok::<(), WifiError>(()) && final(self)@ == (Supervisor {
                    stage: Stage::Starting,
                    ..old(self)@
                }),
                Err(code) => res == Err::<(), WifiError>(WifiError::DriverStartError(code))
                    && final(self)@ == (Supervisor { stage: Stage::StartFailed, ..old(self)@ }),
            },
            on_graph(state_of(old(self)@.stage), state_of(final(self)@.stage)),
    {
        proof {
            use_type_invariant(&*self);
        }
        match self.stage {
            Stage::Configured => match driver {
                Ok(_) => {
                    self.stage = Stage::Starting;
                    Ok(())
                },
                Err(code) => {
                    self.stage = Stage::StartFailed;
                    Err(WifiError::DriverStartError(code))
                },
            },
            _ => Err(WifiError::OutOfOrder),
        }
    }
}

/// The connectivity state a stage lies in.
pub fn stage_state(stage: Stage) -> (state: ConnectivityState)
    ensures
        state == state_of(stage),
{
    match stage {
        Stage::Unconfigured => ConnectivityState::Idle,
        Stage::Configured => ConnectivityState::Configuring,
        Stage::ConfigurationFailed => ConnectivityState::Configuring,
        Stage::StartFailed => ConnectivityState::Connecting,
        Stage::Starting => ConnectivityState::Connecting,
        Stage::Associating => ConnectivityState::Connecting,
        Stage::AwaitingIp => ConnectivityState::Associated,
        Stage::Online => ConnectivityState::Associated,
        Stage::Reconnecting => ConnectivityState::Disconnected,
        Stage::BackingOff => ConnectivityState::Disconnected,
        Stage::Exhausted => ConnectivityState::Disconnected,
    }
}

/// Both credentials are short enough for an interface to take. The lengths
/// are those of the UTF-8 encodings, in bytes.
pub open spec fn credentials_fit(ssid: Seq<char>, password: Seq<char>) -> bool {
    encode_utf8(ssid).len() <= MAX_SSID_BYTES && encode_utf8(password).len() <= MAX_PASSWORD_BYTES
}

/// The configuration that `embedded_svc::wifi` makes of a network name and
/// a passphrase: `Configuration::Client` over a `ClientConfiguration` that
/// holds the two and has every other setting at its default. It depends on
/// the two strings and on nothing else.
pub uninterp spec fn client_configuration_of(ssid: Seq<char>, password: Seq<char>) -> Configuration;

/// Builds the client configuration of `embedded_svc::wifi` for the given
/// credentials, with every other setting at its default. The two fields of
/// `ClientConfiguration` are strings of `heapless` with room for 32 and 64
/// bytes, and `try_from` fails on nothing but a longer string: credentials
/// that fit are converted, and others are left out. What comes back is
/// made of the two strings alone, and is named after them.
#[verifier::external_body]
fn client_configuration(ssid: &str, password: &str) -> (conf: Configuration)
    requires
        credentials_fit(ssid@, password@),
    ensures
        conf == client_configuration_of(ssid@, password@),
{
    Configuration::Client(
        ClientConfiguration {
            ssid: ssid.try_into().unwrap(),
            password: password.try_into().unwrap(),
            ..Default::default()
        },
    )
}

/// The action a running stage waits on in steady state.
fn pending_action(stage: Stage, backoff_secs: u64) -> (action: Action)
    ensures
        action == action_at(stage, backoff_secs),
{
    match stage {
        Stage::Associating => Action::Associate,
        Stage::AwaitingIp => Action::AwaitIp,
        Stage::Online => Action::Monitor,
        Stage::BackingOff => Action::Backoff { secs: backoff_secs },
        _ => Action::AwaitLink,
    }
}

/// The stage and the retry counter after one event.
fn next_stage(
    stage: Stage,
    retries: u32,
    retry_limit: u32,
    event: LinkEvent,
    bounded: bool,
) -> (res: (Stage, u32))
    ensures
        forall|s: Supervisor|
            s.stage == stage && s.retries == retries && s.retry_limit == retry_limit
                ==> #[trigger] step(s, event, bounded) == (Supervisor {
                stage: res.0,
                retries: res.1 as nat,
                ..s
            }),
{
    match (stage, event) {
        (Stage::Starting, LinkEvent::LinkUp) | (Stage::Reconnecting, LinkEvent::LinkUp) => (
            Stage::Associating,
            retries,
        ),
        (Stage::Associating, LinkEvent::Associated) => (Stage::AwaitingIp, retries),
        (Stage::AwaitingIp, LinkEvent::IpReady) => (Stage::Online, 0),
        (Stage::Starting, LinkEvent::LinkUnavailable)
        | (Stage::Reconnecting, LinkEvent::LinkUnavailable)
        | (Stage::Associating, LinkEvent::AssociationFailed)
        | (Stage::AwaitingIp, LinkEvent::IpFailed)
        | (Stage::AwaitingIp, LinkEvent::LinkDown) => {
            if retries < u32::MAX {
                (Stage::BackingOff, retries + 1)
            } else {
                (Stage::BackingOff, retries)
            }
        },
        (Stage::Online, LinkEvent::LinkDown) => {
            if bounded {
                (stage, retries)
            } else {
                (Stage::Reconnecting, retries)
            }
        },
        (Stage::BackingOff, LinkEvent::BackoffElapsed) => {
            if bounded && retries >= retry_limit {
                (Stage::Exhausted, retries)
            } else {
                (Stage::Reconnecting, retries)
            }
        },
        _ => (stage, retries),
    }
}

impl WifiLoop {
    /// Applies one event to the bounded bring-up loop and says where it
    /// stands afterwards.
    pub fn on_event(&mut self, event: LinkEvent) -> (res: Result<Progress, WifiError>)
        ensures
            final(self)@ == step(old(self)@, event, true),
            res == progress_of(final(self)@),
            on_graph(state_of(old(self)@.stage), state_of(final(self)@.stage)),
    {
        proof {
            use_type_invariant(&*self);
        }
        let (stage, retries) = next_stage(
            self.stage,
            self.retries,
            self.retry_limit,
            event,
            true,
        );
        self.stage = stage;
        self.retries = retries;
        self.progress()
    }

    /// What bring-up reports in the stage the supervisor is in: the action it
    /// waits on, that the first connection stands, or why it cannot go on.
    pub fn progress(&self) -> (res: Result<Progress, WifiError>)
        ensures
            res == progress_of(self@),
    {
        match self.stage {
            Stage::Unconfigured => Err(WifiError::OutOfOrder),
            Stage::Configured => Err(WifiError::OutOfOrder),
            Stage::ConfigurationFailed => Err(WifiError::OutOfOrder),
            Stage::StartFailed => Err(WifiError::OutOfOrder),
            Stage::Exhausted => Err(WifiError::RetriesExhausted),
            Stage::Online => Ok(Progress::Connected),
            _ => Ok(Progress::Pending(pending_action(self.stage, self.backoff_secs))),
        }
    }

    /// Runs the bounded bring-up loop over the events reported so far, in
    /// order, and says where it stands afterwards. The loop stops at the
    /// first completed connection, or gives up once the retry counter has
    /// reached the ceiling when a backoff ends; after either, further events
    /// change nothing.
    pub fn initial_connect(&mut self, events: &[LinkEvent]) -> (res: Result<Progress, WifiError>)
        ensures
            final(self)@ == run(old(self)@, events@, true),
            res == progress_of(final(self)@),
    {
        let n = events.len();
        let mut i: usize = 0;
        while i < n
            invariant
                i <= n,
                n == events@.len(),
                self@ == run(old(self)@, events@.take(i as int), true),
            decreases n - i,
        {
            proof {
                let next = events@.take(i + 1);
                assert(next.drop_last() =~= events@.take(i as int));
                assert(next.last() == events@[i as int]);
            }
            let _ = self.on_event(events[i]);
            i = i + 1;
        }
        proof {
            assert(events@.take(n as int) =~= events@);
        }
        self.progress()
    }

    /// Enters steady state. The supervisor is given up for a loop that has no
    /// ceiling and no way to stop; a loop that had given up starts over with
    /// a link wait. Fails if and only if the driver was never started.
    pub fn stay_connected(self) -> (res: Result<SteadyLoop, WifiError>)
        ensures
            !is_running(self@.stage) ==> res == Err::<SteadyLoop, WifiError>(WifiError::OutOfOrder),
            is_running(self@.stage) ==> res.is_ok() && res.unwrap()@ == steady_entry(self@),
            is_running(self@.stage) ==> is_steady(res.unwrap()@.stage) && state_of(
                res.unwrap()@.stage,
            ) == state_of(self@.stage),
    {
        match self.stage {
            Stage::Unconfigured => Err(WifiError::OutOfOrder),
            Stage::Configured => Err(WifiError::OutOfOrder),
            Stage::ConfigurationFailed => Err(WifiError::OutOfOrder),
            Stage::StartFailed => Err(WifiError::OutOfOrder),
            Stage::Exhausted => Ok(
                SteadyLoop {
                    ssid: self.ssid,
                    password: self.password,
                    stage: Stage::Reconnecting,
                    retries: self.retries,
                    retry_limit: self.retry_limit,
                    backoff_secs: self.backoff_secs,
                },
            ),
            _ => Ok(
                SteadyLoop {
                    ssid: self.ssid,
                    password: self.password,
                    stage: self.stage,
                    retries: self.retries,
                    retry_limit: self.retry_limit,
                    backoff_secs: self.backoff_secs,
                },
            ),
        }
    }
}

/// A stage the steady loop can be in: running, and never given up.
pub open spec fn is_steady(stage: Stage) -> bool {
    is_running(stage) && stage != Stage::Exhausted
}

/// The supervisor as steady state takes it over.
pub open spec fn steady_entry(s: Supervisor) -> Supervisor {
    if s.stage == Stage::Exhausted {
        Supervisor { stage: Stage::Reconnecting, ..s }
    } else {
        s
    }
}

/// The connectivity supervisor in steady state. It offers the connect loop
/// and nothing else: there is no way back to configuration and no way out.
pub struct SteadyLoop {
    ssid: String,
    password: String,
    stage: Stage,
    retries: u32,
    retry_limit: u32,
    backoff_secs: u64,
}

impl View for SteadyLoop {
    type V = Supervisor;

    closed spec fn view(&self) -> Supervisor {
        Supervisor {
            ssid: self.ssid@,
            password: self.password@,
            stage: self.stage,
            retries: self.retries as nat,
            retry_limit: self.retry_limit as nat,
            backoff_secs: self.backoff_secs,
        }
    }
}

impl SteadyLoop {
    #[verifier::type_invariant]
    spec fn steady(self) -> bool {
        is_steady(self.stage)
    }

    pub fn state(&self) -> (state: ConnectivityState)
        ensures
            state == state_of(self@.stage),
            is_steady(self@.stage),
    {
        proof {
            use_type_invariant(self);
        }
        stage_state(self.stage)
    }

    pub fn stage(&self) -> (stage: Stage)
        ensures
            stage == self@.stage,
            is_steady(stage),
    {
        proof {
            use_type_invariant(self);
        }
        self.stage
    }

    /// The number of consecutive failed attempts since the last success.
    pub fn retries(&self) -> (retries: u32)
        ensures
            retries == self@.retries,
    {
        self.retries
    }

    /// The action the loop waits on: there always is one.
    pub fn pending(&self) -> (action: Action)
        ensures
            action == action_of(self@),
            is_steady(self@.stage),
    {
        proof {
            use_type_invariant(self);
        }
        pending_action(self.stage, self.backoff_secs)
    }

    /// Applies one event and returns the action to perform next. Every event
    /// in every stage yields an action: the loop has no end.
    pub fn on_event(&mut self, event: LinkEvent) -> (action: Action)
        ensures
            final(self)@ == step(old(self)@, event, false),
            action == action_of(final(self)@),
            is_steady(old(self)@.stage),
            is_steady(final(self)@.stage),
            on_graph(state_of(old(self)@.stage), state_of(final(self)@.stage)),
    {
        proof {
            use_type_invariant(&*self);
        }
        let (stage, retries) = next_stage(
            self.stage,
            self.retries,
            self.retry_limit,
            event,
            false,
        );
        self.stage = stage;
        self.retries = retries;
        pending_action(self.stage, self.backoff_secs)
    }
}

} // verus!
