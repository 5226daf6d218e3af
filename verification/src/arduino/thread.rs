//! The supervisor of the device link. It keeps one link usable across resets
//! and disconnects: it opens the link, uploads the firmware once if the
//! device is not the expected one, applies the settings of every sensor,
//! and then serves commands and polls for events until the link breaks or
//! its owner is gone.
//!
//! The supervisor decides; it does not act. What it asks for is an
//! [`Action`], and what came of it is handed back as a [`Signal`].

use super::{Event, Port, SensorConfig};
use crate::error::Failure;
use vstd::prelude::*;

verus! {

/// How long to wait before a new connection is tried, in seconds.
pub const RECONNECT_DELAY: u64 = 5;

/// How long to wait after a failure that leaves the link usable, in seconds.
pub const RETRY_DELAY: u64 = 2;

/// How many events and how many commands wait in a queue at most.
pub const QUEUE_CAPACITY: usize = 10;

/// The largest number of sensors: their ids are bytes.
pub const MAX_SENSORS: usize = 256;

/// What the owner asks of the supervisor.
#[derive(Clone, Copy, Debug, PartialEq, Eq, Structural)]
pub enum Command {
    /// Give the sensor with the id these settings.
    SetSensor(u8, SensorConfig),
}

/// What a look into the queue of commands found.
#[derive(Clone, Copy, Debug, PartialEq, Eq, Structural)]
pub enum Reception {
    Command(Command),
    /// No command waits.
    Empty,
    /// The owner has closed the queue.
    Closed,
}

/// What became of an event that was offered to the queue of events.
#[derive(Clone, Copy, Debug, PartialEq, Eq, Structural)]
pub enum Delivery {
    Sent,
    /// The queue is full: the owner does not take the events out.
    Full,
    /// The owner has closed the queue.
    Closed,
}

/// What follows a wait.
#[derive(Clone, Copy, Debug, PartialEq, Eq, Structural)]
pub enum Resume {
    /// A new connection.
    Reconnect,
    /// The next command, on the connection that there is.
    Continue,
}

/// Where the supervisor stands: which answer it waits for.
#[derive(Clone, Copy, Debug, PartialEq, Eq, Structural)]
pub enum Stage {
    /// Connecting: the commands that wait are thrown away.
    Draining,
    /// Connecting: the link is opened and the device verified.
    Opening,
    /// Connecting: the firmware is uploaded.
    Uploading,
    /// Connecting: the sensor `next` gets its settings; the ones before it
    /// have theirs.
    Reapplying { next: usize },
    /// Connected: the queue of commands is looked into.
    Receiving,
    /// Connected: the sensor gets the settings that a command asked for.
    Applying { id: u8, config: SensorConfig },
    /// Connected: the device is asked for an event.
    Polling,
    /// Connected: the event is offered to the queue of events.
    Forwarding { event: Event },
    /// A wait, and what follows it.
    Backoff { seconds: u64, resume: Resume },
    /// Stopped, for good.
    Stopped,
}

/// What the supervisor asks for.
#[derive(Debug, PartialEq, Eq)]
pub enum Action {
    /// Throw away the commands that wait, and say whether the queue is
    /// closed.
    DrainCommands,
    /// Open the link on the port, and verify the device if asked to.
    Open { port: Port, verify: bool },
    /// Upload the firmware to the device on the port.
    Upload { port: Port },
    /// Give the sensor with the id these settings.
    SetSensor { id: u8, config: SensorConfig },
    /// Look into the queue of commands, without waiting.
    Receive,
    /// Ask the device for an event.
    Poll,
    /// Offer the event to the queue of events, without waiting.
    Forward(Event),
    /// Wait for so many seconds.
    Sleep { seconds: u64 },
    /// Close the link and end.
    Exit,
}

/// An [`Action`] as plain values.
pub enum ActionModel {
    DrainCommands,
    Open { port: Seq<char>, verify: bool },
    Upload { port: Seq<char> },
    SetSensor { id: u8, config: SensorConfig },
    Receive,
    Poll,
    Forward(Event),
    Sleep { seconds: u64 },
    Exit,
}

impl View for Action {
    type V = ActionModel;

    open spec fn view(&self) -> ActionModel {
        match self {
            Action::DrainCommands => ActionModel::DrainCommands,
            Action::Open { port, verify } => ActionModel::Open { port: port@, verify: *verify },
            Action::Upload { port } => ActionModel::Upload { port: port@ },
            Action::SetSensor { id, config } => ActionModel::SetSensor { id: *id, config: *config },
            Action::Receive => ActionModel::Receive,
            Action::Poll => ActionModel::Poll,
            Action::Forward(event) => ActionModel::Forward(*event),
            Action::Sleep { seconds } => ActionModel::Sleep { seconds: *seconds },
            Action::Exit => ActionModel::Exit,
        }
    }
}

/// What came of an action of the supervisor.
#[derive(Debug, PartialEq, Eq)]
pub enum Signal {
    /// The commands that waited are gone; `closed` says whether the queue is
    /// closed.
    Drained { closed: bool },
    /// The link is open, or could not be opened.
    Opened(Option<Failure>),
    /// The firmware was uploaded, and the device answers on the port; or the
    /// upload failed.
    Uploaded(Option<Port>),
    /// The sensor has its settings, or the request failed.
    SensorSet(Option<Failure>),
    /// What the look into the queue of commands found.
    Received(Reception),
    /// The device answered with an event or with none, or the request
    /// failed.
    Polled(Result<Option<Event>, Failure>),
    /// What became of the event.
    Forwarded(Delivery),
    /// The wait is over.
    Slept,
}

/// A [`Signal`] as plain values.
pub enum SignalModel {
    Drained { closed: bool },
    Opened(Option<Failure>),
    Uploaded(Option<Seq<char>>),
    SensorSet(Option<Failure>),
    Received(Reception),
    Polled(Result<Option<Event>, Failure>),
    Forwarded(Delivery),
    Slept,
}

impl View for Signal {
    type V = SignalModel;

    open spec fn view(&self) -> SignalModel {
        match self {
            Signal::Drained { closed } => SignalModel::Drained { closed: *closed },
            Signal::Opened(failure) => SignalModel::Opened(*failure),
            Signal::Uploaded(port) => SignalModel::Uploaded(
                match port {
                    Some(port) => Some(port@),
                    None => None,
                },
            ),
            Signal::SensorSet(failure) => SignalModel::SensorSet(*failure),
            Signal::Received(reception) => SignalModel::Received(*reception),
            Signal::Polled(result) => SignalModel::Polled(*result),
            Signal::Forwarded(delivery) => SignalModel::Forwarded(*delivery),
            Signal::Slept => SignalModel::Slept,
        }
    }
}

/// The supervisor as plain values.
pub struct SupervisorModel {
    pub stage: Stage,
    /// The port on which the device is looked for.
    pub port: Seq<char>,
    /// Whether the firmware has been uploaded, or the upload tried.
    pub upload_tried: bool,
    /// What the owner is told of the link: whether it can be used.
    pub connected: bool,
    /// The settings of the sensors, by their ids.
    pub sensors: Seq<SensorConfig>,
    /// How long to wait before a new connection is tried, in seconds.
    pub reconnect_delay: u64,
    /// How long to wait after a failure that leaves the link usable.
    pub retry_delay: u64,
}

impl SupervisorModel {
    /// A supervisor that has not asked for anything yet.
    pub open spec fn start(port: Seq<char>, sensors: Seq<SensorConfig>) -> SupervisorModel {
        SupervisorModel {
            stage: Stage::Draining,
            port,
            upload_tried: false,
            connected: false,
            sensors,
            reconnect_delay: RECONNECT_DELAY,
            retry_delay: RETRY_DELAY,
        }
    }

    /// Whether the stage is one of those in which the link is in use.
    pub open spec fn serving(self) -> bool {
        match self.stage {
            Stage::Receiving | Stage::Applying { .. } | Stage::Polling | Stage::Forwarding {
                ..
            } => true,
            Stage::Backoff { resume, .. } => resume == Resume::Continue,
            _ => false,
        }
    }

    /// Whether the supervisor holds the link open: it does while the sensors
    /// get their settings and while the link is in use, and at no other
    /// time. A link that is not held is closed.
    pub open spec fn holds_link(self) -> bool {
        self.stage is Reapplying || self.serving()
    }

    /// What holds of a supervisor at every step: there are no more sensors
    /// than there are ids; the link is said to be usable exactly while it
    /// is in use; and the sensor that gets its settings is one that there is.
    pub open spec fn valid(self) -> bool {
        &&& self.sensors.len() <= MAX_SENSORS
        &&& self.connected == self.serving()
        &&& self.stage matches Stage::Reapplying { next } ==> next < self.sensors.len()
    }

    /// The supervisor at the start of a wait before a new connection: the
    /// link is given up.
    pub open spec fn given_up(self) -> SupervisorModel {
        SupervisorModel {
            stage: Stage::Backoff { seconds: self.reconnect_delay, resume: Resume::Reconnect },
            connected: false,
            ..self
        }
    }

    /// The supervisor at the start of a wait after which it goes on with the
    /// link that it has.
    pub open spec fn held_up(self) -> SupervisorModel {
        SupervisorModel {
            stage: Stage::Backoff { seconds: self.retry_delay, resume: Resume::Continue },
            ..self
        }
    }

    /// The supervisor after a request on the link failed while the link was
    /// in use: a broken link is given up, anything else is waited out.
    pub open spec fn failed(self, failure: Failure) -> SupervisorModel {
        if failure == Failure::Io {
            self.given_up()
        } else {
            self.held_up()
        }
    }

    /// The supervisor once the sensors before `next` have their settings:
    /// the next one gets its own, and after the last one the link is in use.
    pub open spec fn reapplied(self, next: int) -> SupervisorModel {
        if next < self.sensors.len() {
            SupervisorModel { stage: Stage::Reapplying { next: next as usize }, ..self }
        } else {
            SupervisorModel { stage: Stage::Receiving, connected: true, ..self }
        }
    }

    /// What the supervisor asks for.
    pub open spec fn pending(self) -> ActionModel {
        match self.stage {
            Stage::Draining => ActionModel::DrainCommands,
            Stage::Opening => ActionModel::Open { port: self.port, verify: true },
            Stage::Uploading => ActionModel::Upload { port: self.port },
            Stage::Reapplying { next } => ActionModel::SetSensor {
                id: next as u8,
                config: self.sensors[next as int],
            },
            Stage::Receiving => ActionModel::Receive,
            Stage::Applying { id, config } => ActionModel::SetSensor { id, config },
            Stage::Polling => ActionModel::Poll,
            Stage::Forwarding { event } => ActionModel::Forward(event),
            Stage::Backoff { seconds, .. } => ActionModel::Sleep { seconds },
            Stage::Stopped => ActionModel::Exit,
        }
    }

    /// The supervisor after a signal. A signal that does not answer what was
    /// asked for changes nothing. The settings that a command asked for are
    /// kept once the device has them; those of a sensor that the supervisor
    /// does not know are not kept.
    pub open spec fn next(self, signal: SignalModel) -> SupervisorModel {
        match (self.stage, signal) {
            (Stage::Draining, SignalModel::Drained { closed }) => SupervisorModel {
                stage: if closed {
                    Stage::Stopped
                } else {
                    Stage::Opening
                },
                ..self
            },
            (Stage::Opening, SignalModel::Opened(None)) => self.reapplied(0),
            (Stage::Opening, SignalModel::Opened(Some(failure))) => if failure
                == Failure::Verification && !self.upload_tried {
                SupervisorModel { stage: Stage::Uploading, upload_tried: true, ..self }
            } else {
                self.given_up()
            },
            (Stage::Uploading, SignalModel::Uploaded(Some(port))) => SupervisorModel {
                stage: Stage::Opening,
                port,
                ..self
            },
            (Stage::Uploading, SignalModel::Uploaded(None)) => self.given_up(),
            (Stage::Reapplying { next }, SignalModel::SensorSet(None)) => self.reapplied(next + 1),
            (Stage::Reapplying { .. }, SignalModel::SensorSet(Some(_))) => self.given_up(),
            (Stage::Receiving, SignalModel::Received(Reception::Command(Command::SetSensor(
                id,
                config,
            )))) => SupervisorModel { stage: Stage::Applying { id, config }, ..self },
            (Stage::Receiving, SignalModel::Received(Reception::Empty)) => SupervisorModel {
                stage: Stage::Polling,
                ..self
            },
            (Stage::Receiving, SignalModel::Received(Reception::Closed)) => SupervisorModel {
                stage: Stage::Draining,
                connected: false,
                ..self
            },
            (Stage::Applying { id, config }, SignalModel::SensorSet(None)) => SupervisorModel {
                stage: Stage::Receiving,
                sensors: if id < self.sensors.len() {
                    self.sensors.update(id as int, config)
                } else {
                    self.sensors
                },
                ..self
            },
            (Stage::Applying { .. }, SignalModel::SensorSet(Some(failure))) => self.failed(failure),
            (Stage::Polling, SignalModel::Polled(Ok(None))) => SupervisorModel {
                stage: Stage::Receiving,
                ..self
            },
            (Stage::Polling, SignalModel::Polled(Ok(Some(event)))) => SupervisorModel {
                stage: Stage::Forwarding { event },
                ..self
            },
            (Stage::Polling, SignalModel::Polled(Err(failure))) => self.failed(failure),
            (Stage::Forwarding { .. }, SignalModel::Forwarded(Delivery::Sent)) => SupervisorModel {
                stage: Stage::Receiving,
                ..self
            },
            (Stage::Forwarding { .. }, SignalModel::Forwarded(Delivery::Full)) => self.given_up(),
            (Stage::Forwarding { .. }, SignalModel::Forwarded(Delivery::Closed)) => SupervisorModel {
                stage: Stage::Draining,
                connected: false,
                ..self
            },
            (Stage::Backoff { resume, .. }, SignalModel::Slept) => SupervisorModel {
                stage: if resume == Resume::Reconnect {
                    Stage::Draining
                } else {
                    Stage::Receiving
                },
                ..self
            },
            _ => self,
        }
    }
}

/// The supervisor of one device link.
#[derive(Debug)]
pub struct Supervisor {
    stage: Stage,
    port: Port,
    upload_tried: bool,
    connected: bool,
    sensors: Vec<SensorConfig>,
    reconnect_delay: u64,
    retry_delay: u64,
}

impl View for Supervisor {
    type V = SupervisorModel;

    closed spec fn view(&self) -> SupervisorModel {
        SupervisorModel {
            stage: self.stage,
            port: self.port@,
            upload_tried: self.upload_tried,
            connected: self.connected,
            sensors: self.sensors@,
            reconnect_delay: self.reconnect_delay,
            retry_delay: self.retry_delay,
        }
    }
}

impl Supervisor {
    /// What holds of a supervisor at every step.
    pub open spec fn wf(&self) -> bool {
        self@.valid()
    }

    /// A supervisor for the device on `port`, with the settings of its
    /// sensors by their ids. It starts without a link.
    pub fn new(port: Port, sensors: Vec<SensorConfig>) -> (supervisor: Supervisor)
        requires
            sensors@.len() <= MAX_SENSORS,
        ensures
            supervisor.wf(),
            supervisor@ == SupervisorModel::start(port@, sensors@),
    {
        Supervisor {
            stage: Stage::Draining,
            port,
            upload_tried: false,
            connected: false,
            sensors,
            reconnect_delay: RECONNECT_DELAY,
            retry_delay: RETRY_DELAY,
        }
    }

    /// Sets how long the supervisor waits before a new connection, and how
    /// long after a failure that leaves the link usable, both in seconds. A
    /// wait that is under way is not changed.
    pub fn set_delays(&mut self, reconnect: u64, retry: u64)
        requires
            old(self).wf(),
        ensures
            final(self).wf(),
            final(self)@ == (SupervisorModel {
                reconnect_delay: reconnect,
                retry_delay: retry,
                ..old(self)@
            }),
    {
        self.reconnect_delay = reconnect;
        self.retry_delay = retry;
    }

    /// Whether the link can be used.
    pub fn connected(&self) -> (connected: bool)
        ensures
            connected == self@.connected,
    {
        self.connected
    }

    /// Whether the supervisor holds the link open. A link that is not held
    /// is to be closed before the next action.
    pub fn holds_link(&self) -> (held: bool)
        ensures
            held == self@.holds_link(),
    {
        match self.stage {
            Stage::Reapplying { .. } | Stage::Receiving | Stage::Applying { .. } | Stage::Polling
            | Stage::Forwarding { .. } => true,
            Stage::Backoff { resume, .. } => resume == Resume::Continue,
            _ => false,
        }
    }

    /// The settings of the sensor with the id, as the device has them or will
    /// get them with the next connection.
    pub fn sensor(&self, id: u8) -> (config: Option<SensorConfig>)
        ensures
            config == if id < self@.sensors.len() {
                Some(self@.sensors[id as int])
            } else {
                None
            },
    {
        if (id as usize) < self.sensors.len() {
            Some(self.sensors[id as usize])
        } else {
            None
        }
    }

    /// What the supervisor asks for.
    pub fn pending(&self) -> (action: Action)
        requires
            self.wf(),
        ensures
            action@ == self@.pending(),
    {
        match self.stage {
            Stage::Draining => Action::DrainCommands,
            Stage::Opening => Action::Open { port: self.port.clone(), verify: true },
            Stage::Uploading => Action::Upload { port: self.port.clone() },
            Stage::Reapplying { next } => Action::SetSensor {
                id: next as u8,
                config: self.sensors[next],
            },
            Stage::Receiving => Action::Receive,
            Stage::Applying { id, config } => Action::SetSensor { id, config },
            Stage::Polling => Action::Poll,
            Stage::Forwarding { event } => Action::Forward(event),
            Stage::Backoff { seconds, .. } => Action::Sleep { seconds },
            Stage::Stopped => Action::Exit,
        }
    }

    /// Gives the link up, and waits before a new connection.
    fn give_up(&mut self)
        ensures
            final(self)@ == old(self)@.given_up(),
    {
        self.stage = Stage::Backoff { seconds: self.reconnect_delay, resume: Resume::Reconnect };
        self.connected = false;
    }

    /// Takes a failure of a request on the link that is in use.
    fn fail(&mut self, failure: Failure)
        ensures
            final(self)@ == old(self)@.failed(failure),
    {
        match failure {
            Failure::Io => self.give_up(),
            _ => {
                self.stage = Stage::Backoff { seconds: self.retry_delay, resume: Resume::Continue };
            },
        }
    }

    /// Goes on once the sensors before `next` have their settings.
    fn reapply(&mut self, next: usize)
        ensures
            final(self)@ == old(self)@.reapplied(next as int),
    {
        if next < self.sensors.len() {
            self.stage = Stage::Reapplying { next };
        } else {
            self.stage = Stage::Receiving;
            self.connected = true;
        }
    }

    /// Takes what came of the action that was asked for, and says what to do
    /// next.
    pub fn step(&mut self, signal: Signal) -> (action: Action)
        requires
            old(self).wf(),
        ensures
            final(self).wf(),
            final(self)@ == old(self)@.next(signal@),
            action@ == final(self)@.pending(),
    {
        match (self.stage, signal) {
            (Stage::Draining, Signal::Drained { closed }) => {
                self.stage = if closed {
                    Stage::Stopped
                } else {
                    Stage::Opening
                };
            },
            (Stage::Opening, Signal::Opened(None)) => {
                self.reapply(0);
            },
            (Stage::Opening, Signal::Opened(Some(failure))) => {
                if failure == Failure::Verification && !self.upload_tried {
                    self.stage = Stage::Uploading;
                    self.upload_tried = true;
                } else {
                    self.give_up();
                }
            },
            (Stage::Uploading, Signal::Uploaded(Some(port))) => {
                self.stage = Stage::Opening;
                self.port = port;
            },
            (Stage::Uploading, Signal::Uploaded(None)) => {
                self.give_up();
            },
            (Stage::Reapplying { next }, Signal::SensorSet(None)) => {
                self.reapply(next + 1);
            },
            (Stage::Reapplying { .. }, Signal::SensorSet(Some(_))) => {
                self.give_up();
            },
            (Stage::Receiving, Signal::Received(Reception::Command(Command::SetSensor(
                id,
                config,
            )))) => {
                self.stage = Stage::Applying { id, config };
            },
            (Stage::Receiving, Signal::Received(Reception::Empty)) => {
                self.stage = Stage::Polling;
            },
            (Stage::Receiving, Signal::Received(Reception::Closed)) => {
                self.stage = Stage::Draining;
                self.connected = false;
            },
            (Stage::Applying { id, config }, Signal::SensorSet(None)) => {
                self.stage = Stage::Receiving;
                if (id as usize) < self.sensors.len() {
                    self.sensors.set(id as usize, config);
                }
            },
            (Stage::Applying { .. }, Signal::SensorSet(Some(failure))) => {
                self.fail(failure);
            },
            (Stage::Polling, Signal::Polled(Ok(None))) => {
                self.stage = Stage::Receiving;
            },
            (Stage::Polling, Signal::Polled(Ok(Some(event)))) => {
                self.stage = Stage::Forwarding { event };
            },
            (Stage::Polling, Signal::Polled(Err(failure))) => {
                self.fail(failure);
            },
            (Stage::Forwarding { .. }, Signal::Forwarded(Delivery::Sent)) => {
                self.stage = Stage::Receiving;
            },
            (Stage::Forwarding { .. }, Signal::Forwarded(Delivery::Full)) => {
                self.give_up();
            },
            (Stage::Forwarding { .. }, Signal::Forwarded(Delivery::Closed)) => {
                self.stage = Stage::Draining;
                self.connected = false;
            },
            (Stage::Backoff { resume, .. }, Signal::Slept) => {
                self.stage = match resume {
                    Resume::Reconnect => Stage::Draining,
                    Resume::Continue => Stage::Receiving,
                };
            },
            _ => {},
        }
        proof {
            lemma_next_valid(old(self)@, signal@);
        }
        self.pending()
    }
}

/// What holds of a supervisor at every step holds after each signal.
pub proof fn lemma_next_valid(supervisor: SupervisorModel, signal: SignalModel)
    requires
        supervisor.valid(),
    ensures
        supervisor.next(signal).valid(),
{
}

/// The link is opened only while the owner is told that it cannot be used.
pub proof fn lemma_open_while_disconnected(supervisor: SupervisorModel)
    requires
        supervisor.valid(),
        supervisor.pending() is Open,
    ensures
        !supervisor.connected,
{
}

/// The link is held whenever the owner is told that it can be used, and
/// whenever a request is to be made on it. It is not held when it is to be
/// opened or the firmware uploaded, while the supervisor waits for a new
/// connection, and once the supervisor has stopped: the port is free then.
pub proof fn lemma_link_held(supervisor: SupervisorModel)
    requires
        supervisor.valid(),
    ensures
        supervisor.connected ==> supervisor.holds_link(),
        supervisor.pending() is SetSensor || supervisor.pending() is Poll
            ==> supervisor.holds_link(),
        supervisor.pending() is Open || supervisor.pending() is Upload || supervisor.pending()
            is DrainCommands || supervisor.pending() is Exit ==> !supervisor.holds_link(),
        supervisor.stage matches Stage::Backoff { resume, .. } ==> supervisor.holds_link() == (
        resume == Resume::Continue),
{
}

/// The firmware is uploaded once at most: an upload is asked for only while
/// none has been tried, and from then on one has.
pub proof fn lemma_upload_once(supervisor: SupervisorModel, signal: SignalModel)
    ensures
        supervisor.upload_tried ==> supervisor.next(signal).upload_tried,
        supervisor.stage != Stage::Uploading && supervisor.next(signal).stage == Stage::Uploading
            ==> !supervisor.upload_tried && supervisor.next(signal).upload_tried
            && supervisor.stage == Stage::Opening && signal == SignalModel::Opened(
            Some(Failure::Verification),
        ),
{
}

/// A link that breaks while it is in use is given up: the owner is told so,
/// and a new connection is tried after the wait.
pub proof fn lemma_broken_link_is_given_up(supervisor: SupervisorModel, signal: SignalModel)
    requires
        supervisor.valid(),
        supervisor.connected,
        ({
            ||| supervisor.stage is Applying && signal == SignalModel::SensorSet(Some(Failure::Io))
            ||| supervisor.stage is Polling && signal == SignalModel::Polled(
                Err::<Option<Event>, Failure>(Failure::Io),
            )
        }),
    ensures
        !supervisor.next(signal).connected,
        supervisor.next(signal).pending() == (ActionModel::Sleep {
            seconds: supervisor.reconnect_delay,
        }),
        supervisor.next(signal).next(SignalModel::Slept).pending() == ActionModel::DrainCommands,
        supervisor.next(signal).next(SignalModel::Slept).next(
            SignalModel::Drained { closed: false },
        ).pending() == (ActionModel::Open { port: supervisor.port, verify: true }),
{
}

/// A failure that is not one of the link leaves the link in use: the owner
/// is told nothing, and after the wait the next command is looked for.
pub proof fn lemma_other_failure_is_waited_out(
    supervisor: SupervisorModel,
    signal: SignalModel,
    failure: Failure,
)
    requires
        supervisor.valid(),
        supervisor.connected,
        failure != Failure::Io,
        ({
            ||| supervisor.stage is Applying && signal == SignalModel::SensorSet(Some(failure))
            ||| supervisor.stage is Polling && signal == SignalModel::Polled(
                Err::<Option<Event>, Failure>(failure),
            )
        }),
    ensures
        supervisor.next(signal).connected,
        supervisor.next(signal).pending() == (ActionModel::Sleep {
            seconds: supervisor.retry_delay,
        }),
        supervisor.next(signal).next(SignalModel::Slept).pending() == ActionModel::Receive,
        supervisor.next(signal).next(SignalModel::Slept).connected,
{
}

/// The owner is told that the link can be used only once every sensor has
/// its settings: the supervisor gets there from the last sensor's settings
/// having been applied, or from the link having been opened where there is
/// no sensor; and the sensors get their settings one by one, from the first
/// on, each only after the one before it.
pub proof fn lemma_connected_after_reapply(supervisor: SupervisorModel, signal: SignalModel)
    requires
        supervisor.valid(),
    ensures
        !supervisor.connected && supervisor.next(signal).connected ==> {
            ||| supervisor.stage == (Stage::Reapplying {
                next: (supervisor.sensors.len() - 1) as usize,
            }) && signal == SignalModel::SensorSet(None)
            ||| supervisor.stage == Stage::Opening && signal == SignalModel::Opened(None)
                && supervisor.sensors.len() == 0
        },
        supervisor.next(signal) != supervisor ==> (supervisor.next(signal).stage matches
        Stage::Reapplying { next } ==> {
            ||| next == 0 && supervisor.stage == Stage::Opening && signal == SignalModel::Opened(
                None,
            )
            ||| next > 0 && supervisor.stage == (Stage::Reapplying { next: (next - 1) as usize })
                && signal == SignalModel::SensorSet(None)
        }),
        supervisor.stage matches Stage::Reapplying { next } ==> supervisor.pending() == (
        ActionModel::SetSensor { id: next as u8, config: supervisor.sensors[next as int] }),
{
}

/// An event that the queue of events has no room for ends the connection:
/// the owner is told that the link cannot be used, no further event is asked
/// for, and after the wait a new connection is tried.
pub proof fn lemma_full_queue_forces_reconnect(supervisor: SupervisorModel)
    requires
        supervisor.valid(),
        supervisor.stage is Forwarding,
    ensures
        !supervisor.next(SignalModel::Forwarded(Delivery::Full)).connected,
        supervisor.next(SignalModel::Forwarded(Delivery::Full)).pending() == (ActionModel::Sleep {
            seconds: supervisor.reconnect_delay,
        }),
        supervisor.next(SignalModel::Forwarded(Delivery::Full)).next(SignalModel::Slept).pending()
            == ActionModel::DrainCommands,
        supervisor.next(SignalModel::Forwarded(Delivery::Full)).next(SignalModel::Slept).next(
            SignalModel::Drained { closed: false },
        ).pending() == (ActionModel::Open { port: supervisor.port, verify: true }),
{
}

/// A supervisor together with the settings that the device holds. A device
/// whose link is opened may have lost what it held; a request to set a
/// sensor that succeeds leaves the device with the settings of the request.
pub struct LinkModel {
    pub supervisor: SupervisorModel,
    pub device: Map<u8, SensorConfig>,
}

impl LinkModel {
    /// The supervisor and the device after a signal.
    pub open spec fn next(self, signal: SignalModel) -> LinkModel {
        LinkModel {
            supervisor: self.supervisor.next(signal),
            device: match (self.supervisor.stage, signal) {
                (Stage::Opening, SignalModel::Opened(None)) => Map::empty(),
                (Stage::Reapplying { next }, SignalModel::SensorSet(None)) => self.device.insert(
                    next as u8,
                    self.supervisor.sensors[next as int],
                ),
                (Stage::Applying { id, config }, SignalModel::SensorSet(None)) => self.device.insert(
                    id,
                    config,
                ),
                _ => self.device,
            },
        }
    }

    /// Whether the device holds the settings of the first `count` sensors.
    pub open spec fn applied(self, count: int) -> bool {
        forall|id: u8|
            id < count ==> #[trigger] self.device.dom().contains(id) && self.device[id]
                == self.supervisor.sensors[id as int]
    }

    /// While the sensors get their settings, the device holds those of the
    /// sensors that had their turn; while the link is in use, it holds those
    /// of every sensor.
    pub open spec fn in_step(self) -> bool {
        &&& self.supervisor.valid()
        &&& self.supervisor.stage matches Stage::Reapplying { next } ==> self.applied(next as int)
        &&& self.supervisor.serving() ==> self.applied(self.supervisor.sensors.len() as int)
    }
}

/// The supervisor and the device stay in step. So whenever the owner is told
/// that the link can be used, the device holds the settings of every sensor
/// as the supervisor has them.
pub proof fn lemma_device_in_step(link: LinkModel, signal: SignalModel)
    requires
        link.in_step(),
    ensures
        link.next(signal).in_step(),
        link.next(signal).supervisor.connected ==> link.next(signal).applied(
            link.supervisor.sensors.len() as int,
        ),
{
    lemma_next_valid(link.supervisor, signal);
    let after = link.next(signal);
    let count = after.supervisor.sensors.len() as int;
    match (link.supervisor.stage, signal) {
        (Stage::Reapplying { next }, SignalModel::SensorSet(None)) => {
            assert forall|id: u8| id < next + 1 implies #[trigger] after.device.dom().contains(id)
                && after.device[id] == after.supervisor.sensors[id as int] by {
                if id < next {
                    assert(link.device.dom().contains(id));
                }
            }
            assert(after.applied(next + 1));
        },
        (Stage::Applying { .. }, SignalModel::SensorSet(None)) => {
            assert forall|id: u8| id < count implies #[trigger] after.device.dom().contains(id)
                && after.device[id] == after.supervisor.sensors[id as int] by {
                assert(link.device.dom().contains(id));
            }
            assert(after.applied(count));
        },
        _ => {
            if link.supervisor.serving() && after.supervisor.serving() {
                assert forall|id: u8| id < count implies #[trigger] after.device.dom().contains(id)
                    && after.device[id] == after.supervisor.sensors[id as int] by {
                    assert(link.device.dom().contains(id));
                }
            }
            if let Stage::Reapplying { next } = after.supervisor.stage {
                if link.supervisor.stage == after.supervisor.stage {
                    assert forall|id: u8| id < next implies #[trigger] after.device.dom().contains(
                        id,
                    ) && after.device[id] == after.supervisor.sensors[id as int] by {
                        assert(link.device.dom().contains(id));
                    }
                }
            }
            assert(after.supervisor.stage matches Stage::Reapplying { next } ==> after.applied(
                next as int,
            ));
            assert(after.supervisor.serving() ==> after.applied(count));
        },
    }
}

/// The supervisor and the device after a row of signals.
pub open spec fn run(link: LinkModel, signals: Seq<SignalModel>) -> LinkModel
    decreases signals.len(),
{
    if signals.len() == 0 {
        link
    } else {
        run(link, signals.drop_last()).next(signals.last())
    }
}

/// Whatever happens to a supervisor from its start on: whenever the owner is
/// told that the link can be used, the device holds the settings of every
/// sensor as the supervisor has them; and whenever the link is to be opened,
/// the owner has been told that it cannot be used.
pub proof fn lemma_every_run(
    port: Seq<char>,
    sensors: Seq<SensorConfig>,
    device: Map<u8, SensorConfig>,
    signals: Seq<SignalModel>,
)
    requires
        sensors.len() <= MAX_SENSORS,
    ensures
        ({
            let end = run(
                LinkModel { supervisor: SupervisorModel::start(port, sensors), device },
                signals,
            );
            &&& end.in_step()
            &&& end.supervisor.connected ==> end.applied(end.supervisor.sensors.len() as int)
            &&& end.supervisor.pending() is Open ==> !end.supervisor.connected
        }),
    decreases signals.len(),
{
    let start = LinkModel { supervisor: SupervisorModel::start(port, sensors), device };
    if signals.len() > 0 {
        lemma_every_run(port, sensors, device, signals.drop_last());
        lemma_device_in_step(run(start, signals.drop_last()), signals.last());
    }
}

} // verus!
