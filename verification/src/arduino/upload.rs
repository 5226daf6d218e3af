//! The upload of the firmware. The device is reset into its bootloader, the
//! bootloader's port is looked for, the flashing utility is run against it,
//! and the port under which the new firmware answers is looked for.
//!
//! The steps that touch the outside world are asked for as actions; what
//! came of each is handed back as an event.

use super::{
    lemma_name_precedes_irreflexive, lemma_name_precedes_total, lemma_name_precedes_transitive,
    name_precedes, port_names, Port,
};
use crate::error::{Error, ErrorModel};
use crate::text::starts_with;
use vstd::prelude::*;
use vstd::string::*;

verus! {

/// How long the bootloader's port is looked for, in milliseconds.
pub const BOOTLOADER_WAIT: u64 = 10_000;

/// How long the port of the new firmware is looked for, in milliseconds.
pub const SKETCH_WAIT: u64 = 2_000;

/// How long the flashing utility may run, in seconds.
pub const FLASH_TIMEOUT: u64 = 60;

/// How long to wait between two looks at the ports, in milliseconds.
pub const POLL_INTERVAL: u64 = 100;

/// What the flashing utility has to be told of the board, and how the board
/// is brought into its bootloader.
#[derive(Debug)]
pub struct Board {
    pub protocol: String,
    pub speed: usize,
    pub mcu: String,
    /// Whether the board is reset by opening its port at a low speed.
    pub use_1200bps_touch: bool,
    /// Whether the bootloader answers on a port of its own.
    pub wait_for_upload_port: bool,
}

/// The least, by name, of `ports` that is not among `before`.
pub open spec fn least_new(before: Seq<Seq<char>>, ports: Seq<Seq<char>>) -> Option<Seq<char>>
    decreases ports.len(),
{
    if ports.len() == 0 {
        None
    } else if before.contains(ports.last()) {
        least_new(before, ports.drop_last())
    } else {
        match least_new(before, ports.drop_last()) {
            Some(least) => if name_precedes(ports.last(), least) {
                Some(ports.last())
            } else {
                Some(least)
            },
            None => Some(ports.last()),
        }
    }
}

/// The least new port is one of the ports, was not there before, and no
/// other new port comes before it by name; there is none only where every
/// port was there before.
pub proof fn lemma_least_new(before: Seq<Seq<char>>, ports: Seq<Seq<char>>)
    ensures
        match least_new(before, ports) {
            Some(port) => {
                &&& ports.contains(port)
                &&& !before.contains(port)
                &&& forall|i: int|
                    0 <= i < ports.len() && !before.contains(#[trigger] ports[i])
                        ==> !name_precedes(ports[i], port)
            },
            None => forall|i: int| 0 <= i < ports.len() ==> before.contains(#[trigger] ports[i]),
        },
    decreases ports.len(),
{
    if ports.len() > 0 {
        let front = ports.drop_last();
        let last = ports.last();
        lemma_least_new(before, front);
        assert forall|i: int| 0 <= i < front.len() implies front[i] == ports[i] by {}
        match least_new(before, ports) {
            Some(port) => {
                if port == last {
                    assert(ports[ports.len() - 1] == port);
                } else {
                    let k = choose|k: int| 0 <= k < front.len() && front[k] == port;
                    assert(ports[k] == port);
                }
                lemma_name_precedes_irreflexive(port);
                assert forall|i: int|
                    0 <= i < ports.len() && !before.contains(
                        #[trigger] ports[i],
                    ) implies !name_precedes(ports[i], port) by {
                    if i < front.len() {
                        assert(front[i] == ports[i]);
                        if port == last && least_new(before, front) is Some && name_precedes(
                            ports[i],
                            port,
                        ) {
                            lemma_name_precedes_transitive(
                                ports[i],
                                port,
                                least_new(before, front)->0,
                            );
                        }
                    }
                }
            },
            None => {
                assert forall|i: int| 0 <= i < ports.len() implies before.contains(
                    #[trigger] ports[i],
                ) by {
                    if i < front.len() {
                        assert(front[i] == ports[i]);
                    }
                }
            },
        }
    }
}

/// There is one least new port at most: a port that is new, and before
/// which no new port comes, is the one.
pub proof fn lemma_least_new_unique(
    before: Seq<Seq<char>>,
    ports: Seq<Seq<char>>,
    port: Seq<char>,
)
    requires
        ports.contains(port),
        !before.contains(port),
        forall|i: int|
            0 <= i < ports.len() && !before.contains(#[trigger] ports[i]) ==> !name_precedes(
                ports[i],
                port,
            ),
    ensures
        least_new(before, ports) == Some(port),
{
    lemma_least_new(before, ports);
    let k = choose|k: int| 0 <= k < ports.len() && ports[k] == port;
    assert(!before.contains(ports[k]));
    let least = least_new(before, ports)->0;
    let j = choose|j: int| 0 <= j < ports.len() && ports[j] == least;
    assert(!before.contains(ports[j]));
    lemma_name_precedes_total(least, port);
}

/// Whether a port with the same name is among `ports`.
pub fn contains_port(ports: &Vec<Port>, port: &Port) -> (found: bool)
    ensures
        found == port_names(ports@).contains(port@),
{
    let mut i: usize = 0;
    while i < ports.len()
        invariant
            i <= ports@.len(),
            forall|k: int| 0 <= k < i ==> port_names(ports@)[k] != port@,
        decreases ports@.len() - i,
    {
        if ports[i] == *port {
            assert(port_names(ports@)[i as int] == port@);
            return true;
        }
        i += 1;
    }
    false
}

/// The least, by name, of `ports` that is not among `before`: the port that
/// appeared.
pub fn least_new_port(before: &Vec<Port>, ports: &Vec<Port>) -> (found: Option<Port>)
    ensures
        match found {
            Some(port) => {
                &&& least_new(port_names(before@), port_names(ports@)) == Some(port@)
                &&& port_names(ports@).contains(port@)
                &&& !port_names(before@).contains(port@)
                &&& forall|i: int|
                    0 <= i < ports@.len() && !port_names(before@).contains(
                        #[trigger] port_names(ports@)[i],
                    ) ==> !name_precedes(port_names(ports@)[i], port@)
            },
            None => {
                &&& least_new(port_names(before@), port_names(ports@)) is None
                &&& forall|i: int|
                    0 <= i < ports@.len() ==> port_names(before@).contains(
                        #[trigger] port_names(ports@)[i],
                    )
            },
        },
{
    let ghost names = port_names(ports@);
    let ghost old_names = port_names(before@);
    let mut best: Option<usize> = None;
    let mut i: usize = 0;
    while i < ports.len()
        invariant
            i <= ports@.len(),
            names == port_names(ports@),
            old_names == port_names(before@),
            match best {
                Some(place) => place < i && least_new(old_names, names.take(i as int)) == Some(
                    names[place as int],
                ),
                None => least_new(old_names, names.take(i as int)) is None,
            },
        decreases ports@.len() - i,
    {
        proof {
            let seen = names.take(i + 1);
            assert(seen.drop_last() =~= names.take(i as int));
            assert(seen.last() == ports@[i as int]@);
        }
        if !contains_port(before, &ports[i]) {
            let better = match best {
                Some(place) => ports[i].precedes(&ports[place]),
                None => true,
            };
            if better {
                best = Some(i);
            }
        }
        i += 1;
    }
    proof {
        assert(names.take(ports@.len() as int) =~= names);
        lemma_least_new(old_names, names);
    }
    match best {
        Some(place) => Some(ports[place].clone()),
        None => None,
    }
}

/// The character of a decimal digit.
pub open spec fn digit_char(digit: int) -> char {
    (48 + digit) as u8 as char
}

/// A number in decimal digits.
pub open spec fn decimal_text(number: nat) -> Seq<char>
    decreases number,
{
    if number < 10 {
        seq![digit_char(number as int)]
    } else {
        decimal_text(number / 10).push(digit_char((number % 10) as int))
    }
}

/// The digits of a number that are still to be written before the ones that
/// are known: none where the number is used up.
spec fn leading_text(rest: nat) -> Seq<char> {
    if rest == 0 {
        Seq::empty()
    } else {
        decimal_text(rest)
    }
}

/// A number in decimal digits.
pub fn decimal(number: usize) -> (text: String)
    ensures
        text@ == decimal_text(number as nat),
{
    let mut digits: Vec<char> = Vec::new();
    digits.push((48 + (number % 10) as u8) as char);
    let mut rest: usize = number / 10;
    assert(decimal_text(number as nat) =~= leading_text(rest as nat) + digits@.reverse());
    while rest > 0
        invariant
            digits@.len() > 0,
            decimal_text(number as nat) == leading_text(rest as nat) + digits@.reverse(),
        decreases rest,
    {
        let ghost before = digits@;
        digits.push((48 + (rest % 10) as u8) as char);
        proof {
            let digit = digit_char((rest % 10) as int);
            assert(digits@.reverse() =~= seq![digit] + before.reverse());
            assert(decimal_text(rest as nat) =~= leading_text((rest / 10) as nat) + seq![digit]);
            assert(leading_text(rest as nat) + before.reverse() =~= leading_text(
                (rest / 10) as nat,
            ) + (seq![digit] + before.reverse()));
        }
        rest = rest / 10;
    }
    let mut text = String::new();
    let mut left: usize = digits.len();
    assert(leading_text(0) + digits@.reverse() =~= digits@.reverse());
    while left > 0
        invariant
            left <= digits@.len(),
            text@ == digits@.reverse().take(digits@.len() - left),
        decreases left,
    {
        left -= 1;
        text.push(digits[left]);
        assert(digits@.reverse().take(digits@.len() - left) =~= digits@.reverse().take(
            digits@.len() - left - 1,
        ).push(digits@[left as int]));
    }
    assert(digits@.reverse().take(digits@.len() as int) =~= digits@.reverse());
    text
}

/// The arguments of the flashing utility: twice verbose, its configuration
/// file, the chip, the protocol, the port, the speed, no erase, and the image
/// to write to the flash.
pub open spec fn flash_arguments(
    protocol: Seq<char>,
    speed: nat,
    mcu: Seq<char>,
    config_path: Seq<char>,
    port: Seq<char>,
    image_path: Seq<char>,
) -> Seq<Seq<char>> {
    seq![
        "-v"@,
        "-v"@,
        "-C"@,
        config_path,
        "-p"@,
        mcu,
        "-c"@,
        protocol,
        "-P"@,
        port,
        "-b"@,
        decimal_text(speed),
        "-D"@,
        "-Uflash:w:"@ + image_path + ":i"@,
    ]
}

/// The arguments with which the flashing utility is started.
pub fn avrdude_arguments(board: &Board, config_path: &str, port: &Port, image_path: &str) -> (args:
    Vec<String>)
    ensures
        args@.len() == 14,
        forall|i: int|
            0 <= i < 14 ==> (#[trigger] args@[i])@ == flash_arguments(
                board.protocol@,
                board.speed as nat,
                board.mcu@,
                config_path@,
                port@,
                image_path@,
            )[i],
{
    let mut image = "-Uflash:w:".to_owned();
    image.append(image_path);
    image.append(":i");
    let mut args: Vec<String> = Vec::new();
    args.push("-v".to_owned());
    args.push("-v".to_owned());
    args.push("-C".to_owned());
    args.push(config_path.to_owned());
    args.push("-p".to_owned());
    args.push(board.mcu.clone());
    args.push("-c".to_owned());
    args.push(board.protocol.clone());
    args.push("-P".to_owned());
    args.push(port.name().to_owned());
    args.push("-b".to_owned());
    args.push(decimal(board.speed));
    args.push("-D".to_owned());
    args.push(image);
    args
}

/// What the flashing utility says on a line of its output, without its own
/// name in front; nothing for a line that does not start with it.
pub fn avrdude_message(line: &str) -> (message: Option<String>)
    ensures
        match message {
            Some(text) => "avrdude: "@.is_prefix_of(line@) && text@ == line@.skip(9),
            None => !"avrdude: "@.is_prefix_of(line@),
        },
{
    if starts_with(line, "avrdude: ") {
        proof {
            reveal_strlit("avrdude: ");
        }
        let length = line.unicode_len();
        let rest = line.substring_char(9, length);
        assert(rest@ =~= line@.skip(9));
        Some(rest.to_owned())
    } else {
        None
    }
}

/// How the flashing utility ended: in time or not, and with which exit code,
/// if it left one.
pub open spec fn flash_result(outcome: Option<Option<i32>>) -> Result<(), ErrorModel> {
    match outcome {
        None => Err(ErrorModel::UploadTimeout),
        Some(Some(0)) => Ok(()),
        Some(code) => Err(ErrorModel::UploadFailed(code)),
    }
}

/// Whether the flashing utility did its work: it did where it ended in time
/// with the exit code 0.
pub fn upload_result(outcome: Option<Option<i32>>) -> (result: Result<(), Error>)
    ensures
        match result {
            Ok(()) => flash_result(outcome) is Ok,
            Err(error) => flash_result(outcome) == Err::<(), ErrorModel>(error@),
        },
{
    match outcome {
        None => Err(Error::UploadTimeout),
        Some(Some(0)) => Ok(()),
        Some(code) => Err(Error::UploadFailed(code)),
    }
}

/// Where an upload stands: which answer it waits for.
#[derive(Clone, Copy, Debug, PartialEq, Eq, Structural)]
pub enum UploadStage {
    /// The ports as they are before the reset.
    Snapshot,
    /// The reset into the bootloader.
    Touching,
    /// The time, before a look for the bootloader's port.
    BootClock,
    /// The ports, among which the bootloader's is looked for.
    BootPorts,
    /// The pause after a look that found nothing new.
    BootSleep,
    /// The end of the flashing utility.
    Flashing,
    /// The time, before a look for the port of the new firmware.
    SketchClock,
    /// The ports, among which the one of the new firmware is looked for.
    SketchPorts,
    /// The pause after a look that did not find it.
    SketchSleep,
    /// Nothing: the upload is over.
    Finished,
}

/// What an upload asks for.
#[derive(Debug, PartialEq, Eq)]
pub enum UploadAction {
    /// List the serial ports that are attached.
    Enumerate,
    /// Open the port at 1200 baud and release its data-terminal-ready line.
    Touch(Port),
    /// Read a clock that does not go back, in milliseconds.
    ReadClock,
    /// Wait for so many milliseconds.
    Sleep(u64),
    /// Run the flashing utility against the port, and stop it if it has not
    /// ended after [`FLASH_TIMEOUT`].
    Flash(Port),
    /// Nothing more: the upload is over.
    Done,
}

/// An [`UploadAction`] as plain values.
pub enum UploadActionModel {
    Enumerate,
    Touch(Seq<char>),
    ReadClock,
    Sleep(u64),
    Flash(Seq<char>),
    Done,
}

impl View for UploadAction {
    type V = UploadActionModel;

    open spec fn view(&self) -> UploadActionModel {
        match self {
            UploadAction::Enumerate => UploadActionModel::Enumerate,
            UploadAction::Touch(port) => UploadActionModel::Touch(port@),
            UploadAction::ReadClock => UploadActionModel::ReadClock,
            UploadAction::Sleep(time) => UploadActionModel::Sleep(*time),
            UploadAction::Flash(port) => UploadActionModel::Flash(port@),
            UploadAction::Done => UploadActionModel::Done,
        }
    }
}

/// What came of an action of an upload.
#[derive(Debug)]
pub enum UploadEvent {
    /// The ports that are attached.
    Ports(Vec<Port>),
    /// The port was touched.
    Touched,
    /// The clock, in milliseconds.
    Clock(u64),
    /// The wait is over.
    Slept,
    /// The flashing utility ended with the given exit code, or without one;
    /// or it did not end in time and was stopped.
    Flashed(Option<Option<i32>>),
    /// The action failed.
    Failed(Error),
}

/// An [`UploadEvent`] as plain values.
pub enum UploadEventModel {
    Ports(Seq<Seq<char>>),
    Touched,
    Clock(u64),
    Slept,
    Flashed(Option<Option<i32>>),
    Failed(ErrorModel),
}

impl View for UploadEvent {
    type V = UploadEventModel;

    open spec fn view(&self) -> UploadEventModel {
        match self {
            UploadEvent::Ports(ports) => UploadEventModel::Ports(port_names(ports@)),
            UploadEvent::Touched => UploadEventModel::Touched,
            UploadEvent::Clock(now) => UploadEventModel::Clock(*now),
            UploadEvent::Slept => UploadEventModel::Slept,
            UploadEvent::Flashed(outcome) => UploadEventModel::Flashed(*outcome),
            UploadEvent::Failed(error) => UploadEventModel::Failed(error@),
        }
    }
}

/// Whether a wait that began at `started` has at the time `now` lasted less
/// than `limit`. A wait that has not begun yet begins now.
pub open spec fn within(started: Option<u64>, now: u64, limit: u64) -> bool {
    match started {
        Some(begin) => now < begin || now - begin < limit,
        None => 0 < limit,
    }
}

/// An upload as plain values.
pub struct UploadModel {
    pub stage: UploadStage,
    /// Whether the bootloader answers on a port of its own.
    pub wait_for_port: bool,
    /// The port of the device.
    pub port: Seq<char>,
    /// The ports that were attached before the reset.
    pub before: Seq<Seq<char>>,
    /// The port that the firmware is written to.
    pub target: Seq<char>,
    /// When the wait that is under way began.
    pub started: Option<u64>,
    /// How the upload ended: with the port under which the device answers
    /// now, or with what went wrong.
    pub outcome: Option<Result<Seq<char>, ErrorModel>>,
}

impl UploadModel {
    /// An upload that has not asked for anything yet. With a reset, the ports
    /// are listed first; without one, the firmware is written at once.
    pub open spec fn start(touch: bool, wait_for_port: bool, port: Seq<char>) -> UploadModel {
        UploadModel {
            stage: if touch {
                UploadStage::Snapshot
            } else {
                UploadStage::Flashing
            },
            wait_for_port,
            port,
            before: Seq::empty(),
            target: port,
            started: None,
            outcome: None,
        }
    }

    /// The upload at its end.
    pub open spec fn finished(self, outcome: Result<Seq<char>, ErrorModel>) -> UploadModel {
        UploadModel { stage: UploadStage::Finished, outcome: Some(outcome), ..self }
    }

    /// What the upload asks for.
    pub open spec fn pending(self) -> UploadActionModel {
        match self.stage {
            UploadStage::Snapshot | UploadStage::BootPorts | UploadStage::SketchPorts =>
                UploadActionModel::Enumerate,
            UploadStage::Touching => UploadActionModel::Touch(self.port),
            UploadStage::BootClock | UploadStage::SketchClock => UploadActionModel::ReadClock,
            UploadStage::BootSleep | UploadStage::SketchSleep => UploadActionModel::Sleep(
                POLL_INTERVAL,
            ),
            UploadStage::Flashing => UploadActionModel::Flash(self.target),
            UploadStage::Finished => UploadActionModel::Done,
        }
    }

    /// The upload after an event. An action that failed ends the upload. An
    /// event that does not answer what was asked for changes nothing.
    ///
    /// The bootloader's port is the least, by name, of the ports that were
    /// not attached before the reset; where none appears in time, the firmware is written to the
    /// port of the device. After the flashing, the device answers under its
    /// own port if that port is seen in time, else under the port that was
    /// written to.
    pub open spec fn next(self, event: UploadEventModel) -> UploadModel {
        match (self.stage, event) {
            (UploadStage::Finished, _) => self,
            (_, UploadEventModel::Failed(error)) => self.finished(Err(error)),
            (UploadStage::Snapshot, UploadEventModel::Ports(ports)) => UploadModel {
                stage: UploadStage::Touching,
                before: ports,
                ..self
            },
            (UploadStage::Touching, UploadEventModel::Touched) => if self.wait_for_port {
                UploadModel { stage: UploadStage::BootClock, started: None, ..self }
            } else {
                UploadModel { stage: UploadStage::Flashing, ..self }
            },
            (UploadStage::BootClock, UploadEventModel::Clock(now)) => if within(
                self.started,
                now,
                BOOTLOADER_WAIT,
            ) {
                UploadModel {
                    stage: UploadStage::BootPorts,
                    started: Some(self.started.unwrap_or(now)),
                    ..self
                }
            } else {
                UploadModel { stage: UploadStage::Flashing, ..self }
            },
            (UploadStage::BootPorts, UploadEventModel::Ports(ports)) => match least_new(
                self.before,
                ports,
            ) {
                Some(port) => UploadModel { stage: UploadStage::Flashing, target: port, ..self },
                None => UploadModel { stage: UploadStage::BootSleep, ..self },
            },
            (UploadStage::BootSleep, UploadEventModel::Slept) => UploadModel {
                stage: UploadStage::BootClock,
                ..self
            },
            (UploadStage::Flashing, UploadEventModel::Flashed(outcome)) => match flash_result(
                outcome,
            ) {
                Err(error) => self.finished(Err(error)),
                Ok(()) => if self.wait_for_port {
                    UploadModel { stage: UploadStage::SketchClock, started: None, ..self }
                } else {
                    self.finished(Ok(self.target))
                },
            },
            (UploadStage::SketchClock, UploadEventModel::Clock(now)) => if within(
                self.started,
                now,
                SKETCH_WAIT,
            ) {
                UploadModel {
                    stage: UploadStage::SketchPorts,
                    started: Some(self.started.unwrap_or(now)),
                    ..self
                }
            } else {
                self.finished(Ok(self.target))
            },
            (UploadStage::SketchPorts, UploadEventModel::Ports(ports)) => if ports.contains(
                self.port,
            ) {
                self.finished(Ok(self.port))
            } else {
                UploadModel { stage: UploadStage::SketchSleep, ..self }
            },
            (UploadStage::SketchSleep, UploadEventModel::Slept) => UploadModel {
                stage: UploadStage::SketchClock,
                ..self
            },
            _ => self,
        }
    }
}

/// An upload of the firmware to the device on one port.
#[derive(Debug)]
pub struct Upload {
    stage: UploadStage,
    wait_for_port: bool,
    port: Port,
    before: Vec<Port>,
    target: Port,
    started: Option<u64>,
    outcome: Option<Result<Port, Error>>,
}

impl View for Upload {
    type V = UploadModel;

    closed spec fn view(&self) -> UploadModel {
        UploadModel {
            stage: self.stage,
            wait_for_port: self.wait_for_port,
            port: self.port@,
            before: port_names(self.before@),
            target: self.target@,
            started: self.started,
            outcome: match self.outcome {
                Some(Ok(port)) => Some(Ok(port@)),
                Some(Err(error)) => Some(Err(error@)),
                None => None,
            },
        }
    }
}

/// Whether a wait that began at `started` has at the time `now` lasted less
/// than `limit`.
fn still_within(started: Option<u64>, now: u64, limit: u64) -> (result: bool)
    ensures
        result == within(started, now, limit),
{
    match started {
        Some(begin) => now < begin || now - begin < limit,
        None => 0 < limit,
    }
}

impl Upload {
    /// An upload to the device on `port`, for a board that is or is not
    /// reset by a touch, and whose bootloader has or has not a port of its
    /// own.
    pub fn new(board: &Board, port: &Port) -> (upload: Upload)
        ensures
            upload@ == UploadModel::start(
                board.use_1200bps_touch,
                board.wait_for_upload_port,
                port@,
            ),
    {
        let upload = Upload {
            stage: if board.use_1200bps_touch {
                UploadStage::Snapshot
            } else {
                UploadStage::Flashing
            },
            wait_for_port: board.wait_for_upload_port,
            port: port.clone(),
            before: Vec::new(),
            target: port.clone(),
            started: None,
            outcome: None,
        };
        assert(upload@.before =~= Seq::<Seq<char>>::empty());
        upload
    }

    /// What the upload asks for.
    pub fn pending(&self) -> (action: UploadAction)
        ensures
            action@ == self@.pending(),
    {
        match self.stage {
            UploadStage::Snapshot | UploadStage::BootPorts | UploadStage::SketchPorts =>
                UploadAction::Enumerate,
            UploadStage::Touching => UploadAction::Touch(self.port.clone()),
            UploadStage::BootClock | UploadStage::SketchClock => UploadAction::ReadClock,
            UploadStage::BootSleep | UploadStage::SketchSleep => UploadAction::Sleep(
                POLL_INTERVAL,
            ),
            UploadStage::Flashing => UploadAction::Flash(self.target.clone()),
            UploadStage::Finished => UploadAction::Done,
        }
    }

    /// Takes what came of the action that was asked for, and says what to do
    /// next.
    pub fn step(&mut self, event: UploadEvent) -> (action: UploadAction)
        ensures
            final(self)@ == old(self)@.next(event@),
            action@ == final(self)@.pending(),
    {
        match (self.stage, event) {
            (UploadStage::Finished, _) => {},
            (_, UploadEvent::Failed(error)) => {
                self.stage = UploadStage::Finished;
                self.outcome = Some(Err(error));
            },
            (UploadStage::Snapshot, UploadEvent::Ports(ports)) => {
                self.stage = UploadStage::Touching;
                self.before = ports;
            },
            (UploadStage::Touching, UploadEvent::Touched) => {
                if self.wait_for_port {
                    self.stage = UploadStage::BootClock;
                    self.started = None;
                } else {
                    self.stage = UploadStage::Flashing;
                }
            },
            (UploadStage::BootClock, UploadEvent::Clock(now)) => {
                if still_within(self.started, now, BOOTLOADER_WAIT) {
                    self.stage = UploadStage::BootPorts;
                    if self.started.is_none() {
                        self.started = Some(now);
                    }
                } else {
                    self.stage = UploadStage::Flashing;
                }
            },
            (UploadStage::BootPorts, UploadEvent::Ports(ports)) => {
                match least_new_port(&self.before, &ports) {
                    Some(port) => {
                        self.stage = UploadStage::Flashing;
                        self.target = port;
                    },
                    None => {
                        self.stage = UploadStage::BootSleep;
                    },
                }
            },
            (UploadStage::BootSleep, UploadEvent::Slept) => {
                self.stage = UploadStage::BootClock;
            },
            (UploadStage::Flashing, UploadEvent::Flashed(outcome)) => {
                match upload_result(outcome) {
                    Err(error) => {
                        self.stage = UploadStage::Finished;
                        self.outcome = Some(Err(error));
                    },
                    Ok(()) => {
                        if self.wait_for_port {
                            self.stage = UploadStage::SketchClock;
                            self.started = None;
                        } else {
                            self.stage = UploadStage::Finished;
                            self.outcome = Some(Ok(self.target.clone()));
                        }
                    },
                }
            },
            (UploadStage::SketchClock, UploadEvent::Clock(now)) => {
                if still_within(self.started, now, SKETCH_WAIT) {
                    self.stage = UploadStage::SketchPorts;
                    if self.started.is_none() {
                        self.started = Some(now);
                    }
                } else {
                    self.stage = UploadStage::Finished;
                    self.outcome = Some(Ok(self.target.clone()));
                }
            },
            (UploadStage::SketchPorts, UploadEvent::Ports(ports)) => {
                if contains_port(&ports, &self.port) {
                    self.stage = UploadStage::Finished;
                    self.outcome = Some(Ok(self.port.clone()));
                } else {
                    self.stage = UploadStage::SketchSleep;
                }
            },
            (UploadStage::SketchSleep, UploadEvent::Slept) => {
                self.stage = UploadStage::SketchClock;
            },
            _ => {},
        }
        self.pending()
    }

    /// How the upload ended, once it is over: with the port under which the
    /// device answers now, or with what went wrong.
    pub fn finish(self) -> (outcome: Option<Result<Port, Error>>)
        ensures
            match outcome {
                Some(Ok(port)) => self@.outcome == Some(Ok::<Seq<char>, ErrorModel>(port@)),
                Some(Err(error)) => self@.outcome == Some(Err::<Seq<char>, ErrorModel>(error@)),
                None => self@.outcome is None,
            },
    {
        self.outcome
    }
}

/// An upload is over exactly when it has an outcome, and then it asks for
/// nothing more.
pub proof fn lemma_upload_outcome(upload: UploadModel, event: UploadEventModel)
    requires
        upload.stage == UploadStage::Finished <==> upload.outcome is Some,
    ensures
        upload.next(event).stage == UploadStage::Finished <==> upload.next(event).outcome is Some,
        upload.stage == UploadStage::Finished ==> upload.next(event) == upload,
        upload.next(event).stage == UploadStage::Finished <==> upload.next(event).pending()
            == UploadActionModel::Done,
{
}

/// While the bootloader's port is looked for, the firmware is written to a
/// port of the list that was not attached before the reset, and before which
/// no other such port of the list comes by name; where the list has no such
/// port, the ports are looked at again after a pause. Once the time is up,
/// the firmware is written to the port of the device.
pub proof fn lemma_bootloader_port(upload: UploadModel, ports: Seq<Seq<char>>, now: u64)
    ensures
        upload.stage == UploadStage::BootPorts ==> match upload.next(
            UploadEventModel::Ports(ports),
        ).pending() {
            UploadActionModel::Flash(port) => {
                &&& least_new(upload.before, ports) == Some(port)
                &&& ports.contains(port)
                &&& !upload.before.contains(port)
                &&& forall|i: int|
                    0 <= i < ports.len() && !upload.before.contains(#[trigger] ports[i])
                        ==> !name_precedes(ports[i], port)
            },
            UploadActionModel::Sleep(pause) => {
                &&& pause == POLL_INTERVAL
                &&& forall|i: int|
                    0 <= i < ports.len() ==> upload.before.contains(#[trigger] ports[i])
            },
            _ => false,
        },
        upload.stage == UploadStage::BootClock && upload.target == upload.port && !within(
            upload.started,
            now,
            BOOTLOADER_WAIT,
        ) ==> upload.next(UploadEventModel::Clock(now)).pending() == UploadActionModel::Flash(
            upload.port,
        ),
{
    lemma_least_new(upload.before, ports);
}

} // verus!
