//! The wire protocol. A request is one line of JSON: an object with the name
//! of the command and its parameters. A response is one line too: a bare
//! whole number is an error ordinal, anything else is what the command
//! answers with.

use super::{DeviceInfo, DeviceInfoModel, Event, ResponseCode, SensorConfig};
use crate::error::{Error, ErrorModel};
use crate::json::{first_named, parse, parsed_json, render, rendered_json, Json, JsonModel};
use vstd::prelude::*;
use vstd::string::*;

verus! {

/// A field that holds a whole number.
fn number_field(name: &str, value: u64) -> (field: (String, Json))
    ensures
        field.0@ == name@,
        field.1@ == JsonModel::Integer(value as int),
{
    (name.to_owned(), Json::Unsigned(value))
}

/// A field that holds a truth value.
fn flag_field(name: &str, value: bool) -> (field: (String, Json))
    ensures
        field.0@ == name@,
        field.1@ == JsonModel::Bool(value),
{
    (name.to_owned(), Json::Bool(value))
}

/// A field that holds a text.
fn text_field(name: &str, value: &str) -> (field: (String, Json))
    ensures
        field.0@ == name@,
        field.1@ == JsonModel::Text(value@),
{
    (name.to_owned(), Json::Text(value.to_owned()))
}

/// A request to the device.
#[derive(Clone, Copy, Debug, PartialEq, Eq, Structural)]
pub enum Request {
    DeviceInfo,
    PollEvent,
    SensorValues { raw: bool },
    SetSensor { id: u8, config: SensorConfig },
    UnsetSensor { id: u8 },
}

impl Request {
    /// The name of the command.
    pub open spec fn command_name(self) -> Seq<char> {
        match self {
            Request::DeviceInfo => "device_info"@,
            Request::PollEvent => "poll_event"@,
            Request::SensorValues { .. } => "sensor_values"@,
            Request::SetSensor { .. } => "set_sensor"@,
            Request::UnsetSensor { .. } => "unset_sensor"@,
        }
    }

    /// The parameters of the command, each with its name.
    pub open spec fn parameters(self) -> Seq<(Seq<char>, JsonModel)> {
        match self {
            Request::DeviceInfo => seq![],
            Request::PollEvent => seq![],
            Request::SensorValues { raw } => seq![("raw"@, JsonModel::Bool(raw))],
            Request::SetSensor { id, config } => seq![
                ("id"@, JsonModel::Integer(id as int)),
                ("min"@, JsonModel::Integer(config.spec_range().0 as int)),
                ("max"@, JsonModel::Integer(config.spec_range().1 as int)),
                ("low"@, JsonModel::Integer(config.spec_thresholds().0 as int)),
                ("high"@, JsonModel::Integer(config.spec_thresholds().1 as int)),
            ],
            Request::UnsetSensor { id } => seq![("id"@, JsonModel::Integer(id as int))],
        }
    }

    /// The request as a document: the parameters, then the name of the
    /// command.
    pub open spec fn document(self) -> JsonModel {
        JsonModel::Object(
            self.parameters().push(("command"@, JsonModel::Text(self.command_name()))),
        )
    }

    /// The request as it is sent: the document on one line.
    pub open spec fn line(self) -> Seq<char> {
        rendered_json(self.document()).push('\n')
    }

    /// The name of the command.
    pub fn command(&self) -> (name: &'static str)
        ensures
            name@ == self.command_name(),
    {
        match self {
            Request::DeviceInfo => "device_info",
            Request::PollEvent => "poll_event",
            Request::SensorValues { .. } => "sensor_values",
            Request::SetSensor { .. } => "set_sensor",
            Request::UnsetSensor { .. } => "unset_sensor",
        }
    }

    /// The request as a document.
    pub fn to_json(&self) -> (document: Json)
        ensures
            document@ == self.document(),
            document@.exact(),
    {
        let mut fields: Vec<(String, Json)> = Vec::new();
        match self {
            Request::DeviceInfo => {},
            Request::PollEvent => {},
            Request::SensorValues { raw } => {
                fields.push(flag_field("raw", *raw));
            },
            Request::SetSensor { id, config } => {
                let (min, max) = config.range();
                let (low, high) = config.thresholds();
                fields.push(number_field("id", *id as u64));
                fields.push(number_field("min", min as u64));
                fields.push(number_field("max", max as u64));
                fields.push(number_field("low", low as u64));
                fields.push(number_field("high", high as u64));
            },
            Request::UnsetSensor { id } => {
                fields.push(number_field("id", *id as u64));
            },
        }
        fields.push(text_field("command", self.command()));
        let document = Json::Object(fields);
        proof {
            assert(document@->Object_0 =~= self.document()->Object_0);
            assert forall|i: int| 0 <= i < document@->Object_0.len() implies (
            #[trigger] document@->Object_0[i]).1.exact() by {}
        }
        document
    }

    /// The request as it is sent.
    pub fn to_line(&self) -> (text: String)
        ensures
            text@ == self.line(),
    {
        let document = self.to_json();
        let mut text = render(&document);
        text.push('\n');
        text
    }
}

/// Takes one byte of a response. A line feed ends the line; a carriage
/// return is left out; any other byte stands for the character with its
/// number. Says whether the line is complete.
pub fn push_byte(line: &mut String, byte: u8) -> (complete: bool)
    ensures
        complete == (byte == 10),
        final(line)@ == if byte == 10 || byte == 13 {
            old(line)@
        } else {
            old(line)@.push(byte as char)
        },
{
    if byte == 10 {
        true
    } else if byte == 13 {
        false
    } else {
        line.push(byte as char);
        false
    }
}

/// What a response line means for the command that it answers: the error
/// that it reports, or the document that it holds.
pub open spec fn reply_for(command: Seq<char>, document: Option<JsonModel>) -> Result<
    JsonModel,
    ErrorModel,
> {
    match document {
        None => Err(ErrorModel::MalformedResponse),
        Some(JsonModel::Integer(ordinal)) => match ResponseCode::with_ordinal(ordinal) {
            Some(code) => Err(ErrorModel::ArduinoResponse(command, code)),
            None => Err(ErrorModel::UnknownCode(ordinal)),
        },
        Some(other) => Ok(other),
    }
}

/// What the document of a response means for the command that it answers.
pub fn classify_reply(command: &str, document: Option<Json>) -> (reply: Result<Json, Error>)
    ensures
        match reply {
            Ok(answer) => reply_for(
                command@,
                match document {
                    Some(tree) => Some(tree@),
                    None => None,
                },
            ) == Ok::<JsonModel, ErrorModel>(answer@),
            Err(error) => reply_for(
                command@,
                match document {
                    Some(tree) => Some(tree@),
                    None => None,
                },
            ) == Err::<JsonModel, ErrorModel>(error@),
        },
{
    match document {
        None => Err(Error::MalformedResponse),
        Some(tree) => match tree.integer() {
            Some(ordinal) => {
                if 0 <= ordinal && ordinal < 6 {
                    match ResponseCode::from_code(ordinal as u64) {
                        Some(code) => Err(Error::ArduinoResponse(command.to_owned(), code)),
                        None => Err(Error::UnknownCode(ordinal)),
                    }
                } else {
                    Err(Error::UnknownCode(ordinal))
                }
            },
            None => Ok(tree),
        },
    }
}

/// What a response line means for the command that it answers.
pub fn decode_reply(command: &str, line: &str) -> (reply: Result<Json, Error>)
    ensures
        match reply {
            Ok(answer) => reply_for(command@, parsed_json(line@)) == Ok::<JsonModel, ErrorModel>(
                answer@,
            ),
            Err(error) => reply_for(command@, parsed_json(line@)) == Err::<JsonModel, ErrorModel>(
                error@,
            ),
        },
{
    classify_reply(command, parse(line))
}

/// The time stamp that a whole number stands for: the number itself where it
/// fits, and a number beyond the largest time stamp wrapped round.
pub open spec fn timestamp_of(number: int) -> Option<i64> {
    if i64::MIN <= number <= i64::MAX {
        Some(number as i64)
    } else if i64::MAX < number <= u64::MAX {
        Some((number - 0x1_0000_0000_0000_0000) as i64)
    } else {
        None
    }
}

/// What the answer to `device_info` holds: nothing where the device has
/// nothing to say, else an object with a `name`, a `version` and a
/// `timestamp`. Any other answer is refused.
pub open spec fn device_info_of(answer: JsonModel) -> Option<Option<DeviceInfoModel>> {
    if answer is Null {
        Some(None)
    } else {
        match (answer.field("name"@), answer.field("version"@), answer.field("timestamp"@)) {
            (
                Some(JsonModel::Text(name)),
                Some(JsonModel::Text(version)),
                Some(JsonModel::Integer(number)),
            ) => match timestamp_of(number) {
                Some(timestamp) => Some(Some(DeviceInfoModel { name, version, timestamp })),
                None => None,
            },
            _ => None,
        }
    }
}

/// What the answer to `device_info` holds.
pub fn device_info_from(answer: &Json) -> (result: Result<Option<DeviceInfo>, Error>)
    ensures
        match result {
            Ok(Some(info)) => device_info_of(answer@) == Some(Some(info@)),
            Ok(None) => device_info_of(answer@) == Some(None::<DeviceInfoModel>),
            Err(error) => device_info_of(answer@) is None && error@
                == ErrorModel::UnexpectedResponse,
        },
{
    if let Json::Null = answer {
        return Ok(None);
    }
    let name = match answer.field("name") {
        Some(Json::Text(name)) => name,
        _ => {
            return Err(Error::UnexpectedResponse);
        },
    };
    let version = match answer.field("version") {
        Some(Json::Text(version)) => version,
        _ => {
            return Err(Error::UnexpectedResponse);
        },
    };
    let number = match answer.field("timestamp") {
        Some(item) => match item.integer() {
            Some(number) => number,
            None => {
                return Err(Error::UnexpectedResponse);
            },
        },
        None => {
            return Err(Error::UnexpectedResponse);
        },
    };
    let timestamp: i64 = if number >= i64::MIN as i128 && number <= i64::MAX as i128 {
        number as i64
    } else if number > i64::MAX as i128 && number <= u64::MAX as i128 {
        (number - 0x1_0000_0000_0000_0000i128) as i64
    } else {
        return Err(Error::UnexpectedResponse);
    };
    Ok(Some(DeviceInfo::new(name.as_str(), version.as_str(), timestamp)))
}

/// What the answer to `poll_event` holds: nothing where no sensor changed,
/// else an object with one field, named `flexed` or `extended`, that holds
/// the id of the sensor. Any other answer is refused.
pub open spec fn event_of(answer: JsonModel) -> Option<Option<Event>> {
    match answer {
        JsonModel::Null => Some(None),
        JsonModel::Object(fields) => if fields.len() == 1 {
            match fields[0].1 {
                JsonModel::Integer(id) => if 0 <= id <= u8::MAX {
                    if fields[0].0 == "flexed"@ {
                        Some(Some(Event::SensorFlexed(id as u8)))
                    } else if fields[0].0 == "extended"@ {
                        Some(Some(Event::SensorExtended(id as u8)))
                    } else {
                        None
                    }
                } else {
                    None
                },
                _ => None,
            }
        } else {
            None
        },
        _ => None,
    }
}

/// What the answer to `poll_event` holds.
pub fn event_from(answer: &Json) -> (result: Result<Option<Event>, Error>)
    ensures
        match result {
            Ok(event) => event_of(answer@) == Some(event),
            Err(error) => event_of(answer@) is None && error@ == ErrorModel::UnexpectedResponse,
        },
{
    match answer {
        Json::Null => Ok(None),
        Json::Object(fields) => {
            if fields.len() != 1 {
                return Err(Error::UnexpectedResponse);
            }
            assert(answer@->Object_0[0] == (fields@[0].0@, fields@[0].1@));
            let id = match fields[0].1.integer() {
                Some(id) => id,
                None => {
                    return Err(Error::UnexpectedResponse);
                },
            };
            if id < 0 || id > 255 {
                return Err(Error::UnexpectedResponse);
            }
            if crate::text::same_text(fields[0].0.as_str(), "flexed") {
                Ok(Some(Event::SensorFlexed(id as u8)))
            } else if crate::text::same_text(fields[0].0.as_str(), "extended") {
                Ok(Some(Event::SensorExtended(id as u8)))
            } else {
                Err(Error::UnexpectedResponse)
            }
        },
        _ => Err(Error::UnexpectedResponse),
    }
}

/// The reading that one item of the answer to `sensor_values` holds:
/// nothing for a sensor that is not configured, else a whole number of
/// sixteen bits.
pub open spec fn reading_of(item: JsonModel) -> Option<Option<u16>> {
    match item {
        JsonModel::Null => Some(None),
        JsonModel::Integer(value) => if 0 <= value <= u16::MAX {
            Some(Some(value as u16))
        } else {
            None
        },
        _ => None,
    }
}

/// What the answer to `sensor_values` holds: a list of readings, one for
/// each sensor. Any other answer is refused.
pub open spec fn sensor_values_of(answer: JsonModel) -> Option<Seq<Option<u16>>> {
    match answer {
        JsonModel::List(items) => if forall|i: int|
            0 <= i < items.len() ==> reading_of(#[trigger] items[i]) is Some {
            Some(Seq::new(items.len(), |i: int| reading_of(items[i])->0))
        } else {
            None
        },
        _ => None,
    }
}

/// What the answer to `sensor_values` holds.
pub fn sensor_values_from(answer: &Json) -> (result: Result<Vec<Option<u16>>, Error>)
    ensures
        match result {
            Ok(values) => sensor_values_of(answer@) == Some(values@),
            Err(error) => sensor_values_of(answer@) is None && error@
                == ErrorModel::UnexpectedResponse,
        },
{
    match answer {
        Json::List(items) => {
            let ghost all = answer@->List_0;
            let mut values: Vec<Option<u16>> = Vec::new();
            let mut i: usize = 0;
            while i < items.len()
                invariant
                    i <= items@.len(),
                    answer@ == JsonModel::List(all),
                    all.len() == items@.len(),
                    forall|k: int| 0 <= k < all.len() ==> #[trigger] all[k] == items@[k]@,
                    values@.len() == i,
                    forall|k: int|
                        0 <= k < i ==> reading_of(#[trigger] all[k]) == Some(values@[k]),
                decreases items@.len() - i,
            {
                let reading = match &items[i] {
                    Json::Null => None,
                    item => match item.integer() {
                        Some(value) => {
                            if value < 0 || value > 65535 {
                                assert(reading_of(all[i as int]) is None);
                                return Err(Error::UnexpectedResponse);
                            }
                            Some(value as u16)
                        },
                        None => {
                            assert(reading_of(all[i as int]) is None);
                            return Err(Error::UnexpectedResponse);
                        },
                    },
                };
                assert(reading_of(all[i as int]) == Some(reading));
                values.push(reading);
                i += 1;
            }
            assert(values@ =~= Seq::new(all.len(), |i: int| reading_of(all[i])->0));
            Ok(values)
        },
        _ => Err(Error::UnexpectedResponse),
    }
}

/// What the answer to a command that answers with nothing holds: nothing.
/// Any other answer is refused.
pub fn done_from(answer: &Json) -> (result: Result<(), Error>)
    ensures
        result is Ok <==> answer@ is Null,
        result matches Err(error) ==> error@ == ErrorModel::UnexpectedResponse,
{
    match answer {
        Json::Null => Ok(()),
        _ => Err(Error::UnexpectedResponse),
    }
}

/// Whether the device is the one that the host expects. A device that has
/// nothing to say of itself is taken to be; one that cannot be asked is not.
pub open spec fn verification_of(
    expected: DeviceInfoModel,
    reply: Result<Option<DeviceInfoModel>, ErrorModel>,
) -> Result<(), ErrorModel> {
    match reply {
        Err(_) => Err(ErrorModel::ArduinoVerification(None)),
        Ok(None) => Ok(()),
        Ok(Some(info)) => if info == expected {
            Ok(())
        } else {
            Err(ErrorModel::ArduinoVerification(Some("Device information does not match"@)))
        },
    }
}

/// Whether the device is the one that the host expects, given what it
/// answered to `device_info`.
pub fn verify(expected: &DeviceInfo, reply: &Result<Option<DeviceInfo>, Error>) -> (result: Result<
    (),
    Error,
>)
    ensures
        match result {
            Ok(()) => verification_of(
                expected@,
                match reply {
                    Ok(Some(info)) => Ok(Some(info@)),
                    Ok(None) => Ok(None),
                    Err(error) => Err(error@),
                },
            ) is Ok,
            Err(error) => verification_of(
                expected@,
                match reply {
                    Ok(Some(info)) => Ok(Some(info@)),
                    Ok(None) => Ok(None),
                    Err(error) => Err(error@),
                },
            ) == Err::<(), ErrorModel>(error@),
        },
{
    match reply {
        Err(_) => Err(Error::ArduinoVerification(None)),
        Ok(None) => Ok(()),
        Ok(Some(info)) => {
            if info.matches(expected) {
                Ok(())
            } else {
                Err(
                    Error::ArduinoVerification(
                        Some("Device information does not match".to_owned()),
                    ),
                )
            }
        },
    }
}

} // verus!
