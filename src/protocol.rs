//! The agent/server message protocol.
//!
//! A message travels as a flat, tag-discriminated object: a `"type"` field that
//! names the variant, then one field per variant field. This module maps each
//! message to that list of fields and back; turning the list into JSON text is
//! the transport's job.
use vstd::prelude::*;

verus! {

/// One value of a wire object.
#[derive(Clone, Debug, PartialEq, Eq)]
pub enum WireValue {
    Null,
    Bool(bool),
    Int(i64),
    Str(String),
    /// A nested JSON value (object or array), carried as its JSON text.
    Raw(String),
}

/// One `key: value` entry of a wire object.
#[derive(Clone, Debug, PartialEq, Eq)]
pub struct WireField {
    pub key: String,
    pub value: WireValue,
}

pub enum ValueModel {
    Null,
    Bool(bool),
    Int(int),
    Str(Seq<char>),
    Raw(Seq<char>),
}

impl View for WireValue {
    type V = ValueModel;

    open spec fn view(&self) -> ValueModel {
        match self {
            WireValue::Null => ValueModel::Null,
            WireValue::Bool(b) => ValueModel::Bool(*b),
            WireValue::Int(i) => ValueModel::Int(*i as int),
            WireValue::Str(s) => ValueModel::Str(s@),
            WireValue::Raw(s) => ValueModel::Raw(s@),
        }
    }
}

impl View for WireField {
    type V = (Seq<char>, ValueModel);

    open spec fn view(&self) -> (Seq<char>, ValueModel) {
        (self.key@, self.value@)
    }
}

pub open spec fn fields_view(v: Seq<WireField>) -> Seq<(Seq<char>, ValueModel)> {
    v.map_values(|f: WireField| f@)
}

/// A protocol message, as exchanged between an agent and the server.
#[derive(Clone, Debug, PartialEq, Eq)]
pub enum WsMessage {
    Auth { token: String },
    /// `info` holds the JSON text of the agent's free-form description.
    DeviceInfo { device_id: String, info: String },
    Command { id: String, command: String, sudo: bool },
    CommandResult { id: String, success: bool, output: String, error: Option<String> },
    Log { device_id: String, level: String, message: String, data: Option<String> },
    Heartbeat { device_id: String, timestamp: i64 },
    Error { code: String, message: String },
}

pub enum MsgModel {
    Auth { token: Seq<char> },
    DeviceInfo { device_id: Seq<char>, info: Seq<char> },
    Command { id: Seq<char>, command: Seq<char>, sudo: bool },
    CommandResult { id: Seq<char>, success: bool, output: Seq<char>, error: Option<Seq<char>> },
    Log { device_id: Seq<char>, level: Seq<char>, message: Seq<char>, data: Option<Seq<char>> },
    Heartbeat { device_id: Seq<char>, timestamp: i64 },
    Error { code: Seq<char>, message: Seq<char> },
}

pub open spec fn opt_view(o: Option<String>) -> Option<Seq<char>> {
    match o {
        Some(s) => Some(s@),
        None => None,
    }
}

impl View for WsMessage {
    type V = MsgModel;

    open spec fn view(&self) -> MsgModel {
        match self {
            WsMessage::Auth { token } => MsgModel::Auth { token: token@ },
            WsMessage::DeviceInfo { device_id, info } => MsgModel::DeviceInfo {
                device_id: device_id@,
                info: info@,
            },
            WsMessage::Command { id, command, sudo } => MsgModel::Command {
                id: id@,
                command: command@,
                sudo: *sudo,
            },
            WsMessage::CommandResult { id, success, output, error } => MsgModel::CommandResult {
                id: id@,
                success: *success,
                output: output@,
                error: opt_view(*error),
            },
            WsMessage::Log { device_id, level, message, data } => MsgModel::Log {
                device_id: device_id@,
                level: level@,
                message: message@,
                data: opt_view(*data),
            },
            WsMessage::Heartbeat { device_id, timestamp } => MsgModel::Heartbeat {
                device_id: device_id@,
                timestamp: *timestamp,
            },
            WsMessage::Error { code, message } => MsgModel::Error {
                code: code@,
                message: message@,
            },
        }
    }
}

/// Why a wire object is not a valid message.
#[derive(PartialEq, Eq, Structural, Clone, Copy, Debug)]
pub enum ProtocolError {
    /// There is no `"type"` field, or it is not a string.
    MissingTag,
    /// The `"type"` field names no known variant.
    UnknownTag,
    /// A field that the variant requires is absent.
    MissingField,
    /// A field holds a value of the wrong kind.
    WrongFieldType,
}

pub type Fields = Seq<(Seq<char>, ValueModel)>;

pub open spec fn str_field(k: &str, s: Seq<char>) -> (Seq<char>, ValueModel) {
    (k@, ValueModel::Str(s))
}

pub open spec fn opt_field(k: &str, o: Option<Seq<char>>) -> (Seq<char>, ValueModel) {
    match o {
        Some(s) => (k@, ValueModel::Str(s)),
        None => (k@, ValueModel::Null),
    }
}

/// The wire object of a message: its tag first, then its fields in declaration order.
pub open spec fn encode_model(m: MsgModel) -> Fields {
    match m {
        MsgModel::Auth { token } => seq![str_field("type", "auth"@), str_field("token", token)],
        MsgModel::DeviceInfo { device_id, info } => seq![
            str_field("type", "device_info"@),
            str_field("device_id", device_id),
            ("info"@, ValueModel::Raw(info)),
        ],
        MsgModel::Command { id, command, sudo } => seq![
            str_field("type", "command"@),
            str_field("id", id),
            str_field("command", command),
            ("sudo"@, ValueModel::Bool(sudo)),
        ],
        MsgModel::CommandResult { id, success, output, error } => seq![
            str_field("type", "command_result"@),
            str_field("id", id),
            ("success"@, ValueModel::Bool(success)),
            str_field("output", output),
            opt_field("error", error),
        ],
        MsgModel::Log { device_id, level, message, data } => seq![
            str_field("type", "log"@),
            str_field("device_id", device_id),
            str_field("level", level),
            str_field("message", message),
            opt_field("data", data),
        ],
        MsgModel::Heartbeat { device_id, timestamp } => seq![
            str_field("type", "heartbeat"@),
            str_field("device_id", device_id),
            ("timestamp"@, ValueModel::Int(timestamp as int)),
        ],
        MsgModel::Error { code, message } => seq![
            str_field("type", "error"@),
            str_field("code", code),
            str_field("message", message),
        ],
    }
}

/// The value of the first field named `k` at position `i` or later, if any.
pub open spec fn lookup_from(fs: Fields, k: Seq<char>, i: int) -> Option<ValueModel>
    decreases fs.len() - i,
{
    if i < 0 || i >= fs.len() {
        None
    } else if fs[i].0 == k {
        Some(fs[i].1)
    } else {
        lookup_from(fs, k, i + 1)
    }
}

/// The value of the first field named `k`, if any.
pub open spec fn lookup(fs: Fields, k: Seq<char>) -> Option<ValueModel> {
    lookup_from(fs, k, 0)
}

pub open spec fn str_of(fs: Fields, k: &str) -> Result<Seq<char>, ProtocolError> {
    match lookup(fs, k@) {
        Some(ValueModel::Str(s)) => Ok(s),
        Some(_) => Err(ProtocolError::WrongFieldType),
        None => Err(ProtocolError::MissingField),
    }
}

/// The JSON text of a value that is not already carried as JSON text.
pub uninterp spec fn json_text_of(v: ValueModel) -> Seq<char>;

/// A free-form field as JSON text: nested values as they came, any other value
/// written out as JSON.
pub open spec fn raw_of(fs: Fields, k: &str) -> Result<Seq<char>, ProtocolError> {
    match lookup(fs, k@) {
        Some(ValueModel::Raw(s)) => Ok(s),
        Some(v) => Ok(json_text_of(v)),
        None => Err(ProtocolError::MissingField),
    }
}

pub open spec fn bool_of(fs: Fields, k: &str) -> Result<bool, ProtocolError> {
    match lookup(fs, k@) {
        Some(ValueModel::Bool(b)) => Ok(b),
        Some(_) => Err(ProtocolError::WrongFieldType),
        None => Err(ProtocolError::MissingField),
    }
}

pub open spec fn int_of(fs: Fields, k: &str) -> Result<i64, ProtocolError> {
    match lookup(fs, k@) {
        Some(ValueModel::Int(i)) => if i64::MIN <= i <= i64::MAX {
            Ok(i as i64)
        } else {
            Err(ProtocolError::WrongFieldType)
        },
        Some(_) => Err(ProtocolError::WrongFieldType),
        None => Err(ProtocolError::MissingField),
    }
}

/// An optional string field: absent or null is `None`.
pub open spec fn opt_str_of(fs: Fields, k: &str) -> Result<Option<Seq<char>>, ProtocolError> {
    match lookup(fs, k@) {
        Some(ValueModel::Str(s)) => Ok(Some(s)),
        Some(ValueModel::Null) => Ok(None),
        Some(_) => Err(ProtocolError::WrongFieldType),
        None => Ok(None),
    }
}

/// The message that a wire object denotes. Fields are checked in declaration
/// order and the first failing one decides the error.
pub open spec fn decode_model(fs: Fields) -> Result<MsgModel, ProtocolError> {
    match lookup(fs, "type"@) {
        Some(ValueModel::Str(tag)) => if tag == "auth"@ {
            match str_of(fs, "token") {
                Ok(token) => Ok(MsgModel::Auth { token }),
                Err(e) => Err(e),
            }
        } else if tag == "device_info"@ {
            match (str_of(fs, "device_id"), raw_of(fs, "info")) {
                (Err(e), _) => Err(e),
                (Ok(_), Err(e)) => Err(e),
                (Ok(device_id), Ok(info)) => Ok(MsgModel::DeviceInfo { device_id, info }),
            }
        } else if tag == "command"@ {
            match (str_of(fs, "id"), str_of(fs, "command"), bool_of(fs, "sudo")) {
                (Err(e), _, _) => Err(e),
                (Ok(_), Err(e), _) => Err(e),
                (Ok(_), Ok(_), Err(e)) => Err(e),
                (Ok(id), Ok(command), Ok(sudo)) => Ok(MsgModel::Command { id, command, sudo }),
            }
        } else if tag == "command_result"@ {
            match (str_of(fs, "id"), bool_of(fs, "success"), str_of(fs, "output"), opt_str_of(fs, "error")) {
                (Err(e), _, _, _) => Err(e),
                (Ok(_), Err(e), _, _) => Err(e),
                (Ok(_), Ok(_), Err(e), _) => Err(e),
                (Ok(_), Ok(_), Ok(_), Err(e)) => Err(e),
                (Ok(id), Ok(success), Ok(output), Ok(error)) => Ok(
                    MsgModel::CommandResult { id, success, output, error },
                ),
            }
        } else if tag == "log"@ {
            match (str_of(fs, "device_id"), str_of(fs, "level"), str_of(fs, "message"), opt_str_of(fs, "data")) {
                (Err(e), _, _, _) => Err(e),
                (Ok(_), Err(e), _, _) => Err(e),
                (Ok(_), Ok(_), Err(e), _) => Err(e),
                (Ok(_), Ok(_), Ok(_), Err(e)) => Err(e),
                (Ok(device_id), Ok(level), Ok(message), Ok(data)) => Ok(
                    MsgModel::Log { device_id, level, message, data },
                ),
            }
        } else if tag == "heartbeat"@ {
            match (str_of(fs, "device_id"), int_of(fs, "timestamp")) {
                (Err(e), _) => Err(e),
                (Ok(_), Err(e)) => Err(e),
                (Ok(device_id), Ok(timestamp)) => Ok(MsgModel::Heartbeat { device_id, timestamp }),
            }
        } else if tag == "error"@ {
            match (str_of(fs, "code"), str_of(fs, "message")) {
                (Err(e), _) => Err(e),
                (Ok(_), Err(e)) => Err(e),
                (Ok(code), Ok(message)) => Ok(MsgModel::Error { code, message }),
            }
        } else {
            Err(ProtocolError::UnknownTag)
        },
        _ => Err(ProtocolError::MissingTag),
    }
}

/// Decoding the wire object of any message gives that message back.
pub proof fn lemma_round_trip(m: MsgModel)
    ensures
        decode_model(encode_model(m)) == Ok::<MsgModel, ProtocolError>(m),
{
    reveal_strlit("type");
    reveal_strlit("auth");
    reveal_strlit("token");
    reveal_strlit("device_info");
    reveal_strlit("device_id");
    reveal_strlit("info");
    reveal_strlit("command");
    reveal_strlit("id");
    reveal_strlit("sudo");
    reveal_strlit("command_result");
    reveal_strlit("success");
    reveal_strlit("output");
    reveal_strlit("error");
    reveal_strlit("log");
    reveal_strlit("level");
    reveal_strlit("message");
    reveal_strlit("data");
    reveal_strlit("heartbeat");
    reveal_strlit("timestamp");
    reveal_strlit("code");
    let fs = encode_model(m);
    assert("auth"@.len() == 4);
    assert("device_info"@.len() == 11);
    assert("command"@.len() == 7);
    assert("command_result"@.len() == 14);
    assert("log"@.len() == 3);
    assert("heartbeat"@.len() == 9);
    assert("error"@.len() == 5);
    reveal_with_fuel(lookup_from, 6);
    match m {
        MsgModel::Auth { .. } => {
            assert(fs[0].0 == "type"@);
            assert(fs[1].0 == "token"@);
            assert("type"@ != "token"@);
        },
        MsgModel::DeviceInfo { .. } => {
            assert("device_info"@ != "auth"@);
            assert(fs[0].0 == "type"@);
            assert(fs[1].0 == "device_id"@);
            assert(fs[2].0 == "info"@);
            assert("type"@ != "device_id"@);
            assert("type"@[0] != "info"@[0]);
            assert("type"@ != "info"@);
            assert("device_id"@ != "info"@);
        },
        MsgModel::Command { .. } => {
            assert("command"@ != "auth"@);
            assert("command"@ != "device_info"@);
            assert(fs[0].0 == "type"@);
            assert(fs[1].0 == "id"@);
            assert(fs[2].0 == "command"@);
            assert(fs[3].0 == "sudo"@);
            assert("type"@ != "id"@);
            assert("type"@ != "command"@);
            assert("type"@[0] != "sudo"@[0]);
            assert("type"@ != "sudo"@);
            assert("id"@ != "command"@);
            assert("id"@ != "sudo"@);
            assert("command"@ != "sudo"@);
        },
        MsgModel::CommandResult { .. } => {
            assert("command_result"@ != "auth"@);
            assert("command_result"@ != "device_info"@);
            assert("command_result"@ != "command"@);
            assert(fs[0].0 == "type"@);
            assert(fs[1].0 == "id"@);
            assert(fs[2].0 == "success"@);
            assert(fs[3].0 == "output"@);
            assert(fs[4].0 == "error"@);
            assert("type"@ != "id"@);
            assert("type"@ != "success"@);
            assert("type"@ != "output"@);
            assert("type"@ != "error"@);
            assert("id"@ != "success"@);
            assert("id"@ != "output"@);
            assert("id"@ != "error"@);
            assert("success"@ != "output"@);
            assert("success"@ != "error"@);
            assert("output"@ != "error"@);
        },
        MsgModel::Log { .. } => {
            assert("log"@ != "auth"@);
            assert("log"@ != "device_info"@);
            assert("log"@ != "command"@);
            assert("log"@ != "command_result"@);
            assert(fs[0].0 == "type"@);
            assert(fs[1].0 == "device_id"@);
            assert(fs[2].0 == "level"@);
            assert(fs[3].0 == "message"@);
            assert(fs[4].0 == "data"@);
            assert("type"@ != "device_id"@);
            assert("type"@ != "level"@);
            assert("type"@ != "message"@);
            assert("type"@[0] != "data"@[0]);
            assert("type"@ != "data"@);
            assert("device_id"@ != "level"@);
            assert("device_id"@ != "message"@);
            assert("device_id"@ != "data"@);
            assert("level"@ != "message"@);
            assert("level"@ != "data"@);
            assert("message"@ != "data"@);
        },
        MsgModel::Heartbeat { .. } => {
            assert("heartbeat"@ != "auth"@);
            assert("heartbeat"@ != "device_info"@);
            assert("heartbeat"@ != "command"@);
            assert("heartbeat"@ != "command_result"@);
            assert("heartbeat"@ != "log"@);
            assert(fs[0].0 == "type"@);
            assert(fs[1].0 == "device_id"@);
            assert(fs[2].0 == "timestamp"@);
            assert("type"@ != "device_id"@);
            assert("type"@ != "timestamp"@);
            assert("device_id"@[0] != "timestamp"@[0]);
            assert("device_id"@ != "timestamp"@);
        },
        MsgModel::Error { .. } => {
            assert("error"@ != "auth"@);
            assert("error"@ != "device_info"@);
            assert("error"@ != "command"@);
            assert("error"@ != "command_result"@);
            assert("error"@ != "log"@);
            assert("error"@ != "heartbeat"@);
            assert(fs[0].0 == "type"@);
            assert(fs[1].0 == "code"@);
            assert(fs[2].0 == "message"@);
            assert("type"@[0] != "code"@[0]);
            assert("type"@ != "code"@);
            assert("type"@ != "message"@);
            assert("code"@ != "message"@);
        },
    }
}


fn text_is(a: &String, b: &str) -> (r: bool)
    ensures
        r == (a@ == b@),
{
    let t = b.to_owned();
    *a == t
}

fn str_value(s: &String) -> (r: WireValue)
    ensures
        r@ == ValueModel::Str(s@),
{
    WireValue::Str(s.clone())
}

fn opt_value(o: &Option<String>) -> (r: WireValue)
    ensures
        r@ == (match opt_view(*o) {
            Some(s) => ValueModel::Str(s),
            None => ValueModel::Null,
        }),
{
    match o {
        Some(s) => WireValue::Str(s.clone()),
        None => WireValue::Null,
    }
}

fn field(k: &str, value: WireValue) -> (r: WireField)
    ensures
        r@ == (k@, value@),
{
    WireField { key: k.to_owned(), value }
}

/// The wire object of a message.
pub fn encode(m: &WsMessage) -> (r: Vec<WireField>)
    ensures
        fields_view(r@) == encode_model(m@),
{
    let r = match m {
        WsMessage::Auth { token } => vec![
            field("type", WireValue::Str("auth".to_owned())),
            field("token", str_value(token)),
        ],
        WsMessage::DeviceInfo { device_id, info } => vec![
            field("type", WireValue::Str("device_info".to_owned())),
            field("device_id", str_value(device_id)),
            field("info", WireValue::Raw(info.clone())),
        ],
        WsMessage::Command { id, command, sudo } => vec![
            field("type", WireValue::Str("command".to_owned())),
            field("id", str_value(id)),
            field("command", str_value(command)),
            field("sudo", WireValue::Bool(*sudo)),
        ],
        WsMessage::CommandResult { id, success, output, error } => vec![
            field("type", WireValue::Str("command_result".to_owned())),
            field("id", str_value(id)),
            field("success", WireValue::Bool(*success)),
            field("output", str_value(output)),
            field("error", opt_value(error)),
        ],
        WsMessage::Log { device_id, level, message, data } => vec![
            field("type", WireValue::Str("log".to_owned())),
            field("device_id", str_value(device_id)),
            field("level", str_value(level)),
            field("message", str_value(message)),
            field("data", opt_value(data)),
        ],
        WsMessage::Heartbeat { device_id, timestamp } => vec![
            field("type", WireValue::Str("heartbeat".to_owned())),
            field("device_id", str_value(device_id)),
            field("timestamp", WireValue::Int(*timestamp)),
        ],
        WsMessage::Error { code, message } => vec![
            field("type", WireValue::Str("error".to_owned())),
            field("code", str_value(code)),
            field("message", str_value(message)),
        ],
    };
    assert(fields_view(r@) =~= encode_model(m@));
    r
}

/// The value of the first field named `key`.
fn find_field<'a>(fields: &'a Vec<WireField>, key: &str) -> (r: Option<&'a WireValue>)
    ensures
        match r {
            Some(v) => lookup(fields_view(fields@), key@) == Some(v@),
            None => lookup(fields_view(fields@), key@) == None::<ValueModel>,
        },
{
    let ghost fs = fields_view(fields@);
    let mut i: usize = 0;
    while i < fields.len()
        invariant
            i <= fields.len(),
            fs == fields_view(fields@),
            lookup(fs, key@) == lookup_from(fs, key@, i as int),
        decreases fields.len() - i,
    {
        if text_is(&fields[i].key, key) {
            return Some(&fields[i].value);
        }
        i = i + 1;
    }
    None
}

fn get_str(fields: &Vec<WireField>, key: &str) -> (r: Result<String, ProtocolError>)
    ensures
        match r {
            Ok(s) => str_of(fields_view(fields@), key) == Ok::<_, ProtocolError>(s@),
            Err(e) => str_of(fields_view(fields@), key) == Err::<Seq<char>, _>(e),
        },
{
    match find_field(fields, key) {
        Some(WireValue::Str(s)) => Ok(s.clone()),
        Some(_) => Err(ProtocolError::WrongFieldType),
        None => Err(ProtocolError::MissingField),
    }
}

/// Relies on serde_json's `Display` for `Value`: the compact JSON text of a
/// null, boolean, integer or string value.
#[verifier::external_body]
fn json_text(v: &WireValue) -> (r: String)
    ensures
        r@ == json_text_of(v@),
{
    let value = match v {
        WireValue::Null => serde_json::Value::Null,
        WireValue::Bool(b) => serde_json::Value::Bool(*b),
        WireValue::Int(i) => serde_json::Value::from(*i),
        WireValue::Str(s) => serde_json::Value::String(s.clone()),
        WireValue::Raw(s) => serde_json::Value::String(s.clone()),
    };
    value.to_string()
}

fn get_raw(fields: &Vec<WireField>, key: &str) -> (r: Result<String, ProtocolError>)
    ensures
        match r {
            Ok(s) => raw_of(fields_view(fields@), key) == Ok::<_, ProtocolError>(s@),
            Err(e) => raw_of(fields_view(fields@), key) == Err::<Seq<char>, _>(e),
        },
{
    match find_field(fields, key) {
        Some(WireValue::Raw(s)) => Ok(s.clone()),
        Some(v) => Ok(json_text(v)),
        None => Err(ProtocolError::MissingField),
    }
}

fn get_bool(fields: &Vec<WireField>, key: &str) -> (r: Result<bool, ProtocolError>)
    ensures
        r == bool_of(fields_view(fields@), key),
{
    match find_field(fields, key) {
        Some(WireValue::Bool(b)) => Ok(*b),
        Some(_) => Err(ProtocolError::WrongFieldType),
        None => Err(ProtocolError::MissingField),
    }
}

fn get_int(fields: &Vec<WireField>, key: &str) -> (r: Result<i64, ProtocolError>)
    ensures
        r == int_of(fields_view(fields@), key),
{
    match find_field(fields, key) {
        Some(WireValue::Int(i)) => Ok(*i),
        Some(_) => Err(ProtocolError::WrongFieldType),
        None => Err(ProtocolError::MissingField),
    }
}

fn get_opt_str(fields: &Vec<WireField>, key: &str) -> (r: Result<Option<String>, ProtocolError>)
    ensures
        match r {
            Ok(o) => opt_str_of(fields_view(fields@), key) == Ok::<_, ProtocolError>(opt_view(o)),
            Err(e) => opt_str_of(fields_view(fields@), key) == Err::<Option<Seq<char>>, _>(e),
        },
{
    match find_field(fields, key) {
        Some(WireValue::Str(s)) => Ok(Some(s.clone())),
        Some(WireValue::Null) => Ok(None),
        Some(_) => Err(ProtocolError::WrongFieldType),
        None => Ok(None),
    }
}

/// The message that a wire object denotes, or why it denotes none.
pub fn decode(fields: &Vec<WireField>) -> (r: Result<WsMessage, ProtocolError>)
    ensures
        match r {
            Ok(m) => decode_model(fields_view(fields@)) == Ok::<_, ProtocolError>(m@),
            Err(e) => decode_model(fields_view(fields@)) == Err::<MsgModel, _>(e),
        },
{
    let tag = match find_field(fields, "type") {
        Some(WireValue::Str(t)) => t,
        _ => return Err(ProtocolError::MissingTag),
    };
    if text_is(tag, "auth") {
        let token = get_str(fields, "token")?;
        Ok(WsMessage::Auth { token })
    } else if text_is(tag, "device_info") {
        let device_id = get_str(fields, "device_id")?;
        let info = get_raw(fields, "info")?;
        Ok(WsMessage::DeviceInfo { device_id, info })
    } else if text_is(tag, "command") {
        let id = get_str(fields, "id")?;
        let command = get_str(fields, "command")?;
        let sudo = get_bool(fields, "sudo")?;
        Ok(WsMessage::Command { id, command, sudo })
    } else if text_is(tag, "command_result") {
        let id = get_str(fields, "id")?;
        let success = get_bool(fields, "success")?;
        let output = get_str(fields, "output")?;
        let error = get_opt_str(fields, "error")?;
        Ok(WsMessage::CommandResult { id, success, output, error })
    } else if text_is(tag, "log") {
        let device_id = get_str(fields, "device_id")?;
        let level = get_str(fields, "level")?;
        let message = get_str(fields, "message")?;
        let data = get_opt_str(fields, "data")?;
        Ok(WsMessage::Log { device_id, level, message, data })
    } else if text_is(tag, "heartbeat") {
        let device_id = get_str(fields, "device_id")?;
        let timestamp = get_int(fields, "timestamp")?;
        Ok(WsMessage::Heartbeat { device_id, timestamp })
    } else if text_is(tag, "error") {
        let code = get_str(fields, "code")?;
        let message = get_str(fields, "message")?;
        Ok(WsMessage::Error { code, message })
    } else {
        Err(ProtocolError::UnknownTag)
    }
}

/// Encoding a message and decoding the result gives back the same message.
pub proof fn lemma_decode_encode(m: WsMessage, fields: Vec<WireField>)
    requires
        fields_view(fields@) == encode_model(m@),
    ensures
        decode_model(fields_view(fields@)) == Ok::<MsgModel, ProtocolError>(m@),
{
    lemma_round_trip(m@);
}

} // verus!
