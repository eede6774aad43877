//! The record codec: how a command is written to a log and read back.
//!
//! A record is one JSON object, `{"Set":{"key":"k","value":"v"}}` or
//! `{"Remove":{"key":"k"}}`, written without any whitespace. Records follow
//! one another in a log with nothing between them; white space in front of a
//! record is skipped when it is read. The string members are written and read
//! by `serde_json`; the object around them is framed here.

use crate::error::KvsError;
use crate::frame::{
    frame_of, frame_remove, frame_set, lemma_frame_bounds, lemma_frame_prefix,
    lemma_skip_space_bounds, remove_frame, same_prefix, scan_frame, set_frame, skip_space, Frame,
};
use vstd::prelude::*;
use vstd::slice::slice_subrange;
use vstd::string::StringExecFns;

verus! {

/// A command as it is handed to the store.
#[derive(Debug)]
pub enum Command {
    /// Binds `value` to `key`; written with the tag `Set`.
    Put { key: String, value: String },
    /// Drops `key`; written with the tag `Remove`.
    Remove { key: String },
}

/// What a command says, with its strings as sequences of characters.
pub enum Record {
    Put { key: Seq<char>, value: Seq<char> },
    Remove { key: Seq<char> },
}

impl View for Command {
    type V = Record;

    open spec fn view(&self) -> Record {
        match self {
            Command::Put { key, value } => Record::Put { key: key@, value: value@ },
            Command::Remove { key } => Record::Remove { key: key@ },
        }
    }
}

impl Record {
    /// The key that the record is about.
    pub open spec fn key(self) -> Seq<char> {
        match self {
            Record::Put { key, .. } => key,
            Record::Remove { key } => key,
        }
    }
}

/// `serde_json::Error`, of which nothing is known but its words.
#[verifier::external_type_specification]
#[verifier::external_body]
pub struct ExJsonError(serde_json::Error);

/// The JSON text that `serde_json::to_vec` writes for a string, if it writes
/// one.
pub uninterp spec fn json_string_text(s: Seq<char>) -> Option<Seq<u8>>;

/// The string that `serde_json::from_slice` reads from a JSON text, if it
/// reads one.
pub uninterp spec fn json_string_value(text: Seq<u8>) -> Option<Seq<char>>;

/// `serde_json::to_vec` on a string: the JSON text of the string, the same
/// for the same characters.
#[verifier::external_body]
fn json_text_of(s: &str) -> (r: core::result::Result<Vec<u8>, serde_json::Error>)
    ensures
        r matches Ok(text) ==> json_string_text(s@) == Some(text@),
        r is Err ==> json_string_text(s@) is None,
{
    serde_json::to_vec(s)
}

/// `serde_json::from_slice` for a `String`: the string that the JSON text
/// spells, the same for the same bytes.
#[verifier::external_body]
fn json_value_of(text: &[u8]) -> (r: core::result::Result<String, serde_json::Error>)
    ensures
        r matches Ok(s) ==> json_string_value(text@) == Some(s@),
        r is Err ==> json_string_value(text@) is None,
{
    serde_json::from_slice::<String>(text)
}

/// The words of a `serde_json::Error`, as its `Display` writes them.
#[verifier::external_body]
fn json_error_text(e: &serde_json::Error) -> String {
    e.to_string()
}

/// The record that the parts `f` of `s` spell.
pub open spec fn record_of(s: Seq<u8>, f: Frame) -> Option<Record> {
    let key = json_string_value(s.subrange(f.key.0, f.key.1));
    let value = json_string_value(s.subrange(f.value.0, f.value.1));
    if f.put {
        if key is Some && value is Some {
            Some(Record::Put { key: key->0, value: value->0 })
        } else {
            None
        }
    } else {
        if key is Some {
            Some(Record::Remove { key: key->0 })
        } else {
            None
        }
    }
}

/// The first record of `s` and the index after its last byte.
pub open spec fn decode_record(s: Seq<u8>) -> Option<(Record, int)> {
    match frame_of(s) {
        Some(f) => match record_of(s, f) {
            Some(r) => Some((r, f.end)),
            None => None,
        },
        None => None,
    }
}

/// The index after the last byte of the first record of `s`.
pub open spec fn record_end(s: Seq<u8>) -> int {
    match decode_record(s) {
        Some((_, end)) => end,
        None => 0,
    }
}

/// The bytes that a record is written as.
pub open spec fn encode_record(r: Record) -> Option<Seq<u8>> {
    match r {
        Record::Put { key, value } => {
            let k = json_string_text(key);
            let v = json_string_text(value);
            if k is Some && v is Some {
                Some(set_frame(k->0, v->0))
            } else {
                None
            }
        },
        Record::Remove { key } => {
            let k = json_string_text(key);
            if k is Some {
                Some(remove_frame(k->0))
            } else {
                None
            }
        },
    }
}

/// Whether the record can be written, and what is written reads back as the
/// same record and as nothing more.
pub open spec fn round_trips(r: Record) -> bool {
    &&& encode_record(r) is Some
    &&& decode_record(encode_record(r)->0) == Some((r, encode_record(r)->0.len() as int))
}

/// A record is read from its own bytes alone: what follows it does not
/// matter.
pub proof fn lemma_decode_prefix(s: Seq<u8>, t: Seq<u8>)
    requires
        decode_record(s) is Some,
        same_prefix(s, t, record_end(s)),
    ensures
        decode_record(t) == decode_record(s),
{
    lemma_skip_space_bounds(s, 0);
    lemma_frame_bounds(s, skip_space(s, 0));
    lemma_frame_prefix(s, t);
    let f = frame_of(s)->0;
    assert(s.subrange(f.key.0, f.key.1) =~= t.subrange(f.key.0, f.key.1));
    assert(s.subrange(f.value.0, f.value.1) =~= t.subrange(f.value.0, f.value.1));
}

/// A record ends after it has begun, inside the bytes.
pub proof fn lemma_decode_bounds(s: Seq<u8>)
    requires
        decode_record(s) is Some,
    ensures
        0 < record_end(s) <= s.len(),
{
    lemma_skip_space_bounds(s, 0);
    lemma_frame_bounds(s, skip_space(s, 0));
}

/// Tells whether two commands say the same.
pub fn same_command(a: &Command, b: &Command) -> (same: bool)
    ensures
        same == (a@ == b@),
{
    match (a, b) {
        (Command::Put { key: ka, value: va }, Command::Put { key: kb, value: vb }) => {
            *ka == *kb && *va == *vb
        },
        (Command::Remove { key: ka }, Command::Remove { key: kb }) => *ka == *kb,
        _ => false,
    }
}

/// Reads the first record of `bytes`, after any white space in front of it,
/// and tells where the record ends.
pub fn decode(bytes: &[u8]) -> (r: Result<(Command, usize), KvsError>)
    ensures
        match r {
            Ok((cmd, end)) => decode_record(bytes@) == Some((cmd@, end as int)),
            Err(e) => decode_record(bytes@) is None && e is SerdeErr,
        },
{
    let f = match scan_frame(bytes) {
        Some(f) => f,
        None => {
            return Err(KvsError::SerdeErr(String::from_str("expected a record")));
        },
    };
    proof {
        lemma_skip_space_bounds(bytes@, 0);
        lemma_frame_bounds(bytes@, skip_space(bytes@, 0));
    }
    let key = match json_value_of(slice_subrange(bytes, f.key_start, f.key_end)) {
        Ok(key) => key,
        Err(e) => {
            return Err(KvsError::SerdeErr(json_error_text(&e)));
        },
    };
    if f.put {
        let value = match json_value_of(slice_subrange(bytes, f.value_start, f.value_end)) {
            Ok(value) => value,
            Err(e) => {
                return Err(KvsError::SerdeErr(json_error_text(&e)));
            },
        };
        Ok((Command::Put { key, value }, f.end))
    } else {
        Ok((Command::Remove { key }, f.end))
    }
}

/// Writes the command as one record. The bytes are handed out only if they
/// read back as the same command.
pub fn encode(cmd: &Command) -> (r: Result<Vec<u8>, KvsError>)
    ensures
        match r {
            Ok(bytes) => round_trips(cmd@) && encode_record(cmd@) == Some(bytes@),
            Err(e) => !round_trips(cmd@) && e is SerdeErr,
        },
{
    let bytes = match cmd {
        Command::Put { key, value } => {
            let key_text = match json_text_of(key.as_str()) {
                Ok(text) => text,
                Err(e) => {
                    return Err(KvsError::SerdeErr(json_error_text(&e)));
                },
            };
            let value_text = match json_text_of(value.as_str()) {
                Ok(text) => text,
                Err(e) => {
                    return Err(KvsError::SerdeErr(json_error_text(&e)));
                },
            };
            frame_set(key_text.as_slice(), value_text.as_slice())
        },
        Command::Remove { key } => {
            let key_text = match json_text_of(key.as_str()) {
                Ok(text) => text,
                Err(e) => {
                    return Err(KvsError::SerdeErr(json_error_text(&e)));
                },
            };
            frame_remove(key_text.as_slice())
        },
    };
    match decode(bytes.as_slice()) {
        Ok((back, end)) => {
            if end == bytes.len() && same_command(&back, cmd) {
                Ok(bytes)
            } else {
                Err(KvsError::SerdeErr(String::from_str("the record reads back as another")))
            }
        },
        Err(e) => Err(e),
    }
}

} // verus!
