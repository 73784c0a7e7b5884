//! The parts of running an effect, or loading a file the user picked, that
//! come after the outside work: the command that reports the result back to
//! the state machine.

use vstd::prelude::*;
use crate::encoder::{encode_error_text, encode_json, spec_encode};
use crate::hex::{hex_error_text, parse_hex_bytes, split_ws, token_byte};
use crate::json::JsonValue;
use crate::proto::{collect_proto_message_names, schema_names, ProtoSchema};
use crate::schema::{schema_wf, Schema};
use crate::state::Command;
use crate::text::{decimal, push_decimal, push_str, string_of};

verus! {

/// `EncodeJson` once the JSON text has been parsed: the encoded bytes, or
/// the encoding error. `parsed` holds the parser's message when the text is
/// not JSON.
pub fn encode_json_command(parsed: Result<JsonValue, String>, schema: &Schema, root_type_name: &str) -> (c: Command)
    requires
        schema_wf(*schema),
    ensures
        match parsed {
            Err(m) => c matches Command::EncodeError(e) && e@ == "Invalid JSON: "@ + m@,
            Ok(v) => match spec_encode(*schema, v, root_type_name@) {
                Ok(b) => c matches Command::JsonEncoded(d) && d@ == b,
                Err(f) => c matches Command::EncodeError(e) && e@ == encode_error_text(f),
            },
        },
{
    match parsed {
        Err(m) => {
            let mut e = string_of("Invalid JSON: ");
            push_str(&mut e, m.as_str());
            Command::EncodeError(e)
        },
        Ok(v) => match encode_json(&v, schema, root_type_name) {
            Ok(bytes) => Command::JsonEncoded(bytes),
            Err(err) => Command::EncodeError(err.describe()),
        },
    }
}

/// `ParseHexData`: the parsed bytes, or the parse error.
pub fn parse_hex_command(hex_text: &str) -> (c: Command)
    ensures
        ({
            let toks = split_ws(hex_text@);
            match c {
                Command::SetBinaryData(bytes) => toks.len() > 0 && bytes@.len() == toks.len()
                    && forall|k: int| 0 <= k < toks.len() ==> token_byte(#[trigger] toks[k]) == Some(bytes@[k]),
                Command::EncodeError(m) => (toks.len() == 0 && m@ == hex_error_text(crate::hex::HexParseError::Empty))
                    || exists|p: int| 0 <= p < toks.len() && token_byte(#[trigger] toks[p]) is None
                        && (forall|k: int| 0 <= k < p ==> token_byte(#[trigger] toks[k]) is Some)
                        && m@ == "invalid hex byte '"@ + toks[p] + "' at position "@ + decimal(p as nat),
                _ => false,
            }
        }),
{
    match parse_hex_bytes(hex_text) {
        Ok(bytes) => Command::SetBinaryData(bytes),
        Err(e) => {
            let m = e.describe();
            proof {
                if let crate::hex::HexParseError::InvalidByte { token, position } = e {
                    let p = position as int;
                    assert(token_byte(split_ws(hex_text@)[p]) is None);
                }
            }
            Command::EncodeError(m)
        },
    }
}

/// `CompileProtoSchema` once the schema is compiled: the schema, a summary
/// line, and the qualified names of its top-level messages.
pub fn proto_compiled_command(fds: ProtoSchema) -> (c: Command)
    ensures
        c matches Command::ProtoSchemaCompiled { schema, schema_json, root_message_names }
            && *schema == fds
            && root_message_names@.len() == schema_names(fds.file@, fds.file@.len()).len()
            && (forall|i: int| 0 <= i < root_message_names@.len() ==> #[trigger] root_message_names@[i]@ == schema_names(fds.file@, fds.file@.len())[i])
            && schema_json@ == decimal(root_message_names@.len()) + " messages in "@ + decimal(fds.file@.len()) + " files"@,
{
    let names = collect_proto_message_names(&fds);
    let mut summary = String::new();
    push_decimal(&mut summary, names.len() as u64);
    push_str(&mut summary, " messages in ");
    push_decimal(&mut summary, fds.file.len() as u64);
    push_str(&mut summary, " files");
    Command::ProtoSchemaCompiled { schema: Box::new(fds), schema_json: summary, root_message_names: names }
}

/// A schema file the user picked, once read: its text, or the read error.
pub fn schema_file_command(read: Result<String, String>) -> (c: Command)
    ensures
        match read {
            Ok(text) => c == Command::LoadSchemaText(text),
            Err(m) => c matches Command::SchemaCompileError(e) && e@ == "failed to read file: "@ + m@,
        },
{
    match read {
        Ok(text) => Command::LoadSchemaText(text),
        Err(m) => {
            let mut e = string_of("failed to read file: ");
            push_str(&mut e, m.as_str());
            Command::SchemaCompileError(e)
        },
    }
}

/// A binary file the user picked, once read: its bytes, or the read error.
pub fn binary_file_command(read: Result<Vec<u8>, String>) -> (c: Command)
    ensures
        match read {
            Ok(data) => c == Command::SetBinaryData(data),
            Err(m) => c matches Command::EncodeError(e) && e@ == "failed to read file: "@ + m@,
        },
{
    match read {
        Ok(data) => Command::SetBinaryData(data),
        Err(m) => {
            let mut e = string_of("failed to read file: ");
            push_str(&mut e, m.as_str());
            Command::EncodeError(e)
        },
    }
}

/// An uploaded schema file, once its bytes were decoded as UTF-8: its text,
/// or the decoding error.
pub fn schema_upload_command(decoded: Result<String, String>) -> (c: Command)
    ensures
        match decoded {
            Ok(text) => c == Command::LoadSchemaText(text),
            Err(m) => c matches Command::SchemaCompileError(e) && e@ == "Invalid UTF-8 in schema file: "@ + m@,
        },
{
    match decoded {
        Ok(text) => Command::LoadSchemaText(text),
        Err(m) => {
            let mut e = string_of("Invalid UTF-8 in schema file: ");
            push_str(&mut e, m.as_str());
            Command::SchemaCompileError(e)
        },
    }
}

} // verus!
