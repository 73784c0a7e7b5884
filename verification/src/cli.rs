//! Input decisions of the command-line viewer: which loader a schema file
//! needs, whether a binary file is a hex dump, and which root type to use.

use vstd::prelude::*;
use crate::text::{push_str, string_of};

verus! {

/// How a schema file is read.
#[derive(Debug, Clone, Copy, PartialEq, Eq, Structural)]
pub enum SchemaSource {
    /// `.fbs`: compiled.
    Fbs,
    /// `.json`: a compiled schema in JSON.
    Json,
    /// `.proto`: analyzed.
    Proto,
}

/// The loader for a schema file extension, or the message refusing it.
pub open spec fn source_for(ext: Seq<char>) -> Result<SchemaSource, Seq<char>> {
    if ext == "fbs"@ {
        Ok(SchemaSource::Fbs)
    } else if ext == "json"@ {
        Ok(SchemaSource::Json)
    } else if ext == "proto"@ {
        Ok(SchemaSource::Proto)
    } else {
        Err("unsupported schema file extension '."@ + ext + "': expected .fbs, .json, or .proto"@)
    }
}

/// Whether two strings hold the same characters.
fn same(a: &str, b: &str) -> (r: bool)
    ensures
        r == (a@ == b@),
{
    let x = crate::text::chars_of(a);
    let y = crate::text::chars_of(b);
    if x.len() != y.len() {
        return false;
    }
    let mut i: usize = 0;
    while i < x.len()
        invariant
            i <= x@.len(),
            x@.len() == y@.len(),
            x@ == a@,
            y@ == b@,
            forall|k: int| 0 <= k < i ==> x@[k] == y@[k],
        decreases x@.len() - i,
    {
        if x[i] != y[i] {
            return false;
        }
        i = i + 1;
    }
    assert(x@ =~= y@);
    true
}

/// The loader for a schema file's extension (empty when the file has none).
pub fn schema_source_for_extension(ext: &str) -> (r: Result<SchemaSource, String>)
    ensures
        match source_for(ext@) {
            Ok(k) => r == Ok::<SchemaSource, String>(k),
            Err(m) => r is Err && r->Err_0@ == m,
        },
{
    if same(ext, "fbs") {
        Ok(SchemaSource::Fbs)
    } else if same(ext, "json") {
        Ok(SchemaSource::Json)
    } else if same(ext, "proto") {
        Ok(SchemaSource::Proto)
    } else {
        let mut m = string_of("unsupported schema file extension '.");
        push_str(&mut m, ext);
        push_str(&mut m, "': expected .fbs, .json, or .proto");
        Err(m)
    }
}

/// A binary input is read as a hex dump when asked to, or when its file
/// extension is `hex` or `txt`.
pub fn is_hex_input(force_hex: bool, ext: Option<&str>) -> (r: bool)
    ensures
        r == (force_hex || (ext matches Some(e) && (e@ == "hex"@ || e@ == "txt"@))),
{
    if force_hex {
        return true;
    }
    match ext {
        Some(e) => same(e, "hex") || same(e, "txt"),
        None => false,
    }
}

/// The root type: the one given on the command line, else the schema's.
pub fn choose_root_type(given: Option<String>, from_schema: Option<String>) -> (r: Option<String>)
    ensures
        r == (if given is Some { given } else { from_schema }),
{
    match given {
        Some(g) => Some(g),
        None => from_schema,
    }
}

} // verus!
