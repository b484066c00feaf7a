//! Conversion between a dynamic host object graph and a typed value tree.
//!
//! The host side is described by [`object::Object`]: what a reflective walk of
//! a host object reveals (mappings, sequences, tuples and their class shape,
//! scalars, record instances).  The typed side is [`value::Value`], the tree
//! that a text parser produces and a pretty printer consumes.  Encoding goes
//! through [`encode::extract`], decoding through [`loads`].
use vstd::prelude::*;
use crate::decode::{decode, result_view, try_val_to_py};
use crate::error::{Diagnostic, Error, ErrorModel};
use crate::object::{Object, ObjectModel};
use crate::value::Value;

pub mod value;
pub mod object;
pub mod error;
pub mod decode;
pub mod encode;
pub mod theorems;

verus! {

/// How deeply a loaded document may nest.
pub const MAX_DEPTH: usize = 512;

/// What loading a parse outcome yields: the two preservation flags may not
/// both be set; a failed parse fails with its diagnostics; otherwise the
/// value is decoded under the flags, nested at most `MAX_DEPTH` deep.
pub open spec fn load_outcome(
    parsed: Result<Value, Vec<Diagnostic>>,
    preserve_structs: bool,
    preserve_class_names: bool,
) -> Result<ObjectModel, ErrorModel> {
    if preserve_structs && preserve_class_names {
        Err(ErrorModel::ConflictingPolicy)
    } else {
        match parsed {
            Err(d) => Err(ErrorModel::ParseError(d)),
            Ok(v) => decode(v@, preserve_structs, preserve_class_names, MAX_DEPTH as nat),
        }
    }
}

/// Turns the outcome of parsing a document into a host object.  The policy
/// is checked before anything else, so conflicting flags fail without any
/// decoding.
pub fn loads(
    parsed: Result<Value, Vec<Diagnostic>>,
    preserve_structs: bool,
    preserve_class_names: bool,
) -> (r: Result<Object, Error>)
    ensures
        result_view(r) == load_outcome(parsed, preserve_structs, preserve_class_names),
{
    if preserve_structs && preserve_class_names {
        return Err(Error::ConflictingPolicy);
    }
    match parsed {
        Err(d) => Err(Error::ParseError(d)),
        Ok(v) => try_val_to_py(&v, preserve_structs, preserve_class_names, MAX_DEPTH),
    }
}

} // verus!
