use vstd::prelude::*;

verus! {

/// One parse error: where it is and what it says.
#[derive(Debug)]
pub struct Diagnostic {
    pub line: usize,
    pub column: usize,
    pub message: String,
}

/// Why a conversion failed.
#[derive(Debug)]
pub enum Error {
    /// The encoder met an object of no recognised kind; holds its type's name.
    UnsupportedType(String),
    /// The text did not parse.
    ParseError(Vec<Diagnostic>),
    /// Both record-preservation flags were set.
    ConflictingPolicy,
    /// An include directive reached the decoder; holds its path.
    UnresolvedInclude(String),
    /// A mapping key decoded to an object that cannot be a key.
    UnhashableKey,
    /// The value is nested deeper than the decoder allows.
    DepthExceeded,
}

/// The mathematical content of an [`Error`].
pub enum ErrorModel {
    UnsupportedType(Seq<char>),
    ParseError(Vec<Diagnostic>),
    ConflictingPolicy,
    UnresolvedInclude(Seq<char>),
    UnhashableKey,
    DepthExceeded,
}

impl Error {
    pub open spec fn view(self) -> ErrorModel {
        match self {
            Error::UnsupportedType(s) => ErrorModel::UnsupportedType(s@),
            Error::ParseError(d) => ErrorModel::ParseError(d),
            Error::ConflictingPolicy => ErrorModel::ConflictingPolicy,
            Error::UnresolvedInclude(p) => ErrorModel::UnresolvedInclude(p@),
            Error::UnhashableKey => ErrorModel::UnhashableKey,
            Error::DepthExceeded => ErrorModel::DepthExceeded,
        }
    }
}

} // verus!
