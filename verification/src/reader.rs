use vstd::prelude::*;
use vstd::string::StrSliceExecFns;
use vstd::string::StringExecFns;

use crate::field::Record;
use crate::source::SourceType;

verus! {

/// Why a read produced no record. `Eof` is a control signal — "caught up,
/// nothing more right now" — not a failure; the two failure kinds separate
/// bad data from well-formed data of an unsupported shape.
#[derive(Debug)]
pub enum ReadError {
    ParseFail(String),
    Internal(String),
    Eof,
}

impl ReadError {
    /// Errors compare by kind alone; the diagnostic text is not part of an
    /// error's identity.
    pub open spec fn eq_spec_inner(self, other: ReadError) -> bool {
        match (self, other) {
            (ReadError::ParseFail(_), ReadError::ParseFail(_)) => true,
            (ReadError::Internal(_), ReadError::Internal(_)) => true,
            (ReadError::Eof, ReadError::Eof) => true,
            _ => false,
        }
    }

    /// A human-readable description of the error.
    pub fn message(&self) -> (r: String)
        ensures
            match self {
                ReadError::ParseFail(e) => r@ == "read error: parse fail: "@ + e@,
                ReadError::Internal(e) => r@ == "read error: internal error: "@ + e@,
                ReadError::Eof => r@ == "read error: no input received (EOF)"@,
            },
    {
        match self {
            ReadError::ParseFail(e) => {
                let mut s = "read error: parse fail: ".to_owned();
                s.append(e.as_str());
                s
            },
            ReadError::Internal(e) => {
                let mut s = "read error: internal error: ".to_owned();
                s.append(e.as_str());
                s
            },
            ReadError::Eof => "read error: no input received (EOF)".to_owned(),
        }
    }
}

impl PartialEq for ReadError {
    fn eq(&self, other: &ReadError) -> (r: bool) {
        match (self, other) {
            (ReadError::ParseFail(_), ReadError::ParseFail(_)) => true,
            (ReadError::Internal(_), ReadError::Internal(_)) => true,
            (ReadError::Eof, ReadError::Eof) => true,
            _ => false,
        }
    }
}

impl vstd::std_specs::cmp::PartialEqSpecImpl for ReadError {
    open spec fn obeys_eq_spec() -> bool {
        true
    }

    open spec fn eq_spec(&self, other: &ReadError) -> bool {
        self.eq_spec_inner(*other)
    }
}

/// The view a reader takes of the stream content it was offered: the
/// characters, or nothing when the underlying read failed.
pub open spec fn opt_view(data: Option<&str>) -> Option<Seq<char>> {
    match data {
        Some(d) => Some(d@),
        None => None,
    }
}

/// A strategy that turns one line of its source into a record of fields.
/// Each implementation states in `read_ens` exactly how a call relates the
/// reader's state before and after, the stream content offered, and the
/// result.
pub trait Reader: Sized {
    spec fn source_type_spec(&self) -> SourceType;

    spec fn read_ens(pre: Self, post: Self, data: Option<Seq<char>>, r: Result<
        Record,
        ReadError,
    >) -> bool;

    fn source_type(&self) -> (r: SourceType)
        ensures
            r == self.source_type_spec(),
    ;

    /// Read one line from the source and parse it. `data` is the source's
    /// current content, or `None` when the underlying read failed
    /// transiently.
    fn read_fields(&mut self, data: Option<&str>) -> (r: Result<Record, ReadError>)
        ensures
            Self::read_ens(*old(self), *final(self), opt_view(data), r),
            r matches Ok(rec) ==> rec.wf(),
    ;
}

} // verus!
