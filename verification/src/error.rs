//! The ways in which reading or writing a stream can fail.

use vstd::prelude::*;

verus! {

/// What went wrong.
#[derive(Clone, Copy, Debug, PartialEq, Eq, Structural)]
pub enum ErrorKind {
    /// The bytes at the expected position are not a well-formed record, or
    /// not the record that was asked for.
    Framing,
    /// The position is exactly the end of what has been written.
    EndOfStream,
    /// The buffer refused a seek.
    Io,
    /// No commit marker lies within reach of the end of a non-empty stream.
    NoTrailerFound,
    /// The record in the stream and the one to be written are of kinds that
    /// no forwarding record can reconcile.
    UnsupportedShape,
}

/// An error of this library.
#[derive(Clone, Copy, Debug, PartialEq, Eq, Structural)]
pub struct Error {
    pub kind: ErrorKind,
}

impl Error {
    /// An error of the given kind.
    pub fn new(kind: ErrorKind) -> (e: Error)
        ensures
            e.kind == kind,
    {
        Error { kind }
    }

    /// A short description, one per kind.
    pub fn message(&self) -> (text: &'static str)
        ensures
            text@ == Self::message_of(self.kind),
    {
        match self.kind {
            ErrorKind::Framing => "malformed record",
            ErrorKind::EndOfStream => "end of stream",
            ErrorKind::Io => "seek outside the buffer",
            ErrorKind::NoTrailerFound => "unable to find trailer block",
            ErrorKind::UnsupportedShape => "unsupported shape",
        }
    }

    /// The text of `message` for each kind.
    pub open spec fn message_of(kind: ErrorKind) -> Seq<char> {
        match kind {
            ErrorKind::Framing => "malformed record"@,
            ErrorKind::EndOfStream => "end of stream"@,
            ErrorKind::Io => "seek outside the buffer"@,
            ErrorKind::NoTrailerFound => "unable to find trailer block"@,
            ErrorKind::UnsupportedShape => "unsupported shape"@,
        }
    }
}

/// Turns the error of an outside call into one of this library.
pub trait StdResultExt<T> {
    /// Whether the value is a success.
    spec fn succeeded(&self) -> bool;

    /// Keeps a success and reports any failure as a framing error.
    fn e(self) -> (res: Result<T, Error>)
        ensures
            res is Ok <==> self.succeeded(),
            res is Err ==> res->Err_0.kind == ErrorKind::Framing;
}

impl<T> StdResultExt<T> for Result<T, hex::FromHexError> {
    open spec fn succeeded(&self) -> bool {
        self is Ok
    }

    fn e(self) -> (res: Result<T, Error>)
        ensures
            self is Ok ==> res == Ok::<T, Error>(self->Ok_0),
    {
        match self {
            Ok(v) => Ok(v),
            Err(_) => Err(Error { kind: ErrorKind::Framing }),
        }
    }
}

/// Tells the end of the stream from every other outcome.
pub trait ResultExt {
    /// Whether the value is the end-of-stream error.
    spec fn is_eof(&self) -> bool;

    /// Whether a read stopped because nothing more has been written.
    fn cmd_eof(&self) -> (b: bool)
        ensures
            b == self.is_eof();
}

impl<T> ResultExt for Result<T, Error> {
    open spec fn is_eof(&self) -> bool {
        match self {
            Ok(_) => false,
            Err(e) => e.kind == ErrorKind::EndOfStream,
        }
    }

    fn cmd_eof(&self) -> (b: bool) {
        match self {
            Ok(_) => false,
            Err(e) => match e.kind {
                ErrorKind::EndOfStream => true,
                _ => false,
            },
        }
    }
}

} // verus!
