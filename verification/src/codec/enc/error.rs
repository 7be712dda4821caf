use vstd::prelude::*;
use vstd::string::StringExecFns;

use crate::codec::dec::{io_error_text, io_kind, IoKind};

verus! {

/// `std::io::Error`, carried through as an opaque value.
#[verifier::external_type_specification]
#[verifier::external_body]
pub struct ExIoError(std::io::Error);

/// Why a value could not be encoded or written.
#[derive(Debug)]
pub enum EncodeError {
    /// Another error, with a note on what was being encoded.
    Context { context: String, error: Box<EncodeError> },
    /// A failure described only by its message.
    Custom { message: String },
    /// The writer failed.
    Io(std::io::Error),
}

/// The mathematical content of an [`EncodeError`]: its notes and its
/// message, and of a failed write the kind of the failure.
pub enum EncodeFault {
    Context { context: Seq<char>, error: Box<EncodeFault> },
    Custom { message: Seq<char> },
    Io(IoKind),
}

impl EncodeFault {
    /// This fault, wrapped in a note on what was being encoded.
    pub open spec fn context(self, context: Seq<char>) -> EncodeFault {
        EncodeFault::Context { context, error: Box::new(self) }
    }

    /// Whether the fault is a write that failed because the other end no
    /// longer takes what is written.
    pub open spec fn peer_gone(self) -> bool
        decreases self,
    {
        match self {
            EncodeFault::Context { context, error } => error.peer_gone(),
            EncodeFault::Custom { message } => false,
            EncodeFault::Io(kind) => kind == IoKind::BrokenPipe,
        }
    }
}

/// The content of an error, note by note.
pub open spec fn encode_fault(error: EncodeError) -> EncodeFault
    decreases error,
{
    match error {
        EncodeError::Context { context, error } => EncodeFault::Context {
            context: context@,
            error: Box::new(encode_fault(*error)),
        },
        EncodeError::Custom { message } => EncodeFault::Custom { message: message@ },
        EncodeError::Io(err) => EncodeFault::Io(io_kind(err)),
    }
}

/// The I/O error at the bottom of the chain of notes, if there is one.
pub open spec fn io_error_of(error: EncodeError) -> Option<std::io::Error>
    decreases error,
{
    match error {
        EncodeError::Context { context, error } => io_error_of(*error),
        EncodeError::Custom { message } => None,
        EncodeError::Io(err) => Some(err),
    }
}

/// A failed write is one to a peer that has gone exactly where the I/O
/// error under its notes is a broken pipe.
pub proof fn lemma_peer_gone(error: EncodeError)
    ensures
        encode_fault(error).peer_gone() == (io_error_of(error) matches Some(err) && io_kind(err)
            == IoKind::BrokenPipe),
    decreases error,
{
    match error {
        EncodeError::Context { context, error } => lemma_peer_gone(*error),
        EncodeError::Custom { message } => {},
        EncodeError::Io(err) => {},
    }
}

impl View for EncodeError {
    type V = EncodeFault;

    open spec fn view(&self) -> EncodeFault {
        encode_fault(*self)
    }
}

impl EncodeError {
    /// Wraps the error in a note on what was being encoded.
    #[must_use]
    pub fn context(self, context: &str) -> (r: Self)
        ensures
            r@ == self@.context(context@),
    {
        EncodeError::Context { context: context.to_owned(), error: Box::new(self) }
    }

    /// The I/O error that caused this one, looked up through the notes.
    #[must_use]
    pub fn get_io_error(&self) -> (r: Option<&std::io::Error>)
        ensures
            match r {
                Some(err) => io_error_of(*self) == Some(*err),
                None => io_error_of(*self) is None,
            },
        decreases self,
    {
        match self {
            EncodeError::Context { error, .. } => error.get_io_error(),
            EncodeError::Custom { .. } => None,
            EncodeError::Io(err) => Some(err),
        }
    }
}

/// Whether `text` is a line that reports the error: each note and a colon,
/// and at the end what went wrong. Of a failed write the line says
/// `IO error: ` and then what the I/O error displays, which is left open.
pub open spec fn encode_error_reads(error: EncodeError, text: Seq<char>) -> bool
    decreases error,
{
    match error {
        EncodeError::Context { context, error } => {
            &&& (context@ + ": "@).is_prefix_of(text)
            &&& encode_error_reads(*error, text.skip((context@ + ": "@).len() as int))
        },
        EncodeError::Custom { message } => text == "Custom error: "@ + message@,
        EncodeError::Io(err) => "IO error: "@.is_prefix_of(text),
    }
}

/// The line that reports an error in which no write failed.
pub open spec fn encode_error_text(error: EncodeError) -> Seq<char>
    decreases error,
{
    match error {
        EncodeError::Context { context, error } => context@ + ": "@ + encode_error_text(*error),
        EncodeError::Custom { message } => "Custom error: "@ + message@,
        EncodeError::Io(err) => "IO error: "@,
    }
}

/// A line that reports an error in which no write failed is the one line
/// that [`encode_error_text`] gives.
pub proof fn lemma_encode_error_text(error: EncodeError, text: Seq<char>)
    requires
        io_error_of(error) is None,
        encode_error_reads(error, text),
    ensures
        text == encode_error_text(error),
    decreases error,
{
    reveal_strlit(": ");
    match error {
        EncodeError::Context { context, error } => {
            let head = context@ + ": "@;
            lemma_encode_error_text(*error, text.skip(head.len() as int));
            assert(text =~= head + text.skip(head.len() as int));
        },
        EncodeError::Custom { message } => {},
        EncodeError::Io(err) => {},
    }
}

impl EncodeError {
    /// The line that reports the error.
    #[must_use]
    pub fn to_string(&self) -> (r: String)
        ensures
            encode_error_reads(*self, r@),
            io_error_of(*self) is None ==> r@ == encode_error_text(*self),
        decreases self,
    {
        proof {
            reveal_strlit(": ");
            reveal_strlit("IO error: ");
        }
        let text = match self {
            EncodeError::Context { context, error } => {
                let mut text = context.clone();
                text.append(": ");
                let rest = error.to_string();
                text.append(rest.as_str());
                proof {
                    let head = context@ + ": "@;
                    assert(text@ =~= head + rest@);
                    assert(text@.skip(head.len() as int) =~= rest@);
                }
                text
            },
            EncodeError::Custom { message } => String::from_str("Custom error: ").concat(
                message.as_str(),
            ),
            EncodeError::Io(err) => String::from_str("IO error: ").concat(
                io_error_text(err).as_str(),
            ),
        };
        proof {
            if io_error_of(*self) is None {
                lemma_encode_error_text(*self, text@);
            }
        }
        text
    }
}

/// Attaching a note to the error of a result, if it holds one.
pub trait EncodeErrorContext: Sized {
    /// Whether `noted` is this result with the note `context` on its error:
    /// the same where this is no error, and else the error wrapped in the
    /// note.
    spec fn with_note(self, context: Seq<char>, noted: Self) -> bool;

    #[must_use]
    fn err_context(self, context: &str) -> (r: Self)
        ensures
            self.with_note(context@, r),
    ;
}

impl<T> EncodeErrorContext for Result<T, EncodeError> {
    open spec fn with_note(self, context: Seq<char>, noted: Self) -> bool {
        match self {
            Ok(v) => noted == Ok::<T, EncodeError>(v),
            Err(e) => noted matches Err(f) && f@ == e@.context(context),
        }
    }

    fn err_context(self, context: &str) -> (r: Self) {
        match self {
            Ok(v) => Ok(v),
            Err(e) => Err(e.context(context)),
        }
    }
}

} // verus!
