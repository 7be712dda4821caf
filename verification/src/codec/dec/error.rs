use vstd::prelude::*;
use vstd::string::StringExecFns;

verus! {

/// `core::str::Utf8Error`, carried through as an opaque value.
#[verifier::external_type_specification]
#[verifier::external_body]
pub struct ExUtf8Error(core::str::Utf8Error);

/// Why a byte string could not be decoded.
#[derive(Debug)]
pub enum DecodeError {
    /// Another error, with a note on what was being decoded.
    Context { context: String, error: Box<DecodeError> },
    /// A failure described only by its message.
    Custom { message: String },
    /// The input ended before the value did.
    UnexpectedEnd,
    /// A string's bytes were not UTF-8.
    InvalidUtf8(core::str::Utf8Error),
    /// A VarInt claimed more than 32 bits, or stood where it may not be negative.
    InvalidVarInt,
    /// A VarLong claimed more than 64 bits.
    InvalidVarLong,
}

/// The mathematical content of a [`DecodeError`]: the same shape, with
/// strings as character sequences and without the detail of a UTF-8 failure.
pub enum DecodeFault {
    Context { context: Seq<char>, error: Box<DecodeFault> },
    Custom { message: Seq<char> },
    UnexpectedEnd,
    InvalidUtf8,
    InvalidVarInt,
    InvalidVarLong,
}

impl DecodeFault {
    /// This fault, wrapped in a note on what was being decoded.
    pub open spec fn context(self, context: Seq<char>) -> DecodeFault {
        DecodeFault::Context { context, error: Box::new(self) }
    }
}

/// The content of an error, note by note.
pub open spec fn decode_fault(error: DecodeError) -> DecodeFault
    decreases error,
{
    match error {
        DecodeError::Context { context, error } => DecodeFault::Context {
            context: context@,
            error: Box::new(decode_fault(*error)),
        },
        DecodeError::Custom { message } => DecodeFault::Custom { message: message@ },
        DecodeError::UnexpectedEnd => DecodeFault::UnexpectedEnd,
        DecodeError::InvalidUtf8(_) => DecodeFault::InvalidUtf8,
        DecodeError::InvalidVarInt => DecodeFault::InvalidVarInt,
        DecodeError::InvalidVarLong => DecodeFault::InvalidVarLong,
    }
}

impl View for DecodeError {
    type V = DecodeFault;

    open spec fn view(&self) -> DecodeFault {
        decode_fault(*self)
    }
}

impl DecodeError {
    /// Wraps the error in a note on what was being decoded.
    #[must_use]
    pub fn context(self, context: &str) -> (r: Self)
        ensures
            r@ == self@.context(context@),
    {
        DecodeError::Context { context: context.to_owned(), error: Box::new(self) }
    }
}

/// The kinds of I/O error that the library tells apart.
#[derive(Debug, Clone, Copy, PartialEq, Eq, Structural)]
pub enum IoKind {
    /// The input ended before a read was complete.
    UnexpectedEof,
    /// The other end no longer takes what is written.
    BrokenPipe,
    /// Any other kind.
    Other,
}

/// The kind that an I/O error reports.
pub uninterp spec fn io_kind(err: std::io::Error) -> IoKind;

/// `std::io::Error::kind`, told apart as far as [`IoKind`] goes: the result
/// is the kind that the error reports.
#[verifier::external_body]
pub(crate) fn io_error_kind(err: &std::io::Error) -> (r: IoKind)
    ensures
        r == io_kind(*err),
{
    match err.kind() {
        std::io::ErrorKind::UnexpectedEof => IoKind::UnexpectedEof,
        std::io::ErrorKind::BrokenPipe => IoKind::BrokenPipe,
        _ => IoKind::Other,
    }
}

/// The `Display` text of a `std::io::Error`. Nothing is claimed of it: the
/// text of an error of the operating system is the platform's to choose.
#[verifier::external_body]
pub(crate) fn io_error_text(err: &std::io::Error) -> String {
    format!("{err}")
}

impl DecodeError {
    /// What an I/O error met while reading amounts to, from its kind and the
    /// text that it displays: the end of the input where it reports that,
    /// and a failure with its text otherwise.
    #[must_use]
    pub fn of_io(kind: IoKind, text: String) -> (r: Self)
        ensures
            r@ == match kind {
                IoKind::UnexpectedEof => DecodeFault::UnexpectedEnd,
                _ => DecodeFault::Custom { message: text@ },
            },
    {
        match kind {
            IoKind::UnexpectedEof => DecodeError::UnexpectedEnd,
            _ => DecodeError::Custom { message: text },
        }
    }
}

impl vstd::std_specs::convert::FromSpecImpl<std::io::Error> for DecodeError {
    open spec fn obeys_from_spec() -> bool {
        false
    }

    open spec fn from_spec(err: std::io::Error) -> DecodeError {
        DecodeError::UnexpectedEnd
    }
}

impl From<std::io::Error> for DecodeError {
    /// An I/O error met while reading: the end of the input where the error
    /// reports that, and otherwise a failure that carries the text that the
    /// error displays, whatever that is.
    fn from(err: std::io::Error) -> (r: Self)
        ensures
            io_kind(err) == IoKind::UnexpectedEof ==> r@ == DecodeFault::UnexpectedEnd,
            io_kind(err) != IoKind::UnexpectedEof ==> r@ is Custom,
    {
        let kind = io_error_kind(&err);
        DecodeError::of_io(kind, io_error_text(&err))
    }
}

impl vstd::std_specs::convert::FromSpecImpl<core::str::Utf8Error> for DecodeError {
    open spec fn obeys_from_spec() -> bool {
        true
    }

    open spec fn from_spec(err: core::str::Utf8Error) -> DecodeError {
        DecodeError::InvalidUtf8(err)
    }
}

impl From<core::str::Utf8Error> for DecodeError {
    fn from(err: core::str::Utf8Error) -> (r: Self) {
        DecodeError::InvalidUtf8(err)
    }
}

/// The text that a `core::str::Utf8Error` displays.
pub uninterp spec fn utf8_error_message(err: core::str::Utf8Error) -> Seq<char>;

/// The `Display` text of a `core::str::Utf8Error`.
#[verifier::external_body]
fn utf8_error_text(err: &core::str::Utf8Error) -> (r: String)
    ensures
        r@ == utf8_error_message(*err),
{
    format!("{err}")
}

/// The line that reports an error: each note, a colon, and at the end what
/// went wrong.
pub open spec fn decode_error_text(error: DecodeError) -> Seq<char>
    decreases error,
{
    match error {
        DecodeError::Context { context, error } => context@ + ": "@ + decode_error_text(*error),
        DecodeError::Custom { message } => "Custom error: "@ + message@,
        DecodeError::UnexpectedEnd => "Unexpected end of file"@,
        DecodeError::InvalidUtf8(err) => "Invalid UTF-8 sequence: "@ + utf8_error_message(err),
        DecodeError::InvalidVarInt => "Invalid VarInt"@,
        DecodeError::InvalidVarLong => "Invalid VarLong"@,
    }
}

impl DecodeError {
    /// The line that reports the error.
    #[must_use]
    pub fn to_string(&self) -> (r: String)
        ensures
            r@ == decode_error_text(*self),
        decreases self,
    {
        match self {
            DecodeError::Context { context, error } => {
                let mut text = context.clone();
                text.append(": ");
                text.append(error.to_string().as_str());
                text
            },
            DecodeError::Custom { message } => String::from_str("Custom error: ").concat(
                message.as_str(),
            ),
            DecodeError::UnexpectedEnd => String::from_str("Unexpected end of file"),
            DecodeError::InvalidUtf8(err) => String::from_str("Invalid UTF-8 sequence: ").concat(
                utf8_error_text(err).as_str(),
            ),
            DecodeError::InvalidVarInt => String::from_str("Invalid VarInt"),
            DecodeError::InvalidVarLong => String::from_str("Invalid VarLong"),
        }
    }
}

/// Attaching a note to the error of a result, if it holds one.
pub trait DecodeErrorContext: Sized {
    /// Whether `noted` is this result with the note `context` on its error:
    /// the same where this is no error, and else the error wrapped in the
    /// note.
    spec fn with_note(self, context: Seq<char>, noted: Self) -> bool;

    #[must_use]
    fn err_context(self, context: &str) -> (r: Self)
        ensures
            self.with_note(context@, r),
    ;
}

impl<T> DecodeErrorContext for Result<T, DecodeError> {
    open spec fn with_note(self, context: Seq<char>, noted: Self) -> bool {
        match self {
            Ok(v) => noted == Ok::<T, DecodeError>(v),
            Err(e) => noted matches Err(f) && f@ == e@.context(context),
        }
    }

    fn err_context(self, context: &str) -> (r: Self) {
        match self {
            Ok(v) => Ok(v),
            Err(e) => Err(e.context(context)),
        }
    }
}

} // verus!
