//! Error kinds shared by the whole library.
use vstd::prelude::*;

verus! {

/// Marker for the error kinds of the library. Each crate may define its own
/// kind enum; the trait itself has no methods.
pub trait ErrorKind {}

/// The base error kinds. Each variant carries a message.
#[derive(Clone, Debug, PartialEq, Eq)]
pub enum CoreErrorKind {
    /// Parse error
    Parse(String),
    /// Corrupted data error
    CorruptedData(String),
    /// Operation not supported error
    OperationNotSupported(String),
    /// TryInto error
    TryInto(String),
    /// Illegal state
    IllegalState(String),
    /// I/O error
    IO(String),
    /// TryFrom error
    TryFrom(String),
    /// OsString error
    OsString(String),
    /// Utf8 error
    Utf8(String),
    /// Poison error
    Poison(String),
    /// Alloc error
    Alloc(String),
    /// Misc error
    Misc(String),
    /// SystemTime error
    SystemTime(String),
    /// Errno error
    Errno(String),
}

impl ErrorKind for CoreErrorKind {}

/// The label that the display of each kind puts before its message.
pub open spec fn core_label(k: CoreErrorKind) -> Seq<char> {
    match k {
        CoreErrorKind::Parse(_) => "parse error: "@,
        CoreErrorKind::CorruptedData(_) => "corrupted data error: "@,
        CoreErrorKind::OperationNotSupported(_) => "operation not supported error: "@,
        CoreErrorKind::TryInto(_) => "try into error: "@,
        CoreErrorKind::IllegalState(_) => "illegal state: "@,
        CoreErrorKind::IO(_) => "i/o error: "@,
        CoreErrorKind::TryFrom(_) => "try/from error: "@,
        CoreErrorKind::OsString(_) => "osstring error: "@,
        CoreErrorKind::Utf8(_) => "utf8 error: "@,
        CoreErrorKind::Poison(_) => "poison error: "@,
        CoreErrorKind::Alloc(_) => "alloc error: "@,
        CoreErrorKind::Misc(_) => "misc error: "@,
        CoreErrorKind::SystemTime(_) => "system time error: "@,
        CoreErrorKind::Errno(_) => "errno: "@,
    }
}

/// The message a kind carries.
pub open spec fn core_detail(k: CoreErrorKind) -> Seq<char> {
    match k {
        CoreErrorKind::Parse(s) => s@,
        CoreErrorKind::CorruptedData(s) => s@,
        CoreErrorKind::OperationNotSupported(s) => s@,
        CoreErrorKind::TryInto(s) => s@,
        CoreErrorKind::IllegalState(s) => s@,
        CoreErrorKind::IO(s) => s@,
        CoreErrorKind::TryFrom(s) => s@,
        CoreErrorKind::OsString(s) => s@,
        CoreErrorKind::Utf8(s) => s@,
        CoreErrorKind::Poison(s) => s@,
        CoreErrorKind::Alloc(s) => s@,
        CoreErrorKind::Misc(s) => s@,
        CoreErrorKind::SystemTime(s) => s@,
        CoreErrorKind::Errno(s) => s@,
    }
}

/// Two kinds are the same variant.
pub open spec fn same_variant(a: CoreErrorKind, b: CoreErrorKind) -> bool {
    core_label(a) == core_label(b)
}

impl CoreErrorKind {
    /// The message this kind carries.
    pub fn detail(&self) -> (r: &String)
        ensures
            r@ == core_detail(*self),
    {
        match self {
            CoreErrorKind::Parse(s) => s,
            CoreErrorKind::CorruptedData(s) => s,
            CoreErrorKind::OperationNotSupported(s) => s,
            CoreErrorKind::TryInto(s) => s,
            CoreErrorKind::IllegalState(s) => s,
            CoreErrorKind::IO(s) => s,
            CoreErrorKind::TryFrom(s) => s,
            CoreErrorKind::OsString(s) => s,
            CoreErrorKind::Utf8(s) => s,
            CoreErrorKind::Poison(s) => s,
            CoreErrorKind::Alloc(s) => s,
            CoreErrorKind::Misc(s) => s,
            CoreErrorKind::SystemTime(s) => s,
            CoreErrorKind::Errno(s) => s,
        }
    }

    fn label(&self) -> (r: &'static str)
        ensures
            r@ == core_label(*self),
    {
        match self {
            CoreErrorKind::Parse(_) => "parse error: ",
            CoreErrorKind::CorruptedData(_) => "corrupted data error: ",
            CoreErrorKind::OperationNotSupported(_) => "operation not supported error: ",
            CoreErrorKind::TryInto(_) => "try into error: ",
            CoreErrorKind::IllegalState(_) => "illegal state: ",
            CoreErrorKind::IO(_) => "i/o error: ",
            CoreErrorKind::TryFrom(_) => "try/from error: ",
            CoreErrorKind::OsString(_) => "osstring error: ",
            CoreErrorKind::Utf8(_) => "utf8 error: ",
            CoreErrorKind::Poison(_) => "poison error: ",
            CoreErrorKind::Alloc(_) => "alloc error: ",
            CoreErrorKind::Misc(_) => "misc error: ",
            CoreErrorKind::SystemTime(_) => "system time error: ",
            CoreErrorKind::Errno(_) => "errno: ",
        }
    }

    /// The text the kind displays: its label, then its message
    /// (for example `parse error: bad digit`).
    pub fn message(&self) -> (r: String)
        ensures
            r@ == core_label(*self) + core_detail(*self),
    {
        let mut r = String::from_str(self.label());
        r.append(self.detail().as_str());
        r
    }

    /// The same kind, with `context` and `": "` put before its message, as
    /// mapping an error with a context message does.
    pub fn with_context(self, context: &str) -> (r: CoreErrorKind)
        ensures
            same_variant(r, self),
            core_detail(r) == context@ + ": "@ + core_detail(self),
    {
        let mut m = String::from_str(context);
        m.append(": ");
        m.append(self.detail().as_str());
        match self {
            CoreErrorKind::Parse(_) => CoreErrorKind::Parse(m),
            CoreErrorKind::CorruptedData(_) => CoreErrorKind::CorruptedData(m),
            CoreErrorKind::OperationNotSupported(_) => CoreErrorKind::OperationNotSupported(m),
            CoreErrorKind::TryInto(_) => CoreErrorKind::TryInto(m),
            CoreErrorKind::IllegalState(_) => CoreErrorKind::IllegalState(m),
            CoreErrorKind::IO(_) => CoreErrorKind::IO(m),
            CoreErrorKind::TryFrom(_) => CoreErrorKind::TryFrom(m),
            CoreErrorKind::OsString(_) => CoreErrorKind::OsString(m),
            CoreErrorKind::Utf8(_) => CoreErrorKind::Utf8(m),
            CoreErrorKind::Poison(_) => CoreErrorKind::Poison(m),
            CoreErrorKind::Alloc(_) => CoreErrorKind::Alloc(m),
            CoreErrorKind::Misc(_) => CoreErrorKind::Misc(m),
            CoreErrorKind::SystemTime(_) => CoreErrorKind::SystemTime(m),
            CoreErrorKind::Errno(_) => CoreErrorKind::Errno(m),
        }
    }
}

/// The kinds of errors of the networking parts of the library: the base
/// kinds, and the kinds of the event handler and the HTTP server.
#[derive(Clone, Debug, PartialEq, Eq)]
pub enum ErrKind {
    /// One of the base kinds.
    Core(CoreErrorKind),
    /// An argument was not acceptable.
    IllegalArgument(String),
    /// An internal state was not as expected.
    IllegalState(String),
    /// An HTTP protocol error.
    Http(String),
    /// A configuration was not acceptable.
    Configuration(String),
}

impl ErrorKind for ErrKind {}

/// The error returned by the library.
#[derive(Clone, Debug, PartialEq, Eq)]
pub struct Error {
    kind: ErrKind,
}

impl Error {
    /// An error of the given kind.
    pub fn new(kind: ErrKind) -> (e: Error)
        ensures
            e.spec_kind() == kind,
    {
        Error { kind }
    }

    /// An error of one of the base kinds.
    pub fn base(kind: CoreErrorKind) -> (e: Error)
        ensures
            e.spec_kind() == ErrKind::Core(kind),
    {
        Error { kind: ErrKind::Core(kind) }
    }

    /// The kind of this error.
    pub closed spec fn spec_kind(&self) -> ErrKind {
        self.kind
    }

    /// The kind of this error.
    pub fn kind(&self) -> (k: &ErrKind)
        ensures
            *k == self.spec_kind(),
    {
        &self.kind
    }

    /// An i/o error.
    pub open spec fn is_io(&self) -> bool {
        self.spec_kind() matches ErrKind::Core(CoreErrorKind::IO(_))
    }

    /// A corrupted data error.
    pub open spec fn is_corrupted(&self) -> bool {
        self.spec_kind() matches ErrKind::Core(CoreErrorKind::CorruptedData(_))
    }

    /// A failed integer conversion.
    pub open spec fn is_try_into(&self) -> bool {
        self.spec_kind() matches ErrKind::Core(CoreErrorKind::TryInto(_))
    }

    /// A parse error.
    pub open spec fn is_parse(&self) -> bool {
        self.spec_kind() matches ErrKind::Core(CoreErrorKind::Parse(_))
    }

    /// An illegal argument.
    pub open spec fn is_illegal_argument(&self) -> bool {
        self.spec_kind() is IllegalArgument
    }

    /// An illegal state.
    pub open spec fn is_illegal_state(&self) -> bool {
        self.spec_kind() is IllegalState
    }

    /// An HTTP protocol error.
    pub open spec fn is_http(&self) -> bool {
        self.spec_kind() is Http
    }

    /// A configuration error.
    pub open spec fn is_configuration(&self) -> bool {
        self.spec_kind() is Configuration
    }
}

impl From<CoreErrorKind> for Error {
    fn from(kind: CoreErrorKind) -> (e: Error) {
        Error { kind: ErrKind::Core(kind) }
    }
}

impl vstd::std_specs::convert::FromSpecImpl<CoreErrorKind> for Error {
    open spec fn obeys_from_spec() -> bool {
        true
    }

    closed spec fn from_spec(kind: CoreErrorKind) -> Error {
        Error { kind: ErrKind::Core(kind) }
    }
}

} // verus!
