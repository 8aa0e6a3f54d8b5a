use vstd::prelude::*;

verus! {

/// The error kinds surfaced by the core: what a frame, registry or
/// policy operation reports when it refuses or fails.
#[derive(Clone, Copy, PartialEq, Eq, Structural, Debug)]
pub enum ErrorKind {
    /// Malformed argument, or a frame too large to send.
    InvalidInput,
    /// Decrypt or decode produced non-conforming bytes.
    InvalidData,
    /// Short read in the middle of a frame.
    UnexpectedEof,
    /// Lookup by peer address of an absent session.
    NotConnected,
    /// Lookup by nickname of an absent user.
    NotFound,
    /// Registration of a taken nickname.
    AlreadyExists,
    /// Password mismatch or policy refusal.
    PermissionDenied,
    /// An underlying transport failure.
    Io,
}

/// The reason a configuration file could not be parsed.
#[derive(Debug)]
pub enum ConfigParseErrorKind {
    /// An unsuccessful I/O operation, described in words by the caller
    /// that performed it.
    Io { description: String },
    /// Invalid syntax at a line of the configuration text.
    Syntax { line_num: u32, description: String },
}

/// An error caused by inability to parse a configuration file.
#[derive(Debug)]
pub struct ConfigParseError {
    file_path: String,
    kind: ConfigParseErrorKind,
}

impl ConfigParseError {
    /// The path of the file this error speaks of, as a character sequence.
    pub closed spec fn spec_file_path(self) -> Seq<char> {
        self.file_path@
    }

    /// The kind of failure this error reports.
    pub closed spec fn spec_kind(self) -> ConfigParseErrorKind {
        self.kind
    }

    /// Creates a new [`ConfigParseError`] from a file path and an error kind.
    pub fn new(file_path: String, kind: ConfigParseErrorKind) -> (r: Self)
        ensures
            r.spec_file_path() == file_path@,
            r.spec_kind() == kind,
    {
        Self { file_path, kind }
    }

    /// Creates a new [`ConfigParseError`] with a [`Syntax`] kind from a file
    /// path, a line number and a description.
    ///
    /// [`Syntax`]: ConfigParseErrorKind::Syntax
    pub fn syntax_error(file_path: String, line_num: u32, description: String) -> (r: Self)
        ensures
            r.spec_file_path() == file_path@,
            r.spec_kind() matches ConfigParseErrorKind::Syntax { line_num: l, description: d }
                && l == line_num && d@ == description@,
    {
        Self { file_path, kind: ConfigParseErrorKind::Syntax { line_num, description } }
    }

    /// Creates a new [`ConfigParseError`] with an [`Io`] kind from a file
    /// path and a description of the I/O failure.
    ///
    /// [`Io`]: ConfigParseErrorKind::Io
    pub fn io_error(file_path: String, description: String) -> (r: Self)
        ensures
            r.spec_file_path() == file_path@,
            r.spec_kind() matches ConfigParseErrorKind::Io { description: d } && d@ == description@,
    {
        Self { file_path, kind: ConfigParseErrorKind::Io { description } }
    }

    /// Returns the path of the file which could not be parsed.
    pub fn file_path(&self) -> (r: &str)
        ensures
            r@ == self.spec_file_path(),
    {
        self.file_path.as_str()
    }

    /// Returns the reason why parsing the configuration file did not succeed.
    pub fn kind(&self) -> (r: &ConfigParseErrorKind)
        ensures
            *r == self.spec_kind(),
    {
        &self.kind
    }
}

/// The result of parsing a configuration file.
pub type ConfigParseResult<T> = Result<T, ConfigParseError>;

} // verus!
