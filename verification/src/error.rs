//! Errors and diagnostics.

use vstd::prelude::*;
use crate::paths::{debug_path, path_debug};
use crate::text::{concat, decimal, decimal_text};

verus! {

/// A failure of one source.
#[derive(Debug, Clone)]
pub enum SourceError {
    SourceRead { source_name: String, reason: String },
    ParseError { path: String, line: u32, message: String },
    Remote { provider: String, reason: String },
    Timeout { source_name: String },
    Authentication { source_name: String },
    Permission { source_name: String },
    UnsupportedOperation { operation: String, source_type: String, reason: String },
}

/// A failure of the library.
#[derive(Debug, Clone)]
pub enum AbundantisError {
    Config { message: String, path: Option<String> },
    MissingConfig { field: &'static str, suggestion: String },
    UnknownProvider { provider: String },
    InvalidGlob { pattern: String, reason: String },
    WorkspaceNotFound { search_path: String },
    ProviderConfigNotFound { expected_file: &'static str, search_path: String },
    ProviderConfigParse { path: String, reason: String },
    Source(SourceError),
    CircularDependency { chain: String },
    MaxDepthExceeded { key: String, depth: u32 },
    UndefinedVariable { key: String },
    Io(String),
    Runtime(String),
    Cache(String),
}

/// What a failure of a source says.
pub open spec fn source_error_message(e: SourceError) -> Seq<char> {
    match e {
        SourceError::SourceRead { source_name, reason } => "Failed to read source `"@ + source_name@
            + "`: "@ + reason@,
        SourceError::ParseError { path, line, message } => "Parse error in `"@ + path_debug(path@)
            + "` at line "@ + decimal_text(line as nat) + ": "@ + message@,
        SourceError::Remote { provider, reason } => "Remote source error from `"@ + provider@
            + "`: "@ + reason@,
        SourceError::Timeout { source_name } => "Timeout while loading source `"@ + source_name@
            + "`"@,
        SourceError::Authentication { source_name } => "Authentication failed for source `"@
            + source_name@ + "`"@,
        SourceError::Permission { source_name } => "Permission denied for source `"@ + source_name@
            + "`"@,
        SourceError::UnsupportedOperation { operation, source_type, reason } =>
            "Unsupported operation `"@ + operation@ + "` for source: "@ + reason@,
    }
}

/// What a failure of the library says.
pub open spec fn error_message(e: AbundantisError) -> Seq<char> {
    match e {
        AbundantisError::Config { message, path } => "Configuration error: "@ + message@,
        AbundantisError::MissingConfig { field, suggestion } =>
            "Missing required configuration: `"@ + field@ + "`. "@ + suggestion@,
        AbundantisError::UnknownProvider { provider } => "Unknown provider `"@ + provider@
            + "`. Valid options: turbo, nx, lerna, pnpm, npm, yarn, cargo, custom"@,
        AbundantisError::InvalidGlob { pattern, reason } => "Invalid glob pattern `"@ + pattern@
            + "`: "@ + reason@,
        AbundantisError::WorkspaceNotFound { search_path } =>
            "Workspace root not found. Searched from: "@ + path_debug(search_path@),
        AbundantisError::ProviderConfigNotFound { expected_file, search_path } =>
            "Provider config file not found: "@ + expected_file@ + " in "@ + path_debug(
                search_path@,
            ),
        AbundantisError::ProviderConfigParse { path, reason } =>
            "Failed to parse provider config `"@ + path_debug(path@) + "`: "@ + reason@,
        AbundantisError::Source(inner) => "Source error: "@ + source_error_message(inner),
        AbundantisError::CircularDependency { chain } => "Circular dependency detected: "@ + chain@,
        AbundantisError::MaxDepthExceeded { key, depth } => "Max interpolation depth ("@
            + decimal_text(depth as nat) + ") exceeded for `"@ + key@ + "`"@,
        AbundantisError::UndefinedVariable { key } => "Undefined variable `"@ + key@
            + "` referenced in interpolation"@,
        AbundantisError::Io(reason) => "IO error: "@ + reason@,
        AbundantisError::Runtime(reason) => "Tokio runtime error: "@ + reason@,
        AbundantisError::Cache(reason) => "Cache error: "@ + reason@,
    }
}

/// The texts one after the other.
fn concat3(a: &str, b: &str, c: &str) -> (r: String)
    ensures
        r@ == a@ + b@ + c@,
{
    let mut out = a.to_owned();
    out.append(b);
    out.append(c);
    out
}

/// The texts one after the other.
fn concat4(a: &str, b: &str, c: &str, d: &str) -> (r: String)
    ensures
        r@ == a@ + b@ + c@ + d@,
{
    let mut out = a.to_owned();
    out.append(b);
    out.append(c);
    out.append(d);
    out
}

impl SourceError {
    /// What the failure says.
    pub fn message(&self) -> (r: String)
        ensures
            r@ == source_error_message(*self),
    {
        match self {
            SourceError::SourceRead { source_name, reason } => concat4(
                "Failed to read source `",
                source_name.as_str(),
                "`: ",
                reason.as_str(),
            ),
            SourceError::ParseError { path, line, message } => {
                let head = concat4(
                    "Parse error in `",
                    debug_path(path.as_str()).as_str(),
                    "` at line ",
                    decimal(*line).as_str(),
                );
                concat3(head.as_str(), ": ", message.as_str())
            },
            SourceError::Remote { provider, reason } => concat4(
                "Remote source error from `",
                provider.as_str(),
                "`: ",
                reason.as_str(),
            ),
            SourceError::Timeout { source_name } => concat3(
                "Timeout while loading source `",
                source_name.as_str(),
                "`",
            ),
            SourceError::Authentication { source_name } => concat3(
                "Authentication failed for source `",
                source_name.as_str(),
                "`",
            ),
            SourceError::Permission { source_name } => concat3(
                "Permission denied for source `",
                source_name.as_str(),
                "`",
            ),
            SourceError::UnsupportedOperation { operation, source_type, reason } => concat4(
                "Unsupported operation `",
                operation.as_str(),
                "` for source: ",
                reason.as_str(),
            ),
        }
    }
}

impl AbundantisError {
    /// What the failure says.
    pub fn message(&self) -> (r: String)
        ensures
            r@ == error_message(*self),
    {
        match self {
            AbundantisError::Config { message, path } => concat(
                "Configuration error: ",
                message.as_str(),
            ),
            AbundantisError::MissingConfig { field, suggestion } => concat4(
                "Missing required configuration: `",
                field,
                "`. ",
                suggestion.as_str(),
            ),
            AbundantisError::UnknownProvider { provider } => concat3(
                "Unknown provider `",
                provider.as_str(),
                "`. Valid options: turbo, nx, lerna, pnpm, npm, yarn, cargo, custom",
            ),
            AbundantisError::InvalidGlob { pattern, reason } => concat4(
                "Invalid glob pattern `",
                pattern.as_str(),
                "`: ",
                reason.as_str(),
            ),
            AbundantisError::WorkspaceNotFound { search_path } => concat(
                "Workspace root not found. Searched from: ",
                debug_path(search_path.as_str()).as_str(),
            ),
            AbundantisError::ProviderConfigNotFound { expected_file, search_path } => concat4(
                "Provider config file not found: ",
                expected_file,
                " in ",
                debug_path(search_path.as_str()).as_str(),
            ),
            AbundantisError::ProviderConfigParse { path, reason } => concat4(
                "Failed to parse provider config `",
                debug_path(path.as_str()).as_str(),
                "`: ",
                reason.as_str(),
            ),
            AbundantisError::Source(inner) => concat("Source error: ", inner.message().as_str()),
            AbundantisError::CircularDependency { chain } => concat(
                "Circular dependency detected: ",
                chain.as_str(),
            ),
            AbundantisError::MaxDepthExceeded { key, depth } => {
                let head = concat3(
                    "Max interpolation depth (",
                    decimal(*depth).as_str(),
                    ") exceeded for `",
                );
                concat3(head.as_str(), key.as_str(), "`")
            },
            AbundantisError::UndefinedVariable { key } => concat3(
                "Undefined variable `",
                key.as_str(),
                "` referenced in interpolation",
            ),
            AbundantisError::Io(reason) => concat("IO error: ", reason.as_str()),
            AbundantisError::Runtime(reason) => concat("Tokio runtime error: ", reason.as_str()),
            AbundantisError::Cache(reason) => concat("Cache error: ", reason.as_str()),
        }
    }
}

/// `std::io::Error`, held as a value that only its own functions look into.
#[verifier::external_type_specification]
#[verifier::external_body]
pub struct ExIoError(std::io::Error);

/// Wraps the `Display` form of `std::io::Error`. The words are those of
/// the system, so nothing is promised of them.
#[verifier::external_body]
fn describe_io_error(e: &std::io::Error) -> String {
    e.to_string()
}

impl From<std::io::Error> for AbundantisError {
    /// An I/O error of the system becomes an `Io` error with the system's
    /// words.
    fn from(e: std::io::Error) -> (r: Self)
        ensures
            r is Io,
    {
        AbundantisError::Io(describe_io_error(&e))
    }
}

impl vstd::std_specs::convert::FromSpecImpl<std::io::Error> for AbundantisError {
    open spec fn obeys_from_spec() -> bool {
        false
    }

    open spec fn from_spec(e: std::io::Error) -> Self {
        arbitrary()
    }
}

impl From<SourceError> for AbundantisError {
    fn from(e: SourceError) -> (r: Self)
        ensures
            r == AbundantisError::Source(e),
    {
        AbundantisError::Source(e)
    }
}

impl vstd::std_specs::convert::FromSpecImpl<SourceError> for AbundantisError {
    open spec fn obeys_from_spec() -> bool {
        true
    }

    open spec fn from_spec(e: SourceError) -> Self {
        AbundantisError::Source(e)
    }
}

#[derive(Debug, Clone, Copy, PartialEq, Eq, Hash, Structural)]
pub enum DiagnosticSeverity {
    Error,
    Warning,
    Info,
    Hint,
}

#[derive(Debug, Clone, Copy, PartialEq, Eq, Hash, Structural)]
pub enum DiagnosticCode {
    EDF001,
    EDF002,
    EDF003,
    EDF004,
    RES001,
    RES002,
    RES003,
    WS001,
    WS002,
}

impl DiagnosticCode {
    /// The code as text, as it is shown to users.
    pub fn name(&self) -> (r: &'static str)
        ensures
            r@ == diagnostic_code_name(*self),
    {
        match self {
            DiagnosticCode::EDF001 => "EDF001",
            DiagnosticCode::EDF002 => "EDF002",
            DiagnosticCode::EDF003 => "EDF003",
            DiagnosticCode::EDF004 => "EDF004",
            DiagnosticCode::RES001 => "RES001",
            DiagnosticCode::RES002 => "RES002",
            DiagnosticCode::RES003 => "RES003",
            DiagnosticCode::WS001 => "WS001",
            DiagnosticCode::WS002 => "WS002",
        }
    }
}

pub open spec fn diagnostic_code_name(c: DiagnosticCode) -> Seq<char> {
    match c {
        DiagnosticCode::EDF001 => "EDF001"@,
        DiagnosticCode::EDF002 => "EDF002"@,
        DiagnosticCode::EDF003 => "EDF003"@,
        DiagnosticCode::EDF004 => "EDF004"@,
        DiagnosticCode::RES001 => "RES001"@,
        DiagnosticCode::RES002 => "RES002"@,
        DiagnosticCode::RES003 => "RES003"@,
        DiagnosticCode::WS001 => "WS001"@,
        DiagnosticCode::WS002 => "WS002"@,
    }
}

/// A finding about a file, emitted beside the result.
#[derive(Debug, Clone)]
pub struct Diagnostic {
    pub severity: DiagnosticSeverity,
    pub code: DiagnosticCode,
    pub message: String,
    pub path: String,
    pub line: u32,
    pub column: u32,
}

impl PartialEq for Diagnostic {
    fn eq(&self, other: &Self) -> (r: bool) {
        self.severity == other.severity && self.code == other.code && self.message == other.message
            && self.path == other.path && self.line == other.line && self.column == other.column
    }
}

impl Eq for Diagnostic {}

impl vstd::std_specs::cmp::PartialEqSpecImpl for Diagnostic {
    open spec fn obeys_eq_spec() -> bool {
        true
    }

    open spec fn eq_spec(&self, other: &Self) -> bool {
        self.severity == other.severity && self.code == other.code && self.message@
            == other.message@ && self.path@ == other.path@ && self.line == other.line
            && self.column == other.column
    }
}

} // verus!
