//! Identity, kind and abilities of a source, and the snapshot it yields.

use vstd::prelude::*;
use crate::clock::instant_now;
use crate::error::SourceError;
use crate::source::config::SourceRefreshOptions;
use crate::source::variable::{clone_variables, variable_views, ParsedVariable, ParsedVariableView};
use crate::text::clone_opt_string;

verus! {

/// The stable textual identity of a source.
///
/// File sources are named `file:<path>`, the shell `shell:process`, remote
/// sources `remote:<provider>:...`.
#[derive(Debug, Hash)]
pub struct SourceId(String);

impl View for SourceId {
    type V = Seq<char>;

    closed spec fn view(&self) -> Seq<char> {
        self.0@
    }
}

impl SourceId {
    pub fn new(id: &str) -> (r: Self)
        ensures
            r@ == id@,
    {
        SourceId(id.to_owned())
    }

    pub fn as_str(&self) -> (r: &str)
        ensures
            r@ == self@,
    {
        self.0.as_str()
    }
}

impl Clone for SourceId {
    fn clone(&self) -> (r: Self)
        ensures
            r@ == self@,
    {
        SourceId(self.0.clone())
    }
}

impl PartialEq for SourceId {
    fn eq(&self, other: &Self) -> (r: bool) {
        self.0 == other.0
    }
}

impl Eq for SourceId {}

impl vstd::std_specs::cmp::PartialEqSpecImpl for SourceId {
    open spec fn obeys_eq_spec() -> bool {
        true
    }

    open spec fn eq_spec(&self, other: &Self) -> bool {
        self@ == other@
    }
}

impl From<&str> for SourceId {
    fn from(s: &str) -> (r: Self)
        ensures
            r@ == s@,
    {
        SourceId::new(s)
    }
}

impl vstd::std_specs::convert::FromSpecImpl<&str> for SourceId {
    open spec fn obeys_from_spec() -> bool {
        false
    }

    open spec fn from_spec(s: &str) -> Self {
        arbitrary()
    }
}

impl From<String> for SourceId {
    fn from(s: String) -> (r: Self)
        ensures
            r@ == s@,
    {
        SourceId(s)
    }
}

impl vstd::std_specs::convert::FromSpecImpl<String> for SourceId {
    open spec fn obeys_from_spec() -> bool {
        true
    }

    closed spec fn from_spec(s: String) -> Self {
        SourceId(s)
    }
}

/// The rank of a source where an order among sources is needed.
#[derive(Debug, Clone, Copy, PartialEq, Eq, PartialOrd, Ord, Structural)]
pub struct Priority(pub u32);

#[allow(non_snake_case)]
impl Priority {
    /// The rank of the process environment.
    pub fn SHELL() -> (p: Priority)
        ensures
            p.0 == 100,
    {
        Priority(100)
    }

    /// The rank of a dotenv file.
    pub fn FILE() -> (p: Priority)
        ensures
            p.0 == 50,
    {
        Priority(50)
    }

    /// The rank of in-memory overrides.
    pub fn MEMORY() -> (p: Priority)
        ensures
            p.0 == 30,
    {
        Priority(30)
    }

    /// The rank of a remote provider.
    pub fn REMOTE() -> (p: Priority)
        ensures
            p.0 == 75,
    {
        Priority(75)
    }
}

#[derive(Debug, Clone, Copy, PartialEq, Eq, Hash, Structural)]
pub enum SourceType {
    File,
    Shell,
    Memory,
    Remote,
}

impl SourceType {
    /// The rank that a source of this kind has by default.
    pub fn default_priority(&self) -> (p: Priority)
        ensures
            p.0 == match *self {
                SourceType::Shell => 100u32,
                SourceType::Remote => 75u32,
                SourceType::File => 50u32,
                SourceType::Memory => 30u32,
            },
    {
        match self {
            SourceType::Shell => Priority(100),
            SourceType::Remote => Priority(75),
            SourceType::File => Priority(50),
            SourceType::Memory => Priority(30),
        }
    }
}

/// What a source yields at one moment.
#[derive(Debug)]
pub struct SourceSnapshot {
    pub source_id: SourceId,
    pub variables: Vec<ParsedVariable>,
    pub timestamp: std::time::Instant,
    pub version: Option<u64>,
}

/// A snapshot without the moment it was taken at.
pub struct SourceSnapshotView {
    pub source_id: Seq<char>,
    pub variables: Seq<ParsedVariableView>,
    pub version: Option<u64>,
}

impl View for SourceSnapshot {
    type V = SourceSnapshotView;

    open spec fn view(&self) -> SourceSnapshotView {
        SourceSnapshotView {
            source_id: self.source_id@,
            variables: variable_views(self.variables@),
            version: self.version,
        }
    }
}

impl SourceSnapshot {
    /// A snapshot taken now.
    pub fn new(source_id: SourceId, variables: Vec<ParsedVariable>, version: Option<u64>) -> (r:
        Self)
        ensures
            r.source_id == source_id,
            r.variables == variables,
            r.version == version,
    {
        SourceSnapshot { source_id, variables, timestamp: instant_now(), version }
    }
}

impl Clone for SourceSnapshot {
    fn clone(&self) -> (r: Self)
        ensures
            r@ == self@,
            r.timestamp == self.timestamp,
    {
        SourceSnapshot {
            source_id: self.source_id.clone(),
            variables: clone_variables(&self.variables),
            timestamp: self.timestamp,
            version: self.version,
        }
    }
}

/// What a source tells about itself.
#[derive(Debug)]
pub struct SourceMetadata {
    pub display_name: Option<String>,
    pub description: Option<String>,
    pub last_refreshed: Option<std::time::Instant>,
    pub error_count: u32,
}

impl Default for SourceMetadata {
    fn default() -> (r: Self)
        ensures
            r.display_name is None,
            r.description is None,
            r.last_refreshed is None,
            r.error_count == 0,
    {
        SourceMetadata { display_name: None, description: None, last_refreshed: None, error_count: 0 }
    }
}

impl Clone for SourceMetadata {
    fn clone(&self) -> (r: Self)
        ensures
            r == *self,
    {
        SourceMetadata {
            display_name: clone_opt_string(&self.display_name),
            description: clone_opt_string(&self.description),
            last_refreshed: self.last_refreshed,
            error_count: self.error_count,
        }
    }
}

/// A provider of variables.
///
/// The library's own sources implement it; so may a user's. A snapshot that
/// `load` returns carries the identity of the source that made it.
pub trait EnvSource: Send + Sync {
    /// The text of the source's identity.
    open spec fn id_text(&self) -> Seq<char> {
        arbitrary()
    }

    /// The kind of the source.
    open spec fn kind(&self) -> SourceType {
        arbitrary()
    }

    /// The rank of the source.
    open spec fn rank(&self) -> Priority {
        arbitrary()
    }

    fn id(&self) -> (r: &SourceId)
        ensures
            r@ == self.id_text(),
    ;

    fn source_type(&self) -> (r: SourceType)
        ensures
            r == self.kind(),
    ;

    fn priority(&self) -> (r: Priority)
        ensures
            r == self.rank(),
    ;

    fn capabilities(&self) -> SourceCapabilities;

    fn load(&self) -> (r: Result<SourceSnapshot, SourceError>)
        ensures
            r matches Ok(s) ==> s.source_id@ == self.id_text(),
    ;

    fn has_changed(&self) -> bool;

    fn invalidate(&self);

    fn metadata(&self) -> SourceMetadata {
        SourceMetadata::default()
    }

    fn refresh(&self, _options: &SourceRefreshOptions) {
        self.invalidate();
    }
}

/// The abilities of a source, one bit each.
#[derive(Debug, Clone, Copy, PartialEq, Eq, Structural)]
pub struct SourceCapabilities {
    bits: u32,
}

impl SourceCapabilities {
    /// Values can be read.
    #[allow(non_snake_case)]
    pub fn READ() -> (r: Self)
        ensures
            r.spec_bits() == 1,
    {
        SourceCapabilities { bits: 1 }
    }

    /// Values can be set and removed.
    #[allow(non_snake_case)]
    pub fn WRITE() -> (r: Self)
        ensures
            r.spec_bits() == 2,
    {
        SourceCapabilities { bits: 2 }
    }

    /// Changes can be watched.
    #[allow(non_snake_case)]
    pub fn WATCH() -> (r: Self)
        ensures
            r.spec_bits() == 4,
    {
        SourceCapabilities { bits: 4 }
    }

    /// Values may be secrets.
    #[allow(non_snake_case)]
    pub fn SECRETS() -> (r: Self)
        ensures
            r.spec_bits() == 8,
    {
        SourceCapabilities { bits: 8 }
    }

    /// Snapshots carry versions.
    #[allow(non_snake_case)]
    pub fn VERSIONED() -> (r: Self)
        ensures
            r.spec_bits() == 16,
    {
        SourceCapabilities { bits: 16 }
    }

    /// Snapshots may be cached.
    #[allow(non_snake_case)]
    pub fn CACHEABLE() -> (r: Self)
        ensures
            r.spec_bits() == 32,
    {
        SourceCapabilities { bits: 32 }
    }

    /// Loading needs an asynchronous runtime.
    #[allow(non_snake_case)]
    pub fn ASYNC_ONLY() -> (r: Self)
        ensures
            r.spec_bits() == 64,
    {
        SourceCapabilities { bits: 64 }
    }

    /// The bits that are set.
    pub closed spec fn spec_bits(&self) -> u32 {
        self.bits
    }

    #[verifier::when_used_as_spec(spec_bits)]
    pub fn bits(&self) -> (r: u32)
        ensures
            r == self.spec_bits(),
    {
        self.bits
    }

    /// No ability.
    pub fn empty() -> (r: Self)
        ensures
            r.spec_bits() == 0,
    {
        SourceCapabilities { bits: 0 }
    }

    /// Every ability.
    pub fn all() -> (r: Self)
        ensures
            r.spec_bits() == 127,
    {
        SourceCapabilities { bits: 127 }
    }

    /// Whether every ability of `other` is among these.
    pub fn contains(&self, other: SourceCapabilities) -> (r: bool)
        ensures
            r == (self.spec_bits() & other.spec_bits() == other.spec_bits()),
    {
        self.bits & other.bits == other.bits
    }

    /// The abilities of either.
    pub fn union(self, other: SourceCapabilities) -> (r: Self)
        ensures
            r.spec_bits() == self.spec_bits() | other.spec_bits(),
    {
        SourceCapabilities { bits: self.bits | other.bits }
    }
}

impl std::ops::BitOr for SourceCapabilities {
    type Output = SourceCapabilities;

    fn bitor(self, other: SourceCapabilities) -> (r: SourceCapabilities)
        ensures
            r.spec_bits() == self.spec_bits() | other.spec_bits(),
    {
        SourceCapabilities { bits: self.bits | other.bits }
    }
}

impl vstd::std_specs::ops::BitOrSpecImpl for SourceCapabilities {
    open spec fn obeys_bitor_spec() -> bool {
        true
    }

    open spec fn bitor_req(self, other: SourceCapabilities) -> bool {
        true
    }

    closed spec fn bitor_spec(self, other: SourceCapabilities) -> SourceCapabilities {
        SourceCapabilities { bits: self.bits | other.bits }
    }
}

impl Default for SourceCapabilities {
    fn default() -> (r: Self)
        ensures
            r.spec_bits() == 33,
    {
        SourceCapabilities { bits: 33 }
    }
}

} // verus!
