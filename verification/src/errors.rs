use vstd::prelude::*;
use crate::text::{chars_of, string_push_str};

verus! {

/// Broad asset error categories surfaced by loading and registry operations.
#[derive(Debug, Clone, Copy, PartialEq, Eq, Structural)]
pub enum AssetErrorKind {
    /// Requested asset metadata or file was not found.
    NotFound,
    /// Asset data could not be decoded or initialized.
    LoadError,
    /// Attempted to create an asset that already exists.
    AlreadyExists,
    /// Loaded asset type did not match the expected type.
    TypeMismatch,
}

/// Structured asset error with optional path, type, and source context.
#[derive(Debug, Clone, PartialEq, Eq)]
pub struct AssetError {
    /// Broad error category.
    pub kind: AssetErrorKind,
    /// Asset path involved in the failure, when known.
    pub path: Option<String>,
    /// Asset type involved in the failure, when known.
    pub asset_type: Option<&'static str>,
    /// Displayable source error text, when available.
    pub source: Option<String>,
}

/// The words that start the text of an error of `kind`.
pub open spec fn kind_text(kind: AssetErrorKind) -> Seq<char> {
    match kind {
        AssetErrorKind::NotFound => "asset not found"@,
        AssetErrorKind::LoadError => "asset load failed"@,
        AssetErrorKind::AlreadyExists => "asset already exists"@,
        AssetErrorKind::TypeMismatch => "asset type mismatch"@,
    }
}

/// The text of an asset error: the kind, then ` for <type>`, ` at <path>` and
/// `: <source>` for the parts that are known.
pub open spec fn asset_error_text(e: AssetError) -> Seq<char> {
    kind_text(e.kind) + match e.asset_type {
        Some(t) => " for "@ + t@,
        None => Seq::empty(),
    } + match e.path {
        Some(p) => " at "@ + p@,
        None => Seq::empty(),
    } + match e.source {
        Some(s) => ": "@ + s@,
        None => Seq::empty(),
    }
}

impl AssetError {
    /// A new asset error of `kind` with no context.
    pub fn new(kind: AssetErrorKind) -> (r: AssetError)
        ensures
            r == (AssetError { kind, path: None, asset_type: None, source: None }),
    {
        AssetError { kind, path: None, asset_type: None, source: None }
    }

    /// A `NotFound` error with no context.
    pub fn not_found() -> (r: AssetError)
        ensures
            r == AssetError::new_spec(AssetErrorKind::NotFound),
    {
        AssetError::new(AssetErrorKind::NotFound)
    }

    /// A `LoadError` error with no context.
    pub fn load_error() -> (r: AssetError)
        ensures
            r == AssetError::new_spec(AssetErrorKind::LoadError),
    {
        AssetError::new(AssetErrorKind::LoadError)
    }

    /// An `AlreadyExists` error with no context.
    pub fn already_exists() -> (r: AssetError)
        ensures
            r == AssetError::new_spec(AssetErrorKind::AlreadyExists),
    {
        AssetError::new(AssetErrorKind::AlreadyExists)
    }

    /// A `TypeMismatch` error with no context.
    pub fn type_mismatch() -> (r: AssetError)
        ensures
            r == AssetError::new_spec(AssetErrorKind::TypeMismatch),
    {
        AssetError::new(AssetErrorKind::TypeMismatch)
    }

    pub open spec fn new_spec(kind: AssetErrorKind) -> AssetError {
        AssetError { kind, path: None, asset_type: None, source: None }
    }

    /// Attaches a filesystem path to the error.
    pub fn with_path(self, path: &str) -> (r: AssetError)
        ensures
            r.kind == self.kind && r.asset_type == self.asset_type && r.source == self.source,
            r.path matches Some(p) && p@ == path@,
    {
        AssetError { path: Some(path.to_owned()), ..self }
    }

    /// Attaches an asset type label to the error.
    pub fn with_type(self, asset_type: &'static str) -> (r: AssetError)
        ensures
            r == (AssetError { asset_type: Some(asset_type), ..self }),
    {
        AssetError { asset_type: Some(asset_type), ..self }
    }

    /// Attaches the text of a source error.
    pub fn with_source(self, source: String) -> (r: AssetError)
        ensures
            r == (AssetError { source: Some(source), ..self }),
    {
        AssetError { source: Some(source), ..self }
    }

    /// A copy of this error.
    pub fn duplicate(&self) -> (r: AssetError)
        ensures
            r == *self,
    {
        let path = match &self.path {
            Some(p) => Some(p.clone()),
            None => None,
        };
        let source = match &self.source {
            Some(s) => Some(s.clone()),
            None => None,
        };
        AssetError { kind: self.kind, path, asset_type: self.asset_type, source }
    }

    /// The text of this error.
    pub fn to_display_string(&self) -> (r: String)
        ensures
            r@ == asset_error_text(*self),
    {
        let mut s = String::new();
        let kind: &str = match self.kind {
            AssetErrorKind::NotFound => "asset not found",
            AssetErrorKind::LoadError => "asset load failed",
            AssetErrorKind::AlreadyExists => "asset already exists",
            AssetErrorKind::TypeMismatch => "asset type mismatch",
        };
        string_push_str(&mut s, kind);
        let ghost a = s@;
        if let Some(t) = self.asset_type {
            string_push_str(&mut s, " for ");
            string_push_str(&mut s, t);
        }
        let ghost b = s@;
        if let Some(p) = &self.path {
            string_push_str(&mut s, " at ");
            string_push_str(&mut s, p.as_str());
        }
        let ghost c = s@;
        if let Some(src) = &self.source {
            string_push_str(&mut s, ": ");
            string_push_str(&mut s, src.as_str());
        }
        proof {
            assert(s@ =~= asset_error_text(*self));
        }
        s
    }
}

/// A general engine error carrying a message.
#[derive(Debug)]
pub struct EngineError {
    details: String,
}

impl EngineError {
    pub closed spec fn message(&self) -> Seq<char> {
        self.details@
    }

    /// An error with message `msg`.
    pub fn new(msg: &str) -> (r: EngineError)
        ensures
            r.message() == msg@,
    {
        EngineError { details: msg.to_owned() }
    }

    /// The text of this error: its message.
    pub fn to_display_string(&self) -> (r: String)
        ensures
            r@ == self.message(),
    {
        self.details.clone()
    }
}

/// Collects log lines until they are drained.
pub struct LogRegistry {
    logs: Vec<String>,
}

impl LogRegistry {
    pub closed spec fn lines(&self) -> Seq<String> {
        self.logs@
    }

    /// A registry without lines.
    pub fn new() -> (r: LogRegistry)
        ensures
            r.lines() == Seq::<String>::empty(),
    {
        LogRegistry { logs: Vec::new() }
    }

    /// Adds one line.
    pub fn push(&mut self, line: String)
        ensures
            final(self).lines() == old(self).lines().push(line),
    {
        self.logs.push(line);
    }

    /// Takes every collected line, oldest first, and leaves none.
    pub fn drain_logs(&mut self) -> (r: Vec<String>)
        ensures
            r@ == old(self).lines(),
            final(self).lines() == Seq::<String>::empty(),
    {
        let mut taken: Vec<String> = Vec::new();
        std::mem::swap(&mut taken, &mut self.logs);
        taken
    }
}

impl Default for LogRegistry {
    fn default() -> (r: LogRegistry)
        ensures
            r.lines() == Seq::<String>::empty(),
    {
        LogRegistry::new()
    }
}

/// The log targets that are not recorded: those of the graphics and UI
/// libraries.
pub open spec fn log_target_enabled_spec(target: Seq<char>) -> bool {
    !("wgpu"@.is_prefix_of(target) || "eframe"@.is_prefix_of(target) || "naga"@.is_prefix_of(target)
        || "egui"@.is_prefix_of(target))
}

fn starts_with(s: &Vec<char>, prefix: &str) -> (r: bool)
    ensures
        r == prefix@.is_prefix_of(s@),
{
    let p = chars_of(prefix);
    if p.len() > s.len() {
        return false;
    }
    let mut i: usize = 0;
    while i < p.len()
        invariant
            i <= p@.len(),
            p@.len() <= s@.len(),
            p@ == prefix@,
            forall|j: int| 0 <= j < i ==> p@[j] == s@[j],
        decreases p@.len() - i,
    {
        if p[i] != s[i] {
            return false;
        }
        i = i + 1;
    }
    true
}

/// Whether log records of `target` are recorded.
pub fn log_target_enabled(target: &str) -> (r: bool)
    ensures
        r == log_target_enabled_spec(target@),
{
    let t = chars_of(target);
    !(starts_with(&t, "wgpu") || starts_with(&t, "eframe") || starts_with(&t, "naga")
        || starts_with(&t, "egui"))
}

/// The logger of the engine: it records the enabled log records, as lines
/// `<level>: <message>`, in a `LogRegistry`.
pub struct Logger;

/// The line recorded for a record of `level` with the text `message`.
pub open spec fn log_line(level: Seq<char>, message: Seq<char>) -> Seq<char> {
    level + ": "@ + message
}

impl Logger {
    /// Whether records of the target `target` are recorded.
    pub fn enabled(&self, target: &str) -> (r: bool)
        ensures
            r == log_target_enabled_spec(target@),
    {
        log_target_enabled(target)
    }

    /// Records a record of `target` at `level` with the text `message`, when
    /// its target is enabled.
    pub fn log(&self, registry: &mut LogRegistry, target: &str, level: &str, message: &str)
        ensures
            final(registry).lines() == if log_target_enabled_spec(target@) {
                old(registry).lines().push(final(registry).lines().last())
            } else {
                old(registry).lines()
            },
            log_target_enabled_spec(target@) ==> final(registry).lines().last()@ == log_line(
                level@,
                message@,
            ),
    {
        if self.enabled(target) {
            let mut line = String::new();
            string_push_str(&mut line, level);
            string_push_str(&mut line, ": ");
            string_push_str(&mut line, message);
            registry.push(line);
        }
    }
}

} // verus!
