//! Source normalization: turn a high-level crate *source* into something the
//! loader can consume.
//!
//! A source describes *where* a crate comes from: a crates.io crate
//! ([`RegistrySource`]), a local crate directory ([`LocalPathSource`]) or a
//! single manifest file ([`ManifestSource`]); [`Source`] is one of them.
//! Preparing a local source needs the file system: [`LocalPathSource`] says
//! which question to ask next and decides from the answers.
use vstd::prelude::*;

use crate::error::{message_result, Error};
use crate::local::manifest_file_name;
use crate::paths::{has_extension, join, join_path, path_has_extension};
use crate::text::concat;

verus! {

/// `tempfile::TempDir`, the private workspace a prepared manifest lives in.
#[verifier::external_type_specification]
#[verifier::external_body]
pub struct ExTempDir(tempfile::TempDir);

/// A crate from the crates.io registry, optionally pinned by a version
/// requirement.
#[derive(Debug, Clone)]
pub struct RegistrySource {
    pub name: String,
    pub version: Option<String>,
}

/// A local directory containing a complete crate (with source code).
#[derive(Debug, Clone)]
pub struct LocalPathSource {
    pub path: String,
    /// Crate name; read from `Cargo.toml` when `None`.
    pub name: Option<String>,
    /// Optional pinned version.
    pub version: Option<String>,
}

/// A single `Cargo.toml` file (possibly manifest-only, without source code).
#[derive(Debug, Clone)]
pub struct ManifestSource {
    pub path: String,
}

/// Any of the crate sources.
#[derive(Debug, Clone)]
pub enum Source {
    Registry(RegistrySource),
    LocalPath(LocalPathSource),
    Manifest(ManifestSource),
}

/// The normalized form of a source that the loader can hand to cargo.
pub enum PreparedSource {
    /// A crates.io crate to resolve and download.
    Registry { name: String, version: Option<String> },
    /// A complete local crate directory.
    LocalPath { name: String, version: Option<String>, path: String },
    /// A manifest materialized into a temporary workspace.
    Manifest { manifest: String, workspace: tempfile::TempDir },
}

/// An optional string by its view.
pub open spec fn opt_view(o: Option<String>) -> Option<Seq<char>> {
    match o {
        Some(s) => Some(s@),
        None => None,
    }
}

fn clone_opt(o: &Option<String>) -> (r: Option<String>)
    ensures
        r == *o,
{
    match o {
        Some(s) => Some(s.clone()),
        None => None,
    }
}

// ---------------------------------------------------------------------------
// Descriptions
// ---------------------------------------------------------------------------

/// A crate source: describes *where* a crate comes from.
pub trait CrateSource {
    /// The description, as characters.
    spec fn description(&self) -> Seq<char>;

    /// A short human-readable description for diagnostics.
    fn describe(&self) -> (s: String)
        ensures
            s@ == self.description(),
    ;
}

impl CrateSource for RegistrySource {
    /// The name and the version, or the name marked latest.
    open spec fn description(&self) -> Seq<char> {
        match self.version {
            Some(v) => self.name@ + " "@ + v@,
            None => self.name@ + " (latest)"@,
        }
    }

    fn describe(&self) -> (s: String) {
        match &self.version {
            Some(v) => {
                let with_space = concat(self.name.as_str(), " ");
                concat(with_space.as_str(), v.as_str())
            },
            None => concat(self.name.as_str(), " (latest)"),
        }
    }
}

impl RegistrySource {
    /// The prepared form: the same name and version.
    pub fn prepare(&self) -> (r: Result<PreparedSource, Error>)
        ensures
            r matches Ok(PreparedSource::Registry { name, version }) && name == self.name
                && version == self.version,
    {
        Ok(PreparedSource::Registry { name: self.name.clone(), version: clone_opt(&self.version) })
    }
}

impl CrateSource for LocalPathSource {
    /// The path.
    open spec fn description(&self) -> Seq<char> {
        self.path@
    }

    fn describe(&self) -> (s: String) {
        self.path.clone()
    }
}

impl CrateSource for ManifestSource {
    /// The path.
    open spec fn description(&self) -> Seq<char> {
        self.path@
    }

    fn describe(&self) -> (s: String) {
        self.path.clone()
    }
}

impl CrateSource for Source {
    /// The description of the source inside.
    open spec fn description(&self) -> Seq<char> {
        match self {
            Source::Registry(s) => s.description(),
            Source::LocalPath(s) => s.description(),
            Source::Manifest(s) => s.description(),
        }
    }

    fn describe(&self) -> (s: String) {
        match self {
            Source::Registry(s) => s.describe(),
            Source::LocalPath(s) => s.describe(),
            Source::Manifest(s) => s.describe(),
        }
    }
}

/// A source wrapped in [`Source`] is described as the source itself.
pub proof fn lemma_source_forwards_description(
    r: RegistrySource,
    l: LocalPathSource,
    m: ManifestSource,
)
    ensures
        Source::Registry(r).description() == r.description(),
        Source::LocalPath(l).description() == l.description(),
        Source::Manifest(m).description() == m.description(),
{
}

impl From<RegistrySource> for Source {
    fn from(s: RegistrySource) -> (r: Self) {
        Source::Registry(s)
    }
}

impl vstd::std_specs::convert::FromSpecImpl<RegistrySource> for Source {
    open spec fn obeys_from_spec() -> bool {
        true
    }

    open spec fn from_spec(s: RegistrySource) -> Self {
        Source::Registry(s)
    }
}

impl From<LocalPathSource> for Source {
    fn from(s: LocalPathSource) -> (r: Self) {
        Source::LocalPath(s)
    }
}

impl vstd::std_specs::convert::FromSpecImpl<LocalPathSource> for Source {
    open spec fn obeys_from_spec() -> bool {
        true
    }

    open spec fn from_spec(s: LocalPathSource) -> Self {
        Source::LocalPath(s)
    }
}

impl From<ManifestSource> for Source {
    fn from(s: ManifestSource) -> (r: Self) {
        Source::Manifest(s)
    }
}

impl vstd::std_specs::convert::FromSpecImpl<ManifestSource> for Source {
    open spec fn obeys_from_spec() -> bool {
        true
    }

    open spec fn from_spec(s: ManifestSource) -> Self {
        Source::Manifest(s)
    }
}

// ---------------------------------------------------------------------------
// Manifests
// ---------------------------------------------------------------------------

/// The display text of the error that `toml::from_str::<toml::Value>` gives
/// for `content`, or `None` where `content` parses.
pub uninterp spec fn toml_parse_error(content: Seq<char>) -> Option<Seq<char>>;

/// The string that the parsed document `content` holds at key `key` of its
/// table `table`: `None` where `content` does not parse, `table` is not a
/// table of the document, `key` is not in it, or its value is not a string.
pub uninterp spec fn toml_string_at(content: Seq<char>, table: Seq<char>, key: Seq<char>) -> Option<
    Seq<char>,
>;

/// An optional string by its view.
pub open spec fn opt_string_view(o: Option<String>) -> Option<Seq<char>> {
    match o {
        Some(s) => Some(s@),
        None => None,
    }
}

/// Calls `toml::from_str::<toml::Value>` on `content` and, on failure, gives
/// the error's display text. The outcome depends on `content` alone, named
/// [`toml_parse_error`].
#[verifier::external_body]
fn toml_error_text(content: &str) -> (r: Option<String>)
    ensures
        opt_string_view(r) == toml_parse_error(content@),
{
    toml::from_str::<toml::Value>(content).err().map(|e| e.to_string())
}

/// Calls `toml::from_str::<toml::Value>` on `content`, then `Value::get` with
/// `table`, `Value::get` with `key` and `Value::as_str`. The outcome depends
/// on the three arguments alone, named [`toml_string_at`].
#[verifier::external_body]
fn toml_string_value(content: &str, table: &str, key: &str) -> (r: Option<String>)
    ensures
        opt_string_view(r) == toml_string_at(content@, table@, key@),
{
    let value = toml::from_str::<toml::Value>(content).ok()?;
    value.get(table)?.get(key)?.as_str().map(String::from)
}

/// A parse outcome by views.
pub open spec fn parsed_name_view(r: Result<Option<String>, String>) -> Result<
    Option<Seq<char>>,
    Seq<char>,
> {
    match r {
        Ok(Some(n)) => Ok(Some(n@)),
        Ok(None) => Ok(None),
        Err(e) => Err(e@),
    }
}

/// What the manifest text `content` says of the crate name: the parse error,
/// or the string at `package.name`, if any.
pub open spec fn manifest_name(content: Seq<char>) -> Result<Option<Seq<char>>, Seq<char>> {
    match toml_parse_error(content) {
        Some(e) => Err(e),
        None => Ok(toml_string_at(content, "package"@, "name"@)),
    }
}

/// The crate name, or the message explaining why there is none, given what
/// parsing the manifest at `manifest_path` gave.
pub open spec fn package_name_outcome(
    manifest_path: Seq<char>,
    parsed: Result<Option<Seq<char>>, Seq<char>>,
) -> Result<Seq<char>, Seq<char>> {
    match parsed {
        Err(e) => Err("failed to parse "@ + manifest_path + ": "@ + e),
        Ok(None) => Err("no [package].name found in "@ + manifest_path),
        Ok(Some(n)) => Ok(n),
    }
}

/// Decide the crate name from the parse outcome of the manifest at
/// `manifest_path`.
pub fn package_name_from(manifest_path: &str, parsed: Result<Option<String>, String>) -> (r: Result<
    String,
    Error,
>)
    ensures
        message_result(r) == Some(package_name_outcome(manifest_path@, parsed_name_view(parsed))),
{
    match parsed {
        Err(e) => {
            let a = concat("failed to parse ", manifest_path);
            let b = concat(a.as_str(), ": ");
            let m = concat(b.as_str(), e.as_str());
            Err(Error::Message(m))
        },
        Ok(None) => Err(Error::Message(concat("no [package].name found in ", manifest_path))),
        Ok(Some(n)) => Ok(n),
    }
}

/// The `[package].name` of the manifest text `content` read from
/// `manifest_path`.
pub fn read_package_name(manifest_path: &str, content: &str) -> (r: Result<String, Error>)
    ensures
        message_result(r) == Some(package_name_outcome(manifest_path@, manifest_name(content@))),
{
    let parsed = match toml_error_text(content) {
        Some(e) => Err(e),
        None => Ok(toml_string_value(content, "package", "name")),
    };
    package_name_from(manifest_path, parsed)
}

/// Whether `path` names a `.toml` file by its extension (the part of
/// `is_toml_file` that does not ask the file system).
pub fn has_toml_extension(path: &str) -> (r: bool)
    ensures
        r == has_extension(path@, "toml"@),
{
    path_has_extension(path, "toml")
}

// ---------------------------------------------------------------------------
// Preparing a local crate directory
// ---------------------------------------------------------------------------

/// What preparing a local source needs to know from the file system.
#[derive(Debug)]
pub enum PrepareRequest {
    /// The canonical, absolute form of the path.
    Canonicalize(String),
    /// Whether the path exists.
    CheckExists(String),
    /// The text of the file at the path.
    ReadToString(String),
}

/// The file system's answer to a [`PrepareRequest`], failures as their text.
#[derive(Debug)]
pub enum PrepareReply {
    Canonicalized(Result<String, String>),
    Exists(bool),
    Contents(Result<String, String>),
}

/// How far preparing a local source has come.
#[derive(Debug)]
pub enum LocalPrepare {
    /// Waiting for the canonical path.
    AwaitCanonical,
    /// Waiting to learn whether `manifest`, inside `dir`, exists.
    AwaitManifest { dir: String, manifest: String },
    /// Waiting for the text of `manifest`, inside `dir`.
    AwaitContents { dir: String, manifest: String },
}

/// The next thing to do: ask the file system, or the prepared source.
pub enum LocalStep {
    Ask(LocalPrepare, PrepareRequest),
    Finished(Result<PreparedSource, Error>),
}

/// The reply answers the request that `state` waits on.
pub open spec fn reply_fits(state: LocalPrepare, reply: PrepareReply) -> bool {
    match state {
        LocalPrepare::AwaitCanonical => reply is Canonicalized,
        LocalPrepare::AwaitManifest { .. } => reply is Exists,
        LocalPrepare::AwaitContents { .. } => reply is Contents,
    }
}

/// `step` ends with the local crate `name` in directory `dir`.
pub open spec fn finished_local(
    step: LocalStep,
    name: Seq<char>,
    version: Option<String>,
    dir: Seq<char>,
) -> bool {
    match step {
        LocalStep::Finished(Ok(PreparedSource::LocalPath { name: n, version: v, path: p })) =>
            n@ == name && v == version && p@ == dir,
        _ => false,
    }
}

/// `step` ends with a plain-message error reading `msg`.
pub open spec fn finished_with_message(step: LocalStep, msg: Seq<char>) -> bool {
    match step {
        LocalStep::Finished(Err(Error::Message(m))) => m@ == msg,
        _ => false,
    }
}

/// `step` asks whether `manifest`, inside `dir`, exists.
pub open spec fn asks_exists(step: LocalStep, dir: Seq<char>, manifest: Seq<char>) -> bool {
    match step {
        LocalStep::Ask(LocalPrepare::AwaitManifest { dir: d, manifest: m }, PrepareRequest::CheckExists(q)) =>
            d@ == dir && m@ == manifest && q@ == manifest,
        _ => false,
    }
}

/// `step` asks for the text of `manifest`, inside `dir`.
pub open spec fn asks_contents(step: LocalStep, dir: Seq<char>, manifest: Seq<char>) -> bool {
    match step {
        LocalStep::Ask(LocalPrepare::AwaitContents { dir: d, manifest: m }, PrepareRequest::ReadToString(q)) =>
            d@ == dir && m@ == manifest && q@ == manifest,
        _ => false,
    }
}

impl LocalPathSource {
    /// The step that follows `reply` in `state`.
    pub open spec fn next_step(&self, state: LocalPrepare, reply: PrepareReply, step: LocalStep) -> bool {
        match (state, reply) {
            (LocalPrepare::AwaitCanonical, PrepareReply::Canonicalized(Err(e))) =>
                finished_with_message(step, "failed to resolve path "@ + self.path@ + ": "@ + e@),
            (LocalPrepare::AwaitCanonical, PrepareReply::Canonicalized(Ok(c))) =>
                asks_exists(step, c@, join(c@, manifest_file_name())),
            (LocalPrepare::AwaitManifest { dir, manifest }, PrepareReply::Exists(false)) =>
                finished_with_message(step, "Cargo.toml not found in: "@ + dir@),
            (LocalPrepare::AwaitManifest { dir, manifest }, PrepareReply::Exists(true)) => match self.name {
                Some(n) => finished_local(step, n@, self.version, dir@),
                None => asks_contents(step, dir@, manifest@),
            },
            (LocalPrepare::AwaitContents { dir, manifest }, PrepareReply::Contents(Err(e))) =>
                finished_with_message(step, "failed to read "@ + manifest@ + ": "@ + e@),
            (LocalPrepare::AwaitContents { dir, manifest }, PrepareReply::Contents(Ok(text))) =>
                match package_name_outcome(manifest@, manifest_name(text@)) {
                    Ok(n) => finished_local(step, n, self.version, dir@),
                    Err(msg) => finished_with_message(step, msg),
                },
            _ => false,
        }
    }
}

impl LocalPathSource {
    /// The first step: ask for the canonical form of the path.
    pub fn prepare_begin(&self) -> (step: LocalStep)
        ensures
            step matches LocalStep::Ask(
                LocalPrepare::AwaitCanonical,
                PrepareRequest::Canonicalize(p),
            ) && p@ == self.path@,
    {
        LocalStep::Ask(LocalPrepare::AwaitCanonical, PrepareRequest::Canonicalize(self.path.clone()))
    }

    /// The step after `reply` answered what `state` waits on.
    ///
    /// The crate directory is the canonical path; its manifest must exist;
    /// the crate name is the given one, or else the manifest's
    /// `[package].name`.
    pub fn prepare_next(&self, state: LocalPrepare, reply: PrepareReply) -> (step: LocalStep)
        requires
            reply_fits(state, reply),
        ensures
            self.next_step(state, reply, step),
    {
        match state {
            LocalPrepare::AwaitCanonical => match reply {
                PrepareReply::Canonicalized(Err(e)) => {
                    let a = concat("failed to resolve path ", self.path.as_str());
                    let b = concat(a.as_str(), ": ");
                    LocalStep::Finished(Err(Error::Message(concat(b.as_str(), e.as_str()))))
                },
                PrepareReply::Canonicalized(Ok(c)) => {
                    proof {
                        reveal_strlit("Cargo.toml");
                        assert("Cargo.toml"@ =~= manifest_file_name());
                    }
                    let manifest = join_path(c.as_str(), "Cargo.toml");
                    let ask = manifest.clone();
                    LocalStep::Ask(
                        LocalPrepare::AwaitManifest { dir: c, manifest },
                        PrepareRequest::CheckExists(ask),
                    )
                },
                _ => {
                    assert(false);
                    LocalStep::Ask(LocalPrepare::AwaitCanonical, PrepareRequest::Canonicalize(self.path.clone()))
                },
            },
            LocalPrepare::AwaitManifest { dir, manifest } => match reply {
                PrepareReply::Exists(false) => {
                    LocalStep::Finished(Err(Error::Message(concat("Cargo.toml not found in: ", dir.as_str()))))
                },
                PrepareReply::Exists(true) => match &self.name {
                    Some(n) => LocalStep::Finished(
                        Ok(
                            PreparedSource::LocalPath {
                                name: n.clone(),
                                version: clone_opt(&self.version),
                                path: dir,
                            },
                        ),
                    ),
                    None => {
                        let ask = manifest.clone();
                        LocalStep::Ask(
                            LocalPrepare::AwaitContents { dir, manifest },
                            PrepareRequest::ReadToString(ask),
                        )
                    },
                },
                _ => {
                    assert(false);
                    LocalStep::Ask(LocalPrepare::AwaitCanonical, PrepareRequest::Canonicalize(self.path.clone()))
                },
            },
            LocalPrepare::AwaitContents { dir, manifest } => match reply {
                PrepareReply::Contents(Err(e)) => {
                    let a = concat("failed to read ", manifest.as_str());
                    let b = concat(a.as_str(), ": ");
                    LocalStep::Finished(Err(Error::Message(concat(b.as_str(), e.as_str()))))
                },
                PrepareReply::Contents(Ok(text)) => {
                    match read_package_name(manifest.as_str(), text.as_str()) {
                        Ok(name) => LocalStep::Finished(
                            Ok(
                                PreparedSource::LocalPath {
                                    name,
                                    version: clone_opt(&self.version),
                                    path: dir,
                                },
                            ),
                        ),
                        Err(e) => LocalStep::Finished(Err(e)),
                    }
                },
                _ => {
                    assert(false);
                    LocalStep::Ask(LocalPrepare::AwaitCanonical, PrepareRequest::Canonicalize(self.path.clone()))
                },
            },
        }
    }
}

} // verus!

verus! {

// ---------------------------------------------------------------------------
// Preparing a single manifest
// ---------------------------------------------------------------------------

/// What preparing a manifest source needs from the file system.
#[derive(Debug)]
pub enum ManifestRequest {
    /// The canonical, absolute form of the path.
    Canonicalize(String),
    /// Whether the path names a regular file.
    IsFile(String),
    /// A fresh private temporary directory.
    CreateWorkspace,
    /// Materialize the crate of `manifest` inside the directory `workspace`;
    /// the answer is the path of the materialized manifest.
    Materialize { manifest: String, workspace: String },
}

/// The file system's answer to a [`ManifestRequest`], failures as their text.
pub enum ManifestReply {
    Canonicalized(Result<String, String>),
    IsFile(bool),
    /// The new directory and its path.
    WorkspaceCreated(Result<(tempfile::TempDir, String), String>),
    Materialized(Result<String, String>),
}

/// How far preparing a manifest source has come.
pub enum ManifestPrepare {
    /// Waiting for the canonical path.
    AwaitCanonical,
    /// Waiting to learn whether `manifest` is a regular file.
    AwaitIsFile { manifest: String },
    /// Waiting for the temporary workspace.
    AwaitWorkspace { manifest: String },
    /// Waiting for `manifest` to be materialized in `workspace`.
    AwaitMaterialized { manifest: String, workspace: tempfile::TempDir },
}

/// The next thing to do: ask the file system, or the prepared source.
pub enum ManifestStep {
    Ask(ManifestPrepare, ManifestRequest),
    Finished(Result<PreparedSource, Error>),
}

/// The reply answers the request that `state` waits on.
pub open spec fn manifest_reply_fits(state: ManifestPrepare, reply: ManifestReply) -> bool {
    match state {
        ManifestPrepare::AwaitCanonical => reply is Canonicalized,
        ManifestPrepare::AwaitIsFile { .. } => reply is IsFile,
        ManifestPrepare::AwaitWorkspace { .. } => reply is WorkspaceCreated,
        ManifestPrepare::AwaitMaterialized { .. } => reply is Materialized,
    }
}

/// `step` ends with a plain-message error reading `msg`.
pub open spec fn manifest_failed(step: ManifestStep, msg: Seq<char>) -> bool {
    match step {
        ManifestStep::Finished(Err(Error::Message(m))) => m@ == msg,
        _ => false,
    }
}

/// The message for a path that is not a `Cargo.toml` file.
pub open spec fn not_a_manifest_message(path: Seq<char>) -> Seq<char> {
    "manifest source must be a Cargo.toml file: "@ + path
}

/// `step` asks whether `manifest` is a regular file.
pub open spec fn asks_is_file(step: ManifestStep, manifest: Seq<char>) -> bool {
    match step {
        ManifestStep::Ask(ManifestPrepare::AwaitIsFile { manifest: m }, ManifestRequest::IsFile(q)) =>
            m@ == manifest && q@ == manifest,
        _ => false,
    }
}

/// `step` asks for a workspace for `manifest`.
pub open spec fn asks_workspace(step: ManifestStep, manifest: Seq<char>) -> bool {
    match step {
        ManifestStep::Ask(ManifestPrepare::AwaitWorkspace { manifest: m }, ManifestRequest::CreateWorkspace) =>
            m@ == manifest,
        _ => false,
    }
}

/// `step` asks to materialize `manifest` in the directory `workspace`, whose
/// path is `dir`.
pub open spec fn asks_materialize(
    step: ManifestStep,
    manifest: Seq<char>,
    workspace: tempfile::TempDir,
    dir: Seq<char>,
) -> bool {
    match step {
        ManifestStep::Ask(
            ManifestPrepare::AwaitMaterialized { manifest: m, workspace: w },
            ManifestRequest::Materialize { manifest: q, workspace: d },
        ) => m@ == manifest && w == workspace && q@ == manifest && d@ == dir,
        _ => false,
    }
}

impl ManifestSource {
    /// The step that follows `reply` in `state`.
    pub open spec fn next_step(&self, state: ManifestPrepare, reply: ManifestReply, step: ManifestStep) -> bool {
        match (state, reply) {
            (ManifestPrepare::AwaitCanonical, ManifestReply::Canonicalized(Err(e))) =>
                manifest_failed(step, "failed to resolve path "@ + self.path@ + ": "@ + e@),
            (ManifestPrepare::AwaitCanonical, ManifestReply::Canonicalized(Ok(c))) =>
                if has_extension(c@, "toml"@) {
                    asks_is_file(step, c@)
                } else {
                    manifest_failed(step, not_a_manifest_message(c@))
                },
            (ManifestPrepare::AwaitIsFile { manifest }, ManifestReply::IsFile(false)) =>
                manifest_failed(step, not_a_manifest_message(manifest@)),
            (ManifestPrepare::AwaitIsFile { manifest }, ManifestReply::IsFile(true)) =>
                asks_workspace(step, manifest@),
            (ManifestPrepare::AwaitWorkspace { manifest }, ManifestReply::WorkspaceCreated(Err(e))) =>
                manifest_failed(step, "failed to create temporary crate directory: "@ + e@),
            (ManifestPrepare::AwaitWorkspace { manifest }, ManifestReply::WorkspaceCreated(Ok((w, d)))) =>
                asks_materialize(step, manifest@, w, d@),
            (
                ManifestPrepare::AwaitMaterialized { manifest, workspace },
                ManifestReply::Materialized(Err(e)),
            ) => match step {
                ManifestStep::Finished(Err(Error::Backend(m))) =>
                    m@ == "failed to materialize manifest from "@ + manifest@ + ": "@ + e@,
                _ => false,
            },
            (
                ManifestPrepare::AwaitMaterialized { manifest, workspace },
                ManifestReply::Materialized(Ok(m)),
            ) => match step {
                ManifestStep::Finished(Ok(PreparedSource::Manifest { manifest: p, workspace: w })) =>
                    p == m && w == workspace,
                _ => false,
            },
            _ => false,
        }
    }

    /// The first step: ask for the canonical form of the path.
    pub fn prepare_begin(&self) -> (step: ManifestStep)
        ensures
            step matches ManifestStep::Ask(
                ManifestPrepare::AwaitCanonical,
                ManifestRequest::Canonicalize(p),
            ) && p@ == self.path@,
    {
        ManifestStep::Ask(ManifestPrepare::AwaitCanonical, ManifestRequest::Canonicalize(self.path.clone()))
    }

    /// The step after `reply` answered what `state` waits on.
    ///
    /// The canonical path must name a regular file with the `toml`
    /// extension; it is then materialized into a fresh private workspace,
    /// which the prepared source keeps alive.
    pub fn prepare_next(&self, state: ManifestPrepare, reply: ManifestReply) -> (step: ManifestStep)
        requires
            manifest_reply_fits(state, reply),
        ensures
            self.next_step(state, reply, step),
    {
        match state {
            ManifestPrepare::AwaitCanonical => match reply {
                ManifestReply::Canonicalized(Err(e)) => {
                    let a = concat("failed to resolve path ", self.path.as_str());
                    let b = concat(a.as_str(), ": ");
                    ManifestStep::Finished(Err(Error::Message(concat(b.as_str(), e.as_str()))))
                },
                ManifestReply::Canonicalized(Ok(c)) => {
                    if has_toml_extension(c.as_str()) {
                        let ask = c.clone();
                        ManifestStep::Ask(ManifestPrepare::AwaitIsFile { manifest: c }, ManifestRequest::IsFile(ask))
                    } else {
                        ManifestStep::Finished(
                            Err(Error::Message(concat("manifest source must be a Cargo.toml file: ", c.as_str()))),
                        )
                    }
                },
                _ => {
                    assert(false);
                    ManifestStep::Ask(ManifestPrepare::AwaitCanonical, ManifestRequest::Canonicalize(self.path.clone()))
                },
            },
            ManifestPrepare::AwaitIsFile { manifest } => match reply {
                ManifestReply::IsFile(false) => ManifestStep::Finished(
                    Err(Error::Message(concat("manifest source must be a Cargo.toml file: ", manifest.as_str()))),
                ),
                ManifestReply::IsFile(true) => ManifestStep::Ask(
                    ManifestPrepare::AwaitWorkspace { manifest },
                    ManifestRequest::CreateWorkspace,
                ),
                _ => {
                    assert(false);
                    ManifestStep::Ask(ManifestPrepare::AwaitCanonical, ManifestRequest::Canonicalize(self.path.clone()))
                },
            },
            ManifestPrepare::AwaitWorkspace { manifest } => match reply {
                ManifestReply::WorkspaceCreated(Err(e)) => ManifestStep::Finished(
                    Err(Error::Message(concat("failed to create temporary crate directory: ", e.as_str()))),
                ),
                ManifestReply::WorkspaceCreated(Ok((workspace, dir))) => {
                    let ask = manifest.clone();
                    ManifestStep::Ask(
                        ManifestPrepare::AwaitMaterialized { manifest, workspace },
                        ManifestRequest::Materialize { manifest: ask, workspace: dir },
                    )
                },
                _ => {
                    assert(false);
                    ManifestStep::Ask(ManifestPrepare::AwaitCanonical, ManifestRequest::Canonicalize(self.path.clone()))
                },
            },
            ManifestPrepare::AwaitMaterialized { manifest, workspace } => match reply {
                ManifestReply::Materialized(Err(e)) => {
                    let a = concat("failed to materialize manifest from ", manifest.as_str());
                    let b = concat(a.as_str(), ": ");
                    ManifestStep::Finished(Err(Error::Backend(concat(b.as_str(), e.as_str()))))
                },
                ManifestReply::Materialized(Ok(m)) => ManifestStep::Finished(
                    Ok(PreparedSource::Manifest { manifest: m, workspace }),
                ),
                _ => {
                    assert(false);
                    ManifestStep::Ask(ManifestPrepare::AwaitCanonical, ManifestRequest::Canonicalize(self.path.clone()))
                },
            },
        }
    }
}

impl LocalPathSource {
    /// Whenever local preparation finishes with a local crate, that crate
    /// keeps the source's pinned version, whether its name was given or read
    /// from the manifest; a given name is used once the manifest is found.
    pub proof fn lemma_prepared_keeps_version(&self, state: LocalPrepare, reply: PrepareReply, step: LocalStep)
        requires
            self.next_step(state, reply, step),
        ensures
            step matches LocalStep::Finished(Ok(PreparedSource::LocalPath { name, version, path })) ==> {
                &&& version == self.version
                &&& (state is AwaitManifest ==> (self.name matches Some(n) ==> name@ == n@))
            },
    {
    }
}

} // verus!
