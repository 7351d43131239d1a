//! Cargo project that sources locally.
use vstd::prelude::*;

use crate::paths::{join, join_path, last_component, last_component_is, last_segment, strip_tail};

verus! {

/// A local Cargo project, identified by the path of its `Cargo.toml`.
pub struct Local {
    path: String,
}

/// Why a path does not name a local Cargo project.
#[derive(Debug)]
pub enum LocalError {
    Path,
}

/// What the file system says about a candidate path.
///
/// `manifest_is_file` is about the path that [`Local::manifest_candidate`]
/// gives for the same candidate.
#[derive(Debug, Clone, Copy)]
pub struct PathProbe {
    pub is_file: bool,
    pub is_dir: bool,
    pub manifest_is_file: bool,
}

impl View for Local {
    type V = Seq<char>;

    closed spec fn view(&self) -> Seq<char> {
        self.path@
    }
}

/// The name every manifest file has.
pub open spec fn manifest_file_name() -> Seq<char> {
    seq!['C', 'a', 'r', 'g', 'o', '.', 't', 'o', 'm', 'l']
}

proof fn lemma_segment_after_separator(x: Seq<char>, n: Seq<char>)
    requires
        x.len() == 0 || x.last() == '/',
        forall|i: int| 0 <= i < n.len() ==> n[i] != '/',
    ensures
        last_segment(x + n) == n,
    decreases n.len(),
{
    if n.len() == 0 {
        assert(x + n =~= x);
    } else {
        assert((x + n).drop_last() =~= x + n.drop_last());
        lemma_segment_after_separator(x, n.drop_last());
        assert(n.drop_last().push(n.last()) =~= n);
    }
}

/// The manifest file of a directory is named `Cargo.toml`.
pub proof fn lemma_joined_manifest_name(dir: Seq<char>)
    ensures
        last_component(join(dir, manifest_file_name())) == manifest_file_name(),
{
    let n = manifest_file_name();
    let x = if dir.len() == 0 {
        Seq::<char>::empty()
    } else if dir.last() == '/' {
        dir
    } else {
        dir + seq!['/']
    };
    assert(join(dir, n) =~= x + n);
    assert((x + n).last() == 'l');
    assert(strip_tail(x + n) == x + n);
    lemma_segment_after_separator(x, n);
}

impl Local {
    /// The path of the manifest that a directory at `path` would hold.
    pub fn manifest_candidate(path: &str) -> (r: String)
        ensures
            r@ == join(path@, manifest_file_name()),
    {
        proof {
            reveal_strlit("Cargo.toml");
            assert("Cargo.toml"@ =~= manifest_file_name());
        }
        join_path(path, "Cargo.toml")
    }

    /// A project from a path: either the `Cargo.toml` file itself or a
    /// directory holding one.
    pub fn new(path: String, probe: PathProbe) -> (r: Result<Local, LocalError>)
        ensures
            probe.is_file && last_component(path@) == manifest_file_name() ==> (r matches Ok(l)
                && l@ == path@),
            !(probe.is_file && last_component(path@) == manifest_file_name()) && probe.is_dir
                && probe.manifest_is_file ==> (r matches Ok(l) && l@ == join(
                path@,
                manifest_file_name(),
            )),
            !(probe.is_file && last_component(path@) == manifest_file_name()) && !(probe.is_dir
                && probe.manifest_is_file) ==> r matches Err(LocalError::Path),
            r matches Ok(l) ==> last_component(l@) == manifest_file_name(),
    {
        proof {
            reveal_strlit("Cargo.toml");
            assert("Cargo.toml"@ =~= manifest_file_name());
            lemma_joined_manifest_name(path@);
        }
        if probe.is_file && last_component_is(path.as_str(), "Cargo.toml") {
            // Single manifest file.
            Ok(Local { path })
        } else if probe.is_dir {
            let cargo_toml = Local::manifest_candidate(path.as_str());
            if probe.manifest_is_file {
                Ok(Local { path: cargo_toml })
            } else {
                Err(LocalError::Path)
            }
        } else {
            Err(LocalError::Path)
        }
    }

    /// The path of the project's `Cargo.toml`.
    pub fn path(&self) -> (r: &str)
        ensures
            r@ == self@,
    {
        self.path.as_str()
    }
}

} // verus!
