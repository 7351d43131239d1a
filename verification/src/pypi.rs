//! Choosing what to download for a PyPI package: which version, which
//! release file of it, and where the unpacked sources are.
use vstd::prelude::*;

use std::cmp::Ordering;

use crate::text::{
    concat, lemma_lex_irreflexive, lemma_lex_total, lemma_lex_transitive, lex_lt, owned,
    seq_ends_with, str_ends_with, str_eq, str_lt,
};

verus! {

/// Fetches a PyPI package by name, and optionally by version.
pub struct PypiFetcher<'a> {
    name: &'a str,
    version: Option<&'a str>,
    // options:
    temp_root: Option<&'a str>,
}

/// What a [`PypiFetcher`] holds, as character sequences.
pub struct PypiFetcherView {
    pub name: Seq<char>,
    pub version: Option<Seq<char>>,
    pub temp_root: Option<Seq<char>>,
}

/// An optional string slice by its view.
pub open spec fn opt_str_view(o: Option<&str>) -> Option<Seq<char>> {
    match o {
        Some(s) => Some(s@),
        None => None,
    }
}

impl<'a> View for PypiFetcher<'a> {
    type V = PypiFetcherView;

    closed spec fn view(&self) -> PypiFetcherView {
        PypiFetcherView {
            name: self.name@,
            version: opt_str_view(self.version),
            temp_root: opt_str_view(self.temp_root),
        }
    }
}

impl<'a> PypiFetcher<'a> {
    /// A fetcher for `name`, at `version` or else the latest version, with
    /// the temporary directory under the current directory.
    pub fn new(name: &'a str, version: Option<&'a str>) -> (f: Self)
        ensures
            f@.name == name@,
            f@.version == opt_str_view(version),
            f@.temp_root is None,
    {
        Self { name, version, temp_root: None }
    }

    /// Have the temporary directory created under `path_str`.
    pub fn temp_dir(&mut self, path_str: &'a str)
        ensures
            final(self)@.name == old(self)@.name,
            final(self)@.version == old(self)@.version,
            final(self)@.temp_root == Some(path_str@),
    {
        self.temp_root = Some(path_str);
    }

    /// The package name.
    pub fn name(&self) -> (r: &'a str)
        ensures
            r@ == self@.name,
    {
        self.name
    }

    /// The version to fetch: the one asked for, or else `latest`, the
    /// version that the package index calls current.
    pub fn chosen_version(&self, latest: &str) -> (r: String)
        ensures
            r@ == match self@.version {
                Some(v) => v,
                None => latest@,
            },
    {
        match self.version {
            Some(v) => owned(v),
            None => owned(latest),
        }
    }

    /// The directory to create the temporary directory in: the one set with
    /// [`PypiFetcher::temp_dir`], or else the current directory `.`.
    pub fn temp_root(&self) -> (r: &'a str)
        ensures
            r@ == match self@.temp_root {
                Some(t) => t,
                None => "."@,
            },
    {
        match self.temp_root {
            Some(t) => t,
            None => ".",
        }
    }
}

/// The address of the JSON description of `package_name` on PyPI.
pub fn pypi_json_url(package_name: &str) -> (r: String)
    ensures
        r@ == "https://pypi.org/pypi/"@ + package_name@ + "/json"@,
{
    let prefix = concat("https://pypi.org/pypi/", package_name);
    concat(prefix.as_str(), "/json")
}

/// The digest published for a release file.
#[derive(Debug, Eq, PartialEq)]
pub struct FileDigest {
    pub sha256: String,
}

/// One file of a PyPI release, as the JSON API describes it.
#[derive(Debug, Eq, PartialEq)]
pub struct PypiReleaseFile {
    pub filename: String,
    pub packagetype: String,
    pub yanked: bool,
    pub upload_time_iso_8601: String,
    pub url: String,
    pub digests: FileDigest,
}

/// How much an archive format is preferred: `.tar.gz` over `.tgz` over any
/// other.
pub open spec fn archive_rank(filename: Seq<char>) -> int {
    if seq_ends_with(filename, ".tar.gz"@) {
        2
    } else if seq_ends_with(filename, ".tgz"@) {
        1
    } else {
        0
    }
}

/// The preference order on release files: by archive format, then by upload
/// time (later is greater).
pub open spec fn release_order(a: PypiReleaseFile, b: PypiReleaseFile) -> Ordering {
    let ra = archive_rank(a.filename@);
    let rb = archive_rank(b.filename@);
    if ra < rb {
        Ordering::Less
    } else if ra > rb {
        Ordering::Greater
    } else if lex_lt(a.upload_time_iso_8601@, b.upload_time_iso_8601@) {
        Ordering::Less
    } else if a.upload_time_iso_8601@ == b.upload_time_iso_8601@ {
        Ordering::Equal
    } else {
        Ordering::Greater
    }
}

/// The rank of a file name's archive format.
fn rank_of(filename: &str) -> (r: u8)
    ensures
        r as int == archive_rank(filename@),
{
    if str_ends_with(filename, ".tar.gz") {
        2
    } else if str_ends_with(filename, ".tgz") {
        1
    } else {
        0
    }
}

impl PypiReleaseFile {
    /// Compare by archive format (`.tar.gz` over `.tgz` over any other),
    /// then by upload time.
    pub fn cmp(&self, other: &Self) -> (r: Ordering)
        ensures
            r == release_order(*self, *other),
    {
        let self_rank = rank_of(self.filename.as_str());
        let other_rank = rank_of(other.filename.as_str());
        if self_rank < other_rank {
            Ordering::Less
        } else if self_rank > other_rank {
            Ordering::Greater
        } else if str_lt(self.upload_time_iso_8601.as_str(), other.upload_time_iso_8601.as_str()) {
            Ordering::Less
        } else if str_eq(self.upload_time_iso_8601.as_str(), other.upload_time_iso_8601.as_str()) {
            Ordering::Equal
        } else {
            Ordering::Greater
        }
    }

    /// [`PypiReleaseFile::cmp`], which orders every pair.
    pub fn partial_cmp(&self, other: &Self) -> (r: Option<Ordering>)
        ensures
            r == Some(release_order(*self, *other)),
    {
        Some(self.cmp(other))
    }
}

/// The order on release files is reflexive on equal ranks and times.
pub proof fn lemma_release_order_reflexive(a: PypiReleaseFile)
    ensures
        release_order(a, a) == Ordering::Equal,
{
    lemma_lex_irreflexive(a.upload_time_iso_8601@);
}

/// Swapping the arguments reverses the order.
pub proof fn lemma_release_order_antisymmetric(a: PypiReleaseFile, b: PypiReleaseFile)
    ensures
        release_order(a, b) == Ordering::Less <==> release_order(b, a) == Ordering::Greater,
        release_order(a, b) == Ordering::Equal <==> release_order(b, a) == Ordering::Equal,
{
    lemma_lex_total(a.upload_time_iso_8601@, b.upload_time_iso_8601@);
}

/// The order is transitive: a file not after a second one, which comes
/// before a third, comes before the third.
pub proof fn lemma_release_order_transitive(a: PypiReleaseFile, b: PypiReleaseFile, c: PypiReleaseFile)
    requires
        release_order(a, b) != Ordering::Greater,
        release_order(b, c) == Ordering::Less,
    ensures
        release_order(a, c) == Ordering::Less,
{
    let (ta, tb, tc) = (a.upload_time_iso_8601@, b.upload_time_iso_8601@, c.upload_time_iso_8601@);
    lemma_lex_total(ta, tb);
    lemma_lex_total(tb, tc);
    lemma_lex_total(ta, tc);
    if lex_lt(ta, tb) && lex_lt(tb, tc) {
        lemma_lex_transitive(ta, tb, tc);
    }
}

/// `a` comes after `b` in the preference order.
pub open spec fn release_after(a: PypiReleaseFile, b: PypiReleaseFile) -> bool {
    release_order(a, b) == Ordering::Greater
}

/// Whether `a` comes after `b` in the preference order.
fn prefers(a: &PypiReleaseFile, b: &PypiReleaseFile) -> (r: bool)
    ensures
        r == release_after(*a, *b),
{
    match a.cmp(b) {
        Ordering::Greater => true,
        _ => false,
    }
}

proof fn lemma_not_after_self(a: PypiReleaseFile)
    ensures
        !release_after(a, a),
{
    lemma_release_order_reflexive(a);
}

proof fn lemma_not_after_new_best(j: PypiReleaseFile, b: PypiReleaseFile, i: PypiReleaseFile)
    requires
        !release_after(j, b),
        release_after(i, b),
    ensures
        !release_after(j, i),
{
    lemma_release_order_antisymmetric(i, b);
    lemma_release_order_transitive(j, b, i);
}

/// A file that may be picked: a source distribution that was not yanked.
pub open spec fn release_eligible(f: PypiReleaseFile) -> bool {
    f.packagetype@ == "sdist"@ && !f.yanked
}

/// `p` is one of `files`, eligible, and no eligible file of `files` comes
/// after it.
pub open spec fn is_preferred_release(files: Seq<PypiReleaseFile>, p: PypiReleaseFile) -> bool {
    &&& exists|i: int| 0 <= i < files.len() && files[i] == p
    &&& release_eligible(p)
    &&& forall|j: int|
        0 <= j < files.len() && release_eligible(#[trigger] files[j]) ==> !release_after(files[j], p)
}

fn is_eligible(f: &PypiReleaseFile) -> (r: bool)
    ensures
        r == release_eligible(*f),
{
    str_eq(f.packagetype.as_str(), "sdist") && !f.yanked
}

/// Pick the source archive to download: among the source distributions that
/// were not yanked, prefer `.tar.gz` over `.tgz` over other formats and, for
/// equal formats, the latest upload.
pub fn pick_release_file(files: Vec<PypiReleaseFile>) -> (r: Option<PypiReleaseFile>)
    ensures
        r is None <==> forall|i: int| 0 <= i < files.len() ==> !release_eligible(#[trigger] files@[i]),
        r matches Some(p) ==> is_preferred_release(files@, p),
{
    let mut best: Option<usize> = None;
    let mut i: usize = 0;
    while i < files.len()
        invariant
            i <= files.len(),
            best is None ==> forall|j: int| 0 <= j < i ==> !release_eligible(#[trigger] files@[j]),
            best matches Some(b) ==> b < i && release_eligible(files@[b as int]) && forall|j: int|
                0 <= j < i && release_eligible(#[trigger] files@[j]) ==> !release_after(
                    files@[j],
                    files@[b as int],
                ),
        decreases files.len() - i,
    {
        if is_eligible(&files[i]) {
            match best {
                None => {
                    best = Some(i);
                    proof {
                        lemma_not_after_self(files@[i as int]);
                    }
                },
                Some(b) => {
                    if prefers(&files[i], &files[b]) {
                        proof {
                            lemma_not_after_self(files@[i as int]);
                            assert forall|j: int|
                                0 <= j < i + 1 && release_eligible(#[trigger] files@[j]) implies !release_after(
                                files@[j],
                                files@[i as int],
                            ) by {
                                if j < i {
                                    lemma_not_after_new_best(files@[j], files@[b as int], files@[i as int]);
                                }
                            }
                        }
                        best = Some(i);
                    }
                },
            }
        }
        i = i + 1;
    }
    match best {
        None => None,
        Some(b) => {
            let ghost before = files@;
            let mut files = files;
            let picked = files.remove(b);
            assert(before[b as int] == picked);
            Some(picked)
        },
    }
}

/// The root of an unpacked source archive: its only directory when the
/// archive unpacked into exactly one, else the directory it was unpacked in.
pub fn detect_extract_root(mut dirs: Vec<String>, extract_dir: String) -> (r: String)
    ensures
        r@ == if dirs.len() == 1 {
            dirs@[0]@
        } else {
            extract_dir@
        },
{
    if dirs.len() == 1 {
        dirs.remove(0)
    } else {
        extract_dir
    }
}

/// Where the release `version` stands among the versions a package lists:
/// the first listing equal to it, or `None` when the package has no such
/// release.
pub fn find_release(versions: &Vec<String>, version: &str) -> (r: Option<usize>)
    ensures
        match r {
            Some(i) => i < versions.len() && versions@[i as int]@ == version@ && forall|j: int|
                0 <= j < i ==> #[trigger] versions@[j]@ != version@,
            None => forall|j: int| 0 <= j < versions.len() ==> #[trigger] versions@[j]@ != version@,
        },
{
    let mut i: usize = 0;
    while i < versions.len()
        invariant
            i <= versions.len(),
            forall|j: int| 0 <= j < i ==> #[trigger] versions@[j]@ != version@,
        decreases versions.len() - i,
    {
        if str_eq(versions[i].as_str(), version) {
            return Some(i);
        }
        i = i + 1;
    }
    None
}

/// A file may be picked exactly when it is a source distribution that was
/// not yanked, whatever its digest, address or upload time; so whenever some
/// file is such, a file is picked.
pub proof fn lemma_sdist_not_yanked_is_eligible(files: Seq<PypiReleaseFile>, k: int)
    requires
        0 <= k < files.len(),
        files[k].packagetype@ == "sdist"@,
        !files[k].yanked,
    ensures
        forall|f: PypiReleaseFile| #[trigger] release_eligible(f) <==> (f.packagetype@ == "sdist"@ && !f.yanked),
        !(forall|i: int| 0 <= i < files.len() ==> !release_eligible(#[trigger] files[i])),
{
    assert(release_eligible(files[k]));
}

} // verus!
