//! Crate versions as plain numbers: the full version text and the TakoPack
//! compat key that names a package line (`1.x.y` -> `1`, `0.x.y` -> `0.x`,
//! `0.0.x` -> `0.0.x`, a pre-release -> its full version).
use vstd::prelude::*;

use crate::text::{concat, owned};

verus! {

/// The parts of a semantic version.
#[derive(Debug, Clone, PartialEq, Eq)]
pub struct VersionNumbers {
    pub major: u64,
    pub minor: u64,
    pub patch: u64,
    /// Pre-release identifiers, empty for a release.
    pub pre: String,
    /// Build metadata, empty where there is none.
    pub build: String,
}

/// The parts of a version, text taken as characters.
pub struct VersionNumbersView {
    pub major: u64,
    pub minor: u64,
    pub patch: u64,
    pub pre: Seq<char>,
    pub build: Seq<char>,
}

impl View for VersionNumbers {
    type V = VersionNumbersView;

    open spec fn view(&self) -> VersionNumbersView {
        VersionNumbersView {
            major: self.major,
            minor: self.minor,
            patch: self.patch,
            pre: self.pre@,
            build: self.build@,
        }
    }
}

/// The decimal digit for `d` (below 10).
pub open spec fn digit_char(d: nat) -> char {
    seq!['0', '1', '2', '3', '4', '5', '6', '7', '8', '9'][d as int]
}

/// `n` written in decimal, without leading zeros.
pub open spec fn decimal(n: nat) -> Seq<char>
    decreases n,
{
    if n < 10 {
        seq![digit_char(n)]
    } else {
        decimal(n / 10).push(digit_char(n % 10))
    }
}

/// The text of a version as semver writes it: `major.minor.patch`, then
/// `-pre` where there is a pre-release and `+build` where there is build
/// metadata.
pub open spec fn version_text(v: VersionNumbersView) -> Seq<char> {
    let core = decimal(v.major as nat) + "."@ + decimal(v.minor as nat) + "."@ + decimal(
        v.patch as nat,
    );
    let with_pre = if v.pre.len() > 0 {
        core + "-"@ + v.pre
    } else {
        core
    };
    if v.build.len() > 0 {
        with_pre + "+"@ + v.build
    } else {
        with_pre
    }
}

/// The compat key of a version: its full text for a pre-release, else the
/// major number from `1.0.0` on, `0.minor` below that, and `0.0.patch` for
/// `0.0.x`.
pub open spec fn compat_key(v: VersionNumbersView) -> Seq<char> {
    if v.pre.len() > 0 {
        version_text(v)
    } else if v.major > 0 {
        decimal(v.major as nat)
    } else if v.minor > 0 {
        "0."@ + decimal(v.minor as nat)
    } else {
        "0.0."@ + decimal(v.patch as nat)
    }
}

/// The text of the digit `d`.
fn digit_text(d: u64) -> (r: &'static str)
    requires
        d < 10,
    ensures
        r@ == seq![digit_char(d as nat)],
{
    proof {
        reveal_strlit("0");
        reveal_strlit("1");
        reveal_strlit("2");
        reveal_strlit("3");
        reveal_strlit("4");
        reveal_strlit("5");
        reveal_strlit("6");
        reveal_strlit("7");
        reveal_strlit("8");
        reveal_strlit("9");
    }
    let r = match d {
        0 => "0",
        1 => "1",
        2 => "2",
        3 => "3",
        4 => "4",
        5 => "5",
        6 => "6",
        7 => "7",
        8 => "8",
        _ => "9",
    };
    assert(r@ =~= seq![digit_char(d as nat)]);
    r
}

/// `n` written in decimal.
pub fn decimal_text(n: u64) -> (r: String)
    ensures
        r@ == decimal(n as nat),
    decreases n,
{
    if n < 10 {
        let d = digit_text(n);
        owned(d)
    } else {
        let head = decimal_text(n / 10);
        let r = concat(head.as_str(), digit_text(n % 10));
        assert(r@ =~= decimal(n as nat));
        r
    }
}

impl VersionNumbers {
    /// The full version text, as semver displays it.
    pub fn full_text(&self) -> (r: String)
        ensures
            r@ == version_text(self@),
    {
        proof {
            reveal_strlit(".");
            reveal_strlit("-");
            reveal_strlit("+");
        }
        let a = decimal_text(self.major);
        let b = concat(a.as_str(), ".");
        let c = decimal_text(self.minor);
        let d = concat(b.as_str(), c.as_str());
        let e = concat(d.as_str(), ".");
        let f = decimal_text(self.patch);
        let core = concat(e.as_str(), f.as_str());
        let with_pre = if self.pre.as_str().unicode_len() > 0 {
            let g = concat(core.as_str(), "-");
            concat(g.as_str(), self.pre.as_str())
        } else {
            core
        };
        if self.build.as_str().unicode_len() > 0 {
            let h = concat(with_pre.as_str(), "+");
            concat(h.as_str(), self.build.as_str())
        } else {
            with_pre
        }
    }

    /// The compat key of the version.
    pub fn compat_version(&self) -> (r: String)
        ensures
            r@ == compat_key(self@),
    {
        if self.pre.as_str().unicode_len() > 0 {
            self.full_text()
        } else if self.major > 0 {
            decimal_text(self.major)
        } else if self.minor > 0 {
            let m = decimal_text(self.minor);
            concat("0.", m.as_str())
        } else {
            let p = decimal_text(self.patch);
            concat("0.0.", p.as_str())
        }
    }
}

/// The compat key of every version begins its full text, so a package line
/// named by the key always contains the version.
pub proof fn lemma_compat_key_prefix(v: VersionNumbersView)
    ensures
        compat_key(v).len() <= version_text(v).len(),
        version_text(v).subrange(0, compat_key(v).len() as int) == compat_key(v),
{
    reveal_strlit(".");
    reveal_strlit("-");
    reveal_strlit("+");
    reveal_strlit("0.");
    reveal_strlit("0.0.");
    let t = version_text(v);
    let k = compat_key(v);
    let core = decimal(v.major as nat) + "."@ + decimal(v.minor as nat) + "."@ + decimal(
        v.patch as nat,
    );
    assert(t.subrange(0, core.len() as int) =~= core);
    if v.pre.len() > 0 {
        assert(t.subrange(0, k.len() as int) =~= k);
    } else if v.major > 0 {
        assert(core.subrange(0, k.len() as int) =~= k);
    } else {
        assert(decimal(0) =~= seq!['0']);
        if v.minor > 0 {
            assert(core.subrange(0, k.len() as int) =~= k);
        } else {
            assert(decimal(v.minor as nat) =~= seq!['0']);
            assert(core.subrange(0, k.len() as int) =~= k);
        }
    }
}

/// Two releases with the same major number from `1.0.0` on share a compat
/// key, whatever their minor and patch numbers and build metadata.
pub proof fn lemma_same_major_same_key(a: VersionNumbersView, b: VersionNumbersView)
    requires
        a.pre.len() == 0,
        b.pre.len() == 0,
        a.major == b.major,
        a.major > 0,
    ensures
        compat_key(a) == compat_key(b),
{
}

/// Two releases below `1.0.0` with the same nonzero minor number share a
/// compat key.
pub proof fn lemma_same_minor_same_key(a: VersionNumbersView, b: VersionNumbersView)
    requires
        a.pre.len() == 0,
        b.pre.len() == 0,
        a.major == 0,
        b.major == 0,
        a.minor == b.minor,
        a.minor > 0,
    ensures
        compat_key(a) == compat_key(b),
{
}

/// A pre-release is filed under its own full version, whatever its major,
/// minor and patch numbers: its compat key is its whole version text,
/// pre-release and build metadata included.
pub proof fn lemma_prerelease_key_is_full_version(v: VersionNumbersView)
    requires
        v.pre.len() > 0,
    ensures
        compat_key(v) == version_text(v),
        compat_key(v) == version_text(VersionNumbersView { build: Seq::empty(), ..v }) + (if v.build.len() > 0 {
            "+"@ + v.build
        } else {
            Seq::empty()
        }),
        v.build.len() == 0 ==> compat_key(v) == decimal(v.major as nat) + "."@ + decimal(v.minor as nat)
            + "."@ + decimal(v.patch as nat) + "-"@ + v.pre,
{
}

/// A release from `1.0.0` on is filed under its major number alone, and a
/// release below it never is: its key then starts with `0.`.
pub proof fn lemma_release_key_by_major(v: VersionNumbersView)
    requires
        v.pre.len() == 0,
    ensures
        v.major > 0 ==> compat_key(v) == decimal(v.major as nat),
        v.major == 0 ==> compat_key(v).len() >= 3 && compat_key(v)[0] == '0' && compat_key(v)[1] == '.',
{
    reveal_strlit("0.");
    reveal_strlit("0.0.");
}

} // verus!
