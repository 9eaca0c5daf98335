//! Semantic versions and version requirements.
//!
//! A [`Version`] holds the five components of a semantic version as plain
//! values, a [`VersionReq`] holds a requirement as its text. Parsing, the
//! precedence of pre-release and build identifiers, and the evaluation of a
//! requirement are done by the `semver` crate; everything else (equality, the
//! lexicographic composition of the order, the canonical text) is verified here.

use vstd::prelude::*;

verus! {

/// The error that `semver` reports for a text it does not accept.
#[verifier::external_type_specification]
#[verifier::external_body]
pub struct ExSemverError(semver::Error);

/// Mathematical value of a [`Version`].
pub struct VersionView {
    pub major: u64,
    pub minor: u64,
    pub patch: u64,
    pub pre: Seq<char>,
    pub build: Seq<char>,
}

/// What `semver::Version::parse` makes of a text: the version it reads, or
/// `None` where it rejects the text.
pub uninterp spec fn semver_parsed(text: Seq<char>) -> Option<VersionView>;

/// How `semver` orders two pre-release tags: negative, zero or positive as
/// the first comes before, with or after the second. A text that is no
/// pre-release tag is read as the empty tag.
pub uninterp spec fn prerelease_order(a: Seq<char>, b: Seq<char>) -> int;

/// How `semver` orders two build-metadata tags, read as for
/// [`prerelease_order`].
pub uninterp spec fn build_order(a: Seq<char>, b: Seq<char>) -> int;

/// Whether `semver::VersionReq::parse` accepts a text.
pub uninterp spec fn requirement_parses(text: Seq<char>) -> bool;

/// Whether the requirement that `semver` reads from `req` is satisfied by
/// `version`; false where `semver` rejects `req`.
pub uninterp spec fn requirement_admits(req: Seq<char>, version: VersionView) -> bool;

/// The sign of a three-way comparison of two integers.
pub open spec fn sign_of(a: int, b: int) -> int {
    if a < b {
        -1
    } else if a == b {
        0
    } else {
        1
    }
}

/// Total order of versions: by major, minor and patch number, then by
/// pre-release tag, then by build metadata. Equal tags never decide.
pub open spec fn version_order(a: VersionView, b: VersionView) -> int {
    if a.major != b.major {
        sign_of(a.major as int, b.major as int)
    } else if a.minor != b.minor {
        sign_of(a.minor as int, b.minor as int)
    } else if a.patch != b.patch {
        sign_of(a.patch as int, b.patch as int)
    } else if a.pre != b.pre && prerelease_order(a.pre, b.pre) != 0 {
        prerelease_order(a.pre, b.pre)
    } else if a.build != b.build {
        build_order(a.build, b.build)
    } else {
        0
    }
}

/// `a` is a strictly higher version than `b`.
pub open spec fn version_higher(a: VersionView, b: VersionView) -> bool {
    version_order(a, b) > 0
}

/// A semantic version.
#[derive(Debug, PartialEq, Eq)]
pub struct Version {
    pub major: u64,
    pub minor: u64,
    pub patch: u64,
    /// Pre-release tag without its leading `-`; empty for a release.
    pub pre: String,
    /// Build metadata without its leading `+`; empty if there is none.
    pub build: String,
}

impl View for Version {
    type V = VersionView;

    open spec fn view(&self) -> VersionView {
        VersionView {
            major: self.major,
            minor: self.minor,
            patch: self.patch,
            pre: self.pre@,
            build: self.build@,
        }
    }
}

impl Clone for Version {
    fn clone(&self) -> (r: Self)
        ensures
            r@ == self@,
    {
        Version {
            major: self.major,
            minor: self.minor,
            patch: self.patch,
            pre: self.pre.clone(),
            build: self.build.clone(),
        }
    }
}

/// Calls `semver::Version::parse` and copies the five components of the
/// version it returns. The contract names the outcome [`semver_parsed`] of the
/// text: the components on success, `None` with the crate's error otherwise.
#[verifier::external_body]
fn semver_parse(text: &str) -> (r: Result<Version, semver::Error>)
    ensures
        match r {
            Ok(v) => semver_parsed(text@) == Some(v@),
            Err(_) => semver_parsed(text@) is None,
        },
{
    match semver::Version::parse(text) {
        Ok(v) => Ok(
            Version {
                major: v.major,
                minor: v.minor,
                patch: v.patch,
                pre: v.pre.as_str().to_string(),
                build: v.build.as_str().to_string(),
            },
        ),
        Err(e) => Err(e),
    }
}

/// Compares two pre-release tags with `semver`'s `Ord` for `Prerelease`. The
/// result is -1, 0 or 1 and carries the name [`prerelease_order`].
#[verifier::external_body]
fn compare_prerelease(a: &str, b: &str) -> (r: i8)
    ensures
        r == prerelease_order(a@, b@),
        -1 <= r <= 1,
{
    let x = semver::Prerelease::new(a).unwrap_or_default();
    let y = semver::Prerelease::new(b).unwrap_or_default();
    match x.cmp(&y) {
        std::cmp::Ordering::Less => -1,
        std::cmp::Ordering::Equal => 0,
        std::cmp::Ordering::Greater => 1,
    }
}

/// Compares two build-metadata tags with `semver`'s `Ord` for
/// `BuildMetadata`. The result is -1, 0 or 1 and carries the name
/// [`build_order`].
#[verifier::external_body]
fn compare_build(a: &str, b: &str) -> (r: i8)
    ensures
        r == build_order(a@, b@),
        -1 <= r <= 1,
{
    let x = semver::BuildMetadata::new(a).unwrap_or_default();
    let y = semver::BuildMetadata::new(b).unwrap_or_default();
    match x.cmp(&y) {
        std::cmp::Ordering::Less => -1,
        std::cmp::Ordering::Equal => 0,
        std::cmp::Ordering::Greater => 1,
    }
}

/// Asks `semver::VersionReq::parse` whether it accepts a text, and hands its
/// error back where it does not.
#[verifier::external_body]
fn semver_check_requirement(text: &str) -> (r: Result<(), semver::Error>)
    ensures
        r is Ok == requirement_parses(text@),
{
    match semver::VersionReq::parse(text) {
        Ok(_) => Ok(()),
        Err(e) => Err(e),
    }
}

/// Evaluates `semver::VersionReq::matches` for the requirement read from
/// `req` on the version made of the given components; false where `req` does
/// not parse. The result carries the name [`requirement_admits`].
#[verifier::external_body]
fn semver_matches(req: &str, version: &Version) -> (r: bool)
    ensures
        r == requirement_admits(req@, version@),
{
    let v = semver::Version {
        major: version.major,
        minor: version.minor,
        patch: version.patch,
        pre: semver::Prerelease::new(&version.pre).unwrap_or_default(),
        build: semver::BuildMetadata::new(&version.build).unwrap_or_default(),
    };
    match semver::VersionReq::parse(req) {
        Ok(r) => r.matches(&v),
        Err(_) => false,
    }
}

fn compare_numbers(a: u64, b: u64) -> (r: i8)
    ensures
        r == sign_of(a as int, b as int),
{
    if a < b {
        -1
    } else if a == b {
        0
    } else {
        1
    }
}

impl Version {
    /// The release `major.minor.patch`, without pre-release tag or build
    /// metadata.
    pub fn new(major: u64, minor: u64, patch: u64) -> (r: Version)
        ensures
            r@ == (VersionView { major, minor, patch, pre: Seq::<char>::empty(), build: Seq::<char>::empty() }),
    {
        Version { major, minor, patch, pre: String::new(), build: String::new() }
    }

    /// Reads a version from its text.
    pub fn parse(text: &str) -> (r: Result<Version, semver::Error>)
        ensures
            match r {
                Ok(v) => semver_parsed(text@) == Some(v@),
                Err(_) => semver_parsed(text@) is None,
            },
    {
        semver_parse(text)
    }

    /// Component-wise equality.
    pub fn equals(&self, other: &Version) -> (r: bool)
        ensures
            r == (self@ == other@),
    {
        self.major == other.major && self.minor == other.minor && self.patch == other.patch
            && self.pre == other.pre && self.build == other.build
    }

    /// Three-way comparison: -1, 0 or 1 for lower, equal, higher.
    pub fn compare(&self, other: &Version) -> (r: i8)
        ensures
            r == version_order(self@, other@),
            -1 <= r <= 1,
    {
        if self.major != other.major {
            compare_numbers(self.major, other.major)
        } else if self.minor != other.minor {
            compare_numbers(self.minor, other.minor)
        } else if self.patch != other.patch {
            compare_numbers(self.patch, other.patch)
        } else {
            let by_pre: i8 = if self.pre == other.pre {
                0
            } else {
                compare_prerelease(self.pre.as_str(), other.pre.as_str())
            };
            if by_pre != 0 {
                by_pre
            } else if self.build == other.build {
                0
            } else {
                compare_build(self.build.as_str(), other.build.as_str())
            }
        }
    }

    /// Whether `self` is a strictly higher version than `other`.
    pub fn is_higher_than(&self, other: &Version) -> (r: bool)
        ensures
            r == version_higher(self@, other@),
    {
        self.compare(other) > 0
    }
}

/// The decimal digit `d`.
pub open spec fn digit_char(d: int) -> char {
    if d == 0 {
        '0'
    } else if d == 1 {
        '1'
    } else if d == 2 {
        '2'
    } else if d == 3 {
        '3'
    } else if d == 4 {
        '4'
    } else if d == 5 {
        '5'
    } else if d == 6 {
        '6'
    } else if d == 7 {
        '7'
    } else if d == 8 {
        '8'
    } else {
        '9'
    }
}

/// The decimal numeral of `n`, without leading zeros.
pub open spec fn decimal(n: nat) -> Seq<char>
    decreases n,
{
    if n < 10 {
        seq![digit_char(n as int)]
    } else {
        decimal(n / 10).push(digit_char((n % 10) as int))
    }
}

/// The canonical text of a version: `major.minor.patch`, then `-` and the
/// pre-release tag if there is one, then `+` and the build metadata if there
/// is any.
pub open spec fn version_text(v: VersionView) -> Seq<char> {
    decimal(v.major as nat) + seq!['.'] + decimal(v.minor as nat) + seq!['.'] + decimal(
        v.patch as nat,
    ) + (if v.pre.len() > 0 {
        seq!['-'] + v.pre
    } else {
        Seq::<char>::empty()
    }) + (if v.build.len() > 0 {
        seq!['+'] + v.build
    } else {
        Seq::<char>::empty()
    })
}

pub proof fn lemma_version_text_nonempty(v: VersionView)
    ensures
        version_text(v).len() > 0,
{
}

fn digit_text(d: u64) -> (r: &'static str)
    requires
        d < 10,
    ensures
        r@ == seq![digit_char(d as int)],
{
    proof {
        reveal_strlit("0");
        reveal_strlit("1");
        reveal_strlit("2");
        reveal_strlit("3");
        reveal_strlit("4");
        reveal_strlit("5");
        reveal_strlit("6");
        reveal_strlit("7");
        reveal_strlit("8");
        reveal_strlit("9");
    }
    let r = if d == 0 {
        "0"
    } else if d == 1 {
        "1"
    } else if d == 2 {
        "2"
    } else if d == 3 {
        "3"
    } else if d == 4 {
        "4"
    } else if d == 5 {
        "5"
    } else if d == 6 {
        "6"
    } else if d == 7 {
        "7"
    } else if d == 8 {
        "8"
    } else {
        "9"
    };
    assert(r@ =~= seq![digit_char(d as int)]);
    r
}

/// Appends the decimal numeral of `n` to `out`.
fn push_decimal(out: &mut String, n: u64)
    ensures
        final(out)@ == old(out)@ + decimal(n as nat),
    decreases n,
{
    if n >= 10 {
        push_decimal(out, n / 10);
    }
    out.append(digit_text(n % 10));
    assert(final(out)@ =~= old(out)@ + decimal(n as nat));
}

impl Version {
    /// Whether `semver` reads the canonical text of the version back as this
    /// version.
    pub fn reads_back(&self) -> (r: bool)
        ensures
            r == (semver_parsed(version_text(self@)) == Some(self@)),
    {
        let text = self.to_string();
        match Version::parse(text.as_str()) {
            Ok(v) => v.equals(self),
            Err(_) => false,
        }
    }

    /// The canonical text of the version.
    pub fn to_string(&self) -> (r: String)
        ensures
            r@ == version_text(self@),
    {
        proof {
            reveal_strlit(".");
            reveal_strlit("-");
            reveal_strlit("+");
        }
        assert("."@ =~= seq!['.']);
        assert("-"@ =~= seq!['-']);
        assert("+"@ =~= seq!['+']);
        let mut out = String::new();
        push_decimal(&mut out, self.major);
        out.append(".");
        push_decimal(&mut out, self.minor);
        out.append(".");
        push_decimal(&mut out, self.patch);
        if self.pre.as_str().unicode_len() > 0 {
            out.append("-");
            out.append(self.pre.as_str());
        }
        if self.build.as_str().unicode_len() > 0 {
            out.append("+");
            out.append(self.build.as_str());
        }
        assert(out@ =~= version_text(self@));
        out
    }
}

/// A version requirement such as `^1.2`, `>=1.0, <2.0` or `*`, kept as text.
#[derive(Debug, PartialEq, Eq)]
pub struct VersionReq {
    pub text: String,
}

impl View for VersionReq {
    type V = Seq<char>;

    open spec fn view(&self) -> Seq<char> {
        self.text@
    }
}

impl Clone for VersionReq {
    fn clone(&self) -> (r: Self)
        ensures
            r@ == self@,
    {
        VersionReq { text: self.text.clone() }
    }
}

impl VersionReq {
    /// Accepts the text of a requirement if `semver` can read it.
    pub fn parse(text: &str) -> (r: Result<VersionReq, semver::Error>)
        ensures
            r is Ok == requirement_parses(text@),
            r matches Ok(req) ==> req@ == text@,
    {
        match semver_check_requirement(text) {
            Ok(_) => Ok(VersionReq { text: text.to_owned() }),
            Err(e) => Err(e),
        }
    }

    /// Whether `version` satisfies the requirement.
    pub fn matches(&self, version: &Version) -> (r: bool)
        ensures
            r == requirement_admits(self@, version@),
    {
        semver_matches(self.text.as_str(), version)
    }

    /// Structural equality: the same text.
    pub fn equals(&self, other: &VersionReq) -> (r: bool)
        ensures
            r == (self@ == other@),
    {
        self.text == other.text
    }
}

} // verus!
