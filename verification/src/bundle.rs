//! The identity of a plugin: id, version and format, and its file name
//! `id-v{version}.{format}`.

use vstd::prelude::*;
use crate::utils::error::{BundleFault, BundleFromError};
use crate::version::{semver_parsed, version_text, Version, VersionView};

verus! {

/// Mathematical value of a [`Bundle`].
pub struct BundleView {
    pub id: Seq<char>,
    pub version: VersionView,
    pub format: Seq<char>,
}

/// The identity triple of a plugin.
#[derive(Debug, PartialEq, Eq)]
pub struct Bundle {
    /// Unique identifier of the plugin.
    pub id: String,
    /// Semantic version of the plugin.
    pub version: Version,
    /// Format of the plugin: the extension of its file name.
    pub format: String,
}

impl View for Bundle {
    type V = BundleView;

    open spec fn view(&self) -> BundleView {
        BundleView { id: self.id@, version: self.version@, format: self.format@ }
    }
}

impl Clone for Bundle {
    fn clone(&self) -> (r: Self)
        ensures
            r@ == self@,
    {
        Bundle { id: self.id.clone(), version: self.version.clone(), format: self.format.clone() }
    }
}

/// The last position before `end` at which `s` holds `c`.
pub open spec fn last_char(s: Seq<char>, c: char, end: int) -> Option<int>
    decreases end,
{
    if end <= 0 {
        None
    } else if s[end - 1] == c {
        Some(end - 1)
    } else {
        last_char(s, c, end - 1)
    }
}

/// `s` holds the version marker `-v` at position `p`.
pub open spec fn marker_at(s: Seq<char>, p: int) -> bool {
    0 <= p && p + 1 < s.len() && s[p] == '-' && s[p + 1] == 'v'
}

/// The last position at which a version marker lies wholly before `end`.
pub open spec fn last_marker(s: Seq<char>, end: int) -> Option<int>
    decreases end,
{
    if end <= 1 {
        None
    } else if s[end - 2] == '-' && s[end - 1] == 'v' {
        Some(end - 2)
    } else {
        last_marker(s, end - 1)
    }
}

/// What a file name denotes. Everything after the last `.` is the format; of
/// the text before that dot, everything after the last `-v` is the version and
/// everything before it the id. None of the three may be empty, and the
/// version must be one that `semver` reads.
pub open spec fn filename_parse(name: Seq<char>) -> Result<BundleView, BundleFault> {
    match last_char(name, '.', name.len() as int) {
        None => Err(BundleFault::Format),
        Some(dot) => match last_marker(name, dot) {
            None => Err(BundleFault::Version),
            Some(mark) => {
                let format = name.subrange(dot + 1, name.len() as int);
                let version = name.subrange(mark + 2, dot);
                let id = name.subrange(0, mark);
                if format.len() == 0 {
                    Err(BundleFault::Format)
                } else if version.len() == 0 {
                    Err(BundleFault::Version)
                } else if id.len() == 0 {
                    Err(BundleFault::Id)
                } else {
                    match semver_parsed(version) {
                        None => Err(BundleFault::ParseVersion),
                        Some(v) => Ok(BundleView { id, version: v, format }),
                    }
                }
            },
        },
    }
}

/// The file name of a bundle: `id-v{version}.{format}`.
pub open spec fn bundle_text(b: BundleView) -> Seq<char> {
    b.id + seq!['-', 'v'] + version_text(b.version) + seq!['.'] + b.format
}

proof fn lemma_last_char_found(s: Seq<char>, c: char, end: int)
    requires
        0 <= end <= s.len(),
    ensures
        match last_char(s, c, end) {
            None => forall|j: int| 0 <= j < end ==> s[j] != c,
            Some(i) => 0 <= i < end && s[i] == c && forall|j: int| i < j < end ==> s[j] != c,
        },
    decreases end,
{
    if end > 0 && s[end - 1] != c {
        lemma_last_char_found(s, c, end - 1);
    }
}

proof fn lemma_last_marker_found(s: Seq<char>, end: int)
    requires
        0 <= end <= s.len(),
    ensures
        match last_marker(s, end) {
            None => forall|j: int| 0 <= j && j + 1 < end ==> !marker_at(s, j),
            Some(i) => marker_at(s, i) && i + 1 < end && forall|j: int|
                i < j && j + 1 < end ==> !marker_at(s, j),
        },
    decreases end,
{
    if end > 1 && !(s[end - 2] == '-' && s[end - 1] == 'v') {
        lemma_last_marker_found(s, end - 1);
    }
}

/// Where a position is the last one holding `c`, it is the one that
/// [`last_char`] finds.
proof fn lemma_last_char_is(s: Seq<char>, c: char, end: int, i: int)
    requires
        0 <= i < end <= s.len(),
        s[i] == c,
        forall|j: int| i < j < end ==> s[j] != c,
    ensures
        last_char(s, c, end) == Some(i),
    decreases end,
{
    if s[end - 1] != c {
        lemma_last_char_is(s, c, end - 1, i);
    }
}

proof fn lemma_last_marker_is(s: Seq<char>, end: int, i: int)
    requires
        marker_at(s, i),
        i + 1 < end <= s.len(),
        forall|j: int| i < j && j + 1 < end ==> !marker_at(s, j),
    ensures
        last_marker(s, end) == Some(i),
    decreases end,
{
    if !(s[end - 2] == '-' && s[end - 1] == 'v') {
        lemma_last_marker_is(s, end - 1, i);
    } else {
        assert(marker_at(s, end - 2));
    }
}

fn find_last_char(chars: &Vec<char>, c: char) -> (r: Option<usize>)
    ensures
        match r {
            Some(i) => last_char(chars@, c, chars@.len() as int) == Some(i as int),
            None => last_char(chars@, c, chars@.len() as int) is None,
        },
{
    let mut end: usize = chars.len();
    while end > 0
        invariant
            end <= chars.len(),
            last_char(chars@, c, chars@.len() as int) == last_char(chars@, c, end as int),
        decreases end,
    {
        if chars[end - 1] == c {
            return Some(end - 1);
        }
        end = end - 1;
    }
    None
}

fn find_last_marker(chars: &Vec<char>, limit: usize) -> (r: Option<usize>)
    requires
        limit <= chars.len(),
    ensures
        match r {
            Some(i) => last_marker(chars@, limit as int) == Some(i as int),
            None => last_marker(chars@, limit as int) is None,
        },
{
    let mut end: usize = limit;
    while end > 1
        invariant
            end <= limit <= chars.len(),
            last_marker(chars@, limit as int) == last_marker(chars@, end as int),
        decreases end,
    {
        if chars[end - 2] == '-' && chars[end - 1] == 'v' {
            return Some(end - 2);
        }
        end = end - 1;
    }
    None
}

/// The characters of a text, in order.
fn chars_of(text: &str) -> (r: Vec<char>)
    ensures
        r@ == text@,
{
    let n = text.unicode_len();
    let mut out: Vec<char> = Vec::new();
    let mut i: usize = 0;
    while i < n
        invariant
            n == text@.len(),
            i <= n,
            out@ == text@.subrange(0, i as int),
        decreases n - i,
    {
        out.push(text.get_char(i));
        assert(out@ == text@.subrange(0, i + 1));
        i = i + 1;
    }
    assert(text@.subrange(0, n as int) == text@);
    out
}

impl Bundle {
    /// Reads a bundle from a file name of the form `id-v{version}.{format}`.
    ///
    /// The result is exactly [`filename_parse`] of the name: the bundle, or the
    /// error that tells which part is missing or that the version does not
    /// parse.
    pub fn from_filename(filename: &str) -> (r: Result<Bundle, BundleFromError>)
        ensures
            match r {
                Ok(b) => filename_parse(filename@) == Ok::<BundleView, BundleFault>(b@),
                Err(e) => filename_parse(filename@) == Err::<BundleView, BundleFault>(e.fault()),
            },
    {
        let chars = chars_of(filename);
        let n = chars.len();
        let dot = match find_last_char(&chars, '.') {
            None => {
                return Err(BundleFromError::FormatFailed);
            },
            Some(dot) => dot,
        };
        proof {
            lemma_last_char_found(chars@, '.', n as int);
        }
        let mark = match find_last_marker(&chars, dot) {
            None => {
                return Err(BundleFromError::VersionFailed);
            },
            Some(mark) => mark,
        };
        proof {
            lemma_last_marker_found(chars@, dot as int);
        }
        if dot + 1 == n {
            return Err(BundleFromError::FormatFailed);
        }
        if mark + 2 == dot {
            return Err(BundleFromError::VersionFailed);
        }
        if mark == 0 {
            return Err(BundleFromError::IDFailed);
        }
        let version_part = filename.substring_char(mark + 2, dot);
        match Version::parse(version_part) {
            Err(e) => Err(BundleFromError::ParseVersion(e)),
            Ok(version) => {
                let id = filename.substring_char(0, mark).to_owned();
                let format = filename.substring_char(dot + 1, n).to_owned();
                Ok(Bundle { id, version, format })
            },
        }
    }

    /// The file name of the bundle, `id-v{version}.{format}`.
    pub fn to_string(&self) -> (r: String)
        ensures
            r@ == bundle_text(self@),
    {
        let mut out = self.id.clone();
        proof {
            reveal_strlit("-v");
            reveal_strlit(".");
        }
        out.append("-v");
        assert("-v"@ == seq!['-', 'v']);
        let version = self.version.to_string();
        out.append(version.as_str());
        out.append(".");
        assert("."@ == seq!['.']);
        out.append(self.format.as_str());
        out
    }

    /// Whether the bundle has this id and version.
    pub fn is(&self, id: &str, version: &Version) -> (r: bool)
        ensures
            r == (self.id@ == id@ && self.version@ == version@),
    {
        crate::utils::text::same_text(self.id.as_str(), id) && self.version.equals(version)
    }

    /// Whether two bundles name the same plugin: same id and same version.
    /// The format does not count.
    pub fn same_plugin(&self, other: &Bundle) -> (r: bool)
        ensures
            r == same_plugin(self@, other@),
    {
        self.id == other.id && self.version.equals(&other.version)
    }

    /// Compares the versions of two bundles of the same id: -1, 0 or 1 for
    /// a lower, equal or higher version. Bundles of different ids are not
    /// ordered.
    pub fn compare(&self, other: &Bundle) -> (r: Option<i8>)
        ensures
            r is Some == (self@.id == other@.id),
            r matches Some(sign) ==> sign == crate::version::version_order(
                self@.version,
                other@.version,
            ),
    {
        if self.id == other.id {
            Some(self.version.compare(&other.version))
        } else {
            None
        }
    }

    /// Whether the file name of the bundle reads back as the bundle.
    ///
    /// It does where the id is not empty, the format is not empty and holds
    /// no dot, and the text of the version holds no `-v` and is read back by
    /// `semver` as the version, which [`Version::reads_back`] tells.
    pub fn reads_back(&self) -> (r: bool)
        ensures
            r == (filename_parse(bundle_text(self@)) == Ok::<BundleView, BundleFault>(self@)),
            self@.id.len() > 0 && self@.format.len() > 0 && !self@.format.contains('.')
                && marker_free(version_text(self@.version)) && semver_parsed(
                version_text(self@.version),
            ) == Some(self@.version) ==> r,
    {
        let text = self.to_string();
        let r = match Bundle::from_filename(text.as_str()) {
            Ok(b) => b.equals(self),
            Err(_) => false,
        };
        proof {
            if self@.id.len() > 0 && self@.format.len() > 0 && !self@.format.contains('.')
                && marker_free(version_text(self@.version)) && semver_parsed(
                version_text(self@.version),
            ) == Some(self@.version) {
                law_parse_round_trip(self@);
            }
        }
        r
    }

    /// Structural equality of all three parts.
    pub fn equals(&self, other: &Bundle) -> (r: bool)
        ensures
            r == (self@ == other@),
    {
        self.id == other.id && self.version.equals(&other.version) && self.format == other.format
    }
}

/// Two bundles name the same plugin: same id and same version.
pub open spec fn same_plugin(a: BundleView, b: BundleView) -> bool {
    a.id == b.id && a.version == b.version
}

/// `s` holds no version marker `-v`.
pub open spec fn marker_free(s: Seq<char>) -> bool {
    forall|p: int| !marker_at(s, p)
}

/// Reading the file name of a bundle gives the bundle back.
///
/// This holds of every bundle with a non-empty id, a non-empty format without
/// a dot, and a version whose text `semver` reads back as that version and
/// which holds no `-v` (a pre-release tag such as `v2` would be taken for the
/// version marker).
pub proof fn law_parse_round_trip(b: BundleView)
    requires
        b.id.len() > 0,
        b.format.len() > 0,
        !b.format.contains('.'),
        marker_free(version_text(b.version)),
        semver_parsed(version_text(b.version)) == Some(b.version),
    ensures
        filename_parse(bundle_text(b)) == Ok::<BundleView, BundleFault>(b),
{
    let vt = version_text(b.version);
    crate::version::lemma_version_text_nonempty(b.version);
    let name = bundle_text(b);
    let mark = b.id.len() as int;
    let dot = mark + 2 + vt.len();
    let n = name.len() as int;
    assert(n == dot + 1 + b.format.len());
    assert(name[dot] == '.');
    assert forall|j: int| dot < j < n implies name[j] != '.' by {
        assert(name[j] == b.format[j - dot - 1]);
        assert(b.format.contains(b.format[j - dot - 1]));
    }
    lemma_last_char_is(name, '.', n, dot);
    assert(marker_at(name, mark));
    assert forall|j: int| mark < j && j + 1 < dot implies !marker_at(name, j) by {
        if j == mark + 1 {
            assert(name[j] == 'v');
        } else {
            assert(name[j] == vt[j - mark - 2]);
            assert(name[j + 1] == vt[j + 1 - mark - 2]);
            assert(!marker_at(vt, j - mark - 2));
        }
    }
    lemma_last_marker_is(name, dot, mark);
    assert(name.subrange(dot + 1, n) == b.format);
    assert(name.subrange(mark + 2, dot) == vt);
    assert(name.subrange(0, mark) == b.id);
}

} // verus!
