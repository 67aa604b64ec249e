//! Versions of published artifacts: semantic versions and calendar versions,
//! how they are read from text and how they are ordered.

use crate::text::{all_digits, decimal_digits, decimal_u16, padded_decimal, split, texts};
use crate::text::{chars_of, parse_u16, push_decimal, split_text};
use std::cmp::Ordering;
use vstd::prelude::*;
use vstd::std_specs::cmp::PartialEqSpecImpl;
use vstd::std_specs::cmp::PartialOrdSpecImpl;
use vstd::string::StringExecFns;

verus! {

/// What a semantic version holds, as plain values.
pub struct SemVerView {
    pub major: u64,
    pub minor: u64,
    pub patch: u64,
    /// The prerelease label, empty for a release.
    pub pre: Seq<char>,
    /// The build metadata, empty where there is none.
    pub build: Seq<char>,
}

/// What a version holds, as plain values.
pub enum VersionView {
    SemVer(SemVerView),
    CalVer((u16, u16, u16)),
}

/// A semantic version. Its prerelease label and its build metadata are always
/// such as the `semver` crate accepts, so that they can be handed to it for
/// comparison.
#[derive(Debug)]
pub struct SemVer {
    major: u64,
    minor: u64,
    patch: u64,
    pre: String,
    build: String,
}

/// A version: a semantic version, or a calendar version of year, month and day.
#[derive(Debug)]
pub enum Version {
    SemVer(SemVer),
    CalVer((u16, u16, u16)),
}

/// How one version stands to another, in precedence or in the full order.
#[derive(Debug, Clone, Copy, PartialEq, Eq, Structural)]
pub enum Precedence {
    Lower,
    Same,
    Higher,
}

/// Whether `c` may stand in an identifier: an ASCII letter, a digit or a hyphen.
pub open spec fn is_label_char(c: char) -> bool {
    ('0' <= c <= '9') || ('A' <= c <= 'Z') || ('a' <= c <= 'z') || c == '-'
}

/// One dot-separated identifier of a prerelease label: not empty, made of ASCII
/// letters, digits and hyphens, and without a leading zero where it is a number.
pub open spec fn is_prerelease_identifier(part: Seq<char>) -> bool {
    &&& part.len() > 0
    &&& forall|i: int| 0 <= i < part.len() ==> is_label_char(#[trigger] part[i])
    &&& (all_digits(part) && part.len() > 1 ==> part[0] != '0')
}

/// Whether `label` is a well-formed prerelease label: empty, or identifiers
/// joined by dots.
pub open spec fn is_prerelease(label: Seq<char>) -> bool {
    label.len() == 0 || forall|k: int|
        0 <= k < split(label, '.').len() ==> is_prerelease_identifier(
            #[trigger] split(label, '.')[k],
        )
}

/// One dot-separated identifier of build metadata: not empty, made of ASCII
/// letters, digits and hyphens. Leading zeros are allowed.
pub open spec fn is_build_identifier(part: Seq<char>) -> bool {
    &&& part.len() > 0
    &&& forall|i: int| 0 <= i < part.len() ==> is_label_char(#[trigger] part[i])
}

/// Whether `text` is well-formed build metadata: empty, or identifiers joined
/// by dots.
pub open spec fn is_build_metadata(text: Seq<char>) -> bool {
    text.len() == 0 || forall|k: int|
        0 <= k < split(text, '.').len() ==> is_build_identifier(#[trigger] split(text, '.')[k])
}

/// What `semver::Version::parse` makes of `text`: the parts of the version
/// that it reads, or `None` where it rejects the text.
pub uninterp spec fn semver_parse(text: Seq<char>) -> Option<SemVerView>;

/// What `semver::Prerelease::cmp` returns for the labels `a` and `b`: negative
/// for less, zero for equal, positive for greater.
pub uninterp spec fn prerelease_precedence(a: Seq<char>, b: Seq<char>) -> int;

/// The label `lo` is ordered strictly before `hi`, seen from both sides, and so
/// is every label that is ordered before `lo`.
pub open spec fn label_below(lo: Seq<char>, hi: Seq<char>) -> bool {
    &&& prerelease_precedence(lo, hi) < 0
    &&& prerelease_precedence(hi, lo) > 0
    &&& forall|c: Seq<char>|
        is_prerelease(c) && #[trigger] prerelease_precedence(c, lo) < 0 ==> {
            &&& prerelease_precedence(c, hi) < 0
            &&& prerelease_precedence(hi, c) > 0
        }
}

/// What `semver::BuildMetadata::cmp` returns for the build metadata `a` and
/// `b`: negative for less, zero for equal, positive for greater.
pub uninterp spec fn build_precedence(a: Seq<char>, b: Seq<char>) -> int;

/// The build metadata `lo` is ordered strictly before `hi`, seen from both
/// sides, and so is all build metadata that is ordered before `lo`.
pub open spec fn build_below(lo: Seq<char>, hi: Seq<char>) -> bool {
    &&& build_precedence(lo, hi) < 0
    &&& build_precedence(hi, lo) > 0
    &&& forall|c: Seq<char>|
        is_build_metadata(c) && #[trigger] build_precedence(c, lo) < 0 ==> {
            &&& build_precedence(c, hi) < 0
            &&& build_precedence(hi, c) > 0
        }
}

/// Whether the prerelease label and the build metadata of `v`, where `v` is a
/// semantic version, are well-formed. It is so for every version that exists.
pub open spec fn valid(v: VersionView) -> bool {
    v matches VersionView::SemVer(s) ==> is_prerelease(s.pre) && is_build_metadata(s.build)
}

/// Whether `a` has strictly lower precedence than `b`. Semantic versions go by
/// major, minor and patch number, then by their prerelease labels, where these
/// differ; build metadata plays no part. Calendar versions go by year, month
/// and day. Every semantic version precedes every calendar version.
pub open spec fn precedes(a: VersionView, b: VersionView) -> bool {
    match (a, b) {
        (VersionView::SemVer(x), VersionView::SemVer(y)) => {
            ||| x.major < y.major
            ||| x.major == y.major && x.minor < y.minor
            ||| x.major == y.major && x.minor == y.minor && x.patch < y.patch
            ||| x.major == y.major && x.minor == y.minor && x.patch == y.patch && x.pre != y.pre
                && prerelease_precedence(x.pre, y.pre) < 0
        },
        (VersionView::CalVer(x), VersionView::CalVer(y)) => {
            ||| x.0 < y.0
            ||| x.0 == y.0 && x.1 < y.1
            ||| x.0 == y.0 && x.1 == y.1 && x.2 < y.2
        },
        (VersionView::SemVer(_), VersionView::CalVer(_)) => true,
        (VersionView::CalVer(_), VersionView::SemVer(_)) => false,
    }
}

/// Whether `a` and `b` have the same precedence: they agree in everything but,
/// possibly, build metadata.
pub open spec fn same_precedence(a: VersionView, b: VersionView) -> bool {
    match (a, b) {
        (VersionView::SemVer(x), VersionView::SemVer(y)) => x.major == y.major && x.minor
            == y.minor && x.patch == y.patch && x.pre == y.pre,
        (VersionView::CalVer(x), VersionView::CalVer(y)) => x == y,
        _ => false,
    }
}

/// Whether `a` is not above `b`: it precedes `b` and `b` does not precede it,
/// or the two have the same precedence.
pub open spec fn not_above(a: VersionView, b: VersionView) -> bool {
    (precedes(a, b) && !precedes(b, a)) || same_precedence(a, b)
}

/// `lo` precedes `hi`, seen from both sides, and so does every version that is
/// not above `lo`.
pub open spec fn ranks_below(lo: VersionView, hi: VersionView) -> bool {
    &&& precedes(lo, hi)
    &&& !precedes(hi, lo)
    &&& forall|c: VersionView|
        valid(c) && #[trigger] not_above(c, lo) ==> precedes(c, hi) && !precedes(hi, c)
}

/// Whether `a` is a prerelease of the release `b`: the same three numbers,
/// with a label where `b` has none.
pub open spec fn prerelease_of(a: VersionView, b: VersionView) -> bool {
    a matches VersionView::SemVer(x) && b matches VersionView::SemVer(y) && x.major == y.major
        && x.minor == y.minor && x.patch == y.patch && x.pre.len() > 0 && y.pre.len() == 0
}

/// Whether the build metadata of `a` is ordered before that of `b`, the two
/// being different.
pub open spec fn build_before(a: VersionView, b: VersionView) -> bool {
    a matches VersionView::SemVer(x) && b matches VersionView::SemVer(y) && x.build != y.build
        && build_precedence(x.build, y.build) < 0
}

/// Whether `a` stands below `b` in the full order of versions: it precedes
/// `b`, or has the same precedence and the lesser build metadata.
pub open spec fn below(a: VersionView, b: VersionView) -> bool {
    precedes(a, b) || (same_precedence(a, b) && build_before(a, b))
}

/// Whether `a` is `b`, or stands below `b` and `b` not below it.
pub open spec fn at_most(a: VersionView, b: VersionView) -> bool {
    a == b || (below(a, b) && !below(b, a))
}

/// `lo` stands below `hi`, seen from both sides, and so does every version
/// that is at most `lo`.
pub open spec fn stands_below(lo: VersionView, hi: VersionView) -> bool {
    &&& below(lo, hi)
    &&& !below(hi, lo)
    &&& forall|c: VersionView|
        valid(c) && #[trigger] at_most(c, lo) ==> below(c, hi) && !below(hi, c)
}

/// What the calendar reading makes of `raw`: exactly three parts between dots,
/// each a 16-bit decimal number.
pub open spec fn calendar_of(raw: Seq<char>) -> Option<(u16, u16, u16)> {
    let parts = split(raw, '.');
    if parts.len() == 3 && decimal_u16(parts[0]) is Some && decimal_u16(parts[1]) is Some
        && decimal_u16(parts[2]) is Some {
        Some((decimal_u16(parts[0])->0, decimal_u16(parts[1])->0, decimal_u16(parts[2])->0))
    } else {
        None
    }
}

/// The version that `raw` stands for, given what the semantic reading made of
/// it: the semantic version where there is one, else the calendar version,
/// else nothing.
pub open spec fn version_of(semantic: Option<SemVerView>, raw: Seq<char>) -> Option<VersionView> {
    match semantic {
        Some(v) => Some(VersionView::SemVer(v)),
        None => match calendar_of(raw) {
            Some(date) => Some(VersionView::CalVer(date)),
            None => None,
        },
    }
}

/// The version that `raw` stands for.
pub open spec fn parsed_version(raw: Seq<char>) -> Option<VersionView> {
    version_of(semver_parse(raw), raw)
}

/// How a version is written out. A semantic version is `major.minor.patch`,
/// then `-` and the prerelease label and `+` and the build metadata where they
/// are not empty. A calendar version is year, month and day between dots, with
/// zeros in front up to four, two and two digits.
pub open spec fn written_version(v: VersionView) -> Seq<char> {
    match v {
        VersionView::SemVer(s) => {
            let numbers = decimal_digits(s.major as nat) + seq!['.'] + decimal_digits(
                s.minor as nat,
            ) + seq!['.'] + decimal_digits(s.patch as nat);
            let pre = if s.pre.len() > 0 {
                seq!['-'] + s.pre
            } else {
                Seq::empty()
            };
            let build = if s.build.len() > 0 {
                seq!['+'] + s.build
            } else {
                Seq::empty()
            };
            numbers + pre + build
        },
        VersionView::CalVer(date) => padded_decimal(date.0 as nat, 4) + seq!['.']
            + padded_decimal(date.1 as nat, 2) + seq!['.'] + padded_decimal(date.2 as nat, 2),
    }
}

/// The versions of a list as plain values.
pub open spec fn version_views(versions: Seq<Version>) -> Seq<VersionView> {
    versions.map_values(|v: Version| v@)
}

/// Where `x` goes into the descending list `sorted`: before the first version
/// that stands below it.
pub open spec fn insertion_point(sorted: Seq<VersionView>, x: VersionView) -> int
    decreases sorted.len(),
{
    if sorted.len() == 0 || below(sorted[0], x) {
        0
    } else {
        1 + insertion_point(sorted.drop_first(), x)
    }
}

/// `versions` in descending order, highest first: by precedence, and among
/// versions of the same precedence by build metadata.
pub open spec fn arranged(versions: Seq<VersionView>) -> Seq<VersionView>
    decreases versions.len(),
{
    if versions.len() == 0 {
        Seq::empty()
    } else {
        let before = arranged(versions.drop_last());
        before.insert(insertion_point(before, versions.last()), versions.last())
    }
}

/// Whether every version of the list is at most each one that stands before
/// it.
pub open spec fn descending(versions: Seq<VersionView>) -> bool {
    forall|i: int, j: int|
        0 <= i < j < versions.len() ==> at_most(#[trigger] versions[j], #[trigger] versions[i])
}

/// A version, if there is one, as plain values.
pub open spec fn view_of(v: Option<Version>) -> Option<VersionView> {
    match v {
        Some(v) => Some(v@),
        None => None,
    }
}

/// A semantic version, if there is one, as plain values.
pub open spec fn semantic_view_of(v: Option<SemVer>) -> Option<SemVerView> {
    match v {
        Some(v) => Some(v@),
        None => None,
    }
}

impl View for SemVer {
    type V = SemVerView;

    closed spec fn view(&self) -> SemVerView {
        SemVerView {
            major: self.major,
            minor: self.minor,
            patch: self.patch,
            pre: self.pre@,
            build: self.build@,
        }
    }
}

impl View for Version {
    type V = VersionView;

    open spec fn view(&self) -> VersionView {
        match self {
            Version::SemVer(v) => VersionView::SemVer(v@),
            Version::CalVer(date) => VersionView::CalVer(*date),
        }
    }
}

/// Hands `text` to `semver::Version::parse`. What comes back is named by
/// `semver_parse`; the parts are copied out of the parsed version as they are.
/// A version that `semver` has parsed holds a prerelease label and build
/// metadata that `semver` accepts.
#[verifier::external_body]
fn parse_semantic(text: &str) -> (parsed: Option<SemVer>)
    ensures
        semantic_view_of(parsed) == semver_parse(text@),
        parsed matches Some(v) ==> is_prerelease(v@.pre) && is_build_metadata(v@.build),
{
    match semver::Version::parse(text) {
        Ok(v) => Some(
            SemVer {
                major: v.major,
                minor: v.minor,
                patch: v.patch,
                pre: v.pre.as_str().to_string(),
                build: v.build.as_str().to_string(),
            },
        ),
        Err(_) => None,
    }
}

/// Compares two prerelease labels with `semver::Prerelease::cmp`, after making
/// them with `semver::Prerelease::new`, which accepts exactly the labels of the
/// documented grammar: the empty label, or identifiers joined by dots, each a
/// non-empty run of ASCII letters, digits and hyphens, a numeric one without
/// leading zero. `semver` documents a total order on prerelease labels: two
/// labels compare equal exactly when they are the same text, comparing them
/// the other way round gives the opposite answer, and the order is transitive.
/// It documents too that the empty label, that of a release, is greater than
/// every other.
#[verifier::external_body]
fn order_labels(a: &str, b: &str) -> (order: i8)
    requires
        is_prerelease(a@),
        is_prerelease(b@),
    ensures
        order == prerelease_precedence(a@, b@),
        -1 <= order <= 1,
        (order == 0) == (a@ == b@),
        order < 0 ==> label_below(a@, b@),
        order > 0 ==> label_below(b@, a@),
        a@.len() == 0 && b@.len() > 0 ==> order > 0,
        a@.len() > 0 && b@.len() == 0 ==> order < 0,
{
    let left = semver::Prerelease::new(a).unwrap();
    let right = semver::Prerelease::new(b).unwrap();
    match left.cmp(&right) {
        std::cmp::Ordering::Less => -1,
        std::cmp::Ordering::Equal => 0,
        std::cmp::Ordering::Greater => 1,
    }
}

/// Compares build metadata with `semver::BuildMetadata::cmp`, after making it
/// with `semver::BuildMetadata::new`, which accepts exactly the metadata of the
/// documented grammar: empty, or identifiers joined by dots, each a non-empty
/// run of ASCII letters, digits and hyphens. `semver` documents a total order
/// on build metadata: two compare equal exactly when they are the same text,
/// comparing them the other way round gives the opposite answer, and the order
/// is transitive.
#[verifier::external_body]
fn order_builds(a: &str, b: &str) -> (order: i8)
    requires
        is_build_metadata(a@),
        is_build_metadata(b@),
    ensures
        order == build_precedence(a@, b@),
        -1 <= order <= 1,
        (order == 0) == (a@ == b@),
        order < 0 ==> build_below(a@, b@),
        order > 0 ==> build_below(b@, a@),
{
    let left = semver::BuildMetadata::new(a).unwrap();
    let right = semver::BuildMetadata::new(b).unwrap();
    match left.cmp(&right) {
        std::cmp::Ordering::Less => -1,
        std::cmp::Ordering::Equal => 0,
        std::cmp::Ordering::Greater => 1,
    }
}

/// Whether `part` is an identifier: of a prerelease label where `strict`, else
/// of build metadata.
fn is_identifier(part: &str, strict: bool) -> (ok: bool)
    ensures
        ok == if strict {
            is_prerelease_identifier(part@)
        } else {
            is_build_identifier(part@)
        },
{
    let chars = chars_of(part);
    if chars.len() == 0 {
        return false;
    }
    let mut numeric = true;
    let mut i: usize = 0;
    while i < chars.len()
        invariant
            i <= chars.len(),
            chars@ == part@,
            forall|j: int| 0 <= j < i ==> is_label_char(#[trigger] part@[j]),
            numeric == all_digits(part@.take(i as int)),
        decreases chars.len() - i,
    {
        let c = chars[i];
        let digit = '0' <= c && c <= '9';
        let letter = ('A' <= c && c <= 'Z') || ('a' <= c && c <= 'z') || c == '-';
        if !digit && !letter {
            return false;
        }
        proof {
            let grown = part@.take(i + 1);
            assert(grown[i as int] == c);
        }
        numeric = numeric && digit;
        i += 1;
    }
    proof {
        assert(part@.take(i as int) =~= part@);
    }
    !(strict && numeric && chars.len() > 1 && chars[0] == '0')
}

/// Whether `label` is a well-formed prerelease label.
pub fn is_prerelease_label(label: &str) -> (ok: bool)
    ensures
        ok == is_prerelease(label@),
{
    if label.is_empty() {
        return true;
    }
    let parts = split_text(label, '.');
    let mut i: usize = 0;
    while i < parts.len()
        invariant
            i <= parts.len(),
            label@.len() > 0,
            texts(parts@) == split(label@, '.'),
            forall|k: int|
                0 <= k < i ==> is_prerelease_identifier(#[trigger] split(label@, '.')[k]),
        decreases parts.len() - i,
    {
        proof {
            assert(texts(parts@)[i as int] == parts@[i as int]@);
        }
        if !is_identifier(parts[i].as_str(), true) {
            return false;
        }
        i += 1;
    }
    true
}

/// Whether `text` is well-formed build metadata.
pub fn is_build_metadata_text(text: &str) -> (ok: bool)
    ensures
        ok == is_build_metadata(text@),
{
    if text.is_empty() {
        return true;
    }
    let parts = split_text(text, '.');
    let mut i: usize = 0;
    while i < parts.len()
        invariant
            i <= parts.len(),
            text@.len() > 0,
            texts(parts@) == split(text@, '.'),
            forall|k: int| 0 <= k < i ==> is_build_identifier(#[trigger] split(text@, '.')[k]),
        decreases parts.len() - i,
    {
        proof {
            assert(texts(parts@)[i as int] == parts@[i as int]@);
        }
        if !is_identifier(parts[i].as_str(), false) {
            return false;
        }
        i += 1;
    }
    true
}

impl SemVer {
    #[verifier::type_invariant]
    spec fn parts_are_accepted(self) -> bool {
        is_prerelease(self.pre@) && is_build_metadata(self.build@)
    }

    /// A release: no prerelease label and no build metadata.
    pub fn new(major: u64, minor: u64, patch: u64) -> (v: SemVer)
        ensures
            v@ == (SemVerView { major, minor, patch, pre: Seq::empty(), build: Seq::empty() }),
    {
        SemVer { major, minor, patch, pre: String::new(), build: String::new() }
    }

    /// A version with the prerelease label `pre`, where that is a prerelease
    /// label; the empty label gives a release.
    pub fn with_prerelease(major: u64, minor: u64, patch: u64, pre: &str) -> (v: Option<SemVer>)
        ensures
            v is Some == is_prerelease(pre@),
            v matches Some(s) ==> s@ == (SemVerView {
                major,
                minor,
                patch,
                pre: pre@,
                build: Seq::empty(),
            }),
    {
        if is_prerelease_label(pre) {
            Some(SemVer { major, minor, patch, pre: String::from_str(pre), build: String::new() })
        } else {
            None
        }
    }

    /// A version with the prerelease label `pre` and the build metadata
    /// `build`, where both are well-formed; either may be empty.
    pub fn with_build(major: u64, minor: u64, patch: u64, pre: &str, build: &str) -> (v: Option<
        SemVer,
    >)
        ensures
            v is Some == (is_prerelease(pre@) && is_build_metadata(build@)),
            v matches Some(s) ==> s@ == (SemVerView {
                major,
                minor,
                patch,
                pre: pre@,
                build: build@,
            }),
    {
        if is_prerelease_label(pre) && is_build_metadata_text(build) {
            Some(
                SemVer {
                    major,
                    minor,
                    patch,
                    pre: String::from_str(pre),
                    build: String::from_str(build),
                },
            )
        } else {
            None
        }
    }

    /// The major number.
    pub fn major(&self) -> (n: u64)
        ensures
            n == self@.major,
    {
        self.major
    }

    /// The minor number.
    pub fn minor(&self) -> (n: u64)
        ensures
            n == self@.minor,
    {
        self.minor
    }

    /// The patch number.
    pub fn patch(&self) -> (n: u64)
        ensures
            n == self@.patch,
    {
        self.patch
    }

    /// The prerelease label. It is always well-formed, as the build metadata
    /// is.
    pub fn pre(&self) -> (label: &str)
        ensures
            label@ == self@.pre,
            valid(VersionView::SemVer(self@)),
    {
        proof {
            use_type_invariant(self);
        }
        self.pre.as_str()
    }

    /// The build metadata, empty where there is none. It is always
    /// well-formed, as the prerelease label is.
    pub fn build(&self) -> (metadata: &str)
        ensures
            metadata@ == self@.build,
            valid(VersionView::SemVer(self@)),
    {
        proof {
            use_type_invariant(self);
        }
        self.build.as_str()
    }

    /// How `self` stands to `other` in precedence. A prerelease of a release is
    /// lower than the release.
    pub fn compare(&self, other: &SemVer) -> (order: Precedence)
        ensures
            valid(VersionView::SemVer(self@)),
            valid(VersionView::SemVer(other@)),
            prerelease_of(VersionView::SemVer(self@), VersionView::SemVer(other@)) ==> order
                == Precedence::Lower,
            prerelease_of(VersionView::SemVer(other@), VersionView::SemVer(self@)) ==> order
                == Precedence::Higher,
            order == Precedence::Lower <==> precedes(
                VersionView::SemVer(self@),
                VersionView::SemVer(other@),
            ),
            order == Precedence::Higher <==> precedes(
                VersionView::SemVer(other@),
                VersionView::SemVer(self@),
            ),
            order == Precedence::Same <==> same_precedence(
                VersionView::SemVer(self@),
                VersionView::SemVer(other@),
            ),
            order == Precedence::Lower ==> ranks_below(
                VersionView::SemVer(self@),
                VersionView::SemVer(other@),
            ),
            order == Precedence::Higher ==> ranks_below(
                VersionView::SemVer(other@),
                VersionView::SemVer(self@),
            ),
    {
        proof {
            use_type_invariant(self);
            use_type_invariant(other);
        }
        if self.major != other.major {
            if self.major < other.major {
                Precedence::Lower
            } else {
                Precedence::Higher
            }
        } else if self.minor != other.minor {
            if self.minor < other.minor {
                Precedence::Lower
            } else {
                Precedence::Higher
            }
        } else if self.patch != other.patch {
            if self.patch < other.patch {
                Precedence::Lower
            } else {
                Precedence::Higher
            }
        } else {
            let order = order_labels(self.pre.as_str(), other.pre.as_str());
            if order < 0 {
                Precedence::Lower
            } else if order > 0 {
                Precedence::Higher
            } else {
                Precedence::Same
            }
        }
    }

    /// How `self` stands to `other` in the full order: by precedence, and for
    /// the same precedence by build metadata. `Same` means equal.
    pub fn order(&self, other: &SemVer) -> (order: Precedence)
        ensures
            valid(VersionView::SemVer(self@)),
            valid(VersionView::SemVer(other@)),
            order == Precedence::Lower <==> below(
                VersionView::SemVer(self@),
                VersionView::SemVer(other@),
            ),
            order == Precedence::Higher <==> below(
                VersionView::SemVer(other@),
                VersionView::SemVer(self@),
            ),
            order == Precedence::Same <==> self@ == other@,
            order == Precedence::Lower ==> stands_below(
                VersionView::SemVer(self@),
                VersionView::SemVer(other@),
            ),
            order == Precedence::Higher ==> stands_below(
                VersionView::SemVer(other@),
                VersionView::SemVer(self@),
            ),
    {
        proof {
            use_type_invariant(self);
            use_type_invariant(other);
        }
        let ghost a = VersionView::SemVer(self@);
        let ghost b = VersionView::SemVer(other@);
        let by_precedence = self.compare(other);
        if by_precedence == Precedence::Lower {
            proof {
                lemma_precedence_decides(a, b);
            }
            Precedence::Lower
        } else if by_precedence == Precedence::Higher {
            proof {
                lemma_precedence_decides(b, a);
            }
            Precedence::Higher
        } else {
            let by_build = order_builds(self.build.as_str(), other.build.as_str());
            if by_build < 0 {
                proof {
                    lemma_build_decides(a, b);
                }
                Precedence::Lower
            } else if by_build > 0 {
                proof {
                    lemma_build_decides(b, a);
                }
                Precedence::Higher
            } else {
                Precedence::Same
            }
        }
    }
}

/// Where `lo` precedes `hi`, against every third version too, it stands below
/// `hi` in the full order, against every third version too.
proof fn lemma_precedence_decides(lo: VersionView, hi: VersionView)
    requires
        ranks_below(lo, hi),
    ensures
        stands_below(lo, hi),
{
    assert forall|c: VersionView| valid(c) && #[trigger] at_most(c, lo) implies below(c, hi)
        && !below(hi, c) by {
        assert(not_above(c, lo));
    }
}

/// Where `lo` and `hi` have the same precedence and the build metadata of `lo`
/// is ordered before that of `hi`, against all third build metadata too, `lo`
/// stands below `hi` in the full order, against every third version too.
proof fn lemma_build_decides(lo: VersionView, hi: VersionView)
    requires
        same_precedence(lo, hi),
        lo matches VersionView::SemVer(x) && hi matches VersionView::SemVer(y) && build_below(
            x.build,
            y.build,
        ),
    ensures
        stands_below(lo, hi),
{
}

impl PartialEq for SemVer {
    /// Two semantic versions are equal when all their parts are, build
    /// metadata included.
    fn eq(&self, other: &SemVer) -> (same: bool) {
        self.major == other.major && self.minor == other.minor && self.patch == other.patch
            && self.pre == other.pre && self.build == other.build
    }
}

impl PartialEqSpecImpl for SemVer {
    open spec fn obeys_eq_spec() -> bool {
        true
    }

    open spec fn eq_spec(&self, other: &SemVer) -> bool {
        self@ == other@
    }
}

impl PartialEq for Version {
    /// Two versions are equal when they are of the same kind and hold the same
    /// parts; a semantic version never equals a calendar version.
    fn eq(&self, other: &Version) -> (same: bool) {
        match (self, other) {
            (Version::SemVer(a), Version::SemVer(b)) => a == b,
            (Version::CalVer(a), Version::CalVer(b)) => a.0 == b.0 && a.1 == b.1 && a.2 == b.2,
            _ => false,
        }
    }
}

impl PartialEqSpecImpl for Version {
    open spec fn obeys_eq_spec() -> bool {
        true
    }

    open spec fn eq_spec(&self, other: &Version) -> bool {
        self@ == other@
    }
}

impl PartialOrd for Version {
    /// The full order of versions: by precedence, and for the same precedence
    /// by build metadata. Two versions compare equal exactly when they are
    /// equal.
    fn partial_cmp(&self, other: &Version) -> (order: Option<Ordering>) {
        match self.order(other) {
            Precedence::Lower => Some(Ordering::Less),
            Precedence::Same => Some(Ordering::Equal),
            Precedence::Higher => Some(Ordering::Greater),
        }
    }
}

impl PartialOrdSpecImpl for Version {
    open spec fn obeys_partial_cmp_spec() -> bool {
        true
    }

    open spec fn partial_cmp_spec(&self, other: &Version) -> Option<Ordering> {
        if self@ == other@ {
            Some(Ordering::Equal)
        } else if below(self@, other@) {
            Some(Ordering::Less)
        } else {
            Some(Ordering::Greater)
        }
    }
}

impl Clone for SemVer {
    fn clone(&self) -> (copy: SemVer)
        ensures
            copy@ == self@,
    {
        proof {
            use_type_invariant(self);
        }
        SemVer {
            major: self.major,
            minor: self.minor,
            patch: self.patch,
            pre: self.pre.clone(),
            build: self.build.clone(),
        }
    }
}

impl Clone for Version {
    fn clone(&self) -> (copy: Version)
        ensures
            copy@ == self@,
    {
        match self {
            Version::SemVer(v) => Version::SemVer(v.clone()),
            Version::CalVer(date) => Version::CalVer(*date),
        }
    }
}

/// Reads `raw` as a calendar version.
pub fn parse_calendar(raw: &str) -> (date: Option<(u16, u16, u16)>)
    ensures
        date == calendar_of(raw@),
{
    let parts = split_text(raw, '.');
    if parts.len() != 3 {
        return None;
    }
    let year = parse_u16(parts[0].as_str());
    let month = parse_u16(parts[1].as_str());
    let day = parse_u16(parts[2].as_str());
    match (year, month, day) {
        (Some(y), Some(m), Some(d)) => Some((y, m, d)),
        _ => None,
    }
}

/// Brings to light that `v` is valid, as every version is.
fn note_valid(v: &Version)
    ensures
        valid(v@),
{
    match v {
        Version::SemVer(s) => {
            proof {
                use_type_invariant(s);
            }
        },
        Version::CalVer(_) => {},
    }
}

impl Version {
    /// The version that `raw` stands for, given what the semantic reading made
    /// of it.
    pub fn from_reading(semantic: Option<SemVer>, raw: &str) -> (v: Option<Version>)
        ensures
            view_of(v) == version_of(semantic_view_of(semantic), raw@),
    {
        match semantic {
            Some(v) => Some(Version::SemVer(v)),
            None => match parse_calendar(raw) {
                Some(date) => Some(Version::CalVer(date)),
                None => None,
            },
        }
    }

    /// The version that `raw` stands for: a semantic version where `raw` reads
    /// as one, else a calendar version where it reads as one, else nothing.
    pub fn from_text(raw: &str) -> (v: Option<Version>)
        ensures
            view_of(v) == parsed_version(raw@),
    {
        Version::from_reading(parse_semantic(raw), raw)
    }

    /// How `self` stands to `other` in precedence, which leaves build metadata
    /// out. The answer is exact, and a strict answer holds against every third
    /// version too: what is not above the lower of the two precedes the higher.
    /// A prerelease of a release is lower than the release.
    pub fn compare(&self, other: &Version) -> (order: Precedence)
        ensures
            valid(self@),
            valid(other@),
            prerelease_of(self@, other@) ==> order == Precedence::Lower,
            prerelease_of(other@, self@) ==> order == Precedence::Higher,
            order == Precedence::Lower <==> precedes(self@, other@),
            order == Precedence::Higher <==> precedes(other@, self@),
            order == Precedence::Same <==> same_precedence(self@, other@),
            order == Precedence::Lower ==> ranks_below(self@, other@),
            order == Precedence::Higher ==> ranks_below(other@, self@),
    {
        match (self, other) {
            (Version::SemVer(a), Version::SemVer(b)) => a.compare(b),
            (Version::CalVer(a), Version::CalVer(b)) => {
                if a.0 != b.0 {
                    if a.0 < b.0 {
                        Precedence::Lower
                    } else {
                        Precedence::Higher
                    }
                } else if a.1 != b.1 {
                    if a.1 < b.1 {
                        Precedence::Lower
                    } else {
                        Precedence::Higher
                    }
                } else if a.2 != b.2 {
                    if a.2 < b.2 {
                        Precedence::Lower
                    } else {
                        Precedence::Higher
                    }
                } else {
                    Precedence::Same
                }
            },
            (Version::SemVer(_), Version::CalVer(_)) => {
                note_valid(self);
                Precedence::Lower
            },
            (Version::CalVer(_), Version::SemVer(_)) => {
                note_valid(other);
                Precedence::Higher
            },
        }
    }

    /// How `self` stands to `other` in the full order of versions: by
    /// precedence, and for the same precedence by build metadata. `Same` means
    /// equal. A strict answer holds against every third version too: what is at
    /// most the lower of the two stands below the higher.
    pub fn order(&self, other: &Version) -> (order: Precedence)
        ensures
            valid(self@),
            valid(other@),
            order == Precedence::Lower <==> below(self@, other@),
            order == Precedence::Higher <==> below(other@, self@),
            order == Precedence::Same <==> self@ == other@,
            order == Precedence::Lower ==> stands_below(self@, other@),
            order == Precedence::Higher ==> stands_below(other@, self@),
    {
        match (self, other) {
            (Version::SemVer(a), Version::SemVer(b)) => a.order(b),
            _ => {
                let by_precedence = self.compare(other);
                proof {
                    if by_precedence == Precedence::Lower {
                        lemma_precedence_decides(self@, other@);
                    } else if by_precedence == Precedence::Higher {
                        lemma_precedence_decides(other@, self@);
                    }
                }
                by_precedence
            },
        }
    }

    /// The version written out as text.
    pub fn to_string(&self) -> (text: String)
        ensures
            text@ == written_version(self@),
    {
        let mut text = String::new();
        match self {
            Version::SemVer(v) => {
                push_decimal(&mut text, v.major(), 0);
                text.append(".");
                push_decimal(&mut text, v.minor(), 0);
                text.append(".");
                push_decimal(&mut text, v.patch(), 0);
                let pre = v.pre();
                if !pre.is_empty() {
                    text.append("-");
                    text.append(pre);
                }
                let build = v.build();
                if !build.is_empty() {
                    text.append("+");
                    text.append(build);
                }
                proof {
                    reveal_strlit(".");
                    reveal_strlit("-");
                    reveal_strlit("+");
                }
            },
            Version::CalVer(date) => {
                push_decimal(&mut text, date.0 as u64, 4);
                text.append(".");
                push_decimal(&mut text, date.1 as u64, 2);
                text.append(".");
                push_decimal(&mut text, date.2 as u64, 2);
                proof {
                    reveal_strlit(".");
                }
            },
        }
        text
    }
}

proof fn lemma_insertion_point(sorted: Seq<VersionView>, x: VersionView, at: int)
    requires
        0 <= at <= sorted.len(),
        forall|j: int| 0 <= j < at ==> !below(#[trigger] sorted[j], x),
        at < sorted.len() ==> below(sorted[at], x),
    ensures
        insertion_point(sorted, x) == at,
    decreases sorted.len(),
{
    if at > 0 {
        let rest = sorted.drop_first();
        lemma_insertion_point(rest, x, at - 1);
    }
}

/// Arranging a list of versions changes their order only: every version
/// occurs in the arranged list as often as in the given one.
pub proof fn lemma_arranged_is_permutation(versions: Seq<VersionView>)
    ensures
        arranged(versions).to_multiset() == versions.to_multiset(),
        arranged(versions).len() == versions.len(),
    decreases versions.len(),
{
    broadcast use vstd::seq_lib::group_to_multiset_ensures;

    if versions.len() > 0 {
        let before = arranged(versions.drop_last());
        let x = versions.last();
        lemma_arranged_is_permutation(versions.drop_last());
        lemma_insertion_point_in_range(before, x);
        vstd::seq_lib::to_multiset_insert(before, insertion_point(before, x), x);
        assert(versions =~= versions.drop_last().push(x));
    }
}

proof fn lemma_insertion_point_in_range(sorted: Seq<VersionView>, x: VersionView)
    ensures
        0 <= insertion_point(sorted, x) <= sorted.len(),
    decreases sorted.len(),
{
    if !(sorted.len() == 0 || below(sorted[0], x)) {
        lemma_insertion_point_in_range(sorted.drop_first(), x);
    }
}

/// `versions` in descending order, highest first: by precedence, and among
/// versions of the same precedence by build metadata.
pub fn sort_descending(versions: &Vec<Version>) -> (sorted: Vec<Version>)
    ensures
        version_views(sorted@) == arranged(version_views(versions@)),
        descending(version_views(sorted@)),
        sorted@.len() == versions@.len(),
{
    let mut sorted: Vec<Version> = Vec::new();
    let ghost given = version_views(versions@);
    let mut i: usize = 0;
    while i < versions.len()
        invariant
            i <= versions.len(),
            sorted@.len() == i,
            given == version_views(versions@),
            version_views(sorted@) == arranged(given.take(i as int)),
            descending(version_views(sorted@)),
            forall|j: int| 0 <= j < sorted@.len() ==> valid(#[trigger] version_views(sorted@)[j]),
        decreases versions.len() - i,
    {
        let x = versions[i].clone();
        note_valid(&x);
        let ghost before = version_views(sorted@);
        let mut k: usize = 0;
        let mut found = false;
        while k < sorted.len() && !found
            invariant
                k <= sorted.len(),
                before == version_views(sorted@),
                valid(x@),
                forall|j: int|
                    0 <= j < k ==> !below(#[trigger] before[j], x@) && at_most(x@, before[j]),
                found ==> k < sorted.len() && stands_below(before[k as int], x@),
            decreases sorted.len() - k + (if found { 0int } else { 1int }),
        {
            let order = sorted[k].order(&x);
            if order == Precedence::Lower {
                found = true;
            } else {
                k += 1;
            }
        }
        proof {
            lemma_insertion_point(before, x@, k as int);
            let grown = given.take(i + 1);
            assert(grown.drop_last() =~= given.take(i as int));
            let after = before.insert(k as int, x@);
            assert(version_views(sorted@.insert(k as int, x)) =~= after);
        }
        sorted.insert(k, x);
        i += 1;
    }
    proof {
        assert(given.take(i as int) =~= given);
    }
    sorted
}

} // verus!
