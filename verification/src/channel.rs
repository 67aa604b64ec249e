//! Release channels: the stability levels of a version, from development
//! builds up to stable releases, and how a version is assigned to one.

use crate::text::{has_prefix, same_text};
use crate::version::{parsed_version, semver_parse, valid, SemVerView, Version, VersionView};
use std::cmp::Ordering;
use vstd::prelude::*;
use vstd::std_specs::cmp::PartialOrdSpec;
use vstd::std_specs::cmp::PartialOrdSpecImpl;

verus! {

/// A release channel. The channels are ordered by stability:
/// `Dev < Alpha < Beta < Rc < Stable`.
#[derive(Debug, Clone, Copy, PartialEq, Eq, Structural)]
pub enum Channel {
    Dev,
    Alpha,
    Beta,
    Rc,
    Stable,
}

/// Why no channel could be given.
#[derive(Debug)]
pub enum ChannelError {
    /// The text names no channel.
    NoMatchFound,
    /// The version's prerelease label begins with none of the known prefixes.
    FailedToParseVersion(Version),
}

/// The channel that `name` stands for: its full name, or its first letter.
pub open spec fn channel_named(name: Seq<char>) -> Option<Channel> {
    if name == "alpha"@ || name == "a"@ {
        Some(Channel::Alpha)
    } else if name == "beta"@ || name == "b"@ {
        Some(Channel::Beta)
    } else if name == "dev"@ || name == "d"@ {
        Some(Channel::Dev)
    } else if name == "rc"@ || name == "r"@ {
        Some(Channel::Rc)
    } else if name == "stable"@ || name == "s"@ {
        Some(Channel::Stable)
    } else {
        None
    }
}

/// The channel of a prerelease label: stable where there is no label, else the
/// channel whose prefix the label begins with, if any.
pub open spec fn channel_of_label(pre: Seq<char>) -> Option<Channel> {
    if pre.len() == 0 {
        Some(Channel::Stable)
    } else if "alpha"@.is_prefix_of(pre) {
        Some(Channel::Alpha)
    } else if "beta"@.is_prefix_of(pre) {
        Some(Channel::Beta)
    } else if "dev"@.is_prefix_of(pre) {
        Some(Channel::Dev)
    } else if "rc"@.is_prefix_of(pre) {
        Some(Channel::Rc)
    } else {
        None
    }
}

/// The channel of a version. A calendar version is always stable.
pub open spec fn channel_of(v: VersionView) -> Option<Channel> {
    match v {
        VersionView::SemVer(s) => channel_of_label(s.pre),
        VersionView::CalVer(_) => Some(Channel::Stable),
    }
}

/// Whether `v` has a channel, and one that is at least `min`.
pub open spec fn eligible(v: VersionView, min: Channel) -> bool {
    channel_of(v) matches Some(c) && c.rank() >= min.rank()
}

impl Channel {
    /// The place of the channel in the order of stability.
    pub open spec fn rank(self) -> int {
        match self {
            Channel::Dev => 0,
            Channel::Alpha => 1,
            Channel::Beta => 2,
            Channel::Rc => 3,
            Channel::Stable => 4,
        }
    }

    /// The place of the channel in the order of stability, from 0 for `Dev`.
    pub fn stability(self) -> (n: u8)
        ensures
            n == self.rank(),
    {
        match self {
            Channel::Dev => 0,
            Channel::Alpha => 1,
            Channel::Beta => 2,
            Channel::Rc => 3,
            Channel::Stable => 4,
        }
    }

    /// Whether the channel is `min` or a more stable one.
    pub fn at_least(self, min: Channel) -> (yes: bool)
        ensures
            yes == (self.rank() >= min.rank()),
    {
        self.stability() >= min.stability()
    }

    /// The full name of the channel.
    pub open spec fn spec_name(self) -> Seq<char> {
        match self {
            Channel::Dev => "dev"@,
            Channel::Alpha => "alpha"@,
            Channel::Beta => "beta"@,
            Channel::Rc => "rc"@,
            Channel::Stable => "stable"@,
        }
    }

    /// The full name of the channel, which names it.
    pub fn name(self) -> (name: &'static str)
        ensures
            name@ == self.spec_name(),
            channel_named(name@) == Some(self),
    {
        proof {
            reveal_names();
        }
        match self {
            Channel::Dev => "dev",
            Channel::Alpha => "alpha",
            Channel::Beta => "beta",
            Channel::Rc => "rc",
            Channel::Stable => "stable",
        }
    }

    /// The channel that `s` names.
    pub fn from_str(s: &str) -> (channel: Result<Channel, ChannelError>)
        ensures
            match channel {
                Ok(c) => channel_named(s@) == Some(c),
                Err(e) => channel_named(s@) is None && e is NoMatchFound,
            },
    {
        if same_text(s, "alpha") || same_text(s, "a") {
            Ok(Channel::Alpha)
        } else if same_text(s, "beta") || same_text(s, "b") {
            Ok(Channel::Beta)
        } else if same_text(s, "dev") || same_text(s, "d") {
            Ok(Channel::Dev)
        } else if same_text(s, "rc") || same_text(s, "r") {
            Ok(Channel::Rc)
        } else if same_text(s, "stable") || same_text(s, "s") {
            Ok(Channel::Stable)
        } else {
            Err(ChannelError::NoMatchFound)
        }
    }

    /// The channel of `value`. It fails on a semantic version whose prerelease
    /// label begins with none of the known prefixes, and hands the version back.
    pub fn try_from(value: &Version) -> (channel: Result<Channel, ChannelError>)
        ensures
            valid(value@),
            match channel {
                Ok(c) => channel_of(value@) == Some(c),
                Err(e) => channel_of(value@) is None && e is FailedToParseVersion
                    && e->FailedToParseVersion_0@ == value@,
            },
    {
        match value {
            Version::SemVer(version) => {
                let pre = version.pre();
                if pre.is_empty() {
                    Ok(Channel::Stable)
                } else if has_prefix(pre, "alpha") {
                    Ok(Channel::Alpha)
                } else if has_prefix(pre, "beta") {
                    Ok(Channel::Beta)
                } else if has_prefix(pre, "dev") {
                    Ok(Channel::Dev)
                } else if has_prefix(pre, "rc") {
                    Ok(Channel::Rc)
                } else {
                    Err(ChannelError::FailedToParseVersion(value.clone()))
                }
            },
            Version::CalVer(_) => Ok(Channel::Stable),
        }
    }
}

impl Default for Channel {
    /// The channel that is asked for where none is named.
    fn default() -> (channel: Channel)
        ensures
            channel == Channel::Alpha,
    {
        Channel::Alpha
    }
}

impl PartialOrd for Channel {
    fn partial_cmp(&self, other: &Self) -> (order: Option<Ordering>) {
        let left = self.stability();
        let right = other.stability();
        if left < right {
            Some(Ordering::Less)
        } else if left > right {
            Some(Ordering::Greater)
        } else {
            Some(Ordering::Equal)
        }
    }
}

impl PartialOrdSpecImpl for Channel {
    open spec fn obeys_partial_cmp_spec() -> bool {
        true
    }

    open spec fn partial_cmp_spec(&self, other: &Self) -> Option<Ordering> {
        if self.rank() < other.rank() {
            Some(Ordering::Less)
        } else if self.rank() > other.rank() {
            Some(Ordering::Greater)
        } else {
            Some(Ordering::Equal)
        }
    }
}

/// What the channel names and prefixes hold, character by character.
pub proof fn reveal_names()
    ensures
        "alpha"@ == seq!['a', 'l', 'p', 'h', 'a'],
        "beta"@ == seq!['b', 'e', 't', 'a'],
        "dev"@ == seq!['d', 'e', 'v'],
        "rc"@ == seq!['r', 'c'],
        "stable"@ == seq!['s', 't', 'a', 'b', 'l', 'e'],
        "a"@ == seq!['a'],
        "b"@ == seq!['b'],
        "d"@ == seq!['d'],
        "r"@ == seq!['r'],
        "s"@ == seq!['s'],
{
    reveal_strlit("alpha");
    reveal_strlit("beta");
    reveal_strlit("dev");
    reveal_strlit("rc");
    reveal_strlit("stable");
    reveal_strlit("a");
    reveal_strlit("b");
    reveal_strlit("d");
    reveal_strlit("r");
    reveal_strlit("s");
}

/// The channels are strictly ordered by stability, and `<` on channels is that
/// order: `Dev < Alpha < Beta < Rc < Stable`.
pub proof fn lemma_channel_order(a: Channel, b: Channel)
    ensures
        Channel::Dev.rank() < Channel::Alpha.rank() < Channel::Beta.rank() < Channel::Rc.rank()
            < Channel::Stable.rank(),
        PartialOrdSpec::partial_cmp_spec(&a, &b) == Some(Ordering::Less) <==> a.rank()
            < b.rank(),
        PartialOrdSpec::partial_cmp_spec(&a, &b) == Some(Ordering::Greater) <==> a.rank()
            > b.rank(),
        PartialOrdSpec::partial_cmp_spec(&a, &b) == Some(Ordering::Equal) <==> a == b,
{
}

/// A semantic version whose prerelease label begins with one of the known
/// prefixes has the channel of that prefix, and a version without a label is
/// stable. The prefixes exclude one another, so the channel depends on the
/// label alone: the same text always gives the same channel.
pub proof fn lemma_prefix_decides_channel(pre: Seq<char>)
    ensures
        pre.len() == 0 ==> channel_of_label(pre) == Some(Channel::Stable),
        "alpha"@.is_prefix_of(pre) ==> channel_of_label(pre) == Some(Channel::Alpha),
        "beta"@.is_prefix_of(pre) ==> channel_of_label(pre) == Some(Channel::Beta),
        "dev"@.is_prefix_of(pre) ==> channel_of_label(pre) == Some(Channel::Dev),
        "rc"@.is_prefix_of(pre) ==> channel_of_label(pre) == Some(Channel::Rc),
{
    reveal_names();
}

/// A text that reads as a semantic version whose prerelease label begins with
/// a known prefix stands for a version of that prefix's channel, and one
/// without a label for a stable version. The channel is a function of the
/// text: reading the same text again gives the same channel.
pub proof fn lemma_text_decides_channel(text: Seq<char>, s: SemVerView)
    requires
        semver_parse(text) == Some(s),
    ensures
        parsed_version(text) == Some(VersionView::SemVer(s)),
        channel_of(parsed_version(text)->0) == channel_of_label(s.pre),
        s.pre.len() == 0 ==> channel_of(parsed_version(text)->0) == Some(Channel::Stable),
        "alpha"@.is_prefix_of(s.pre) ==> channel_of(parsed_version(text)->0) == Some(
            Channel::Alpha,
        ),
        "beta"@.is_prefix_of(s.pre) ==> channel_of(parsed_version(text)->0) == Some(Channel::Beta),
        "dev"@.is_prefix_of(s.pre) ==> channel_of(parsed_version(text)->0) == Some(Channel::Dev),
        "rc"@.is_prefix_of(s.pre) ==> channel_of(parsed_version(text)->0) == Some(Channel::Rc),
{
    lemma_prefix_decides_channel(s.pre);
}

} // verus!
