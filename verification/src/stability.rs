//! Questions about the stability of one version.

use crate::channel::{channel_of, lemma_prefix_decides_channel, reveal_names, Channel};
use crate::text::has_prefix;
use crate::version::{Version, VersionView};
use vstd::prelude::*;

verus! {

/// Whether `v` is a semantic version whose prerelease label begins with
/// `prefix`.
pub open spec fn label_begins(v: VersionView, prefix: Seq<char>) -> bool {
    v matches VersionView::SemVer(s) && prefix.is_prefix_of(s.pre)
}

impl Version {
    fn begins(&self, prefix: &str) -> (yes: bool)
        ensures
            yes == label_begins(self@, prefix@),
    {
        match self {
            Version::SemVer(v) => has_prefix(v.pre(), prefix),
            Version::CalVer(_) => false,
        }
    }

    /// Whether the version is an alpha release.
    pub fn is_alpha(&self) -> (yes: bool)
        ensures
            yes == label_begins(self@, "alpha"@),
            yes == (channel_of(self@) == Some(Channel::Alpha)),
    {
        proof {
            lemma_channels_by_prefix(self@);
        }
        self.begins("alpha")
    }

    /// Whether the version is a beta release.
    pub fn is_beta(&self) -> (yes: bool)
        ensures
            yes == label_begins(self@, "beta"@),
            yes == (channel_of(self@) == Some(Channel::Beta)),
    {
        proof {
            lemma_channels_by_prefix(self@);
        }
        self.begins("beta")
    }

    /// Whether the version is a development build.
    pub fn is_dev(&self) -> (yes: bool)
        ensures
            yes == label_begins(self@, "dev"@),
            yes == (channel_of(self@) == Some(Channel::Dev)),
    {
        proof {
            lemma_channels_by_prefix(self@);
        }
        self.begins("dev")
    }

    /// Whether the version is a release candidate.
    pub fn is_rc(&self) -> (yes: bool)
        ensures
            yes == label_begins(self@, "rc"@),
            yes == (channel_of(self@) == Some(Channel::Rc)),
    {
        proof {
            lemma_channels_by_prefix(self@);
        }
        self.begins("rc")
    }

    /// Whether the version carries a prerelease label.
    pub fn is_prerelease(&self) -> (yes: bool)
        ensures
            yes == (self@ matches VersionView::SemVer(s) && s.pre.len() > 0),
            yes == !(channel_of(self@) == Some(Channel::Stable)),
    {
        proof {
            lemma_channels_by_prefix(self@);
        }
        match self {
            Version::SemVer(v) => !v.pre().is_empty(),
            Version::CalVer(_) => false,
        }
    }

    /// Whether the version is a stable release: a semantic version without
    /// prerelease label, or a calendar version.
    pub fn is_stable(&self) -> (yes: bool)
        ensures
            yes == (self@ matches VersionView::SemVer(s) ==> s.pre.len() == 0),
            yes == (channel_of(self@) == Some(Channel::Stable)),
    {
        !self.is_prerelease()
    }
}

/// A version is of a prerelease channel exactly when its label begins with
/// that channel's prefix, and stable exactly when it has no label.
pub proof fn lemma_channels_by_prefix(v: VersionView)
    ensures
        label_begins(v, "alpha"@) <==> channel_of(v) == Some(Channel::Alpha),
        label_begins(v, "beta"@) <==> channel_of(v) == Some(Channel::Beta),
        label_begins(v, "dev"@) <==> channel_of(v) == Some(Channel::Dev),
        label_begins(v, "rc"@) <==> channel_of(v) == Some(Channel::Rc),
        (v matches VersionView::SemVer(s) ==> s.pre.len() == 0) <==> channel_of(v) == Some(
            Channel::Stable,
        ),
{
    reveal_names();
    match v {
        VersionView::SemVer(s) => {
            lemma_prefix_decides_channel(s.pre);
        },
        VersionView::CalVer(_) => {},
    }
}

} // verus!
