//! Which Arkime container image to run in docker mode: the latest stable release
//! or the development snapshot. Both live under the same repository and differ
//! only by tag.

use vstd::prelude::*;
use crate::text::{contains_seq, contains_str};

verus! {

#[derive(Debug, Clone, Copy, PartialEq, Eq, Structural)]
pub enum ImageChannel {
    /// Latest stable release.
    Stable,
    /// Latest snapshot (built from the development branch).
    Snapshot,
}

impl Default for ImageChannel {
    fn default() -> (c: ImageChannel)
        ensures
            c == ImageChannel::Stable,
    {
        ImageChannel::Stable
    }
}

impl ImageChannel {
    pub open spec fn spec_cycle(self) -> ImageChannel {
        match self {
            ImageChannel::Stable => ImageChannel::Snapshot,
            ImageChannel::Snapshot => ImageChannel::Stable,
        }
    }

    /// Toggle Stable <-> Snapshot.
    pub fn cycle(self) -> (c: ImageChannel)
        ensures
            c == self.spec_cycle(),
    {
        match self {
            ImageChannel::Stable => ImageChannel::Snapshot,
            ImageChannel::Snapshot => ImageChannel::Stable,
        }
    }

    pub open spec fn spec_label(self) -> Seq<char> {
        match self {
            ImageChannel::Stable => "Stable — latest released Arkime"@,
            ImageChannel::Snapshot => "Snapshot — latest development build"@,
        }
    }

    pub fn label(self) -> (s: &'static str)
        ensures
            s@ == self.spec_label(),
    {
        match self {
            ImageChannel::Stable => "Stable — latest released Arkime",
            ImageChannel::Snapshot => "Snapshot — latest development build",
        }
    }

    pub open spec fn spec_short(self) -> Seq<char> {
        match self {
            ImageChannel::Stable => "stable"@,
            ImageChannel::Snapshot => "snapshot"@,
        }
    }

    pub fn short(self) -> (s: &'static str)
        ensures
            s@ == self.spec_short(),
    {
        match self {
            ImageChannel::Stable => "stable",
            ImageChannel::Snapshot => "snapshot",
        }
    }

    pub open spec fn spec_image(self) -> Seq<char> {
        match self {
            ImageChannel::Stable => "ghcr.io/arkime/arkime/arkime:v6-ja4-latest"@,
            ImageChannel::Snapshot => "ghcr.io/arkime/arkime/arkime:snapshot-v6-ja4-latest"@,
        }
    }

    /// The fully-qualified image reference for this channel.
    pub fn image(self) -> (s: &'static str)
        ensures
            s@ == self.spec_image(),
    {
        match self {
            ImageChannel::Stable => "ghcr.io/arkime/arkime/arkime:v6-ja4-latest",
            ImageChannel::Snapshot => "ghcr.io/arkime/arkime/arkime:snapshot-v6-ja4-latest",
        }
    }

    pub open spec fn spec_from_image(image: Seq<char>) -> ImageChannel {
        if contains_seq(image, "snapshot"@) {
            ImageChannel::Snapshot
        } else {
            ImageChannel::Stable
        }
    }

    /// Recover the channel from an image reference: a reference containing
    /// "snapshot" is the snapshot channel; anything else is stable.
    pub fn from_image(image: &str) -> (c: ImageChannel)
        ensures
            c == ImageChannel::spec_from_image(image@),
    {
        if contains_str(image, "snapshot") {
            ImageChannel::Snapshot
        } else {
            ImageChannel::Stable
        }
    }
}

/// Cycling twice comes back to the start, through the other channel.
pub proof fn lemma_cycle_toggles(c: ImageChannel)
    ensures
        c.spec_cycle().spec_cycle() == c,
        c.spec_cycle() != c,
{
}

} // verus!
