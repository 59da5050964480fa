//! The application's release channels and their names.
use vstd::prelude::*;

verus! {

/// The Git commit SHA that the application was built at.
#[derive(Clone, Debug)]
pub struct AppCommitSha(pub String);

/// The version of the application.
pub struct AppVersion;

/// A release channel of the application.
#[derive(Debug, Copy, Clone, PartialEq, Eq, Structural)]
pub enum ReleaseChannel {
    /// The development release channel, used for local debug builds.
    Dev,
    /// The Nightly release channel.
    Nightly,
    /// The Preview release channel.
    Preview,
    /// The Stable release channel.
    Stable,
}

/// Error indicating that a release channel string matches no known channel name.
#[derive(Copy, Clone, Debug, Hash, PartialEq, Eq, Structural)]
pub struct InvalidReleaseChannel;

impl Default for ReleaseChannel {
    fn default() -> (r: ReleaseChannel)
        ensures
            r == ReleaseChannel::Dev,
    {
        ReleaseChannel::Dev
    }
}

/// The programmatic name of a channel.
pub open spec fn dev_name_of(c: ReleaseChannel) -> Seq<char> {
    match c {
        ReleaseChannel::Dev => "dev"@,
        ReleaseChannel::Nightly => "nightly"@,
        ReleaseChannel::Preview => "preview"@,
        ReleaseChannel::Stable => "stable"@,
    }
}

impl ReleaseChannel {
    /// Whether the application should poll for updates on this channel.
    pub fn poll_for_updates(&self) -> (r: bool)
        ensures
            r == !(*self is Dev),
    {
        !matches!(self, ReleaseChannel::Dev)
    }

    /// The display name of this channel.
    pub fn display_name(&self) -> (r: &'static str)
        ensures
            *self is Dev ==> r@ == "Editsync Dev"@,
            *self is Nightly ==> r@ == "Editsync Nightly"@,
            *self is Preview ==> r@ == "Editsync Preview"@,
            *self is Stable ==> r@ == "Editsync"@,
    {
        match self {
            ReleaseChannel::Dev => "Editsync Dev",
            ReleaseChannel::Nightly => "Editsync Nightly",
            ReleaseChannel::Preview => "Editsync Preview",
            ReleaseChannel::Stable => "Editsync",
        }
    }

    /// The programmatic name of this channel.
    pub fn dev_name(&self) -> (r: &'static str)
        ensures
            r@ == dev_name_of(*self),
    {
        match self {
            ReleaseChannel::Dev => "dev",
            ReleaseChannel::Nightly => "nightly",
            ReleaseChannel::Preview => "preview",
            ReleaseChannel::Stable => "stable",
        }
    }

    /// The application id used by Wayland, by X11's WM_CLASS and as the macOS bundle id.
    pub fn app_id(&self) -> (r: &'static str)
        ensures
            *self is Dev ==> r@ == "dev.editsync.Editsync-Dev"@,
            *self is Nightly ==> r@ == "dev.editsync.Editsync-Nightly"@,
            *self is Preview ==> r@ == "dev.editsync.Editsync-Preview"@,
            *self is Stable ==> r@ == "dev.editsync.Editsync"@,
    {
        match self {
            ReleaseChannel::Dev => "dev.editsync.Editsync-Dev",
            ReleaseChannel::Nightly => "dev.editsync.Editsync-Nightly",
            ReleaseChannel::Preview => "dev.editsync.Editsync-Preview",
            ReleaseChannel::Stable => "dev.editsync.Editsync",
        }
    }

    /// The query parameter that selects this channel, if it has one.
    pub fn release_query_param(&self) -> (r: Option<&'static str>)
        ensures
            (*self is Dev || *self is Stable) <==> r is None,
            *self is Nightly ==> (r matches Some(s) && s@ == "nightly=1"@),
            *self is Preview ==> (r matches Some(s) && s@ == "preview=1"@),
    {
        match self {
            ReleaseChannel::Dev => None,
            ReleaseChannel::Nightly => Some("nightly=1"),
            ReleaseChannel::Preview => Some("preview=1"),
            ReleaseChannel::Stable => None,
        }
    }

    /// Parses a channel from its programmatic name.
    pub fn from_str(channel: &str) -> (r: Result<ReleaseChannel, InvalidReleaseChannel>)
        ensures
            r matches Ok(c) ==> dev_name_of(c) == channel@,
            r is Err ==> forall|c: ReleaseChannel| dev_name_of(c) != channel@,
    {
        proof {
            reveal_strlit("dev");
            reveal_strlit("nightly");
            reveal_strlit("preview");
            reveal_strlit("stable");
        }
        if str_eq(channel, "dev") {
            Ok(ReleaseChannel::Dev)
        } else if str_eq(channel, "nightly") {
            Ok(ReleaseChannel::Nightly)
        } else if str_eq(channel, "preview") {
            Ok(ReleaseChannel::Preview)
        } else if str_eq(channel, "stable") {
            Ok(ReleaseChannel::Stable)
        } else {
            Err(InvalidReleaseChannel)
        }
    }
}

/// The name of the event that marks a running instance of the application on a channel,
/// so that a second instance on the same channel can find the first.
pub fn retrieve_app_instance_event_identifier(channel: ReleaseChannel) -> (r: &'static str)
    ensures
        channel is Dev ==> r@ == "Local\\Editsync-Editor-Dev-Instance-Event"@,
        channel is Nightly ==> r@ == "Local\\Editsync-Editor-Nightly-Instance-Event"@,
        channel is Preview ==> r@ == "Local\\Editsync-Editor-Preview-Instance-Event"@,
        channel is Stable ==> r@ == "Local\\Editsync-Editor-Stable-Instance-Event"@,
{
    match channel {
        ReleaseChannel::Dev => "Local\\Editsync-Editor-Dev-Instance-Event",
        ReleaseChannel::Nightly => "Local\\Editsync-Editor-Nightly-Instance-Event",
        ReleaseChannel::Preview => "Local\\Editsync-Editor-Preview-Instance-Event",
        ReleaseChannel::Stable => "Local\\Editsync-Editor-Stable-Instance-Event",
    }
}

/// Compares two strings character by character.
pub fn str_eq(a: &str, b: &str) -> (r: bool)
    ensures
        r == (a@ == b@),
{
    let n = a.unicode_len();
    if n != b.unicode_len() {
        return false;
    }
    let mut i: usize = 0;
    while i < n
        invariant
            n == a@.len(),
            n == b@.len(),
            i <= n,
            forall|j: int| 0 <= j < i ==> a@[j] == b@[j],
        decreases n - i,
    {
        if a.get_char(i) != b.get_char(i) {
            return false;
        }
        i += 1;
    }
    assert(a@ =~= b@);
    true
}

} // verus!
