//! The entries of a status snapshot and their classification.

use vstd::prelude::*;

verus! {

/// How a local file relates to the fingerprint that is expected of it.
#[derive(Clone, Copy, Debug, PartialEq, Eq, Structural)]
pub enum LocalStatusCode {
    /// The content matches the expected fingerprint.
    Current,
    /// The content no longer matches the expected fingerprint.
    Modified,
}

/// How the remote copy of a file relates to the local one.
#[derive(Clone, Copy, Debug, PartialEq, Eq, Structural)]
pub enum RemoteStatusCode {
    /// The remote copy matches.
    Current,
    /// The remote holds no copy.
    NotExists,
    /// The remote copy has another fingerprint.
    MD5Mismatch,
}

/// The outcome of classifying one entry. It drives the styling of the
/// entry's row; it is no error level.
#[derive(Clone, Copy, Debug, PartialEq, Eq, Structural)]
pub enum Severity {
    /// Under tracking and in sync, or in sync where tracking does not apply.
    InSync,
    /// Outside tracking, though the remote holds a matching copy.
    LocalOnly,
    /// Outside tracking and missing on the remote.
    RemoteOnly,
    /// The local content no longer matches its expected fingerprint.
    Drifted,
    /// Locally current, while the remote copy diverges or is missing.
    Caution,
    /// No rule applies to the combination.
    Ambiguous,
}

/// The colours in which rows are shown.
#[derive(Clone, Copy, Debug, PartialEq, Eq, Structural)]
pub enum Hue {
    Green,
    Cyan,
    Yellow,
    Red,
}

/// One row of a status snapshot.
#[derive(Clone, Debug, PartialEq, Eq)]
pub struct StatusEntry {
    /// `Some(true)` for a file under tracking, `Some(false)` for a known file
    /// outside it, `None` where tracking does not apply.
    pub is_tracked: Option<bool>,
    pub local_status: LocalStatusCode,
    /// `None` where no remote applies.
    pub remote_status: Option<RemoteStatusCode>,
    /// The display columns. The first one is the file's path. `None` for a
    /// row without displayable cells.
    pub cols: Option<Vec<String>>,
}

/// The decision table of the classifier. The rows are read from the top and
/// the first one that matches decides.
pub open spec fn severity_of(
    tracking: Option<bool>,
    local: LocalStatusCode,
    remote: Option<RemoteStatusCode>,
) -> Severity {
    match (tracking, local, remote) {
        (Some(true), LocalStatusCode::Current, Some(RemoteStatusCode::Current)) => Severity::InSync,
        (Some(true), LocalStatusCode::Current, None) => Severity::InSync,
        (Some(false), LocalStatusCode::Current, Some(RemoteStatusCode::Current)) => Severity::LocalOnly,
        (Some(false), LocalStatusCode::Current, None) => Severity::RemoteOnly,
        (Some(false), LocalStatusCode::Current, Some(RemoteStatusCode::NotExists)) => Severity::RemoteOnly,
        (Some(_), LocalStatusCode::Modified, _) => Severity::Drifted,
        (Some(true), LocalStatusCode::Current, Some(_)) => Severity::Caution,
        (Some(false), LocalStatusCode::Current, Some(_)) => Severity::Caution,
        (None, LocalStatusCode::Current, None) => Severity::InSync,
        _ => Severity::Ambiguous,
    }
}

/// The colour in which a row of the given severity is shown.
pub open spec fn hue_of(severity: Severity) -> Hue {
    match severity {
        Severity::InSync => Hue::Green,
        Severity::LocalOnly => Hue::Cyan,
        Severity::RemoteOnly => Hue::Yellow,
        Severity::Drifted => Hue::Red,
        Severity::Caution => Hue::Yellow,
        Severity::Ambiguous => Hue::Cyan,
    }
}

/// Classifies an entry by its tracking state, its local state and its remote
/// state. Every combination has a severity: what no rule names is
/// `Ambiguous`.
pub fn classify(
    tracking: Option<bool>,
    local: LocalStatusCode,
    remote: Option<RemoteStatusCode>,
) -> (severity: Severity)
    ensures
        severity == severity_of(tracking, local, remote),
{
    match local {
        LocalStatusCode::Modified => match tracking {
            Some(_) => Severity::Drifted,
            None => Severity::Ambiguous,
        },
        LocalStatusCode::Current => match tracking {
            Some(true) => match remote {
                None => Severity::InSync,
                Some(RemoteStatusCode::Current) => Severity::InSync,
                Some(_) => Severity::Caution,
            },
            Some(false) => match remote {
                Some(RemoteStatusCode::Current) => Severity::LocalOnly,
                None => Severity::RemoteOnly,
                Some(RemoteStatusCode::NotExists) => Severity::RemoteOnly,
                Some(RemoteStatusCode::MD5Mismatch) => Severity::Caution,
            },
            None => match remote {
                None => Severity::InSync,
                Some(_) => Severity::Ambiguous,
            },
        },
    }
}

/// The colour in which a row of the given severity is shown.
pub fn hue(severity: Severity) -> (h: Hue)
    ensures
        h == hue_of(severity),
{
    match severity {
        Severity::InSync => Hue::Green,
        Severity::LocalOnly => Hue::Cyan,
        Severity::RemoteOnly => Hue::Yellow,
        Severity::Drifted => Hue::Red,
        Severity::Caution => Hue::Yellow,
        Severity::Ambiguous => Hue::Cyan,
    }
}

impl StatusEntry {
    /// The severity of this entry.
    pub fn severity(&self) -> (severity: Severity)
        ensures
            severity == severity_of(self.is_tracked, self.local_status, self.remote_status),
    {
        classify(self.is_tracked, self.local_status, self.remote_status)
    }
}

/// The classifier is total, and each severity has exactly the combinations
/// that the decision table gives it: drift is decided by the local state of
/// an entry to which tracking applies, whatever the remote says, and only
/// combinations without a tracking state can be ambiguous.
pub proof fn classification_is_a_partition(
    tracking: Option<bool>,
    local: LocalStatusCode,
    remote: Option<RemoteStatusCode>,
)
    ensures
        severity_of(tracking, local, remote) == Severity::Drifted <==> tracking is Some
            && local == LocalStatusCode::Modified,
        severity_of(tracking, local, remote) == Severity::InSync <==> local == LocalStatusCode::Current
            && ((tracking == Some(true) && (remote is None || remote == Some(
            RemoteStatusCode::Current,
        ))) || (tracking is None && remote is None)),
        severity_of(tracking, local, remote) == Severity::LocalOnly <==> tracking == Some(false)
            && local == LocalStatusCode::Current && remote == Some(RemoteStatusCode::Current),
        severity_of(tracking, local, remote) == Severity::RemoteOnly <==> tracking == Some(false)
            && local == LocalStatusCode::Current && (remote is None || remote == Some(
            RemoteStatusCode::NotExists,
        )),
        severity_of(tracking, local, remote) == Severity::Caution <==> local
            == LocalStatusCode::Current && ((tracking == Some(true) && (remote == Some(
            RemoteStatusCode::NotExists,
        ) || remote == Some(RemoteStatusCode::MD5Mismatch))) || (tracking == Some(false) && remote
            == Some(RemoteStatusCode::MD5Mismatch))),
        severity_of(tracking, local, remote) == Severity::Ambiguous <==> tracking is None && !(local
            == LocalStatusCode::Current && remote is None),
{
}

} // verus!
