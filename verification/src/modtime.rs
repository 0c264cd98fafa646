//! The time of a file's last change, as the text of a report.

use vstd::prelude::*;

verus! {

/// How long ago something happened, in English words, for a time that lies
/// the given number of seconds back: "now", "5 minutes ago", "1 day ago".
pub uninterp spec fn elapsed_text(seconds: u64) -> Seq<char>;

/// `timeago::Formatter::convert` of the default formatter, for a duration of
/// whole seconds: the words depend on the duration alone.
#[verifier::external_body]
fn elapsed(seconds: u64) -> (text: String)
    ensures
        text@ == elapsed_text(seconds),
{
    timeago::Formatter::new().convert(std::time::Duration::new(seconds, 0))
}

/// A count of seconds as an unsigned number: a negative count, of a time
/// that lies ahead, wraps round to a very large one.
pub open spec fn wrapped_seconds(seconds: i64) -> u64 {
    if seconds >= 0 {
        seconds as u64
    } else {
        (seconds + 0x1_0000_0000_0000_0000) as u64
    }
}

/// The text for a time of change: the time itself, then in brackets how long
/// ago it was.
pub open spec fn mod_time_text(timestamp: Seq<char>, ago: Seq<char>) -> Seq<char> {
    timestamp + " ("@ + ago + ")"@
}

/// Puts the time of a change and the words for its age together.
pub fn join_mod_time(timestamp: &str, ago: &str) -> (text: String)
    ensures
        text@ == mod_time_text(timestamp@, ago@),
{
    let mut text = String::from_str(timestamp);
    text.append(" (");
    text.append(ago);
    text.append(")");
    text
}

/// The text for a time of change, from the time as it is written out and
/// the number of seconds that have passed since.
pub fn format_mod_time(timestamp: &str, seconds_since: i64) -> (text: String)
    ensures
        text@ == mod_time_text(timestamp@, elapsed_text(wrapped_seconds(seconds_since))),
{
    let seconds: u64 = if seconds_since >= 0 {
        seconds_since as u64
    } else {
        let back: u64 = (-(seconds_since + 1)) as u64;
        u64::MAX - back
    };
    let ago = elapsed(seconds);
    join_mod_time(timestamp, ago.as_str())
}

} // verus!
