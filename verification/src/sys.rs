use vstd::prelude::*;

use std::time::{Duration, Instant};

verus! {

/// `std::time::Instant`, carried through opaquely.
#[verifier::external_type_specification]
#[verifier::external_body]
pub struct ExInstant(Instant);

/// `std::io::Error`, carried through opaquely.
#[verifier::external_type_specification]
#[verifier::external_body]
pub struct ExIoError(std::io::Error);

/// Calls `std::path::Path::exists`. The answer depends on the file system at
/// the moment of the call, so nothing is stated of it.
#[verifier::external_body]
pub(crate) fn path_exists(path: &str) -> bool {
    std::path::Path::new(path).exists()
}

/// Calls `std::path::Path::is_dir`. The answer depends on the file system at
/// the moment of the call, so nothing is stated of it.
#[verifier::external_body]
pub(crate) fn path_is_dir(path: &str) -> bool {
    std::path::Path::new(path).is_dir()
}

/// Calls `std::time::Instant::now`; the instant depends on the clock.
#[verifier::external_body]
pub(crate) fn instant_now() -> Instant {
    Instant::now()
}

/// Calls `std::time::Instant::elapsed` and hands back the time passed since
/// `since` in whole nanoseconds (`Duration::as_nanos`). It depends on the
/// clock, so nothing is stated of it.
#[verifier::external_body]
pub(crate) fn elapsed_nanos(since: &Instant) -> u128 {
    since.elapsed().as_nanos()
}

/// Calls `std::time::Duration::as_nanos`: the whole nanoseconds of `d`. The
/// duration is opaque here, so nothing is stated of the number.
#[verifier::external_body]
pub(crate) fn duration_nanos(d: &Duration) -> u128 {
    d.as_nanos()
}

/// Calls `time::OffsetDateTime::now_utc` and hands back the instant as
/// nanoseconds since the Unix epoch (`unix_timestamp_nanos`). It reads the
/// clock, so nothing is stated of it.
#[verifier::external_body]
pub(crate) fn utc_now_nanos() -> i128 {
    time::OffsetDateTime::now_utc().unix_timestamp_nanos()
}

/// Calls `std::time::Duration::from_secs`; the duration is carried opaquely.
#[verifier::external_body]
pub(crate) fn duration_from_secs(secs: u64) -> Duration {
    Duration::from_secs(secs)
}

/// Calls `std::string::String::push`: the string gains `c` at its end.
#[verifier::external_body]
pub(crate) fn push_char(s: &mut String, c: char)
    ensures
        final(s)@ == old(s)@.push(c),
{
    s.push(c)
}

/// Calls `dirs::config_dir` and hands back the directory as text (a directory
/// whose path is not valid UTF-8 is reported as absent). The answer depends on
/// the environment of the process, so nothing is stated of it.
#[verifier::external_body]
pub(crate) fn config_dir() -> Option<String> {
    dirs::config_dir().and_then(|p| p.to_str().map(|s| s.to_string()))
}

/// Calls `to_string` on a `std::io::Error` (its `Display` text). For an error
/// from the operating system the text comes from the platform, so nothing is
/// stated of it.
#[verifier::external_body]
pub(crate) fn io_error_text(e: &std::io::Error) -> String {
    e.to_string()
}

/// Calls `std::io::Error::other` with a message; the error is carried opaquely.
#[verifier::external_body]
pub(crate) fn io_error_other(message: &str) -> std::io::Error {
    std::io::Error::other(message.to_string())
}

// ---------------------------------------------------------------------------
// Replies of the outside world
// ---------------------------------------------------------------------------
//
// What the file system, the clock or the environment answers is not a
// function of the question, so it gets no name. These predicates say only
// that a value is a reply the call in question can give: the value came from
// asking that very question. A contract that ties a result to such a reply
// pins which question was asked and what was done with the answer.

/// `answer` is a reply to asking the file system whether `path` exists.
pub closed spec fn exists_reply(path: Seq<char>, answer: bool) -> bool {
    exists|p: &str| p@ == path && #[trigger] call_ensures(path_exists, (p,), answer)
}

/// `answer` is a reply to asking the file system whether `path` is a directory.
pub closed spec fn dir_reply(path: Seq<char>, answer: bool) -> bool {
    exists|p: &str| p@ == path && #[trigger] call_ensures(path_is_dir, (p,), answer)
}

/// `nanos` is a reply to asking the clock how many nanoseconds have passed
/// since `since`.
pub closed spec fn elapsed_reply(since: &Instant, nanos: u128) -> bool {
    call_ensures(elapsed_nanos, (since,), nanos)
}

/// `nanos` is what converting the duration `d` to whole nanoseconds gave.
pub closed spec fn nanos_reply(d: &Duration, nanos: u128) -> bool {
    call_ensures(duration_nanos, (d,), nanos)
}

/// `dir` is a reply (as text) to asking the environment for the
/// configuration directory.
pub closed spec fn config_reply(dir: Option<Seq<char>>) -> bool {
    exists|o: Option<String>|
        #[trigger] call_ensures(config_dir, (), o) && dir == match o {
            Some(s) => Some(s@),
            None => None::<Seq<char>>,
        }
}

/// `d` is what `Duration::from_secs(secs)` gave.
pub closed spec fn duration_of_secs(d: Duration, secs: u64) -> bool {
    call_ensures(duration_from_secs, (secs,), d)
}

pub(crate) proof fn lemma_duration_of_secs(secs: u64, d: Duration)
    requires
        call_ensures(duration_from_secs, (secs,), d),
    ensures
        duration_of_secs(d, secs),
{
}

pub(crate) proof fn lemma_exists_reply(p: &str, answer: bool)
    requires
        call_ensures(path_exists, (p,), answer),
    ensures
        exists_reply(p@, answer),
{
}

pub(crate) proof fn lemma_dir_reply(p: &str, answer: bool)
    requires
        call_ensures(path_is_dir, (p,), answer),
    ensures
        dir_reply(p@, answer),
{
}

pub(crate) proof fn lemma_elapsed_reply(since: &Instant, nanos: u128)
    requires
        call_ensures(elapsed_nanos, (since,), nanos),
    ensures
        elapsed_reply(since, nanos),
{
}

pub(crate) proof fn lemma_nanos_reply(d: &Duration, nanos: u128)
    requires
        call_ensures(duration_nanos, (d,), nanos),
    ensures
        nanos_reply(d, nanos),
{
}

pub(crate) proof fn lemma_config_reply(o: Option<String>)
    requires
        call_ensures(config_dir, (), o),
    ensures
        config_reply(
            match o {
                Some(s) => Some(s@),
                None => None::<Seq<char>>,
            },
        ),
{
}
} // verus!
