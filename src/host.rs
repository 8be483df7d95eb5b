use vstd::prelude::*;

verus! {

/// Relies on dirs::home_dir: the user's home directory as the environment tells it, if
/// any. Nothing is promised of its value.
#[verifier::external_body]
pub(crate) fn home_dir() -> (r: Option<String>) {
    match dirs::home_dir() {
        Some(h) => Some(h.to_string_lossy().into_owned()),
        None => None,
    }
}

/// Relies on hostname::get: the machine's host name, where it can be read and is valid
/// Unicode. Nothing is promised of its value.
#[verifier::external_body]
pub(crate) fn host_name() -> (r: Option<String>) {
    match hostname::get() {
        Ok(h) => h.into_string().ok(),
        Err(_) => None,
    }
}

/// Relies on chrono's `From<SystemTime> for DateTime<Utc>` and `DateTime::timestamp`,
/// which handle a clock before the Unix epoch: the current time, in seconds since the
/// epoch. Nothing is promised of its value.
#[verifier::external_body]
pub(crate) fn now_unix() -> (r: i64) {
    chrono::DateTime::<chrono::Utc>::from(std::time::SystemTime::now()).timestamp()
}

} // verus!
