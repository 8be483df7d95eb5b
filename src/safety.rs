use vstd::prelude::*;

verus! {

/// Below this many bytes a file counts as empty.
pub const EMPTY_FILE_THRESHOLD: u64 = 10;

/// A local file this many times smaller than the stored copy is suspect.
pub const SIZE_RATIO_WARNING: u64 = 10;

/// Whether pushing a local file of `local_size` bytes over a stored copy of `repo_size`
/// bytes (where there is one) is safe: not when a nearly empty file would replace a real
/// one, nor when the local file is more than ten times smaller than the stored copy.
pub open spec fn push_is_safe(local_size: u64, repo_size: Option<u64>) -> bool {
    match repo_size {
        Some(rs) => !(local_size < EMPTY_FILE_THRESHOLD && rs > EMPTY_FILE_THRESHOLD) && !(rs > 0
            && local_size > 0 && rs > SIZE_RATIO_WARNING * local_size),
        None => true,
    }
}

/// Whether it is safe to push a local file of `local_size` bytes over a stored copy of
/// `repo_size` bytes, if the store has one.
pub fn check_push_sizes(local_size: u64, repo_size: Option<u64>) -> (r: bool)
    ensures
        r == push_is_safe(local_size, repo_size),
{
    match repo_size {
        Some(rs) => {
            if local_size < EMPTY_FILE_THRESHOLD && rs > EMPTY_FILE_THRESHOLD {
                return false;
            }
            if rs > 0 && local_size > 0 && (rs as u128) > (SIZE_RATIO_WARNING as u128) * (
            local_size as u128) {
                return false;
            }
            true
        },
        None => true,
    }
}

} // verus!
