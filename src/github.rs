use vstd::prelude::*;
use vstd::string::*;
use crate::error::{DriftersError, Result};
use crate::paths::{trim_end, trimmed_len};
use crate::text::{chars_of, matches_at};
use crate::updates::{index_from, pieces, pieces_from};

verus! {

/// The part of a GitHub repository URL after the host, for `https` and `http` URLs.
pub open spec fn github_path(url: Seq<char>) -> Option<Seq<char>> {
    if "https://github.com/"@.is_prefix_of(url) {
        Some(url.skip("https://github.com/"@.len() as int))
    } else if "http://github.com/"@.is_prefix_of(url) {
        Some(url.skip("http://github.com/"@.len() as int))
    } else {
        None
    }
}

/// The owner and the repository that a GitHub URL names, if it names them.
pub open spec fn github_owner_repo(url: Seq<char>) -> Option<(Seq<char>, Seq<char>)> {
    match github_path(url) {
        Some(p) => {
            let parts = pieces(trim_end(p, '/'), '/');
            if parts.len() >= 2 {
                Some((parts[0], parts[1]))
            } else {
                None
            }
        },
        None => None,
    }
}

proof fn lemma_index_from_bounds(s: Seq<char>, k: int, sep: char)
    requires
        0 <= k <= s.len(),
    ensures
        k <= index_from(s, k, sep) <= s.len(),
        index_from(s, k, sep) < s.len() ==> s[index_from(s, k, sep)] == sep,
        forall|j: int| k <= j < index_from(s, k, sep) ==> s[j] != sep,
    decreases s.len() - k,
{
    if k < s.len() && s[k] != sep {
        lemma_index_from_bounds(s, k + 1, sep);
    }
}

/// The first `sep` in `s` at or after `k`, or the length of `s`.
fn find_from(s: &Vec<char>, k: usize, sep: char) -> (r: usize)
    requires
        k <= s@.len(),
    ensures
        r == index_from(s@, k as int, sep),
{
    proof {
        lemma_index_from_bounds(s@, k as int, sep);
    }
    let mut i = k;
    while i < s.len() && s[i] != sep
        invariant
            k <= i <= s@.len(),
            index_from(s@, k as int, sep) == index_from(s@, i as int, sep),
        decreases s@.len() - i,
    {
        i = i + 1;
    }
    i
}

fn not_github(url: &str) -> (e: DriftersError)
    ensures
        e matches DriftersError::Config(_),
{
    DriftersError::Config(String::from_str("Repository URL is not a GitHub URL: ").concat(url))
}

/// The owner and the repository named by a GitHub URL such as
/// `https://github.com/owner/repo`; an error for any other URL.
pub fn parse_github_repo(url: &str) -> (r: Result<(String, String)>)
    ensures
        match r {
            Ok((owner, repo)) => github_owner_repo(url@) == Some((owner@, repo@)),
            Err(e) => github_owner_repo(url@) is None && e matches DriftersError::Config(_),
        },
{
    let u = chars_of(url);
    let https = chars_of("https://github.com/");
    let http = chars_of("http://github.com/");
    let skip: usize = if matches_at(&u, 0, &https) {
        assert(u@.subrange(0, https@.len() as int) =~= https@);
        https.len()
    } else if matches_at(&u, 0, &http) {
        assert(u@.subrange(0, http@.len() as int) =~= http@);
        http.len()
    } else {
        proof {
            if "https://github.com/"@.is_prefix_of(url@) {
                assert(u@.subrange(0, https@.len() as int) =~= https@);
            }
            if "http://github.com/"@.is_prefix_of(url@) {
                assert(u@.subrange(0, http@.len() as int) =~= http@);
            }
        }
        return Err(not_github(url));
    };
    let ghost p = u@.skip(skip as int);
    assert(github_path(url@) == Some(p));
    let path = crate::paths::sub_vec(&u, skip, u.len());
    assert(path@ =~= p);
    let m = trimmed_len(&path, path.len(), '/');
    assert(path@.subrange(0, path@.len() as int) =~= path@);
    let ghost t = trim_end(p, '/');
    let t_vec = crate::paths::sub_vec(&path, 0, m);
    assert(t_vec@ == t);
    let e0 = find_from(&t_vec, 0, '/');
    proof {
        lemma_index_from_bounds(t, 0, '/');
    }
    if e0 == m {
        proof {
            assert(pieces(t, '/') == seq![t.subrange(0, m as int)]);
        }
        return Err(DriftersError::Config(String::from_str("Invalid GitHub repository URL: ").concat(url)));
    }
    let e1 = find_from(&t_vec, e0 + 1, '/');
    proof {
        lemma_index_from_bounds(t, e0 + 1, '/');
        assert(pieces_from(t, 0, '/') == seq![t.subrange(0, e0 as int)] + pieces_from(t, e0 + 1, '/'));
        let rest = pieces_from(t, e0 + 1, '/');
        if e1 < m {
            assert(rest == seq![t.subrange(e0 + 1, e1 as int)] + pieces_from(t, e1 + 1, '/'));
        } else {
            assert(rest == seq![t.subrange(e0 + 1, m as int)]);
        }
        assert(rest[0] == t.subrange(e0 + 1, e1 as int));
    }
    let owner = String::from_str(url.substring_char(skip, skip + e0));
    let repo = String::from_str(url.substring_char(skip + e0 + 1, skip + e1));
    proof {
        assert(owner@ =~= t.subrange(0, e0 as int));
        assert(repo@ =~= t.subrange(e0 + 1, e1 as int));
    }
    Ok((owner, repo))
}

} // verus!
