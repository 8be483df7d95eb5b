use vstd::prelude::*;
use vstd::string::*;

verus! {

/// The index of the last `c` in `s`, or -1 when there is none.
pub open spec fn last_index(s: Seq<char>, c: char) -> int
    decreases s.len(),
{
    if s.len() == 0 {
        -1
    } else if s.last() == c {
        s.len() - 1
    } else {
        last_index(s.drop_last(), c)
    }
}

pub proof fn lemma_last_index(s: Seq<char>, c: char)
    ensures
        -1 <= last_index(s, c) < s.len(),
        last_index(s, c) >= 0 ==> s[last_index(s, c)] == c,
        forall|j: int| last_index(s, c) < j < s.len() ==> s[j] != c,
    decreases s.len(),
{
    if s.len() > 0 && s.last() != c {
        let t = s.drop_last();
        lemma_last_index(t, c);
        assert forall|j: int| last_index(s, c) < j < s.len() implies s[j] != c by {
            if j < s.len() - 1 {
                assert(t[j] == s[j]);
            }
        }
    }
}

pub proof fn lemma_last_index_at(s: Seq<char>, c: char, k: int)
    requires
        -1 <= k < s.len(),
        k >= 0 ==> s[k] == c,
        forall|j: int| k < j < s.len() ==> s[j] != c,
    ensures
        last_index(s, c) == k,
    decreases s.len(),
{
    if s.len() > 0 && s.last() != c {
        lemma_last_index_at(s.drop_last(), c, k);
    }
}

/// The last component of a path: what follows its last `/`.
pub open spec fn file_name(p: Seq<char>) -> Seq<char> {
    p.skip(last_index(p, '/') + 1)
}

/// The extension of a path that does not end in `/`: what follows the last `.` of its
/// last component, where that
/// dot is not the component's first character (`.bashrc` has none).
pub open spec fn name_extension(p: Seq<char>) -> Option<Seq<char>> {
    let f = file_name(p);
    let d = last_index(f, '.');
    if d > 0 {
        Some(f.skip(d + 1))
    } else {
        None
    }
}

/// Index of the last `c` in `s`, if any.
pub fn find_last(s: &Vec<char>, c: char) -> (r: Option<usize>)
    ensures
        match r {
            Some(i) => last_index(s@, c) == i as int,
            None => last_index(s@, c) == -1,
        },
{
    let mut i: usize = s.len();
    while i > 0
        invariant
            i <= s@.len(),
            forall|j: int| i <= j < s@.len() ==> s@[j] != c,
        decreases i,
    {
        if s[i - 1] == c {
            proof {
                lemma_last_index_at(s@, c, i - 1);
            }
            return Some(i - 1);
        }
        i = i - 1;
    }
    proof {
        lemma_last_index_at(s@, c, -1);
    }
    None
}

/// The characters `s[a..b]`.
pub fn sub_vec(s: &Vec<char>, a: usize, b: usize) -> (r: Vec<char>)
    requires
        a <= b <= s@.len(),
    ensures
        r@ == s@.subrange(a as int, b as int),
{
    let mut r: Vec<char> = Vec::new();
    let mut i: usize = a;
    while i < b
        invariant
            a <= i <= b <= s@.len(),
            r@ == s@.subrange(a as int, i as int),
        decreases b - i,
    {
        r.push(s[i]);
        i = i + 1;
        proof {
            assert(r@ =~= s@.subrange(a as int, i as int));
        }
    }
    r
}

/// Where the extension of the path `s` begins, if it has one.
pub fn extension_start(s: &Vec<char>) -> (r: Option<usize>)
    ensures
        match r {
            Some(i) => 1 <= i <= s@.len() && name_extension(s@) == Some(s@.skip(i as int)),
            None => name_extension(s@) is None,
        },
{
    proof {
        lemma_last_index(s@, '/');
    }
    let n = s.len();
    let base: usize = match find_last(s, '/') {
        Some(i) => {
            assert(i < n);
            i + 1
        },
        None => 0,
    };
    let ghost f = file_name(s@);
    let name = sub_vec(s, base, s.len());
    assert(name@ =~= f);
    match find_last(&name, '.') {
        Some(d) => {
            if d > 0 {
                proof {
                    lemma_last_index(f, '.');
                    assert(f.skip(d + 1) =~= s@.skip(base + d + 1));
                }
                Some(base + d + 1)
            } else {
                None
            }
        },
        None => None,
    }
}

/// `s` without the characters `c` at its end.
pub open spec fn trim_end(s: Seq<char>, c: char) -> Seq<char>
    decreases s.len(),
{
    if s.len() > 0 && s.last() == c {
        trim_end(s.drop_last(), c)
    } else {
        s
    }
}

/// How long `s[..n]` is without the characters `c` at its end.
pub fn trimmed_len(s: &Vec<char>, n: usize, c: char) -> (r: usize)
    requires
        n <= s@.len(),
    ensures
        r <= n,
        s@.subrange(0, r as int) == trim_end(s@.subrange(0, n as int), c),
{
    let mut m = n;
    while m > 0 && s[m - 1] == c
        invariant
            m <= n <= s@.len(),
            trim_end(s@.subrange(0, n as int), c) == trim_end(s@.subrange(0, m as int), c),
        decreases m,
    {
        assert(s@.subrange(0, m as int).drop_last() =~= s@.subrange(0, m - 1));
        m = m - 1;
    }
    if m > 0 {
        assert(s@.subrange(0, m as int).last() == s@[m - 1]);
    }
    m
}

/// The extension of a path, as `Path::extension` gives it: that of its last component,
/// trailing separators set aside (`a.lua/` has the extension `lua`).
pub open spec fn extension(p: Seq<char>) -> Option<Seq<char>> {
    name_extension(trim_end(p, '/'))
}

/// The extension of the path `s`.
pub fn extension_of(s: &Vec<char>) -> (r: Option<Vec<char>>)
    ensures
        match r {
            Some(e) => extension(s@) == Some(e@),
            None => extension(s@) is None,
        },
{
    let m = trimmed_len(s, s.len(), '/');
    assert(s@.subrange(0, s@.len() as int) =~= s@);
    let t = sub_vec(s, 0, m);
    match extension_start(&t) {
        Some(i) => {
            let e = sub_vec(&t, i, t.len());
            assert(e@ =~= t@.skip(i as int));
            Some(e)
        },
        None => None,
    }
}

/// `p` with its extension set to `ext`, as `PathBuf::with_extension` does it: any
/// extension is replaced, and a path without a last component is left as it is.
pub open spec fn with_extension(p: Seq<char>, ext: Seq<char>) -> Seq<char> {
    if file_name(p).len() == 0 {
        p
    } else {
        let stem = match name_extension(p) {
            Some(x) => p.take(p.len() - x.len() - 1),
            None => p,
        };
        stem + seq!['.'] + ext
    }
}

/// The path `path` with the extension `ext`.
pub fn with_extension_exec(path: &str, ext: &str) -> (r: String)
    ensures
        r@ == with_extension(path@, ext@),
{
    let p = crate::text::chars_of(path);
    let n = p.len();
    proof {
        lemma_last_index(p@, '/');
    }
    let base: usize = match find_last(&p, '/') {
        Some(i) => {
            assert(i < n);
            i + 1
        },
        None => 0,
    };
    if base == n {
        assert(file_name(p@) =~= Seq::<char>::empty());
        return String::from_str(path);
    }
    let end: usize = match extension_start(&p) {
        Some(i) => {
            assert(i >= 1);
            i - 1
        },
        None => n,
    };
    let r = String::from_str(path.substring_char(0, end)).concat(".").concat(ext);
    proof {
        reveal_strlit(".");
        assert(r@ =~= with_extension(path@, ext@));
    }
    r
}

} // verus!
