use vstd::prelude::*;
use vstd::string::*;
use crate::text::{chars_eq_str, chars_of};

verus! {

/// The index of the first `sep` at or after `k`, or the length of `s` if none.
pub open spec fn index_from(s: Seq<char>, k: int, sep: char) -> int
    decreases s.len() - k,
{
    if k >= s.len() {
        s.len() as int
    } else if s[k] == sep {
        k
    } else {
        index_from(s, k + 1, sep)
    }
}

/// The pieces of `s[k..]` between the separators `sep`, as `str::split` gives them: one
/// more piece than there are separators, empty pieces included.
pub open spec fn pieces_from(s: Seq<char>, k: int, sep: char) -> Seq<Seq<char>>
    decreases s.len() - k,
{
    let e = index_from(s, k, sep);
    if 0 <= k && k <= e && e < s.len() {
        seq![s.subrange(k, e)] + pieces_from(s, e + 1, sep)
    } else if 0 <= k <= s.len() {
        seq![s.subrange(k, s.len() as int)]
    } else {
        Seq::empty()
    }
}

/// The pieces of `s` between the separators `sep`.
pub open spec fn pieces(s: Seq<char>, sep: char) -> Seq<Seq<char>> {
    pieces_from(s, 0, sep)
}

pub proof fn lemma_index_from_at(s: Seq<char>, k: int, e: int, sep: char)
    requires
        0 <= k <= e <= s.len(),
        forall|j: int| k <= j < e ==> s[j] != sep,
        e == s.len() || s[e] == sep,
    ensures
        index_from(s, k, sep) == e,
    decreases e - k,
{
    if k < e {
        lemma_index_from_at(s, k + 1, e, sep);
    }
}

/// The value of the decimal digits `d`.
pub open spec fn digits_value(d: Seq<char>) -> int
    decreases d.len(),
{
    if d.len() == 0 {
        0
    } else {
        digits_value(d.drop_last()) * 10 + (d.last() as int - '0' as int)
    }
}

pub open spec fn all_digits(d: Seq<char>) -> bool {
    forall|i: int| 0 <= i < d.len() ==> '0' <= #[trigger] d[i] <= '9'
}

/// What `str::parse::<u32>` accepts: an optional `+`, then one or more decimal digits
/// whose value fits in 32 bits.
pub open spec fn u32_digits(s: Seq<char>) -> Seq<char> {
    if s.len() > 0 && s[0] == '+' {
        s.drop_first()
    } else {
        s
    }
}

pub open spec fn parses_as_u32(s: Seq<char>) -> bool {
    let d = u32_digits(s);
    d.len() > 0 && all_digits(d) && digits_value(d) <= u32::MAX
}

/// A version segment's number: the parsed value, or 0 where it does not parse.
pub open spec fn segment_value(s: Seq<char>) -> int {
    if parses_as_u32(s) {
        digits_value(u32_digits(s))
    } else {
        0
    }
}

/// The numbers of the dot-separated segments of a version.
pub open spec fn version_parts(v: Seq<char>) -> Seq<int> {
    pieces(v, '.').map_values(|p: Seq<char>| segment_value(p))
}

/// The part of a version at `i`, with missing parts counting as 0.
pub open spec fn part_at(p: Seq<int>, i: int) -> int {
    if 0 <= i < p.len() {
        p[i]
    } else {
        0
    }
}

/// -1, 0 or 1 as `a` is below, equal to or above `b`, part by part from `i` on.
pub open spec fn compare_parts_from(a: Seq<int>, b: Seq<int>, i: int) -> int
    decreases a.len() + b.len() - i,
{
    if i >= a.len() && i >= b.len() {
        0
    } else if part_at(a, i) < part_at(b, i) {
        -1
    } else if part_at(a, i) > part_at(b, i) {
        1
    } else {
        compare_parts_from(a, b, i + 1)
    }
}

proof fn lemma_digits_grow(d: Seq<char>, k: int)
    requires
        0 <= k <= d.len(),
        all_digits(d),
    ensures
        digits_value(d) >= digits_value(d.take(k)),
        digits_value(d.take(k)) >= 0,
    decreases d.len() - k,
{
    if k < d.len() {
        lemma_digits_grow(d, k + 1);
        assert(d.take(k + 1).drop_last() =~= d.take(k));
        assert('0' <= d[k] <= '9');
        lemma_digits_nonneg(d.take(k));
    } else {
        assert(d.take(k) =~= d);
        lemma_digits_nonneg(d);
    }
}

proof fn lemma_digits_nonneg(d: Seq<char>)
    requires
        all_digits(d),
    ensures
        digits_value(d) >= 0,
    decreases d.len(),
{
    if d.len() > 0 {
        assert(all_digits(d.drop_last())) by {
            assert forall|i: int| 0 <= i < d.len() - 1 implies '0' <= #[trigger] d.drop_last()[i] <= '9' by {
                assert(d.drop_last()[i] == d[i]);
            }
        }
        lemma_digits_nonneg(d.drop_last());
        assert('0' <= d[d.len() - 1] <= '9');
    }
}

/// The number of the version segment `s[a..b]`, 0 where it does not parse.
fn segment_number(s: &Vec<char>, a: usize, b: usize) -> (r: u32)
    requires
        a <= b <= s@.len(),
    ensures
        r as int == segment_value(s@.subrange(a as int, b as int)),
{
    let ghost seg = s@.subrange(a as int, b as int);
    let mut i: usize = a;
    if i < b && s[i] == '+' {
        i = i + 1;
    }
    let ghost d = u32_digits(seg);
    assert(d =~= s@.subrange(i as int, b as int));
    if i == b {
        return 0;
    }
    let start = i;
    let mut acc: u64 = 0;
    while i < b
        invariant
            a <= start <= i <= b <= s@.len(),
            seg == s@.subrange(a as int, b as int),
            d == u32_digits(seg),
            d == s@.subrange(start as int, b as int),
            acc as int == digits_value(d.take(i - start)),
            acc <= u32::MAX,
            all_digits(d.take(i - start)),
        decreases b - i,
    {
        let c = s[i];
        assert(d[i - start] == c);
        if c < '0' || c > '9' {
            assert(!all_digits(d));
            return 0;
        }
        let digit = (c as u32 - '0' as u32) as u64;
        proof {
            assert(d.take(i - start + 1).drop_last() =~= d.take(i - start));
            assert(d.take(i - start + 1).last() == c);
        }
        acc = acc * 10 + digit;
        assert(all_digits(d.take(i - start + 1))) by {
            assert forall|j: int| 0 <= j < i - start + 1 implies '0' <= #[trigger] d.take(i - start + 1)[j] <= '9' by {
                if j < i - start {
                    assert(d.take(i - start + 1)[j] == d.take(i - start)[j]);
                }
            }
        }
        if acc > 0xFFFF_FFFF {
            proof {
                if all_digits(d) {
                    lemma_digits_grow(d, i - start + 1);
                }
                assert(!parses_as_u32(seg));
            }
            return 0;
        }
        i = i + 1;
    }
    assert(d.take(d.len() as int) =~= d);
    assert(parses_as_u32(seg));
    acc as u32
}

/// The numbers of the dot-separated segments of the version `v`.
pub fn version_numbers(v: &str) -> (r: Vec<u32>)
    ensures
        r@.len() == version_parts(v@).len(),
        forall|i: int| 0 <= i < r@.len() ==> r@[i] as int == #[trigger] version_parts(v@)[i],
{
    let s = chars_of(v);
    let n = s.len();
    let mut r: Vec<u32> = Vec::new();
    let ghost mut ps: Seq<Seq<char>> = Seq::empty();
    let mut start: usize = 0;
    let mut i: usize = 0;
    while i < n
        invariant
            n == s@.len(),
            s@ == v@,
            start <= i <= n,
            forall|j: int| start <= j < i ==> s@[j] != '.',
            pieces(v@, '.') == ps + pieces_from(v@, start as int, '.'),
            r@.len() == ps.len(),
            forall|j: int| 0 <= j < r@.len() ==> r@[j] as int == segment_value(#[trigger] ps[j]),
        decreases n - i,
    {
        if s[i] == '.' {
            proof {
                lemma_index_from_at(s@, start as int, i as int, '.');
                assert(pieces_from(v@, start as int, '.') == seq![s@.subrange(start as int, i as int)]
                    + pieces_from(v@, i + 1, '.'));
            }
            let x = segment_number(&s, start, i);
            r.push(x);
            proof {
                let p = s@.subrange(start as int, i as int);
                assert(pieces(v@, '.') =~= ps.push(p) + pieces_from(v@, i + 1, '.'));
                ps = ps.push(p);
            }
            start = i + 1;
        }
        i = i + 1;
    }
    proof {
        lemma_index_from_at(s@, start as int, n as int, '.');
        assert(pieces_from(v@, start as int, '.') == seq![s@.subrange(start as int, n as int)]);
    }
    let x = segment_number(&s, start, n);
    r.push(x);
    proof {
        ps = ps.push(s@.subrange(start as int, n as int));
        assert(pieces(v@, '.') =~= ps);
    }
    r
}

/// Compares two dotted versions part by part, missing parts and parts that are not
/// numbers counting as 0: -1 when `v1` is older, 1 when newer, 0 when they are equal.
pub fn compare_versions(v1: &str, v2: &str) -> (r: i32)
    ensures
        r as int == compare_parts_from(version_parts(v1@), version_parts(v2@), 0),
{
    let a = version_numbers(v1);
    let b = version_numbers(v2);
    let ghost pa = version_parts(v1@);
    let ghost pb = version_parts(v2@);
    let max_len = if a.len() > b.len() {
        a.len()
    } else {
        b.len()
    };
    let mut i: usize = 0;
    while i < max_len
        invariant
            pa == version_parts(v1@),
            pb == version_parts(v2@),
            a@.len() == pa.len(),
            b@.len() == pb.len(),
            forall|j: int| 0 <= j < a@.len() ==> a@[j] as int == #[trigger] pa[j],
            forall|j: int| 0 <= j < b@.len() ==> b@[j] as int == #[trigger] pb[j],
            max_len == if a@.len() > b@.len() { a@.len() } else { b@.len() },
            i <= max_len,
            compare_parts_from(pa, pb, 0) == compare_parts_from(pa, pb, i as int),
        decreases max_len - i,
    {
        let x: u32 = if i < a.len() {
            a[i]
        } else {
            0
        };
        let y: u32 = if i < b.len() {
            b[i]
        } else {
            0
        };
        assert(x as int == part_at(pa, i as int));
        assert(y as int == part_at(pb, i as int));
        if x < y {
            return -1;
        }
        if x > y {
            return 1;
        }
        i = i + 1;
    }
    0
}

/// Whether a run should look for a newer release: never under `never`; under `daily`
/// only once a day has passed since the last look (or if there was none); else always.
pub fn should_check_for_updates(frequency: &str, last_check: Option<u64>, now: u64) -> (r: bool)
    ensures
        r == if frequency@ == "never"@ {
            false
        } else if frequency@ == "daily"@ && last_check is Some {
            (if now >= last_check->0 { now - last_check->0 } else { 0 }) >= 86400
        } else {
            true
        },
{
    let f = chars_of(frequency);
    if chars_eq_str(&f, "never") {
        return false;
    }
    if chars_eq_str(&f, "daily") {
        match last_check {
            Some(last) => {
                let age: u64 = if now >= last {
                    now - last
                } else {
                    0
                };
                return age >= 86400;
            },
            None => {},
        }
    }
    true
}

} // verus!
