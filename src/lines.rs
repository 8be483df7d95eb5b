use vstd::prelude::*;

verus! {

/// The index of the first line feed at or after `k`, or the length of `s` if none.
pub open spec fn newline_from(s: Seq<char>, k: int) -> int
    decreases s.len() - k,
{
    if k >= s.len() {
        s.len() as int
    } else if s[k] == '\n' {
        k
    } else {
        newline_from(s, k + 1)
    }
}

/// A line as `str::lines` hands it out: one carriage return before the line feed is dropped.
pub open spec fn strip_cr(l: Seq<char>) -> Seq<char> {
    if l.len() > 0 && l.last() == '\r' {
        l.drop_last()
    } else {
        l
    }
}

/// The lines of `s` from position `k` on, in the sense of `str::lines`: split at each
/// line feed, a final line feed ends the last line rather than starting an empty one,
/// and a carriage return right before a line feed is not part of the line.
pub open spec fn lines_from(s: Seq<char>, k: int) -> Seq<Seq<char>>
    decreases s.len() - k,
{
    if k < 0 || k >= s.len() {
        Seq::empty()
    } else {
        let e = newline_from(s, k);
        if e < s.len() && k < e + 1 {
            seq![strip_cr(s.subrange(k, e))] + lines_from(s, e + 1)
        } else {
            seq![s.subrange(k, s.len() as int)]
        }
    }
}

/// The lines of `s`.
pub open spec fn lines_of(s: Seq<char>) -> Seq<Seq<char>> {
    lines_from(s, 0)
}

pub proof fn lemma_newline_from_bounds(s: Seq<char>, k: int)
    requires
        0 <= k,
    ensures
        k <= newline_from(s, k) || k > s.len(),
        newline_from(s, k) <= s.len(),
        newline_from(s, k) < s.len() ==> s[newline_from(s, k)] == '\n',
        forall|j: int| k <= j < newline_from(s, k) ==> s[j] != '\n',
    decreases s.len() - k,
{
    if k < s.len() && s[k] != '\n' {
        lemma_newline_from_bounds(s, k + 1);
    }
}

pub proof fn lemma_newline_from_at(s: Seq<char>, k: int, e: int)
    requires
        0 <= k <= e <= s.len(),
        forall|j: int| k <= j < e ==> s[j] != '\n',
        e == s.len() || s[e] == '\n',
    ensures
        newline_from(s, k) == e,
    decreases e - k,
{
    if k < e {
        lemma_newline_from_at(s, k + 1, e);
    }
}

/// The text of each line span of `s`.
pub open spec fn span_texts(s: Seq<char>, spans: Seq<(usize, usize)>) -> Seq<Seq<char>> {
    spans.map_values(|p: (usize, usize)| s.subrange(p.0 as int, p.1 as int))
}

pub open spec fn spans_in(s: Seq<char>, spans: Seq<(usize, usize)>) -> bool {
    forall|i: int| 0 <= i < spans.len() ==> #[trigger] spans[i].0 <= spans[i].1 <= s.len()
}

/// Where each line of `s` begins and ends.
pub fn line_spans(s: &Vec<char>) -> (r: Vec<(usize, usize)>)
    ensures
        spans_in(s@, r@),
        span_texts(s@, r@) == lines_of(s@),
{
    let n = s.len();
    let mut r: Vec<(usize, usize)> = Vec::new();
    let mut start: usize = 0;
    let mut i: usize = 0;
    while i < n
        invariant
            n == s@.len(),
            start <= i <= n,
            forall|j: int| start <= j < i ==> s@[j] != '\n',
            spans_in(s@, r@),
            lines_of(s@) == span_texts(s@, r@) + lines_from(s@, start as int),
        decreases n - i,
    {
        if s[i] == '\n' {
            let end: usize = if i > start && s[i - 1] == '\r' {
                i - 1
            } else {
                i
            };
            proof {
                lemma_newline_from_at(s@, start as int, i as int);
                let line = s@.subrange(start as int, i as int);
                assert(strip_cr(line) =~= s@.subrange(start as int, end as int));
                assert(lines_from(s@, start as int) == seq![
                    s@.subrange(start as int, end as int),
                ] + lines_from(s@, i + 1));
            }
            let ghost old_r = r@;
            r.push((start, end));
            proof {
                assert(span_texts(s@, r@) =~= span_texts(s@, old_r) + seq![
                    s@.subrange(start as int, end as int),
                ]);
                assert(lines_of(s@) =~= span_texts(s@, r@) + lines_from(s@, i + 1));
            }
            start = i + 1;
        }
        i = i + 1;
    }
    if start < n {
        proof {
            lemma_newline_from_at(s@, start as int, n as int);
        }
        let ghost old_r = r@;
        r.push((start, n));
        proof {
            assert(span_texts(s@, r@) =~= span_texts(s@, old_r) + seq![
                s@.subrange(start as int, n as int),
            ]);
        }
    }
    assert(lines_of(s@) =~= span_texts(s@, r@));
    r
}

} // verus!
