use vstd::prelude::*;
use crate::lines::{lines_from, lines_of, newline_from, strip_cr};
use crate::text::contains_seq;
use crate::sections::{
    emit, extract_scan, is_tag, merge_scan, merge_step, nl, sections_scan, start_tag, stop_tag,
};

verus! {

/// The lines `ls`, each followed by a line feed.
pub open spec fn join_lines(ls: Seq<Seq<char>>) -> Seq<char>
    decreases ls.len(),
{
    if ls.len() == 0 {
        Seq::empty()
    } else {
        join_lines(ls.drop_last()) + emit(ls.last())
    }
}

/// Text that `str::lines` splits and the codec writes back unchanged: empty or ending
/// in a line feed, with no carriage return before a line feed.
pub open spec fn normalized(s: Seq<char>) -> bool {
    &&& (s.len() == 0 || s.last() == '\n')
    &&& forall|i: int| 0 < i < s.len() && #[trigger] s[i] == '\n' ==> s[i - 1] != '\r'
}

/// A line as the codec can write it and read it back.
pub open spec fn plain_line(l: Seq<char>) -> bool {
    &&& forall|i: int| 0 <= i < l.len() ==> #[trigger] l[i] != '\n'
    &&& (l.len() == 0 || l.last() != '\r')
}

pub proof fn lemma_join_front(a: Seq<char>, rest: Seq<Seq<char>>)
    ensures
        join_lines(seq![a] + rest) == emit(a) + join_lines(rest),
    decreases rest.len(),
{
    if rest.len() == 0 {
        assert(seq![a] + rest =~= seq![a]);
        assert(seq![a].drop_last() =~= Seq::<Seq<char>>::empty());
        assert(seq![a].last() == a);
        assert(join_lines(Seq::<Seq<char>>::empty()) == Seq::<char>::empty());
        assert(emit(a) + join_lines(rest) =~= emit(a));
        assert(join_lines(seq![a]) == join_lines(seq![a].drop_last()) + emit(a));
        assert(join_lines(seq![a]) =~= emit(a));
    } else {
        lemma_join_front(a, rest.drop_last());
        assert((seq![a] + rest).drop_last() =~= seq![a] + rest.drop_last());
        assert((seq![a] + rest).last() == rest.last());
        assert(emit(a) + join_lines(rest) =~= emit(a) + join_lines(rest.drop_last()) + emit(rest.last()));
    }
}

pub proof fn lemma_join_push(ls: Seq<Seq<char>>, x: Seq<char>)
    ensures
        join_lines(ls.push(x)) == join_lines(ls) + emit(x),
{
    assert(ls.push(x).drop_last() =~= ls);
}

proof fn lemma_lines_from_rejoin(s: Seq<char>, k: int)
    requires
        normalized(s),
        0 <= k <= s.len(),
    ensures
        join_lines(lines_from(s, k)) == s.skip(k),
    decreases s.len() - k,
{
    if k == s.len() {
        assert(s.skip(k) =~= Seq::<char>::empty());
    } else {
        crate::lines::lemma_newline_from_bounds(s, k);
        let e = newline_from(s, k);
        assert(e < s.len()) by {
            if e == s.len() {
                assert(s[s.len() - 1] != '\n');
            }
        }
        let line = s.subrange(k, e);
        assert(strip_cr(line) == line) by {
            if line.len() > 0 {
                assert(line.last() == s[e - 1]);
            }
        }
        lemma_lines_from_rejoin(s, e + 1);
        lemma_join_front(line, lines_from(s, e + 1));
        assert(s[e] == '\n');
        assert(emit(line) + s.skip(e + 1) =~= s.skip(k));
    }
}

/// Writing the lines of normalized text back, each with its line feed, gives the text.
pub proof fn lemma_rejoin(s: Seq<char>)
    requires
        normalized(s),
    ensures
        join_lines(lines_of(s)) == s,
{
    lemma_lines_from_rejoin(s, 0);
    assert(s.skip(0) =~= s);
}

proof fn lemma_newline_shift(p: Seq<char>, q: Seq<char>, k: int)
    requires
        0 <= k <= q.len(),
    ensures
        newline_from(p + q, p.len() + k) == p.len() + newline_from(q, k),
    decreases q.len() - k,
{
    if k < q.len() {
        assert((p + q)[p.len() + k] == q[k]);
        if q[k] != '\n' {
            lemma_newline_shift(p, q, k + 1);
        }
    }
}

proof fn lemma_lines_shift(p: Seq<char>, q: Seq<char>, k: int)
    requires
        0 <= k <= q.len(),
    ensures
        lines_from(p + q, p.len() + k) == lines_from(q, k),
    decreases q.len() - k,
{
    if k < q.len() {
        lemma_newline_shift(p, q, k);
        crate::lines::lemma_newline_from_bounds(q, k);
        let e = newline_from(q, k);
        if e < q.len() {
            lemma_lines_shift(p, q, e + 1);
            assert((p + q).subrange(p.len() + k, p.len() + e) =~= q.subrange(k, e));
        } else {
            assert((p + q).subrange(p.len() + k, (p + q).len() as int) =~= q.subrange(k, q.len() as int));
        }
    }
}

/// Lines written with their line feeds split back into the same lines.
pub proof fn lemma_split_join(ls: Seq<Seq<char>>)
    requires
        forall|i: int| 0 <= i < ls.len() ==> plain_line(#[trigger] ls[i]),
    ensures
        lines_of(join_lines(ls)) == ls,
    decreases ls.len(),
{
    if ls.len() == 0 {
        assert(lines_of(join_lines(ls)) =~= ls);
    } else {
        let a = ls[0];
        let rest = ls.drop_first();
        assert(ls =~= seq![a] + rest);
        assert forall|i: int| 0 <= i < rest.len() implies plain_line(#[trigger] rest[i]) by {
            assert(rest[i] == ls[i + 1]);
        }
        lemma_split_join(rest);
        lemma_join_front(a, rest);
        assert(plain_line(ls[0]));
        let j = join_lines(ls);
        let r = join_lines(rest);
        assert(j =~= a + (nl() + r));
        crate::lines::lemma_newline_from_at(j, 0, a.len() as int);
        assert(j.subrange(0, a.len() as int) =~= a);
        assert(strip_cr(a) == a);
        lemma_lines_shift(a + nl(), r, 0);
        assert(a + nl() + r =~= j);
        assert(lines_from(j, a.len() + 1int) == lines_from(r, 0));
        assert(lines_of(j) =~= seq![a] + rest);
    }
}

proof fn lemma_lines_from_plain(s: Seq<char>, k: int)
    requires
        normalized(s),
        0 <= k <= s.len(),
    ensures
        forall|i: int| 0 <= i < lines_from(s, k).len() ==> plain_line(#[trigger] lines_from(s, k)[i]),
    decreases s.len() - k,
{
    if k < s.len() {
        crate::lines::lemma_newline_from_bounds(s, k);
        let e = newline_from(s, k);
        assert(e < s.len()) by {
            if e == s.len() {
                assert(s[s.len() - 1] != '\n');
            }
        }
        let line = s.subrange(k, e);
        assert(strip_cr(line) == line) by {
            if line.len() > 0 {
                assert(line.last() == s[e - 1]);
            }
        }
        assert(plain_line(line)) by {
            assert forall|i: int| 0 <= i < line.len() implies #[trigger] line[i] != '\n' by {
                assert(line[i] == s[k + i]);
            }
            if line.len() > 0 {
                assert(line.last() == s[e - 1]);
                assert(s[e] == '\n');
            }
        }
        lemma_lines_from_plain(s, e + 1);
        let rest = lines_from(s, e + 1);
        assert(lines_from(s, k) == seq![line] + rest);
        assert forall|i: int| 0 <= i < lines_from(s, k).len() implies plain_line(#[trigger] lines_from(s, k)[i]) by {
            if i > 0 {
                assert(lines_from(s, k)[i] == rest[i - 1]);
            }
        }
    }
}

/// The lines of normalized text hold no line feed and end in no carriage return.
pub proof fn lemma_lines_plain(s: Seq<char>)
    requires
        normalized(s),
    ensures
        forall|i: int| 0 <= i < lines_of(s).len() ==> plain_line(#[trigger] lines_of(s)[i]),
{
    lemma_lines_from_plain(s, 0);
}

/// The lines that the syncable-content scan keeps: tag lines and lines outside sections.
pub open spec fn kept_lines(ls: Seq<Seq<char>>, start: Seq<char>, stop: Seq<char>) -> Seq<Seq<char>>
    decreases ls.len(),
{
    if ls.len() == 0 {
        Seq::empty()
    } else {
        let p = ls.drop_last();
        let x = ls.last();
        if is_tag(x, start) || is_tag(x, stop) || !extract_scan(p, start, stop).1 {
            kept_lines(p, start, stop).push(x)
        } else {
            kept_lines(p, start, stop)
        }
    }
}

/// The tag lines of `ls` open and close sections in turn, and the last section is closed.
pub open spec fn well_tagged(ls: Seq<Seq<char>>, start: Seq<char>, stop: Seq<char>) -> bool {
    &&& forall|n: int|
        0 <= n < ls.len() ==> {
            let inside = #[trigger] extract_scan(ls.take(n), start, stop).1;
            &&& (is_tag(ls[n], start) ==> !inside)
            &&& (!is_tag(ls[n], start) && is_tag(ls[n], stop) ==> inside)
        }
    &&& !extract_scan(ls, start, stop).1
}

proof fn lemma_take_last(ls: Seq<Seq<char>>, n: int)
    requires
        0 <= n < ls.len(),
    ensures
        ls.take(n + 1).drop_last() == ls.take(n),
        ls.take(n + 1).last() == ls[n],
{
    assert(ls.take(n + 1).drop_last() =~= ls.take(n));
}

/// The kept text is the kept lines written back, and both scans agree on being inside
/// a section.
pub proof fn lemma_kept(ls: Seq<Seq<char>>, start: Seq<char>, stop: Seq<char>)
    ensures
        extract_scan(ls, start, stop).0 == join_lines(kept_lines(ls, start, stop)),
        sections_scan(ls, start, stop).2 == extract_scan(ls, start, stop).1,
        forall|i: int| 0 <= i < kept_lines(ls, start, stop).len() ==> exists|j: int|
            0 <= j < ls.len() && #[trigger] kept_lines(ls, start, stop)[i] == ls[j],
    decreases ls.len(),
{
    if ls.len() > 0 {
        let p = ls.drop_last();
        let x = ls.last();
        lemma_kept(p, start, stop);
        lemma_join_push(kept_lines(p, start, stop), x);
        let k = kept_lines(ls, start, stop);
        let kp = kept_lines(p, start, stop);
        assert forall|i: int| 0 <= i < k.len() implies exists|j: int|
            0 <= j < ls.len() && #[trigger] k[i] == ls[j] by {
            if i < kp.len() {
                assert(k[i] == kp[i]);
                let j = choose|j: int| 0 <= j < p.len() && kp[i] == p[j];
                assert(p[j] == ls[j]);
            } else {
                assert(k[i] == ls[ls.len() - 1]);
            }
        }
    }
}

/// Sections found in a prefix stay found; a section open after `n` lines and closed
/// after `m` lines was added in between.
proof fn lemma_sections_grow(ls: Seq<Seq<char>>, start: Seq<char>, stop: Seq<char>, n: int, m: int)
    requires
        0 <= n <= m <= ls.len(),
    ensures
        ({
            let a = sections_scan(ls.take(n), start, stop).0;
            let b = sections_scan(ls.take(m), start, stop).0;
            &&& a.len() <= b.len()
            &&& b.take(a.len() as int) == a
            &&& (extract_scan(ls.take(n), start, stop).1 && !extract_scan(ls.take(m), start, stop).1
                ==> a.len() < b.len())
        }),
    decreases m - n,
{
    let a = sections_scan(ls.take(n), start, stop).0;
    if n == m {
        assert(a.take(a.len() as int) =~= a);
    } else {
        lemma_sections_grow(ls, start, stop, n, m - 1);
        lemma_take_last(ls, m - 1);
        lemma_kept(ls.take(m - 1), start, stop);
        lemma_kept(ls.take(m), start, stop);
        let b0 = sections_scan(ls.take(m - 1), start, stop).0;
        let b = sections_scan(ls.take(m), start, stop).0;
        if b != b0 {
            assert(b.take(a.len() as int) =~= b0.take(a.len() as int));
        }
    }
}

/// The merge state after the first `n` kept lines of well-tagged text, against the
/// sections of the whole text.
proof fn lemma_merge_prefix(ls: Seq<Seq<char>>, start: Seq<char>, stop: Seq<char>, n: int)
    requires
        well_tagged(ls, start, stop),
        0 <= n <= ls.len(),
    ensures
        ({
            let p = ls.take(n);
            let inside = extract_scan(p, start, stop).1;
            let ss = sections_scan(p, start, stop);
            let all = sections_scan(ls, start, stop).0;
            let m = merge_scan(kept_lines(p, start, stop), start, stop, all);
            &&& m.1 == inside
            &&& m.3 == inside
            &&& m.2 == ss.0.len() + (if inside { 1int } else { 0int })
            &&& (!inside ==> m.0 == join_lines(p))
            &&& (inside ==> ss.0.len() < all.len() && exists|pre: Seq<char>|
                m.0 == pre + all[ss.0.len() as int] && join_lines(p) == pre + ss.1)
        }),
    decreases n,
{
    let all = sections_scan(ls, start, stop).0;
    assert(ls.take(ls.len() as int) =~= ls);
    if n == 0 {
        assert(ls.take(0) =~= Seq::<Seq<char>>::empty());
        assert(kept_lines(ls.take(0), start, stop) =~= Seq::<Seq<char>>::empty());
    } else {
        lemma_merge_prefix(ls, start, stop, n - 1);
        lemma_take_last(ls, n - 1);
        let q = ls.take(n - 1);
        let p = ls.take(n);
        let x = ls[n - 1];
        lemma_kept(q, start, stop);
        lemma_kept(p, start, stop);
        lemma_join_push(q, x);
        let inq = extract_scan(q, start, stop).1;
        let inp = extract_scan(p, start, stop).1;
        let ssq = sections_scan(q, start, stop);
        let ssp = sections_scan(p, start, stop);
        let kq = kept_lines(q, start, stop);
        let kp = kept_lines(p, start, stop);
        let mq = merge_scan(kq, start, stop, all);
        let mp = merge_scan(kp, start, stop, all);
        assert(inq == extract_scan(ls.take(n - 1), start, stop).1);
        lemma_sections_grow(ls, start, stop, n, ls.len() as int);
        if is_tag(x, start) {
            assert(!inq);
            assert(kp == kq.push(x));
            assert(kp.drop_last() =~= kq);
            assert(inp);
            assert(ssp.0 == ssq.0);
            assert(mp == merge_step(mq, x, start, stop, all));
            assert(join_lines(p) == join_lines(q) + ssp.1);
        } else if is_tag(x, stop) {
            assert(inq);
            assert(kp.drop_last() =~= kq);
            let pre = choose|pre: Seq<char>| mq.0 == pre + all[ssq.0.len() as int] && join_lines(q) == pre + ssq.1;
            assert(ssp.0 == ssq.0.push(ssq.1 + emit(x)));
            assert(all.take(ssp.0.len() as int)[ssq.0.len() as int] == all[ssq.0.len() as int]);
            assert(all[ssq.0.len() as int] == ssq.1 + emit(x));
            assert(mp.0 == mq.0);
            assert(mp.0 =~= join_lines(p));
        } else if !inq {
            assert(kp.drop_last() =~= kq);
            assert(mp.0 =~= join_lines(p));
        } else {
            assert(kp == kq);
            let pre = choose|pre: Seq<char>| mq.0 == pre + all[ssq.0.len() as int] && join_lines(q) == pre + ssq.1;
            assert(join_lines(p) =~= pre + ssp.1);
        }
    }
}

/// Writing back the syncable content of a local file over that same file gives the
/// file back, when its sections open and close in turn and its text is normalized.
pub proof fn lemma_round_trip(local: Seq<char>, comment_syntax: Seq<char>)
    requires
        normalized(local),
        well_tagged(lines_of(local), start_tag(comment_syntax), stop_tag(comment_syntax)),
    ensures
        ({
            let start = start_tag(comment_syntax);
            let stop = stop_tag(comment_syntax);
            let ex = extract_scan(lines_of(local), start, stop);
            let ss = sections_scan(lines_of(local), start, stop);
            &&& !ex.1
            &&& !ss.2
            &&& !merge_scan(lines_of(ex.0), start, stop, ss.0).1
            &&& merge_scan(lines_of(ex.0), start, stop, ss.0).0 == local
        }),
{
    let start = start_tag(comment_syntax);
    let stop = stop_tag(comment_syntax);
    let ls = lines_of(local);
    lemma_kept(ls, start, stop);
    lemma_lines_plain(local);
    let k = kept_lines(ls, start, stop);
    assert forall|i: int| 0 <= i < k.len() implies plain_line(#[trigger] k[i]) by {
        let j = choose|j: int| 0 <= j < ls.len() && k[i] == ls[j];
    }
    lemma_split_join(k);
    lemma_merge_prefix(ls, start, stop, ls.len() as int);
    assert(ls.take(ls.len() as int) =~= ls);
    lemma_rejoin(local);
}

/// Text in which no line is a start tag replicates as it is: the scan never enters a
/// section and finds no start tag, so the syncable content is `None`.
pub proof fn lemma_untagged_content(ls: Seq<Seq<char>>, start: Seq<char>, stop: Seq<char>)
    requires
        forall|i: int| 0 <= i < ls.len() ==> !is_tag(#[trigger] ls[i], start),
    ensures
        !extract_scan(ls, start, stop).1,
        !extract_scan(ls, start, stop).2,
    decreases ls.len(),
{
    if ls.len() > 0 {
        let p = ls.drop_last();
        assert forall|i: int| 0 <= i < p.len() implies !is_tag(#[trigger] p[i], start) by {
            assert(p[i] == ls[i]);
        }
        lemma_untagged_content(p, start, stop);
        assert(!is_tag(ls[ls.len() - 1], start));
    }
}

/// How many lines of `ls` are start tags.
pub open spec fn count_tags(ls: Seq<Seq<char>>, tag: Seq<char>) -> int
    decreases ls.len(),
{
    if ls.len() == 0 {
        0
    } else {
        count_tags(ls.drop_last(), tag) + if is_tag(ls.last(), tag) { 1int } else { 0int }
    }
}

proof fn lemma_contains_extend(a: Seq<char>, b: Seq<char>, x: Seq<char>)
    requires
        contains_seq(a, x),
    ensures
        contains_seq(a + b, x),
{
    let i = choose|i: int| 0 <= i <= a.len() - x.len() && #[trigger] a.subrange(i, i + x.len()) == x;
    assert((a + b).subrange(i, i + x.len()) =~= a.subrange(i, i + x.len()));
}

proof fn lemma_contains_end(a: Seq<char>, x: Seq<char>)
    ensures
        contains_seq(a + x, x),
{
    assert((a + x).subrange(a.len() as int, (a.len() + x.len()) as int) =~= x);
}

/// While merging, the first local sections are written as they are, one for each start
/// tag of the incoming text so far.
pub proof fn lemma_sections_written(ls: Seq<Seq<char>>, start: Seq<char>, stop: Seq<char>, secs: Seq<Seq<char>>)
    ensures
        ({
            let m = merge_scan(ls, start, stop, secs);
            let n = count_tags(ls, start);
            &&& n >= 0
            &&& m.2 == if n < secs.len() { n } else { secs.len() as int }
            &&& forall|k: int| 0 <= k < m.2 ==> contains_seq(m.0, #[trigger] secs[k])
        }),
    decreases ls.len(),
{
    if ls.len() > 0 {
        let p = ls.drop_last();
        let x = ls.last();
        lemma_sections_written(p, start, stop, secs);
        let mp = merge_scan(p, start, stop, secs);
        let m = merge_scan(ls, start, stop, secs);
        let extra: Seq<char> = if is_tag(x, start) {
            if 0 <= mp.2 < secs.len() {
                secs[mp.2]
            } else {
                emit(x)
            }
        } else if is_tag(x, stop) {
            if mp.3 {
                Seq::empty()
            } else {
                emit(x)
            }
        } else if !mp.1 {
            emit(x)
        } else {
            Seq::empty()
        };
        assert(m.0 =~= mp.0 + extra);
        assert forall|k: int| 0 <= k < m.2 implies contains_seq(m.0, #[trigger] secs[k]) by {
            if k < mp.2 {
                lemma_contains_extend(mp.0, extra, secs[k]);
            } else {
                lemma_contains_end(mp.0, secs[k]);
            }
        }
    }
}

/// Every local section is kept through a merge: when the incoming text has at least
/// `k + 1` start tags, the `k`-th section of the local file, tag lines and body, stands
/// in the result as it is.
pub proof fn lemma_exclude_preserved(local: Seq<char>, incoming: Seq<char>, comment_syntax: Seq<char>, k: int)
    requires
        ({
            let ss = sections_scan(lines_of(local), start_tag(comment_syntax), stop_tag(comment_syntax));
            0 <= k < ss.0.len() && k < count_tags(lines_of(incoming), start_tag(comment_syntax))
        }),
    ensures
        ({
            let start = start_tag(comment_syntax);
            let stop = stop_tag(comment_syntax);
            let ss = sections_scan(lines_of(local), start, stop);
            contains_seq(merge_scan(lines_of(incoming), start, stop, ss.0).0, ss.0[k])
        }),
{
    let start = start_tag(comment_syntax);
    let stop = stop_tag(comment_syntax);
    let ss = sections_scan(lines_of(local), start, stop);
    lemma_sections_written(lines_of(incoming), start, stop, ss.0);
}

proof fn lemma_open_after(ls: Seq<Seq<char>>, start: Seq<char>, stop: Seq<char>, i: int, n: int)
    requires
        0 <= i < n <= ls.len(),
        is_tag(ls[i], start),
        forall|j: int| i < j < ls.len() ==> !is_tag(#[trigger] ls[j], stop) || is_tag(ls[j], start),
    ensures
        extract_scan(ls.take(n), start, stop).1,
    decreases n,
{
    lemma_take_last(ls, n - 1);
    if n - 1 > i {
        lemma_open_after(ls, start, stop, i, n - 1);
    }
}

/// The merge scan is inside a section exactly when the syncable-content scan is.
pub proof fn lemma_merge_flag(ls: Seq<Seq<char>>, start: Seq<char>, stop: Seq<char>, secs: Seq<Seq<char>>)
    ensures
        merge_scan(ls, start, stop, secs).1 == extract_scan(ls, start, stop).1,
    decreases ls.len(),
{
    if ls.len() > 0 {
        lemma_merge_flag(ls.drop_last(), start, stop, secs);
    }
}

/// A start tag that no stop tag follows leaves the text inside a section at its end:
/// the syncable-content scan, the section scan and the merge scan (whatever the local
/// sections) all end in an error.
pub proof fn lemma_unclosed_start(ls: Seq<Seq<char>>, start: Seq<char>, stop: Seq<char>, i: int, secs: Seq<Seq<char>>)
    requires
        0 <= i < ls.len(),
        is_tag(ls[i], start),
        forall|j: int| i < j < ls.len() ==> !is_tag(#[trigger] ls[j], stop) || is_tag(ls[j], start),
    ensures
        extract_scan(ls, start, stop).1,
        sections_scan(ls, start, stop).2,
        merge_scan(ls, start, stop, secs).1,
{
    lemma_merge_flag(ls, start, stop, secs);
    lemma_open_after(ls, start, stop, i, ls.len() as int);
    assert(ls.take(ls.len() as int) =~= ls);
    lemma_kept(ls, start, stop);
}

} // verus!
