use vstd::prelude::*;
use crate::config::AppConfig;
use crate::error::{DriftersError, Result};
use crate::lex::{
    chars_lex_le, lemma_lex_antisymmetric, lemma_lex_reflexive, lemma_lex_total,
    lemma_lex_transitive, lex_le,
};
use crate::strmap::StrMap;
use crate::text::chars_of;
use vstd::string::*;

verus! {

/// One machine's copy of a file, with the time of the commit that last pushed it
/// (`None` where the history has no such commit).
#[derive(Debug, Clone)]
pub struct MachineVersion {
    pub content: String,
    pub committed_at: Option<u64>,
}

/// Every machine's copy of one file, by machine id.
pub type VersionMap = StrMap<MachineVersion>;

/// The timestamp that a copy counts with: a missing one counts as the oldest possible.
pub open spec fn effective_ts(v: MachineVersion) -> int {
    match v.committed_at {
        Some(t) => t as int,
        None => 0,
    }
}

/// `t` is the greatest effective timestamp in `m`.
pub open spec fn is_latest_ts(m: Map<Seq<char>, MachineVersion>, t: int) -> bool {
    &&& exists|k: Seq<char>| #[trigger] m.contains_key(k) && effective_ts(m[k]) == t
    &&& forall|k: Seq<char>| #[trigger] m.contains_key(k) ==> effective_ts(m[k]) <= t
}

/// The greatest effective timestamp in `m`.
pub open spec fn latest_ts(m: Map<Seq<char>, MachineVersion>) -> int {
    choose|t: int| is_latest_ts(m, t)
}

/// The machine `k` holds a copy with the greatest effective timestamp.
pub open spec fn is_winner(m: Map<Seq<char>, MachineVersion>, k: Seq<char>) -> bool {
    m.contains_key(k) && effective_ts(m[k]) == latest_ts(m)
}

/// `c` is the least content, in the order of `String`, among the winners.
pub open spec fn is_least_winner_content(m: Map<Seq<char>, MachineVersion>, c: Seq<char>) -> bool {
    &&& exists|k: Seq<char>| #[trigger] is_winner(m, k) && m[k].content@ == c
    &&& forall|k: Seq<char>| #[trigger] is_winner(m, k) ==> lex_le(c, m[k].content@)
}

/// The content that a merge of `m` on the machine `current` applies: the copy with the
/// latest timestamp; on a tie, the current machine's own copy when it is among the latest,
/// else the least content among them.
pub open spec fn merge_result(m: Map<Seq<char>, MachineVersion>, current: Seq<char>) -> Seq<char> {
    if is_winner(m, current) {
        m[current].content@
    } else {
        choose|c: Seq<char>| is_least_winner_content(m, c)
    }
}

pub proof fn lemma_latest_ts(m: Map<Seq<char>, MachineVersion>, t: int)
    requires
        is_latest_ts(m, t),
    ensures
        latest_ts(m) == t,
{
    let u = latest_ts(m);
    assert(is_latest_ts(m, u));
    let k1 = choose|k: Seq<char>| #[trigger] m.contains_key(k) && effective_ts(m[k]) == t;
    let k2 = choose|k: Seq<char>| #[trigger] m.contains_key(k) && effective_ts(m[k]) == u;
    assert(effective_ts(m[k1]) <= u);
    assert(effective_ts(m[k2]) <= t);
}

/// When every winner holds the content `c`, the merge gives `c`.
pub proof fn lemma_merge_uniform_winners(
    m: Map<Seq<char>, MachineVersion>,
    current: Seq<char>,
    c: Seq<char>,
    w: Seq<char>,
)
    requires
        is_winner(m, w),
        forall|k: Seq<char>| #[trigger] is_winner(m, k) ==> m[k].content@ == c,
    ensures
        merge_result(m, current) == c,
{
    if !is_winner(m, current) {
        lemma_lex_reflexive(c);
        assert(is_least_winner_content(m, c));
        let d = choose|d: Seq<char>| is_least_winner_content(m, d);
        let k = choose|k: Seq<char>| #[trigger] is_winner(m, k) && m[k].content@ == d;
    }
}

/// The least content among the winners is one content.
pub proof fn lemma_least_winner_content_unique(
    m: Map<Seq<char>, MachineVersion>,
    c: Seq<char>,
    d: Seq<char>,
)
    requires
        is_least_winner_content(m, c),
        is_least_winner_content(m, d),
    ensures
        c == d,
{
    let kc = choose|k: Seq<char>| #[trigger] is_winner(m, k) && m[k].content@ == c;
    let kd = choose|k: Seq<char>| #[trigger] is_winner(m, k) && m[k].content@ == d;
    assert(lex_le(c, m[kd].content@));
    assert(lex_le(d, m[kc].content@));
    lemma_lex_antisymmetric(c, d);
}

/// Picks the content to apply for a file from every machine's copy of it: with one copy,
/// or copies that all agree, that content; else the copy with the latest commit time;
/// on a tie, this machine's own copy if it is among the latest, else the least content
/// among them. Fails only when there is no copy at all.
pub fn intelligent_merge(
    all_versions: &VersionMap,
    current_machine_id: &str,
    _filename: &str,
    _app_config: &AppConfig,
) -> (r: Result<String>)
    requires
        all_versions.wf(),
    ensures
        match r {
            Ok(s) => all_versions@.len() > 0 && s@ == merge_result(
                all_versions@,
                current_machine_id@,
            ),
            Err(e) => all_versions@.len() == 0 && e matches DriftersError::Config(_),
        },
{
    let ghost m = all_versions@;
    let ghost s = all_versions.items();
    proof {
        all_versions.lemma_view();
    }
    let n = all_versions.len();
    if n == 0 {
        return Err(DriftersError::config("No versions available to merge"));
    }
    // The greatest effective timestamp.

    let mut max_ts: u64 = ts_of(all_versions.value_at(0));
    let mut i: usize = 1;
    while i < n
        invariant
            n == s.len(),
            s == all_versions.items(),
            1 <= i <= n,
            exists|j: int| 0 <= j < i && effective_ts(#[trigger] s[j].1) == max_ts,
            forall|j: int| 0 <= j < i ==> effective_ts(#[trigger] s[j].1) <= max_ts,
        decreases n - i,
    {
        let t = ts_of(all_versions.value_at(i));
        if t > max_ts {
            max_ts = t;
        }
        i = i + 1;
    }
    proof {
        let j = choose|j: int| 0 <= j < n && effective_ts(#[trigger] s[j].1) == max_ts;
        assert(m.contains_key(s[j].0));
        assert forall|k: Seq<char>| #[trigger] m.contains_key(k) implies effective_ts(m[k])
            <= max_ts by {
            let q = choose|q: int| 0 <= q < s.len() && s[q].0 == k;
            assert(effective_ts(s[q].1) <= max_ts);
        }
        assert(is_latest_ts(m, max_ts as int));
        lemma_latest_ts(m, max_ts as int);
        assert(is_winner(m, s[j].0));
    }
    // A single copy, or copies that all agree.

    let first = &all_versions.value_at(0).content;
    let mut same = true;
    let mut i: usize = 1;
    while i < n
        invariant
            n == s.len(),
            s == all_versions.items(),
            first@ == s[0].1.content@,
            1 <= i <= n,
            same ==> forall|j: int| 0 <= j < i ==> (#[trigger] s[j].1).content@ == first@,
        decreases n - i,
    {
        if all_versions.value_at(i).content != *first {
            same = false;
        }
        i = i + 1;
    }
    if same {
        proof {
            assert forall|k: Seq<char>| #[trigger] is_winner(m, k) implies m[k].content@
                == first@ by {
                let q = choose|q: int| 0 <= q < s.len() && s[q].0 == k;
                assert(s[q].1.content@ == first@);
            }
            let j = choose|j: int| 0 <= j < n && effective_ts(#[trigger] s[j].1) == max_ts;
            lemma_merge_uniform_winners(m, current_machine_id@, first@, s[j].0);
        }
        return Ok(first.clone());
    }
    // This machine's own copy, when it is among the latest.

    match all_versions.position(current_machine_id) {
        Some(c) => {
            if ts_of(all_versions.value_at(c)) == max_ts {
                proof {
                    assert(m.contains_key(s[c as int].0));
                    assert(is_winner(m, current_machine_id@));
                }
                return Ok(all_versions.value_at(c).content.clone());
            }
            proof {
                assert(m.contains_key(s[c as int].0));
            }
        },
        None => {
            proof {
                if m.contains_key(current_machine_id@) {
                    let q = choose|q: int| 0 <= q < s.len() && s[q].0 == current_machine_id@;
                }
            }
        },
    }
    assert(!is_winner(m, current_machine_id@));
    // The least content among the latest copies.

    let mut best: usize = n;
    let mut best_chars: Vec<char> = Vec::new();
    let mut i: usize = 0;
    while i < n
        invariant
            n == s.len(),
            s == all_versions.items(),
            i <= n,
            best <= n,
            exists|j: int| 0 <= j < n && effective_ts(#[trigger] s[j].1) == max_ts,
            best < n ==> best < i,
            best < n ==> effective_ts(s[best as int].1) == max_ts,
            best < n ==> best_chars@ == s[best as int].1.content@,
            forall|j: int|
                0 <= j < i && effective_ts(#[trigger] s[j].1) == max_ts ==> best < n && lex_le(
                    best_chars@,
                    s[j].1.content@,
                ),
        decreases n - i,
    {
        let v = all_versions.value_at(i);
        if ts_of(v) == max_ts {
            let cs = chars_of(v.content.as_str());
            if best == n || !chars_lex_le(&best_chars, &cs) {
                proof {
                    if best < n {
                        lemma_lex_total(best_chars@, cs@);
                        assert forall|j: int|
                            0 <= j < i && effective_ts(#[trigger] s[j].1) == max_ts implies lex_le(
                            cs@,
                            s[j].1.content@,
                        ) by {
                            lemma_lex_transitive(cs@, best_chars@, s[j].1.content@);
                        }
                    }
                    lemma_lex_reflexive(cs@);
                }
                best = i;
                best_chars = cs;
            }
        }
        i = i + 1;
    }
    proof {
        let j = choose|j: int| 0 <= j < n && effective_ts(#[trigger] s[j].1) == max_ts;
        assert(best < n);
        let b = best as int;
        assert(m.contains_key(s[b].0));
        assert(is_winner(m, s[b].0));
        assert forall|k: Seq<char>| #[trigger] is_winner(m, k) implies lex_le(
            best_chars@,
            m[k].content@,
        ) by {
            let q = choose|q: int| 0 <= q < s.len() && s[q].0 == k;
            assert(effective_ts(s[q].1) == max_ts);
        }
        assert(is_least_winner_content(m, best_chars@));
        let d = choose|d: Seq<char>| is_least_winner_content(m, d);
        lemma_least_winner_content_unique(m, best_chars@, d);
    }
    Ok(all_versions.value_at(best).content.clone())
}

/// The effective timestamp of a copy.
fn ts_of(v: &MachineVersion) -> (r: u64)
    ensures
        r as int == effective_ts(*v),
{
    match v.committed_at {
        Some(t) => t,
        None => 0,
    }
}

/// The greatest effective timestamp among the entries `s` (0 for none).
pub open spec fn seq_latest_ts(s: Seq<(Seq<char>, MachineVersion)>) -> int
    decreases s.len(),
{
    if s.len() == 0 {
        0
    } else {
        let t = seq_latest_ts(s.drop_last());
        let u = effective_ts(s.last().1);
        if u > t {
            u
        } else {
            t
        }
    }
}

proof fn lemma_seq_latest_ts(s: Seq<(Seq<char>, MachineVersion)>)
    requires
        s.len() > 0,
    ensures
        exists|j: int| 0 <= j < s.len() && effective_ts(#[trigger] s[j].1) == seq_latest_ts(s),
        forall|j: int| 0 <= j < s.len() ==> effective_ts(#[trigger] s[j].1) <= seq_latest_ts(s),
    decreases s.len(),
{
    let t = s.drop_last();
    let last = s.len() - 1;
    assert(s[last] == s.last());
    if t.len() > 0 {
        lemma_seq_latest_ts(t);
        let j = choose|j: int| 0 <= j < t.len() && effective_ts(#[trigger] t[j].1) == seq_latest_ts(t);
        assert(t[j] == s[j]);
        if effective_ts(s.last().1) > seq_latest_ts(t) {
            assert(effective_ts(s[last].1) == seq_latest_ts(s));
        } else {
            assert(effective_ts(s[j].1) == seq_latest_ts(s));
        }
        assert forall|j: int| 0 <= j < s.len() implies effective_ts(#[trigger] s[j].1) <= seq_latest_ts(s) by {
            if j < t.len() {
                assert(t[j] == s[j]);
            }
        }
    } else {
        assert(seq_latest_ts(t) == 0);
        assert(effective_ts(s[last].1) == seq_latest_ts(s));
    }
}

/// Some copy of a map of copies that is not empty carries the latest timestamp.
pub proof fn lemma_some_winner(a: VersionMap)
    requires
        a.wf(),
        a@.len() > 0,
    ensures
        is_latest_ts(a@, latest_ts(a@)),
        exists|k: Seq<char>| #[trigger] is_winner(a@, k),
{
    a.lemma_view();
    let s = a.items();
    lemma_seq_latest_ts(s);
    let t = seq_latest_ts(s);
    let j = choose|j: int| 0 <= j < s.len() && effective_ts(#[trigger] s[j].1) == t;
    assert(a@.contains_key(s[j].0));
    assert forall|k: Seq<char>| #[trigger] a@.contains_key(k) implies effective_ts(a@[k]) <= t by {
        let q = choose|q: int| 0 <= q < s.len() && s[q].0 == k;
        assert(effective_ts(s[q].1) <= t);
    }
    assert(is_latest_ts(a@, t));
    lemma_latest_ts(a@, t);
    assert(is_winner(a@, s[j].0));
}

/// The merge depends on the copies alone, never on the order in which they are held:
/// two maps that hold the same entries merge to the same content.
pub proof fn lemma_merge_order_independent(a: VersionMap, b: VersionMap, current: Seq<char>)
    requires
        a.wf(),
        b.wf(),
        forall|x: (Seq<char>, MachineVersion)| a.items().contains(x) <==> b.items().contains(x),
    ensures
        a@ == b@,
        merge_result(a@, current) == merge_result(b@, current),
{
    a.lemma_view();
    b.lemma_view();
    let sa = a.items();
    let sb = b.items();
    assert forall|k: Seq<char>| a@.contains_key(k) implies b@.contains_key(k) && b@[k] == a@[k] by {
        let i = choose|i: int| 0 <= i < sa.len() && sa[i].0 == k;
        assert(sa.contains(sa[i]));
        assert(sb.contains(sa[i]));
        let j = choose|j: int| 0 <= j < sb.len() && sb[j] == sa[i];
        assert(b@.contains_key(sb[j].0));
    }
    assert forall|k: Seq<char>| b@.contains_key(k) implies a@.contains_key(k) by {
        let j = choose|j: int| 0 <= j < sb.len() && sb[j].0 == k;
        assert(sb.contains(sb[j]));
        assert(sa.contains(sb[j]));
        let i = choose|i: int| 0 <= i < sa.len() && sa[i] == sb[j];
        assert(a@.contains_key(sa[i].0));
    }
    assert(a@ =~= b@);
}

/// A single copy is the merge, whichever machine merges.
pub proof fn lemma_merge_singleton(m: Map<Seq<char>, MachineVersion>, k: Seq<char>, v: MachineVersion, current: Seq<char>)
    requires
        m == Map::<Seq<char>, MachineVersion>::empty().insert(k, v),
    ensures
        merge_result(m, current) == v.content@,
{
    assert(m.contains_key(k));
    assert(is_latest_ts(m, effective_ts(v)));
    lemma_latest_ts(m, effective_ts(v));
    assert(is_winner(m, k));
    lemma_merge_uniform_winners(m, current, v.content@, k);
}

/// When every copy has the content `c`, the merge is `c`, whatever the timestamps.
pub proof fn lemma_merge_agreement(a: VersionMap, c: Seq<char>, current: Seq<char>)
    requires
        a.wf(),
        a@.len() > 0,
        forall|k: Seq<char>| #[trigger] a@.contains_key(k) ==> a@[k].content@ == c,
    ensures
        merge_result(a@, current) == c,
{
    lemma_some_winner(a);
    let w = choose|k: Seq<char>| #[trigger] is_winner(a@, k);
    lemma_merge_uniform_winners(a@, current, c, w);
}

/// The copy with a timestamp later than every other copy's is the merge, whichever
/// machine merges.
pub proof fn lemma_merge_latest_wins(m: Map<Seq<char>, MachineVersion>, k: Seq<char>, current: Seq<char>)
    requires
        m.contains_key(k),
        forall|j: Seq<char>| #[trigger] m.contains_key(j) && j != k ==> effective_ts(m[j]) < effective_ts(m[k]),
    ensures
        merge_result(m, current) == m[k].content@,
{
    assert(is_latest_ts(m, effective_ts(m[k])));
    lemma_latest_ts(m, effective_ts(m[k]));
    assert forall|j: Seq<char>| #[trigger] is_winner(m, j) implies m[j].content@ == m[k].content@ by {
        if j != k {
            assert(m.contains_key(j));
        }
    }
    lemma_merge_uniform_winners(m, current, m[k].content@, k);
}

} // verus!
