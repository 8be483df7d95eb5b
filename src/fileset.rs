use vstd::prelude::*;
use vstd::string::*;
use crate::config::{AppConfig, MachineOverride};
use crate::host::home_dir;
use crate::pathorder::{
    char_views, key_le, key_le_exec, key_lt, lemma_key_antisymmetric, lemma_key_reflexive,
    lemma_key_total, lemma_key_transitive, path_key, path_key_of,
};
use crate::text::{append_copies, chars_of, contains_chars, contains_seq, texts};

verus! {

/// What `glob::Pattern::new(pattern)` followed by `matches(path)` answers: whether the
/// Unix shell pattern matches the whole path, false where the pattern does not compile.
pub uninterp spec fn glob_match(pattern: Seq<char>, path: Seq<char>) -> bool;

/// A pattern without `*`, `?` or `[`: `glob::Pattern::new` compiles it to one literal
/// token per character.
pub open spec fn literal_pattern(p: Seq<char>) -> bool {
    forall|i: int| 0 <= i < p.len() ==> #[trigger] p[i] != '*' && p[i] != '?' && p[i] != '['
}

/// Relies on glob::Pattern::new and glob::Pattern::matches: the answer depends on the
/// pattern and the path alone; a pattern that does not compile matches nothing. A
/// literal pattern compiles to one character token per character, and each token
/// matches its own character, so it matches its own text; and since each token takes
/// exactly one character, it matches only paths of its own length.
#[verifier::external_body]
fn glob_matches(pattern: &str, path: &str) -> (r: bool)
    ensures
        r == glob_match(pattern@, path@),
        literal_pattern(pattern@) && pattern@ == path@ ==> r,
        literal_pattern(pattern@) && r ==> path@.len() == pattern@.len(),
{
    match glob::Pattern::new(pattern) {
        Ok(p) => p.matches(path),
        Err(_) => false,
    }
}

/// `rest` joined under the directory `base`, as `PathBuf::push` does it: an absolute
/// `rest` stands alone, otherwise one `/` separates the two.
pub open spec fn join_path(base: Seq<char>, rest: Seq<char>) -> Seq<char> {
    if rest.len() > 0 && rest[0] == '/' {
        rest
    } else if base.len() == 0 || base.last() == '/' {
        base + rest
    } else {
        base + seq!['/'] + rest
    }
}

/// `p` with a leading `~/` replaced by the home directory, when one is known.
pub open spec fn tilde_expanded(p: Seq<char>, home: Option<Seq<char>>) -> Seq<char> {
    if p.len() >= 2 && p[0] == '~' && p[1] == '/' && home is Some {
        join_path(home->0, p.skip(2))
    } else {
        p
    }
}

/// The path `rest` under the directory `base`.
pub fn join_paths(base: &str, rest: &str) -> (r: String)
    ensures
        r@ == join_path(base@, rest@),
{
    let b = chars_of(base);
    let t = chars_of(rest);
    if t.len() > 0 && t[0] == '/' {
        String::from_str(rest)
    } else if b.len() == 0 || b[b.len() - 1] == '/' {
        String::from_str(base).concat(rest)
    } else {
        let r = String::from_str(base).concat("/").concat(rest);
        proof {
            reveal_strlit("/");
            assert(r@ =~= join_path(base@, rest@));
        }
        r
    }
}

/// `path` with a leading `~/` replaced by `home`, when it is given.
pub fn expand_tilde_in(path: &str, home: Option<&str>) -> (r: String)
    ensures
        r@ == tilde_expanded(
            path@,
            match home {
                Some(h) => Some(h@),
                None => None,
            },
        ),
{
    let p = chars_of(path);
    match home {
        Some(h) => {
            if p.len() >= 2 && p[0] == '~' && p[1] == '/' {
                let rest = path.substring_char(2, p.len());
                proof {
                    assert(rest@ =~= path@.skip(2));
                }
                join_paths(h, rest)
            } else {
                String::from_str(path)
            }
        },
        None => String::from_str(path),
    }
}

/// `path` with a leading `~/` replaced by the user's home directory, when it is known.
pub fn expand_tilde(path: &str) -> (r: String)
    ensures
        exists|home: Option<Seq<char>>| r@ == tilde_expanded(path@, home),
{
    let home = home_dir();
    match home {
        Some(h) => expand_tilde_in(path, Some(h.as_str())),
        None => expand_tilde_in(path, None),
    }
}

/// The patterns that the operating system `os` adds, from `os_specific` lists
/// for macOS, Linux and Windows; other names add none.
pub open spec fn os_patterns(
    os: Seq<char>,
    macos: Seq<String>,
    linux: Seq<String>,
    windows: Seq<String>,
) -> Seq<Seq<char>> {
    if os == "macos"@ {
        texts(macos)
    } else if os == "linux"@ {
        texts(linux)
    } else if os == "windows"@ {
        texts(windows)
    } else {
        Seq::empty()
    }
}

/// The override of the machine `machine_id` in `app`, if it has one.
pub open spec fn override_of(app: AppConfig, machine_id: Seq<char>) -> Option<MachineOverride> {
    if app.machines@.contains_key(machine_id) {
        Some(app.machines@[machine_id])
    } else {
        None
    }
}

/// Every pattern that selects files of `app` on `machine_id` under `os`: the app's own,
/// then the operating system's, then the machine's.
pub open spec fn selecting_patterns(app: AppConfig, machine_id: Seq<char>, os: Seq<char>) -> Seq<
    Seq<char>,
> {
    texts(app.includes@) + os_patterns(os, app.include_macos@, app.include_linux@, app.include_windows@)
        + match override_of(app, machine_id) {
        Some(o) => texts(o.includes@),
        None => Seq::empty(),
    }
}

/// Every pattern that leaves files of `app` out on `machine_id` under `os`, gathered in
/// the same three tiers.
pub open spec fn excluding_patterns(app: AppConfig, machine_id: Seq<char>, os: Seq<char>) -> Seq<
    Seq<char>,
> {
    texts(app.exclude@) + os_patterns(os, app.exclude_macos@, app.exclude_linux@, app.exclude_windows@)
        + match override_of(app, machine_id) {
        Some(o) => texts(o.exclude@),
        None => Seq::empty(),
    }
}

/// The patterns that select and that leave out the files of `app` on the machine
/// `machine_id` running `os`. No tier takes anything away from another.
pub fn fileset_patterns(app: &AppConfig, machine_id: &str, os: &str) -> (r: (Vec<String>, Vec<String>))
    requires
        app.machines.wf(),
    ensures
        texts(r.0@) == selecting_patterns(*app, machine_id@, os@),
        texts(r.1@) == excluding_patterns(*app, machine_id@, os@),
{
    let mut inc: Vec<String> = Vec::new();
    let mut exc: Vec<String> = Vec::new();
    append_copies(&mut inc, &app.includes);
    append_copies(&mut exc, &app.exclude);
    let o = chars_of(os);
    if crate::text::chars_eq_str(&o, "macos") {
        append_copies(&mut inc, &app.include_macos);
        append_copies(&mut exc, &app.exclude_macos);
    } else if crate::text::chars_eq_str(&o, "linux") {
        append_copies(&mut inc, &app.include_linux);
        append_copies(&mut exc, &app.exclude_linux);
    } else if crate::text::chars_eq_str(&o, "windows") {
        append_copies(&mut inc, &app.include_windows);
        append_copies(&mut exc, &app.exclude_windows);
    }
    match app.machines.get(machine_id) {
        Some(mo) => {
            append_copies(&mut inc, &mo.includes);
            append_copies(&mut exc, &mo.exclude);
        },
        None => {},
    }
    proof {
        assert(texts(inc@) =~= selecting_patterns(*app, machine_id@, os@));
        assert(texts(exc@) =~= excluding_patterns(*app, machine_id@, os@));
    }
    (inc, exc)
}

/// The pattern `pattern` leaves `path` out: its expansion matches the path as a glob, or
/// the pattern as written occurs in the path.
pub open spec fn excluded_by(pattern: Seq<char>, path: Seq<char>, home: Option<Seq<char>>) -> bool {
    glob_match(tilde_expanded(pattern, home), path) || contains_seq(path, pattern)
}

/// Some pattern of `patterns` leaves `path` out.
pub open spec fn excluded_by_any(patterns: Seq<Seq<char>>, path: Seq<char>, home: Option<Seq<char>>) -> bool {
    exists|i: int| 0 <= i < patterns.len() && excluded_by(#[trigger] patterns[i], path, home)
}

pub open spec fn opt_view(h: Option<&str>) -> Option<Seq<char>> {
    match h {
        Some(x) => Some(x@),
        None => None,
    }
}

/// Whether some pattern of `patterns` leaves `path` out.
pub fn matches_any_pattern(path: &str, patterns: &Vec<String>, home: Option<&str>) -> (r: bool)
    ensures
        r == excluded_by_any(texts(patterns@), path@, opt_view(home)),
        forall|i: int|
            0 <= i < patterns@.len() && literal_pattern(#[trigger] tilde_expanded(texts(patterns@)[i], opt_view(home)))
                && tilde_expanded(texts(patterns@)[i], opt_view(home)) == path@ ==> r,
{
    let p = chars_of(path);
    let mut i: usize = 0;
    while i < patterns.len()
        invariant
            p@ == path@,
            i <= patterns@.len(),
            forall|j: int| 0 <= j < i ==> !excluded_by(#[trigger] texts(patterns@)[j], path@, opt_view(home)),
            forall|j: int|
                0 <= j < i ==> !(literal_pattern(#[trigger] tilde_expanded(texts(patterns@)[j], opt_view(home)))
                    && tilde_expanded(texts(patterns@)[j], opt_view(home)) == path@),
        decreases patterns@.len() - i,
    {
        let pat = &patterns[i];
        let expanded = expand_tilde_in(pat.as_str(), home);
        assert(texts(patterns@)[i as int] == pat@);
        assert(expanded@ == tilde_expanded(texts(patterns@)[i as int], opt_view(home)));
        if glob_matches(expanded.as_str(), path) {
            return true;
        }
        let pc = chars_of(pat.as_str());
        if contains_chars(&p, &pc) {
            return true;
        }
        i = i + 1;
    }
    false
}

/// Strictly increasing in path order: sorted by components, and no two paths with the
/// same components.
pub open spec fn sorted_paths(s: Seq<Seq<char>>) -> bool {
    forall|i: int, j: int|
        0 <= i < j < s.len() ==> key_lt(path_key(#[trigger] s[i]), path_key(#[trigger] s[j]))
}

/// The candidates that no pattern leaves out.
#[verifier::opaque]
pub open spec fn kept(cands: Seq<Seq<char>>, patterns: Seq<Seq<char>>, home: Option<Seq<char>>, x: Seq<char>) -> bool {
    cands.contains(x) && !excluded_by_any(patterns, x, home)
}

proof fn lemma_contains_push(s: Seq<Seq<char>>, v: Seq<char>, x: Seq<char>)
    ensures
        s.push(v).contains(x) <==> (s.contains(x) || x == v),
{
    if s.contains(x) {
        let q = choose|q: int| 0 <= q < s.len() && s[q] == x;
        assert(s.push(v)[q] == x);
    }
    if x == v {
        assert(s.push(v)[s.len() as int] == x);
    }
    if s.push(v).contains(x) && x != v {
        let q = choose|q: int| 0 <= q < s.len() + 1 && s.push(v)[q] == x;
        assert(s[q] == x);
    }
}

/// Adds the path `c` to the list `r`, sorted in path order with its keys in `rkeys`,
/// unless a path with the same components is already there.
fn insert_path(r: &mut Vec<String>, rkeys: &mut Vec<Vec<Vec<char>>>, c: &String)
    requires
        old(rkeys)@.len() == old(r)@.len(),
        forall|j: int| 0 <= j < old(r)@.len() ==> char_views(#[trigger] old(rkeys)@[j]@) == path_key(texts(old(r)@)[j]),
        sorted_paths(texts(old(r)@)),
    ensures
        final(rkeys)@.len() == final(r)@.len(),
        forall|j: int| 0 <= j < final(r)@.len() ==> char_views(#[trigger] final(rkeys)@[j]@) == path_key(texts(final(r)@)[j]),
        sorted_paths(texts(final(r)@)),
        forall|x: Seq<char>| #[trigger] texts(final(r)@).contains(x) ==> texts(old(r)@).contains(x) || x == c@,
        forall|x: Seq<char>| #[trigger] texts(old(r)@).contains(x) ==> texts(final(r)@).contains(x),
        exists|y: Seq<char>| #[trigger] texts(final(r)@).contains(y) && path_key(y) == path_key(c@),
{
        let kc = path_key_of(c.as_str());
        let ghost key_c = path_key(c@);
        let mut i: usize = 0;
        let mut present = false;
        while i < r.len()
            invariant_except_break
                !present,
            invariant
                i <= r@.len(),
                rkeys@.len() == r@.len(),
                char_views(kc@) == key_c,
                forall|j: int| 0 <= j < r@.len() ==> char_views(#[trigger] rkeys@[j]@) == path_key(texts(r@)[j]),
                forall|j: int| 0 <= j < i ==> key_lt(path_key(#[trigger] texts(r@)[j]), key_c),
            ensures
                i <= r@.len(),
                forall|j: int| 0 <= j < i ==> key_lt(path_key(#[trigger] texts(r@)[j]), key_c),
                present ==> i < r@.len() && path_key(texts(r@)[i as int]) == key_c,
                !present ==> i == r@.len() || (i < r@.len() && !key_le(path_key(texts(r@)[i as int]), key_c)),
            decreases r@.len() - i,
        {
            let le = key_le_exec(&rkeys[i], &kc);
            assert(char_views(rkeys@[i as int]@) == path_key(texts(r@)[i as int]));
            if le {
                if key_le_exec(&kc, &rkeys[i]) {
                    proof {
                        lemma_key_antisymmetric(path_key(texts(r@)[i as int]), key_c);
                    }
                    present = true;
                    break;
                }
                i = i + 1;
            } else {
                break;
            }
        }
        if !present {
            let ghost before = texts(r@);
            proof {
                if i < before.len() {
                    lemma_key_total(path_key(before[i as int]), key_c);
                    lemma_key_reflexive(key_c);
                    assert(key_lt(key_c, path_key(before[i as int])));
                }
            }
            let ghost rk0 = rkeys@;
            r.insert(i, c.clone());
            rkeys.insert(i, kc);
            proof {
                let after = texts(r@);
                assert(after =~= before.insert(i as int, c@));
                assert forall|j: int| 0 <= j < r@.len() implies char_views(#[trigger] rkeys@[j]@) == path_key(texts(r@)[j]) by {
                    if j < i {
                        assert(rkeys@[j] == rk0[j] && after[j] == before[j]);
                    } else if j > i {
                        assert(rkeys@[j] == rk0[j - 1] && after[j] == before[j - 1]);
                    }
                }
                assert forall|a: int, b: int| 0 <= a < b < after.len() implies key_lt(path_key(#[trigger] after[a]), path_key(#[trigger] after[b])) by {
                    if b < i {
                    } else if b == i {
                    } else if a == i {
                        if b - 1 > i {
                            lemma_key_transitive(key_c, path_key(before[i as int]), path_key(before[b - 1]));
                            if key_c == path_key(before[b - 1]) {
                                lemma_key_antisymmetric(path_key(before[i as int]), path_key(before[b - 1]));
                            }
                        }
                    } else if a < i {
                        assert(before[a] == after[a]);
                    } else {
                        assert(before[a - 1] == after[a]);
                    }
                }
                assert forall|x: Seq<char>| after.contains(x) <==> (before.contains(x) || x == c@) by {
                    if after.contains(x) && x != c@ {
                        let q = choose|q: int| 0 <= q < after.len() && after[q] == x;
                        if q < i {
                            assert(before[q] == x);
                        } else {
                            assert(before[q - 1] == x);
                        }
                    }
                    if before.contains(x) {
                        let q = choose|q: int| 0 <= q < before.len() && before[q] == x;
                        if q < i {
                            assert(after[q] == x);
                        } else {
                            assert(after[q + 1] == x);
                        }
                    }
                    if x == c@ {
                        assert(after[i as int] == x);
                    }
                }
                assert(after.contains(c@));
            }
        } else {
            proof {
                assert(texts(r@).contains(texts(r@)[i as int]));
            }
        }

    }

/// The paths of `candidates` that no pattern of `exclude` leaves out, sorted in path
/// order (component by component), each path once: of candidates with the same
/// components, one stands for all.
pub fn select_files(candidates: &Vec<String>, exclude: &Vec<String>, home: Option<&str>) -> (r: Vec<String>)
    ensures
        sorted_paths(texts(r@)),
        forall|x: Seq<char>| texts(r@).contains(x) ==> kept(texts(candidates@), texts(exclude@), opt_view(home), x),
        forall|x: Seq<char>|
            #[trigger] texts(candidates@).contains(x) && kept(texts(candidates@), texts(exclude@), opt_view(home), x) ==> exists|y: Seq<char>|
            #[trigger] texts(r@).contains(y) && path_key(y) == path_key(x),
        forall|x: Seq<char>, i: int|
            #[trigger] texts(r@).contains(x) && 0 <= i < exclude@.len() && literal_pattern(
                #[trigger] tilde_expanded(texts(exclude@)[i], opt_view(home)),
            ) ==> x != tilde_expanded(texts(exclude@)[i], opt_view(home)),
{
    let ghost cands = texts(candidates@);
    let ghost pats = texts(exclude@);
    let ghost h = opt_view(home);
    let mut r: Vec<String> = Vec::new();
    let mut rkeys: Vec<Vec<Vec<char>>> = Vec::new();
    let mut k: usize = 0;
    while k < candidates.len()
        invariant
            cands == texts(candidates@),
            pats == texts(exclude@),
            h == opt_view(home),
            k <= candidates@.len(),
            rkeys@.len() == r@.len(),
            forall|j: int| 0 <= j < r@.len() ==> char_views(#[trigger] rkeys@[j]@) == path_key(texts(r@)[j]),
            sorted_paths(texts(r@)),
            forall|x: Seq<char>| texts(r@).contains(x) ==> kept(cands.take(k as int), pats, h, x),
            forall|x: Seq<char>|
                #[trigger] cands.take(k as int).contains(x) && kept(cands.take(k as int), pats, h, x) ==> exists|y: Seq<char>|
                #[trigger] texts(r@).contains(y) && path_key(y) == path_key(x),
            forall|x: Seq<char>, i: int|
                #[trigger] texts(r@).contains(x) && 0 <= i < exclude@.len() && literal_pattern(
                    #[trigger] tilde_expanded(texts(exclude@)[i], h),
                ) ==> x != tilde_expanded(texts(exclude@)[i], h),
        decreases candidates@.len() - k,
    {
        let c = &candidates[k];
        assert(cands[k as int] == c@);
        assert(cands.take(k + 1) =~= cands.take(k as int).push(c@));
        let ghost before_all = texts(r@);
        let excluded = matches_any_pattern(c.as_str(), exclude, home);
        if !excluded {
            insert_path(&mut r, &mut rkeys, c);
        }
        proof {
            assert forall|x: Seq<char>| texts(r@).contains(x) implies kept(cands.take(k + 1), pats, h, x) by {
                reveal(kept);
                lemma_contains_push(cands.take(k as int), c@, x);
                if excluded {
                    assert(texts(r@) == before_all);
                }
                if x != c@ || excluded {
                    assert(before_all.contains(x));
                }
            }
            assert forall|x: Seq<char>|
                #[trigger] cands.take(k + 1).contains(x) && kept(cands.take(k + 1), pats, h, x) implies exists|y: Seq<char>|
                #[trigger] texts(r@).contains(y) && path_key(y) == path_key(x) by {
                reveal(kept);
                lemma_contains_push(cands.take(k as int), c@, x);
                if kept(cands.take(k as int), pats, h, x) {
                    let y = choose|y: Seq<char>| #[trigger] before_all.contains(y) && path_key(y) == path_key(x);
                    assert(texts(r@).contains(y));
                }
            }
            assert forall|x: Seq<char>, i: int|
                #[trigger] texts(r@).contains(x) && 0 <= i < exclude@.len() && literal_pattern(
                    #[trigger] tilde_expanded(texts(exclude@)[i], h),
                ) implies x != tilde_expanded(texts(exclude@)[i], h) by {
                if excluded {
                    assert(texts(r@) == before_all);
                }
                if x != c@ || excluded {
                    assert(before_all.contains(x));
                }
            }
        }
        k = k + 1;
    }
    assert(cands.take(candidates@.len() as int) =~= cands);
    r
}

/// A pattern of a machine's override leaves a path out on that machine whatever the
/// app-wide and operating-system patterns select: no path that it excludes is kept.
pub proof fn lemma_machine_exclude_holds(
    app: AppConfig,
    machine_id: Seq<char>,
    os: Seq<char>,
    candidates: Seq<Seq<char>>,
    home: Option<Seq<char>>,
    x: Seq<char>,
)
    requires
        app.machines@.contains_key(machine_id),
        kept(candidates, excluding_patterns(app, machine_id, os), home, x),
    ensures
        forall|i: int|
            0 <= i < app.machines@[machine_id].exclude@.len() ==> !excluded_by(
                #[trigger] app.machines@[machine_id].exclude@[i]@,
                x,
                home,
            ),
{
    reveal(kept);
    let o = app.machines@[machine_id];
    let a = texts(app.exclude@) + os_patterns(os, app.exclude_macos@, app.exclude_linux@, app.exclude_windows@);
    let all = excluding_patterns(app, machine_id, os);
    assert(all =~= a + texts(o.exclude@));
    assert forall|i: int| 0 <= i < o.exclude@.len() implies !excluded_by(#[trigger] o.exclude@[i]@, x, home) by {
        assert(all[a.len() + i] == o.exclude@[i]@);
    }
}

/// What `select_files` returns for the patterns that `fileset_patterns` gathers never
/// holds a path named literally by the machine's override: a literal excluding pattern
/// of the override, once expanded, is absent from the selection whatever the app-wide
/// and operating-system patterns select.
pub proof fn lemma_machine_literal_exclude_absent(
    app: AppConfig,
    machine_id: Seq<char>,
    os: Seq<char>,
    selected: Seq<Seq<char>>,
    home: Option<Seq<char>>,
)
    requires
        app.machines@.contains_key(machine_id),
        forall|x: Seq<char>, i: int|
            #[trigger] selected.contains(x) && 0 <= i < excluding_patterns(app, machine_id, os).len()
                && literal_pattern(#[trigger] tilde_expanded(excluding_patterns(app, machine_id, os)[i], home))
                ==> x != tilde_expanded(excluding_patterns(app, machine_id, os)[i], home),
    ensures
        forall|j: int|
            0 <= j < app.machines@[machine_id].exclude@.len() && literal_pattern(
                #[trigger] tilde_expanded(app.machines@[machine_id].exclude@[j]@, home),
            ) ==> !selected.contains(tilde_expanded(app.machines@[machine_id].exclude@[j]@, home)),
{
    let o = app.machines@[machine_id];
    let a = texts(app.exclude@) + os_patterns(os, app.exclude_macos@, app.exclude_linux@, app.exclude_windows@);
    let all = excluding_patterns(app, machine_id, os);
    assert(all =~= a + texts(o.exclude@));
    assert forall|j: int|
        0 <= j < o.exclude@.len() && literal_pattern(#[trigger] tilde_expanded(o.exclude@[j]@, home)) implies
        !selected.contains(tilde_expanded(o.exclude@[j]@, home)) by {
        assert(all[a.len() + j] == o.exclude@[j]@);
        let e = tilde_expanded(all[a.len() + j], home);
        if selected.contains(e) {
            assert(e != tilde_expanded(all[a.len() + j], home));
        }
    }
}

} // verus!
