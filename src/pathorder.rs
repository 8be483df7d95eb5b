use vstd::prelude::*;
use crate::lex::{chars_lex_le, lemma_lex_antisymmetric, lemma_lex_reflexive, lemma_lex_total, lemma_lex_transitive, lex_le};
use crate::paths::sub_vec;
use crate::text::chars_of;
use crate::updates::{lemma_index_from_at, pieces, pieces_from};

verus! {

/// A piece between separators that names nothing: empty (from `//` or a trailing `/`)
/// or `.`.
pub open spec fn skipped_piece(p: Seq<char>) -> bool {
    p.len() == 0 || p == seq!['.']
}

/// The pieces of `ps` that name something.
pub open spec fn named_pieces(ps: Seq<Seq<char>>) -> Seq<Seq<char>>
    decreases ps.len(),
{
    if ps.len() == 0 {
        Seq::empty()
    } else if skipped_piece(ps.last()) {
        named_pieces(ps.drop_last())
    } else {
        named_pieces(ps.drop_last()).push(ps.last())
    }
}

/// The components of a path, as `Path` compares them: the root first, written as an
/// empty component (the root sorts before every name), then each name between
/// separators. Repeated separators, a trailing separator and `.` components count for
/// nothing; `..` counts as a name.
pub open spec fn path_key(p: Seq<char>) -> Seq<Seq<char>> {
    (if p.len() > 0 && p[0] == '/' {
        seq![Seq::<char>::empty()]
    } else {
        Seq::<Seq<char>>::empty()
    }) + named_pieces(pieces(p, '/'))
}

/// `a` comes no later than `b`: component by component, each in the order of `String`,
/// a proper prefix first.
pub open spec fn key_le(a: Seq<Seq<char>>, b: Seq<Seq<char>>) -> bool
    decreases a.len(),
{
    if a.len() == 0 {
        true
    } else if b.len() == 0 {
        false
    } else if a[0] != b[0] {
        lex_le(a[0], b[0])
    } else {
        key_le(a.drop_first(), b.drop_first())
    }
}

/// `a` comes strictly before `b` in path order.
pub open spec fn key_lt(a: Seq<Seq<char>>, b: Seq<Seq<char>>) -> bool {
    key_le(a, b) && a != b
}

pub proof fn lemma_key_reflexive(a: Seq<Seq<char>>)
    ensures
        key_le(a, a),
    decreases a.len(),
{
    if a.len() > 0 {
        lemma_key_reflexive(a.drop_first());
    }
}

pub proof fn lemma_key_total(a: Seq<Seq<char>>, b: Seq<Seq<char>>)
    ensures
        key_le(a, b) || key_le(b, a),
    decreases a.len(),
{
    if a.len() > 0 && b.len() > 0 {
        if a[0] == b[0] {
            lemma_key_total(a.drop_first(), b.drop_first());
        } else {
            lemma_lex_total(a[0], b[0]);
        }
    }
}

pub proof fn lemma_key_antisymmetric(a: Seq<Seq<char>>, b: Seq<Seq<char>>)
    requires
        key_le(a, b),
        key_le(b, a),
    ensures
        a == b,
    decreases a.len(),
{
    if a.len() == 0 {
        assert(a =~= b);
    } else if a[0] == b[0] {
        lemma_key_antisymmetric(a.drop_first(), b.drop_first());
        assert(a =~= seq![a[0]] + a.drop_first());
        assert(b =~= seq![b[0]] + b.drop_first());
    } else {
        lemma_lex_antisymmetric(a[0], b[0]);
    }
}

pub proof fn lemma_key_transitive(a: Seq<Seq<char>>, b: Seq<Seq<char>>, c: Seq<Seq<char>>)
    requires
        key_le(a, b),
        key_le(b, c),
    ensures
        key_le(a, c),
    decreases a.len(),
{
    if a.len() > 0 && b.len() > 0 && c.len() > 0 {
        if a[0] == b[0] && b[0] == c[0] {
            lemma_key_transitive(a.drop_first(), b.drop_first(), c.drop_first());
        } else if a[0] != b[0] && b[0] != c[0] {
            lemma_lex_transitive(a[0], b[0], c[0]);
            if a[0] == c[0] {
                lemma_lex_antisymmetric(a[0], b[0]);
            }
        }
    }
}

/// The texts of the character vectors in `v`.
pub open spec fn char_views(v: Seq<Vec<char>>) -> Seq<Seq<char>> {
    v.map_values(|x: Vec<char>| x@)
}

/// The components of the path `path`, as `path_key` gives them.
pub fn path_key_of(path: &str) -> (r: Vec<Vec<char>>)
    ensures
        char_views(r@) == path_key(path@),
{
    let s = chars_of(path);
    let n = s.len();
    let mut r: Vec<Vec<char>> = Vec::new();
    let ghost prefix: Seq<Seq<char>> = if path@.len() > 0 && path@[0] == '/' {
        seq![Seq::<char>::empty()]
    } else {
        Seq::<Seq<char>>::empty()
    };
    if n > 0 && s[0] == '/' {
        r.push(Vec::new());
    }
    assert(char_views(r@) =~= prefix);
    let ghost mut ps: Seq<Seq<char>> = Seq::empty();
    let mut start: usize = 0;
    let mut i: usize = 0;
    while i < n
        invariant
            n == s@.len(),
            s@ == path@,
            start <= i <= n,
            forall|j: int| start <= j < i ==> s@[j] != '/',
            pieces(path@, '/') == ps + pieces_from(path@, start as int, '/'),
            char_views(r@) == prefix + named_pieces(ps),
        decreases n - i,
    {
        if s[i] == '/' {
            proof {
                lemma_index_from_at(s@, start as int, i as int, '/');
                let p = s@.subrange(start as int, i as int);
                assert(pieces_from(path@, start as int, '/') == seq![p] + pieces_from(path@, i + 1, '/'));
                assert(pieces(path@, '/') =~= ps.push(p) + pieces_from(path@, i + 1, '/'));
                assert(ps.push(p).drop_last() =~= ps);
            }
            push_named(&mut r, &s, start, i);
            proof {
                assert(prefix + named_pieces(ps.push(s@.subrange(start as int, i as int))) =~= char_views(r@));
                ps = ps.push(s@.subrange(start as int, i as int));
            }
            start = i + 1;
        }
        i = i + 1;
    }
    proof {
        lemma_index_from_at(s@, start as int, n as int, '/');
        let p = s@.subrange(start as int, n as int);
        assert(pieces_from(path@, start as int, '/') == seq![p]);
        assert(pieces(path@, '/') =~= ps.push(p));
        assert(ps.push(p).drop_last() =~= ps);
    }
    push_named(&mut r, &s, start, n);
    proof {
        assert(prefix + named_pieces(ps.push(s@.subrange(start as int, n as int))) =~= char_views(r@));
    }
    r
}

/// Appends the piece `s[a..b]` to `r` unless it names nothing.
fn push_named(r: &mut Vec<Vec<char>>, s: &Vec<char>, a: usize, b: usize)
    requires
        a <= b <= s@.len(),
    ensures
        char_views(final(r)@) == if skipped_piece(s@.subrange(a as int, b as int)) {
            char_views(old(r)@)
        } else {
            char_views(old(r)@).push(s@.subrange(a as int, b as int))
        },
{
    let piece = sub_vec(s, a, b);
    proof {
        if piece@.len() == 1 && piece@[0] == '.' {
            assert(piece@ =~= seq!['.']);
        }
    }
    if piece.len() == 0 || (piece.len() == 1 && piece[0] == '.') {
        return;
    }
    let ghost before = r@;
    r.push(piece);
    proof {
        assert(char_views(r@) =~= char_views(before).push(s@.subrange(a as int, b as int)));
    }
}

/// Whether `a` comes no later than `b` in path order.
pub fn key_le_exec(a: &Vec<Vec<char>>, b: &Vec<Vec<char>>) -> (r: bool)
    ensures
        r == key_le(char_views(a@), char_views(b@)),
{
    let ghost va = char_views(a@);
    let ghost vb = char_views(b@);
    let mut i: usize = 0;
    assert(va.skip(0) =~= va);
    assert(vb.skip(0) =~= vb);
    while i < a.len() && i < b.len()
        invariant
            va == char_views(a@),
            vb == char_views(b@),
            i <= a@.len(),
            i <= b@.len(),
            key_le(va, vb) == key_le(va.skip(i as int), vb.skip(i as int)),
        decreases a@.len() - i,
    {
        let le = chars_lex_le(&a[i], &b[i]);
        let ge = chars_lex_le(&b[i], &a[i]);
        proof {
            assert(va.skip(i as int)[0] == a@[i as int]@);
            assert(vb.skip(i as int)[0] == b@[i as int]@);
        }
        if le && ge {
            proof {
                lemma_lex_antisymmetric(a@[i as int]@, b@[i as int]@);
                assert(va.skip(i as int).drop_first() =~= va.skip(i + 1));
                assert(vb.skip(i as int).drop_first() =~= vb.skip(i + 1));
            }
            i = i + 1;
        } else {
            proof {
                if a@[i as int]@ == b@[i as int]@ {
                    lemma_lex_reflexive(a@[i as int]@);
                }
            }
            return le;
        }
    }
    i == a.len()
}

} // verus!
