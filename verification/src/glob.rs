//! Glob patterns: `*` stands for any number of characters, `?` for exactly
//! one character, and every other character for itself.
use crate::text::chars_of;
use vstd::prelude::*;

verus! {

/// Whether the pattern `p` matches the whole text `t`.
pub open spec fn glob(p: Seq<char>, t: Seq<char>) -> bool
    decreases p.len(),
{
    if p.len() == 0 {
        t.len() == 0
    } else if p[0] == '*' {
        exists|i: int| #![trigger t.skip(i)] 0 <= i <= t.len() && glob(p.drop_first(), t.skip(i))
    } else if p[0] == '?' {
        t.len() > 0 && glob(p.drop_first(), t.drop_first())
    } else {
        t.len() > 0 && t[0] == p[0] && glob(p.drop_first(), t.drop_first())
    }
}

/// `p` holds neither `*` nor `?`: every character stands for itself.
pub open spec fn is_literal(p: Seq<char>) -> bool {
    forall|k: int| 0 <= k < p.len() ==> #[trigger] p[k] != '*' && p[k] != '?'
}

/// Whether `pattern` matches the whole of `text`.
pub fn glob_match_inner(pattern: &[char], text: &[char]) -> (r: bool)
    ensures
        r == glob(pattern@, text@),
    decreases pattern@.len(),
{
    if pattern.len() == 0 {
        return text.len() == 0;
    }
    let rest = &pattern[1..pattern.len()];
    assert(rest@ =~= pattern@.drop_first());
    let c = pattern[0];
    if c == '*' {
        let n = text.len();
        let mut i: usize = 0;
        loop
            invariant
                i <= n,
                n == text@.len(),
                rest@ == pattern@.drop_first(),
                pattern@.len() > 0,
                pattern@[0] == '*',
                forall|k: int| #![trigger text@.skip(k)] 0 <= k < i ==> !glob(pattern@.drop_first(), text@.skip(k)),
            decreases n - i,
        {
            let tail = &text[i..n];
            assert(tail@ =~= text@.skip(i as int));
            if glob_match_inner(rest, tail) {
                return true;
            }
            if i == n {
                assert forall|k: int| #![trigger text@.skip(k)] 0 <= k <= text@.len() implies !glob(
                    pattern@.drop_first(),
                    text@.skip(k),
                ) by {}
                return false;
            }
            i = i + 1;
        }
    } else if c == '?' {
        if text.len() == 0 {
            false
        } else {
            let tail = &text[1..text.len()];
            assert(tail@ =~= text@.drop_first());
            glob_match_inner(rest, tail)
        }
    } else {
        if text.len() == 0 || text[0] != c {
            false
        } else {
            let tail = &text[1..text.len()];
            assert(tail@ =~= text@.drop_first());
            glob_match_inner(rest, tail)
        }
    }
}

/// Whether the glob `pattern` matches the whole of `text`.
pub fn glob_match(pattern: &str, text: &str) -> (r: bool)
    ensures
        r == glob(pattern@, text@),
{
    let pat = chars_of(pattern);
    let txt = chars_of(text);
    glob_match_inner(pat.as_slice(), txt.as_slice())
}

// ---------------------------------------------------------------------------
// Laws
// ---------------------------------------------------------------------------

/// Every pattern matches its own text: `*` and `?` can each stand for themselves.
pub proof fn lemma_glob_matches_itself(p: Seq<char>)
    ensures
        glob(p, p),
    decreases p.len(),
{
    if p.len() > 0 {
        lemma_glob_matches_itself(p.drop_first());
        if p[0] == '*' {
            assert(p.skip(1) =~= p.drop_first());
        }
    }
}

/// The pattern `*` matches every text, the empty one included.
pub proof fn lemma_star_matches_everything(t: Seq<char>)
    ensures
        glob(seq!['*'], t),
{
    let p = seq!['*'];
    assert(p.drop_first() =~= Seq::<char>::empty());
    assert(t.skip(t.len() as int) =~= Seq::<char>::empty());
    assert(glob(p.drop_first(), t.skip(t.len() as int)));
}

/// A pattern without wildcards matches exactly the text equal to it.
pub proof fn lemma_literal_pattern(p: Seq<char>, t: Seq<char>)
    requires
        is_literal(p),
    ensures
        glob(p, t) <==> t == p,
    decreases p.len(),
{
    if p.len() > 0 {
        assert(p[0] != '*' && p[0] != '?');
        let q = p.drop_first();
        assert(is_literal(q)) by {
            assert forall|k: int| 0 <= k < q.len() implies #[trigger] q[k] != '*' && q[k] != '?' by {
                assert(q[k] == p[k + 1]);
            }
        }
        if t.len() > 0 {
            lemma_literal_pattern(q, t.drop_first());
            if t == p {
                assert(t.drop_first() =~= q);
            }
            if t[0] == p[0] && t.drop_first() == q {
                assert forall|k: int| 0 <= k < t.len() implies t[k] == p[k] by {
                    if k > 0 {
                        assert(t[k] == t.drop_first()[k - 1]);
                        assert(p[k] == q[k - 1]);
                    }
                }
                assert(t =~= p);
            }
        }
    } else {
        if t.len() == 0 {
            assert(t =~= p);
        }
    }
}

/// A pattern without `*` matches only texts of its own length: each `?`
/// stands for exactly one character.
pub proof fn lemma_no_star_fixes_length(p: Seq<char>, t: Seq<char>)
    requires
        forall|k: int| 0 <= k < p.len() ==> #[trigger] p[k] != '*',
        glob(p, t),
    ensures
        t.len() == p.len(),
    decreases p.len(),
{
    if p.len() > 0 {
        let q = p.drop_first();
        assert(p[0] != '*');
        assert forall|k: int| 0 <= k < q.len() implies #[trigger] q[k] != '*' by {
            assert(q[k] == p[k + 1]);
        }
        lemma_no_star_fixes_length(q, t.drop_first());
    }
}

/// `prefix*`, with a literal prefix, matches exactly the texts that start with the prefix.
pub proof fn lemma_literal_prefix_then_star(q: Seq<char>, t: Seq<char>)
    requires
        is_literal(q),
    ensures
        glob(q + seq!['*'], t) <==> (q.len() <= t.len() && t.take(q.len() as int) == q),
    decreases q.len(),
{
    let p = q + seq!['*'];
    if q.len() == 0 {
        assert(p =~= seq!['*']);
        lemma_star_matches_everything(t);
        assert(t.take(0) =~= q);
    } else {
        assert(p[0] == q[0]);
        assert(q[0] != '*' && q[0] != '?');
        let r = q.drop_first();
        assert(p.drop_first() =~= r + seq!['*']);
        assert(is_literal(r)) by {
            assert forall|k: int| 0 <= k < r.len() implies #[trigger] r[k] != '*' && r[k] != '?' by {
                assert(r[k] == q[k + 1]);
            }
        }
        if t.len() > 0 {
            let u = t.drop_first();
            lemma_literal_prefix_then_star(r, u);
            if q.len() <= t.len() && t.take(q.len() as int) == q {
                assert(t[0] == t.take(q.len() as int)[0]);
                assert(u.take(r.len() as int) =~= t.take(q.len() as int).drop_first());
            }
            if t[0] == q[0] && r.len() <= u.len() && u.take(r.len() as int) == r {
                assert forall|k: int| 0 <= k < q.len() implies t.take(q.len() as int)[k] == q[k] by {
                    if k > 0 {
                        assert(t[k] == u[k - 1]);
                        assert(u[k - 1] == u.take(r.len() as int)[k - 1]);
                        assert(q[k] == r[k - 1]);
                    }
                }
                assert(t.take(q.len() as int) =~= q);
            }
        }
    }
}

/// `*suffix`, with a literal suffix, matches exactly the texts that end with the suffix.
pub proof fn lemma_star_then_literal_suffix(q: Seq<char>, t: Seq<char>)
    requires
        is_literal(q),
    ensures
        glob(seq!['*'] + q, t) <==> (q.len() <= t.len() && t.skip(t.len() - q.len()) == q),
{
    let p = seq!['*'] + q;
    assert(p[0] == '*');
    assert(p.drop_first() =~= q);
    if glob(p, t) {
        let i = choose|i: int| #![trigger t.skip(i)] 0 <= i <= t.len() && glob(q, t.skip(i));
        lemma_literal_pattern(q, t.skip(i));
        assert(i == t.len() - q.len());
    }
    if q.len() <= t.len() && t.skip(t.len() - q.len()) == q {
        let i = t.len() - q.len();
        lemma_literal_pattern(q, t.skip(i));
        assert(glob(p.drop_first(), t.skip(i)));
    }
}

/// A pattern made only of `?` matches exactly the texts of its length.
pub proof fn lemma_question_marks_match_length(n: nat, t: Seq<char>)
    ensures
        glob(Seq::new(n, |k: int| '?'), t) <==> t.len() == n,
    decreases n,
{
    let p = Seq::new(n, |k: int| '?');
    if n > 0 {
        assert(p.drop_first() =~= Seq::new((n - 1) as nat, |k: int| '?'));
        if t.len() > 0 {
            lemma_question_marks_match_length((n - 1) as nat, t.drop_first());
        }
    }
}

/// `p1` matches the first `j` characters of `t` and `p2` the rest.
pub open spec fn split_matches(p1: Seq<char>, p2: Seq<char>, t: Seq<char>, j: int) -> bool {
    &&& 0 <= j <= t.len()
    &&& glob(p1, t.take(j))
    &&& glob(p2, t.skip(j))
}

/// A pattern made of two parts matches a text exactly when the text splits
/// into a part that the first matches followed by a part that the second matches.
pub proof fn lemma_glob_concat(p1: Seq<char>, p2: Seq<char>, t: Seq<char>)
    ensures
        glob(p1 + p2, t) <==> exists|j: int| #[trigger] split_matches(p1, p2, t, j),
    decreases p1.len(),
{
    let p = p1 + p2;
    if p1.len() == 0 {
        assert(p =~= p2);
        if glob(p, t) {
            assert(t.take(0) =~= Seq::<char>::empty());
            assert(t.skip(0) =~= t);
            assert(split_matches(p1, p2, t, 0));
        }
        if exists|j: int| #[trigger] split_matches(p1, p2, t, j) {
            let j = choose|j: int| #[trigger] split_matches(p1, p2, t, j);
            assert(t.take(j).len() == 0);
            assert(t.skip(j) =~= t);
        }
    } else {
        let c = p1[0];
        let r = p1.drop_first();
        assert(p[0] == c);
        assert(p.drop_first() =~= r + p2);
        if c == '*' {
            if glob(p, t) {
                let i = choose|i: int| #![trigger t.skip(i)] 0 <= i <= t.len() && glob(r + p2, t.skip(i));
                let u = t.skip(i);
                lemma_glob_concat(r, p2, u);
                let k = choose|k: int| #[trigger] split_matches(r, p2, u, k);
                let j = i + k;
                assert(t.take(j).skip(i) =~= u.take(k));
                assert(glob(p1.drop_first(), t.take(j).skip(i)));
                assert(glob(p1, t.take(j)));
                assert(t.skip(j) =~= u.skip(k));
                assert(split_matches(p1, p2, t, j));
            }
            if exists|j: int| #[trigger] split_matches(p1, p2, t, j) {
                let j = choose|j: int| #[trigger] split_matches(p1, p2, t, j);
                let v = t.take(j);
                let i = choose|i: int| #![trigger v.skip(i)] 0 <= i <= v.len() && glob(r, v.skip(i));
                let u = t.skip(i);
                let k = j - i;
                assert(v.skip(i) =~= u.take(k));
                assert(t.skip(j) =~= u.skip(k));
                assert(split_matches(r, p2, u, k));
                lemma_glob_concat(r, p2, u);
                assert(glob(p.drop_first(), t.skip(i)));
            }
        } else {
            if glob(p, t) {
                let u = t.drop_first();
                lemma_glob_concat(r, p2, u);
                let k = choose|k: int| #[trigger] split_matches(r, p2, u, k);
                let j = k + 1;
                assert(t.take(j)[0] == t[0]);
                assert(t.take(j).drop_first() =~= u.take(k));
                assert(glob(p1, t.take(j)));
                assert(t.skip(j) =~= u.skip(k));
                assert(split_matches(p1, p2, t, j));
            }
            if exists|j: int| #[trigger] split_matches(p1, p2, t, j) {
                let j = choose|j: int| #[trigger] split_matches(p1, p2, t, j);
                let u = t.drop_first();
                let v = t.take(j);
                assert(v.len() > 0);
                assert(v[0] == t[0]);
                assert(v.drop_first() =~= u.take(j - 1));
                assert(t.skip(j) =~= u.skip(j - 1));
                assert(split_matches(r, p2, u, j - 1));
                lemma_glob_concat(r, p2, u);
            }
        }
    }
}

/// A pattern of one character matches a text exactly when it matches the
/// text read backwards.
proof fn lemma_single_glob_reverse(c: Seq<char>, x: Seq<char>)
    requires
        c.len() == 1,
    ensures
        glob(c, x) == glob(c, x.reverse()),
{
    let e = Seq::<char>::empty();
    assert(c.drop_first() =~= e);
    if c[0] == '*' {
        assert(x.skip(x.len() as int) =~= e);
        assert(glob(c.drop_first(), x.skip(x.len() as int)));
        assert(x.reverse().skip(x.len() as int) =~= e);
        assert(glob(c.drop_first(), x.reverse().skip(x.reverse().len() as int)));
        assert(glob(c, x));
        assert(glob(c, x.reverse()));
    } else {
        assert(x.reverse().len() == x.len());
        if x.len() == 1 {
            assert(x.drop_first() =~= e);
            assert(x.reverse().drop_first() =~= e);
            assert(x.reverse()[0] == x[0]);
        } else if x.len() > 1 {
            assert(x.drop_first().len() > 0);
            assert(x.reverse().drop_first().len() > 0);
            assert(!glob(c.drop_first(), x.drop_first()));
            assert(!glob(c.drop_first(), x.reverse().drop_first()));
            assert(!glob(c, x));
            assert(!glob(c, x.reverse()));
        }
    }
}

/// Matching is anchored at both ends: reading the pattern and the text
/// backwards gives the same answer.
pub proof fn lemma_glob_reverse(p: Seq<char>, t: Seq<char>)
    ensures
        glob(p, t) == glob(p.reverse(), t.reverse()),
    decreases p.len(),
{
    if p.len() == 0 {
        assert(p.reverse() =~= p);
    } else {
        let q = p.drop_last();
        let c = seq![p.last()];
        assert(p =~= q + c);
        assert(p.reverse() =~= c + q.reverse());
        let rt = t.reverse();
        let n = t.len();
        lemma_glob_concat(q, c, t);
        lemma_glob_concat(c, q.reverse(), rt);
        if glob(p, t) {
            let j = choose|j: int| #[trigger] split_matches(q, c, t, j);
            let k = n - j;
            assert(rt.take(k) =~= t.skip(j).reverse());
            assert(rt.skip(k) =~= t.take(j).reverse());
            lemma_single_glob_reverse(c, t.skip(j));
            lemma_glob_reverse(q, t.take(j));
            assert(split_matches(c, q.reverse(), rt, k));
        }
        if glob(p.reverse(), rt) {
            let k = choose|k: int| #[trigger] split_matches(c, q.reverse(), rt, k);
            let j = n - k;
            assert(rt.take(k) =~= t.skip(j).reverse());
            assert(rt.skip(k) =~= t.take(j).reverse());
            lemma_single_glob_reverse(c, t.skip(j));
            lemma_glob_reverse(q, t.take(j));
            assert(split_matches(q, c, t, j));
        }
    }
}

} // verus!
