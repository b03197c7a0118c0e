//! Shell-style wildcard matching of file paths (`*` and `?`), byte by byte.
use vstd::prelude::*;

verus! {

pub open spec fn star() -> u8 {
    42u8
}

pub open spec fn qmark() -> u8 {
    63u8
}

/// What the path matcher accepts. A `?` matches any one byte and any other
/// pattern byte matches itself; a `*` facing a `*` of the text matches exactly
/// that byte, and otherwise matches any run of bytes (possibly empty).
pub open spec fn wild_match(p: Seq<u8>, t: Seq<u8>) -> bool
    decreases p.len(), t.len(), 0nat,
{
    if p.len() == 0 {
        t.len() == 0
    } else if p[0] == star() {
        if t.len() > 0 && t[0] == star() {
            wild_match(p.drop_first(), t.drop_first())
        } else {
            match_some_suffix(p.drop_first(), t)
        }
    } else {
        t.len() > 0 && (p[0] == qmark() || p[0] == t[0]) && wild_match(p.drop_first(), t.drop_first())
    }
}

/// `q` matches `t` with some prefix of `t` removed.
pub open spec fn match_some_suffix(q: Seq<u8>, t: Seq<u8>) -> bool
    decreases q.len(), t.len(), 1nat,
{
    wild_match(q, t) || (t.len() > 0 && match_some_suffix(q, t.drop_first()))
}

/// Classic glob matching: `*` matches any run of bytes, `?` any one byte.
pub open spec fn glob(p: Seq<u8>, t: Seq<u8>) -> bool
    decreases p.len(), t.len(),
{
    if p.len() == 0 {
        t.len() == 0
    } else if p[0] == star() {
        glob(p.drop_first(), t) || (t.len() > 0 && glob(p, t.drop_first()))
    } else {
        t.len() > 0 && (p[0] == qmark() || p[0] == t[0]) && glob(p.drop_first(), t.drop_first())
    }
}

proof fn lemma_suffix_intro(q: Seq<u8>, u: Seq<u8>, a: int, j: int)
    requires
        0 <= a <= j <= u.len(),
        wild_match(q, u.skip(j)),
    ensures
        match_some_suffix(q, u.skip(a)),
    decreases j - a,
{
    if a < j {
        lemma_suffix_intro(q, u, a + 1, j);
        assert(u.skip(a).drop_first() == u.skip(a + 1));
    }
}

proof fn lemma_suffix_elim(q: Seq<u8>, u: Seq<u8>, a: int) -> (j: int)
    requires
        0 <= a <= u.len(),
        match_some_suffix(q, u.skip(a)),
    ensures
        a <= j <= u.len(),
        wild_match(q, u.skip(j)),
    decreases u.len() - a,
{
    if wild_match(q, u.skip(a)) {
        a
    } else {
        assert(u.skip(a).drop_first() == u.skip(a + 1));
        lemma_suffix_elim(q, u, a + 1)
    }
}

/// If `x` was matched byte for byte against `u[a..a+|x|]` (its stars facing
/// stars), then any match of `x + y` starting at or after `a` leaves `y` to
/// match some suffix starting at or after `a + |x|`.
proof fn lemma_shift(x: Seq<u8>, y: Seq<u8>, u: Seq<u8>, a: int, j: int)
    requires
        0 <= a <= j <= u.len(),
        a + x.len() <= u.len(),
        forall|k: int| 0 <= k < x.len() ==> #[trigger] x[k] == u[a + k] || x[k] == qmark(),
        wild_match(x + y, u.skip(j)),
    ensures
        match_some_suffix(y, u.skip(a + x.len())),
    decreases x.len(),
{
    if x.len() == 0 {
        assert(x + y == y);
        lemma_suffix_intro(y, u, a, j);
    } else {
        let c = x[0];
        let x1 = x.drop_first();
        assert((x + y).drop_first() == x1 + y);
        assert((x + y)[0] == c);
        assert forall|k: int| 0 <= k < x1.len() implies #[trigger] x1[k] == u[(a + 1) + k] || x1[k]
            == qmark() by {
            assert(x1[k] == x[k + 1]);
        }
        let s = u.skip(j);
        if c != star() {
            assert(s.drop_first() == u.skip(j + 1));
            lemma_shift(x1, y, u, a + 1, j + 1);
        } else {
            assert(x[0] == u[a + 0]);
            if s.len() > 0 && s[0] == star() {
                assert(s.drop_first() == u.skip(j + 1));
                lemma_shift(x1, y, u, a + 1, j + 1);
            } else {
                assert(j != a);
                let j2 = lemma_suffix_elim(x1 + y, u, j);
                lemma_shift(x1, y, u, a + 1, j2);
            }
        }
    }
}

/// A pattern starting with a star that matches some suffix from `t` on
/// matches from `t` itself when the text there does not start with a star.
proof fn lemma_star_absorbs(q: Seq<u8>, u: Seq<u8>, t: int)
    requires
        0 <= t <= u.len(),
        q.len() > 0,
        q[0] == star(),
        match_some_suffix(q, u.skip(t)),
        t == u.len() || u[t] != star(),
    ensures
        wild_match(q, u.skip(t)),
{
    let q1 = q.drop_first();
    let j = lemma_suffix_elim(q, u, t);
    let s = u.skip(j);
    if s.len() > 0 && s[0] == star() {
        assert(s.drop_first() == u.skip(j + 1));
        lemma_suffix_intro(q1, u, t, j + 1);
    } else {
        let j3 = lemma_suffix_elim(q1, u, j);
        lemma_suffix_intro(q1, u, t, j3);
    }
}

proof fn lemma_empty_text(p: Seq<u8>)
    ensures
        wild_match(p, seq![]) == (forall|k: int| 0 <= k < p.len() ==> #[trigger] p[k] == star()),
    decreases p.len(),
{
    if p.len() > 0 {
        lemma_empty_text(p.drop_first());
        if p[0] == star() {
            assert(match_some_suffix(p.drop_first(), seq![]) == wild_match(p.drop_first(), seq![]));
            assert forall|k: int| 1 <= k < p.len() implies #[trigger] p[k] == star() <==> p.drop_first()[k
                - 1] == star() by {}
            if !wild_match(p.drop_first(), seq![]) {
                let k = choose|k: int| 0 <= k < p.drop_first().len() && p.drop_first()[k] != star();
                assert(p[k + 1] != star());
            }
        }
    }
}

proof fn lemma_step_literal(pp: Seq<u8>, tt: Seq<u8>, p: int, t: int)
    requires
        0 <= p < pp.len(),
        0 <= t < tt.len(),
        pp[p] == tt[t] || pp[p] == qmark(),
    ensures
        wild_match(pp.skip(p), tt.skip(t)) == wild_match(pp.skip(p + 1), tt.skip(t + 1)),
{
    let ps = pp.skip(p);
    let ts = tt.skip(t);
    assert(ps[0] == pp[p]);
    assert(ts[0] == tt[t]);
    assert(ps.drop_first() == pp.skip(p + 1));
    assert(ts.drop_first() == tt.skip(t + 1));
}

proof fn lemma_step_mismatch(pp: Seq<u8>, tt: Seq<u8>, p: int, t: int)
    requires
        0 <= p <= pp.len(),
        0 <= t < tt.len(),
        p == pp.len() || (pp[p] != tt[t] && pp[p] != qmark() && pp[p] != star()),
    ensures
        !wild_match(pp.skip(p), tt.skip(t)),
{
    let ps = pp.skip(p);
    let ts = tt.skip(t);
    assert(ts[0] == tt[t]);
    if p < pp.len() {
        assert(ps[0] == pp[p]);
    }
}

proof fn lemma_step_backtrack(pp: Seq<u8>, tt: Seq<u8>, s: int, mi: int)
    requires
        0 <= s < pp.len(),
        0 <= mi < tt.len(),
    ensures
        match_some_suffix(pp.skip(s + 1), tt.skip(mi + 1)) == (wild_match(
            pp.skip(s + 1),
            tt.skip(mi + 1),
        ) || (mi + 1 < tt.len() && match_some_suffix(pp.skip(s + 1), tt.skip(mi + 2)))),
{
    let ts = tt.skip(mi + 1);
    if mi + 1 < tt.len() {
        assert(ts.drop_first() == tt.skip(mi + 2));
    }
}

/// The state invariant of the matcher: the bytes after the remembered star
/// were matched one for one against the text from `mi`.
pub open spec fn star_window(pp: Seq<u8>, tt: Seq<u8>, p: int, t: int, s: int, mi: int) -> bool {
    &&& 0 <= s < p
    &&& pp[s] == star()
    &&& 0 <= mi <= t
    &&& p - s - 1 == t - mi
    &&& forall|k: int| 0 <= k < p - s - 1 ==> #[trigger] pp[s + 1 + k] == tt[mi + k] || pp[s + 1 + k] == qmark()
}

proof fn lemma_window_reaches(pp: Seq<u8>, tt: Seq<u8>, p: int, t: int, s: int, mi: int)
    requires
        p <= pp.len(),
        t <= tt.len(),
        star_window(pp, tt, p, t, s, mi),
        mi < tt.len(),
        match_some_suffix(pp.skip(s + 1), tt.skip(mi + 1)),
    ensures
        match_some_suffix(pp.skip(p), tt.skip(t)),
{
    let x = pp.subrange(s + 1, p);
    let y = pp.skip(p);
    assert(x + y == pp.skip(s + 1));
    let j = lemma_suffix_elim(x + y, tt, mi + 1);
    assert forall|k: int| 0 <= k < x.len() implies #[trigger] x[k] == tt[mi + k] || x[k] == qmark() by {
        assert(x[k] == pp[s + 1 + k]);
    }
    lemma_shift(x, y, tt, mi, j);
}

proof fn lemma_step_star(pp: Seq<u8>, tt: Seq<u8>, p: int, t: int, has_star: bool, s: int, mi: int)
    requires
        0 <= p < pp.len(),
        0 <= t < tt.len(),
        pp[p] == star(),
        pp[p] != tt[t],
        has_star ==> star_window(pp, tt, p, t, s, mi),
    ensures
        (wild_match(pp.skip(p), tt.skip(t)) || (has_star && mi < tt.len() && match_some_suffix(
            pp.skip(s + 1),
            tt.skip(mi + 1),
        ))) == (wild_match(pp.skip(p + 1), tt.skip(t)) || (t < tt.len() && match_some_suffix(
            pp.skip(p + 1),
            tt.skip(t + 1),
        ))),
{
    let ps = pp.skip(p);
    let ts = tt.skip(t);
    assert(ps[0] == pp[p]);
    assert(ts[0] == tt[t]);
    assert(ps.drop_first() == pp.skip(p + 1));
    assert(ts.drop_first() == tt.skip(t + 1));
    assert(wild_match(ps, ts) == match_some_suffix(pp.skip(p + 1), ts));
    assert(match_some_suffix(pp.skip(p + 1), ts) == (wild_match(pp.skip(p + 1), ts) || match_some_suffix(
        pp.skip(p + 1),
        tt.skip(t + 1),
    )));
    if has_star && mi < tt.len() && match_some_suffix(pp.skip(s + 1), tt.skip(mi + 1)) {
        lemma_window_reaches(pp, tt, p, t, s, mi);
        lemma_star_absorbs(ps, tt, t);
    }
}

proof fn lemma_at_text_end(pp: Seq<u8>, tt: Seq<u8>, p: int, t: int, has_star: bool, s: int, mi: int)
    requires
        0 <= p <= pp.len(),
        t == tt.len(),
        has_star ==> star_window(pp, tt, p, t, s, mi),
    ensures
        (wild_match(pp.skip(p), tt.skip(t)) || (has_star && mi < tt.len() && match_some_suffix(
            pp.skip(s + 1),
            tt.skip(mi + 1),
        ))) == wild_match(pp.skip(p), seq![]),
{
    assert(tt.skip(t) =~= seq![]);
    if has_star && mi < tt.len() && match_some_suffix(pp.skip(s + 1), tt.skip(mi + 1)) {
        lemma_window_reaches(pp, tt, p, t, s, mi);
        let j2 = lemma_suffix_elim(pp.skip(p), tt, t);
        assert(tt.skip(j2) =~= seq![]);
    }
}

/// `pattern` matches `text`: the backtracking matcher that remembers the last
/// star seen.
pub fn wildcard_match(pattern: &[u8], text: &[u8]) -> (r: bool)
    ensures
        r == wild_match(pattern@, text@),
{
    let ghost pp = pattern@;
    let ghost tt = text@;
    let ghost ans = wild_match(pp, tt);
    let mut p: usize = 0;
    let mut t: usize = 0;
    let mut has_star = false;
    let mut star_index: usize = 0;
    let mut match_index: usize = 0;
    assert(pp.skip(0) == pp);
    assert(tt.skip(0) == tt);
    while t < text.len()
        invariant
            pp == pattern@,
            tt == text@,
            ans == wild_match(pp, tt),
            p <= pp.len(),
            t <= tt.len(),
            has_star ==> star_window(pp, tt, p as int, t as int, star_index as int, match_index as int),
            ans == (wild_match(pp.skip(p as int), tt.skip(t as int)) || (has_star && match_index
                < tt.len() && match_some_suffix(
                pp.skip(star_index + 1),
                tt.skip(match_index + 1),
            ))),
        decreases tt.len() + 1 - (if has_star {
            match_index + 1
        } else {
            0
        }), tt.len() - t, pp.len() - p,
    {
        if p < pattern.len() && (pattern[p] == text[t] || pattern[p] == 63u8) {
            proof {
                lemma_step_literal(pp, tt, p as int, t as int);
            }
            p = p + 1;
            t = t + 1;
        } else if p < pattern.len() && pattern[p] == 42u8 {
            proof {
                lemma_step_star(pp, tt, p as int, t as int, has_star, star_index as int, match_index as int);
            }
            has_star = true;
            star_index = p;
            p = p + 1;
            match_index = t;
        } else if has_star {
            proof {
                lemma_step_mismatch(pp, tt, p as int, t as int);
                lemma_step_backtrack(pp, tt, star_index as int, match_index as int);
            }
            p = star_index + 1;
            match_index = match_index + 1;
            t = match_index;
        } else {
            proof {
                lemma_step_mismatch(pp, tt, p as int, t as int);
            }
            return false;
        }
    }
    proof {
        lemma_at_text_end(pp, tt, p as int, t as int, has_star, star_index as int, match_index as int);
    }
    while p < pattern.len() && pattern[p] == 42u8
        invariant
            pp == pattern@,
            p <= pp.len(),
            ans == wild_match(pp.skip(p as int), seq![]),
        decreases pp.len() - p,
    {
        proof {
            let ps = pp.skip(p as int);
            assert(ps.drop_first() == pp.skip(p + 1));
            assert(match_some_suffix(ps.drop_first(), seq![]) == wild_match(ps.drop_first(), seq![]));
        }
        p = p + 1;
    }
    proof {
        lemma_empty_text(pp.skip(p as int));
        if p < pp.len() {
            assert(pp.skip(p as int)[0] == pp[p as int]);
        }
    }
    p == pattern.len()
}

/// On texts without `*`, the matcher is exactly glob matching.
pub proof fn lemma_wild_match_is_glob(p: Seq<u8>, t: Seq<u8>)
    requires
        forall|k: int| 0 <= k < t.len() ==> #[trigger] t[k] != star(),
    ensures
        wild_match(p, t) == glob(p, t),
    decreases p.len(), t.len(), 0nat,
{
    if t.len() > 0 {
        assert forall|k: int| 0 <= k < t.drop_first().len() implies #[trigger] t.drop_first()[k]
            != star() by {
            assert(t.drop_first()[k] == t[k + 1]);
        }
    }
    if p.len() == 0 {
    } else if p[0] == star() {
        lemma_suffix_is_glob_star(p.drop_first(), t);
        lemma_glob_star(p, t);
    } else if t.len() > 0 {
        lemma_wild_match_is_glob(p.drop_first(), t.drop_first());
    }
}

/// Glob matching of `*q` tries `q` on every suffix.
pub open spec fn glob_some_suffix(q: Seq<u8>, t: Seq<u8>) -> bool
    decreases t.len(),
{
    glob(q, t) || (t.len() > 0 && glob_some_suffix(q, t.drop_first()))
}

proof fn lemma_suffix_is_glob_star(q: Seq<u8>, t: Seq<u8>)
    requires
        forall|k: int| 0 <= k < t.len() ==> #[trigger] t[k] != star(),
    ensures
        match_some_suffix(q, t) == glob_some_suffix(q, t),
    decreases q.len(), t.len(), 1nat,
{
    lemma_wild_match_is_glob(q, t);
    if t.len() > 0 {
        assert forall|k: int| 0 <= k < t.drop_first().len() implies #[trigger] t.drop_first()[k]
            != star() by {
            assert(t.drop_first()[k] == t[k + 1]);
        }
        lemma_suffix_is_glob_star(q, t.drop_first());
    }
}

proof fn lemma_glob_star(p: Seq<u8>, t: Seq<u8>)
    requires
        p.len() > 0,
        p[0] == star(),
    ensures
        glob(p, t) == glob_some_suffix(p.drop_first(), t),
    decreases t.len(),
{
    if t.len() > 0 {
        lemma_glob_star(p, t.drop_first());
    }
}

} // verus!
