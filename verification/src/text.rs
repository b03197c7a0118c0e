//! Character-level text helpers shared by the search index, the log parsers
//! and the formatters: ASCII classification, case folding, word splitting,
//! substring search, lexicographic order and decimal rendering.
use vstd::prelude::*;

verus! {

pub open spec fn is_ascii_upper(c: char) -> bool {
    'A' <= c && c <= 'Z'
}

pub open spec fn is_ascii_lower(c: char) -> bool {
    'a' <= c && c <= 'z'
}

pub open spec fn is_ascii_digit(c: char) -> bool {
    '0' <= c && c <= '9'
}

pub open spec fn is_ascii_alnum(c: char) -> bool {
    is_ascii_upper(c) || is_ascii_lower(c) || is_ascii_digit(c)
}

/// ASCII lowercase of one character; every other character is kept.
pub open spec fn lower_char(c: char) -> char {
    if is_ascii_upper(c) {
        ((c as u32) + 32) as char
    } else {
        c
    }
}

/// `str::to_ascii_lowercase` on the character level.
pub open spec fn ascii_lower(s: Seq<char>) -> Seq<char> {
    s.map_values(|c: char| lower_char(c))
}

/// Lowercasing twice is lowercasing once.
pub proof fn lemma_ascii_lower_idempotent(s: Seq<char>)
    ensures
        ascii_lower(ascii_lower(s)) == ascii_lower(s),
{
    assert(ascii_lower(ascii_lower(s)) =~= ascii_lower(s));
}

/// Character used by the search normaliser: lowercase ASCII letters and digits
/// stay, everything else becomes a space.
pub open spec fn norm_char(c: char) -> char {
    if is_ascii_alnum(c) {
        lower_char(c)
    } else {
        ' '
    }
}

/// The maximal runs of non-space characters of `t`, left to right.
pub open spec fn words(t: Seq<char>) -> Seq<Seq<char>>
    decreases t.len(),
{
    if t.len() == 0 {
        seq![]
    } else {
        let w = words(t.drop_last());
        let c = t.last();
        if c == ' ' {
            w
        } else if t.len() >= 2 && t[t.len() - 2] != ' ' {
            w.drop_last().push(w.last().push(c))
        } else {
            w.push(seq![c])
        }
    }
}

/// The words joined by single spaces.
pub open spec fn join_words(ws: Seq<Seq<char>>) -> Seq<char>
    decreases ws.len(),
{
    if ws.len() == 0 {
        seq![]
    } else if ws.len() == 1 {
        ws[0]
    } else {
        join_words(ws.drop_last()) + seq![' '] + ws.last()
    }
}

/// Lowercase ASCII words of `s` (separated by anything that is not an ASCII
/// letter or digit), joined by single spaces.
pub open spec fn normalize_spec(s: Seq<char>) -> Seq<char> {
    join_words(words(s.map_values(|c: char| norm_char(c))))
}

/// `needle` occurs as a contiguous block of `hay`.
pub open spec fn has_substring(hay: Seq<char>, needle: Seq<char>) -> bool {
    exists|i: int|
        0 <= i && i + needle.len() <= hay.len() && #[trigger] hay.subrange(i, i + needle.len())
            == needle
}

/// Lexicographic order on characters by code point (the order of `str`).
pub open spec fn lex_le(a: Seq<char>, b: Seq<char>) -> bool
    decreases a.len(),
{
    if a.len() == 0 {
        true
    } else if b.len() == 0 {
        false
    } else if a[0] != b[0] {
        a[0] < b[0]
    } else {
        lex_le(a.drop_first(), b.drop_first())
    }
}

pub open spec fn digit_char(d: int) -> char {
    ((d + 48) as u32) as char
}

/// Decimal digits of `n`, most significant first, without leading zeros.
pub open spec fn decimal(n: nat) -> Seq<char>
    decreases n,
{
    if n < 10 {
        seq![digit_char(n as int)]
    } else {
        decimal(n / 10).push(digit_char((n % 10) as int))
    }
}

/// Decimal digits of `n`, left-padded with zeros to at least `width` characters.
pub open spec fn decimal_padded(n: nat, width: nat) -> Seq<char> {
    let d = decimal(n);
    if d.len() >= width {
        d
    } else {
        Seq::new((width - d.len()) as nat, |i: int| '0') + d
    }
}

// ---------------------------------------------------------------------------
// Lemmas on words / join_words
// ---------------------------------------------------------------------------
/// No word of a text is empty.
pub proof fn lemma_words_nonempty(t: Seq<char>)
    ensures
        forall|i: int| 0 <= i < words(t).len() ==> #[trigger] words(t)[i].len() > 0,
        forall|i: int, j: int|
            0 <= i < words(t).len() && 0 <= j < words(t)[i].len() ==> #[trigger] words(t)[i][j]
                != ' ',
        t.len() > 0 && t.last() != ' ' ==> words(t).len() > 0,
    decreases t.len(),
{
    if t.len() > 0 {
        lemma_words_nonempty(t.drop_last());
        let w = words(t.drop_last());
        if t.len() >= 2 && t[t.len() - 2] != ' ' {
            assert(t.drop_last().last() == t[t.len() - 2]);
        }
    }
}

/// Joining no words gives the empty text.
pub proof fn lemma_join_empty(ws: Seq<Seq<char>>)
    requires
        forall|i: int| 0 <= i < ws.len() ==> #[trigger] ws[i].len() > 0,
    ensures
        (join_words(ws).len() == 0) == (ws.len() == 0),
    decreases ws.len(),
{
    if ws.len() > 1 {
        lemma_join_empty(ws.drop_last());
    }
}

/// Extending the last word by one character extends the joined text by it.
pub proof fn lemma_join_extend_last(ws: Seq<Seq<char>>, c: char)
    requires
        ws.len() > 0,
    ensures
        join_words(ws.drop_last().push(ws.last().push(c))) == join_words(ws).push(c),
    decreases ws.len(),
{
    let ws2 = ws.drop_last().push(ws.last().push(c));
    if ws.len() == 1 {
        assert(ws2.len() == 1);
    } else {
        assert(ws2.drop_last() == ws.drop_last());
        assert(join_words(ws2) == join_words(ws.drop_last()) + seq![' '] + ws.last().push(c));
    }
}

/// Joining one more word adds a space and the word.
pub proof fn lemma_join_push(ws: Seq<Seq<char>>, w: Seq<char>)
    ensures
        join_words(ws.push(w)) == (if ws.len() == 0 {
            w
        } else {
            join_words(ws) + seq![' '] + w
        }),
{
    assert(ws.push(w).drop_last() == ws);
}

/// The words of a single-space join of spaceless, non-empty words are those words.
pub proof fn lemma_words_of_join(ws: Seq<Seq<char>>)
    requires
        forall|i: int| 0 <= i < ws.len() ==> #[trigger] ws[i].len() > 0,
        forall|i: int, j: int| 0 <= i < ws.len() && 0 <= j < ws[i].len() ==> #[trigger] ws[i][j] != ' ',
    ensures
        words(join_words(ws)) == ws,
    decreases ws.len(),
{
    if ws.len() == 0 {
    } else if ws.len() == 1 {
        lemma_words_of_word(seq![], ws[0], ws[0].len() as int);
        assert(ws[0].take(ws[0].len() as int) == ws[0]);
        assert(Seq::<char>::empty() + ws[0] == ws[0]);
        assert(seq![].push(ws[0]) == ws);
    } else {
        let init = ws.drop_last();
        lemma_words_of_join(init);
        let j = join_words(init);
        lemma_join_empty(init);
        let js = j + seq![' '];
        assert(js.drop_last() == j);
        assert(words(js) == init);
        assert(js.last() == ' ');
        lemma_words_of_word(js, ws.last(), ws.last().len() as int);
        assert(ws.last().take(ws.last().len() as int) == ws.last());
        assert(init.push(ws.last()) == ws);
    }
}

/// Appending a spaceless word `w` (its first `k` characters) after a prefix that is
/// empty or ends in a space adds it as one new word.
pub proof fn lemma_words_of_word(pre: Seq<char>, w: Seq<char>, k: int)
    requires
        pre.len() == 0 || pre.last() == ' ',
        1 <= k <= w.len(),
        forall|j: int| 0 <= j < w.len() ==> #[trigger] w[j] != ' ',
    ensures
        words(pre + w.take(k)) == words(pre).push(w.take(k)),
    decreases k,
{
    let t = pre + w.take(k);
    assert(t.drop_last() == pre + w.take(k - 1));
    assert(t.last() == w[k - 1]);
    if k == 1 {
        assert(pre + w.take(0) == pre);
        assert(w.take(1) == seq![w[0]]);
    } else {
        lemma_words_of_word(pre, w, k - 1);
        assert(t[t.len() - 2] == w[k - 2]);
        let ws = words(pre).push(w.take(k - 1));
        assert(ws.drop_last() == words(pre));
        assert(w.take(k - 1).push(w[k - 1]) == w.take(k));
    }
}

/// Normalising twice is normalising once.
pub proof fn lemma_normalize_idempotent(s: Seq<char>)
    ensures
        normalize_spec(normalize_spec(s)) == normalize_spec(s),
{
    let m = s.map_values(|c: char| norm_char(c));
    let ws = words(m);
    lemma_words_nonempty(m);
    assert forall|i: int, j: int| 0 <= i < ws.len() && 0 <= j < ws[i].len() implies #[trigger] ws[i][j]
        == norm_char(ws[i][j]) by {
        lemma_words_chars_from(m, i, j);
    }
    let n = join_words(ws);
    lemma_join_fixed(ws);
    let n2 = n.map_values(|c: char| norm_char(c));
    assert(n2 == n);
    lemma_words_of_join(ws);
}

/// Every character of a word of `t` is a character of `t`.
pub proof fn lemma_words_chars_from(t: Seq<char>, i: int, j: int)
    requires
        0 <= i < words(t).len(),
        0 <= j < words(t)[i].len(),
        forall|k: int| 0 <= k < t.len() ==> norm_char(#[trigger] t[k]) == t[k],
    ensures
        norm_char(words(t)[i][j]) == words(t)[i][j],
    decreases t.len(),
{
    let w = words(t.drop_last());
    assert forall|k: int| 0 <= k < t.drop_last().len() implies norm_char(
        #[trigger] t.drop_last()[k],
    ) == t.drop_last()[k] by {
        assert(t.drop_last()[k] == t[k]);
    }
    let c = t.last();
    assert(norm_char(c) == c);
    if c == ' ' {
        lemma_words_chars_from(t.drop_last(), i, j);
    } else if t.len() >= 2 && t[t.len() - 2] != ' ' {
        lemma_words_nonempty(t.drop_last());
        assert(t.drop_last().last() == t[t.len() - 2]);
        if i < w.len() - 1 {
            lemma_words_chars_from(t.drop_last(), i, j);
        } else if j < w.last().len() {
            lemma_words_chars_from(t.drop_last(), w.len() - 1, j);
        }
    } else {
        if i < w.len() {
            lemma_words_chars_from(t.drop_last(), i, j);
        }
    }
}

/// A join of words whose characters are fixed by `norm_char` is fixed too.
pub proof fn lemma_join_fixed(ws: Seq<Seq<char>>)
    requires
        forall|i: int, j: int|
            0 <= i < ws.len() && 0 <= j < ws[i].len() ==> #[trigger] ws[i][j] == norm_char(ws[i][j]),
    ensures
        join_words(ws).map_values(|c: char| norm_char(c)) == join_words(ws),
    decreases ws.len(),
{
    let n = join_words(ws);
    if ws.len() == 0 {
    } else if ws.len() == 1 {
        assert forall|k: int| 0 <= k < n.len() implies #[trigger] norm_char(n[k]) == n[k] by {
            assert(ws[0][k] == norm_char(ws[0][k]));
        }
    } else {
        lemma_join_fixed(ws.drop_last());
        let a = join_words(ws.drop_last());
        assert forall|k: int| 0 <= k < n.len() implies #[trigger] norm_char(n[k]) == n[k] by {
            if k < a.len() {
                assert(a.map_values(|c: char| norm_char(c))[k] == a[k]);
            } else if k > a.len() {
                let j = k - a.len() - 1;
                assert(ws[ws.len() - 1][j] == norm_char(ws[ws.len() - 1][j]));
            }
        }
    }
    assert(n.map_values(|c: char| norm_char(c)) =~= n);
}

// ---------------------------------------------------------------------------
// Executable helpers
// ---------------------------------------------------------------------------
/// `String::push`: appends one character at the end of the string.
#[verifier::external_body]
pub(crate) fn push_char(s: &mut String, c: char)
    ensures
        final(s)@ == old(s)@.push(c),
{
    s.push(c);
}

/// The string of the characters.
pub fn string_from_chars(v: &Vec<char>) -> (r: String)
    ensures
        r@ == v@,
{
    let mut r = String::new();
    for i in 0..v.len()
        invariant
            r@ == v@.take(i as int),
    {
        push_char(&mut r, v[i]);
        assert(v@.take(i as int).push(v@[i as int]) == v@.take(i + 1));
    }
    assert(v@.take(v.len() as int) == v@);
    r
}

/// Appends the characters of `src` to `dst`.
pub fn append_str(dst: &mut String, src: &str)
    ensures
        final(dst)@ == old(dst)@ + src@,
{
    let ghost start = dst@;
    for c in it: src.chars()
        invariant
            it.seq() == src@,
            it.index() <= src@.len(),
            dst@ == start + src@.take(it.index() as int),
    {
        push_char(dst, c);
        assert(src@.take(it.index() as int).push(c) == src@.take(it.index() + 1));
    }
    assert(src@.take(src@.len() as int) == src@);
}

/// The characters of a string.
pub fn chars_of(s: &str) -> (r: Vec<char>)
    ensures
        r@ == s@,
{
    let mut r: Vec<char> = Vec::new();
    for c in it: s.chars()
        invariant
            it.seq() == s@,
            it.index() <= s@.len(),
            r@ == s@.take(it.index() as int),
    {
        r.push(c);
        assert(s@.take(it.index() as int).push(c) == s@.take(it.index() + 1));
    }
    assert(s@.take(s@.len() as int) == s@);
    r
}

/// ASCII lowercase of a character.
pub fn to_lower_char(c: char) -> (r: char)
    ensures
        r == lower_char(c),
{
    if 'A' <= c && c <= 'Z' {
        let b: u8 = (c as u32) as u8;
        ((b + 32) as u8) as char
    } else {
        c
    }
}

/// The character is an ASCII letter or digit.
pub fn is_alnum_char(c: char) -> (r: bool)
    ensures
        r == is_ascii_alnum(c),
{
    ('A' <= c && c <= 'Z') || ('a' <= c && c <= 'z') || ('0' <= c && c <= '9')
}

/// `str::to_ascii_lowercase`, as characters.
pub fn lowercase_chars(s: &str) -> (r: Vec<char>)
    ensures
        r@ == ascii_lower(s@),
{
    let mut r: Vec<char> = Vec::new();
    for c in it: s.chars()
        invariant
            it.seq() == s@,
            it.index() <= s@.len(),
            r@ == ascii_lower(s@.take(it.index() as int)),
    {
        r.push(to_lower_char(c));
        assert(ascii_lower(s@.take(it.index() as int)).push(lower_char(c)) == ascii_lower(
            s@.take(it.index() + 1),
        ));
    }
    assert(s@.take(s@.len() as int) == s@);
    r
}

/// Words of the text made of lowercase ASCII letters and digits, joined by
/// single spaces (the search index's normal form).
pub fn normalize(value: &str) -> (r: Vec<char>)
    ensures
        r@ == normalize_spec(value@),
{
    let mut out: Vec<char> = Vec::new();
    let mut pending = false;
    let mut in_word = false;
    let ghost f = |c: char| norm_char(c);
    for c in it: value.chars()
        invariant
            it.seq() == value@,
            it.index() <= value@.len(),
            f == (|c: char| norm_char(c)),
            out@ == join_words(words(value@.take(it.index() as int).map_values(f))),
            pending == ({
                let m = value@.take(it.index() as int).map_values(f);
                m.len() > 0 && m.last() == ' ' && words(m).len() > 0
            }),
            in_word == ({
                let m = value@.take(it.index() as int).map_values(f);
                m.len() > 0 && m.last() != ' '
            }),
    {
        let ghost m = value@.take(it.index() as int).map_values(f);
        let ghost m2 = value@.take(it.index() + 1).map_values(f);
        let d = if is_alnum_char(c) {
            to_lower_char(c)
        } else {
            ' '
        };
        assert(m2 == m.push(d));
        assert(m2.drop_last() == m);
        proof {
            lemma_words_nonempty(m);
            lemma_join_empty(words(m));
        }
        if d == ' ' {
            if out.len() > 0 {
                pending = true;
            }
        } else {
            if in_word {
                proof {
                    lemma_join_extend_last(words(m), d);
                }
            } else {
                proof {
                    lemma_join_push(words(m), seq![d]);
                }
                if pending {
                    out.push(' ');
                    pending = false;
                }
            }
            out.push(d);
        }
        in_word = d != ' ';
    }
    assert(value@.take(value@.len() as int) == value@);
    out
}

/// Splits a character sequence into its words (runs of non-space characters).
pub fn split_words(t: &Vec<char>) -> (r: Vec<Vec<char>>)
    ensures
        r@.len() == words(t@).len(),
        forall|i: int| 0 <= i < r@.len() ==> #[trigger] r@[i]@ == words(t@)[i],
{
    let mut r: Vec<Vec<char>> = Vec::new();
    let mut i: usize = 0;
    while i < t.len()
        invariant
            i <= t.len(),
            r@.len() == words(t@.take(i as int)).len(),
            forall|k: int| 0 <= k < r@.len() ==> #[trigger] r@[k]@ == words(t@.take(i as int))[k],
        decreases t.len() - i,
    {
        let c = t[i];
        let ghost p = t@.take(i as int);
        let ghost p2 = t@.take(i + 1);
        assert(p2.drop_last() == p);
        assert(p2.last() == c);
        if c == ' ' {
        } else if i >= 1 && t[i - 1] != ' ' {
            assert(p2[p2.len() - 2] == t@[i - 1]);
            proof {
                lemma_words_nonempty(p);
                assert(p.last() == t@[i - 1]);
            }
            let last = r.len() - 1;
            let mut w = r.pop().unwrap();
            w.push(c);
            r.push(w);
            assert(words(p2) == words(p).drop_last().push(words(p).last().push(c)));
            assert forall|k: int| 0 <= k < r@.len() implies #[trigger] r@[k]@ == words(p2)[k] by {
                if k < last {
                }
            }
        } else {
            if i >= 1 {
                assert(p2[p2.len() - 2] == t@[i - 1]);
            }
            let mut w: Vec<char> = Vec::new();
            w.push(c);
            assert(w@ == seq![c]);
            r.push(w);
        }
        i = i + 1;
    }
    assert(t@.take(t.len() as int) == t@);
    r
}

/// `hay` contains `needle` starting at `start`.
pub fn occurs_at(hay: &Vec<char>, needle: &Vec<char>, start: usize) -> (r: bool)
    requires
        start + needle.len() <= hay.len(),
    ensures
        r == (hay@.subrange(start as int, start + needle.len()) == needle@),
{
    let mut j: usize = 0;
    while j < needle.len()
        invariant
            j <= needle.len(),
            start + needle.len() <= hay.len(),
            forall|k: int| 0 <= k < j ==> hay@[start + k] == needle@[k],
        decreases needle.len() - j,
    {
        if hay[start + j] != needle[j] {
            assert(hay@.subrange(start as int, start + needle.len())[j as int] != needle@[j as int]);
            return false;
        }
        j = j + 1;
    }
    assert(hay@.subrange(start as int, start + needle.len()) =~= needle@);
    true
}

/// `str::contains` on character sequences.
pub fn contains_chars(hay: &Vec<char>, needle: &Vec<char>) -> (r: bool)
    ensures
        r == has_substring(hay@, needle@),
{
    if needle.len() == 0 {
        assert(hay@.subrange(0int, 0int + needle@.len()) =~= needle@);
        return true;
    }
    if needle.len() > hay.len() {
        return false;
    }
    let last = hay.len() - needle.len();
    let mut i: usize = 0;
    while i <= last
        invariant
            needle.len() >= 1,
            last + needle.len() == hay.len(),
            i <= hay.len(),
            forall|k: int|
                0 <= k < i ==> #[trigger] hay@.subrange(k, k + needle.len()) != needle@,
        decreases hay.len() - i,
    {
        if occurs_at(hay, needle, i) {
            return true;
        }
        i = i + 1;
    }
    false
}

/// The two texts are equal.
pub fn chars_eq(a: &Vec<char>, b: &Vec<char>) -> (r: bool)
    ensures
        r == (a@ == b@),
{
    if a.len() != b.len() {
        return false;
    }
    assert(a@.subrange(0, b.len() as int) == a@);
    occurs_at(a, b, 0)
}

/// `a <= b` in the order of `str`.
pub fn lex_le_chars(a: &Vec<char>, b: &Vec<char>) -> (r: bool)
    ensures
        r == lex_le(a@, b@),
{
    let mut i: usize = 0;
    assert(a@.skip(0) == a@);
    assert(b@.skip(0) == b@);
    while i < a.len()
        invariant
            i <= a.len(),
            i <= b.len(),
            a@.take(i as int) == b@.take(i as int),
            lex_le(a@, b@) == lex_le(a@.skip(i as int), b@.skip(i as int)),
        decreases a.len() - i,
    {
        if i == b.len() {
            return false;
        }
        assert(a@.skip(i as int)[0] == a@[i as int]);
        assert(b@.skip(i as int)[0] == b@[i as int]);
        if a[i] != b[i] {
            return a[i] < b[i];
        }
        assert(a@.skip(i as int).drop_first() == a@.skip(i + 1));
        assert(b@.skip(i as int).drop_first() == b@.skip(i + 1));
        assert(a@.take(i + 1) == a@.take(i as int).push(a@[i as int]));
        assert(b@.take(i + 1) == b@.take(i as int).push(b@[i as int]));
        i = i + 1;
    }
    true
}

/// Any two texts are ordered one way or the other.
pub proof fn lemma_lex_total(a: Seq<char>, b: Seq<char>)
    ensures
        lex_le(a, b) || lex_le(b, a),
    decreases a.len(),
{
    if a.len() > 0 && b.len() > 0 && a[0] == b[0] {
        lemma_lex_total(a.drop_first(), b.drop_first());
    }
}

/// The `str` order is transitive.
pub proof fn lemma_lex_trans(a: Seq<char>, b: Seq<char>, c: Seq<char>)
    requires
        lex_le(a, b),
        lex_le(b, c),
    ensures
        lex_le(a, c),
    decreases a.len(),
{
    if a.len() > 0 && b.len() > 0 && c.len() > 0 && a[0] == b[0] && b[0] == c[0] {
        lemma_lex_trans(a.drop_first(), b.drop_first(), c.drop_first());
    }
}

// ---------------------------------------------------------------------------
// Whitespace trimming and line splitting
// ---------------------------------------------------------------------------
/// `char::is_whitespace`: the Unicode White_Space characters.
pub open spec fn is_white(c: char) -> bool {
    ('\t' <= c && c <= '\r') || c == ' ' || c == '\u{85}' || c == '\u{A0}' || c == '\u{1680}' || (
    '\u{2000}' <= c && c <= '\u{200A}') || c == '\u{2028}' || c == '\u{2029}' || c == '\u{202F}'
        || c == '\u{205F}' || c == '\u{3000}'
}

/// The character is whitespace.
pub fn is_white_char(c: char) -> (r: bool)
    ensures
        r == is_white(c),
{
    ('\t' <= c && c <= '\r') || c == ' ' || c == '\u{85}' || c == '\u{A0}' || c == '\u{1680}' || (
    '\u{2000}' <= c && c <= '\u{200A}') || c == '\u{2028}' || c == '\u{2029}' || c == '\u{202F}'
        || c == '\u{205F}' || c == '\u{3000}'
}

/// `str::trim`: `s` without its leading and trailing whitespace.
pub open spec fn trim_spec(s: Seq<char>) -> Seq<char> {
    if forall|k: int| 0 <= k < s.len() ==> is_white(#[trigger] s[k]) {
        seq![]
    } else {
        let a = choose|a: int|
            0 <= a < s.len() && !is_white(s[a]) && forall|k: int| 0 <= k < a ==> is_white(#[trigger] s[k]);
        let b = choose|b: int|
            0 <= b < s.len() && !is_white(s[b]) && forall|k: int| b < k < s.len() ==> is_white(#[trigger] s[k]);
        s.subrange(a, b + 1)
    }
}

/// `str::trim` on characters.
pub fn trim_chars(s: &Vec<char>) -> (r: Vec<char>)
    ensures
        r@ == trim_spec(s@),
{
    let mut a: usize = 0;
    while a < s.len() && is_white_char(s[a])
        invariant
            a <= s.len(),
            forall|k: int| 0 <= k < a ==> is_white(#[trigger] s@[k]),
        decreases s.len() - a,
    {
        a = a + 1;
    }
    if a == s.len() {
        return Vec::new();
    }
    let mut b: usize = s.len() - 1;
    while b > a && is_white_char(s[b])
        invariant
            a <= b < s.len(),
            !is_white(s@[a as int]),
            forall|k: int| b < k < s@.len() ==> is_white(#[trigger] s@[k]),
        decreases b,
    {
        b = b - 1;
    }
    assert(!is_white(s@[b as int]));
    let ghost a0 = choose|x: int|
        0 <= x < s@.len() && !is_white(s@[x]) && forall|k: int| 0 <= k < x ==> is_white(#[trigger] s@[k]);
    let ghost b0 = choose|x: int|
        0 <= x < s@.len() && !is_white(s@[x]) && forall|k: int| x < k < s@.len() ==> is_white(#[trigger] s@[k]);
    assert(a0 == a) by {
        if a0 < a {
            assert(is_white(s@[a0]));
        }
        if a0 > a {
            assert(is_white(s@[a as int]));
        }
    }
    assert(b0 == b) by {
        if b0 < b {
            assert(is_white(s@[b as int]));
        }
        if b0 > b {
            assert(is_white(s@[b0]));
        }
    }
    let mut r: Vec<char> = Vec::new();
    let mut i = a;
    while i <= b
        invariant
            a <= i <= b + 1,
            b < s.len(),
            r@ == s@.subrange(a as int, i as int),
        decreases b + 1 - i,
    {
        r.push(s[i]);
        assert(s@.subrange(a as int, i + 1) == s@.subrange(a as int, i as int).push(s@[i as int]));
        i = i + 1;
    }
    r
}

/// `s` without its trailing `\n` and `\r` characters (`trim_end_matches(['\n', '\r'])`).
pub open spec fn trim_line_end_spec(s: Seq<char>) -> Seq<char>
    decreases s.len(),
{
    if s.len() > 0 && (s.last() == '\n' || s.last() == '\r') {
        trim_line_end_spec(s.drop_last())
    } else {
        s
    }
}

/// The line without its trailing line-end characters.
pub fn trim_line_end(s: &str) -> (r: String)
    ensures
        r@ == trim_line_end_spec(s@),
{
    let v = chars_of(s);
    let mut n = v.len();
    assert(v@.take(v@.len() as int) == v@);
    while n > 0 && (v[n - 1] == '\n' || v[n - 1] == '\r')
        invariant
            n <= v.len(),
            trim_line_end_spec(v@) == trim_line_end_spec(v@.take(n as int)),
        decreases n,
    {
        assert(v@.take(n as int).drop_last() == v@.take(n - 1));
        n = n - 1;
    }
    assert(v@.take(v@.len() as int) == v@);
    let mut r = String::new();
    for i in 0..n
        invariant
            n <= v.len(),
            r@ == v@.take(i as int),
    {
        push_char(&mut r, v[i]);
        assert(v@.take(i + 1) == v@.take(i as int).push(v@[i as int]));
    }
    r
}

/// Position of the first `\n`, if any.
pub open spec fn first_newline(s: Seq<char>) -> int
    decreases s.len(),
{
    if s.len() == 0 {
        -1
    } else if s[0] == '\n' {
        0
    } else {
        let k = first_newline(s.drop_first());
        if k < 0 {
            -1
        } else {
            k + 1
        }
    }
}

/// A line without its `\n`, and without the `\r` of a `\r\n` ending.
pub open spec fn strip_cr(line: Seq<char>) -> Seq<char> {
    if line.len() > 0 && line.last() == '\r' {
        line.drop_last()
    } else {
        line
    }
}

/// `str::lines`: the text split at `\n` and `\r\n` endings; a final ending
/// does not start an empty last line.
pub open spec fn lines_spec(s: Seq<char>) -> Seq<Seq<char>>
    decreases s.len(),
{
    if s.len() == 0 {
        seq![]
    } else {
        let i = first_newline(s);
        if i < 0 {
            seq![s]
        } else {
            proof {
                lemma_first_newline_range(s);
            }
            seq![strip_cr(s.take(i))] + lines_spec(s.skip(i + 1))
        }
    }
}

/// The first line break of a text lies within it.
pub proof fn lemma_first_newline_range(s: Seq<char>)
    ensures
        -1 <= first_newline(s) < s.len(),
    decreases s.len(),
{
    if s.len() > 0 {
        lemma_first_newline_range(s.drop_first());
    }
}

proof fn lemma_first_newline(s: Seq<char>, i: int)
    requires
        0 <= i <= s.len(),
        forall|k: int| 0 <= k < i ==> #[trigger] s[k] != '\n',
    ensures
        i < s.len() && s[i] == '\n' ==> first_newline(s) == i,
        i == s.len() ==> first_newline(s) == -1,
    decreases i,
{
    if i > 0 {
        assert forall|k: int| 0 <= k < i - 1 implies #[trigger] s.drop_first()[k] != '\n' by {
            assert(s.drop_first()[k] == s[k + 1]);
        }
        lemma_first_newline(s.drop_first(), i - 1);
        assert(s[0] != '\n');
        if i < s.len() {
            assert(s.drop_first()[i - 1] == s[i]);
        }
    }
}

/// `str::lines` on characters.
pub fn split_lines(s: &str) -> (r: Vec<String>)
    ensures
        r@.len() == lines_spec(s@).len(),
        forall|k: int| 0 <= k < r@.len() ==> #[trigger] r@[k]@ == lines_spec(s@)[k],
{
    let v = chars_of(s);
    let mut out: Vec<String> = Vec::new();
    let ghost mut done: Seq<Seq<char>> = seq![];
    let mut cur: Vec<char> = Vec::new();
    let mut seg: usize = 0;
    let mut i: usize = 0;
    assert(v@.skip(0) == v@);
    assert(Seq::<Seq<char>>::empty() + lines_spec(v@) == lines_spec(v@));
    while i < v.len()
        invariant
            v@ == s@,
            seg <= i <= v.len(),
            cur@ == v@.subrange(seg as int, i as int),
            forall|k: int| seg <= k < i ==> #[trigger] v@[k] != '\n',
            out@.len() == done.len(),
            forall|k: int| 0 <= k < out@.len() ==> #[trigger] out@[k]@ == done[k],
            lines_spec(v@) == done + lines_spec(v@.skip(seg as int)),
        decreases v.len() - i,
    {
        let c = v[i];
        if c == '\n' {
            let ghost rest = v@.skip(seg as int);
            proof {
                assert forall|k: int| 0 <= k < i - seg implies #[trigger] rest[k] != '\n' by {
                    assert(rest[k] == v@[seg + k]);
                }
                lemma_first_newline(rest, i - seg);
                assert(rest.take(i - seg) == cur@);
                assert(rest.skip(i - seg + 1) == v@.skip(i + 1));
            }
            let mut n = cur.len();
            if n > 0 && cur[n - 1] == '\r' {
                n = n - 1;
            }
            let mut line = String::new();
            for j in 0..n
                invariant
                    n <= cur.len(),
                    line@ == cur@.take(j as int),
            {
                push_char(&mut line, cur[j]);
                assert(cur@.take(j + 1) == cur@.take(j as int).push(cur@[j as int]));
            }
            assert(line@ == strip_cr(cur@));
            out.push(line);
            proof {
                done = done.push(strip_cr(cur@));
                assert(done == done.drop_last() + seq![strip_cr(cur@)]);
            }
            cur = Vec::new();
            seg = i + 1;
            assert(cur@ == v@.subrange(seg as int, (i + 1) as int));
        } else {
            cur.push(c);
            assert(v@.subrange(seg as int, i + 1) == v@.subrange(seg as int, i as int).push(c));
        }
        i = i + 1;
    }
    let ghost rest = v@.skip(seg as int);
    if seg < v.len() {
        proof {
            assert forall|k: int| 0 <= k < rest.len() implies #[trigger] rest[k] != '\n' by {
                assert(rest[k] == v@[seg + k]);
            }
            lemma_first_newline(rest, rest.len() as int);
            assert(rest == cur@);
        }
        out.push(string_from_chars(&cur));
        proof {
            done = done.push(cur@);
        }
    } else {
        assert(rest.len() == 0);
    }
    assert(lines_spec(v@) == done);
    out
}

/// `needle` is a prefix of `hay`.
pub fn starts_with_chars(hay: &Vec<char>, needle: &Vec<char>) -> (r: bool)
    ensures
        r == (needle@.len() <= hay@.len() && hay@.take(needle@.len() as int) == needle@),
{
    if needle.len() > hay.len() {
        return false;
    }
    assert(hay@.subrange(0, needle@.len() as int) == hay@.take(needle@.len() as int));
    occurs_at(hay, needle, 0)
}

/// `needle` is a suffix of `hay`.
pub fn ends_with_chars(hay: &Vec<char>, needle: &Vec<char>) -> (r: bool)
    ensures
        r == (needle@.len() <= hay@.len() && hay@.skip(hay@.len() - needle@.len()) == needle@),
{
    if needle.len() > hay.len() {
        return false;
    }
    let start = hay.len() - needle.len();
    assert(hay@.subrange(start as int, start + needle.len()) == hay@.skip(start as int));
    occurs_at(hay, needle, start)
}

/// `str::contains` of a literal in a text.
pub fn str_contains(hay: &str, needle: &str) -> (r: bool)
    ensures
        r == has_substring(hay@, needle@),
{
    contains_chars(&chars_of(hay), &chars_of(needle))
}

} // verus!
