//! Character-level text handling: Unicode whitespace, trimming, tokens and
//! lines, stated over the character sequence of a string.
use vstd::prelude::*;

verus! {

broadcast use vstd::string::group_string_axioms;

/// Unicode `White_Space` characters, the set that `char::is_whitespace`,
/// `str::trim` and `str::split_whitespace` use.
pub open spec fn is_whitespace(c: char) -> bool {
    ||| ('\u{9}' <= c && c <= '\u{d}')
    ||| c == ' '
    ||| c == '\u{85}'
    ||| c == '\u{a0}'
    ||| c == '\u{1680}'
    ||| ('\u{2000}' <= c && c <= '\u{200a}')
    ||| c == '\u{2028}'
    ||| c == '\u{2029}'
    ||| c == '\u{202f}'
    ||| c == '\u{205f}'
    ||| c == '\u{3000}'
}

/// Whether `c` is a Unicode whitespace character.
pub fn is_whitespace_char(c: char) -> (r: bool)
    ensures
        r == is_whitespace(c),
{
    ('\u{9}' <= c && c <= '\u{d}') || c == ' ' || c == '\u{85}' || c == '\u{a0}' || c == '\u{1680}'
        || ('\u{2000}' <= c && c <= '\u{200a}') || c == '\u{2028}' || c == '\u{2029}' || c
        == '\u{202f}' || c == '\u{205f}' || c == '\u{3000}'
}

/// The characters of `s`, in order.
pub fn chars_of(s: &str) -> (v: Vec<char>)
    ensures
        v@ == s@,
{
    let mut it = s.chars();
    let mut v: Vec<char> = Vec::new();
    loop
        invariant
            vstd::std_specs::iter::IteratorSpec::remaining(&it) == s@.skip(v@.len() as int),
            v@ == s@.take(v@.len() as int),
            v@.len() <= s@.len(),
            vstd::std_specs::iter::IteratorSpec::obeys_prophetic_iter_laws(&it),
        ensures
            v@ == s@,
        decreases s@.len() - v@.len(),
    {
        match it.next() {
            Some(c) => {
                assert(s@.skip(v@.len() as int)[0] == s@[v@.len() as int]);
                v.push(c);
                assert(v@ =~= s@.take(v@.len() as int));
                assert(s@.skip(v@.len() - 1).drop_first() =~= s@.skip(v@.len() as int));
            },
            None => {
                assert(s@.skip(v@.len() as int).len() == 0);
                assert(v@ =~= s@);
                break;
            },
        }
    }
    v
}

/// Appends `c` to `s`.
#[verifier::external_body]
fn push_char(s: &mut String, c: char)
    ensures
        final(s)@ == old(s)@.push(c),
{
    s.push(c);
}

/// Appends the characters `w` to `v`.
pub fn append_chars(v: &mut Vec<char>, w: &[char])
    ensures
        final(v)@ == old(v)@ + w@,
{
    let mut i: usize = 0;
    while i < w.len()
        invariant
            i <= w@.len(),
            v@ == old(v)@ + w@.take(i as int),
        decreases w@.len() - i,
    {
        v.push(w[i]);
        i = i + 1;
        assert(v@ =~= old(v)@ + w@.take(i as int));
    }
    assert(w@.take(w@.len() as int) =~= w@);
}

/// Appends the characters of `s` to `v`.
pub fn push_str(v: &mut Vec<char>, s: &str)
    ensures
        final(v)@ == old(v)@ + s@,
{
    let w = chars_of(s);
    append_chars(v, w.as_slice());
}

/// A string made of the characters `chars`.
pub fn string_from(chars: &[char]) -> (s: String)
    ensures
        s@ == chars@,
{
    let mut s = String::new();
    let mut i: usize = 0;
    while i < chars.len()
        invariant
            i <= chars@.len(),
            s@ == chars@.take(i as int),
        decreases chars@.len() - i,
    {
        push_char(&mut s, chars[i]);
        i = i + 1;
        assert(s@ =~= chars@.take(i as int));
    }
    assert(chars@.take(chars@.len() as int) =~= chars@);
    s
}


/// First index at or after `i` that does not hold whitespace (or `s.len()`).
pub open spec fn skip_ws(s: Seq<char>, i: int) -> int
    decreases s.len() - i,
{
    if 0 <= i < s.len() && is_whitespace(s[i]) {
        skip_ws(s, i + 1)
    } else {
        i
    }
}

/// First index at or after `i` that holds whitespace (or `s.len()`).
pub open spec fn skip_word(s: Seq<char>, i: int) -> int
    decreases s.len() - i,
{
    if 0 <= i < s.len() && !is_whitespace(s[i]) {
        skip_word(s, i + 1)
    } else {
        i
    }
}

/// Last index at or before `j` (exclusive end) after trailing whitespace in
/// `s[i..j]` is removed.
pub open spec fn skip_ws_back(s: Seq<char>, i: int, j: int) -> int
    decreases j - i,
{
    if i < j && is_whitespace(s[j - 1]) {
        skip_ws_back(s, i, j - 1)
    } else {
        j
    }
}

pub proof fn lemma_skip_ws(s: Seq<char>, i: int)
    requires
        0 <= i <= s.len(),
    ensures
        i <= skip_ws(s, i) <= s.len(),
        forall|k: int| i <= k < skip_ws(s, i) ==> is_whitespace(#[trigger] s[k]),
        skip_ws(s, i) < s.len() ==> !is_whitespace(s[skip_ws(s, i)]),
    decreases s.len() - i,
{
    if i < s.len() && is_whitespace(s[i]) {
        lemma_skip_ws(s, i + 1);
    }
}

pub proof fn lemma_skip_word(s: Seq<char>, i: int)
    requires
        0 <= i <= s.len(),
    ensures
        i <= skip_word(s, i) <= s.len(),
        forall|k: int| i <= k < skip_word(s, i) ==> !is_whitespace(#[trigger] s[k]),
        skip_word(s, i) < s.len() ==> is_whitespace(s[skip_word(s, i)]),
    decreases s.len() - i,
{
    if i < s.len() && !is_whitespace(s[i]) {
        lemma_skip_word(s, i + 1);
    }
}

pub proof fn lemma_skip_ws_back(s: Seq<char>, i: int, j: int)
    requires
        0 <= i <= j <= s.len(),
    ensures
        i <= skip_ws_back(s, i, j) <= j,
        forall|k: int| skip_ws_back(s, i, j) <= k < j ==> is_whitespace(#[trigger] s[k]),
        i < skip_ws_back(s, i, j) ==> !is_whitespace(s[skip_ws_back(s, i, j) - 1]),
    decreases j - i,
{
    if i < j && is_whitespace(s[j - 1]) {
        lemma_skip_ws_back(s, i, j - 1);
    }
}

/// `s` without leading and trailing whitespace (`str::trim`).
pub open spec fn trim(s: Seq<char>) -> Seq<char> {
    let a = skip_ws(s, 0);
    s.subrange(a, skip_ws_back(s, a, s.len() as int))
}

/// The whitespace-separated tokens of `s` from index `i` on
/// (`str::split_whitespace`).
pub open spec fn tokens_from(s: Seq<char>, i: int) -> Seq<Seq<char>>
    decreases s.len() - i,
{
    if i < 0 || i >= s.len() {
        seq![]
    } else {
        let a = skip_ws(s, i);
        if a >= s.len() {
            seq![]
        } else {
            let b = skip_word(s, a);
            proof {
                lemma_skip_ws(s, i);
                lemma_skip_word(s, a);
            }
            seq![s.subrange(a, b)] + tokens_from(s, b)
        }
    }
}

/// The whitespace-separated tokens of `s`.
pub open spec fn tokens(s: Seq<char>) -> Seq<Seq<char>> {
    tokens_from(s, 0)
}

/// A non-empty run of characters none of which is whitespace.
pub open spec fn is_word(w: Seq<char>) -> bool {
    w.len() > 0 && forall|k: int| 0 <= k < w.len() ==> !is_whitespace(#[trigger] w[k])
}

proof fn lemma_word_end(s: Seq<char>, i: int, e: int)
    requires
        0 <= i < e <= s.len(),
        forall|k: int| i <= k < e ==> !is_whitespace(#[trigger] s[k]),
        e < s.len() ==> is_whitespace(s[e]),
    ensures
        skip_ws(s, i) == i,
        skip_word(s, i) == e,
{
    lemma_skip_word(s, i);
    let r = skip_word(s, i);
    if r < e {
        assert(!is_whitespace(s[r]));
    }
    if r > e {
        assert(!is_whitespace(s[e]));
    }
}

proof fn lemma_gap_end(s: Seq<char>, i: int, e: int)
    requires
        0 <= i < e <= s.len(),
        forall|k: int| i <= k < e ==> is_whitespace(#[trigger] s[k]),
        e < s.len() ==> !is_whitespace(s[e]),
    ensures
        skip_ws(s, i) == e,
{
    lemma_skip_ws(s, i);
    let r = skip_ws(s, i);
    if r < e {
        assert(is_whitespace(s[r]));
    }
    if r > e {
        assert(is_whitespace(s[e]));
    }
}

/// A line of two words separated by a space splits into those two words.
pub proof fn lemma_two_word_tokens(a: Seq<char>, b: Seq<char>)
    requires
        is_word(a),
        is_word(b),
    ensures
        tokens(a + " "@ + b + "\n"@) == seq![a, b],
        trim(a + " "@ + b + "\n"@) == a + " "@ + b,
{
    reveal_strlit(" ");
    reveal_strlit("\n");
    let s = a + " "@ + b + "\n"@;
    let n = a.len() as int;
    let m = b.len() as int;
    assert(s.len() == n + m + 2);
    assert forall|k: int| 0 <= k < n implies !is_whitespace(#[trigger] s[k]) by {
        assert(s[k] == a[k]);
    }
    assert forall|k: int| n + 1 <= k < n + 1 + m implies !is_whitespace(#[trigger] s[k]) by {
        assert(s[k] == b[k - n - 1]);
    }
    assert(s[n] == ' ');
    assert(s[n + 1 + m] == '\n');
    assert(is_whitespace(' ') && is_whitespace('\n'));
    lemma_word_end(s, 0, n);
    lemma_gap_end(s, n, n + 1);
    lemma_word_end(s, n + 1, n + 1 + m);
    lemma_gap_end(s, n + 1 + m, n + m + 2);
    assert(s.subrange(0, n) =~= a);
    assert(s.subrange(n + 1, n + 1 + m) =~= b);
    assert(tokens_from(s, n + 1 + m) == Seq::<Seq<char>>::empty());
    assert(tokens_from(s, n) == seq![b] + tokens_from(s, n + 1 + m));
    assert(tokens_from(s, 0) == seq![a] + tokens_from(s, n));
    assert(tokens(s) =~= seq![a, b]);
    // trimming drops only the line break
    lemma_skip_ws_back(s, 0, s.len() as int);
    assert(!is_whitespace(s[n + m]));
    assert(skip_ws_back(s, 0, n + m + 1) == n + m + 1);
    assert(skip_ws_back(s, 0, s.len() as int) == n + m + 1);
    assert(s.subrange(0, n + m + 1) =~= a + " "@ + b);
}

/// Indices that delimit `v` without its leading and trailing whitespace.
pub fn trim_bounds(v: &[char]) -> (b: (usize, usize))
    ensures
        b.0 <= b.1 <= v@.len(),
        v@.subrange(b.0 as int, b.1 as int) == trim(v@),
{
    let mut a: usize = 0;
    while a < v.len() && is_whitespace_char(v[a])
        invariant
            a <= v@.len(),
            skip_ws(v@, 0) == skip_ws(v@, a as int),
        decreases v@.len() - a,
    {
        a = a + 1;
    }
    let mut e: usize = v.len();
    while e > a && is_whitespace_char(v[e - 1])
        invariant
            a <= e <= v@.len(),
            skip_ws(v@, 0) == a,
            skip_ws_back(v@, a as int, v@.len() as int) == skip_ws_back(v@, a as int, e as int),
        decreases e,
    {
        e = e - 1;
    }
    (a, e)
}

/// Copies `v[start..end]`.
pub fn slice_to_vec(v: &[char], start: usize, end: usize) -> (r: Vec<char>)
    requires
        start <= end <= v@.len(),
    ensures
        r@ == v@.subrange(start as int, end as int),
{
    let mut r: Vec<char> = Vec::new();
    let mut i = start;
    while i < end
        invariant
            start <= i <= end <= v@.len(),
            r@ == v@.subrange(start as int, i as int),
        decreases end - i,
    {
        r.push(v[i]);
        i = i + 1;
        assert(r@ =~= v@.subrange(start as int, i as int));
    }
    r
}

/// `v` without leading and trailing whitespace.
pub fn trim_chars(v: &[char]) -> (r: Vec<char>)
    ensures
        r@ == trim(v@),
{
    let (a, e) = trim_bounds(v);
    slice_to_vec(v, a, e)
}

/// The whitespace-separated tokens of `v`.
pub fn split_whitespace(v: &[char]) -> (r: Vec<Vec<char>>)
    ensures
        r@.map_values(|t: Vec<char>| t@) == tokens(v@),
{
    let mut r: Vec<Vec<char>> = Vec::new();
    let mut i: usize = 0;
    while i < v.len()
        invariant
            i <= v@.len(),
            tokens(v@) == r@.map_values(|t: Vec<char>| t@) + tokens_from(v@, i as int),
        decreases v@.len() - i,
    {
        let ghost gi = i;
        proof { lemma_skip_ws(v@, i as int); }
        let mut a = i;
        while a < v.len() && is_whitespace_char(v[a])
            invariant
                gi <= a <= v@.len(),
                skip_ws(v@, gi as int) == skip_ws(v@, a as int),
            decreases v@.len() - a,
        {
            a = a + 1;
        }
        if a >= v.len() {
            assert(tokens_from(v@, i as int) =~= seq![]);
            i = v.len();
            assert(tokens_from(v@, i as int) =~= seq![]);
        } else {
            proof { lemma_skip_word(v@, a as int); }
            let mut b = a;
            while b < v.len() && !is_whitespace_char(v[b])
                invariant
                    a <= b <= v@.len(),
                    skip_word(v@, a as int) == skip_word(v@, b as int),
                decreases v@.len() - b,
            {
                b = b + 1;
            }
            let t = slice_to_vec(v, a, b);
            let ghost before = r@.map_values(|t: Vec<char>| t@);
            r.push(t);
            assert(r@.map_values(|t: Vec<char>| t@) =~= before + seq![v@.subrange(a as int, b as int)]);
            i = b;
        }
    }
    assert(tokens_from(v@, i as int) =~= seq![]);
    assert(r@.map_values(|t: Vec<char>| t@) + tokens_from(v@, i as int) =~= r@.map_values(|t: Vec<char>| t@));
    r
}

/// Whether `a` and `b` hold the same characters.
pub fn chars_eq(a: &[char], b: &[char]) -> (r: bool)
    ensures
        r == (a@ == b@),
{
    if a.len() != b.len() {
        return false;
    }
    let mut i: usize = 0;
    while i < a.len()
        invariant
            i <= a@.len() == b@.len(),
            a@.take(i as int) == b@.take(i as int),
        decreases a@.len() - i,
    {
        if a[i] != b[i] {
            assert(a@[i as int] != b@[i as int]);
            return false;
        }
        i = i + 1;
        assert(a@.take(i as int) =~= b@.take(i as int)) by {
            assert(a@.take(i as int) =~= a@.take(i - 1).push(a@[i - 1]));
            assert(b@.take(i as int) =~= b@.take(i - 1).push(b@[i - 1]));
        }
    }
    assert(a@ =~= a@.take(a@.len() as int));
    assert(b@ =~= b@.take(b@.len() as int));
    true
}

/// Whether `a` holds exactly the characters of `b`.
pub fn chars_eq_str(a: &[char], b: &str) -> (r: bool)
    ensures
        r == (a@ == b@),
{
    let bv = chars_of(b);
    chars_eq(a, bv.as_slice())
}

/// Whether `v` starts with the characters of `prefix`.
pub fn starts_with(v: &[char], prefix: &str) -> (r: bool)
    ensures
        r == (prefix@.len() <= v@.len() && v@.take(prefix@.len() as int) == prefix@),
{
    let p = chars_of(prefix);
    if p.len() > v.len() {
        return false;
    }
    let head = slice_to_vec(v, 0, p.len());
    chars_eq(head.as_slice(), p.as_slice())
}

/// `v` with `prefix` removed, if `v` starts with it (`str::strip_prefix`).
pub fn strip_prefix(v: &[char], prefix: &str) -> (r: Option<Vec<char>>)
    ensures
        match r {
            Some(rest) => prefix@.len() <= v@.len() && v@.take(prefix@.len() as int) == prefix@
                && rest@ == v@.skip(prefix@.len() as int),
            None => !(prefix@.len() <= v@.len() && v@.take(prefix@.len() as int) == prefix@),
        },
{
    if starts_with(v, prefix) {
        let n = chars_of(prefix).len();
        let rest = slice_to_vec(v, n, v.len());
        assert(rest@ =~= v@.skip(n as int));
        Some(rest)
    } else {
        None
    }
}

/// Index of the first occurrence of `c` in `v` at or after `i`, or `v.len()`.
pub open spec fn find_char(v: Seq<char>, c: char, i: int) -> int
    decreases v.len() - i,
{
    if 0 <= i < v.len() && v[i] != c {
        find_char(v, c, i + 1)
    } else {
        i
    }
}

pub proof fn lemma_find_char(v: Seq<char>, c: char, i: int)
    requires
        0 <= i <= v.len(),
    ensures
        i <= find_char(v, c, i) <= v.len(),
        forall|k: int| i <= k < find_char(v, c, i) ==> #[trigger] v[k] != c,
        find_char(v, c, i) < v.len() ==> v[find_char(v, c, i)] == c,
    decreases v.len() - i,
{
    if i < v.len() && v[i] != c {
        lemma_find_char(v, c, i + 1);
    }
}

/// Index of the first `c` in `v` at or after `start`, or `v.len()`.
pub fn find(v: &[char], c: char, start: usize) -> (r: usize)
    requires
        start <= v@.len(),
    ensures
        r == find_char(v@, c, start as int),
{
    let mut i = start;
    while i < v.len() && v[i] != c
        invariant
            start <= i <= v@.len(),
            find_char(v@, c, start as int) == find_char(v@, c, i as int),
        decreases v@.len() - i,
    {
        i = i + 1;
    }
    i
}

/// Splitting `v` around the first `c` (`str::split_once`).
pub open spec fn split_once(v: Seq<char>, c: char) -> Option<(Seq<char>, Seq<char>)> {
    let k = find_char(v, c, 0);
    if k < v.len() {
        Some((v.take(k), v.skip(k + 1)))
    } else {
        None
    }
}

/// Splits `v` around its first `c`.
pub fn split_once_chars(v: &[char], c: char) -> (r: Option<(Vec<char>, Vec<char>)>)
    ensures
        match split_once(v@, c) {
            Some((a, b)) => r matches Some((x, y)) && x@ == a && y@ == b,
            None => r is None,
        },
{
    proof { lemma_find_char(v@, c, 0); }
    let k = find(v, c, 0);
    if k < v.len() {
        let a = slice_to_vec(v, 0, k);
        let b = slice_to_vec(v, k + 1, v.len());
        assert(a@ =~= v@.take(k as int));
        assert(b@ =~= v@.skip(k + 1));
        Some((a, b))
    } else {
        None
    }
}

/// One line of text without its line terminator (`\n` or `\r\n`).
pub open spec fn strip_line_end(line: Seq<char>) -> Seq<char> {
    if line.len() > 0 && line.last() == '\r' {
        line.drop_last()
    } else {
        line
    }
}

/// The lines of `v` from index `i` on (`str::lines`): split at `\n`, a `\r`
/// just before the `\n` removed, no empty line after a final `\n`.
pub open spec fn lines_from(v: Seq<char>, i: int) -> Seq<Seq<char>>
    decreases v.len() - i,
{
    if i < 0 || i >= v.len() {
        seq![]
    } else {
        let e = find_char(v, '\n', i);
        proof {
            lemma_find_char(v, '\n', i);
        }
        if e < v.len() {
            seq![strip_line_end(v.subrange(i, e))] + lines_from(v, e + 1)
        } else {
            seq![v.subrange(i, v.len() as int)]
        }
    }
}

/// The lines of `v`.
pub open spec fn lines(v: Seq<char>) -> Seq<Seq<char>> {
    lines_from(v, 0)
}

/// Splits `v` into its lines.
pub fn split_lines(v: &[char]) -> (r: Vec<Vec<char>>)
    ensures
        r@.map_values(|t: Vec<char>| t@) == lines(v@),
{
    let mut r: Vec<Vec<char>> = Vec::new();
    let mut i: usize = 0;
    while i < v.len()
        invariant
            i <= v@.len(),
            lines(v@) == r@.map_values(|t: Vec<char>| t@) + lines_from(v@, i as int),
        decreases v@.len() - i,
    {
        proof { lemma_find_char(v@, '\n', i as int); }
        let e = find(v, '\n', i);
        let ghost before = r@.map_values(|t: Vec<char>| t@);
        if e < v.len() {
            let end = if e > i && v[e - 1] == '\r' { e - 1 } else { e };
            let line = slice_to_vec(v, i, end);
            assert(line@ =~= strip_line_end(v@.subrange(i as int, e as int)));
            r.push(line);
            assert(r@.map_values(|t: Vec<char>| t@) =~= before + seq![strip_line_end(v@.subrange(i as int, e as int))]);
            i = e + 1;
        } else {
            let line = slice_to_vec(v, i, v.len());
            r.push(line);
            assert(r@.map_values(|t: Vec<char>| t@) =~= before + seq![v@.subrange(i as int, v@.len() as int)]);
            i = v.len();
            assert(lines_from(v@, i as int) =~= seq![]);
        }
    }
    assert(r@.map_values(|t: Vec<char>| t@) + lines_from(v@, i as int) =~= r@.map_values(|t: Vec<char>| t@));
    r
}

/// `a` sorts before or with `b`: the order of `str` (code points, one
/// after the other; a prefix first).
pub open spec fn lex_le(a: Seq<char>, b: Seq<char>) -> bool
    decreases a.len(),
{
    if a.len() == 0 {
        true
    } else if b.len() == 0 {
        false
    } else if a[0] != b[0] {
        a[0] < b[0]
    } else {
        lex_le(a.drop_first(), b.drop_first())
    }
}

/// Any two strings are ordered one way or the other.
pub proof fn lemma_lex_total(a: Seq<char>, b: Seq<char>)
    ensures
        lex_le(a, b) || lex_le(b, a),
    decreases a.len(),
{
    if a.len() > 0 && b.len() > 0 && a[0] == b[0] {
        lemma_lex_total(a.drop_first(), b.drop_first());
    }
}

/// The order of strings is transitive.
pub proof fn lemma_lex_transitive(a: Seq<char>, b: Seq<char>, c: Seq<char>)
    requires
        lex_le(a, b),
        lex_le(b, c),
    ensures
        lex_le(a, c),
    decreases a.len(),
{
    if a.len() > 0 && b.len() > 0 && c.len() > 0 && a[0] == b[0] && b[0] == c[0] {
        lemma_lex_transitive(a.drop_first(), b.drop_first(), c.drop_first());
    }
}

/// Whether `a` sorts before or with `b`.
pub fn lex_le_chars(a: &[char], b: &[char]) -> (r: bool)
    ensures
        r == lex_le(a@, b@),
{
    let mut i: usize = 0;
    assert(a@.skip(0) =~= a@);
    assert(b@.skip(0) =~= b@);
    while i < a.len() && i < b.len() && a[i] == b[i]
        invariant
            i <= a@.len(),
            i <= b@.len(),
            lex_le(a@, b@) == lex_le(a@.skip(i as int), b@.skip(i as int)),
        decreases a@.len() - i,
    {
        assert(a@.skip(i as int).drop_first() =~= a@.skip(i + 1));
        assert(b@.skip(i as int).drop_first() =~= b@.skip(i + 1));
        i = i + 1;
    }
    if i == a.len() {
        true
    } else if i == b.len() {
        false
    } else {
        assert(a@.skip(i as int)[0] == a@[i as int]);
        assert(b@.skip(i as int)[0] == b@[i as int]);
        a[i] < b[i]
    }
}

/// The views of the strings `v`.
pub open spec fn string_views(v: Seq<String>) -> Seq<Seq<char>> {
    v.map_values(|t: String| t@)
}

/// Strings in the order of `str`.
pub open spec fn sorted_strings(s: Seq<Seq<char>>) -> bool {
    forall|i: int, j: int| 0 <= i < j < s.len() ==> lex_le(#[trigger] s[i], #[trigger] s[j])
}

/// Inserts `t` into the sorted `out` after the strings that sort with it.
fn insert_string(out: &mut Vec<String>, t: String)
    requires
        sorted_strings(string_views(old(out)@)),
    ensures
        sorted_strings(string_views(final(out)@)),
        string_views(final(out)@).to_multiset() == string_views(old(out)@).to_multiset().insert(t@),
{
    let ghost before = string_views(out@);
    let key = chars_of(t.as_str());
    let mut k: usize = 0;
    while k < out.len() && lex_le_chars(chars_of(out[k].as_str()).as_slice(), key.as_slice())
        invariant
            k <= out@.len(),
            before == string_views(out@),
            key@ == t@,
            forall|m: int| 0 <= m < k ==> lex_le(#[trigger] before[m], t@),
        decreases out@.len() - k,
    {
        k = k + 1;
    }
    proof {
        if k < out@.len() {
            lemma_lex_total(before[k as int], t@);
        }
    }
    let ghost tv = t@;
    out.insert(k, t);
    let ghost after = string_views(out@);
    assert(after =~= before.insert(k as int, tv));
    proof {
        vstd::seq_lib::to_multiset_insert(before, k as int, tv);
        assert forall|i: int, j: int| 0 <= i < j < after.len() implies lex_le(#[trigger] after[i], #[trigger] after[j]) by {
            if j < k {
            } else if j == k {
            } else if i > k {
                assert(after[i] == before[i - 1]);
                assert(after[j] == before[j - 1]);
            } else if i == k {
                assert(after[j] == before[j - 1]);
                if j - 1 > k {
                    lemma_lex_transitive(tv, before[k as int], before[j - 1]);
                }
            } else {
                assert(after[j] == before[j - 1]);
            }
        }
    }
}

/// The strings `v` sorted (`slice::sort` on strings).
pub fn sort_strings(v: Vec<String>) -> (r: Vec<String>)
    ensures
        string_views(r@).to_multiset() == string_views(v@).to_multiset(),
        sorted_strings(string_views(r@)),
{
    broadcast use vstd::multiset::group_multiset_axioms, vstd::seq_lib::group_to_multiset_ensures;
    let mut out: Vec<String> = Vec::new();
    let mut rest = v;
    let ghost all = string_views(rest@).to_multiset();
    assert(string_views(out@) =~= Seq::<Seq<char>>::empty());
    assert(string_views(out@).to_multiset().len() == 0);
    assert(string_views(out@).to_multiset() =~= vstd::multiset::Multiset::<Seq<char>>::empty());
    assert(string_views(out@).to_multiset().add(string_views(rest@).to_multiset()) =~= all);
    while rest.len() > 0
        invariant
            sorted_strings(string_views(out@)),
            string_views(out@).to_multiset().add(string_views(rest@).to_multiset()) == all,
        decreases rest@.len(),
    {
        let ghost old_rest = string_views(rest@);
        let t = rest.pop().unwrap();
        proof {
            assert(old_rest =~= string_views(rest@).push(t@));
            vstd::seq_lib::to_multiset_build(string_views(rest@), t@);
        }
        let ghost before_out = string_views(out@).to_multiset();
        let ghost tv = t@;
        insert_string(&mut out, t);
        assert(string_views(out@).to_multiset().add(string_views(rest@).to_multiset()) =~= all);
    }
    assert(string_views(rest@) =~= Seq::<Seq<char>>::empty());
    assert(string_views(rest@).to_multiset().len() == 0);
    assert(string_views(rest@).to_multiset() =~= vstd::multiset::Multiset::<Seq<char>>::empty());
    assert(string_views(out@).to_multiset() =~= all);
    out
}

/// The strings `parts` with `sep` between each two of them.
pub open spec fn joined(parts: Seq<Seq<char>>, sep: char) -> Seq<char>
    decreases parts.len(),
{
    if parts.len() == 0 {
        seq![]
    } else if parts.len() == 1 {
        parts[0]
    } else {
        joined(parts.drop_last(), sep) + seq![sep] + parts.last()
    }
}

/// The strings `parts` joined with `sep` (`slice::join`).
pub fn join_strings(parts: &[String], sep: char) -> (r: String)
    ensures
        r@ == joined(string_views(parts@), sep),
{
    let ghost ps = string_views(parts@);
    let mut v: Vec<char> = Vec::new();
    let mut i: usize = 0;
    assert(ps.take(0) =~= Seq::<Seq<char>>::empty());
    while i < parts.len()
        invariant
            i <= parts@.len(),
            ps == string_views(parts@),
            v@ == joined(ps.take(i as int), sep),
        decreases parts@.len() - i,
    {
        assert(ps.take(i + 1).drop_last() =~= ps.take(i as int));
        assert(ps.take(i + 1).last() == parts@[i as int]@);
        if i > 0 {
            v.push(sep);
        } else {
            assert(v@ =~= Seq::<char>::empty());
        }
        push_str(&mut v, parts[i].as_str());
        i = i + 1;
        assert(v@ =~= joined(ps.take(i as int), sep));
    }
    assert(ps.take(i as int) =~= ps);
    string_from(v.as_slice())
}

/// The text of `bytes` with each invalid UTF-8 sequence replaced by U+FFFD.
pub uninterp spec fn utf8_lossy(bytes: Seq<u8>) -> Seq<char>;

/// Calls `String::from_utf8_lossy`. Claimed: the result depends on `bytes`
/// alone, and valid UTF-8 decodes to its characters, as the documentation
/// states. How invalid sequences are replaced is left unsaid.
#[verifier::external_body]
pub(crate) fn decode_lossy(bytes: &[u8]) -> (s: String)
    ensures
        s@ == utf8_lossy(bytes@),
        vstd::utf8::valid_utf8(bytes@) ==> s@ == vstd::utf8::decode_utf8(bytes@),
{
    String::from_utf8_lossy(bytes).into_owned()
}

/// The character lists `parts` joined with `sep`.
pub fn join_char_lists(parts: &[Vec<char>], sep: char) -> (r: String)
    ensures
        r@ == joined(parts@.map_values(|t: Vec<char>| t@), sep),
{
    let ghost ps = parts@.map_values(|t: Vec<char>| t@);
    let mut v: Vec<char> = Vec::new();
    let mut i: usize = 0;
    assert(ps.take(0) =~= Seq::<Seq<char>>::empty());
    while i < parts.len()
        invariant
            i <= parts@.len(),
            ps == parts@.map_values(|t: Vec<char>| t@),
            v@ == joined(ps.take(i as int), sep),
        decreases parts@.len() - i,
    {
        assert(ps.take(i + 1).drop_last() =~= ps.take(i as int));
        assert(ps.take(i + 1).last() == parts@[i as int]@);
        if i > 0 {
            v.push(sep);
        } else {
            assert(v@ =~= Seq::<char>::empty());
        }
        append_chars(&mut v, parts[i].as_slice());
        i = i + 1;
        assert(v@ =~= joined(ps.take(i as int), sep));
    }
    assert(ps.take(i as int) =~= ps);
    string_from(v.as_slice())
}

} // verus!
