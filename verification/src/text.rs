//! Character sequences: white space, trimming, searching, whole-token
//! prefixes and UTF-8 lengths.
//!
//! Every contract of the crate speaks of strings through their view, a
//! `Seq<char>`. The executable helpers work on a `&[char]` copy of a string
//! and on windows `[from, to)` into it, so that no substring is allocated
//! before it is known to be needed.

use vstd::prelude::*;
use vstd::string::StrSliceExecFns;
use vstd::string::StringExecFns;
use vstd::utf8::encode_utf8;

verus! {

/// White space: the code points that carry the Unicode property `White_Space`.
pub open spec fn is_space(c: char) -> bool {
    let u = c as u32;
    ||| 0x09 <= u <= 0x0D
    ||| u == 0x20
    ||| u == 0x85
    ||| u == 0xA0
    ||| u == 0x1680
    ||| 0x2000 <= u <= 0x200A
    ||| u == 0x2028
    ||| u == 0x2029
    ||| u == 0x202F
    ||| u == 0x205F
    ||| u == 0x3000
}

/// `s` without its leading white space.
pub open spec fn trim_start(s: Seq<char>) -> Seq<char>
    decreases s.len(),
{
    if s.len() > 0 && is_space(s[0]) {
        trim_start(s.drop_first())
    } else {
        s
    }
}

/// `s` without its trailing white space.
pub open spec fn trim_end(s: Seq<char>) -> Seq<char>
    decreases s.len(),
{
    if s.len() > 0 && is_space(s.last()) {
        trim_end(s.drop_last())
    } else {
        s
    }
}

/// `s` without its leading and trailing white space.
pub open spec fn trim(s: Seq<char>) -> Seq<char> {
    trim_end(trim_start(s))
}

/// `s` without one leading and without one trailing single quote, each
/// removed where it is present, whether or not the other is.
pub open spec fn unquote(s: Seq<char>) -> Seq<char> {
    let t = if s.len() > 0 && s[0] == '\'' {
        s.drop_first()
    } else {
        s
    };
    if t.len() > 0 && t.last() == '\'' {
        t.drop_last()
    } else {
        t
    }
}

/// The index of the first `c` in `s`, or `s.len()` where `s` holds none.
pub open spec fn find_char(s: Seq<char>, c: char) -> nat
    decreases s.len(),
{
    if s.len() == 0 || s[0] == c {
        0
    } else {
        1 + find_char(s.drop_first(), c)
    }
}

/// `s` without one trailing carriage return, where it ends with one.
pub open spec fn strip_cr(s: Seq<char>) -> Seq<char> {
    if s.len() > 0 && s.last() == '\r' {
        s.drop_last()
    } else {
        s
    }
}

/// The lines of `s`. A line ends with a line feed, or with a carriage return
/// and a line feed, and holds neither; the last line may end with the text. A
/// carriage return that no line feed follows is part of its line.
pub open spec fn lines_of(s: Seq<char>) -> Seq<Seq<char>>
    decreases s.len(),
{
    if s.len() == 0 {
        Seq::empty()
    } else {
        let i = find_char(s, '\n');
        if i >= s.len() {
            seq![s]
        } else {
            seq![strip_cr(s.take(i as int))] + lines_of(s.skip(i as int + 1))
        }
    }
}

/// The length of the word that `s` begins with: of its leading characters
/// that are not white space.
pub open spec fn word_len(s: Seq<char>) -> nat
    decreases s.len(),
{
    if s.len() == 0 || is_space(s[0]) {
        0
    } else {
        1 + word_len(s.drop_first())
    }
}

/// The words of `s`: its longest runs of characters that are not white space,
/// in their order. A text of white space alone has none.
pub open spec fn words_of(s: Seq<char>) -> Seq<Seq<char>>
    decreases s.len(),
    via words_of_decreases
{
    if s.len() == 0 {
        Seq::empty()
    } else if is_space(s[0]) {
        words_of(s.drop_first())
    } else {
        seq![s.take(word_len(s) as int)] + words_of(s.skip(word_len(s) as int))
    }
}

#[via_fn]
proof fn words_of_decreases(s: Seq<char>) {
    lemma_word_len(s);
}

/// A word lies inside its text, holds no white space, ends where the text
/// ends or white space follows, and is not empty where the text begins with
/// anything but white space.
pub proof fn lemma_word_len(s: Seq<char>)
    ensures
        word_len(s) <= s.len(),
        s.len() > 0 && !is_space(s[0]) ==> word_len(s) > 0,
        forall|j: int| 0 <= j < word_len(s) ==> !is_space(s[j]),
        word_len(s) < s.len() ==> is_space(s[word_len(s) as int]),
    decreases s.len(),
{
    if s.len() > 0 && !is_space(s[0]) {
        let t = s.drop_first();
        lemma_word_len(t);
        assert forall|j: int| 0 <= j < word_len(s) implies !is_space(s[j]) by {
            if j > 0 {
                assert(s[j] == t[j - 1]);
            }
        }
        if word_len(s) < s.len() {
            assert(s[word_len(s) as int] == t[word_len(t) as int]);
        }
    }
}

/// `p` is a prefix of `s` that ends where `s` ends or where a space follows.
pub open spec fn is_token_prefix(p: Seq<char>, s: Seq<char>) -> bool {
    p.is_prefix_of(s) && (s.len() == p.len() || s[p.len() as int] == ' ')
}

/// `p` is a prefix of `s` and a space follows it in `s`.
pub open spec fn is_word_before_space(p: Seq<char>, s: Seq<char>) -> bool {
    p.is_prefix_of(s) && s.len() > p.len() && s[p.len() as int] == ' '
}

/// `s` with its first `n` characters replaced by `with`.
pub open spec fn replace_prefix(s: Seq<char>, n: nat, with: Seq<char>) -> Seq<char> {
    with + s.skip(n as int)
}

/// The number of bytes of `s` in UTF-8, which is what `str::len` counts.
pub open spec fn byte_len(s: Seq<char>) -> nat {
    encode_utf8(s).len()
}

/// What `find_char` finds is the first occurrence, and it is in range.
pub proof fn lemma_find_char(s: Seq<char>, c: char)
    ensures
        find_char(s, c) <= s.len(),
        find_char(s, c) < s.len() ==> s[find_char(s, c) as int] == c,
        forall|j: int| 0 <= j < find_char(s, c) ==> s[j] != c,
        find_char(s, c) == s.len() <==> !s.contains(c),
    decreases s.len(),
{
    if s.len() > 0 && s[0] != c {
        let t = s.drop_first();
        lemma_find_char(t, c);
        assert forall|j: int| 0 <= j < find_char(s, c) implies s[j] != c by {
            if j > 0 {
                assert(s[j] == t[j - 1]);
            }
        }
        if find_char(t, c) < t.len() {
            assert(s[find_char(s, c) as int] == t[find_char(t, c) as int]);
        } else {
            assert forall|j: int| 0 <= j < s.len() implies s[j] != c by {
                if j > 0 {
                    assert(s[j] == t[j - 1]);
                }
            }
        }
    }
}

/// Where the first `c` of `s` is: an index `i` that holds `c` with none before it.
pub proof fn lemma_find_char_at(s: Seq<char>, c: char, i: int)
    requires
        0 <= i <= s.len(),
        i < s.len() ==> s[i] == c,
        forall|j: int| 0 <= j < i ==> s[j] != c,
    ensures
        find_char(s, c) == i,
{
    lemma_find_char(s, c);
}

/// Trimming leaves a window of `s`: what lies before and after it is white
/// space, and the window neither begins nor ends with white space.
pub proof fn lemma_trim_window(s: Seq<char>) -> (w: (int, int))
    ensures
        0 <= w.0 <= w.1 <= s.len(),
        trim(s) == s.subrange(w.0, w.1),
        forall|j: int| 0 <= j < w.0 ==> is_space(s[j]),
        forall|j: int| w.1 <= j < s.len() ==> is_space(s[j]),
        w.0 < w.1 ==> !is_space(s[w.0]) && !is_space(s[w.1 - 1]),
{
    let a = lemma_trim_start_window(s);
    let t = s.skip(a);
    let b = lemma_trim_end_window(t);
    assert(t.take(b) =~= s.subrange(a, a + b));
    assert forall|j: int| a + b <= j < s.len() implies is_space(s[j]) by {
        assert(s[j] == t[j - a]);
    }
    if 0 < b {
        assert(t[0] == s[a]);
        assert(t[b - 1] == s[a + b - 1]);
    }
    (a, a + b)
}

proof fn lemma_trim_start_window(s: Seq<char>) -> (a: int)
    ensures
        0 <= a <= s.len(),
        trim_start(s) == s.skip(a),
        forall|j: int| 0 <= j < a ==> is_space(s[j]),
        a < s.len() ==> !is_space(s[a]),
    decreases s.len(),
{
    if s.len() > 0 && is_space(s[0]) {
        let t = s.drop_first();
        let a = lemma_trim_start_window(t);
        assert(t.skip(a) =~= s.skip(a + 1));
        assert forall|j: int| 0 <= j < a + 1 implies is_space(s[j]) by {
            if j > 0 {
                assert(s[j] == t[j - 1]);
            }
        }
        if a < t.len() {
            assert(s[a + 1] == t[a]);
        }
        a + 1
    } else {
        assert(s.skip(0) =~= s);
        0
    }
}

proof fn lemma_trim_end_window(s: Seq<char>) -> (b: int)
    ensures
        0 <= b <= s.len(),
        trim_end(s) == s.take(b),
        forall|j: int| b <= j < s.len() ==> is_space(s[j]),
        0 < b ==> !is_space(s[b - 1]),
    decreases s.len(),
{
    if s.len() > 0 && is_space(s.last()) {
        let t = s.drop_last();
        let b = lemma_trim_end_window(t);
        assert(t.take(b) =~= s.take(b));
        assert forall|j: int| b <= j < s.len() implies is_space(s[j]) by {
            if j < t.len() {
                assert(s[j] == t[j]);
            }
        }
        if 0 < b {
            assert(s[b - 1] == t[b - 1]);
        }
        b
    } else {
        assert(s.take(s.len() as int) =~= s);
        s.len() as int
    }
}

/// A sequence that neither begins nor ends with white space is its own trim.
pub proof fn lemma_trim_of_trimmed(s: Seq<char>)
    requires
        s.len() > 0 ==> !is_space(s[0]) && !is_space(s.last()),
    ensures
        trim(s) == s,
{
}

/// The UTF-8 length of a concatenation is the sum of the two lengths.
pub proof fn lemma_byte_len_concat(a: Seq<char>, b: Seq<char>)
    ensures
        byte_len(a + b) == byte_len(a) + byte_len(b),
    decreases a.len(),
{
    if a.len() == 0 {
        assert(a + b =~= b);
    } else {
        assert((a + b).drop_first() =~= a.drop_first() + b);
        assert((a + b)[0] == a[0]);
        lemma_byte_len_concat(a.drop_first(), b);
    }
}

/// Replacing a prefix changes the UTF-8 length by the difference of the two
/// pieces.
pub proof fn lemma_byte_len_replace_prefix(s: Seq<char>, p: Seq<char>, with: Seq<char>)
    requires
        p.is_prefix_of(s),
    ensures
        byte_len(replace_prefix(s, p.len(), with)) + byte_len(p) == byte_len(s) + byte_len(with),
{
    let rest = s.skip(p.len() as int);
    assert(s =~= p + rest);
    lemma_byte_len_concat(p, rest);
    lemma_byte_len_concat(with, rest);
}

/// Whether `c` is white space.
pub fn is_whitespace(c: char) -> (b: bool)
    ensures
        b == is_space(c),
{
    let u: u32 = c as u32;
    (0x09 <= u && u <= 0x0D) || u == 0x20 || u == 0x85 || u == 0xA0 || u == 0x1680 || (0x2000 <= u
        && u <= 0x200A) || u == 0x2028 || u == 0x2029 || u == 0x202F || u == 0x205F || u == 0x3000
}

/// The characters of `s`.
pub fn chars_of(s: &str) -> (v: Vec<char>)
    ensures
        v@ == s@,
{
    let mut v: Vec<char> = Vec::new();
    for c in it: s.chars()
        invariant
            it.seq() == s@,
            v@ == it.seq().take(it.index()),
    {
        v.push(c);
    }
    v
}

/// The characters of `s` from index `from` up to `to`, as a string of their own.
pub fn slice_of(s: &str, from: usize, to: usize) -> (r: String)
    requires
        from <= to <= s@.len(),
    ensures
        r@ == s@.subrange(from as int, to as int),
{
    String::from_str(s.substring_char(from, to))
}

/// `a` followed by `b`.
pub fn joined(a: &str, b: &str) -> (r: String)
    ensures
        r@ == a@ + b@,
{
    let mut r = String::from_str(a);
    r.append(b);
    r
}

/// The length of `s` in bytes.
pub fn byte_length(s: &str) -> (n: usize)
    ensures
        n == byte_len(s@),
{
    s.as_bytes().len()
}

/// Whether `p` is a prefix of `s`.
pub fn starts_with(s: &[char], p: &[char]) -> (r: bool)
    ensures
        r == p@.is_prefix_of(s@),
{
    if p.len() > s.len() {
        return false;
    }
    let mut i: usize = 0;
    while i < p.len()
        invariant
            p.len() <= s.len(),
            i <= p.len(),
            forall|j: int| 0 <= j < i ==> s@[j] == p@[j],
        decreases p.len() - i,
    {
        if s[i] != p[i] {
            return false;
        }
        i += 1;
    }
    assert(p@ =~= s@.subrange(0, p@.len() as int));
    true
}

/// Whether `p` is a prefix of `s` that ends where `s` ends or before a space.
pub fn has_token_prefix(s: &[char], p: &[char]) -> (r: bool)
    ensures
        r == is_token_prefix(p@, s@),
{
    starts_with(s, p) && (s.len() == p.len() || s[p.len()] == ' ')
}

/// Whether `p` is a prefix of `s` with a space after it.
pub fn has_word_before_space(s: &[char], p: &[char]) -> (r: bool)
    ensures
        r == is_word_before_space(p@, s@),
{
    starts_with(s, p) && s.len() > p.len() && s[p.len()] == ' '
}

/// The index of the first `c` in the window `[from, to)` of `v`, or `to`.
pub fn find_in(v: &[char], from: usize, to: usize, c: char) -> (i: usize)
    requires
        from <= to <= v.len(),
    ensures
        from <= i <= to,
        i - from == find_char(v@.subrange(from as int, to as int), c),
{
    let ghost w = v@.subrange(from as int, to as int);
    let mut i: usize = from;
    while i < to && v[i] != c
        invariant
            from <= i <= to <= v.len(),
            w == v@.subrange(from as int, to as int),
            forall|j: int| 0 <= j < i - from ==> w[j] != c,
        decreases to - i,
    {
        i += 1;
    }
    proof {
        lemma_find_char_at(w, c, i - from);
    }
    i
}

/// The lines of `s`.
pub fn split_lines(s: &str) -> (lines: Vec<String>)
    ensures
        lines.deep_view() == lines_of(s@),
{
    let v = chars_of(s);
    let n = v.len();
    let mut lines: Vec<String> = Vec::new();
    let mut from: usize = 0;
    assert(v@.subrange(0, n as int) =~= s@);
    assert(lines.deep_view() + lines_of(s@) =~= lines_of(s@));
    while from < n
        invariant
            v@ == s@,
            n == v.len(),
            from <= n,
            lines.deep_view() + lines_of(v@.subrange(from as int, n as int)) == lines_of(s@),
        decreases n - from,
    {
        let ghost rest = v@.subrange(from as int, n as int);
        let ghost before = lines.deep_view();
        let i = find_in(v.as_slice(), from, n, '\n');
        if i == n {
            let line = slice_of(s, from, n);
            lines.push(line);
            assert(lines.deep_view() =~= before.push(rest));
            assert(v@.subrange(n as int, n as int) =~= Seq::<char>::empty());
            assert(lines.deep_view() + lines_of(v@.subrange(n as int, n as int)) =~= before
                + seq![rest]);
            from = n;
        } else {
            let end: usize = if from < i && v[i - 1] == '\r' {
                i - 1
            } else {
                i
            };
            let line = slice_of(s, from, end);
            proof {
                let head = rest.take(i - from);
                assert(head =~= v@.subrange(from as int, i as int));
                if from < i {
                    assert(head.last() == v@[i - 1]);
                    assert(head.drop_last() =~= v@.subrange(from as int, i - 1));
                }
                assert(line@ == strip_cr(head));
                assert(rest.skip(i - from + 1) =~= v@.subrange(i + 1, n as int));
            }
            lines.push(line);
            assert(lines.deep_view() =~= before.push(line@));
            assert(lines.deep_view() + lines_of(v@.subrange(i + 1, n as int)) =~= before + (
            seq![line@] + lines_of(v@.subrange(i + 1, n as int))));
            from = i + 1;
        }
    }
    assert(v@.subrange(n as int, n as int) =~= Seq::<char>::empty());
    assert(lines.deep_view() + lines_of(Seq::<char>::empty()) =~= lines.deep_view());
    lines
}

/// The words of `s`.
pub fn split_words(s: &str) -> (words: Vec<String>)
    ensures
        words.deep_view() == words_of(s@),
{
    let v = chars_of(s);
    let n = v.len();
    let mut words: Vec<String> = Vec::new();
    let mut i: usize = 0;
    assert(v@.subrange(0, n as int) =~= s@);
    assert(words.deep_view() + words_of(s@) =~= words_of(s@));
    while i < n
        invariant
            v@ == s@,
            n == v.len(),
            i <= n,
            words.deep_view() + words_of(v@.subrange(i as int, n as int)) == words_of(s@),
        decreases n - i,
    {
        let ghost rest = v@.subrange(i as int, n as int);
        let ghost before = words.deep_view();
        if is_whitespace(v[i]) {
            assert(rest.drop_first() =~= v@.subrange(i + 1, n as int));
            i += 1;
        } else {
            let mut j: usize = i + 1;
            assert(rest.drop_first() =~= v@.subrange(i + 1, n as int));
            while j < n && !is_whitespace(v[j])
                invariant
                    n == v.len(),
                    i < j <= n,
                    word_len(v@.subrange(i as int, n as int)) == (j - i) + word_len(
                        v@.subrange(j as int, n as int),
                    ),
                decreases n - j,
            {
                assert(v@.subrange(j as int, n as int).drop_first() =~= v@.subrange(
                    j + 1,
                    n as int,
                ));
                j += 1;
            }
            let word = slice_of(s, i, j);
            proof {
                assert(word_len(rest) == j - i);
                assert(rest.take(j - i) =~= v@.subrange(i as int, j as int));
                assert(rest.skip(j - i) =~= v@.subrange(j as int, n as int));
            }
            words.push(word);
            assert(words.deep_view() =~= before.push(word@));
            assert(words.deep_view() + words_of(v@.subrange(j as int, n as int)) =~= before + (
            seq![word@] + words_of(v@.subrange(j as int, n as int))));
            i = j;
        }
    }
    assert(v@.subrange(n as int, n as int) =~= Seq::<char>::empty());
    assert(words.deep_view() + words_of(Seq::<char>::empty()) =~= words.deep_view());
    words
}

/// The window of `v` that trimming the window `[from, to)` leaves.
pub fn trim_in(v: &[char], from: usize, to: usize) -> (w: (usize, usize))
    requires
        from <= to <= v.len(),
    ensures
        from <= w.0 <= w.1 <= to,
        v@.subrange(w.0 as int, w.1 as int) == trim(v@.subrange(from as int, to as int)),
{
    let mut a: usize = from;
    while a < to && is_whitespace(v[a])
        invariant
            from <= a <= to <= v.len(),
            trim_start(v@.subrange(from as int, to as int)) == trim_start(
                v@.subrange(a as int, to as int),
            ),
        decreases to - a,
    {
        assert(v@.subrange(a as int, to as int).drop_first() =~= v@.subrange(a + 1, to as int));
        a += 1;
    }
    let mut b: usize = to;
    while a < b && is_whitespace(v[b - 1])
        invariant
            a <= b <= to <= v.len(),
            trim_end(v@.subrange(a as int, to as int)) == trim_end(v@.subrange(a as int, b as int)),
        decreases b - a,
    {
        assert(v@.subrange(a as int, b as int).drop_last() =~= v@.subrange(a as int, b - 1));
        b -= 1;
    }
    (a, b)
}

/// The window of `v` that unquoting the window `[from, to)` leaves.
pub fn unquote_in(v: &[char], from: usize, to: usize) -> (w: (usize, usize))
    requires
        from <= to <= v.len(),
    ensures
        from <= w.0 <= w.1 <= to,
        v@.subrange(w.0 as int, w.1 as int) == unquote(v@.subrange(from as int, to as int)),
{
    let a: usize = if from < to && v[from] == '\'' {
        from + 1
    } else {
        from
    };
    if from < to {
        assert(v@.subrange(from as int, to as int).drop_first() =~= v@.subrange(
            from + 1,
            to as int,
        ));
    }
    let b: usize = if a < to && v[to - 1] == '\'' {
        to - 1
    } else {
        to
    };
    if a < to {
        assert(v@.subrange(a as int, to as int).drop_last() =~= v@.subrange(a as int, to - 1));
    }
    (a, b)
}

} // verus!
