//! Character-level string helpers shared by the rest of the crate.
//!
//! Strings are modelled by their view, a `Seq<char>`.  Whitespace follows the
//! Unicode `White_Space` property, which is what `char::is_whitespace` tests.

use vstd::prelude::*;

verus! {

broadcast use vstd::string::group_string_axioms;

// ---------------------------------------------------------------------------
// Specifications
// ---------------------------------------------------------------------------

/// The Unicode `White_Space` property.
pub open spec fn is_ws(c: char) -> bool {
    let u = c as u32;
    ||| 0x09 <= u <= 0x0D
    ||| u == 0x20
    ||| u == 0x85
    ||| u == 0xA0
    ||| u == 0x1680
    ||| 0x2000 <= u <= 0x200A
    ||| u == 0x2028
    ||| u == 0x2029
    ||| u == 0x202F
    ||| u == 0x205F
    ||| u == 0x3000
}

/// `s` without its leading whitespace.
pub open spec fn trim_start(s: Seq<char>) -> Seq<char>
    decreases s.len(),
{
    if s.len() > 0 && is_ws(s[0]) {
        trim_start(s.drop_first())
    } else {
        s
    }
}

/// `s` without its trailing whitespace.
pub open spec fn trim_end(s: Seq<char>) -> Seq<char>
    decreases s.len(),
{
    if s.len() > 0 && is_ws(s.last()) {
        trim_end(s.drop_last())
    } else {
        s
    }
}

/// `s` without leading and trailing whitespace (`str::trim`).
pub open spec fn trim(s: Seq<char>) -> Seq<char> {
    trim_end(trim_start(s))
}

/// The first `n` characters of `s`, or all of it when it is shorter.
pub open spec fn take_chars(s: Seq<char>, n: nat) -> Seq<char> {
    if s.len() <= n {
        s
    } else {
        s.take(n as int)
    }
}

/// `s` cut to `max_len` characters, with `"..."` appended when it was cut.
pub open spec fn truncated(s: Seq<char>, max_len: nat) -> Seq<char> {
    if s.len() <= max_len {
        s
    } else {
        s.take(max_len as int) + seq!['.', '.', '.']
    }
}

/// ASCII upper-case letters mapped to lower case, every other character kept.
pub open spec fn ascii_lower_char(c: char) -> char {
    if 'A' <= c <= 'Z' {
        ((c as u32) + 32) as char
    } else {
        c
    }
}

pub open spec fn ascii_lower(s: Seq<char>) -> Seq<char> {
    s.map_values(|c: char| ascii_lower_char(c))
}

/// Equality up to ASCII case (`str::eq_ignore_ascii_case`).
pub open spec fn eq_ignore_ascii_case(a: Seq<char>, b: Seq<char>) -> bool {
    ascii_lower(a) == ascii_lower(b)
}

/// Number of whitespace-separated words (`split_whitespace().count()`): the
/// positions that hold a non-whitespace character whose predecessor is
/// whitespace or absent.
pub open spec fn word_count(s: Seq<char>) -> nat
    decreases s.len(),
{
    if s.len() == 0 {
        0
    } else {
        let rest = word_count(s.drop_last());
        if !is_ws(s.last()) && (s.len() == 1 || is_ws(s[s.len() - 2])) {
            rest + 1
        } else {
            rest
        }
    }
}

/// The words of `s` (`split_whitespace`), in order.
pub open spec fn words(s: Seq<char>) -> Seq<Seq<char>>
    decreases s.len(),
{
    let t = trim_start(s);
    if t.len() == 0 {
        seq![]
    } else {
        let k = first_ws(t);
        proof {
            lemma_trim_start_suffix(s);
            lemma_first_ws_bounds(t);
        }
        seq![t.take(k)] + words(t.skip(k))
    }
}

/// Index of the first whitespace character of `s`, or its length.
pub open spec fn first_ws(s: Seq<char>) -> int
    decreases s.len(),
{
    if s.len() == 0 {
        0
    } else if is_ws(s[0]) {
        0
    } else {
        1 + first_ws(s.drop_first())
    }
}

/// Index of the first occurrence of `c` in `s`, or its length.
pub open spec fn find_char(s: Seq<char>, c: char) -> int
    decreases s.len(),
{
    if s.len() == 0 {
        0
    } else if s[0] == c {
        0
    } else {
        1 + find_char(s.drop_first(), c)
    }
}

/// The pieces joined with `sep` between consecutive pieces.
pub open spec fn join(parts: Seq<Seq<char>>, sep: Seq<char>) -> Seq<char>
    decreases parts.len(),
{
    if parts.len() == 0 {
        seq![]
    } else if parts.len() == 1 {
        parts[0]
    } else {
        join(parts.drop_last(), sep) + sep + parts.last()
    }
}

/// A line without its `'\r'` terminator, if it has one.
pub open spec fn strip_cr(l: Seq<char>) -> Seq<char> {
    if l.len() > 0 && l.last() == '\r' {
        l.drop_last()
    } else {
        l
    }
}

/// The lines of `s` (`str::lines`): pieces between `'\n'` characters, each
/// without a trailing `'\r'`; a final `'\n'` does not start an empty line.
pub open spec fn lines(s: Seq<char>) -> Seq<Seq<char>>
    decreases s.len(),
{
    if s.len() == 0 {
        seq![]
    } else {
        let k = find_char(s, '\n');
        proof {
            lemma_find_char_bounds(s, '\n');
        }
        if k < s.len() {
            seq![strip_cr(s.take(k))] + lines(s.skip(k + 1))
        } else {
            seq![strip_cr(s)]
        }
    }
}

// ---------------------------------------------------------------------------
// Lemmas
// ---------------------------------------------------------------------------

pub proof fn lemma_find_char_bounds(s: Seq<char>, c: char)
    ensures
        0 <= find_char(s, c) <= s.len(),
        forall|j: int| 0 <= j < find_char(s, c) ==> s[j] != c,
        find_char(s, c) < s.len() ==> s[find_char(s, c)] == c,
    decreases s.len(),
{
    if s.len() > 0 && s[0] != c {
        lemma_find_char_bounds(s.drop_first(), c);
        assert forall|j: int| 0 <= j < find_char(s, c) implies s[j] != c by {
            if j > 0 {
                assert(s[j] == s.drop_first()[j - 1]);
            }
        }
    }
}

pub proof fn lemma_first_ws_bounds(s: Seq<char>)
    ensures
        0 <= first_ws(s) <= s.len(),
        forall|j: int| 0 <= j < first_ws(s) ==> !is_ws(s[j]),
        first_ws(s) < s.len() ==> is_ws(s[first_ws(s)]),
    decreases s.len(),
{
    if s.len() > 0 && !is_ws(s[0]) {
        lemma_first_ws_bounds(s.drop_first());
        assert forall|j: int| 0 <= j < first_ws(s) implies !is_ws(s[j]) by {
            if j > 0 {
                assert(s[j] == s.drop_first()[j - 1]);
            }
        }
    }
}

/// `trim_start` removes a (possibly empty) whitespace prefix.
pub proof fn lemma_trim_start_suffix(s: Seq<char>)
    ensures
        trim_start(s).len() <= s.len(),
        trim_start(s) == s.skip(s.len() - trim_start(s).len()),
        forall|j: int| 0 <= j < s.len() - trim_start(s).len() ==> is_ws(s[j]),
        trim_start(s).len() > 0 ==> !is_ws(trim_start(s)[0]),
    decreases s.len(),
{
    if s.len() > 0 && is_ws(s[0]) {
        lemma_trim_start_suffix(s.drop_first());
        assert(s.drop_first().skip(s.drop_first().len() - trim_start(s).len()) =~= s.skip(
            s.len() - trim_start(s).len(),
        ));
        assert forall|j: int| 0 <= j < s.len() - trim_start(s).len() implies is_ws(s[j]) by {
            if j > 0 {
                assert(s[j] == s.drop_first()[j - 1]);
            }
        }
    } else {
        assert(s.skip(0) =~= s);
    }
}

/// `trim_end` removes a (possibly empty) whitespace suffix.
pub proof fn lemma_trim_end_prefix(s: Seq<char>)
    ensures
        trim_end(s).len() <= s.len(),
        trim_end(s) == s.take(trim_end(s).len() as int),
        forall|j: int| trim_end(s).len() <= j < s.len() ==> is_ws(s[j]),
        trim_end(s).len() > 0 ==> !is_ws(trim_end(s).last()),
    decreases s.len(),
{
    if s.len() > 0 && is_ws(s.last()) {
        lemma_trim_end_prefix(s.drop_last());
        assert(s.drop_last().take(trim_end(s).len() as int) =~= s.take(
            trim_end(s).len() as int,
        ));
        assert forall|j: int| trim_end(s).len() <= j < s.len() implies is_ws(s[j]) by {
            if j < s.len() - 1 {
                assert(s[j] == s.drop_last()[j]);
            }
        }
    } else {
        assert(s.take(s.len() as int) =~= s);
    }
}

/// Trimming the whitespace prefix of a suffix of `s` that starts inside the
/// whitespace prefix gives `trim_start(s)`.
pub proof fn lemma_trim_start_skip(s: Seq<char>, i: int)
    requires
        0 <= i <= s.len(),
        forall|j: int| 0 <= j < i ==> is_ws(s[j]),
    ensures
        trim_start(s.skip(i)) == trim_start(s),
    decreases i,
{
    if i > 0 {
        assert(s.skip(i - 1).drop_first() =~= s.skip(i));
        lemma_trim_start_skip(s, i - 1);
    } else {
        assert(s.skip(0) =~= s);
    }
}

/// Dropping a whitespace suffix does not change `trim_end`.
pub proof fn lemma_trim_end_take(s: Seq<char>, i: int)
    requires
        0 <= i <= s.len(),
        forall|j: int| i <= j < s.len() ==> is_ws(s[j]),
    ensures
        trim_end(s.take(i)) == trim_end(s),
    decreases s.len() - i,
{
    if i < s.len() {
        assert(s.take(i + 1).drop_last() =~= s.take(i));
        lemma_trim_end_take(s, i + 1);
    } else {
        assert(s.take(i) =~= s);
    }
}

/// A sequence that neither starts nor ends with whitespace is its own trim.
pub proof fn lemma_trim_nonws(s: Seq<char>)
    requires
        s.len() == 0 || (!is_ws(s[0]) && !is_ws(s.last())),
    ensures
        trim(s) == s,
{
}

pub proof fn lemma_trim_start_nonws(s: Seq<char>)
    requires
        s.len() == 0 || !is_ws(s[0]),
    ensures
        trim_start(s) == s,
{
}

pub proof fn lemma_trim_end_nonws(s: Seq<char>)
    requires
        s.len() == 0 || !is_ws(s.last()),
    ensures
        trim_end(s) == s,
{
}

// ---------------------------------------------------------------------------
// Executable helpers
// ---------------------------------------------------------------------------

/// Appends one character to a string.
///
/// Calls `String::push`, which appends `c` at the end of the string.
#[verifier::external_body]
pub(crate) fn string_push(s: &mut String, c: char)
    ensures
        final(s)@ == old(s)@.push(c),
{
    s.push(c);
}

/// Appends a string slice to a string.
pub fn push_str(s: &mut String, t: &str)
    ensures
        final(s)@ == old(s)@ + t@,
{
    s.append(t);
}

/// The characters of a string slice, in order.
pub fn chars_of(s: &str) -> (out: Vec<char>)
    ensures
        out@ == s@,
{
    let mut out: Vec<char> = Vec::new();
    for c in it: s.chars()
        invariant
            it.seq() == s@,
            out@ == it.seq().take(it.index() as int),
    {
        out.push(c);
    }
    proof {
        assert(out@ =~= s@);
    }
    out
}

/// The string made of the characters `v[from..to]`.
pub fn string_of_range(v: &[char], from: usize, to: usize) -> (out: String)
    requires
        from <= to <= v@.len(),
    ensures
        out@ == v@.subrange(from as int, to as int),
{
    let mut out = String::new();
    let mut i = from;
    while i < to
        invariant
            from <= i <= to <= v@.len(),
            out@ == v@.subrange(from as int, i as int),
        decreases to - i,
    {
        string_push(&mut out, v[i]);
        assert(v@.subrange(from as int, i + 1) =~= v@.subrange(from as int, i as int).push(v@[i as int]));
        i = i + 1;
    }
    out
}

/// The string made of all characters of `v`.
pub fn string_of_chars(v: &[char]) -> (out: String)
    ensures
        out@ == v@,
{
    let out = string_of_range(v, 0, v.len());
    assert(v@.subrange(0, v@.len() as int) =~= v@);
    out
}

/// A string with the same characters as `s`.
pub fn to_owned_string(s: &str) -> (out: String)
    ensures
        out@ == s@,
{
    let mut out = String::new();
    out.append(s);
    assert(out@ =~= s@);
    out
}

/// Whether `c` is Unicode whitespace (`char::is_whitespace`).
pub fn is_whitespace(c: char) -> (r: bool)
    ensures
        r == is_ws(c),
{
    let u = c as u32;
    (0x09 <= u && u <= 0x0D) || u == 0x20 || u == 0x85 || u == 0xA0 || u == 0x1680 || (0x2000
        <= u && u <= 0x200A) || u == 0x2028 || u == 0x2029 || u == 0x202F || u == 0x205F || u
        == 0x3000
}

/// Bounds `(start, end)` of `trim(v[from..to])` inside `v`.
pub fn trim_bounds(v: &[char], from: usize, to: usize) -> (r: (usize, usize))
    requires
        from <= to <= v@.len(),
    ensures
        from <= r.0 <= r.1 <= to,
        v@.subrange(r.0 as int, r.1 as int) == trim(v@.subrange(from as int, to as int)),
{
    let ghost s = v@.subrange(from as int, to as int);
    let mut i = from;
    while i < to && is_whitespace(v[i])
        invariant
            from <= i <= to <= v@.len(),
            s == v@.subrange(from as int, to as int),
            forall|j: int| 0 <= j < i - from ==> is_ws(s[j]),
        decreases to - i,
    {
        i = i + 1;
    }
    proof {
        lemma_trim_start_skip(s, i - from);
        assert(s.skip(i - from) =~= v@.subrange(i as int, to as int));
        lemma_trim_start_nonws(v@.subrange(i as int, to as int));
    }
    let ghost t = v@.subrange(i as int, to as int);
    let mut j = to;
    while j > i && is_whitespace(v[j - 1])
        invariant
            from <= i <= j <= to <= v@.len(),
            t == v@.subrange(i as int, to as int),
            forall|k: int| j - i <= k < t.len() ==> is_ws(t[k]),
        decreases j - i,
    {
        j = j - 1;
    }
    proof {
        lemma_trim_end_take(t, j - i);
        assert(t.take(j - i) =~= v@.subrange(i as int, j as int));
        lemma_trim_end_nonws(v@.subrange(i as int, j as int));
    }
    (i, j)
}

/// `str::trim`, returning an owned string.
pub fn trim_str(s: &str) -> (out: String)
    ensures
        out@ == trim(s@),
{
    let v = chars_of(s);
    let (a, b) = trim_bounds(&v, 0, v.len());
    assert(v@.subrange(0, v@.len() as int) =~= s@);
    string_of_range(&v, a, b)
}

/// Number of characters of a string slice.
pub fn char_count(s: &str) -> (n: usize)
    ensures
        n == s@.len(),
{
    let v = chars_of(s);
    v.len()
}

/// Equality of two character sequences.
pub fn chars_eq(a: &[char], b: &[char]) -> (r: bool)
    ensures
        r == (a@ == b@),
{
    if a.len() != b.len() {
        return false;
    }
    let mut i: usize = 0;
    while i < a.len()
        invariant
            a@.len() == b@.len(),
            0 <= i <= a@.len(),
            forall|k: int| 0 <= k < i ==> a@[k] == b@[k],
        decreases a.len() - i,
    {
        if a[i] != b[i] {
            return false;
        }
        i = i + 1;
    }
    assert(a@ =~= b@);
    true
}

/// Equality of two string slices.
pub fn str_eq(a: &str, b: &str) -> (r: bool)
    ensures
        r == (a@ == b@),
{
    let va = chars_of(a);
    let vb = chars_of(b);
    chars_eq(&va, &vb)
}

/// The code point of `char::to_ascii_lowercase(c)`.
pub fn ascii_lower_code(c: char) -> (r: u32)
    ensures
        r == ascii_lower_char(c) as u32,
{
    if 'A' <= c && c <= 'Z' {
        (c as u32) + 32
    } else {
        c as u32
    }
}

/// `str::eq_ignore_ascii_case`.
pub fn str_eq_ignore_ascii_case(a: &str, b: &str) -> (r: bool)
    ensures
        r == eq_ignore_ascii_case(a@, b@),
{
    let va = chars_of(a);
    let vb = chars_of(b);
    if va.len() != vb.len() {
        assert(ascii_lower(a@).len() != ascii_lower(b@).len());
        return false;
    }
    let mut i: usize = 0;
    while i < va.len()
        invariant
            va@ == a@,
            vb@ == b@,
            va@.len() == vb@.len(),
            0 <= i <= va@.len(),
            forall|k: int| 0 <= k < i ==> ascii_lower_char(va@[k]) == ascii_lower_char(vb@[k]),
        decreases va.len() - i,
    {
        if ascii_lower_code(va[i]) != ascii_lower_code(vb[i]) {
            assert(ascii_lower(a@)[i as int] != ascii_lower(b@)[i as int]);
            return false;
        }
        i = i + 1;
    }
    assert(ascii_lower(a@) =~= ascii_lower(b@));
    true
}

/// `text` cut to `max_len` characters, with `"..."` appended when it was cut.
pub fn truncate_chars(text: &str, max_len: usize) -> (out: String)
    ensures
        out@ == truncated(text@, max_len as nat),
{
    let v = chars_of(text);
    if v.len() <= max_len {
        return string_of_chars(&v);
    }
    let mut out = string_of_range(&v, 0, max_len);
    push_str(&mut out, "...");
    proof {
        reveal_strlit("...");
        assert(v@.subrange(0, max_len as int) =~= text@.take(max_len as int));
    }
    out
}

/// The first `n` characters of `text` (`chars().take(n).collect()`).
pub fn first_chars(text: &str, n: usize) -> (out: String)
    ensures
        out@ == take_chars(text@, n as nat),
{
    let v = chars_of(text);
    if v.len() <= n {
        return string_of_chars(&v);
    }
    let out = string_of_range(&v, 0, n);
    assert(v@.subrange(0, n as int) =~= text@.take(n as int));
    out
}

/// Words of `s` joined by single spaces (`split_whitespace().join(" ")`).
pub fn collapse_whitespace(s: &str) -> (out: String)
    ensures
        out@ == join(words(s@), seq![' ']),
{
    let v = chars_of(s);
    let n = v.len();
    let mut out = String::new();
    let ghost mut done: Seq<Seq<char>> = seq![];
    let mut first = true;
    let mut i: usize = 0;
    assert(v@.skip(0) =~= v@);
    while i < n
        invariant
            v@ == s@,
            n == v@.len(),
            0 <= i <= n,
            words(s@) == done + words(v@.skip(i as int)),
            out@ == join(done, seq![' ']),
            first == (done.len() == 0),
        decreases n - i,
    {
        let start = i;
        while i < n && is_whitespace(v[i])
            invariant
                v@ == s@,
                n == v@.len(),
                start <= i <= n,
                forall|k: int| start <= k < i ==> is_ws(v@[k]),
            decreases n - i,
        {
            i = i + 1;
        }
        proof {
            let x = v@.skip(start as int);
            assert forall|k: int| 0 <= k < i - start implies is_ws(x[k]) by {
                assert(x[k] == v@[start + k]);
            }
            lemma_trim_start_skip(x, i - start);
            assert(x.skip(i - start) =~= v@.skip(i as int));
            lemma_words_skip_ws(x, i - start);
        }
        if i < n {
            let word_start = i;
            while i < n && !is_whitespace(v[i])
                invariant
                    v@ == s@,
                    n == v@.len(),
                    word_start <= i <= n,
                    forall|k: int| word_start <= k < i ==> !is_ws(v@[k]),
                decreases n - i,
            {
                i = i + 1;
            }
            let ghost w = v@.subrange(word_start as int, i as int);
            proof {
                let y = v@.skip(word_start as int);
                lemma_words_head(y, i - word_start);
                assert(y.take(i - word_start) =~= w);
                assert(y.skip(i - word_start) =~= v@.skip(i as int));
            }
            if !first {
                string_push(&mut out, ' ');
            }
            first = false;
            let word = string_of_range(&v, word_start, i);
            push_str(&mut out, word.as_str());
            proof {
                let d2 = done.push(w);
                assert(d2.drop_last() =~= done);
                if done.len() == 0 {
                    assert(out@ =~= join(d2, seq![' ']));
                } else {
                    assert(out@ =~= join(d2, seq![' ']));
                }
                assert(done + (seq![w] + words(v@.skip(i as int))) =~= d2 + words(v@.skip(i as int)));
                done = d2;
            }
        }
    }
    proof {
        assert(v@.skip(n as int) =~= Seq::<char>::empty());
        assert(done + Seq::<Seq<char>>::empty() =~= done);
    }
    out
}

/// Leading whitespace does not change the words.
pub proof fn lemma_words_skip_ws(x: Seq<char>, k: int)
    requires
        0 <= k <= x.len(),
        forall|j: int| 0 <= j < k ==> is_ws(x[j]),
    ensures
        words(x) == words(x.skip(k)),
{
    lemma_trim_start_skip(x, k);
    lemma_trim_start_suffix(x.skip(k));
    lemma_trim_start_suffix(x);
}

/// A sequence that starts with a word: that word, then the words after it.
pub proof fn lemma_words_head(y: Seq<char>, k: int)
    requires
        0 < k <= y.len(),
        forall|j: int| 0 <= j < k ==> !is_ws(y[j]),
        k < y.len() ==> is_ws(y[k]),
    ensures
        words(y) == seq![y.take(k)] + words(y.skip(k)),
{
    lemma_trim_start_nonws(y);
    lemma_first_ws_exact(y, k);
}

/// `first_ws` is the end of the leading run of non-whitespace.
pub proof fn lemma_first_ws_exact(y: Seq<char>, k: int)
    requires
        0 <= k <= y.len(),
        forall|j: int| 0 <= j < k ==> !is_ws(y[j]),
        k < y.len() ==> is_ws(y[k]),
    ensures
        first_ws(y) == k,
    decreases k,
{
    if k > 0 {
        assert forall|j: int| 0 <= j < k - 1 implies !is_ws(y.drop_first()[j]) by {
            assert(y.drop_first()[j] == y[j + 1]);
        }
        if k < y.len() {
            assert(y.drop_first()[k - 1] == y[k]);
        }
        lemma_first_ws_exact(y.drop_first(), k - 1);
    }
}

/// `find_char` is the first occurrence.
pub proof fn lemma_find_char_exact(x: Seq<char>, c: char, k: int)
    requires
        0 <= k <= x.len(),
        forall|j: int| 0 <= j < k ==> x[j] != c,
        k < x.len() ==> x[k] == c,
    ensures
        find_char(x, c) == k,
    decreases k,
{
    if k > 0 {
        assert forall|j: int| 0 <= j < k - 1 implies x.drop_first()[j] != c by {
            assert(x.drop_first()[j] == x[j + 1]);
        }
        if k < x.len() {
            assert(x.drop_first()[k - 1] == x[k]);
        }
        lemma_find_char_exact(x.drop_first(), c, k - 1);
    }
}

/// The line spans `(start, end)` of `v`: `v[start..end]` are its lines.
pub fn line_spans(v: &[char]) -> (spans: Vec<(usize, usize)>)
    ensures
        forall|k: int| 0 <= k < spans@.len() ==> (#[trigger] spans@[k]).0 <= spans@[k].1 <= v@.len(),
        spans@.map_values(|p: (usize, usize)| v@.subrange(p.0 as int, p.1 as int)) == lines(v@),
{
    let n = v.len();
    let mut spans: Vec<(usize, usize)> = Vec::new();
    let mut start: usize = 0;
    let mut i: usize = 0;
    assert(v@.skip(0) =~= v@);
    while i < n
        invariant
            n == v@.len(),
            0 <= start <= i <= n,
            forall|k: int| start <= k < i ==> v@[k] != '\n',
            forall|k: int| 0 <= k < spans@.len() ==> (#[trigger] spans@[k]).0 <= spans@[k].1 <= n,
            spans@.map_values(|p: (usize, usize)| v@.subrange(p.0 as int, p.1 as int)) + lines(
                v@.skip(start as int),
            ) == lines(v@),
        decreases n - i,
    {
        if v[i] == '\n' {
            let end = if i > start && v[i - 1] == '\r' {
                i - 1
            } else {
                i
            };
            proof {
                let x = v@.skip(start as int);
                assert forall|j: int| 0 <= j < i - start implies x[j] != '\n' by {
                    assert(x[j] == v@[start + j]);
                }
                assert(x[i - start] == v@[i as int]);
                lemma_find_char_exact(x, '\n', i - start);
                assert(x.skip(i - start + 1) =~= v@.skip(i + 1));
                assert(strip_cr(x.take(i - start)) =~= v@.subrange(start as int, end as int));
            }
            let ghost before = spans@.map_values(|p: (usize, usize)| v@.subrange(p.0 as int, p.1 as int));
            spans.push((start, end));
            proof {
                assert(spans@.map_values(|p: (usize, usize)| v@.subrange(p.0 as int, p.1 as int))
                    =~= before.push(v@.subrange(start as int, end as int)));
                assert(before.push(v@.subrange(start as int, end as int)) + lines(v@.skip(i + 1))
                    =~= before + (seq![v@.subrange(start as int, end as int)] + lines(v@.skip(i + 1))));
            }
            start = i + 1;
        }
        i = i + 1;
    }
    if start < n {
        let end = if v[n - 1] == '\r' {
            n - 1
        } else {
            n
        };
        proof {
            let x = v@.skip(start as int);
            assert forall|j: int| 0 <= j < x.len() implies x[j] != '\n' by {
                assert(x[j] == v@[start + j]);
            }
            lemma_find_char_exact(x, '\n', x.len() as int);
            assert(strip_cr(x) =~= v@.subrange(start as int, end as int));
        }
        let ghost before = spans@.map_values(|p: (usize, usize)| v@.subrange(p.0 as int, p.1 as int));
        spans.push((start, end));
        proof {
            assert(spans@.map_values(|p: (usize, usize)| v@.subrange(p.0 as int, p.1 as int))
                =~= before.push(v@.subrange(start as int, end as int)));
            assert(before + seq![v@.subrange(start as int, end as int)] =~= before.push(
                v@.subrange(start as int, end as int),
            ));
        }
    } else {
        proof {
            assert(v@.skip(start as int) =~= Seq::<char>::empty());
            assert(spans@.map_values(|p: (usize, usize)| v@.subrange(p.0 as int, p.1 as int))
                + Seq::<Seq<char>>::empty() =~= spans@.map_values(
                |p: (usize, usize)| v@.subrange(p.0 as int, p.1 as int),
            ));
        }
    }
    spans
}

/// The decimal digit for `d` (`0 <= d < 10`).
pub open spec fn digit_char(d: nat) -> char {
    ((d + 48) as u32) as char
}

/// The decimal representation of `n`, as `format!("{}", n)` writes it.
pub open spec fn decimal(n: nat) -> Seq<char>
    decreases n,
{
    if n < 10 {
        seq![digit_char(n)]
    } else {
        decimal(n / 10).push(digit_char(n % 10))
    }
}

/// The decimal digit character for `d < 10`.
fn digit(d: usize) -> (c: char)
    requires
        d < 10,
    ensures
        c == digit_char(d as nat),
{
    if d == 0 {
        '0'
    } else if d == 1 {
        '1'
    } else if d == 2 {
        '2'
    } else if d == 3 {
        '3'
    } else if d == 4 {
        '4'
    } else if d == 5 {
        '5'
    } else if d == 6 {
        '6'
    } else if d == 7 {
        '7'
    } else if d == 8 {
        '8'
    } else {
        '9'
    }
}

/// Appends the decimal representation of `n` to `out`.
pub fn push_decimal(out: &mut String, n: usize)
    ensures
        final(out)@ == old(out)@ + decimal(n as nat),
    decreases n,
{
    if n >= 10 {
        push_decimal(out, n / 10);
    }
    string_push(out, digit(n % 10));
    proof {
        if n >= 10 {
            assert(final(out)@ =~= old(out)@ + decimal(n as nat));
        } else {
            assert(final(out)@ =~= old(out)@ + decimal(n as nat));
        }
    }
}

/// Appends the decimal representation of a `u64` to `out`.
pub fn push_decimal_u64(out: &mut String, n: u64)
    ensures
        final(out)@ == old(out)@ + decimal(n as nat),
    decreases n,
{
    if n >= 10 {
        push_decimal_u64(out, n / 10);
    }
    string_push(out, digit((n % 10) as usize));
    proof {
        assert(final(out)@ =~= old(out)@ + decimal(n as nat));
    }
}

/// The decimal representation of an integer, with `-` before a negative
/// one (`format!("{}", n)`).
pub open spec fn signed_decimal(n: int) -> Seq<char> {
    if n < 0 {
        seq!['-'] + decimal((-n) as nat)
    } else {
        decimal(n as nat)
    }
}

/// Appends the decimal representation of an `i64` to `out`.
pub fn push_signed_decimal(out: &mut String, n: i64)
    ensures
        final(out)@ == old(out)@ + signed_decimal(n as int),
{
    if n < 0 {
        string_push(out, '-');
        let m: u64 = ((-(n + 1)) as u64) + 1;
        push_decimal_u64(out, m);
        assert(final(out)@ =~= old(out)@ + signed_decimal(n as int));
    } else {
        push_decimal_u64(out, n as u64);
    }
}

/// `needle` occurs in `hay` at position `i`.
pub open spec fn occurs_at(hay: Seq<char>, needle: Seq<char>, i: int) -> bool {
    0 <= i && i + needle.len() <= hay.len() && hay.subrange(i, i + needle.len()) == needle
}

/// `needle` occurs somewhere in `hay` (`str::contains`).
pub open spec fn contains_seq(hay: Seq<char>, needle: Seq<char>) -> bool {
    exists|i: int| #[trigger] occurs_at(hay, needle, i)
}

/// `s` begins with `prefix` (`str::starts_with`).
pub open spec fn starts_with(s: Seq<char>, prefix: Seq<char>) -> bool {
    prefix.len() <= s.len() && s.take(prefix.len() as int) == prefix
}

/// Whether `v[at..]` begins with `p`.
fn chars_match_at(v: &[char], p: &[char], at: usize) -> (r: bool)
    requires
        at <= v@.len(),
    ensures
        r == occurs_at(v@, p@, at as int),
{
    let n = v.len();
    if p.len() > n - at {
        return false;
    }
    let mut k: usize = 0;
    while k < p.len()
        invariant
            n == v@.len(),
            at + p@.len() <= v@.len(),
            0 <= k <= p@.len(),
            forall|j: int| 0 <= j < k ==> v@[at + j] == p@[j],
        decreases p.len() - k,
    {
        if v[at + k] != p[k] {
            assert(v@.subrange(at as int, at + p@.len())[k as int] != p@[k as int]);
            return false;
        }
        k = k + 1;
    }
    assert(v@.subrange(at as int, at + p@.len()) =~= p@);
    true
}

/// Whether `needle` occurs in `hay` (`str::contains`).
pub fn str_contains(hay: &str, needle: &str) -> (r: bool)
    ensures
        r == contains_seq(hay@, needle@),
{
    let v = chars_of(hay);
    let p = chars_of(needle);
    let n = v.len();
    let mut i: usize = 0;
    while i < n
        invariant
            n == v@.len(),
            v@ == hay@,
            p@ == needle@,
            0 <= i <= n,
            forall|j: int| 0 <= j < i ==> !occurs_at(hay@, needle@, j),
        decreases n - i,
    {
        if chars_match_at(&v, &p, i) {
            return true;
        }
        i = i + 1;
    }
    if chars_match_at(&v, &p, n) {
        return true;
    }
    assert forall|j: int| !(#[trigger] occurs_at(hay@, needle@, j)) by {
        if 0 <= j < i {
        }
    }
    false
}

/// Whether `s` begins with `prefix` (`str::starts_with`).
pub fn str_starts_with(s: &str, prefix: &str) -> (r: bool)
    ensures
        r == starts_with(s@, prefix@),
{
    let v = chars_of(s);
    let p = chars_of(prefix);
    let r = chars_match_at(&v, &p, 0);
    proof {
        if p@.len() <= v@.len() {
            assert(v@.subrange(0, p@.len() as int) =~= v@.take(p@.len() as int));
        }
    }
    r
}

/// `s` ends with `suffix` (`str::ends_with`).
pub open spec fn ends_with(s: Seq<char>, suffix: Seq<char>) -> bool {
    suffix.len() <= s.len() && s.skip(s.len() - suffix.len()) == suffix
}

/// Whether `s` ends with `suffix` (`str::ends_with`).
pub fn str_ends_with(s: &str, suffix: &str) -> (r: bool)
    ensures
        r == ends_with(s@, suffix@),
{
    let v = chars_of(s);
    let p = chars_of(suffix);
    if p.len() > v.len() {
        return false;
    }
    let at = v.len() - p.len();
    let r = chars_match_at(&v, &p, at);
    proof {
        assert(v@.subrange(at as int, at + p@.len()) =~= v@.skip(at as int));
    }
    r
}

} // verus!
