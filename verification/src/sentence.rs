//! Splitting text into sentences for embedding.
//!
//! The text is first cut after every strong terminal (`. ? ! 。 ？ ！` and
//! newline).  The trimmed, non-empty pieces are then grouped: a group is
//! closed as soon as the tokens it has gathered reach `min_tokens`, or at a
//! piece that ends with a newline (a hard break), and a trailing group that never reached the threshold is appended to the last
//! closed sentence (or stands alone when there is none).

use vstd::prelude::*;

use crate::text::{
    chars_of, is_whitespace, is_ws, lemma_trim_end_prefix, lemma_trim_start_suffix, push_str, string_push,
    trim, trim_start, trim_str, word_count,
};

verus! {

broadcast use vstd::string::group_string_axioms;

/// The characters after which a piece of text ends.
pub open spec fn is_terminal(c: char) -> bool {
    c == '.' || c == '?' || c == '!' || c == '\u{3002}' || c == '\u{ff1f}' || c == '\u{ff01}'
        || c == '\n'
}

/// Index of the first terminal character of `s`, or its length.
pub open spec fn first_terminal(s: Seq<char>) -> int
    decreases s.len(),
{
    if s.len() == 0 {
        0
    } else if is_terminal(s[0]) {
        0
    } else {
        1 + first_terminal(s.drop_first())
    }
}

pub proof fn lemma_first_terminal_bounds(s: Seq<char>)
    ensures
        0 <= first_terminal(s) <= s.len(),
        forall|j: int| 0 <= j < first_terminal(s) ==> !is_terminal(s[j]),
        first_terminal(s) < s.len() ==> is_terminal(s[first_terminal(s)]),
    decreases s.len(),
{
    if s.len() > 0 && !is_terminal(s[0]) {
        lemma_first_terminal_bounds(s.drop_first());
        assert forall|j: int| 0 <= j < first_terminal(s) implies !is_terminal(s[j]) by {
            if j > 0 {
                assert(s[j] == s.drop_first()[j - 1]);
            }
        }
    }
}

/// A prefix free of terminals is skipped by `first_terminal`.
pub proof fn lemma_first_terminal_prefix(a: Seq<char>, b: Seq<char>)
    requires
        forall|j: int| 0 <= j < a.len() ==> !is_terminal(a[j]),
    ensures
        first_terminal(a + b) == a.len() + first_terminal(b),
    decreases a.len(),
{
    if a.len() > 0 {
        assert((a + b).drop_first() =~= a.drop_first() + b);
        lemma_first_terminal_prefix(a.drop_first(), b);
    } else {
        assert(a + b =~= b);
    }
}

/// The pieces of `s`: each ends with a terminal character, except a final
/// piece that holds the non-empty rest.
pub open spec fn raw_pieces(s: Seq<char>) -> Seq<Seq<char>>
    decreases s.len(),
{
    if s.len() == 0 {
        seq![]
    } else {
        let k = first_terminal(s);
        proof {
            lemma_first_terminal_bounds(s);
        }
        if k < s.len() {
            seq![s.take(k + 1)] + raw_pieces(s.skip(k + 1))
        } else {
            seq![s]
        }
    }
}

/// The tokens a trimmed piece counts for: its words, or a third of its
/// characters when that is more.
pub open spec fn piece_tokens(p: Seq<char>) -> nat {
    let w = word_count(p);
    let c = p.len() / 3;
    if w >= c {
        w
    } else {
        c
    }
}

/// State of the grouping after a number of pieces: the closed sentences, the
/// open group and the tokens the open group has gathered.
pub open spec fn group_pieces(pieces: Seq<Seq<char>>, min_tokens: nat) -> (
    Seq<Seq<char>>,
    Seq<char>,
    nat,
)
    decreases pieces.len(),
{
    if pieces.len() == 0 {
        (seq![], seq![], 0)
    } else {
        let (done, cur, tokens) = group_pieces(pieces.drop_last(), min_tokens);
        let p = trim(pieces.last());
        if p.len() == 0 {
            (done, cur, tokens)
        } else {
            let grown = if cur.len() == 0 {
                p
            } else {
                cur + seq![' '] + p
            };
            let total = tokens + piece_tokens(p);
            if total >= min_tokens || pieces.last().last() == '\n' {
                (done.push(trim(grown)), seq![], 0)
            } else {
                (done, grown, total)
            }
        }
    }
}

/// The sentences of `text`.
pub open spec fn sentences(text: Seq<char>, min_tokens: nat) -> Seq<Seq<char>> {
    let (done, cur, _) = group_pieces(raw_pieces(text), min_tokens);
    let rest = trim(cur);
    if rest.len() == 0 {
        done
    } else if done.len() == 0 {
        seq![rest]
    } else {
        done.update(done.len() - 1, done.last() + seq![' '] + rest)
    }
}

// ---------------------------------------------------------------------------
// Every sentence is a clean unit
// ---------------------------------------------------------------------------

/// `s` is non-empty and neither starts nor ends with whitespace.
pub open spec fn is_clean(s: Seq<char>) -> bool {
    s.len() > 0 && !is_ws(s[0]) && !is_ws(s.last())
}

/// A non-empty trim is clean.
proof fn lemma_trim_clean(s: Seq<char>)
    requires
        trim(s).len() > 0,
    ensures
        is_clean(trim(s)),
{
    let t = trim_start(s);
    lemma_trim_start_suffix(s);
    lemma_trim_end_prefix(t);
    assert(trim(s)[0] == t[0]);
}

/// A text holding a character that is not whitespace trims to something.
proof fn lemma_trim_keeps_nonws(s: Seq<char>, j: int)
    requires
        0 <= j < s.len(),
        !is_ws(s[j]),
    ensures
        trim(s).len() > 0,
{
    let t = trim_start(s);
    lemma_trim_start_suffix(s);
    let k = s.len() - t.len();
    assert(j >= k);
    assert(t[j - k] == s[j]);
    lemma_trim_end_prefix(t);
}

/// The closed sentences of a grouping are clean.
proof fn lemma_group_clean(pieces: Seq<Seq<char>>, min_tokens: nat)
    ensures
        forall|i: int|
            0 <= i < group_pieces(pieces, min_tokens).0.len() ==> is_clean(
                #[trigger] group_pieces(pieces, min_tokens).0[i],
            ),
    decreases pieces.len(),
{
    if pieces.len() > 0 {
        lemma_group_clean(pieces.drop_last(), min_tokens);
        let (done, cur, tokens) = group_pieces(pieces.drop_last(), min_tokens);
        let p = trim(pieces.last());
        if p.len() > 0 {
            lemma_trim_clean(pieces.last());
            let grown = if cur.len() == 0 {
                p
            } else {
                cur + seq![' '] + p
            };
            let j = grown.len() - 1;
            assert(grown[j] == p.last());
            lemma_trim_keeps_nonws(grown, j);
            lemma_trim_clean(grown);
        }
    }
}

/// Every sentence is a clean unit: it is not empty and has no surrounding
/// whitespace, whatever the text and the minimum length.
pub proof fn lemma_sentences_are_clean(text: Seq<char>, min_tokens: nat)
    ensures
        forall|i: int|
            0 <= i < sentences(text, min_tokens).len() ==> is_clean(
                #[trigger] sentences(text, min_tokens)[i],
            ),
{
    let pieces = raw_pieces(text);
    lemma_group_clean(pieces, min_tokens);
    let (done, cur, _) = group_pieces(pieces, min_tokens);
    let rest = trim(cur);
    if rest.len() > 0 {
        lemma_trim_clean(cur);
        if done.len() > 0 {
            let last = done.last();
            assert(is_clean(done[done.len() - 1]));
            let merged = last + seq![' '] + rest;
            assert(merged[0] == last[0]);
            assert(merged.last() == rest.last());
        }
    }
}

// ---------------------------------------------------------------------------
// No visible character is lost
// ---------------------------------------------------------------------------

/// The characters of `s` that are not whitespace, in order.
pub open spec fn visible(s: Seq<char>) -> Seq<char>
    decreases s.len(),
{
    if s.len() == 0 {
        seq![]
    } else if is_ws(s.last()) {
        visible(s.drop_last())
    } else {
        visible(s.drop_last()).push(s.last())
    }
}

/// The texts of `ss` one after the other.
pub open spec fn concat_all(ss: Seq<Seq<char>>) -> Seq<char>
    decreases ss.len(),
{
    if ss.len() == 0 {
        seq![]
    } else {
        concat_all(ss.drop_last()) + ss.last()
    }
}

proof fn lemma_visible_append(a: Seq<char>, b: Seq<char>)
    ensures
        visible(a + b) == visible(a) + visible(b),
    decreases b.len(),
{
    if b.len() == 0 {
        assert(a + b =~= a);
        assert(visible(a) + visible(b) =~= visible(a));
    } else {
        assert((a + b).drop_last() =~= a + b.drop_last());
        assert((a + b).last() == b.last());
        lemma_visible_append(a, b.drop_last());
        if !is_ws(b.last()) {
            assert((visible(a) + visible(b.drop_last())).push(b.last()) =~= visible(a) + visible(
                b.drop_last(),
            ).push(b.last()));
        }
    }
}

proof fn lemma_visible_all_ws(s: Seq<char>)
    requires
        forall|i: int| 0 <= i < s.len() ==> is_ws(s[i]),
    ensures
        visible(s).len() == 0,
    decreases s.len(),
{
    if s.len() > 0 {
        lemma_visible_all_ws(s.drop_last());
    }
}

/// A character that is not whitespace is visible.
proof fn lemma_visible_has(s: Seq<char>, j: int)
    requires
        0 <= j < s.len(),
        !is_ws(s[j]),
    ensures
        visible(s).len() > 0,
    decreases s.len(),
{
    if j < s.len() - 1 {
        lemma_visible_has(s.drop_last(), j);
    }
}

/// Something visible is a character that is not whitespace.
proof fn lemma_visible_source(s: Seq<char>)
    requires
        visible(s).len() > 0,
    ensures
        exists|j: int| 0 <= j < s.len() && !is_ws(#[trigger] s[j]),
    decreases s.len(),
{
    if is_ws(s.last()) {
        lemma_visible_source(s.drop_last());
        let j = choose|j: int| 0 <= j < s.drop_last().len() && !is_ws(#[trigger] s.drop_last()[j]);
        assert(s[j] == s.drop_last()[j]);
    } else {
        assert(!is_ws(s[s.len() - 1]));
    }
}

/// Trimming drops only whitespace.
proof fn lemma_visible_trim(s: Seq<char>)
    ensures
        visible(trim(s)) == visible(s),
{
    let t = trim_start(s);
    lemma_trim_start_suffix(s);
    let k = s.len() - t.len();
    assert(s =~= s.take(k) + t);
    lemma_visible_all_ws(s.take(k));
    lemma_visible_append(s.take(k), t);
    assert(visible(s.take(k)) + visible(t) =~= visible(t));
    lemma_trim_end_prefix(t);
    let m = trim(s).len() as int;
    assert(t =~= t.take(m) + t.skip(m));
    assert forall|i: int| 0 <= i < t.skip(m).len() implies is_ws(t.skip(m)[i]) by {
        assert(t.skip(m)[i] == t[m + i]);
    }
    lemma_visible_all_ws(t.skip(m));
    lemma_visible_append(t.take(m), t.skip(m));
    assert(visible(t.take(m)) + visible(t.skip(m)) =~= visible(t.take(m)));
}

proof fn lemma_concat_append(a: Seq<Seq<char>>, b: Seq<Seq<char>>)
    ensures
        concat_all(a + b) == concat_all(a) + concat_all(b),
    decreases b.len(),
{
    if b.len() == 0 {
        assert(a + b =~= a);
        assert(concat_all(a) + concat_all(b) =~= concat_all(a));
    } else {
        assert((a + b).drop_last() =~= a + b.drop_last());
        lemma_concat_append(a, b.drop_last());
        assert(concat_all(a) + concat_all(b.drop_last()) + b.last() =~= concat_all(a) + (
        concat_all(b.drop_last()) + b.last()));
    }
}

proof fn lemma_concat_single(x: Seq<char>)
    ensures
        concat_all(seq![x]) == x,
{
    let s = seq![x];
    assert(s.drop_last() =~= Seq::<Seq<char>>::empty());
    assert(concat_all(s.drop_last()) == Seq::<char>::empty());
    assert(s.last() == x);
    assert(Seq::<char>::empty() + x =~= x);
}

proof fn lemma_visible_space()
    ensures
        visible(seq![' ']).len() == 0,
{
    let s = seq![' '];
    assert(s.last() == ' ');
    assert(is_ws(' '));
    assert(s.drop_last() =~= Seq::<char>::empty());
    assert(visible(s.drop_last()).len() == 0);
    assert(s.len() == 1);
    assert(visible(s) == visible(s.drop_last()));
}

/// The pieces of a text, put back together, are the text.
proof fn lemma_raw_pieces_concat(s: Seq<char>)
    ensures
        concat_all(raw_pieces(s)) == s,
    decreases s.len(),
{
    lemma_first_terminal_bounds(s);
    if s.len() > 0 {
        let k = first_terminal(s);
        if k < s.len() {
            lemma_raw_pieces_concat(s.skip(k + 1));
            lemma_concat_append(seq![s.take(k + 1)], raw_pieces(s.skip(k + 1)));
            lemma_concat_single(s.take(k + 1));
            assert(s.take(k + 1) + s.skip(k + 1) =~= s);
        } else {
            lemma_concat_single(s);
        }
    }
}

/// Grouping keeps the visible characters of the pieces, in order.
proof fn lemma_group_visible(pieces: Seq<Seq<char>>, min_tokens: nat)
    ensures
        ({
            let (done, cur, _) = group_pieces(pieces, min_tokens);
            visible(concat_all(done)) + visible(cur) == visible(concat_all(pieces))
        }),
    decreases pieces.len(),
{
    if pieces.len() > 0 {
        let init = pieces.drop_last();
        let last = pieces.last();
        lemma_group_visible(init, min_tokens);
        let (done, cur, tokens) = group_pieces(init, min_tokens);
        lemma_visible_append(concat_all(init), last);
        let p = trim(last);
        lemma_visible_trim(last);
        if p.len() > 0 {
            let grown = if cur.len() == 0 {
                p
            } else {
                cur + seq![' '] + p
            };
            if cur.len() == 0 {
                lemma_visible_all_ws(cur);
                assert(visible(cur) =~= Seq::<char>::empty());
            } else {
                lemma_visible_append(cur + seq![' '], p);
                lemma_visible_append(cur, seq![' ']);
                lemma_visible_space();
                assert(visible(seq![' ']) =~= Seq::<char>::empty());
            }
            assert(visible(grown) == visible(cur) + visible(p));
            let total = tokens + piece_tokens(p);
            if total >= min_tokens || last.last() == '\n' {
                let done2 = done.push(trim(grown));
                assert(done2.drop_last() =~= done);
                lemma_visible_append(concat_all(done), trim(grown));
                lemma_visible_trim(grown);
                assert(visible(Seq::<char>::empty()) =~= Seq::<char>::empty());
                assert(visible(concat_all(done2)) + visible(Seq::<char>::empty()) =~= visible(
                    concat_all(done),
                ) + visible(cur) + visible(p));
            } else {
                assert(visible(concat_all(done)) + visible(grown) =~= visible(concat_all(done))
                    + visible(cur) + visible(p));
            }
        } else {
            assert(visible(p) =~= Seq::<char>::empty());
            assert(visible(concat_all(init)) + visible(last) =~= visible(concat_all(init)));
        }
    }
}

/// No visible character is lost, duplicated or moved: the sentences, put
/// together, hold the text's non-whitespace characters in order.  In
/// particular a text gives no sentence exactly when it is blank.
pub proof fn lemma_sentences_keep_text(text: Seq<char>, min_tokens: nat)
    ensures
        visible(concat_all(sentences(text, min_tokens))) == visible(text),
        sentences(text, min_tokens).len() == 0 <==> trim(text).len() == 0,
{
    let pieces = raw_pieces(text);
    lemma_raw_pieces_concat(text);
    lemma_group_visible(pieces, min_tokens);
    let (done, cur, _) = group_pieces(pieces, min_tokens);
    let rest = trim(cur);
    let out = sentences(text, min_tokens);
    lemma_visible_trim(cur);
    if rest.len() == 0 {
        assert(visible(rest) =~= Seq::<char>::empty());
        assert(visible(concat_all(done)) + visible(cur) =~= visible(concat_all(done)));
    } else if done.len() == 0 {
        lemma_concat_single(rest);
        assert(concat_all(done) =~= Seq::<char>::empty());
        assert(visible(concat_all(done)) =~= Seq::<char>::empty());
        assert(visible(concat_all(done)) + visible(cur) =~= visible(cur));
    } else {
        let last = done.last();
        let merged = last + seq![' '] + rest;
        assert(out.drop_last() =~= done.drop_last());
        assert(out.last() == merged);
        assert(done.drop_last().push(last) =~= done);
        lemma_visible_append(concat_all(done.drop_last()), merged);
        lemma_visible_append(concat_all(done.drop_last()), last);
        lemma_visible_append(last + seq![' '], rest);
        lemma_visible_append(last, seq![' ']);
        lemma_visible_space();
        assert(visible(seq![' ']) =~= Seq::<char>::empty());
        assert(visible(merged) =~= visible(last) + visible(rest));
        assert(visible(concat_all(out)) =~= visible(concat_all(done)) + visible(cur));
    }
    // Blank texts.
    lemma_sentences_are_clean(text, min_tokens);
    if out.len() == 0 {
        assert(concat_all(out) =~= Seq::<char>::empty());
        assert(visible(concat_all(out)) =~= Seq::<char>::empty());
        if trim(text).len() > 0 {
            lemma_visible_trim(text);
            lemma_trim_clean(text);
            lemma_visible_has(trim(text), 0);
        }
    } else {
        assert(is_clean(out[0]));
        lemma_visible_has(out[0], 0);
        lemma_concat_append(seq![out[0]], out.skip(1));
        assert(seq![out[0]] + out.skip(1) =~= out);
        lemma_concat_single(out[0]);
        lemma_visible_append(out[0], concat_all(out.skip(1)));
        lemma_visible_source(text);
        let j = choose|j: int| 0 <= j < text.len() && !is_ws(#[trigger] text[j]);
        if trim(text).len() == 0 {
            lemma_trim_keeps_nonws(text, j);
        }
    }
}

// ---------------------------------------------------------------------------
// Executable code
// ---------------------------------------------------------------------------

/// Splits a block of text into sentences.
///
/// Pieces shorter than `min_tokens` tokens (words, or a third of the
/// characters when that is more) are merged with their neighbours.
pub fn split_sentences(text: &str, min_tokens: usize) -> (out: Vec<String>)
    ensures
        out@.map_values(|s: String| s@) == sentences(text@, min_tokens as nat),
{
    let mut sentences_out: Vec<String> = Vec::new();
    let mut current_sentence = String::new();
    let mut current_tokens: usize = 0;
    let all_chars = chars_of(text);
    let char_count = all_chars.len();
    assert(char_count == text@.len());
    proof {
        lemma_raw_pieces_len(text@);
    }
    let raw_sentences = custom_split(text);
    let ghost pieces = raw_pieces(text@);
    let mut idx: usize = 0;
    while idx < raw_sentences.len()
        invariant
            raw_sentences@.map_values(|s: String| s@) == pieces,
            pieces == raw_pieces(text@),
            0 <= idx <= raw_sentences@.len(),
            (sentences_out@.map_values(|s: String| s@), current_sentence@, current_tokens as nat)
                == group_pieces(pieces.take(idx as int), min_tokens as nat),
            current_tokens <= chars_total(pieces.take(idx as int)),
            chars_total(pieces) <= usize::MAX,
        decreases raw_sentences.len() - idx,
    {
        let ghost before = pieces.take(idx as int);
        assert(pieces.take(idx + 1).drop_last() =~= before);
        proof {
            lemma_chars_total_take(pieces, idx as int);
        }
        let trimmed = trim_str(raw_sentences[idx].as_str());
        assert(raw_sentences@[idx as int]@ == pieces[idx as int]);
        let tv = chars_of(trimmed.as_str());
        if tv.len() == 0 {
            idx = idx + 1;
            continue;
        }
        let ghost done = sentences_out@.map_values(|s: String| s@);
        let ghost cur = current_sentence@;
        let ghost p = tv@;
        proof {
            assert(pieces.take(idx + 1).last() == pieces[idx as int]);
            assert(p == trim(pieces[idx as int]));
        }
        if current_sentence.as_str().unicode_len() != 0 {
            string_push(&mut current_sentence, ' ');
        }
        push_str(&mut current_sentence, trimmed.as_str());
        let ghost grown = current_sentence@;
        proof {
            if cur.len() == 0 {
                assert(grown =~= p);
            } else {
                assert(grown =~= cur + seq![' '] + p);
            }
        }
        let words = count_words(&tv);
        let thirds = tv.len() / 3;
        let tokens = if words >= thirds {
            words
        } else {
            thirds
        };
        proof {
            lemma_word_count_le(tv@);
            lemma_trim_len(pieces[idx as int]);
        }
        current_tokens = current_tokens + tokens;
        let rv = chars_of(raw_sentences[idx].as_str());
        let is_hard_break = rv[rv.len() - 1] == '\n';
        if current_tokens >= min_tokens || is_hard_break {
            let closed = trim_str(current_sentence.as_str());
            sentences_out.push(closed);
            current_sentence = String::new();
            current_tokens = 0;
            proof {
                assert(sentences_out@.map_values(|s: String| s@) =~= done.push(trim(grown)));
            }
        }
        proof {
            assert(current_sentence@ =~= group_pieces(pieces.take(idx + 1), min_tokens as nat).1);
            assert(sentences_out@.map_values(|s: String| s@) =~= group_pieces(
                pieces.take(idx + 1),
                min_tokens as nat,
            ).0);
        }
        idx = idx + 1;
    }
    assert(pieces.take(raw_sentences@.len() as int) =~= pieces);
    let final_sentence = trim_str(current_sentence.as_str());
    let ghost done = sentences_out@.map_values(|s: String| s@);
    if final_sentence.as_str().unicode_len() != 0 {
        if sentences_out.len() == 0 {
            sentences_out.push(final_sentence);
            proof {
                assert(sentences_out@.map_values(|s: String| s@) =~= seq![trim(current_sentence@)]);
            }
        } else {
            let last_index = sentences_out.len() - 1;
            let mut last = sentences_out[last_index].clone();
            string_push(&mut last, ' ');
            push_str(&mut last, final_sentence.as_str());
            proof {
                assert(last@ =~= done.last() + seq![' '] + trim(current_sentence@));
            }
            sentences_out.set(last_index, last);
            proof {
                assert(sentences_out@.map_values(|s: String| s@) =~= done.update(
                    last_index as int,
                    done.last() + seq![' '] + trim(current_sentence@),
                ));
            }
        }
    }
    proof {
        assert(sentences_out@.map_values(|s: String| s@) =~= sentences(text@, min_tokens as nat));
    }
    sentences_out
}

/// Total number of characters in a sequence of pieces.
pub open spec fn chars_total(pieces: Seq<Seq<char>>) -> nat
    decreases pieces.len(),
{
    if pieces.len() == 0 {
        0
    } else {
        chars_total(pieces.drop_last()) + pieces.last().len()
    }
}

proof fn lemma_chars_total_take(pieces: Seq<Seq<char>>, i: int)
    requires
        0 <= i < pieces.len(),
    ensures
        chars_total(pieces.take(i + 1)) == chars_total(pieces.take(i)) + pieces[i].len(),
        chars_total(pieces.take(i + 1)) <= chars_total(pieces),
    decreases pieces.len(),
{
    assert(pieces.take(i + 1).drop_last() =~= pieces.take(i));
    if i + 1 < pieces.len() {
        lemma_chars_total_take(pieces.drop_last(), i);
        assert(pieces.drop_last().take(i + 1) =~= pieces.take(i + 1));
    } else {
        assert(pieces.take(i + 1) =~= pieces);
    }
}

proof fn lemma_chars_total_concat(a: Seq<Seq<char>>, b: Seq<Seq<char>>)
    ensures
        chars_total(a + b) == chars_total(a) + chars_total(b),
    decreases b.len(),
{
    if b.len() == 0 {
        assert(a + b =~= a);
    } else {
        assert((a + b).drop_last() =~= a + b.drop_last());
        lemma_chars_total_concat(a, b.drop_last());
    }
}

/// The pieces hold exactly the characters of the text.
proof fn lemma_raw_pieces_len(s: Seq<char>)
    ensures
        chars_total(raw_pieces(s)) == s.len(),
    decreases s.len(),
{
    lemma_first_terminal_bounds(s);
    if s.len() > 0 {
        let k = first_terminal(s);
        if k < s.len() {
            assert(raw_pieces(s) == seq![s.take(k + 1)] + raw_pieces(s.skip(k + 1)));
            lemma_raw_pieces_len(s.skip(k + 1));
            lemma_chars_total_concat(seq![s.take(k + 1)], raw_pieces(s.skip(k + 1)));
            assert(seq![s.take(k + 1)].drop_last() =~= Seq::<Seq<char>>::empty());
            assert(chars_total(Seq::<Seq<char>>::empty()) == 0);
            assert(chars_total(seq![s.take(k + 1)]) == k + 1);
        } else {
            assert(raw_pieces(s) == seq![s]);
            assert(seq![s].drop_last() =~= Seq::<Seq<char>>::empty());
            assert(chars_total(Seq::<Seq<char>>::empty()) == 0);
            assert(chars_total(seq![s]) == s.len());
        }
    }
}

proof fn lemma_trim_len(s: Seq<char>)
    ensures
        trim(s).len() <= s.len(),
{
    lemma_trim_start_suffix(s);
    lemma_trim_end_prefix(trim_start(s));
}

proof fn lemma_word_count_le(s: Seq<char>)
    ensures
        word_count(s) <= s.len(),
    decreases s.len(),
{
    if s.len() > 0 {
        lemma_word_count_le(s.drop_last());
    }
}

/// `split_whitespace().count()` over a character sequence.
pub fn count_words(v: &[char]) -> (n: usize)
    ensures
        n == word_count(v@),
{
    let mut n: usize = 0;
    let mut i: usize = 0;
    while i < v.len()
        invariant
            0 <= i <= v@.len(),
            n == word_count(v@.take(i as int)),
            n <= i,
        decreases v.len() - i,
    {
        assert(v@.take(i + 1).drop_last() =~= v@.take(i as int));
        let starts = !is_whitespace(v[i]) && (i == 0 || is_whitespace(v[i - 1]));
        if starts {
            n = n + 1;
        }
        i = i + 1;
    }
    assert(v@.take(v@.len() as int) =~= v@);
    n
}

/// Cuts `text` after every strong terminal character.
fn custom_split(text: &str) -> (result: Vec<String>)
    ensures
        result@.map_values(|s: String| s@) == raw_pieces(text@),
{
    let mut result: Vec<String> = Vec::new();
    let mut current = String::new();
    let v = chars_of(text);
    let mut i: usize = 0;
    proof {
        assert(v@.skip(0) =~= v@);
        assert(current@ + v@.skip(0) =~= text@);
        assert(result@.map_values(|s: String| s@) + raw_pieces(text@) =~= raw_pieces(text@));
    }
    while i < v.len()
        invariant
            v@ == text@,
            0 <= i <= v@.len(),
            forall|j: int| 0 <= j < current@.len() ==> !is_terminal(current@[j]),
            result@.map_values(|s: String| s@) + raw_pieces(current@ + v@.skip(i as int))
                == raw_pieces(text@),
        decreases v.len() - i,
    {
        let c = v[i];
        let ghost before = current@;
        string_push(&mut current, c);
        let mut single = String::new();
        string_push(&mut single, c);
        if is_strong_terminal(single.as_str()) {
            proof {
                let x = before + v@.skip(i as int);
                lemma_first_terminal_prefix(before, v@.skip(i as int));
                assert(x.take(before.len() as int + 1) =~= current@);
                assert(x.skip(before.len() as int + 1) =~= Seq::<char>::empty() + v@.skip(i + 1));
                assert(Seq::<char>::empty() + v@.skip(i + 1) =~= v@.skip(i + 1));
                assert(x.len() > 0);
            }
            let ghost prev = result@.map_values(|s: String| s@);
            let ghost piece = current@;
            result.push(current);
            current = String::new();
            proof {
                assert(result@.map_values(|s: String| s@) =~= prev.push(piece));
                assert(prev.push(piece) + raw_pieces(current@ + v@.skip(i + 1)) =~= prev + (seq![
                    piece,
                ] + raw_pieces(v@.skip(i + 1))));
                assert(current@ + v@.skip(i + 1) =~= v@.skip(i + 1));
            }
        } else {
            proof {
                assert(before + v@.skip(i as int) =~= current@ + v@.skip(i + 1));
            }
        }
        i = i + 1;
    }
    proof {
        assert(v@.skip(i as int) =~= Seq::<char>::empty());
        assert(current@ + v@.skip(i as int) =~= current@);
        lemma_first_terminal_prefix(current@, Seq::<char>::empty());
        assert(current@ + Seq::<char>::empty() =~= current@);
    }
    if current.as_str().unicode_len() != 0 {
        result.push(current);
    }
    proof {
        assert(result@.map_values(|s: String| s@) =~= raw_pieces(text@));
    }
    result
}

/// Whether the last character of `text` is a strong terminal.
fn is_strong_terminal(text: &str) -> (r: bool)
    ensures
        r == (text@.len() > 0 && is_terminal(text@.last())),
{
    let v = chars_of(text);
    let last_char = if v.len() > 0 {
        v[v.len() - 1]
    } else {
        ' '
    };
    last_char == '.' || last_char == '?' || last_char == '!' || last_char == '\u{3002}'
        || last_char == '\u{ff1f}' || last_char == '\u{ff01}' || last_char == '\n'
}

} // verus!
