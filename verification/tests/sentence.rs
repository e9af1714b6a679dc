use tepora_core::sentence::split_sentences;

#[test]
fn test_split_sentences_basic() {
    let text = "Hello world. This is a test. Another sentence!";
    let sentences = split_sentences(text, 2);
    assert_eq!(sentences, vec!["Hello world.", "This is a test.", "Another sentence!"]);
}

#[test]
fn test_split_sentences_japanese() {
    let text = "こんにちは。これはテストです！次の文です。";
    let sentences = split_sentences(text, 2);
    assert_eq!(sentences, vec!["こんにちは。", "これはテストです！", "次の文です。"]);
}

#[test]
fn test_split_sentences_min_tokens() {
    let text = "Hi. This is a longer sentence that should stand alone. Bye.";
    let sentences = split_sentences(text, 5);
    assert_eq!(sentences, vec!["Hi. This is a longer sentence that should stand alone. Bye."]);
}

// ---------------------------------------------------------------------------

#[test]
fn split_sentences_empty_and_blank() {
    assert!(split_sentences("", 1).is_empty());
    assert!(split_sentences("   \n ", 1).is_empty());
}

#[test]
fn split_sentences_without_terminator() {
    assert_eq!(split_sentences("no end here", 1), vec!["no end here"]);
}

#[test]
fn sentences_are_never_empty_nor_padded() {
    for text in ["  a.  b!\n\n c ?  ", "。。！", "word", "\n\n", "x. y. z.", " 長い文。 短い。"] {
        for min_tokens in [0, 1, 3, 10] {
            for s in split_sentences(text, min_tokens) {
                assert!(!s.is_empty());
                assert_eq!(s.trim(), s);
            }
        }
    }
}

#[test]
fn newlines_are_hard_breaks() {
    assert_eq!(split_sentences("Hi\nYo\n", 5), vec!["Hi", "Yo"]);
    assert_eq!(split_sentences("Hi. there\nYo", 5), vec!["Hi. there Yo"]);
    assert_eq!(split_sentences("a\n\n\nb", 9), vec!["a b"]);
}

#[test]
fn sentences_keep_every_visible_character() {
    let strip = |s: &str| s.chars().filter(|c| !c.is_whitespace()).collect::<String>();
    for text in ["  a.  b!\n\n c ?  ", "Hi\nYo\n", "word", " \n\t ", "x. y. z.", " 長い文。 短い。"] {
        for min_tokens in [0, 1, 3, 10] {
            let out = split_sentences(text, min_tokens);
            assert_eq!(strip(&out.concat()), strip(text));
            assert_eq!(out.is_empty(), text.trim().is_empty());
        }
    }
}
