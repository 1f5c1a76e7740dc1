use token_merge::{
    correct_tokens, merge_user_dictionary_words, pass_through, MergedToken, Token, Vocabulary,
};

fn tok(text: &str, byte_start: usize, byte_end: usize, position: usize, len: usize) -> Token {
    Token {
        text: text.to_string(),
        byte_start,
        byte_end,
        position,
        position_length: len,
    }
}

fn vocab(entries: &[&str]) -> Vocabulary {
    Vocabulary::from_entries(entries.iter().map(|s| s.to_string()).collect())
}

fn fields(m: &MergedToken) -> (String, usize, usize, usize, usize) {
    (m.text.clone(), m.byte_start, m.byte_end, m.position, m.position_length)
}

fn token_fields(t: &Token) -> (String, usize, usize, usize, usize) {
    (t.text.clone(), t.byte_start, t.byte_end, t.position, t.position_length)
}

fn joined_text(ms: &[MergedToken]) -> String {
    ms.iter().map(|m| m.text.as_str()).collect()
}

#[test]
fn merges_tokyo_metropolis() {
    let tokens = vec![tok("東京", 0, 6, 0, 1), tok("都", 6, 9, 1, 1), tok("に", 9, 12, 2, 1)];
    let v = vocab(&["東京都"]);
    let b = v.max_entry_chars();
    assert_eq!(b, 3);
    let (out, used) = merge_user_dictionary_words(&tokens, &v, b);
    let got: Vec<_> = out.iter().map(fields).collect();
    assert_eq!(
        got,
        vec![("東京都".to_string(), 0, 9, 0, 1), ("に".to_string(), 9, 12, 2, 1)]
    );
    assert_eq!(used.len(), 1);
    assert!(used.contains(&"東京都".to_string()));
}

#[test]
fn empty_vocabulary_passes_through() {
    let tokens = vec![tok("猫", 0, 3, 0, 1), tok("が", 3, 6, 1, 1)];
    let v = vocab(&[]);
    let b = v.max_entry_chars();
    assert_eq!(b, 1);
    let (out, used) = merge_user_dictionary_words(&tokens, &v, b);
    let got: Vec<_> = out.iter().map(fields).collect();
    let want: Vec<_> = tokens.iter().map(token_fields).collect();
    assert_eq!(got, want);
    assert_eq!(used.len(), 0);
}

#[test]
fn entry_longer_than_remaining_tokens() {
    let tokens = vec![tok("犬", 0, 3, 0, 1)];
    let v = vocab(&["犬猫"]);
    let (out, used) = merge_user_dictionary_words(&tokens, &v, v.max_entry_chars());
    let got: Vec<_> = out.iter().map(fields).collect();
    assert_eq!(got, vec![("犬".to_string(), 0, 3, 0, 1)]);
    assert_eq!(used.len(), 0);
}

#[test]
fn empty_token_stream() {
    let v = vocab(&["東京都"]);
    let (out, used) = merge_user_dictionary_words(&[], &v, 3);
    assert!(out.is_empty());
    assert_eq!(used.len(), 0);
}

#[test]
fn longest_window_wins() {
    let tokens = vec![tok("A", 0, 1, 0, 1), tok("B", 1, 2, 1, 1), tok("C", 2, 3, 2, 1)];
    let v = vocab(&["AB", "ABC"]);
    let (out, used) = merge_user_dictionary_words(&tokens, &v, v.max_entry_chars());
    let got: Vec<_> = out.iter().map(fields).collect();
    assert_eq!(got, vec![("ABC".to_string(), 0, 3, 0, 1)]);
    assert_eq!(used.len(), 1);
    assert!(used.contains(&"ABC".to_string()));
    assert!(!used.contains(&"AB".to_string()));
}

#[test]
fn greedy_scan_does_not_backtrack() {
    // "AB" is taken first, so "BCD" can no longer match.
    let tokens = vec![
        tok("A", 0, 1, 0, 1),
        tok("B", 1, 2, 1, 1),
        tok("C", 2, 3, 2, 1),
        tok("D", 3, 4, 3, 1),
    ];
    let v = vocab(&["AB", "BCD"]);
    let (out, used) = merge_user_dictionary_words(&tokens, &v, v.max_entry_chars());
    let got: Vec<_> = out.iter().map(fields).collect();
    assert_eq!(
        got,
        vec![
            ("AB".to_string(), 0, 2, 0, 1),
            ("C".to_string(), 2, 3, 2, 1),
            ("D".to_string(), 3, 4, 3, 1),
        ]
    );
    assert_eq!(used.len(), 1);
}

#[test]
fn offsets_of_a_merged_run() {
    let tokens = vec![
        tok("x", 0, 1, 0, 1),
        tok("日本", 1, 7, 1, 1),
        tok("語", 7, 10, 2, 2),
        tok("y", 10, 11, 4, 1),
    ];
    let v = vocab(&["日本語"]);
    let (out, _) = merge_user_dictionary_words(&tokens, &v, v.max_entry_chars());
    let got: Vec<_> = out.iter().map(fields).collect();
    assert_eq!(
        got,
        vec![
            ("x".to_string(), 0, 1, 0, 1),
            ("日本語".to_string(), 1, 10, 1, 2),
            ("y".to_string(), 10, 11, 4, 1),
        ]
    );
}

#[test]
fn substring_of_a_token_never_merges() {
    let tokens = vec![tok("東京都", 0, 9, 0, 1), tok("に", 9, 12, 1, 1)];
    let v = vocab(&["京都", "東京"]);
    let (out, used) = merge_user_dictionary_words(&tokens, &v, v.max_entry_chars());
    let got: Vec<_> = out.iter().map(fields).collect();
    let want: Vec<_> = tokens.iter().map(token_fields).collect();
    assert_eq!(got, want);
    assert_eq!(used.len(), 0);
}

#[test]
fn content_is_preserved() {
    let tokens = vec![
        tok("私", 0, 3, 0, 1),
        tok("は", 3, 6, 1, 1),
        tok("東京", 6, 12, 2, 1),
        tok("都", 12, 15, 3, 1),
        tok("に", 15, 18, 4, 1),
        tok("住む", 18, 24, 5, 1),
    ];
    let v = vocab(&["東京都", "に住む", "私は"]);
    let (out, used) = merge_user_dictionary_words(&tokens, &v, v.max_entry_chars());
    assert_eq!(joined_text(&out), "私は東京都に住む");
    assert_eq!(out.len(), 3);
    assert_eq!(used.len(), 3);
}

#[test]
fn disjoint_vocabulary_is_identity() {
    let tokens = vec![tok("a", 0, 1, 0, 1), tok("b", 1, 2, 1, 1), tok("c", 2, 3, 2, 1)];
    let v = vocab(&["ac", "d", "abcd"]);
    let (out, used) = merge_user_dictionary_words(&tokens, &v, v.max_entry_chars());
    let got: Vec<_> = out.iter().map(fields).collect();
    let want: Vec<_> = tokens.iter().map(token_fields).collect();
    assert_eq!(got, want);
    assert_eq!(used.len(), 0);
}

#[test]
fn matching_is_case_sensitive() {
    let tokens = vec![tok("Ab", 0, 2, 0, 1), tok("c", 2, 3, 1, 1)];
    let v = vocab(&["abc"]);
    let (out, _) = merge_user_dictionary_words(&tokens, &v, 3);
    assert_eq!(out.len(), 2);
}

#[test]
fn window_bound_caps_the_run() {
    // With a bound of 2 the three-token entry is out of reach.
    let tokens = vec![tok("A", 0, 1, 0, 1), tok("B", 1, 2, 1, 1), tok("C", 2, 3, 2, 1)];
    let v = vocab(&["ABC"]);
    let (out, used) = merge_user_dictionary_words(&tokens, &v, 2);
    assert_eq!(out.len(), 3);
    assert_eq!(used.len(), 0);
}

#[test]
fn huge_bound_does_not_overflow() {
    let tokens = vec![tok("A", 0, 1, 0, 1), tok("B", 1, 2, 1, 1)];
    let v = vocab(&["AB"]);
    let (out, _) = merge_user_dictionary_words(&tokens, &v, usize::MAX);
    let got: Vec<_> = out.iter().map(fields).collect();
    assert_eq!(got, vec![("AB".to_string(), 0, 2, 0, 1)]);
}

#[test]
fn used_set_holds_each_entry_once() {
    let tokens = vec![
        tok("A", 0, 1, 0, 1),
        tok("B", 1, 2, 1, 1),
        tok("A", 2, 3, 2, 1),
        tok("B", 3, 4, 3, 1),
    ];
    let v = vocab(&["AB"]);
    let (out, used) = merge_user_dictionary_words(&tokens, &v, 2);
    assert_eq!(out.len(), 2);
    assert_eq!(used.len(), 1);
}

#[test]
fn correct_tokens_without_vocabulary() {
    let tokens = vec![tok("猫", 0, 3, 0, 1), tok("が", 3, 6, 1, 1)];
    let out = correct_tokens(&tokens, None);
    let got: Vec<_> = out.iter().map(fields).collect();
    let want: Vec<_> = tokens.iter().map(token_fields).collect();
    assert_eq!(got, want);
    let out2 = pass_through(&tokens);
    assert_eq!(out2.iter().map(fields).collect::<Vec<_>>(), want);
}

#[test]
fn correct_tokens_with_vocabulary() {
    let tokens = vec![tok("東京", 0, 6, 0, 1), tok("都", 6, 9, 1, 1), tok("に", 9, 12, 2, 1)];
    let v = vocab(&["東京都"]);
    let out = correct_tokens(&tokens, Some(&v));
    let got: Vec<_> = out.iter().map(fields).collect();
    assert_eq!(
        got,
        vec![("東京都".to_string(), 0, 9, 0, 1), ("に".to_string(), 9, 12, 2, 1)]
    );
}

#[test]
fn vocabulary_with_only_empty_entry_merges_nothing() {
    // The bound is then 0: no window is tried at all.
    let tokens = vec![tok("A", 0, 1, 0, 1), tok("B", 1, 2, 1, 1)];
    let v = vocab(&[""]);
    assert_eq!(v.max_entry_chars(), 0);
    let out = correct_tokens(&tokens, Some(&v));
    assert_eq!(out.len(), 2);
}
