use token_merge::{correct_tokens, tokenize_text, Vocabulary};

#[test]
fn tokenizer_output_is_a_token_stream() {
    let text = "東京都に住む。猫が好き";
    let tokens = match tokenize_text(text) {
        Ok(ts) => ts,
        Err(_) => panic!("tokenization failed"),
    };
    assert!(!tokens.is_empty());
    let joined: String = tokens.iter().map(|t| t.text.as_str()).collect();
    assert_eq!(joined, text);
    let mut at = 0;
    for (k, t) in tokens.iter().enumerate() {
        assert_eq!(t.position, k);
        assert_eq!(t.position_length, 1);
        assert_eq!(t.byte_start, at);
        assert_eq!(t.byte_end - t.byte_start, t.text.len());
        at = t.byte_end;
    }
}

#[test]
fn tokenize_then_merge_keeps_text() {
    let text = "東京都に住む";
    let tokens = match tokenize_text(text) {
        Ok(ts) => ts,
        Err(_) => panic!("tokenization failed"),
    };
    let v = Vocabulary::from_entries(vec![text.to_string()]);
    let out = correct_tokens(&tokens, Some(&v));
    let joined: String = out.iter().map(|m| m.text.as_str()).collect();
    assert_eq!(joined, text);
    assert_eq!(out.len(), 1);
    assert_eq!(out[0].byte_start, 0);
    assert_eq!(out[0].byte_end, text.len());
}
