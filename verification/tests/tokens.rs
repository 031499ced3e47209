use stream_asr::paraformer;
use stream_asr::sense_voice::{
    ctc_collapse, decode, remove_ids, Language, BLANK_ID, TEXT_NORM,
};
use stream_asr::token::{
    is_whitespace, join, parse_tokens, read_token, string_of, to_chars, TokenError,
    TokenIdConverter,
};

fn strings(items: &[&str]) -> Vec<String> {
    items.iter().map(|s| s.to_string()).collect()
}

fn converter(items: &[&str]) -> TokenIdConverter {
    TokenIdConverter::new(strings(items))
}

#[test]
fn whitespace_is_what_the_standard_library_calls_whitespace() {
    let mut code = 0u32;
    while code <= 0x11000 {
        if let Some(c) = char::from_u32(code) {
            assert_eq!(is_whitespace(c), c.is_whitespace());
        }
        code += 1;
    }
}

#[test]
fn chars_and_back() {
    let chars = to_chars("你好 world");
    assert_eq!(chars, vec!['你', '好', ' ', 'w', 'o', 'r', 'l', 'd']);
    assert_eq!(string_of(&chars, 0, 2), "你好");
    assert_eq!(string_of(&chars, 3, 8), "world");
    assert_eq!(string_of(&chars, 4, 4), "");
}

#[test]
fn token_file_takes_the_first_column_of_each_line() {
    let text = "<blank> 0\n<s> 1\n</s> 2\n你 3\n好 4\n<unk> 5\n";
    assert_eq!(parse_tokens(text), strings(&["<blank>", "<s>", "</s>", "你", "好", "<unk>"]));
}

#[test]
fn token_file_skips_blank_lines_and_leading_spaces() {
    let text = "\n  a 1 x\n\n\t\n\u{3000}b\r\nc\n   \nd";
    assert_eq!(parse_tokens(text), strings(&["a", "b", "c", "d"]));
    assert!(parse_tokens("").is_empty());
    assert!(parse_tokens(" \n\n \t \r\n").is_empty());
    assert_eq!(parse_tokens("one"), strings(&["one"]));
}

#[test]
fn token_file_reads_as_lines_and_split_whitespace_do() {
    let text = "a b\n\n  c\td e \r\n\u{a0}\nf\u{2003}g\n\n h";
    let expected: Vec<String> = text
        .lines()
        .filter_map(|line| line.split_whitespace().next())
        .map(|s| s.to_string())
        .collect();
    assert_eq!(parse_tokens(text), expected);
}

#[test]
fn read_token_wants_a_token() {
    let converter = read_token("a\nb\nc\n").unwrap();
    assert_eq!(converter.len(), 3);
    assert_eq!(converter.ids2tokens(&[2, 0]), strings(&["c", "a"]));
    assert_eq!(read_token("").err(), Some(TokenError::NoTokens));
    assert_eq!(read_token("\n \n").err(), Some(TokenError::NoTokens));
}

#[test]
fn unknown_id_is_the_last_token() {
    let c = converter(&["<blank>", "你", "好", "<unk>"]);
    assert_eq!(c.ids2tokens(&[1, 2, 4, 99, 3, 0]), strings(&["你", "好", "<unk>", "<unk>", "<unk>", "<blank>"]));
    assert!(c.ids2tokens(&[]).is_empty());
}

#[test]
fn ids_to_tokens_and_back_is_the_identity_inside_the_table() {
    let c = converter(&["<blank>", "<s>", "</s>", "你", "好", "世", "界", "<unk>"]);
    let ids: Vec<usize> = vec![3, 4, 0, 7, 6, 5, 1, 2, 3];
    let tokens = c.ids2tokens(&ids);
    assert_eq!(c.tokens2ids(&tokens), ids);
}

#[test]
fn token_to_id_takes_the_first_place_and_falls_back_to_the_unknown_token() {
    let c = converter(&["a", "b", "a", "<unk>"]);
    assert_eq!(c.token2id(&"a".to_string()), 0);
    assert_eq!(c.token2id(&"b".to_string()), 1);
    assert_eq!(c.token2id(&"zzz".to_string()), 3);
    // Id 2 repeats the token of id 0: it does not come back.
    assert_eq!(c.tokens2ids(&c.ids2tokens(&[2])), vec![0]);
    // An id outside the table comes back as the id of the unknown token.
    assert_eq!(c.tokens2ids(&c.ids2tokens(&[17])), vec![3]);
}

#[test]
fn join_puts_nothing_between() {
    assert_eq!(join(&strings(&["你", "好", "", "世界"])), "你好世界");
    assert_eq!(join(&Vec::new()), "");
}

#[test]
fn language_names() {
    let names = ["自动", "中文", "英文", "粤语", "日语", "韩语", "无语音"];
    let all = Language::all();
    assert_eq!(all.len(), 7);
    for (language, name) in all.iter().zip(names) {
        assert_eq!(language.to_string(), name);
        assert_eq!(Language::from_str(name).ok(), Some(*language));
    }
    assert_eq!(all[0], Language::Auto);
    assert_eq!(all[6], Language::NoSpeech);
}

#[test]
fn language_codes() {
    let codes: Vec<i32> = Language::all().iter().map(|l| l.code()).collect();
    assert_eq!(codes, vec![0, 3, 4, 7, 11, 12, 13]);
    assert_eq!(TEXT_NORM, 15);
}

#[test]
fn unknown_language_is_an_error_that_keeps_the_name() {
    let error = Language::from_str("Klingon").unwrap_err();
    assert_eq!(error.name, "Klingon");
    assert_eq!(error.message(), "无法识别的语言: Klingon");
    assert!(Language::from_str("").is_err());
    assert!(Language::from_str("中文 ").is_err());
}

#[test]
fn collapse_shortens_runs() {
    assert_eq!(ctc_collapse(&[1, 1, 0, 0, 1, 2, 2, 2, 0]), vec![1, 0, 1, 2, 0]);
    assert_eq!(ctc_collapse(&[5]), vec![5]);
    assert!(ctc_collapse(&[]).is_empty());
}

#[test]
fn collapse_twice_is_collapse_once() {
    let ids = [0usize, 0, 3, 3, 3, 0, 3, 4, 4, 0, 0, 0, 4, 1];
    let once = ctc_collapse(&ids);
    assert_eq!(ctc_collapse(&once), once);
}

#[test]
fn remove_ids_drops_both_ids() {
    assert_eq!(remove_ids(&[0, 1, 2, 3, 0, 2, 4], 0, 2), vec![1, 3, 4]);
    assert_eq!(remove_ids(&[0, 1, 2, 3], BLANK_ID, BLANK_ID), vec![1, 2, 3]);
}

#[test]
fn greedy_decoding_collapses_then_drops_blanks() {
    let c = converter(&["<blank>", "你", "好", "世", "界", "<unk>"]);
    assert_eq!(decode(&[0, 1, 1, 0, 2, 2, 2, 0, 0, 3, 4, 4], &c), "你好世界");
    // A blank between two equal ids keeps them apart.
    assert_eq!(decode(&[1, 0, 1], &c), "你你");
    assert_eq!(decode(&[1, 1, 1], &c), "你");
    // An id outside the table reads as the unknown token.
    assert_eq!(decode(&[9, 9, 0, 2], &c), "<unk>好");
    assert_eq!(decode(&[], &c), "");
    assert_eq!(decode(&[0, 0, 0], &c), "");
}

#[test]
fn decoding_the_decoded_ids_again_changes_nothing_unless_an_id_repeats() {
    let stable = [0usize, 1, 1, 0, 2, 3, 3, 0];
    let once = remove_ids(&ctc_collapse(&stable), 0, 0);
    assert_eq!(once, vec![1, 2, 3]);
    assert_eq!(remove_ids(&ctc_collapse(&once), 0, 0), once);
    let repeating = [1usize, 0, 1];
    let once = remove_ids(&ctc_collapse(&repeating), 0, 0);
    assert_eq!(once, vec![1, 1]);
    assert_eq!(remove_ids(&ctc_collapse(&once), 0, 0), vec![1]);
}

#[test]
fn streaming_decoding_drops_blank_and_sentence_end() {
    let c = converter(&["<blank>", "<s>", "</s>", "你", "好", "<unk>"]);
    assert_eq!(paraformer::BLANK_ID, 0);
    assert_eq!(paraformer::EOS_ID, 2);
    assert_eq!(paraformer::decode(&[3, 0, 4, 2], &c), "你好");
    // Runs are kept: every row stands for a token of its own.
    assert_eq!(paraformer::decode(&[3, 3, 4], &c), "你你好");
    assert_eq!(paraformer::decode(&[1, 77], &c), "<s><unk>");
    assert_eq!(paraformer::decode(&[0, 2, 2], &c), "");
}
