use search_engine::index::redis_index::{index_key, word_counts};
use search_engine::index::tokenizer::{keep_long_words, query_terms, tokenizer};
use search_engine::utils::text::{is_space_char, split_whitespace, starts_with};

fn strings(v: &[&str]) -> Vec<String> {
    v.iter().map(|s| s.to_string()).collect()
}

#[test]
fn whitespace_matches_char_is_whitespace() {
    for u in 0u32..=0x10FFFF {
        if let Some(c) = char::from_u32(u) {
            assert_eq!(is_space_char(c), c.is_whitespace(), "char {:#x}", u);
        }
    }
}

#[test]
fn split_whitespace_matches_std() {
    let samples = [
        "",
        "   ",
        "one",
        "  two  words ",
        "tab\tsep\nline\r\nend",
        "no\u{00A0}break\u{3000}ideographic",
        "mixed \u{2003} spaces\u{85}next",
    ];
    for s in samples {
        let expected: Vec<String> = s.split_whitespace().map(|w| w.to_string()).collect();
        assert_eq!(split_whitespace(s), expected, "sample {:?}", s);
    }
}

#[test]
fn starts_with_prefixes() {
    assert!(starts_with("/private/page", "/private"));
    assert!(starts_with("abc", ""));
    assert!(!starts_with("/pub", "/private"));
    assert!(!starts_with("ab", "abc"));
}

#[test]
fn query_terms_lowercase_every_word() {
    assert_eq!(query_terms("  Rust IS Fun "), strings(&["rust", "is", "fun"]));
    assert_eq!(query_terms(""), Vec::<String>::new());
}

#[test]
fn keep_long_words_counts_bytes() {
    // "é" is two bytes, "éa" three.
    let ws = strings(&["ab", "abc", "é", "éa", "", "the"]);
    assert_eq!(keep_long_words(ws), strings(&["abc", "éa", "the"]));
}

#[test]
fn tokenizer_lowercases_and_drops_short_words() {
    assert_eq!(
        tokenizer("Hello World a an THE Rust\tcrawler"),
        strings(&["hello", "world", "the", "rust", "crawler"])
    );
    assert_eq!(tokenizer("to be or not"), strings(&["not"]));
}

#[test]
fn tokenizer_every_term_long_and_lowercase() {
    let text = "Ünïcode ÉCOLE ab Straße x";
    for t in tokenizer(text) {
        assert!(t.len() > 2);
        assert_eq!(t, t.to_lowercase());
    }
}

#[test]
fn index_key_prefixes_the_word() {
    assert_eq!(index_key("rust"), "index: rust");
    assert_eq!(index_key(""), "index: ");
}

#[test]
fn word_counts_counts_each_word_once() {
    let words = strings(&["rust", "web", "rust", "crawl", "rust", "web"]);
    let counts = word_counts(&words);
    assert_eq!(
        counts,
        vec![("rust".to_string(), 3), ("web".to_string(), 2), ("crawl".to_string(), 1)]
    );
    let total: usize = counts.iter().map(|(_, c)| c).sum();
    assert_eq!(total, words.len());
    assert!(word_counts(&Vec::new()).is_empty());
}

#[test]
fn ascii_terms_ignore_case() {
    let samples = ["Hello World THE rust", "MiXeD cAsE Words here", "a bb CCC dddd", "123 ABC-def ghi!"];
    for text in samples {
        assert_eq!(tokenizer(&text.to_ascii_uppercase()), tokenizer(text));
        assert_eq!(tokenizer(text), tokenizer(&text.to_ascii_lowercase()));
    }
}

#[test]
fn ascii_lowercase_is_letterwise() {
    let all: String = (0u8..128).map(|b| b as char).collect();
    assert_eq!(all.to_lowercase(), all.to_ascii_lowercase());
    assert_eq!(query_terms("ABC xyz Q"), strings(&["abc", "xyz", "q"]));
}
