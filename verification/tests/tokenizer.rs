use femto_gpt::tokenizer::{alphabet, split_entry, AsciiTokenizer, SimpleTokenizer, Tokenizer};

#[test]
fn alphabet_is_sorted_and_distinct() {
    assert_eq!(alphabet("hello"), vec!['e', 'h', 'l', 'o']);
    assert_eq!(alphabet(""), Vec::<char>::new());
    assert_eq!(alphabet("zzz"), vec!['z']);
    assert_eq!(alphabet("b a"), vec![' ', 'a', 'b']);
}

#[test]
fn simple_tokenizer_numbers_characters_in_ascending_order() {
    let t = SimpleTokenizer::new("hello");
    assert_eq!(t.vocab_size(), 4);
    assert_eq!(t.tokenize("hello"), vec![1, 0, 2, 2, 3]);
    assert_eq!(t.tokenize("ole"), vec![3, 2, 0]);
    assert_eq!(t.tokenize(""), Vec::<usize>::new());
}

#[test]
fn simple_tokenizer_untokenizes() {
    let t = SimpleTokenizer::new("hello");
    assert_eq!(t.untokenize(&[1, 0, 2, 2, 3]), "hello");
    assert_eq!(t.untokenize(&[3, 3, 0]), "ooe");
    assert_eq!(t.untokenize(&[]), "");
}

#[test]
fn simple_tokenizer_round_trip() {
    let text = "the quick brown fox\njumps over the lazy dog";
    let t = SimpleTokenizer::new(text);
    assert_eq!(t.vocab_size(), 28);
    assert_eq!(t.untokenize(&t.tokenize(text)), text);
    assert_eq!(t.tokenize("\n"), vec![0]);
    assert_eq!(t.tokenize(" "), vec![1]);
}

#[test]
fn simple_tokenizer_takes_characters_beyond_ascii() {
    let t = SimpleTokenizer::new("aé→a");
    assert_eq!(t.vocab_size(), 3);
    assert_eq!(t.tokenize("→éa"), vec![2, 1, 0]);
    assert_eq!(t.untokenize(&[0, 1, 2]), "aé→");
}

#[test]
fn simple_tokenizer_of_empty_text_has_no_vocabulary() {
    let t = SimpleTokenizer::new("");
    assert_eq!(t.vocab_size(), 0);
    assert_eq!(t.tokenize(""), Vec::<usize>::new());
}

#[test]
fn ascii_tokenizer_uses_character_codes() {
    let t = AsciiTokenizer;
    assert_eq!(t.vocab_size(), 128);
    assert_eq!(t.tokenize("AZ a"), vec![65, 90, 32, 97]);
    assert_eq!(t.untokenize(&[104, 105]), "hi");
    assert_eq!(t.untokenize(&t.tokenize("round trip")), "round trip");
}

#[test]
fn ascii_tokenizer_takes_every_one_byte_code() {
    let t = AsciiTokenizer;
    assert_eq!(t.tokenize("é"), vec![233]);
    assert_eq!(t.untokenize(&[233, 255, 0]), "é\u{ff}\u{0}");
}

#[test]
fn simple_tokenizer_looks_up_single_characters() {
    let t = SimpleTokenizer::new("hello");
    assert_eq!(t.token('h'), Some(1));
    assert_eq!(t.token('o'), Some(3));
    assert_eq!(t.token('x'), None);
    assert_eq!(t.character(0), Some('e'));
    assert_eq!(t.character(3), Some('o'));
    assert_eq!(t.character(4), None);
}

#[test]
fn vocabulary_lines_split_at_the_first_tab() {
    assert_eq!(
        split_entry("hello\t-3.5"),
        Some(("hello".to_string(), "-3.5".to_string()))
    );
    assert_eq!(split_entry("a\tb\tc"), Some(("a".to_string(), "b\tc".to_string())));
    assert_eq!(split_entry("\t"), Some((String::new(), String::new())));
    assert_eq!(split_entry("\t1"), Some((String::new(), "1".to_string())));
    assert_eq!(split_entry("no tab"), None);
    assert_eq!(split_entry(""), None);
}
