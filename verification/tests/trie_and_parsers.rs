use parsegen::cursor::ByteCursor;
use parsegen::trie::TrieTerminal;

fn five_word_trie() -> TrieTerminal {
    let mut trie = TrieTerminal::new("a".to_string(), "String".to_string());
    trie.add_word(b"food", "\"food\".to_string()".to_string()).unwrap();
    trie.add_word(b"foot", "\"foot\".to_string()".to_string()).unwrap();
    trie.add_word(b"for", "\"for\".to_string()".to_string()).unwrap();
    trie.add_word(b"bar", "\"bar\".to_string()".to_string()).unwrap();
    trie.add_word(b"baz", "\"baz\".to_string()".to_string()).unwrap();
    trie
}

#[test]
fn trie_first_bytes_are_f_and_b() {
    let trie = five_word_trie();
    let fb = trie.first_bytes();
    assert_eq!(fb.items, vec![b'b' as usize, b'f' as usize]);
}

#[test]
fn trie_rejects_duplicate_word() {
    let mut trie = five_word_trie();
    let r = trie.add_word(b"food", "again".to_string());
    assert_eq!(r, Err("Word already exists in trie".to_string()));
    assert_eq!(trie.words.len(), 5);
}

#[test]
fn trie_rejects_empty_word() {
    let mut trie = five_word_trie();
    let r = trie.add_word(b"", "nothing".to_string());
    assert_eq!(r, Err("Empty word cannot be added to trie".to_string()));
}

#[test]
fn trie_accepts_prefix_and_extension_words() {
    let mut trie = five_word_trie();
    assert!(trie.add_word(b"fo", "\"fo\".to_string()".to_string()).is_ok());
    assert!(trie.add_word(b"foods", "\"foods\".to_string()".to_string()).is_ok());
    assert_eq!(trie.words.len(), 7);
    assert!(trie.add_word(b"fo", "again".to_string()).is_err());
}

#[test]
fn pair_parser_round_trip() {
    let mut input = ByteCursor::new(b"ab".to_vec());
    assert_eq!(parsegen::pair_parser::parse(&mut input), Ok(('a', 'b')));
    let mut input = ByteCursor::new(b"ba".to_vec());
    assert_eq!(parsegen::pair_parser::parse(&mut input), Ok(('b', 'a')));
}

#[test]
fn pair_parser_reports_expected_and_found() {
    let mut input = ByteCursor::new(b"ac".to_vec());
    assert_eq!(
        parsegen::pair_parser::parse(&mut input),
        Err("Error parsing char(b): Expected 98 but found Some(99)".to_string())
    );
    let mut input = ByteCursor::new(b"ca".to_vec());
    assert_eq!(
        parsegen::pair_parser::parse(&mut input),
        Err("Error parsing S: No matching rule found for Some(99)".to_string())
    );
    let mut input = ByteCursor::new(Vec::new());
    assert_eq!(
        parsegen::pair_parser::parse(&mut input),
        Err("Error parsing S: No matching rule found for None".to_string())
    );
    let mut input = ByteCursor::new(b"a".to_vec());
    assert_eq!(
        parsegen::pair_parser::parse(&mut input),
        Err("Error parsing char(b): Expected 98 but found None".to_string())
    );
}

#[test]
fn words_parser_recognizes_each_word() {
    for w in ["food", "foot", "for", "bar", "baz"] {
        let mut input = ByteCursor::new(w.as_bytes().to_vec());
        assert_eq!(parsegen::words_parser::parse(&mut input), Ok(w.to_string()));
        assert_eq!(input.pos, w.len());
    }
}

#[test]
fn words_parser_foof_fails_at_depth_four() {
    let mut input = ByteCursor::new(b"foof".to_vec());
    let r = parsegen::words_parser::parse(&mut input);
    assert_eq!(
        r,
        Err("Error parsing a: Expected [[102, 111, 111, 100], [102, 111, 111, 116], \
             [102, 111, 114], [98, 97, 114], [98, 97, 122]] but found Some(102)"
            .to_string())
    );
    // f, o, o were consumed by descent, and the diverging f by the last read.
    assert_eq!(input.pos, 4);
}

#[test]
fn words_parser_end_of_input_and_bad_start() {
    let mut input = ByteCursor::new(b"fo".to_vec());
    assert_eq!(
        parsegen::words_parser::parse(&mut input),
        Err("Error parsing a: Expected [[102, 111, 111, 100], [102, 111, 111, 116], \
             [102, 111, 114], [98, 97, 114], [98, 97, 122]] but found None"
            .to_string())
    );
    let mut input = ByteCursor::new(b"zap".to_vec());
    assert_eq!(
        parsegen::words_parser::parse(&mut input),
        Err("Error parsing S: No matching rule found for Some(122)".to_string())
    );
}

#[test]
fn cursor_peek_and_next() {
    let mut c = ByteCursor::new(b"xy".to_vec());
    assert_eq!(c.peek(), Some(b'x'));
    assert_eq!(c.peek(), Some(b'x'));
    assert_eq!(c.next(), Some(b'x'));
    assert_eq!(c.next(), Some(b'y'));
    assert_eq!(c.peek(), None);
    assert_eq!(c.next(), None);
}
