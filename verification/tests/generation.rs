use parsegen::generator::{index_to_hex, CodeGenerator};
use parsegen::grammar::{Grammar, Rule, Word};
use parsegen::refs::SymbolRef;
use parsegen::repr::StrRepr;
use parsegen::symbols::{ByteTerminal, NonTerminal, Terminal};
use parsegen::text::dec_string;
use parsegen::trie::TrieTerminal;

/// The grammar `S -> 'a' 'b' | 'b' 'a'` with transform `(res1, res2)`.
fn pair_grammar() -> Grammar {
    let mut g = Grammar::new();
    let a = g.add_terminal(Terminal::Byte(ByteTerminal::from_char('a')));
    let b = g.add_terminal(Terminal::Byte(ByteTerminal::from_char('b')));
    let s = g.add_non_terminal(NonTerminal::new("S".to_string(), "(char, char)".to_string()));
    g.add_rule(Rule::new(
        s,
        Word::new(vec![SymbolRef::Terminal(a), SymbolRef::Terminal(b)]),
        "(res1, res2)".to_string(),
    ));
    g.add_rule(Rule::new(
        s,
        Word::new(vec![SymbolRef::Terminal(b), SymbolRef::Terminal(a)]),
        "(res1, res2)".to_string(),
    ));
    g.set_start(s);
    g
}

/// The grammar `S -> Trie({food, foot, for, bar, baz})` with transform `res1`.
fn words_grammar() -> Grammar {
    let mut g = Grammar::new();
    let mut trie = TrieTerminal::new("a".to_string(), "String".to_string());
    trie.add_word(b"food", "\"food\".to_string()".to_string()).unwrap();
    trie.add_word(b"foot", "\"foot\".to_string()".to_string()).unwrap();
    trie.add_word(b"for", "\"for\".to_string()".to_string()).unwrap();
    trie.add_word(b"bar", "\"bar\".to_string()".to_string()).unwrap();
    trie.add_word(b"baz", "\"baz\".to_string()".to_string()).unwrap();
    let a = g.add_terminal(Terminal::Trie(trie));
    let s = g.add_non_terminal(NonTerminal::new("S".to_string(), "String".to_string()));
    g.add_rule(Rule::new(s, Word::new(vec![SymbolRef::Terminal(a)]), "res1".to_string()));
    g.set_start(s);
    g
}

#[test]
fn hex_and_decimal_rendering() {
    assert_eq!(index_to_hex(0), "0x00000000");
    assert_eq!(index_to_hex(1), "0x00000001");
    assert_eq!(index_to_hex(255), "0x000000ff");
    assert_eq!(index_to_hex(305441741), "0x1234abcd");
    assert_eq!(dec_string(0), "0");
    assert_eq!(dec_string(7), "7");
    assert_eq!(dec_string(97), "97");
    assert_eq!(dec_string(12034), "12034");
}

#[test]
fn grammar_repr_shows_all_tables() {
    let g = pair_grammar();
    assert_eq!(
        g.repr(),
        "Grammar:\n  start: NT(S)\n  terminals: T(char(a)), T(char(b))\n  \
         non_terminals: NT(S)\n  rules:\n    NT(S) -> T(char(a)) T(char(b))\n    \
         NT(S) -> T(char(b)) T(char(a))"
    );
}

#[test]
fn rule_repr_shows_arrow_form() {
    let g = pair_grammar();
    assert_eq!(g.rules[0].repr(&g), "NT(S) -> T(char(a)) T(char(b))");
    let w = Word::new(vec![SymbolRef::Epsilon]);
    assert_eq!(w.repr(&g), "\u{03b5}");
    let v = vec![
        SymbolRef::Terminal(parsegen::refs::TerminalRef::new(0)),
        SymbolRef::Epsilon,
    ];
    assert_eq!(v.repr(&g), "T(char(a)) \u{03b5}");
}

#[test]
fn generated_pair_parser_text() {
    let g = pair_grammar();
    let file = CodeGenerator::new(g).generate().unwrap();
    let lines: Vec<String> = file.lines.clone();
    assert_eq!(lines[0], "use std::iter::Peekable;");
    assert_eq!(lines[2], "// THIS IS A GENERATED PARSER FILE");
    assert!(lines.contains(&"// Terminal: char(a)".to_string()));
    assert!(lines.contains(
        &"fn _parse_t_0x00000000(input: &mut Peekable<impl Iterator<Item = u8>>) -> Result<char, String> {"
            .to_string()
    ));
    assert!(lines.contains(&"    if next == Some(97) {".to_string()));
    assert!(lines.contains(&"        return Ok('a');".to_string()));
    assert!(lines.contains(&"// Non-terminal: S".to_string()));
    assert!(lines.contains(&"    // Predict: {97}".to_string()));
    assert!(lines.contains(&"    // Predict: {98}".to_string()));
    assert!(lines.contains(&"    if next == Some(&97) {".to_string()));
    assert!(lines.contains(&"        let res1 = _parse_t_0x00000000(input)?;".to_string()));
    assert!(lines.contains(&"        return Ok((res1, res2));".to_string()));
    assert!(lines.contains(
        &"pub fn parse(input: &mut Peekable<impl Iterator<Item = u8>>) -> Result<(char, char), String> {"
            .to_string()
    ));
    assert!(lines.contains(&"    _parse_nt_0x00000000(input)".to_string()));
    let text = file.to_string();
    assert!(text.contains("// Rule: NT(S) -> T(char(a)) T(char(b))"));
}

#[test]
fn generated_words_parser_text() {
    let g = words_grammar();
    let file = CodeGenerator::new(g).generate().unwrap();
    let lines: Vec<String> = file.lines.clone();
    assert!(lines.contains(&"// Terminal: a".to_string()));
    assert!(lines.contains(&"    // Predict: {98, 102}".to_string()));
    assert!(lines.contains(&"    if next == Some(&98) || next == Some(&102) {".to_string()));
    assert!(lines.contains(&"        Some(102) => {".to_string()));
    assert!(lines.contains(&"    Some(100) => {".to_string()));
    assert!(lines.contains(&"        return Ok(\"food\".to_string());".to_string()));
    let text = file.to_string();
    assert!(text.contains(
        "Expected [[102, 111, 111, 100], [102, 111, 111, 116], [102, 111, 114], \
         [98, 97, 114], [98, 97, 122]] but found {:?}"
    ));
}

#[test]
fn generation_rejects_predict_overlap() {
    let mut g = Grammar::new();
    let a = g.add_terminal(Terminal::Byte(ByteTerminal::from_char('a')));
    let s = g.add_non_terminal(NonTerminal::new("S".to_string(), "char".to_string()));
    g.add_rule(Rule::new(s, Word::new(vec![SymbolRef::Terminal(a)]), "res1".to_string()));
    g.add_rule(Rule::new(s, Word::new(vec![SymbolRef::Terminal(a)]), "res1".to_string()));
    g.set_start(s);
    let r = CodeGenerator::new(g).generate();
    assert_eq!(
        r.err().map(|e| e.to_string()),
        Some(
            "Grammar is not LL(1): Predict sets for rules of non-terminal S are not disjoint"
                .to_string()
        )
    );
}

#[test]
fn generation_rejects_missing_start_and_empty_non_terminal() {
    let mut g = Grammar::new();
    let a = g.add_terminal(Terminal::Byte(ByteTerminal::from_char('a')));
    let s = g.add_non_terminal(NonTerminal::new("S".to_string(), "char".to_string()));
    g.add_rule(Rule::new(s, Word::new(vec![SymbolRef::Terminal(a)]), "res1".to_string()));
    let r = CodeGenerator::new(g).generate();
    assert_eq!(r.err().map(|e| e.to_string()), Some("Start symbol not set".to_string()));

    let mut g2 = Grammar::new();
    g2.add_terminal(Terminal::Byte(ByteTerminal::from_char('a')));
    let s2 = g2.add_non_terminal(NonTerminal::new("S".to_string(), "char".to_string()));
    g2.set_start(s2);
    let r2 = CodeGenerator::new(g2).generate();
    assert_eq!(
        r2.err().map(|e| e.to_string()),
        Some("No rules for non-terminal S".to_string())
    );
}

#[test]
fn expression_grammar_generates_cleanly() {
    let mut g = Grammar::new();
    let plus = g.add_terminal(Terminal::Byte(ByteTerminal::from_char('+')));
    let open = g.add_terminal(Terminal::Byte(ByteTerminal::from_char('(')));
    let close = g.add_terminal(Terminal::Byte(ByteTerminal::from_char(')')));
    let ident = g.add_terminal(Terminal::Byte(ByteTerminal::from_char('i')));
    let e = g.add_non_terminal(NonTerminal::new("E".to_string(), "()".to_string()));
    let e2 = g.add_non_terminal(NonTerminal::new("E2".to_string(), "()".to_string()));
    let t = g.add_non_terminal(NonTerminal::new("T".to_string(), "()".to_string()));
    g.add_rule(Rule::new(
        e,
        Word::new(vec![SymbolRef::NonTerminal(t), SymbolRef::NonTerminal(e2)]),
        "()".to_string(),
    ));
    g.add_rule(Rule::new(
        e2,
        Word::new(vec![
            SymbolRef::Terminal(plus),
            SymbolRef::NonTerminal(t),
            SymbolRef::NonTerminal(e2),
        ]),
        "()".to_string(),
    ));
    g.add_rule(Rule::new(e2, Word::new(vec![SymbolRef::Epsilon]), "()".to_string()));
    g.add_rule(Rule::new(
        t,
        Word::new(vec![
            SymbolRef::Terminal(open),
            SymbolRef::NonTerminal(e),
            SymbolRef::Terminal(close),
        ]),
        "()".to_string(),
    ));
    g.add_rule(Rule::new(t, Word::new(vec![SymbolRef::Terminal(ident)]), "()".to_string()));
    g.set_start(e);
    let file = CodeGenerator::new(g).generate().unwrap();
    let lines = file.lines.clone();
    // The epsilon rule of E2 dispatches on FOLLOW(E2) = {')'} = byte 41.
    assert!(lines.contains(&"    if next == Some(&41) {".to_string()));
    // An epsilon symbol contributes no binding: the transform follows the
    // predict test directly.
    let i = lines.iter().position(|l| l == "    if next == Some(&41) {").unwrap();
    assert_eq!(lines[i + 1], "        return Ok(());");
}

#[test]
fn trie_results_follow_their_words() {
    let mut trie = TrieTerminal::new("n".to_string(), "u32".to_string());
    trie.add_word(b"ab", "10".to_string()).unwrap();
    trie.add_word(b"cd", "20".to_string()).unwrap();
    let mut g = Grammar::new();
    let t = g.add_terminal(Terminal::Trie(trie));
    let s = g.add_non_terminal(NonTerminal::new("S".to_string(), "u32".to_string()));
    g.add_rule(Rule::new(s, Word::new(vec![SymbolRef::Terminal(t)]), "res1".to_string()));
    g.set_start(s);
    let file = CodeGenerator::new(g).generate().unwrap();
    let lines = file.lines.clone();
    // The arm completing "ab" returns the expression attached to "ab", and
    // likewise for "cd": results stay with their words.
    let i_b = lines.iter().position(|l| l == "    Some(98) => {").unwrap();
    assert_eq!(lines[i_b + 1], "        return Ok(10);");
    let i_d = lines.iter().position(|l| l == "    Some(100) => {").unwrap();
    assert_eq!(lines[i_d + 1], "        return Ok(20);");
}

#[test]
fn generation_is_a_function_of_the_grammar() {
    let first_run = CodeGenerator::new(pair_grammar()).generate().unwrap().to_string();
    let second_run = CodeGenerator::new(pair_grammar()).generate().unwrap().to_string();
    assert_eq!(first_run, second_run);
}
