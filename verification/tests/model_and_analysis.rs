use parsegen::analysis::{eps, first, follow, predict};
use parsegen::grammar::{Grammar, Rule, Word};
use parsegen::index_set::IndexSet;
use parsegen::refs::SymbolRef;
use parsegen::symbols::{ByteTerminal, NonTerminal, Terminal};

/// The classic expression grammar:
///   E  -> T E2
///   E2 -> '+' T E2 | epsilon
///   T  -> '(' E ')' | 'i'
/// Terminal handles: 0 '+', 1 '(', 2 ')', 3 'i'; non-terminals: 0 E, 1 E2, 2 T.
fn expression_grammar() -> Grammar {
    let mut g = Grammar::new();
    let plus = g.add_terminal(Terminal::Byte(ByteTerminal::from_char('+')));
    let open = g.add_terminal(Terminal::Byte(ByteTerminal::from_char('(')));
    let close = g.add_terminal(Terminal::Byte(ByteTerminal::from_char(')')));
    let ident = g.add_terminal(Terminal::Byte(ByteTerminal::from_char('i')));
    let e = g.add_non_terminal(NonTerminal::new("E".to_string(), "()".to_string()));
    let e2 = g.add_non_terminal(NonTerminal::new("E2".to_string(), "()".to_string()));
    let t = g.add_non_terminal(NonTerminal::new("T".to_string(), "()".to_string()));
    g.add_rule(Rule::new(
        e,
        Word::new(vec![SymbolRef::NonTerminal(t), SymbolRef::NonTerminal(e2)]),
        "()".to_string(),
    ));
    g.add_rule(Rule::new(
        e2,
        Word::new(vec![
            SymbolRef::Terminal(plus),
            SymbolRef::NonTerminal(t),
            SymbolRef::NonTerminal(e2),
        ]),
        "()".to_string(),
    ));
    g.add_rule(Rule::new(e2, Word::new(vec![SymbolRef::Epsilon]), "()".to_string()));
    g.add_rule(Rule::new(
        t,
        Word::new(vec![
            SymbolRef::Terminal(open),
            SymbolRef::NonTerminal(e),
            SymbolRef::Terminal(close),
        ]),
        "()".to_string(),
    ));
    g.add_rule(Rule::new(t, Word::new(vec![SymbolRef::Terminal(ident)]), "()".to_string()));
    g.set_start(e);
    g
}

fn set_of(s: &IndexSet) -> Vec<usize> {
    s.items.clone()
}

#[test]
fn eps_of_terminal_is_false() {
    let g = expression_grammar();
    let word = [SymbolRef::Terminal(parsegen::refs::TerminalRef::new(0))];
    let mut v = IndexSet::new();
    assert!(!eps(&word, &g, &mut v));
}

#[test]
fn eps_of_epsilon_word_is_true() {
    let g = expression_grammar();
    let word = [SymbolRef::Epsilon, SymbolRef::Epsilon];
    let mut v = IndexSet::new();
    assert!(eps(&word, &g, &mut v));
}

#[test]
fn eps_of_nullable_non_terminal() {
    let g = expression_grammar();
    // E2 is nullable, T is not.
    let e2 = [SymbolRef::NonTerminal(parsegen::refs::NonTerminalRef::new(1))];
    let t = [SymbolRef::NonTerminal(parsegen::refs::NonTerminalRef::new(2))];
    assert!(eps(&e2, &g, &mut IndexSet::new()));
    assert!(!eps(&t, &g, &mut IndexSet::new()));
}

#[test]
fn first_sets_match_hand_computation() {
    let g = expression_grammar();
    // FIRST(E) = {'(', 'i'} = terminal handles {1, 3}.
    let e = [SymbolRef::NonTerminal(parsegen::refs::NonTerminalRef::new(0))];
    let fe = first(&e, &g, &mut IndexSet::new());
    assert_eq!(set_of(&fe), vec![1, 3]);
    // FIRST(E2) = {'+'} = {0}.
    let e2 = [SymbolRef::NonTerminal(parsegen::refs::NonTerminalRef::new(1))];
    let fe2 = first(&e2, &g, &mut IndexSet::new());
    assert_eq!(set_of(&fe2), vec![0]);
    // FIRST(T) = {'(', 'i'} = {1, 3}.
    let t = [SymbolRef::NonTerminal(parsegen::refs::NonTerminalRef::new(2))];
    let ft = first(&t, &g, &mut IndexSet::new());
    assert_eq!(set_of(&ft), vec![1, 3]);
}

#[test]
fn follow_sets_match_hand_computation() {
    let g = expression_grammar();
    // FOLLOW(E) = {')'} = {2}.
    let fe = follow(&parsegen::refs::NonTerminalRef::new(0), &g, &mut IndexSet::new());
    assert_eq!(set_of(&fe), vec![2]);
    // FOLLOW(E2) = {')'} = {2}.
    let fe2 = follow(&parsegen::refs::NonTerminalRef::new(1), &g, &mut IndexSet::new());
    assert_eq!(set_of(&fe2), vec![2]);
    // FOLLOW(T) = {'+', ')'} = {0, 2}.
    let ft = follow(&parsegen::refs::NonTerminalRef::new(2), &g, &mut IndexSet::new());
    assert_eq!(set_of(&ft), vec![0, 2]);
}

#[test]
fn predict_sets_match_hand_computation() {
    let g = expression_grammar();
    // predict(E -> T E2) = FIRST(T E2) = {1, 3}.
    assert_eq!(set_of(&predict(&g.rules[0], &g)), vec![1, 3]);
    // predict(E2 -> + T E2) = {0}.
    assert_eq!(set_of(&predict(&g.rules[1], &g)), vec![0]);
    // predict(E2 -> epsilon) = FOLLOW(E2) = {2}.
    assert_eq!(set_of(&predict(&g.rules[2], &g)), vec![2]);
    // predict(T -> ( E )) = {1}; predict(T -> i) = {3}.
    assert_eq!(set_of(&predict(&g.rules[3], &g)), vec![1]);
    assert_eq!(set_of(&predict(&g.rules[4], &g)), vec![3]);
}

#[test]
fn analysis_is_idempotent() {
    let g = expression_grammar();
    let e = [SymbolRef::NonTerminal(parsegen::refs::NonTerminalRef::new(0))];
    let first_run = first(&e, &g, &mut IndexSet::new());
    let second_run = first(&e, &g, &mut IndexSet::new());
    assert_eq!(first_run.items, second_run.items);
    let f1 = follow(&parsegen::refs::NonTerminalRef::new(2), &g, &mut IndexSet::new());
    let f2 = follow(&parsegen::refs::NonTerminalRef::new(2), &g, &mut IndexSet::new());
    assert_eq!(f1.items, f2.items);
    let p1 = predict(&g.rules[2], &g);
    let p2 = predict(&g.rules[2], &g);
    assert_eq!(p1.items, p2.items);
    let mut v1 = IndexSet::new();
    let mut v2 = IndexSet::new();
    let e1 = eps(&[SymbolRef::NonTerminal(parsegen::refs::NonTerminalRef::new(1))], &g, &mut v1);
    let e2 = eps(&[SymbolRef::NonTerminal(parsegen::refs::NonTerminalRef::new(1))], &g, &mut v2);
    assert_eq!(e1, e2);
    assert_eq!(v1.items, v2.items);
}

#[test]
fn grammar_lookups_and_names() {
    let g = expression_grammar();
    assert!(g.get_terminal(0).is_some());
    assert!(g.get_terminal(4).is_none());
    assert!(g.get_non_terminal(2).is_some());
    assert!(g.get_non_terminal(3).is_none());
    assert!(g.has_terminal_with_name("char(+)"));
    assert!(!g.has_terminal_with_name("char(x)"));
    assert!(g.has_non_terminal_with_name("E2"));
    assert!(!g.has_non_terminal_with_name("Q"));
    assert!(g.has_symbol_with_name("char(i)"));
    assert!(g.has_symbol_with_name("T"));
    assert!(!g.has_symbol_with_name("nothing"));
    assert_eq!(g.get_start().unwrap().name, "E");
}

#[test]
fn rules_for_non_terminal_in_declaration_order() {
    let g = expression_grammar();
    let e2_rules = g.get_rules_for_non_terminal(parsegen::refs::NonTerminalRef::new(1));
    assert_eq!(e2_rules, vec![1, 2]);
    let t_rules = g.get_rules_for_non_terminal(parsegen::refs::NonTerminalRef::new(2));
    assert_eq!(t_rules, vec![3, 4]);
}

#[test]
fn symbol_ref_predicates() {
    let g = expression_grammar();
    let t_ref = parsegen::refs::TerminalRef::new(1);
    let nt_ref = parsegen::refs::NonTerminalRef::new(0);
    let s1 = SymbolRef::Terminal(t_ref);
    let s2 = SymbolRef::NonTerminal(nt_ref);
    let s3 = SymbolRef::Epsilon;
    assert!(s1.is_terminal() && !s1.is_epsilon() && !s1.is_non_terminal());
    assert!(s2.is_non_terminal());
    assert!(s3.is_epsilon());
    assert!(s1.eq_terminal(&t_ref));
    assert!(!s2.eq_terminal(&t_ref));
    assert!(s2.eq_non_terminal(&nt_ref));
    assert!(s1.test_index(&g));
    assert!(!SymbolRef::Terminal(parsegen::refs::TerminalRef::new(9)).test_index(&g));
    let w = Word::new(vec![s1, s2, s3]);
    assert!(w.test_indices(&g));
    assert_eq!(w.len(), 3);
    let bad = Word::new(vec![SymbolRef::NonTerminal(parsegen::refs::NonTerminalRef::new(7))]);
    assert!(!bad.test_indices(&g));
}
