//! The code generator: turns a validated grammar plus its analysis results
//! into the text of a recursive-descent parser, one recognizer routine per
//! terminal, one parse routine per non-terminal, and one entry point.
//!
//! Generation fails, producing no output, when no start symbol is set, when
//! a non-terminal has no rule, or when the predict sets of two rules of the
//! same non-terminal overlap (the grammar is then not LL(1)); the error
//! names the offending non-terminal. Every emitted line is pinned to a
//! specification function of the grammar, so generation is a pure function
//! of the validated grammar.

use crate::analysis::predict;
use crate::analysis::spec_predict;
use crate::grammar::Grammar;
use crate::grammar::wf_rule;
use crate::grammar::wf_symbol;
use crate::index_set::IndexSet;
use crate::index_set::sorted_elems;
use crate::refs::NonTerminalRef;
use crate::refs::SymbolRef;
use crate::refs::TerminalRef;
use crate::repr::StrRepr;
use crate::repr::nts_join_prefix;
use crate::repr::rule_repr_text;
use crate::repr::start_repr_text;
use crate::repr::sym_repr_text;
use crate::repr::terms_join_prefix;
use crate::symbols::ByteTerminal;
use crate::symbols::Terminal;
use crate::trie::TrieTerminal;
use crate::symbols::first_byte_set;
use crate::text::dec_digits;
use crate::text::dec_string;
use crate::text::hex_digits;
use crate::text::hex_string;
use crate::text::join_prefix;
use crate::text::join_texts;
use crate::trie::TrieNode;
use vstd::prelude::*;
use vstd::string::StringExecFns;

verus! {

/// An ordered sequence of generated text lines.
pub struct CodeFile {
    pub lines: Vec<String>,
}

impl View for CodeFile {
    type V = Seq<Seq<char>>;

    open spec fn view(&self) -> Seq<Seq<char>> {
        self.lines@.map_values(|s: String| s@)
    }
}

impl CodeFile {
    /// An empty file.
    pub fn new() -> (r: CodeFile)
        ensures
            r@ == Seq::<Seq<char>>::empty(),
    {
        let r = CodeFile { lines: Vec::new() };
        proof {
            assert(r@ =~= Seq::<Seq<char>>::empty());
        }
        r
    }

    /// Appends one line.
    pub fn push_line(&mut self, line: String)
        ensures
            final(self)@ == old(self)@.push(line@),
    {
        self.lines.push(line);
        proof {
            assert(self@ =~= old(self)@.push(line@));
        }
    }

    /// The whole file as one string, lines joined with newlines.
    pub fn to_string(&self) -> (r: String)
        ensures
            r@ == join_texts(self@, "\n"@),
    {
        let mut s = String::new();
        let n = self.lines.len();
        for i in 0..n
            invariant
                n == self.lines@.len(),
                s@ == join_prefix(self@, "\n"@, i as int),
        {
            if i > 0 {
                s.append("\n");
            }
            s.append(self.lines[i].as_str());
        }
        s
    }
}

/// The zero-padded hexadecimal form a table index takes in a generated
/// routine name.
pub open spec fn hex_text(n: nat) -> Seq<char> {
    "0x"@ + hex_digits(n, 8)
}

/// Renders a table index the way generated routine names embed it.
pub fn index_to_hex(n: usize) -> (r: String)
    ensures
        r@ == hex_text(n as nat),
{
    let mut s = String::from_str("0x");
    let h = hex_string(n as u64, 8);
    s.append(h.as_str());
    s
}

/// The call of the recognizer routine of terminal `i`.
pub open spec fn t_call_text(i: int, args: Seq<char>) -> Seq<char> {
    "_parse_t_"@ + hex_text(i as nat) + "("@ + args + ")"@
}

/// The call of the parse routine of non-terminal `i`.
pub open spec fn nt_call_text(i: int, args: Seq<char>) -> Seq<char> {
    "_parse_nt_"@ + hex_text(i as nat) + "("@ + args + ")"@
}

/// The call a symbol reference dispatches to: its routine, or a ready `Ok`
/// for the empty string.
pub open spec fn sym_call_text(s: SymbolRef, args: Seq<char>) -> Seq<char> {
    match s {
        SymbolRef::Epsilon => "Ok(())"@,
        SymbolRef::Terminal(t) => t_call_text(t.index as int, args),
        SymbolRef::NonTerminal(nt) => nt_call_text(nt.index as int, args),
    }
}

/// The semantic value an exact-byte recognizer returns: its expression, or
/// unit when none was given.
pub open spec fn byte_result_text(b: ByteTerminal) -> Seq<char> {
    match b.result_expr {
        Some(e) => e@,
        None => "()"@,
    }
}

/// The body of the recognizer of an exact-byte terminal: consume one byte,
/// compare to the literal, succeed with the fixed value or fail naming the
/// terminal, the expected byte and the byte found.
pub open spec fn byte_inner_lines(b: ByteTerminal) -> Seq<Seq<char>> {
    seq![
        "    let next = input.next();"@,
        "    if next == Some("@ + dec_digits(b.byte as nat) + ") {"@,
        "        return Ok("@ + byte_result_text(b) + ");"@,
        "    } else {"@,
        "        return Err(format!(\"Error parsing "@ + b.name@ + ": Expected "@ + dec_digits(
            b.byte as nat,
        ) + " but found {:?}\", next));"@,
        "    }"@,
    ]
}

/// The first `i` bytes of `w` in decimal, joined with `", "`.
pub open spec fn bytes_list_prefix(w: Seq<u8>, i: int) -> Seq<char>
    decreases i,
{
    if i <= 0 {
        Seq::empty()
    } else if i == 1 {
        dec_digits(w[0] as nat)
    } else {
        bytes_list_prefix(w, i - 1) + ", "@ + dec_digits(w[i - 1] as nat)
    }
}

/// One byte-word in the debug form `[102, 111, 111]`.
pub open spec fn bytes_debug_text(w: Seq<u8>) -> Seq<char> {
    "["@ + bytes_list_prefix(w, w.len() as int) + "]"@
}

/// The first `i` byte-words in debug form, joined with `", "`.
pub open spec fn words_list_prefix(ws: Seq<Seq<u8>>, i: int) -> Seq<char>
    decreases i,
{
    if i <= 0 {
        Seq::empty()
    } else if i == 1 {
        bytes_debug_text(ws[0])
    } else {
        words_list_prefix(ws, i - 1) + ", "@ + bytes_debug_text(ws[i - 1])
    }
}

/// A list of byte-words in the debug form `[[102, 111], [98, 97]]`.
pub open spec fn words_debug_text(ws: Seq<Seq<u8>>) -> Seq<char> {
    "["@ + words_list_prefix(ws, ws.len() as int) + "]"@
}

/// The failure statement of a trie recognizer, naming the terminal, every
/// inserted word and the byte found.
pub open spec fn trie_err_text(name: Seq<char>, wtxt: Seq<char>) -> Seq<char> {
    "return Err(format!(\"Error parsing "@ + name + ": Expected "@ + wtxt
        + " but found {:?}\", next));"@
}

/// The match arm of one trie child: succeed where a word completes, descend
/// otherwise.
pub open spec fn trie_child_lines(
    c: TrieNode,
    name: Seq<char>,
    wtxt: Seq<char>,
    ind: Seq<char>,
) -> Seq<Seq<char>>
    decreases c, 2int, 0int,
{
    seq![ind + "Some("@ + dec_digits(c.byte as nat) + ") => {"@] + (match c.result {
        Some(r) => seq![ind + "    return Ok("@ + r@ + ");"@],
        None => trie_match_lines(c, name, wtxt),
    }) + seq![ind + "}"@]
}

/// The match arms of the first `i` children.
pub open spec fn trie_children_prefix(
    children: Seq<TrieNode>,
    i: int,
    name: Seq<char>,
    wtxt: Seq<char>,
    ind: Seq<char>,
) -> Seq<Seq<char>>
    decreases children, 1int, i,
{
    if i <= 0 || i > children.len() {
        Seq::empty()
    } else {
        trie_children_prefix(children, i - 1, name, wtxt, ind) + trie_child_lines(
            children[i - 1],
            name,
            wtxt,
            ind,
        )
    }
}

/// One level of trie descent: consume a byte and match it against the
/// children, failing on anything else.
pub open spec fn trie_match_lines(node: TrieNode, name: Seq<char>, wtxt: Seq<char>) -> Seq<
    Seq<char>,
>
    decreases node, 0int, 0int,
{
    seq!["let next = input.next();"@, "match next {"@] + trie_children_prefix(
        node.children@,
        node.children@.len() as int,
        name,
        wtxt,
        "    "@,
    ) + seq![
        "    _ => {"@,
        "        "@ + trie_err_text(name, wtxt),
        "    }"@,
        "}"@,
    ]
}

/// The body of the recognizer of a trie terminal.
pub open spec fn trie_inner_lines(tr: TrieTerminal) -> Seq<Seq<char>> {
    let name = tr.name@;
    let wtxt = words_debug_text(tr.words@.map_values(|w: Vec<u8>| w@));
    seq!["    let next = input.next();"@, "    match next {"@] + trie_children_prefix(
        tr.children@,
        tr.children@.len() as int,
        name,
        wtxt,
        "        "@,
    ) + seq![
        "        _ => {"@,
        "            "@ + trie_err_text(name, wtxt),
        "        }"@,
        "    }"@,
    ]
}

/// The whole recognizer routine of terminal `ti`.
pub open spec fn term_fn_lines(grammar: &Grammar, ti: int) -> Seq<Seq<char>> {
    let t = grammar.terminals@[ti];
    seq![
        "// Terminal: "@ + t.spec_name(),
        "#[inline]"@,
        "fn _parse_t_"@ + hex_text(ti as nat)
            + "(input: &mut Peekable<impl Iterator<Item = u8>>) -> Result<"@
            + t.spec_result_type() + ", String> {"@,
    ] + (match t {
        Terminal::Byte(b) => byte_inner_lines(b),
        Terminal::Trie(tr) => trie_inner_lines(tr),
    }) + seq!["}"@]
}

/// The bytes able to begin a string matching rule `j`: the union of the
/// leading bytes of the terminals in the rule's predict set.
pub open spec fn predict_byte_set(grammar: &Grammar, j: int) -> Set<usize> {
    Set::new(
        |x: usize|
            exists|t: usize|
                spec_predict(grammar, &grammar.rules@[j]).contains(t) && (t as int)
                    < grammar.terminals@.len() && first_byte_set(
                    grammar.terminals@[t as int],
                ).contains(x),
    )
}

/// Those bytes in ascending order: the order the dispatch condition tests
/// them in.
pub open spec fn predict_bytes_seq(grammar: &Grammar, j: int) -> Seq<usize> {
    sorted_elems(predict_byte_set(grammar, j), 256)
}

/// The first `i` of `bs` as `next == Some(&b)` tests joined with `" || "`.
pub open spec fn cond_prefix(bs: Seq<usize>, i: int) -> Seq<char>
    decreases i,
{
    if i <= 0 {
        Seq::empty()
    } else if i == 1 {
        "next == Some(&"@ + dec_digits(bs[0] as nat) + ")"@
    } else {
        cond_prefix(bs, i - 1) + " || "@ + "next == Some(&"@ + dec_digits(bs[i - 1] as nat)
            + ")"@
    }
}

/// The first `i` of `bs` in decimal, joined with `", "`.
pub open spec fn idx_list_prefix(bs: Seq<usize>, i: int) -> Seq<char>
    decreases i,
{
    if i <= 0 {
        Seq::empty()
    } else if i == 1 {
        dec_digits(bs[0] as nat)
    } else {
        idx_list_prefix(bs, i - 1) + ", "@ + dec_digits(bs[i - 1] as nat)
    }
}

/// How many of the first `i` symbols of `w` are not epsilon: the count of
/// positional bindings they produce.
pub open spec fn nonep_count(w: Seq<SymbolRef>, i: int) -> int
    decreases i,
{
    if i <= 0 {
        0
    } else {
        nonep_count(w, i - 1) + (if w[i - 1] is Epsilon {
            0int
        } else {
            1int
        })
    }
}

/// The binding statements of the first `i` symbols of rule `j`: epsilon
/// contributes nothing, every other symbol a comment and a `let resN`
/// binding of its routine's result.
pub open spec fn rule_sym_lines_prefix(grammar: &Grammar, j: int, i: int) -> Seq<Seq<char>>
    decreases i,
{
    if i <= 0 {
        Seq::empty()
    } else {
        let w = grammar.rules@[j].rhs@;
        rule_sym_lines_prefix(grammar, j, i - 1) + (if w[i - 1] is Epsilon {
            Seq::empty()
        } else {
            seq![
                "        // Symbol: "@ + sym_repr_text(grammar, w[i - 1]),
                "        let res"@ + dec_digits((nonep_count(w, i - 1) + 1) as nat) + " = "@
                    + sym_call_text(w[i - 1], "input"@) + "?;"@,
            ]
        })
    }
}

/// The dispatch branch of rule `j`: its comments, its predict-set test, its
/// symbol bindings and its transform.
pub open spec fn rule_lines(grammar: &Grammar, j: int) -> Seq<Seq<char>> {
    let bs = predict_bytes_seq(grammar, j);
    seq![
        "    // Rule: "@ + rule_repr_text(grammar, &grammar.rules@[j]),
        "    // Predict: {"@ + idx_list_prefix(bs, bs.len() as int) + "}"@,
        "    if "@ + cond_prefix(bs, bs.len() as int) + " {"@,
    ] + rule_sym_lines_prefix(grammar, j, grammar.rules@[j].rhs@.len() as int) + seq![
        "        return Ok("@ + grammar.rules@[j].transform@ + ");"@,
        "    }"@,
    ]
}

/// The branches of the first `j` rules that belong to non-terminal `ni`, in
/// declaration order.
pub open spec fn nt_rules_prefix(grammar: &Grammar, ni: int, j: int) -> Seq<Seq<char>>
    decreases j,
{
    if j <= 0 {
        Seq::empty()
    } else {
        nt_rules_prefix(grammar, ni, j - 1) + (if grammar.rules@[j - 1].lhs.index == ni {
            rule_lines(grammar, j - 1)
        } else {
            Seq::empty()
        })
    }
}

/// The whole parse routine of non-terminal `ni`: peek one byte, try each of
/// its rules in declaration order, fail naming the non-terminal when none
/// matches.
pub open spec fn nt_fn_lines(grammar: &Grammar, ni: int) -> Seq<Seq<char>> {
    let nt = grammar.non_terminals@[ni];
    seq![
        "// Non-terminal: "@ + nt.name@,
        "fn _parse_nt_"@ + hex_text(ni as nat)
            + "(input: &mut Peekable<impl Iterator<Item = u8>>) -> Result<"@ + nt.ast_type@
            + ", String> {"@,
        "    let next = input.peek();"@,
    ] + nt_rules_prefix(grammar, ni, grammar.rules@.len() as int) + seq![
        "    return Err(format!(\"Error parsing "@ + nt.name@
            + ": No matching rule found for {:?}\", input.peek()));"@,
        "}"@,
    ]
}

/// Non-terminal `ni` has at least one rule.
pub open spec fn nt_has_rule(grammar: &Grammar, ni: int) -> bool {
    exists|j: int| 0 <= j < grammar.rules@.len() && (#[trigger] grammar.rules@[j]).lhs.index == ni
}

/// Two distinct rules of non-terminal `ni` have overlapping predict sets:
/// one byte of lookahead could not single out a rule.
pub open spec fn nt_conflict(grammar: &Grammar, ni: int) -> bool {
    exists|j1: int, j2: int|
        0 <= j1 < j2 < grammar.rules@.len() && (#[trigger] grammar.rules@[j1]).lhs.index == ni
            && (#[trigger] grammar.rules@[j2]).lhs.index == ni && !spec_predict(
            grammar,
            &grammar.rules@[j1],
        ).disjoint(spec_predict(grammar, &grammar.rules@[j2]))
}

/// Generation succeeds for non-terminal `ni`.
pub open spec fn nt_gen_ok(grammar: &Grammar, ni: int) -> bool {
    nt_has_rule(grammar, ni) && !nt_conflict(grammar, ni)
}

/// The error generation reports for non-terminal `ni`.
pub open spec fn nt_err_text(grammar: &Grammar, ni: int) -> Seq<char> {
    if !nt_has_rule(grammar, ni) {
        "No rules for non-terminal "@ + grammar.non_terminals@[ni].name@
    } else {
        "Grammar is not LL(1): Predict sets for rules of non-terminal "@
            + grammar.non_terminals@[ni].name@ + " are not disjoint"@
    }
}

/// What a grammar entity contributes to the generated parser.
pub trait GenSource {
    /// The entity's references resolve in the grammar.
    spec fn gen_wf(&self, grammar: &Grammar) -> bool;

    /// Generation of this entity's routine succeeds.
    spec fn gen_ok(&self, grammar: &Grammar) -> bool;

    /// The lines `gen_function` appends on success.
    spec fn spec_lines(&self, grammar: &Grammar) -> Seq<Seq<char>>;

    /// The message `gen_function` reports on failure.
    spec fn spec_err(&self, grammar: &Grammar) -> Seq<char>;

    /// What `gen_call` returns.
    spec fn spec_call(&self, grammar: &Grammar, args: Seq<char>) -> Seq<char>;

    /// Appends the entity's routine to `file`, or reports why the grammar
    /// admits none.
    fn gen_function(&self, grammar: &Grammar, file: &mut CodeFile) -> (r: Result<(), String>)
        requires
            grammar.wf(),
            self.gen_wf(grammar),
        ensures
            r is Ok <==> self.gen_ok(grammar),
            r is Ok ==> final(file)@ == old(file)@ + self.spec_lines(grammar),
            r is Err ==> (r->Err_0)@ == self.spec_err(grammar),
    ;

    /// The expression that invokes the entity's routine on `args`.
    fn gen_call(&self, grammar: &Grammar, args: String) -> (r: String)
        requires
            grammar.wf(),
            self.gen_wf(grammar),
        ensures
            r@ == self.spec_call(grammar, args@),
    ;
}

/// Renders one byte-word the way the debug form of a byte slice prints.
fn render_bytes_debug(w: &Vec<u8>) -> (r: String)
    ensures
        r@ == bytes_debug_text(w@),
{
    let mut s = String::from_str("[");
    let n = w.len();
    for i in 0..n
        invariant
            n == w@.len(),
            s@ == "["@ + bytes_list_prefix(w@, i as int),
    {
        if i > 0 {
            s.append(", ");
        }
        let d = dec_string(w[i] as u64);
        s.append(d.as_str());
    }
    s.append("]");
    s
}

/// Renders the inserted words of a trie the way the debug form of a word
/// list prints.
fn render_words_debug(ws: &Vec<Vec<u8>>) -> (r: String)
    ensures
        r@ == words_debug_text(ws@.map_values(|w: Vec<u8>| w@)),
{
    let ghost m = ws@.map_values(|w: Vec<u8>| w@);
    let mut s = String::from_str("[");
    let n = ws.len();
    for i in 0..n
        invariant
            n == ws@.len(),
            m == ws@.map_values(|w: Vec<u8>| w@),
            s@ == "["@ + words_list_prefix(m, i as int),
    {
        if i > 0 {
            s.append(", ");
        }
        let d = render_bytes_debug(&ws[i]);
        s.append(d.as_str());
    }
    s.append("]");
    s
}

/// Appends the match arms of `children` to `file`, one per child, at the
/// given indent.
fn gen_trie_children(
    children: &Vec<TrieNode>,
    name: &str,
    wtxt: &str,
    ind: &str,
    file: &mut CodeFile,
)
    ensures
        final(file)@ == old(file)@ + trie_children_prefix(
            children@,
            children@.len() as int,
            name@,
            wtxt@,
            ind@,
        ),
    decreases *children, 1int, 0int,
{
    let n = children.len();
    for i in 0..n
        invariant
            n == children@.len(),
            file@ == old(file)@ + trie_children_prefix(
                children@,
                i as int,
                name@,
                wtxt@,
                ind@,
            ),
        decreases n - i,
    {
        proof {
            vstd::std_specs::vec::axiom_vec_index_decreases(*children, i as int);
        }
        let ghost pre = file@;
        let mut arm = ind.to_owned();
        arm.append("Some(");
        let d = dec_string(children[i].byte as u64);
        arm.append(d.as_str());
        arm.append(") => {");
        file.push_line(arm);
        match &children[i].result {
            Some(res) => {
                let mut ok_line = ind.to_owned();
                ok_line.append("    return Ok(");
                ok_line.append(res.as_str());
                ok_line.append(");");
                file.push_line(ok_line);
            },
            None => {
                gen_trie_match(&children[i], name, wtxt, file);
            },
        }
        let mut close = ind.to_owned();
        close.append("}");
        file.push_line(close);
        proof {
            assert(file@ =~~= pre + trie_child_lines(
                children@[i as int],
                name@,
                wtxt@,
                ind@,
            ));
            assert(file@ =~~= old(file)@ + trie_children_prefix(
                children@,
                i + 1,
                name@,
                wtxt@,
                ind@,
            ));
        }
    }
}

/// Appends one level of trie descent to `file`.
fn gen_trie_match(node: &TrieNode, name: &str, wtxt: &str, file: &mut CodeFile)
    ensures
        final(file)@ == old(file)@ + trie_match_lines(*node, name@, wtxt@),
    decreases *node, 0int, 0int,
{
    file.push_line("let next = input.next();".to_owned());
    file.push_line("match next {".to_owned());
    gen_trie_children(&node.children, name, wtxt, "    ", file);
    file.push_line("    _ => {".to_owned());
    let mut err_line = String::from_str("        ");
    err_line.append("return Err(format!(\"Error parsing ");
    err_line.append(name);
    err_line.append(": Expected ");
    err_line.append(wtxt);
    err_line.append(" but found {:?}\", next));");
    file.push_line(err_line);
    file.push_line("    }".to_owned());
    file.push_line("}".to_owned());
    proof {
        assert(file@ =~~= old(file)@ + trie_match_lines(*node, name@, wtxt@));
    }
}

impl GenSource for TerminalRef {
    open spec fn gen_wf(&self, grammar: &Grammar) -> bool {
        self.index < grammar.terminals@.len()
    }

    open spec fn gen_ok(&self, grammar: &Grammar) -> bool {
        true
    }

    open spec fn spec_lines(&self, grammar: &Grammar) -> Seq<Seq<char>> {
        term_fn_lines(grammar, self.index as int)
    }

    open spec fn spec_err(&self, grammar: &Grammar) -> Seq<char> {
        Seq::empty()
    }

    open spec fn spec_call(&self, grammar: &Grammar, args: Seq<char>) -> Seq<char> {
        t_call_text(self.index as int, args)
    }

    fn gen_function(&self, grammar: &Grammar, file: &mut CodeFile) -> (r: Result<(), String>) {
        let t = self.deref(grammar);
        let ghost pre = file@;
        let mut c = String::from_str("// Terminal: ");
        c.append(t.name());
        file.push_line(c);
        file.push_line("#[inline]".to_owned());
        let mut header = String::from_str("fn _parse_t_");
        let hx = index_to_hex(self.index());
        header.append(hx.as_str());
        header.append("(input: &mut Peekable<impl Iterator<Item = u8>>) -> Result<");
        let rt = t.result_type();
        header.append(rt.as_str());
        header.append(", String> {");
        file.push_line(header);
        match t {
            Terminal::Byte(b) => {
                file.push_line("    let next = input.next();".to_owned());
                let mut l1 = String::from_str("    if next == Some(");
                let d = dec_string(b.byte as u64);
                l1.append(d.as_str());
                l1.append(") {");
                file.push_line(l1);
                let mut l2 = String::from_str("        return Ok(");
                match &b.result_expr {
                    Some(e) => l2.append(e.as_str()),
                    None => l2.append("()"),
                }
                l2.append(");");
                file.push_line(l2);
                file.push_line("    } else {".to_owned());
                let mut l3 = String::from_str(
                    "        return Err(format!(\"Error parsing ",
                );
                l3.append(b.name.as_str());
                l3.append(": Expected ");
                l3.append(d.as_str());
                l3.append(" but found {:?}\", next));");
                file.push_line(l3);
                file.push_line("    }".to_owned());
            },
            Terminal::Trie(tr) => {
                let wtxt = render_words_debug(&tr.words);
                file.push_line("    let next = input.next();".to_owned());
                file.push_line("    match next {".to_owned());
                gen_trie_children(
                    &tr.children,
                    tr.name.as_str(),
                    wtxt.as_str(),
                    "        ",
                    file,
                );
                file.push_line("        _ => {".to_owned());
                let mut err_line = String::from_str("            ");
                err_line.append("return Err(format!(\"Error parsing ");
                err_line.append(tr.name.as_str());
                err_line.append(": Expected ");
                err_line.append(wtxt.as_str());
                err_line.append(" but found {:?}\", next));");
                file.push_line(err_line);
                file.push_line("        }".to_owned());
                file.push_line("    }".to_owned());
            },
        }
        file.push_line("}".to_owned());
        proof {
            assert(file@ =~~= pre + term_fn_lines(grammar, self.index as int));
        }
        Ok(())
    }

    fn gen_call(&self, grammar: &Grammar, args: String) -> (r: String) {
        let mut s = String::from_str("_parse_t_");
        let hx = index_to_hex(self.index());
        s.append(hx.as_str());
        s.append("(");
        s.append(args.as_str());
        s.append(")");
        s
    }
}

impl GenSource for SymbolRef {
    open spec fn gen_wf(&self, grammar: &Grammar) -> bool {
        wf_symbol(grammar, *self)
    }

    open spec fn gen_ok(&self, grammar: &Grammar) -> bool {
        match *self {
            SymbolRef::Epsilon => true,
            SymbolRef::Terminal(_) => true,
            SymbolRef::NonTerminal(nt) => nt_gen_ok(grammar, nt.index as int),
        }
    }

    open spec fn spec_lines(&self, grammar: &Grammar) -> Seq<Seq<char>> {
        match *self {
            SymbolRef::Epsilon => Seq::empty(),
            SymbolRef::Terminal(t) => term_fn_lines(grammar, t.index as int),
            SymbolRef::NonTerminal(nt) => nt_fn_lines(grammar, nt.index as int),
        }
    }

    open spec fn spec_err(&self, grammar: &Grammar) -> Seq<char> {
        match *self {
            SymbolRef::NonTerminal(nt) => nt_err_text(grammar, nt.index as int),
            _ => Seq::empty(),
        }
    }

    open spec fn spec_call(&self, grammar: &Grammar, args: Seq<char>) -> Seq<char> {
        sym_call_text(*self, args)
    }

    fn gen_function(&self, grammar: &Grammar, file: &mut CodeFile) -> (r: Result<(), String>) {
        match self {
            SymbolRef::Epsilon => {
                proof {
                    assert(file@ =~= old(file)@ + Seq::<Seq<char>>::empty());
                }
                Ok(())
            },
            SymbolRef::Terminal(t) => t.gen_function(grammar, file),
            SymbolRef::NonTerminal(nt) => nt.gen_function(grammar, file),
        }
    }

    fn gen_call(&self, grammar: &Grammar, args: String) -> (r: String) {
        match self {
            SymbolRef::Epsilon => String::from_str("Ok(())"),
            SymbolRef::Terminal(t) => t.gen_call(grammar, args),
            SymbolRef::NonTerminal(nt) => nt.gen_call(grammar, args),
        }
    }
}

impl GenSource for NonTerminalRef {
    open spec fn gen_wf(&self, grammar: &Grammar) -> bool {
        self.index < grammar.non_terminals@.len()
    }

    open spec fn gen_ok(&self, grammar: &Grammar) -> bool {
        nt_gen_ok(grammar, self.index as int)
    }

    open spec fn spec_lines(&self, grammar: &Grammar) -> Seq<Seq<char>> {
        nt_fn_lines(grammar, self.index as int)
    }

    open spec fn spec_err(&self, grammar: &Grammar) -> Seq<char> {
        nt_err_text(grammar, self.index as int)
    }

    open spec fn spec_call(&self, grammar: &Grammar, args: Seq<char>) -> Seq<char> {
        nt_call_text(self.index as int, args)
    }

    #[verifier::rlimit(50)]
    fn gen_function(&self, grammar: &Grammar, file: &mut CodeFile) -> (r: Result<(), String>) {
        let ghost base = file@;
        let ghost ni_g = self.index as int;
        let ni = self.index();
        let rlist = grammar.get_rules_for_non_terminal(*self);
        if rlist.len() == 0 {
            proof {
                if nt_has_rule(grammar, ni_g) {
                    let j = choose|j: int|
                        0 <= j < grammar.rules@.len() && (#[trigger] grammar.rules@[j]).lhs.index
                            == ni;
                    assert(rlist@.contains(j as usize));
                }
            }
            let mut msg = String::from_str("No rules for non-terminal ");
            msg.append(self.deref(grammar).name.as_str());
            return Err(msg);
        }
        proof {
            assert(rlist@[0] < grammar.rules@.len() && grammar.rules@[rlist@[0] as int].lhs.index
                == ni);
            assert(nt_has_rule(grammar, ni_g));
        }
        let nt = self.deref(grammar);
        let mut c = String::from_str("// Non-terminal: ");
        c.append(nt.name.as_str());
        file.push_line(c);
        let mut header = String::from_str("fn _parse_nt_");
        let hx = index_to_hex(ni);
        header.append(hx.as_str());
        header.append("(input: &mut Peekable<impl Iterator<Item = u8>>) -> Result<");
        header.append(nt.ast_type.as_str());
        header.append(", String> {");
        file.push_line(header);
        file.push_line("    let next = input.peek();".to_owned());
        let ghost hdr = seq![
            "// Non-terminal: "@ + nt.name@,
            "fn _parse_nt_"@ + hex_text(ni as nat)
                + "(input: &mut Peekable<impl Iterator<Item = u8>>) -> Result<"@
                + nt.ast_type@ + ", String> {"@,
            "    let next = input.peek();"@,
        ];
        proof {
            assert(file@ =~~= base + hdr);
        }
        let n = grammar.rules.len();
        let mut acc = IndexSet::new();
        let mut j: usize = 0;
        while j < n
            invariant
                grammar.wf(),
                self.index < grammar.non_terminals@.len(),
                ni == self.index,
                ni_g == ni as int,
                n == grammar.rules@.len(),
                j <= n,
                acc.wf(),
                file@ == base + hdr + nt_rules_prefix(grammar, ni_g, j as int),
                forall|x: usize|
                    acc@.contains(x) <==> exists|jj: int|
                        0 <= jj < j && (#[trigger] grammar.rules@[jj]).lhs.index == ni
                            && spec_predict(grammar, &grammar.rules@[jj]).contains(x),
                forall|j1: int, j2: int|
                    0 <= j1 < j2 < j && (#[trigger] grammar.rules@[j1]).lhs.index == ni && (
                    #[trigger] grammar.rules@[j2]).lhs.index == ni ==> spec_predict(
                        grammar,
                        &grammar.rules@[j1],
                    ).disjoint(spec_predict(grammar, &grammar.rules@[j2])),
            decreases n - j,
        {
            if grammar.rules[j].lhs.index() == ni {
                proof {
                    assert(wf_rule(grammar, &grammar.rules@[j as int]));
                }
                let p = predict(&grammar.rules[j], grammar);
                let disjoint = p.is_disjoint(&acc);
                if !disjoint {
                    proof {
                        let x = choose|x: usize| p@.contains(x) && acc@.contains(x);
                        let jj = choose|jj: int|
                            0 <= jj < j && (#[trigger] grammar.rules@[jj]).lhs.index == ni
                                && spec_predict(grammar, &grammar.rules@[jj]).contains(x);
                        assert(!spec_predict(grammar, &grammar.rules@[jj]).disjoint(
                            spec_predict(grammar, &grammar.rules@[j as int]),
                        ));
                        assert(nt_conflict(grammar, ni_g));
                        assert(grammar.rules@[j as int].lhs.index == ni);
                        assert(nt_has_rule(grammar, ni_g));
                    }
                    let mut msg = String::from_str(
                        "Grammar is not LL(1): Predict sets for rules of non-terminal ",
                    );
                    let nt_here = self.deref(grammar);
                    msg.append(nt_here.name.as_str());
                    msg.append(" are not disjoint");
                    proof {
                        assert(msg@ =~= nt_err_text(grammar, ni_g));
                    }
                    return Err(msg);
                }
                // The dispatch bytes: the leading bytes of every terminal in
                // the rule's predict set, in ascending order.
                let mut bytes = IndexSet::new();
                let pn = p.items.len();
                let mut k: usize = 0;
                while k < pn
                    invariant
                        grammar.wf(),
                        p.wf(),
                        bytes.wf(),
                        pn == p.items@.len(),
                        k <= pn,
                        crate::analysis::valid_terms(grammar, p@),
                        forall|x: usize| #[trigger]
                            bytes@.contains(x) <==> exists|kk: int|
                                0 <= kk < k && first_byte_set(
                                    grammar.terminals@[p.items@[kk] as int],
                                ).contains(x),
                    decreases pn - k,
                {
                    let ti = p.items[k];
                    proof {
                        assert(p@.contains(p.items@[k as int]));
                    }
                    let t = &grammar.terminals[ti];
                    let fb = t.first_bytes();
                    let ghost bytes_before = bytes@;
                    bytes.union_with(&fb);
                    proof {
                        assert forall|x: usize| #[trigger]
                            bytes@.contains(x) implies exists|kk: int|
                            0 <= kk < k + 1 && first_byte_set(
                                grammar.terminals@[p.items@[kk] as int],
                            ).contains(x) by {
                            if bytes_before.contains(x) {
                                let kk = choose|kk: int|
                                    0 <= kk < k && first_byte_set(
                                        grammar.terminals@[p.items@[kk] as int],
                                    ).contains(x);
                                assert(0 <= kk < k + 1 && first_byte_set(
                                    grammar.terminals@[p.items@[kk] as int],
                                ).contains(x));
                            } else {
                                assert(first_byte_set(
                                    grammar.terminals@[p.items@[k as int] as int],
                                ).contains(x));
                            }
                        }
                    }
                    k = k + 1;
                }
                proof {
                    assert forall|x: usize| #[trigger]
                        bytes@.contains(x) implies predict_byte_set(grammar, j as int).contains(
                        x,
                    ) by {
                        let kk = choose|kk: int|
                            0 <= kk < pn && first_byte_set(
                                grammar.terminals@[p.items@[kk] as int],
                            ).contains(x);
                        let t = p.items@[kk];
                        assert(p@.contains(t));
                    }
                    assert forall|x: usize|
                        predict_byte_set(grammar, j as int).contains(x) implies #[trigger]
                        bytes@.contains(x) by {
                        let t = choose|t: usize|
                            spec_predict(grammar, &grammar.rules@[j as int]).contains(t) && (
                            t as int) < grammar.terminals@.len() && first_byte_set(
                                grammar.terminals@[t as int],
                            ).contains(x);
                        assert(p.items@.contains(t));
                        let kk = choose|kk: int|
                            0 <= kk < p.items@.len() && p.items@[kk] == t;
                        assert(first_byte_set(
                            grammar.terminals@[p.items@[kk] as int],
                        ).contains(x));
                    }
                    assert(bytes@ =~= predict_byte_set(grammar, j as int));
                    assert forall|x: usize| bytes@.contains(x) implies (x as nat) < 256 by {
                        let kk = choose|kk: int|
                            0 <= kk < pn && first_byte_set(
                                grammar.terminals@[p.items@[kk] as int],
                            ).contains(x);
                        let te = grammar.terminals@[p.items@[kk] as int];
                        match te {
                            Terminal::Byte(b) => {},
                            Terminal::Trie(tr) => {},
                        }
                    }
                    bytes.lemma_canonical(256);
                    assert(bytes.items@ == predict_bytes_seq(grammar, j as int));
                }
                let ghost bs = predict_bytes_seq(grammar, j as int);
                let ghost before_rule = file@;
                // Rule comment.
                let mut rc = String::from_str("    // Rule: ");
                let rr = crate::repr::StrRepr::repr(&grammar.rules[j], grammar);
                rc.append(rr.as_str());
                file.push_line(rc);
                // Predict comment.
                let mut pc = String::from_str("    // Predict: {");
                let bn = bytes.items.len();
                let mut bi: usize = 0;
                while bi < bn
                    invariant
                        bn == bytes.items@.len(),
                        bi <= bn,
                        bytes.items@ == bs,
                        pc@ == "    // Predict: {"@ + idx_list_prefix(bs, bi as int),
                    decreases bn - bi,
                {
                    if bi > 0 {
                        pc.append(", ");
                    }
                    let d = dec_string(bytes.items[bi] as u64);
                    pc.append(d.as_str());
                    bi = bi + 1;
                }
                pc.append("}");
                file.push_line(pc);
                // Dispatch condition.
                let mut cond = String::from_str("    if ");
                let mut ci: usize = 0;
                while ci < bn
                    invariant
                        bn == bytes.items@.len(),
                        ci <= bn,
                        bytes.items@ == bs,
                        cond@ == "    if "@ + cond_prefix(bs, ci as int),
                    decreases bn - ci,
                {
                    if ci > 0 {
                        cond.append(" || ");
                    }
                    cond.append("next == Some(&");
                    let d = dec_string(bytes.items[ci] as u64);
                    cond.append(d.as_str());
                    cond.append(")");
                    ci = ci + 1;
                }
                cond.append(" {");
                file.push_line(cond);
                let ghost after_cond = file@;
                // Symbol bindings.
                let ghost w = grammar.rules@[j as int].rhs@;
                let wn = grammar.rules[j].rhs.len();
                let mut cnt: usize = 0;
                let mut si: usize = 0;
                while si < wn
                    invariant
                        grammar.wf(),
                        j < n,
                        n == grammar.rules@.len(),
                        w == grammar.rules@[j as int].rhs@,
                        wf_rule(grammar, &grammar.rules@[j as int]),
                        wn == w.len(),
                        si <= wn,
                        cnt <= si,
                        cnt == nonep_count(w, si as int),
                        file@ == after_cond + rule_sym_lines_prefix(
                            grammar,
                            j as int,
                            si as int,
                        ),
                    decreases wn - si,
                {
                    let sym = grammar.rules[j].rhs.symbols[si];
                    if !sym.is_epsilon() {
                        proof {
                            assert(wf_symbol(grammar, w[si as int]));
                        }
                        let mut sc = String::from_str("        // Symbol: ");
                        let sr = crate::repr::StrRepr::repr(&sym, grammar);
                        sc.append(sr.as_str());
                        file.push_line(sc);
                        let mut bind = String::from_str("        let res");
                        let d = dec_string((cnt + 1) as u64);
                        bind.append(d.as_str());
                        bind.append(" = ");
                        let call = sym.gen_call(grammar, String::from_str("input"));
                        bind.append(call.as_str());
                        bind.append("?;");
                        file.push_line(bind);
                        cnt = cnt + 1;
                        proof {
                            assert(file@ =~~= after_cond + rule_sym_lines_prefix(
                                grammar,
                                j as int,
                                si + 1,
                            ));
                        }
                    } else {
                        proof {
                            assert(rule_sym_lines_prefix(grammar, j as int, si + 1)
                                =~~= rule_sym_lines_prefix(grammar, j as int, si as int));
                        }
                    }
                    si = si + 1;
                }
                let mut ret = String::from_str("        return Ok(");
                ret.append(grammar.rules[j].transform.as_str());
                ret.append(");");
                file.push_line(ret);
                file.push_line("    }".to_owned());
                let ghost acc_before = acc@;
                acc.union_with(&p);
                proof {
                    assert(file@ =~~= before_rule + rule_lines(grammar, j as int));
                    assert(file@ =~~= base + hdr + nt_rules_prefix(grammar, ni_g, j + 1));
                    assert forall|x: usize|
                        acc@.contains(x) implies exists|jj: int|
                        0 <= jj < j + 1 && (#[trigger] grammar.rules@[jj]).lhs.index == ni
                            && spec_predict(grammar, &grammar.rules@[jj]).contains(x) by {
                        if acc_before.contains(x) {
                            let jj = choose|jj: int|
                                0 <= jj < j && (#[trigger] grammar.rules@[jj]).lhs.index == ni
                                    && spec_predict(grammar, &grammar.rules@[jj]).contains(x);
                            assert(0 <= jj < j + 1 && grammar.rules@[jj].lhs.index == ni
                                && spec_predict(grammar, &grammar.rules@[jj]).contains(x));
                        } else {
                            assert(grammar.rules@[j as int].lhs.index == ni && spec_predict(
                                grammar,
                                &grammar.rules@[j as int],
                            ).contains(x));
                        }
                    }
                    assert forall|j1: int, j2: int|
                        0 <= j1 < j2 < j + 1 && (#[trigger] grammar.rules@[j1]).lhs.index == ni
                            && (#[trigger] grammar.rules@[j2]).lhs.index == ni implies spec_predict(
                        grammar,
                        &grammar.rules@[j1],
                    ).disjoint(spec_predict(grammar, &grammar.rules@[j2])) by {
                        if j2 == j {
                            assert forall|x: usize|
                                spec_predict(grammar, &grammar.rules@[j1]).contains(
                                    x,
                                ) implies !spec_predict(grammar, &grammar.rules@[j2]).contains(
                                x,
                            ) by {
                                assert(acc_before.contains(x));
                            }
                        }
                    }
                }
            } else {
                proof {
                    assert(nt_rules_prefix(grammar, ni_g, j + 1) =~~= nt_rules_prefix(
                        grammar,
                        ni_g,
                        j as int,
                    ));
                }
            }
            j = j + 1;
        }
        let mut err_line = String::from_str("    return Err(format!(\"Error parsing ");
        err_line.append(nt.name.as_str());
        err_line.append(": No matching rule found for {:?}\", input.peek()));");
        file.push_line(err_line);
        file.push_line("}".to_owned());
        proof {
            assert(file@ =~~= base + nt_fn_lines(grammar, ni_g));
            assert(!nt_conflict(grammar, ni_g));
        }
        Ok(())
    }

    fn gen_call(&self, grammar: &Grammar, args: String) -> (r: String) {
        let mut s = String::from_str("_parse_nt_");
        let hx = index_to_hex(self.index());
        s.append(hx.as_str());
        s.append("(");
        s.append(args.as_str());
        s.append(")");
        s
    }
}

/// The comment lines showing the first `i` rules in the generated header.
pub open spec fn rule_comments_prefix(grammar: &Grammar, i: int) -> Seq<Seq<char>>
    decreases i,
{
    if i <= 0 {
        Seq::empty()
    } else {
        rule_comments_prefix(grammar, i - 1) + seq![
            "//     "@ + rule_repr_text(grammar, &grammar.rules@[i - 1]),
        ]
    }
}

/// The generated file's header: the import, the banner, and the grammar
/// shown as comments.
pub open spec fn header_lines(grammar: &Grammar) -> Seq<Seq<char>> {
    seq![
        "use std::iter::Peekable;"@,
        ""@,
        "// THIS IS A GENERATED PARSER FILE"@,
        ""@,
        "// Grammar:"@,
        "//   start: "@ + start_repr_text(grammar),
        "//   terminals: "@ + terms_join_prefix(grammar, grammar.terminals@.len() as int),
        "//   non_terminals: "@ + nts_join_prefix(grammar, grammar.non_terminals@.len() as int),
        "//   rules:"@,
    ] + rule_comments_prefix(grammar, grammar.rules@.len() as int) + seq![""@]
}

/// The recognizer routines of the first `i` terminals.
pub open spec fn term_fns_prefix(grammar: &Grammar, i: int) -> Seq<Seq<char>>
    decreases i,
{
    if i <= 0 {
        Seq::empty()
    } else {
        term_fns_prefix(grammar, i - 1) + term_fn_lines(grammar, i - 1)
    }
}

/// The parse routines of the first `i` non-terminals.
pub open spec fn nt_fns_prefix(grammar: &Grammar, i: int) -> Seq<Seq<char>>
    decreases i,
{
    if i <= 0 {
        Seq::empty()
    } else {
        nt_fns_prefix(grammar, i - 1) + nt_fn_lines(grammar, i - 1)
    }
}

/// The entry point: a public routine invoking the start non-terminal's
/// routine on the caller's cursor.
pub open spec fn entry_lines(grammar: &Grammar) -> Seq<Seq<char>> {
    let s = grammar.start->0;
    seq![
        "pub fn parse(input: &mut Peekable<impl Iterator<Item = u8>>) -> Result<"@
            + grammar.non_terminals@[s.index as int].ast_type@ + ", String> {"@,
        "    "@ + nt_call_text(s.index as int, "input"@),
        "}"@,
    ]
}

/// The whole generated parser.
pub open spec fn generate_lines(grammar: &Grammar) -> Seq<Seq<char>> {
    header_lines(grammar) + term_fns_prefix(grammar, grammar.terminals@.len() as int)
        + nt_fns_prefix(grammar, grammar.non_terminals@.len() as int) + entry_lines(grammar)
}

/// Generation succeeds: a start symbol is set, and every non-terminal has at
/// least one rule and no predict-set conflict.
pub open spec fn gen_all_ok(grammar: &Grammar) -> bool {
    &&& grammar.start is Some
    &&& forall|ni: int| 0 <= ni < grammar.non_terminals@.len() ==> nt_gen_ok(grammar, ni)
}

/// The lowest failing non-terminal index at or after `i`, or the table
/// length when generation succeeds for all of them.
pub open spec fn first_bad_nt(grammar: &Grammar, i: int) -> int
    decreases grammar.non_terminals@.len() - i,
{
    if i < 0 || i >= grammar.non_terminals@.len() {
        grammar.non_terminals@.len() as int
    } else if !nt_gen_ok(grammar, i) {
        i
    } else {
        first_bad_nt(grammar, i + 1)
    }
}

/// The error generation reports: the missing start symbol, else the first
/// non-terminal whose routine cannot be generated.
pub open spec fn generate_err_text(grammar: &Grammar) -> Seq<char> {
    if grammar.start is None {
        "Start symbol not set"@
    } else {
        nt_err_text(grammar, first_bad_nt(grammar, 0))
    }
}

/// When every non-terminal below `i` generates, the first failure at all is
/// the first failure from `i` on.
proof fn lemma_first_bad_skip(grammar: &Grammar, i: int)
    requires
        0 <= i <= grammar.non_terminals@.len(),
        forall|k: int| 0 <= k < i ==> nt_gen_ok(grammar, k),
    ensures
        first_bad_nt(grammar, 0) == first_bad_nt(grammar, i),
    decreases i,
{
    if i > 0 {
        lemma_first_bad_skip(grammar, i - 1);
        assert(first_bad_nt(grammar, i - 1) == first_bad_nt(grammar, i));
    }
}

/// The code generator: owns a grammar and emits its parser.
pub struct CodeGenerator {
    pub grammar: Grammar,
}

impl CodeGenerator {
    /// A generator for `grammar`.
    pub fn new(grammar: Grammar) -> (r: CodeGenerator)
        ensures
            r.grammar == grammar,
    {
        CodeGenerator { grammar }
    }

    /// Emits the parser for the grammar: one recognizer per terminal, one
    /// parse routine per non-terminal, one entry point. Succeeds exactly
    /// when a start symbol is set and every non-terminal has at least one
    /// rule and pairwise disjoint predict sets; on success the predict sets
    /// of any two distinct rules of the same non-terminal are provably
    /// disjoint, and the emitted lines are a function of the grammar alone.
    pub fn generate(&self) -> (r: Result<CodeFile, String>)
        requires
            self.grammar.wf(),
        ensures
            r is Ok <==> gen_all_ok(&self.grammar),
            r is Ok ==> (r->Ok_0)@ == generate_lines(&self.grammar),
            r is Err ==> (r->Err_0)@ == generate_err_text(&self.grammar),
            r is Ok ==> forall|j1: int, j2: int|
                0 <= j1 < j2 < self.grammar.rules@.len() && (#[trigger] self.grammar.rules@[j1]).lhs
                    == (#[trigger] self.grammar.rules@[j2]).lhs ==> spec_predict(
                    &self.grammar,
                    &self.grammar.rules@[j1],
                ).disjoint(spec_predict(&self.grammar, &self.grammar.rules@[j2])),
    {
        let grammar = &self.grammar;
        let start = match &grammar.start {
            None => {
                return Err(String::from_str("Start symbol not set"));
            },
            Some(s) => *s,
        };
        let mut file = CodeFile::new();
        file.push_line("use std::iter::Peekable;".to_owned());
        file.push_line("".to_owned());
        file.push_line("// THIS IS A GENERATED PARSER FILE".to_owned());
        file.push_line("".to_owned());
        file.push_line("// Grammar:".to_owned());
        let mut sl = String::from_str("//   start: ");
        let sr = crate::repr::StrRepr::repr(&start, grammar);
        sl.append(sr.as_str());
        file.push_line(sl);
        let mut tl = String::from_str("//   terminals: ");
        let tn = grammar.terminals.len();
        let mut ti: usize = 0;
        while ti < tn
            invariant
                grammar == &self.grammar,
                grammar.wf(),
                tn == grammar.terminals@.len(),
                ti <= tn,
                tl@ == "//   terminals: "@ + terms_join_prefix(grammar, ti as int),
            decreases tn - ti,
        {
            if ti > 0 {
                tl.append(", ");
            }
            let part = crate::repr::StrRepr::repr(&grammar.terminals[ti], grammar);
            tl.append(part.as_str());
            ti = ti + 1;
        }
        file.push_line(tl);
        let mut nl = String::from_str("//   non_terminals: ");
        let nn = grammar.non_terminals.len();
        let mut nti: usize = 0;
        while nti < nn
            invariant
                grammar == &self.grammar,
                grammar.wf(),
                nn == grammar.non_terminals@.len(),
                nti <= nn,
                nl@ == "//   non_terminals: "@ + nts_join_prefix(grammar, nti as int),
            decreases nn - nti,
        {
            if nti > 0 {
                nl.append(", ");
            }
            let part = crate::repr::StrRepr::repr(&grammar.non_terminals[nti], grammar);
            nl.append(part.as_str());
            nti = nti + 1;
        }
        file.push_line(nl);
        file.push_line("//   rules:".to_owned());
        let rn = grammar.rules.len();
        let ghost pre_rules = file@;
        let mut ri: usize = 0;
        while ri < rn
            invariant
                grammar == &self.grammar,
                grammar.wf(),
                rn == grammar.rules@.len(),
                ri <= rn,
                file@ == pre_rules + rule_comments_prefix(grammar, ri as int),
            decreases rn - ri,
        {
            proof {
                assert(wf_rule(grammar, &grammar.rules@[ri as int]));
            }
            let mut rl = String::from_str("//     ");
            let part = crate::repr::StrRepr::repr(&grammar.rules[ri], grammar);
            rl.append(part.as_str());
            file.push_line(rl);
            proof {
                assert(file@ =~~= pre_rules + rule_comments_prefix(grammar, ri + 1));
            }
            ri = ri + 1;
        }
        file.push_line("".to_owned());
        proof {
            assert(file@ =~~= header_lines(grammar));
        }
        let ghost after_header = file@;
        let mut gi: usize = 0;
        while gi < tn
            invariant
                grammar == &self.grammar,
                grammar.wf(),
                tn == grammar.terminals@.len(),
                gi <= tn,
                file@ == after_header + term_fns_prefix(grammar, gi as int),
            decreases tn - gi,
        {
            let t_ref = TerminalRef::new(gi);
            let res = t_ref.gen_function(grammar, &mut file);
            if let Err(e) = res {
                return Err(e);
            }
            proof {
                assert(file@ =~~= after_header + term_fns_prefix(grammar, gi + 1));
            }
            gi = gi + 1;
        }
        let ghost after_terms = file@;
        let mut gni: usize = 0;
        while gni < nn
            invariant
                grammar == &self.grammar,
                grammar.wf(),
                nn == grammar.non_terminals@.len(),
                gni <= nn,
                grammar.start is Some,
                file@ == after_terms + nt_fns_prefix(grammar, gni as int),
                forall|k: int| 0 <= k < gni ==> nt_gen_ok(grammar, k),
            decreases nn - gni,
        {
            let nt_ref = NonTerminalRef::new(gni);
            let res = nt_ref.gen_function(grammar, &mut file);
            match res {
                Err(e) => {
                    proof {
                        lemma_first_bad_skip(grammar, gni as int);
                        assert(first_bad_nt(grammar, gni as int) == gni as int);
                        assert(e@ == generate_err_text(grammar));
                    }
                    return Err(e);
                },
                Ok(()) => {},
            }
            proof {
                assert(file@ =~~= after_terms + nt_fns_prefix(grammar, gni + 1));
            }
            gni = gni + 1;
        }
        let mut entry = String::from_str(
            "pub fn parse(input: &mut Peekable<impl Iterator<Item = u8>>) -> Result<",
        );
        let start_nt = start.deref(grammar);
        entry.append(start_nt.ast_type.as_str());
        entry.append(", String> {");
        file.push_line(entry);
        let mut call_line = String::from_str("    ");
        let call = start.gen_call(grammar, String::from_str("input"));
        call_line.append(call.as_str());
        file.push_line(call_line);
        file.push_line("}".to_owned());
        proof {
            assert(file@ =~~= generate_lines(grammar));
            assert(gen_all_ok(grammar));
            assert forall|j1: int, j2: int|
                0 <= j1 < j2 < grammar.rules@.len() && (#[trigger] grammar.rules@[j1]).lhs == (
                #[trigger] grammar.rules@[j2]).lhs implies spec_predict(
                grammar,
                &grammar.rules@[j1],
            ).disjoint(spec_predict(grammar, &grammar.rules@[j2])) by {
                let ni = grammar.rules@[j1].lhs.index as int;
                assert(wf_rule(grammar, &grammar.rules@[j1]));
                assert(nt_gen_ok(grammar, ni));
                assert(!nt_conflict(grammar, ni));
            }
        }
        Ok(file)
    }
}

} // verus!
