//! Readable representations of grammar entities, used in the header and
//! comment lines of the generated parser text.

use crate::grammar::Grammar;
use crate::grammar::Rule;
use crate::grammar::wf_rule;
use crate::grammar::wf_symbol;
use crate::grammar::wf_word;
use crate::refs::NonTerminalRef;
use crate::refs::SymbolRef;
use crate::refs::TerminalRef;
use crate::symbols::NonTerminal;
use crate::symbols::Terminal;
use vstd::prelude::*;
use vstd::string::StringExecFns;

verus! {

/// `NT(name)`.
pub open spec fn nt_repr_text(nt: NonTerminal) -> Seq<char> {
    "NT("@ + nt.name@ + ")"@
}

/// `T(name)` for an exact-byte terminal, `Trie(name)` for a trie terminal.
pub open spec fn term_repr_text(t: Terminal) -> Seq<char> {
    match t {
        Terminal::Byte(b) => "T("@ + b.name@ + ")"@,
        Terminal::Trie(tr) => "Trie("@ + tr.name@ + ")"@,
    }
}

/// The representation of one symbol reference, resolved in the grammar.
pub open spec fn sym_repr_text(grammar: &Grammar, s: SymbolRef) -> Seq<char> {
    match s {
        SymbolRef::Epsilon => "ε"@,
        SymbolRef::NonTerminal(nt) => nt_repr_text(grammar.non_terminals@[nt.index as int]),
        SymbolRef::Terminal(t) => term_repr_text(grammar.terminals@[t.index as int]),
    }
}

/// The first `i` symbols of `w` represented and joined with single spaces.
pub open spec fn word_repr_prefix(grammar: &Grammar, w: Seq<SymbolRef>, i: int) -> Seq<char>
    decreases i,
{
    if i <= 0 {
        Seq::empty()
    } else if i == 1 {
        sym_repr_text(grammar, w[0])
    } else {
        word_repr_prefix(grammar, w, i - 1) + " "@ + sym_repr_text(grammar, w[i - 1])
    }
}

/// The representation of a word: its symbols joined with single spaces.
pub open spec fn word_repr_text(grammar: &Grammar, w: Seq<SymbolRef>) -> Seq<char> {
    word_repr_prefix(grammar, w, w.len() as int)
}

/// The representation of a rule: `NT(lhs) -> rhs`.
pub open spec fn rule_repr_text(grammar: &Grammar, r: &Rule) -> Seq<char> {
    nt_repr_text(grammar.non_terminals@[r.lhs.index as int]) + " -> "@ + word_repr_text(
        grammar,
        r.rhs@,
    )
}

/// A readable representation of a grammar entity, resolved against the
/// owning grammar.
pub trait StrRepr {
    /// Whether the entity's references resolve, so that it can be shown.
    spec fn repr_wf(&self, grammar: &Grammar) -> bool;

    /// What `repr` returns.
    spec fn spec_repr(&self, grammar: &Grammar) -> Seq<char>;

    /// The representation itself.
    fn repr(&self, grammar: &Grammar) -> (r: String)
        requires
            self.repr_wf(grammar),
        ensures
            r@ == self.spec_repr(grammar),
    ;
}

impl StrRepr for NonTerminal {
    open spec fn repr_wf(&self, grammar: &Grammar) -> bool {
        true
    }

    open spec fn spec_repr(&self, grammar: &Grammar) -> Seq<char> {
        "NT("@ + self.name@ + ")"@
    }

    fn repr(&self, grammar: &Grammar) -> (r: String) {
        let mut s = String::from_str("NT(");
        s.append(self.name.as_str());
        s.append(")");
        s
    }
}

impl StrRepr for Terminal {
    open spec fn repr_wf(&self, grammar: &Grammar) -> bool {
        true
    }

    open spec fn spec_repr(&self, grammar: &Grammar) -> Seq<char> {
        term_repr_text(*self)
    }

    fn repr(&self, grammar: &Grammar) -> (r: String) {
        match self {
            Terminal::Byte(b) => {
                let mut s = String::from_str("T(");
                s.append(b.name.as_str());
                s.append(")");
                s
            },
            Terminal::Trie(tr) => {
                let mut s = String::from_str("Trie(");
                s.append(tr.name.as_str());
                s.append(")");
                s
            },
        }
    }
}

impl StrRepr for TerminalRef {
    open spec fn repr_wf(&self, grammar: &Grammar) -> bool {
        self.index < grammar.terminals@.len()
    }

    open spec fn spec_repr(&self, grammar: &Grammar) -> Seq<char> {
        term_repr_text(grammar.terminals@[self.index as int])
    }

    fn repr(&self, grammar: &Grammar) -> (r: String) {
        self.deref(grammar).repr(grammar)
    }
}

impl StrRepr for NonTerminalRef {
    open spec fn repr_wf(&self, grammar: &Grammar) -> bool {
        self.index < grammar.non_terminals@.len()
    }

    open spec fn spec_repr(&self, grammar: &Grammar) -> Seq<char> {
        nt_repr_text(grammar.non_terminals@[self.index as int])
    }

    fn repr(&self, grammar: &Grammar) -> (r: String) {
        self.deref(grammar).repr(grammar)
    }
}

impl StrRepr for SymbolRef {
    open spec fn repr_wf(&self, grammar: &Grammar) -> bool {
        wf_symbol(grammar, *self)
    }

    open spec fn spec_repr(&self, grammar: &Grammar) -> Seq<char> {
        sym_repr_text(grammar, *self)
    }

    fn repr(&self, grammar: &Grammar) -> (r: String) {
        match self {
            SymbolRef::Epsilon => String::from_str("ε"),
            SymbolRef::NonTerminal(nt_ref) => nt_ref.repr(grammar),
            SymbolRef::Terminal(t_ref) => t_ref.repr(grammar),
        }
    }
}

impl StrRepr for crate::grammar::Word {
    open spec fn repr_wf(&self, grammar: &Grammar) -> bool {
        wf_word(grammar, self@)
    }

    open spec fn spec_repr(&self, grammar: &Grammar) -> Seq<char> {
        word_repr_text(grammar, self@)
    }

    fn repr(&self, grammar: &Grammar) -> (r: String) {
        let mut s = String::new();
        let n = self.symbols.len();
        for i in 0..n
            invariant
                n == self@.len(),
                wf_word(grammar, self@),
                s@ == word_repr_prefix(grammar, self@, i as int),
        {
            if i > 0 {
                s.append(" ");
            }
            proof {
                assert(wf_symbol(grammar, self@[i as int]));
            }
            let part = self.symbols[i].repr(grammar);
            s.append(part.as_str());
        }
        s
    }
}

impl StrRepr for Rule {
    open spec fn repr_wf(&self, grammar: &Grammar) -> bool {
        wf_rule(grammar, self)
    }

    open spec fn spec_repr(&self, grammar: &Grammar) -> Seq<char> {
        rule_repr_text(grammar, self)
    }

    fn repr(&self, grammar: &Grammar) -> (r: String) {
        let mut s = self.lhs.repr(grammar);
        s.append(" -> ");
        let w = self.rhs.repr(grammar);
        s.append(w.as_str());
        s
    }
}

/// The representations of the first `i` terminals, joined with `", "`.
pub open spec fn terms_join_prefix(grammar: &Grammar, i: int) -> Seq<char>
    decreases i,
{
    if i <= 0 {
        Seq::empty()
    } else if i == 1 {
        term_repr_text(grammar.terminals@[0])
    } else {
        terms_join_prefix(grammar, i - 1) + ", "@ + term_repr_text(grammar.terminals@[i - 1])
    }
}

/// The representations of the first `i` non-terminals, joined with `", "`.
pub open spec fn nts_join_prefix(grammar: &Grammar, i: int) -> Seq<char>
    decreases i,
{
    if i <= 0 {
        Seq::empty()
    } else if i == 1 {
        nt_repr_text(grammar.non_terminals@[0])
    } else {
        nts_join_prefix(grammar, i - 1) + ", "@ + nt_repr_text(grammar.non_terminals@[i - 1])
    }
}

/// The representations of the first `i` rules, one line each, four spaces of
/// indent.
pub open spec fn rules_block_prefix(grammar: &Grammar, i: int) -> Seq<char>
    decreases i,
{
    if i <= 0 {
        Seq::empty()
    } else if i == 1 {
        "    "@ + rule_repr_text(grammar, &grammar.rules@[0])
    } else {
        rules_block_prefix(grammar, i - 1) + "\n"@ + "    "@ + rule_repr_text(
            grammar,
            &grammar.rules@[i - 1],
        )
    }
}

/// The representation of the start symbol, `/` when none is set.
pub open spec fn start_repr_text(grammar: &Grammar) -> Seq<char> {
    match grammar.start {
        Some(s) => nt_repr_text(grammar.non_terminals@[s.index as int]),
        None => "/"@,
    }
}

/// The whole grammar, shown as its start symbol, its two symbol tables and
/// its rules.
pub open spec fn grammar_repr_text(grammar: &Grammar) -> Seq<char> {
    "Grammar:\n  start: "@ + start_repr_text(grammar) + "\n  terminals: "@ + terms_join_prefix(
        grammar,
        grammar.terminals@.len() as int,
    ) + "\n  non_terminals: "@ + nts_join_prefix(grammar, grammar.non_terminals@.len() as int)
        + "\n  rules:\n"@ + rules_block_prefix(grammar, grammar.rules@.len() as int)
}

impl Grammar {
    /// A readable, multi-line representation of the grammar.
    pub fn repr(&self) -> (r: String)
        requires
            self.wf(),
        ensures
            r@ == grammar_repr_text(self),
    {
        let mut s = String::from_str("Grammar:\n  start: ");
        match &self.start {
            Some(nt_ref) => {
                let part = nt_ref.repr(self);
                s.append(part.as_str());
            },
            None => {
                s.append("/");
            },
        }
        s.append("\n  terminals: ");
        let tn = self.terminals.len();
        for i in 0..tn
            invariant
                tn == self.terminals@.len(),
                self.wf(),
                s@ == "Grammar:\n  start: "@ + start_repr_text(self) + "\n  terminals: "@
                    + terms_join_prefix(self, i as int),
        {
            if i > 0 {
                s.append(", ");
            }
            let part = self.terminals[i].repr(self);
            s.append(part.as_str());
        }
        s.append("\n  non_terminals: ");
        let nn = self.non_terminals.len();
        for i in 0..nn
            invariant
                nn == self.non_terminals@.len(),
                self.wf(),
                s@ == "Grammar:\n  start: "@ + start_repr_text(self) + "\n  terminals: "@
                    + terms_join_prefix(self, self.terminals@.len() as int)
                    + "\n  non_terminals: "@ + nts_join_prefix(self, i as int),
        {
            if i > 0 {
                s.append(", ");
            }
            let part = self.non_terminals[i].repr(self);
            s.append(part.as_str());
        }
        s.append("\n  rules:\n");
        let rn = self.rules.len();
        for i in 0..rn
            invariant
                rn == self.rules@.len(),
                self.wf(),
                s@ == "Grammar:\n  start: "@ + start_repr_text(self) + "\n  terminals: "@
                    + terms_join_prefix(self, self.terminals@.len() as int)
                    + "\n  non_terminals: "@ + nts_join_prefix(
                    self,
                    self.non_terminals@.len() as int,
                ) + "\n  rules:\n"@ + rules_block_prefix(self, i as int),
        {
            if i > 0 {
                s.append("\n");
            }
            s.append("    ");
            proof {
                assert(wf_rule(self, &self.rules@[i as int]));
            }
            let part = self.rules[i].repr(self);
            s.append(part.as_str());
        }
        s
    }
}

/// The representations of the first `i` elements, joined with single
/// spaces.
pub open spec fn seq_repr_prefix<T: StrRepr>(grammar: &Grammar, s: Seq<T>, i: int) -> Seq<char>
    decreases i,
{
    if i <= 0 {
        Seq::empty()
    } else if i == 1 {
        s[0].spec_repr(grammar)
    } else {
        seq_repr_prefix(grammar, s, i - 1) + " "@ + s[i - 1].spec_repr(grammar)
    }
}

impl<T: StrRepr> StrRepr for Vec<T> {
    open spec fn repr_wf(&self, grammar: &Grammar) -> bool {
        forall|i: int| 0 <= i < self@.len() ==> (#[trigger] self@[i]).repr_wf(grammar)
    }

    open spec fn spec_repr(&self, grammar: &Grammar) -> Seq<char> {
        seq_repr_prefix(grammar, self@, self@.len() as int)
    }

    fn repr(&self, grammar: &Grammar) -> (r: String) {
        let mut s = String::new();
        let n = self.len();
        for i in 0..n
            invariant
                n == self@.len(),
                forall|k: int| 0 <= k < n ==> (#[trigger] self@[k]).repr_wf(grammar),
                s@ == seq_repr_prefix(grammar, self@, i as int),
        {
            if i > 0 {
                s.append(" ");
            }
            let part = self[i].repr(grammar);
            s.append(part.as_str());
        }
        s
    }
}

} // verus!
