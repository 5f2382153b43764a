//! The grammar model: append-only tables of terminals, non-terminals and
//! rules, cross-referenced by bounds-checked integer handles, plus an
//! optional start symbol.
//!
//! Symbol names are globally unique and every handle stored in the grammar
//! resolves within the current table bounds; both are part of the grammar's
//! well-formedness predicate, established by the constructors and preserved
//! by every operation.

use crate::refs::NonTerminalRef;
use crate::refs::SymbolRef;
use crate::refs::TerminalRef;
use crate::symbols::NonTerminal;
use crate::symbols::Terminal;
use crate::text::str_eq;
use vstd::prelude::*;

verus! {

/// A word: the right-hand side of a rule, as a sequence of symbol references.
pub struct Word {
    pub symbols: Vec<SymbolRef>,
}

impl View for Word {
    type V = Seq<SymbolRef>;

    open spec fn view(&self) -> Seq<SymbolRef> {
        self.symbols@
    }
}

impl Word {
    /// A word from its symbol references.
    pub fn new(symbols: Vec<SymbolRef>) -> (r: Word)
        ensures
            r@ == symbols@,
    {
        Word { symbols }
    }

    /// The word's symbols as a slice.
    pub fn as_slice(&self) -> (r: &[SymbolRef])
        ensures
            r@ == self@,
    {
        self.symbols.as_slice()
    }

    /// How many symbol references the word holds.
    pub fn len(&self) -> (r: usize)
        ensures
            r == self@.len(),
    {
        self.symbols.len()
    }

    /// True iff every symbol reference of the word resolves in `grammar`.
    pub fn test_indices(&self, grammar: &Grammar) -> (r: bool)
        ensures
            r == wf_word(grammar, self@),
    {
        let n = self.symbols.len();
        for i in 0..n
            invariant
                n == self@.len(),
                forall|k: int| 0 <= k < i ==> wf_symbol(grammar, self@[k]),
        {
            if !self.symbols[i].test_index(grammar) {
                return false;
            }
        }
        true
    }
}

/// A rule: a left-hand non-terminal handle, a right-hand word, and the
/// opaque semantic transform computing the rule's result from the positional
/// bindings `res1, res2, ...` of its non-epsilon right-hand symbols.
pub struct Rule {
    pub lhs: NonTerminalRef,
    pub rhs: Word,
    /// The transformation applied to the results of the rule's symbols.
    /// Its type must match the type of the left-hand non-terminal; this is
    /// delegated to whatever consumes the generated text, not checked here.
    pub transform: String,
}

impl Rule {
    /// A rule from its parts.
    pub fn new(lhs: NonTerminalRef, rhs: Word, transform: String) -> (r: Rule)
        ensures
            r.lhs == lhs,
            r.rhs@ == rhs@,
            r.transform@ == transform@,
    {
        Rule { lhs, rhs, transform }
    }

    /// The left-hand non-terminal, resolved in `grammar`.
    pub fn lhs<'a>(&self, grammar: &'a Grammar) -> (r: &'a NonTerminal)
        requires
            self.lhs.index < grammar.non_terminals@.len(),
        ensures
            r == &grammar.non_terminals@[self.lhs.index as int],
    {
        self.lhs.deref(grammar)
    }

    /// True iff the left-hand handle and every right-hand symbol reference
    /// resolve in `grammar`.
    pub fn test_indices(&self, grammar: &Grammar) -> (r: bool)
        ensures
            r == wf_rule(grammar, self),
    {
        self.lhs.test_index(grammar) && self.rhs.test_indices(grammar)
    }
}

/// One symbol reference resolves within the grammar's tables.
pub open spec fn wf_symbol(grammar: &Grammar, s: SymbolRef) -> bool {
    match s {
        SymbolRef::Epsilon => true,
        SymbolRef::Terminal(t) => t.index < grammar.terminals@.len(),
        SymbolRef::NonTerminal(nt) => nt.index < grammar.non_terminals@.len(),
    }
}

/// Every symbol reference of a word resolves within the grammar's tables.
pub open spec fn wf_word(grammar: &Grammar, w: Seq<SymbolRef>) -> bool {
    forall|i: int| 0 <= i < w.len() ==> wf_symbol(grammar, #[trigger] w[i])
}

/// A rule's left-hand handle and right-hand word resolve within the
/// grammar's tables.
pub open spec fn wf_rule(grammar: &Grammar, r: &Rule) -> bool {
    &&& r.lhs.index < grammar.non_terminals@.len()
    &&& wf_word(grammar, r.rhs@)
}

/// A context-free grammar over byte-level terminals.
pub struct Grammar {
    pub start: Option<NonTerminalRef>,
    pub terminals: Vec<Terminal>,
    pub non_terminals: Vec<NonTerminal>,
    pub rules: Vec<Rule>,
}

impl Grammar {
    /// Some symbol of the grammar (terminal or non-terminal) bears `name`.
    pub open spec fn spec_has_name(&self, name: Seq<char>) -> bool {
        ||| exists|i: int|
            0 <= i < self.terminals@.len() && (#[trigger] self.terminals@[i]).spec_name()
                == name
        ||| exists|i: int|
            0 <= i < self.non_terminals@.len() && (#[trigger] self.non_terminals@[i]).name@
                == name
    }

    /// Symbol names are globally unique across both tables.
    pub open spec fn names_unique(&self) -> bool {
        &&& forall|i: int, j: int|
            0 <= i < j < self.terminals@.len() ==> self.terminals@[i].spec_name()
                != self.terminals@[j].spec_name()
        &&& forall|i: int, j: int|
            0 <= i < j < self.non_terminals@.len() ==> self.non_terminals@[i].name@
                != self.non_terminals@[j].name@
        &&& forall|i: int, j: int|
            0 <= i < self.terminals@.len() && 0 <= j < self.non_terminals@.len()
                ==> self.terminals@[i].spec_name() != self.non_terminals@[j].name@
    }

    /// The grammar's invariant: handles resolve, tries are sound, names are
    /// unique, and the start symbol (once set) exists.
    pub open spec fn wf(&self) -> bool {
        &&& forall|i: int|
            0 <= i < self.rules@.len() ==> wf_rule(self, #[trigger] &self.rules@[i])
        &&& forall|i: int|
            0 <= i < self.terminals@.len() ==> (#[trigger] self.terminals@[i]).wf()
        &&& self.names_unique()
        &&& match self.start {
            Some(s) => s.index < self.non_terminals@.len(),
            None => true,
        }
    }

    /// An empty grammar.
    pub fn new() -> (r: Grammar)
        ensures
            r.wf(),
            r.start is None,
            r.terminals@.len() == 0,
            r.non_terminals@.len() == 0,
            r.rules@.len() == 0,
    {
        Grammar { rules: Vec::new(), start: None, terminals: Vec::new(), non_terminals: Vec::new() }
    }

    /// Appends a rule whose references all resolve.
    pub fn add_rule(&mut self, rule: Rule)
        requires
            old(self).wf(),
            wf_rule(old(self), &rule),
        ensures
            final(self).wf(),
            final(self).rules@ == old(self).rules@.push(rule),
            final(self).terminals == old(self).terminals,
            final(self).non_terminals == old(self).non_terminals,
            final(self).start == old(self).start,
    {
        self.rules.push(rule);
        proof {
            assert(forall|i: int|
                0 <= i < old(self).rules@.len() ==> self.rules@[i] == old(self).rules@[i]);
        }
    }

    /// Appends a terminal whose name is not yet taken, returning its handle.
    pub fn add_terminal(&mut self, terminal: Terminal) -> (r: TerminalRef)
        requires
            old(self).wf(),
            terminal.wf(),
            !old(self).spec_has_name(terminal.spec_name()),
        ensures
            final(self).wf(),
            final(self).terminals@ == old(self).terminals@.push(terminal),
            final(self).non_terminals == old(self).non_terminals,
            final(self).rules == old(self).rules,
            final(self).start == old(self).start,
            r.index == old(self).terminals@.len(),
    {
        self.terminals.push(terminal);
        proof {
            assert(forall|i: int|
                0 <= i < old(self).terminals@.len() ==> self.terminals@[i] == old(
                    self,
                ).terminals@[i]);
            assert(forall|i: int|
                0 <= i < old(self).rules@.len() ==> self.rules@[i] == old(self).rules@[i]);
        }
        TerminalRef::new(self.terminals.len() - 1)
    }

    /// Appends a non-terminal whose name is not yet taken, returning its
    /// handle.
    pub fn add_non_terminal(&mut self, non_terminal: NonTerminal) -> (r: NonTerminalRef)
        requires
            old(self).wf(),
            !old(self).spec_has_name(non_terminal.name@),
        ensures
            final(self).wf(),
            final(self).non_terminals@ == old(self).non_terminals@.push(non_terminal),
            final(self).terminals == old(self).terminals,
            final(self).rules == old(self).rules,
            final(self).start == old(self).start,
            r.index == old(self).non_terminals@.len(),
    {
        self.non_terminals.push(non_terminal);
        proof {
            assert(forall|i: int|
                0 <= i < old(self).non_terminals@.len() ==> self.non_terminals@[i] == old(
                    self,
                ).non_terminals@[i]);
            assert(forall|i: int|
                0 <= i < old(self).rules@.len() ==> self.rules@[i] == old(self).rules@[i]);
        }
        NonTerminalRef::new(self.non_terminals.len() - 1)
    }

    /// Sets the start symbol to an existing non-terminal.
    pub fn set_start(&mut self, start: NonTerminalRef)
        requires
            old(self).wf(),
            start.index < old(self).non_terminals@.len(),
        ensures
            final(self).wf(),
            final(self).start == Some(start),
            final(self).terminals == old(self).terminals,
            final(self).non_terminals == old(self).non_terminals,
            final(self).rules == old(self).rules,
    {
        self.start = Some(start);
    }

    /// The start non-terminal, when one has been set.
    pub fn get_start(&self) -> (r: Option<&NonTerminal>)
        requires
            self.wf(),
        ensures
            match self.start {
                Some(s) => r == Some(&self.non_terminals@[s.index as int]),
                None => r is None,
            },
    {
        match &self.start {
            Some(nt_ref) => Some(nt_ref.deref(self)),
            None => None,
        }
    }

    /// The terminal at `index`, or nothing when the handle is out of bounds.
    pub fn get_terminal(&self, index: usize) -> (r: Option<&Terminal>)
        ensures
            index < self.terminals@.len() ==> r == Some(&self.terminals@[index as int]),
            index >= self.terminals@.len() ==> r is None,
    {
        if index < self.terminals.len() {
            Some(&self.terminals[index])
        } else {
            None
        }
    }

    /// The non-terminal at `index`, or nothing when the handle is out of
    /// bounds.
    pub fn get_non_terminal(&self, index: usize) -> (r: Option<&NonTerminal>)
        ensures
            index < self.non_terminals@.len() ==> r == Some(
                &self.non_terminals@[index as int],
            ),
            index >= self.non_terminals@.len() ==> r is None,
    {
        if index < self.non_terminals.len() {
            Some(&self.non_terminals[index])
        } else {
            None
        }
    }

    /// True iff some terminal bears `name`.
    pub fn has_terminal_with_name(&self, name: &str) -> (r: bool)
        ensures
            r == exists|i: int|
                0 <= i < self.terminals@.len() && (#[trigger] self.terminals@[i]).spec_name()
                    == name@,
    {
        let n = self.terminals.len();
        for i in 0..n
            invariant
                n == self.terminals@.len(),
                forall|k: int|
                    0 <= k < i ==> (#[trigger] self.terminals@[k]).spec_name() != name@,
        {
            if str_eq(self.terminals[i].name(), name) {
                return true;
            }
        }
        false
    }

    /// True iff some non-terminal bears `name`.
    pub fn has_non_terminal_with_name(&self, name: &str) -> (r: bool)
        ensures
            r == exists|i: int|
                0 <= i < self.non_terminals@.len() && (#[trigger] self.non_terminals@[i]).name@
                    == name@,
    {
        let n = self.non_terminals.len();
        for i in 0..n
            invariant
                n == self.non_terminals@.len(),
                forall|k: int| 0 <= k < i ==> (#[trigger] self.non_terminals@[k]).name@ != name@,
        {
            if str_eq(self.non_terminals[i].name.as_str(), name) {
                return true;
            }
        }
        false
    }

    /// True iff any symbol of the grammar bears `name`.
    pub fn has_symbol_with_name(&self, name: &str) -> (r: bool)
        ensures
            r == self.spec_has_name(name@),
    {
        self.has_terminal_with_name(name) || self.has_non_terminal_with_name(name)
    }

    /// The indices of the rules whose left-hand side is `nt`, in declaration
    /// order. Declaration order is significant: it becomes the dispatch
    /// branch order of the generated parse routine.
    pub fn get_rules_for_non_terminal(&self, nt: NonTerminalRef) -> (r: Vec<usize>)
        ensures
            forall|k: int|
                0 <= k < r@.len() ==> #[trigger] r@[k] < self.rules@.len()
                    && self.rules@[r@[k] as int].lhs == nt,
            forall|k1: int, k2: int| 0 <= k1 < k2 < r@.len() ==> r@[k1] < r@[k2],
            forall|j: int|
                0 <= j < self.rules@.len() && (#[trigger] self.rules@[j]).lhs == nt
                    ==> r@.contains(j as usize),
    {
        let mut r: Vec<usize> = Vec::new();
        let n = self.rules.len();
        for j in 0..n
            invariant
                n == self.rules@.len(),
                forall|k: int|
                    0 <= k < r@.len() ==> #[trigger] r@[k] < j && self.rules@[r@[k] as int].lhs
                        == nt,
                forall|k1: int, k2: int| 0 <= k1 < k2 < r@.len() ==> r@[k1] < r@[k2],
                forall|jj: int|
                    0 <= jj < j && (#[trigger] self.rules@[jj]).lhs == nt ==> r@.contains(
                        jj as usize,
                    ),
        {
            if self.rules[j].lhs.index() == nt.index() {
                let ghost prior = r@;
                r.push(j);
                proof {
                    assert(self.rules@[j as int].lhs.index == nt.index);
                    assert(self.rules@[j as int].lhs == nt);
                    assert(forall|k: int| 0 <= k < prior.len() ==> r@[k] == prior[k]);
                    assert(forall|jj: int|
                        0 <= jj < j && (#[trigger] self.rules@[jj]).lhs == nt ==> prior.contains(
                            jj as usize,
                        ) && r@.contains(jj as usize));
                    assert(r@.contains(j as usize)) by {
                        assert(r@[r@.len() - 1] == j as usize);
                    }
                }
            }
        }
        r
    }

    /// Handles for every terminal, in table order.
    pub fn iter_terminal_refs(&self) -> (r: Vec<TerminalRef>)
        ensures
            r@.len() == self.terminals@.len(),
            forall|i: int| 0 <= i < r@.len() ==> (#[trigger] r@[i]).index == i,
    {
        let mut r: Vec<TerminalRef> = Vec::new();
        let n = self.terminals.len();
        for i in 0..n
            invariant
                r@.len() == i,
                forall|k: int| 0 <= k < i ==> (#[trigger] r@[k]).index == k,
        {
            r.push(TerminalRef::new(i));
        }
        r
    }

    /// Handles for every non-terminal, in table order.
    pub fn iter_non_terminal_refs(&self) -> (r: Vec<NonTerminalRef>)
        ensures
            r@.len() == self.non_terminals@.len(),
            forall|i: int| 0 <= i < r@.len() ==> (#[trigger] r@[i]).index == i,
    {
        let mut r: Vec<NonTerminalRef> = Vec::new();
        let n = self.non_terminals.len();
        for i in 0..n
            invariant
                r@.len() == i,
                forall|k: int| 0 <= k < i ==> (#[trigger] r@[k]).index == k,
        {
            r.push(NonTerminalRef::new(i));
        }
        r
    }
}

impl TerminalRef {
    /// The terminal this handle denotes.
    pub fn deref<'a>(&self, grammar: &'a Grammar) -> (r: &'a Terminal)
        requires
            self.index < grammar.terminals@.len(),
        ensures
            r == &grammar.terminals@[self.index as int],
    {
        &grammar.terminals[self.index]
    }

    /// True iff this handle resolves within the terminal table.
    pub fn test_index(&self, grammar: &Grammar) -> (r: bool)
        ensures
            r == (self.index < grammar.terminals@.len()),
    {
        self.index < grammar.terminals.len()
    }
}

impl NonTerminalRef {
    /// The non-terminal this handle denotes.
    pub fn deref<'a>(&self, grammar: &'a Grammar) -> (r: &'a NonTerminal)
        requires
            self.index < grammar.non_terminals@.len(),
        ensures
            r == &grammar.non_terminals@[self.index as int],
    {
        &grammar.non_terminals[self.index]
    }

    /// True iff this handle resolves within the non-terminal table.
    pub fn test_index(&self, grammar: &Grammar) -> (r: bool)
        ensures
            r == (self.index < grammar.non_terminals@.len()),
    {
        self.index < grammar.non_terminals.len()
    }
}

impl SymbolRef {
    /// The empty-string symbol this reference denotes.
    pub fn unwrap_as_epsilon(&self) -> (r: crate::symbols::Epsilon)
        requires
            *self is Epsilon,
    {
        crate::symbols::Epsilon::new()
    }

    /// The non-terminal this reference denotes.
    pub fn unwrap_as_non_terminal<'a>(&self, grammar: &'a Grammar) -> (r: &'a NonTerminal)
        requires
            *self is NonTerminal,
            (self->NonTerminal_0).index < grammar.non_terminals@.len(),
        ensures
            r == &grammar.non_terminals@[(self->NonTerminal_0).index as int],
    {
        let idx = match self {
            SymbolRef::NonTerminal(nt_ref) => nt_ref.index(),
            _ => 0,
        };
        &grammar.non_terminals[idx]
    }

    /// The terminal this reference denotes.
    pub fn unwrap_as_terminal<'a>(&self, grammar: &'a Grammar) -> (r: &'a Terminal)
        requires
            *self is Terminal,
            (self->Terminal_0).index < grammar.terminals@.len(),
        ensures
            r == &grammar.terminals@[(self->Terminal_0).index as int],
    {
        let idx = match self {
            SymbolRef::Terminal(t_ref) => t_ref.index(),
            _ => 0,
        };
        &grammar.terminals[idx]
    }

    /// True iff this reference resolves within the grammar's tables.
    pub fn test_index(&self, grammar: &Grammar) -> (r: bool)
        ensures
            r == wf_symbol(grammar, *self),
    {
        match self {
            SymbolRef::Epsilon => true,
            SymbolRef::NonTerminal(nt_ref) => nt_ref.test_index(grammar),
            SymbolRef::Terminal(t_ref) => t_ref.test_index(grammar),
        }
    }
}

} // verus!
