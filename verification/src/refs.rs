//! Integer handles into the grammar's append-only symbol tables.
//!
//! Terminals, non-terminals and rules live in contiguous tables owned by the
//! grammar; every cross-reference is a bounds-checked index wrapped in one of
//! these handle types, never a direct reference into the tables.

use vstd::prelude::*;

verus! {

/// A handle denoting an entry of the grammar's terminal table.
#[derive(Debug, Clone, Copy, PartialEq, Eq, Structural)]
pub struct TerminalRef {
    pub index: usize,
}

impl TerminalRef {
    /// Wraps a terminal table index as a handle.
    pub fn new(index: usize) -> (r: TerminalRef)
        ensures
            r.index == index,
    {
        TerminalRef { index }
    }

    /// The raw table index this handle denotes.
    pub fn index(&self) -> (r: usize)
        ensures
            r == self.index,
    {
        self.index
    }

    /// The index, for use in specifications.
    pub open spec fn spec_index(&self) -> int {
        self.index as int
    }
}

/// A handle denoting an entry of the grammar's non-terminal table.
#[derive(Debug, Clone, Copy, PartialEq, Eq, Structural)]
pub struct NonTerminalRef {
    pub index: usize,
}

impl NonTerminalRef {
    /// Wraps a non-terminal table index as a handle.
    pub fn new(index: usize) -> (r: NonTerminalRef)
        ensures
            r.index == index,
    {
        NonTerminalRef { index }
    }

    /// The raw table index this handle denotes.
    pub fn index(&self) -> (r: usize)
        ensures
            r == self.index,
    {
        self.index
    }

    /// The index, for use in specifications.
    pub open spec fn spec_index(&self) -> int {
        self.index as int
    }
}

/// A reference to one symbol of the grammar: the empty string, a terminal, or
/// a non-terminal.
#[derive(Debug, Clone, Copy, PartialEq, Eq, Structural)]
pub enum SymbolRef {
    Epsilon,
    NonTerminal(NonTerminalRef),
    Terminal(TerminalRef),
}

impl SymbolRef {
    /// True iff this reference denotes the empty string.
    pub fn is_epsilon(&self) -> (r: bool)
        ensures
            r == (*self is Epsilon),
    {
        matches!(self, SymbolRef::Epsilon)
    }

    /// True iff this reference denotes a non-terminal.
    pub fn is_non_terminal(&self) -> (r: bool)
        ensures
            r == (*self is NonTerminal),
    {
        matches!(self, SymbolRef::NonTerminal(_))
    }

    /// True iff this reference denotes a terminal.
    pub fn is_terminal(&self) -> (r: bool)
        ensures
            r == (*self is Terminal),
    {
        matches!(self, SymbolRef::Terminal(_))
    }

    /// True iff this reference denotes exactly the given terminal.
    pub fn eq_terminal(&self, other: &TerminalRef) -> (r: bool)
        ensures
            r == (*self == SymbolRef::Terminal(*other)),
    {
        match self {
            SymbolRef::Terminal(t_ref) => t_ref == other,
            _ => false,
        }
    }

    /// True iff this reference denotes exactly the given non-terminal.
    pub fn eq_non_terminal(&self, other: &NonTerminalRef) -> (r: bool)
        ensures
            r == (*self == SymbolRef::NonTerminal(*other)),
    {
        match self {
            SymbolRef::NonTerminal(nt_ref) => nt_ref == other,
            _ => false,
        }
    }
}

} // verus!
