//! The grammar's symbols: the empty string, named non-terminals, and the two
//! terminal recognition strategies (exact byte, trie over byte-words).

use crate::index_set::IndexSet;
use crate::trie::TrieTerminal;
use vstd::prelude::*;
use vstd::string::StringExecFns;

verus! {

/// The empty string symbol: consumes no input and contributes no binding.
#[derive(Debug, Clone, Copy)]
pub struct Epsilon;

impl Epsilon {
    /// The empty string symbol.
    pub fn new() -> Epsilon {
        Epsilon
    }
}

/// A named non-terminal together with the semantic result type its parse
/// routine produces.
pub struct NonTerminal {
    pub name: String,
    /// The semantic result type of the non-terminal.
    pub ast_type: String,
}

impl NonTerminal {
    /// A non-terminal with the given name and semantic result type.
    pub fn new(name: String, ast_type: String) -> (r: NonTerminal)
        ensures
            r.name@ == name@,
            r.ast_type@ == ast_type@,
    {
        NonTerminal { name, ast_type }
    }
}

/// A terminal matching exactly one literal byte, yielding a fixed semantic
/// value.
pub struct ByteTerminal {
    pub name: String,
    pub byte: u8,
    pub result_expr: Option<String>,
    pub result_type: String,
}

impl ByteTerminal {
    /// A byte terminal from its parts.
    pub fn new(name: String, byte: u8, result_expr: Option<String>, result_type: String) -> (
        r: ByteTerminal)
        ensures
            r.name@ == name@,
            r.byte == byte,
            r.result_expr == result_expr,
            r.result_type@ == result_type@,
    {
        ByteTerminal { name, byte, result_expr, result_type }
    }

    /// The conventional terminal for one ASCII character: named `char(c)`,
    /// matching its byte, and yielding the character itself.
    pub fn from_char(c: char) -> (r: ByteTerminal)
        requires
            c as u32 <= 127,
        ensures
            r.name@ == "char("@.push(c).push(')'),
            r.byte == c as u8,
            r.result_expr is Some,
            (r.result_expr->0)@ == seq!['\''].push(c).push('\''),
            r.result_type@ == "char"@,
    {
        let mut name = String::from_str("char(");
        crate::text::push_char(&mut name, c);
        crate::text::push_char(&mut name, ')');
        let mut expr = String::new();
        crate::text::push_char(&mut expr, '\'');
        crate::text::push_char(&mut expr, c);
        crate::text::push_char(&mut expr, '\'');
        proof {
            assert(expr@ =~= seq!['\''].push(c).push('\''));
        }
        ByteTerminal {
            name,
            byte: c as u8,
            result_expr: Some(expr),
            result_type: String::from_str("char"),
        }
    }
}

/// A terminal recognizer: either an exact-byte literal or a trie over several
/// byte-words. This is a closed choice; dispatch is by matching the variant.
pub enum Terminal {
    Byte(ByteTerminal),
    Trie(TrieTerminal),
}

/// The set of bytes able to begin a word this terminal recognizes, widened to
/// `usize`.
pub open spec fn first_byte_set(t: Terminal) -> Set<usize> {
    match t {
        Terminal::Byte(b) => set![b.byte as usize],
        Terminal::Trie(tr) => Set::new(
            |x: usize|
                x < 256 && exists|w: Seq<u8>|
                    tr.word_set().contains(w) && w.len() > 0 && w[0] == x as u8,
        ),
    }
}

impl Terminal {
    /// Structural soundness: a trie terminal's insertion log must mirror its
    /// trie.
    pub open spec fn wf(&self) -> bool {
        match *self {
            Terminal::Byte(_) => true,
            Terminal::Trie(tr) => tr.wf(),
        }
    }

    /// The terminal's name, for use in specifications.
    pub open spec fn spec_name(&self) -> Seq<char> {
        match *self {
            Terminal::Byte(b) => b.name@,
            Terminal::Trie(tr) => tr.name@,
        }
    }

    /// The terminal's semantic result type, for use in specifications.
    pub open spec fn spec_result_type(&self) -> Seq<char> {
        match *self {
            Terminal::Byte(b) => b.result_type@,
            Terminal::Trie(tr) => tr.result_type@,
        }
    }

    /// The terminal's name.
    pub fn name(&self) -> (r: &str)
        ensures
            r@ == self.spec_name(),
    {
        match self {
            Terminal::Byte(b) => b.name.as_str(),
            Terminal::Trie(tr) => tr.name.as_str(),
        }
    }

    /// The terminal's semantic result type.
    pub fn result_type(&self) -> (r: String)
        ensures
            r@ == self.spec_result_type(),
    {
        match self {
            Terminal::Byte(b) => b.result_type.clone(),
            Terminal::Trie(tr) => tr.result_type.clone(),
        }
    }

    /// The set of bytes a recognized word can begin with.
    pub fn first_bytes(&self) -> (r: IndexSet)
        requires
            self.wf(),
        ensures
            r.wf(),
            r@ == first_byte_set(*self),
    {
        match self {
            Terminal::Byte(b) => {
                let mut r = IndexSet::new();
                r.insert(b.byte as usize);
                proof {
                    assert(r@ =~= first_byte_set(*self));
                }
                r
            },
            Terminal::Trie(tr) => {
                let r = tr.first_bytes();
                proof {
                    assert forall|x: usize| r@.contains(x) implies first_byte_set(
                        *self,
                    ).contains(x) by {
                        let b: u8 = x as u8;
                        assert(r@.contains(b as usize));
                    }
                    assert forall|x: usize| first_byte_set(*self).contains(
                        x,
                    ) implies r@.contains(x) by {
                        let b: u8 = x as u8;
                        assert(r@.contains(b as usize));
                    }
                    assert(r@ =~= first_byte_set(*self));
                }
                r
            },
        }
    }
}

/// The capability shared by both terminal strategies: a unique name, the
/// set of possible leading bytes, and the semantic result type.
pub trait TerminalLike {
    /// What the strategy must satisfy before its byte set can be read.
    spec fn like_wf(&self) -> bool;

    /// What `like_name` returns.
    spec fn spec_like_name(&self) -> Seq<char>;

    /// What `like_first_bytes` returns: the bytes able to begin a
    /// recognized word, widened to `usize`.
    spec fn like_byte_set(&self) -> Set<usize>;

    /// What `like_result_type` returns.
    spec fn spec_like_result_type(&self) -> Seq<char>;

    /// The terminal's unique name in the grammar.
    fn like_name(&self) -> (r: &str)
        ensures
            r@ == self.spec_like_name(),
    ;

    /// The set of bytes a recognized word can begin with.
    fn like_first_bytes(&self) -> (r: IndexSet)
        requires
            self.like_wf(),
        ensures
            r.wf(),
            r@ == self.like_byte_set(),
    ;

    /// The semantic result type the recognizer yields.
    fn like_result_type(&self) -> (r: String)
        ensures
            r@ == self.spec_like_result_type(),
    ;
}

impl TerminalLike for ByteTerminal {
    open spec fn like_wf(&self) -> bool {
        true
    }

    open spec fn spec_like_name(&self) -> Seq<char> {
        self.name@
    }

    open spec fn like_byte_set(&self) -> Set<usize> {
        set![self.byte as usize]
    }

    open spec fn spec_like_result_type(&self) -> Seq<char> {
        self.result_type@
    }

    fn like_name(&self) -> (r: &str) {
        self.name.as_str()
    }

    fn like_first_bytes(&self) -> (r: IndexSet) {
        let mut r = IndexSet::new();
        r.insert(self.byte as usize);
        proof {
            assert(r@ =~= self.like_byte_set());
        }
        r
    }

    fn like_result_type(&self) -> (r: String) {
        self.result_type.clone()
    }
}

impl TerminalLike for TrieTerminal {
    open spec fn like_wf(&self) -> bool {
        self.wf()
    }

    open spec fn spec_like_name(&self) -> Seq<char> {
        self.name@
    }

    open spec fn like_byte_set(&self) -> Set<usize> {
        Set::new(
            |x: usize|
                x < 256 && exists|w: Seq<u8>|
                    self.word_set().contains(w) && w.len() > 0 && w[0] == x as u8,
        )
    }

    open spec fn spec_like_result_type(&self) -> Seq<char> {
        self.result_type@
    }

    fn like_name(&self) -> (r: &str) {
        self.name.as_str()
    }

    fn like_first_bytes(&self) -> (r: IndexSet) {
        let r = self.first_bytes();
        proof {
            assert forall|x: usize| r@.contains(x) implies self.like_byte_set().contains(
                x,
            ) by {
                let b: u8 = x as u8;
                assert(r@.contains(b as usize));
            }
            assert forall|x: usize| self.like_byte_set().contains(x) implies r@.contains(
                x,
            ) by {
                let b: u8 = x as u8;
                assert(r@.contains(b as usize));
            }
            assert(r@ =~= self.like_byte_set());
        }
        r
    }

    fn like_result_type(&self) -> (r: String) {
        self.result_type.clone()
    }
}

/// A symbol owned directly rather than through a table handle.
pub enum Symbol {
    Epsilon(Epsilon),
    NonTerminal(NonTerminal),
    Terminal(Terminal),
}

impl Symbol {
    /// True iff this is the empty string symbol.
    pub fn is_epsilon(&self) -> (r: bool)
        ensures
            r == (*self is Epsilon),
    {
        matches!(self, Symbol::Epsilon(_))
    }

    /// True iff this is a non-terminal.
    pub fn is_non_terminal(&self) -> (r: bool)
        ensures
            r == (*self is NonTerminal),
    {
        matches!(self, Symbol::NonTerminal(_))
    }

    /// True iff this is a terminal.
    pub fn is_terminal(&self) -> (r: bool)
        ensures
            r == (*self is Terminal),
    {
        matches!(self, Symbol::Terminal(_))
    }
}

} // verus!
