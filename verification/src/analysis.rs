//! Grammar analysis: EPS (nullability), FIRST, FOLLOW and PREDICT sets over
//! an immutable grammar, with the conservative per-call-chain recursion
//! guards the algorithms are specified with.
//!
//! Each executable function is pinned to a specification function of the
//! grammar, the word and the incoming guard set alone, so re-running any
//! analysis on an unchanged grammar provably returns the same sets.
//!
//! The specification functions carry an explicit fuel argument, decremented
//! each time the recursion descends into an unvisited non-terminal. Since the
//! guard set grows at every descent, a fuel of (number of non-terminals minus
//! guarded ones) is always enough, and the result does not depend on the
//! exact fuel once it is enough; `lemma_eps_fuel` and its siblings state
//! this.

use crate::grammar::Grammar;
use crate::grammar::Rule;
use crate::grammar::wf_rule;
use crate::grammar::wf_symbol;
use crate::grammar::wf_word;
use crate::index_set::IndexSet;
use crate::refs::NonTerminalRef;
use crate::refs::SymbolRef;
use vstd::prelude::*;

verus! {

/// The number of non-terminals: an upper bound for every guard set, hence
/// enough fuel for any analysis started with an empty guard.
pub open spec fn full_fuel(grammar: &Grammar) -> nat {
    grammar.non_terminals@.len() as nat
}

/// A guard set holds only resolvable non-terminal indices.
pub open spec fn valid_visited(grammar: &Grammar, v: Set<usize>) -> bool {
    &&& v.finite()
    &&& forall|x: usize| v.contains(x) ==> x < grammar.non_terminals@.len()
}

/// The canonical fuel for a guard set: one descent per unguarded
/// non-terminal.
pub open spec fn fuel_for(grammar: &Grammar, v: Set<usize>) -> nat {
    if v.len() <= full_fuel(grammar) {
        (full_fuel(grammar) - v.len()) as nat
    } else {
        0
    }
}

/// Enough fuel to finish every possible descent from guard set `v`.
pub open spec fn suff_fuel(grammar: &Grammar, v: Set<usize>, fuel: nat) -> bool {
    fuel + v.len() >= full_fuel(grammar)
}

/// The set of indices below `n`.
pub open spec fn range_set(n: nat) -> Set<usize> {
    Set::new(|x: usize| (x as nat) < n)
}

/// Cardinality of `range_set`.
pub proof fn lemma_range_set_card(n: nat)
    requires
        n <= usize::MAX,
    ensures
        range_set(n).finite(),
        range_set(n).len() == n,
    decreases n,
{
    if n == 0 {
        assert(range_set(0) =~= Set::<usize>::empty());
    } else {
        lemma_range_set_card((n - 1) as nat);
        assert(range_set(n) =~= range_set((n - 1) as nat).insert((n - 1) as usize));
    }
}

/// A valid guard set is no larger than the non-terminal table; when some
/// non-terminal is unguarded, it is strictly smaller.
pub proof fn lemma_visited_card(grammar: &Grammar, v: Set<usize>)
    requires
        valid_visited(grammar, v),
    ensures
        v.len() <= full_fuel(grammar),
        forall|x: usize|
            x < grammar.non_terminals@.len() && !v.contains(x) ==> v.len() < full_fuel(
                grammar,
            ),
{
    let n = full_fuel(grammar);
    vstd::std_specs::vec::axiom_spec_len(&grammar.non_terminals);
    assert(n <= usize::MAX);
    lemma_range_set_card(n);
    assert(v.subset_of(range_set(n)));
    vstd::set_lib::lemma_len_subset(v, range_set(n));
    assert forall|x: usize|
        x < grammar.non_terminals@.len() && !v.contains(x) implies v.len() < n by {
        let v1 = v.insert(x);
        assert(v1.subset_of(range_set(n)));
        vstd::set_lib::lemma_len_subset(v1, range_set(n));
        assert(v1.len() == v.len() + 1);
    }
}

/// Whether `word` derives the empty string, scanned left to right under
/// guard set `v`; the second component is the guard set as the scan leaves
/// it. A terminal stops the scan with a negative answer; a non-terminal must
/// have some rule whose right-hand side is itself nullable. Revisiting a
/// guarded non-terminal conservatively answers no.
pub open spec fn spec_eps(
    grammar: &Grammar,
    word: Seq<SymbolRef>,
    v: Set<usize>,
    fuel: nat,
) -> (bool, Set<usize>)
    decreases fuel, 0int, word.len(), 0int,
{
    if word.len() == 0 {
        (true, v)
    } else {
        match word[0] {
            SymbolRef::Epsilon => spec_eps(grammar, word.drop_first(), v, fuel),
            SymbolRef::Terminal(_) => (false, v),
            SymbolRef::NonTerminal(nt) => {
                let ni = nt.index;
                if v.contains(ni) {
                    (false, v)
                } else if fuel == 0 {
                    (false, v)
                } else {
                    let v1 = v.insert(ni);
                    let (ok, v2) = spec_eps_rules(grammar, ni, 0, v1, (fuel - 1) as nat);
                    if ok {
                        spec_eps(grammar, word.drop_first(), v2, fuel)
                    } else {
                        (false, v2)
                    }
                }
            },
        }
    }
}

/// Scans the rules from index `j` on for one with left-hand side `ni` and a
/// nullable right-hand side, threading the guard set through every attempt
/// and stopping at the first success.
pub open spec fn spec_eps_rules(
    grammar: &Grammar,
    ni: usize,
    j: int,
    v: Set<usize>,
    fuel: nat,
) -> (bool, Set<usize>)
    decreases fuel, 1int, grammar.rules@.len() - j, 0int,
{
    if j < 0 || j >= grammar.rules@.len() {
        (false, v)
    } else if grammar.rules@[j].lhs.index != ni {
        spec_eps_rules(grammar, ni, j + 1, v, fuel)
    } else {
        let (ok, v2) = spec_eps(grammar, grammar.rules@[j].rhs@, v, fuel);
        if ok {
            (true, v2)
        } else {
            spec_eps_rules(grammar, ni, j + 1, v2, fuel)
        }
    }
}

/// The scan only grows the guard set, and keeps it valid.
pub proof fn lemma_eps_grows(grammar: &Grammar, word: Seq<SymbolRef>, v: Set<usize>, fuel: nat)
    requires
        grammar.wf(),
        wf_word(grammar, word),
        valid_visited(grammar, v),
    ensures
        v.subset_of(spec_eps(grammar, word, v, fuel).1),
        valid_visited(grammar, spec_eps(grammar, word, v, fuel).1),
    decreases fuel, 0int, word.len(), 0int,
{
    if word.len() == 0 {
    } else {
        assert(wf_symbol(grammar, word[0]));
        assert(wf_word(grammar, word.drop_first()));
        match word[0] {
            SymbolRef::Epsilon => {
                lemma_eps_grows(grammar, word.drop_first(), v, fuel);
            },
            SymbolRef::Terminal(_) => {},
            SymbolRef::NonTerminal(nt) => {
                let ni = nt.index;
                if !v.contains(ni) && fuel > 0 {
                    let v1 = v.insert(ni);
                    lemma_eps_rules_grows(grammar, ni, 0, v1, (fuel - 1) as nat);
                    let (ok, v2) = spec_eps_rules(grammar, ni, 0, v1, (fuel - 1) as nat);
                    if ok {
                        lemma_eps_grows(grammar, word.drop_first(), v2, fuel);
                    }
                }
            },
        }
    }
}

/// The rule scan only grows the guard set, and keeps it valid.
pub proof fn lemma_eps_rules_grows(
    grammar: &Grammar,
    ni: usize,
    j: int,
    v: Set<usize>,
    fuel: nat,
)
    requires
        grammar.wf(),
        valid_visited(grammar, v),
    ensures
        v.subset_of(spec_eps_rules(grammar, ni, j, v, fuel).1),
        valid_visited(grammar, spec_eps_rules(grammar, ni, j, v, fuel).1),
    decreases fuel, 1int, grammar.rules@.len() - j, 0int,
{
    if j < 0 || j >= grammar.rules@.len() {
    } else if grammar.rules@[j].lhs.index != ni {
        lemma_eps_rules_grows(grammar, ni, j + 1, v, fuel);
    } else {
        assert(wf_rule(grammar, &grammar.rules@[j]));
        lemma_eps_grows(grammar, grammar.rules@[j].rhs@, v, fuel);
        let (ok, v2) = spec_eps(grammar, grammar.rules@[j].rhs@, v, fuel);
        if !ok {
            lemma_eps_rules_grows(grammar, ni, j + 1, v2, fuel);
        }
    }
}

/// With enough fuel on both sides, the exact fuel does not matter.
pub proof fn lemma_eps_fuel(
    grammar: &Grammar,
    word: Seq<SymbolRef>,
    v: Set<usize>,
    f1: nat,
    f2: nat,
)
    requires
        grammar.wf(),
        wf_word(grammar, word),
        valid_visited(grammar, v),
        suff_fuel(grammar, v, f1),
        suff_fuel(grammar, v, f2),
    ensures
        spec_eps(grammar, word, v, f1) == spec_eps(grammar, word, v, f2),
    decreases f1 + f2, 0int, word.len(), 0int,
{
    if word.len() == 0 {
    } else {
        assert(wf_symbol(grammar, word[0]));
        assert(wf_word(grammar, word.drop_first()));
        match word[0] {
            SymbolRef::Epsilon => {
                lemma_eps_fuel(grammar, word.drop_first(), v, f1, f2);
            },
            SymbolRef::Terminal(_) => {},
            SymbolRef::NonTerminal(nt) => {
                let ni = nt.index;
                if !v.contains(ni) {
                    lemma_visited_card(grammar, v);
                    assert(f1 > 0 && f2 > 0);
                    let v1 = v.insert(ni);
                    lemma_eps_rules_fuel(
                        grammar,
                        ni,
                        0,
                        v1,
                        (f1 - 1) as nat,
                        (f2 - 1) as nat,
                    );
                    let (ok, v2) = spec_eps_rules(grammar, ni, 0, v1, (f1 - 1) as nat);
                    lemma_eps_rules_grows(grammar, ni, 0, v1, (f1 - 1) as nat);
                    if ok {
                        vstd::set_lib::lemma_len_subset(v1, v2);
                        lemma_eps_fuel(grammar, word.drop_first(), v2, f1, f2);
                    }
                }
            },
        }
    }
}

/// With enough fuel on both sides, the exact fuel does not matter.
pub proof fn lemma_eps_rules_fuel(
    grammar: &Grammar,
    ni: usize,
    j: int,
    v: Set<usize>,
    f1: nat,
    f2: nat,
)
    requires
        grammar.wf(),
        valid_visited(grammar, v),
        suff_fuel(grammar, v, f1),
        suff_fuel(grammar, v, f2),
    ensures
        spec_eps_rules(grammar, ni, j, v, f1) == spec_eps_rules(grammar, ni, j, v, f2),
    decreases f1 + f2, 1int, grammar.rules@.len() - j, 0int,
{
    if j < 0 || j >= grammar.rules@.len() {
    } else if grammar.rules@[j].lhs.index != ni {
        lemma_eps_rules_fuel(grammar, ni, j + 1, v, f1, f2);
    } else {
        assert(wf_rule(grammar, &grammar.rules@[j]));
        lemma_eps_fuel(grammar, grammar.rules@[j].rhs@, v, f1, f2);
        let (ok, v2) = spec_eps(grammar, grammar.rules@[j].rhs@, v, f1);
        lemma_eps_grows(grammar, grammar.rules@[j].rhs@, v, f1);
        if !ok {
            vstd::set_lib::lemma_len_subset(v, v2);
            lemma_eps_rules_fuel(grammar, ni, j + 1, v2, f1, f2);
        }
    }
}

/// Whether the right-hand side of rule `j` is nullable, judged with a fresh
/// guard: the per-rule check FIRST and PREDICT rely on.
pub open spec fn spec_rule_nullable(grammar: &Grammar, j: int) -> bool {
    spec_eps(grammar, grammar.rules@[j].rhs@, Set::empty(), full_fuel(grammar)).0
}

/// Whether `word` derives the empty string when scanned with a fresh guard.
pub open spec fn spec_word_nullable(grammar: &Grammar, word: Seq<SymbolRef>) -> bool {
    spec_eps(grammar, word, Set::empty(), full_fuel(grammar)).0
}

/// True iff `word` can derive the empty string, scanning left to right under
/// the caller's guard set: epsilon symbols are skipped, a terminal answers
/// no, and a non-terminal must have at least one rule whose right-hand side
/// is itself nullable. The guard set breaks recursion cycles: a non-terminal
/// already on the current chain conservatively answers no. The guard set is
/// left as the scan grew it.
pub fn eps(word: &[SymbolRef], grammar: &Grammar, visited: &mut IndexSet) -> (r: bool)
    requires
        grammar.wf(),
        wf_word(grammar, word@),
        old(visited).wf(),
        valid_visited(grammar, old(visited)@),
    ensures
        final(visited).wf(),
        valid_visited(grammar, final(visited)@),
        old(visited)@.subset_of(final(visited)@),
        (r, final(visited)@) == spec_eps(
            grammar,
            word@,
            old(visited)@,
            fuel_for(grammar, old(visited)@),
        ),
    decreases fuel_for(grammar, old(visited)@), word@.len(),
{
    let ghost v0 = visited@;
    let ghost fuel = fuel_for(grammar, v0);
    proof {
        lemma_visited_card(grammar, v0);
    }
    if word.len() == 0 {
        return true;
    }
    let rest = vstd::slice::slice_subrange(word, 1, word.len());
    proof {
        assert(rest@ =~= word@.drop_first());
        assert(wf_symbol(grammar, word@[0]));
    }
    match &word[0] {
        SymbolRef::Epsilon => eps(rest, grammar, visited),
        SymbolRef::Terminal(_) => false,
        SymbolRef::NonTerminal(nt) => {
            let ni = nt.index();
            if visited.contains(ni) {
                return false;
            }
            proof {
                lemma_visited_card(grammar, v0);
                assert(fuel > 0);
            }
            visited.insert(ni);
            let ghost v1 = visited@;
            proof {
                assert(v1 =~= v0.insert(ni));
                assert(v1.len() == v0.len() + 1);
                assert(fuel_for(grammar, v1) == (fuel - 1) as nat);
            }
            let ghost bfuel = (fuel - 1) as nat;
            let n = grammar.rules.len();
            let mut j: usize = 0;
            let mut any = false;
            while j < n && !any
                invariant
                    grammar.wf(),
                    n == grammar.rules@.len(),
                    j <= n,
                    v0 == old(visited)@,
                    visited.wf(),
                    valid_visited(grammar, visited@),
                    valid_visited(grammar, v0),
                    !v0.contains(ni),
                    ni < grammar.non_terminals@.len(),
                    v1 == v0.insert(ni),
                    v1.len() == v0.len() + 1,
                    fuel == fuel_for(grammar, v0),
                    fuel >= 1,
                    bfuel == (fuel - 1) as nat,
                    v1.subset_of(visited@),
                    suff_fuel(grammar, v1, bfuel),
                    !any ==> spec_eps_rules(grammar, ni, 0, v1, bfuel) == spec_eps_rules(
                        grammar,
                        ni,
                        j as int,
                        visited@,
                        bfuel,
                    ),
                    any ==> spec_eps_rules(grammar, ni, 0, v1, bfuel) == (
                        true,
                        visited@,
                    ),
                decreases n - j, (if any { 0int } else { 1int }),
            {
                if grammar.rules[j].lhs.index() == ni {
                    let ghost vc = visited@;
                    let rhs_slice = grammar.rules[j].rhs.as_slice();
                    proof {
                        assert(wf_rule(grammar, &grammar.rules@[j as int]));
                        vstd::set_lib::lemma_len_subset(v1, vc);
                        lemma_visited_card(grammar, vc);
                        assert(fuel_for(grammar, vc) < fuel_for(grammar, v0));
                        lemma_eps_fuel(
                            grammar,
                            rhs_slice@,
                            vc,
                            fuel_for(grammar, vc),
                            bfuel,
                        );
                    }
                    let ok = eps(rhs_slice, grammar, visited);
                    proof {
                        assert(spec_eps(grammar, rhs_slice@, vc, bfuel) == (
                            ok,
                            visited@,
                        ));
                    }
                    if ok {
                        any = true;
                    }
                }
                if !any {
                    j = j + 1;
                }
            }
            proof {
                if !any {
                    assert(j == n);
                    assert(spec_eps_rules(grammar, ni, 0, v1, bfuel) == (
                        false,
                        visited@,
                    ));
                }
            }
            if !any {
                return false;
            }
            let ghost v2 = visited@;
            proof {
                vstd::set_lib::lemma_len_subset(v1, v2);
                lemma_visited_card(grammar, v2);
                assert(fuel_for(grammar, v2) < fuel_for(grammar, v0));
                lemma_eps_fuel(grammar, rest@, v2, fuel_for(grammar, v2), fuel);
            }
            eps(rest, grammar, visited)
        },
    }
}

/// Every element of `s` is a resolvable terminal index.
pub open spec fn valid_terms(grammar: &Grammar, s: Set<usize>) -> bool {
    forall|x: usize| s.contains(x) ==> x < grammar.terminals@.len()
}

/// The terminals that can begin a string derived from `word`, scanned left
/// to right under guard set `v`: a terminal contributes itself and stops the
/// scan; a non-terminal contributes the union of FIRST over its rules'
/// right-hand sides, and the scan continues past it only when it is nullable
/// (judged with a fresh guard). A guarded non-terminal contributes nothing
/// and stops the scan.
pub open spec fn spec_first(
    grammar: &Grammar,
    word: Seq<SymbolRef>,
    v: Set<usize>,
    fuel: nat,
) -> (Set<usize>, Set<usize>)
    decreases fuel, 0int, word.len(), 0int,
{
    if word.len() == 0 {
        (Set::empty(), v)
    } else {
        match word[0] {
            SymbolRef::Epsilon => spec_first(grammar, word.drop_first(), v, fuel),
            SymbolRef::Terminal(t) => (set![t.index], v),
            SymbolRef::NonTerminal(nt) => {
                let ni = nt.index;
                if v.contains(ni) {
                    (Set::empty(), v)
                } else if fuel == 0 {
                    (Set::empty(), v)
                } else {
                    let v1 = v.insert(ni);
                    let (s1, v2) = spec_first_rules(grammar, ni, 0, v1, (fuel - 1) as nat);
                    if spec_nt_nullable(grammar, ni) {
                        let (s2, v3) = spec_first(grammar, word.drop_first(), v2, fuel);
                        (s1 + s2, v3)
                    } else {
                        (s1, v2)
                    }
                }
            },
        }
    }
}

/// Unions FIRST over the right-hand sides of the rules with left-hand side
/// `ni`, from rule index `j` on, threading the guard set through all of
/// them.
pub open spec fn spec_first_rules(
    grammar: &Grammar,
    ni: usize,
    j: int,
    v: Set<usize>,
    fuel: nat,
) -> (Set<usize>, Set<usize>)
    decreases fuel, 1int, grammar.rules@.len() - j, 0int,
{
    if j < 0 || j >= grammar.rules@.len() {
        (Set::empty(), v)
    } else if grammar.rules@[j].lhs.index != ni {
        spec_first_rules(grammar, ni, j + 1, v, fuel)
    } else {
        let (s1, v1) = spec_first(grammar, grammar.rules@[j].rhs@, v, fuel);
        let (s2, v2) = spec_first_rules(grammar, ni, j + 1, v1, fuel);
        (s1 + s2, v2)
    }
}

/// Whether `ni` has at least one rule whose right-hand side is nullable,
/// each judged with a fresh guard.
pub open spec fn spec_nt_nullable(grammar: &Grammar, ni: usize) -> bool {
    exists|j: int|
        0 <= j < grammar.rules@.len() && grammar.rules@[j].lhs.index == ni
            && spec_rule_nullable(grammar, j)
}

/// FIRST only grows the guard set, keeps it valid, and yields resolvable
/// terminal indices.
pub proof fn lemma_first_grows(
    grammar: &Grammar,
    word: Seq<SymbolRef>,
    v: Set<usize>,
    fuel: nat,
)
    requires
        grammar.wf(),
        wf_word(grammar, word),
        valid_visited(grammar, v),
    ensures
        v.subset_of(spec_first(grammar, word, v, fuel).1),
        valid_visited(grammar, spec_first(grammar, word, v, fuel).1),
        valid_terms(grammar, spec_first(grammar, word, v, fuel).0),
    decreases fuel, 0int, word.len(), 0int,
{
    if word.len() == 0 {
    } else {
        assert(wf_symbol(grammar, word[0]));
        assert(wf_word(grammar, word.drop_first()));
        match word[0] {
            SymbolRef::Epsilon => {
                lemma_first_grows(grammar, word.drop_first(), v, fuel);
            },
            SymbolRef::Terminal(_) => {},
            SymbolRef::NonTerminal(nt) => {
                let ni = nt.index;
                if !v.contains(ni) && fuel > 0 {
                    let v1 = v.insert(ni);
                    lemma_first_rules_grows(grammar, ni, 0, v1, (fuel - 1) as nat);
                    let (s1, v2) = spec_first_rules(grammar, ni, 0, v1, (fuel - 1) as nat);
                    if spec_nt_nullable(grammar, ni) {
                        lemma_first_grows(grammar, word.drop_first(), v2, fuel);
                    }
                }
            },
        }
    }
}

/// The rule scan of FIRST only grows the guard set, keeps it valid, and
/// yields resolvable terminal indices.
pub proof fn lemma_first_rules_grows(
    grammar: &Grammar,
    ni: usize,
    j: int,
    v: Set<usize>,
    fuel: nat,
)
    requires
        grammar.wf(),
        valid_visited(grammar, v),
    ensures
        v.subset_of(spec_first_rules(grammar, ni, j, v, fuel).1),
        valid_visited(grammar, spec_first_rules(grammar, ni, j, v, fuel).1),
        valid_terms(grammar, spec_first_rules(grammar, ni, j, v, fuel).0),
    decreases fuel, 1int, grammar.rules@.len() - j, 0int,
{
    if j < 0 || j >= grammar.rules@.len() {
    } else if grammar.rules@[j].lhs.index != ni {
        lemma_first_rules_grows(grammar, ni, j + 1, v, fuel);
    } else {
        assert(wf_rule(grammar, &grammar.rules@[j]));
        lemma_first_grows(grammar, grammar.rules@[j].rhs@, v, fuel);
        let (s1, v1) = spec_first(grammar, grammar.rules@[j].rhs@, v, fuel);
        lemma_first_rules_grows(grammar, ni, j + 1, v1, fuel);
    }
}

/// With enough fuel on both sides, the exact fuel does not matter to FIRST.
pub proof fn lemma_first_fuel(
    grammar: &Grammar,
    word: Seq<SymbolRef>,
    v: Set<usize>,
    f1: nat,
    f2: nat,
)
    requires
        grammar.wf(),
        wf_word(grammar, word),
        valid_visited(grammar, v),
        suff_fuel(grammar, v, f1),
        suff_fuel(grammar, v, f2),
    ensures
        spec_first(grammar, word, v, f1) == spec_first(grammar, word, v, f2),
    decreases f1 + f2, 0int, word.len(), 0int,
{
    if word.len() == 0 {
    } else {
        assert(wf_symbol(grammar, word[0]));
        assert(wf_word(grammar, word.drop_first()));
        match word[0] {
            SymbolRef::Epsilon => {
                lemma_first_fuel(grammar, word.drop_first(), v, f1, f2);
            },
            SymbolRef::Terminal(_) => {},
            SymbolRef::NonTerminal(nt) => {
                let ni = nt.index;
                if !v.contains(ni) {
                    lemma_visited_card(grammar, v);
                    assert(f1 > 0 && f2 > 0);
                    let v1 = v.insert(ni);
                    lemma_first_rules_fuel(
                        grammar,
                        ni,
                        0,
                        v1,
                        (f1 - 1) as nat,
                        (f2 - 1) as nat,
                    );
                    let (s1, v2) = spec_first_rules(grammar, ni, 0, v1, (f1 - 1) as nat);
                    lemma_first_rules_grows(grammar, ni, 0, v1, (f1 - 1) as nat);
                    if spec_nt_nullable(grammar, ni) {
                        vstd::set_lib::lemma_len_subset(v1, v2);
                        lemma_first_fuel(grammar, word.drop_first(), v2, f1, f2);
                    }
                }
            },
        }
    }
}

/// With enough fuel on both sides, the exact fuel does not matter to the
/// rule scan of FIRST.
pub proof fn lemma_first_rules_fuel(
    grammar: &Grammar,
    ni: usize,
    j: int,
    v: Set<usize>,
    f1: nat,
    f2: nat,
)
    requires
        grammar.wf(),
        valid_visited(grammar, v),
        suff_fuel(grammar, v, f1),
        suff_fuel(grammar, v, f2),
    ensures
        spec_first_rules(grammar, ni, j, v, f1) == spec_first_rules(grammar, ni, j, v, f2),
    decreases f1 + f2, 1int, grammar.rules@.len() - j, 0int,
{
    if j < 0 || j >= grammar.rules@.len() {
    } else if grammar.rules@[j].lhs.index != ni {
        lemma_first_rules_fuel(grammar, ni, j + 1, v, f1, f2);
    } else {
        assert(wf_rule(grammar, &grammar.rules@[j]));
        lemma_first_fuel(grammar, grammar.rules@[j].rhs@, v, f1, f2);
        let (s1, v1) = spec_first(grammar, grammar.rules@[j].rhs@, v, f1);
        lemma_first_grows(grammar, grammar.rules@[j].rhs@, v, f1);
        vstd::set_lib::lemma_len_subset(v, v1);
        lemma_first_rules_fuel(grammar, ni, j + 1, v1, f1, f2);
    }
}

/// The set of terminals that can appear first in a string derived from
/// `word`, under the caller's guard set, which is left as the scan grew it.
/// The result and the final guard are functions of the grammar, the word and
/// the incoming guard alone.
pub fn first(word: &[SymbolRef], grammar: &Grammar, visited: &mut IndexSet) -> (r: IndexSet)
    requires
        grammar.wf(),
        wf_word(grammar, word@),
        old(visited).wf(),
        valid_visited(grammar, old(visited)@),
    ensures
        r.wf(),
        final(visited).wf(),
        valid_visited(grammar, final(visited)@),
        old(visited)@.subset_of(final(visited)@),
        valid_terms(grammar, r@),
        (r@, final(visited)@) == spec_first(
            grammar,
            word@,
            old(visited)@,
            fuel_for(grammar, old(visited)@),
        ),
    decreases fuel_for(grammar, old(visited)@), word@.len(),
{
    let ghost v0 = visited@;
    let ghost fuel = fuel_for(grammar, v0);
    proof {
        lemma_visited_card(grammar, v0);
        lemma_first_grows(grammar, word@, v0, fuel);
    }
    if word.len() == 0 {
        let r = IndexSet::new();
        return r;
    }
    let rest = vstd::slice::slice_subrange(word, 1, word.len());
    proof {
        assert(rest@ =~= word@.drop_first());
        assert(wf_symbol(grammar, word@[0]));
    }
    match &word[0] {
        SymbolRef::Epsilon => first(rest, grammar, visited),
        SymbolRef::Terminal(t) => {
            let mut r = IndexSet::new();
            r.insert(t.index());
            proof {
                assert(r@ =~= spec_first(grammar, word@, v0, fuel).0);
            }
            r
        },
        SymbolRef::NonTerminal(nt) => {
            let ni = nt.index();
            if visited.contains(ni) {
                let r = IndexSet::new();
                proof {
                    assert(r@ =~= spec_first(grammar, word@, v0, fuel).0);
                }
                return r;
            }
            proof {
                lemma_visited_card(grammar, v0);
                assert(fuel > 0);
            }
            visited.insert(ni);
            let ghost v1 = visited@;
            proof {
                assert(v1 =~= v0.insert(ni));
                assert(v1.len() == v0.len() + 1);
                assert(fuel_for(grammar, v1) == (fuel - 1) as nat);
            }
            let ghost bfuel = (fuel - 1) as nat;
            let n = grammar.rules.len();
            let mut acc = IndexSet::new();
            let mut j: usize = 0;
            while j < n
                invariant
                    grammar.wf(),
                    n == grammar.rules@.len(),
                    j <= n,
                    v0 == old(visited)@,
                    visited.wf(),
                    acc.wf(),
                    valid_visited(grammar, visited@),
                    valid_visited(grammar, v0),
                    !v0.contains(ni),
                    ni < grammar.non_terminals@.len(),
                    v1 == v0.insert(ni),
                    v1.len() == v0.len() + 1,
                    fuel == fuel_for(grammar, v0),
                    fuel >= 1,
                    bfuel == (fuel - 1) as nat,
                    v1.subset_of(visited@),
                    suff_fuel(grammar, v1, bfuel),
                    spec_first_rules(grammar, ni, 0, v1, bfuel).0 == acc@ + spec_first_rules(
                        grammar,
                        ni,
                        j as int,
                        visited@,
                        bfuel,
                    ).0,
                    spec_first_rules(grammar, ni, 0, v1, bfuel).1 == spec_first_rules(
                        grammar,
                        ni,
                        j as int,
                        visited@,
                        bfuel,
                    ).1,
                decreases n - j,
            {
                if grammar.rules[j].lhs.index() == ni {
                    let ghost vc = visited@;
                    let rhs_slice = grammar.rules[j].rhs.as_slice();
                    proof {
                        assert(wf_rule(grammar, &grammar.rules@[j as int]));
                        vstd::set_lib::lemma_len_subset(v1, vc);
                        lemma_visited_card(grammar, vc);
                        assert(fuel_for(grammar, vc) < fuel_for(grammar, v0));
                        lemma_first_fuel(
                            grammar,
                            rhs_slice@,
                            vc,
                            fuel_for(grammar, vc),
                            bfuel,
                        );
                    }
                    let s = first(rhs_slice, grammar, visited);
                    let ghost acc_before = acc@;
                    acc.union_with(&s);
                    proof {
                        let tail = spec_first_rules(
                            grammar,
                            ni,
                            j + 1,
                            visited@,
                            bfuel,
                        ).0;
                        assert(acc_before + (s@ + tail) =~= (acc_before + s@) + tail);
                    }
                } else {
                    proof {
                        assert(spec_first_rules(grammar, ni, j as int, visited@, bfuel)
                            == spec_first_rules(grammar, ni, j + 1, visited@, bfuel));
                    }
                }
                j = j + 1;
            }
            proof {
                assert(spec_first_rules(grammar, ni, n as int, visited@, bfuel).0
                    =~= Set::<usize>::empty());
                assert(acc@ + spec_first_rules(grammar, ni, n as int, visited@, bfuel).0
                    =~= acc@);
                assert(spec_first_rules(grammar, ni, 0, v1, bfuel).0 == acc@);
                assert(spec_first_rules(grammar, ni, 0, v1, bfuel).1 == visited@);
            }
            // Decide whether the scan continues past this non-terminal:
            // at least one of its rules must be nullable, each judged with a
            // fresh guard.
            let mut nullable = false;
            let mut k: usize = 0;
            while k < n && !nullable
                invariant
                    grammar.wf(),
                    n == grammar.rules@.len(),
                    k <= n,
                    !nullable ==> forall|jj: int|
                        0 <= jj < k && (#[trigger] grammar.rules@[jj]).lhs.index == ni
                            ==> !spec_rule_nullable(grammar, jj),
                    nullable ==> spec_nt_nullable(grammar, ni),
                decreases n - k, (if nullable { 0int } else { 1int }),
            {
                if grammar.rules[k].lhs.index() == ni {
                    proof {
                        assert(wf_rule(grammar, &grammar.rules@[k as int]));
                    }
                    let mut fresh = IndexSet::new();
                    let rhs_slice = grammar.rules[k].rhs.as_slice();
                    if eps(rhs_slice, grammar, &mut fresh) {
                        nullable = true;
                        proof {
                            assert(fuel_for(grammar, Set::<usize>::empty())
                                == full_fuel(grammar));
                            assert(spec_rule_nullable(grammar, k as int));
                        }
                    }
                }
                if !nullable {
                    k = k + 1;
                }
            }
            proof {
                if !nullable {
                    assert(!spec_nt_nullable(grammar, ni));
                }
            }
            if nullable {
                let ghost v2 = visited@;
                proof {
                    vstd::set_lib::lemma_len_subset(v1, v2);
                    lemma_visited_card(grammar, v2);
                    assert(fuel_for(grammar, v2) < fuel_for(grammar, v0));
                    lemma_first_fuel(grammar, rest@, v2, fuel_for(grammar, v2), fuel);
                }
                let s2 = first(rest, grammar, visited);
                let ghost acc_before = acc@;
                acc.union_with(&s2);
                proof {
                    assert(acc@ =~= acc_before + s2@);
                }
            }
            acc
        },
    }
}

/// One position of one rule matches an occurrence of `ni`: the spot where
/// FOLLOW gains FIRST of the remainder and, when the remainder is nullable,
/// recurses into FOLLOW of the rule's own left-hand side.
pub open spec fn spec_follow_pos(
    grammar: &Grammar,
    ni: usize,
    j: int,
    i: int,
    v: Set<usize>,
    fuel: nat,
) -> (Set<usize>, Set<usize>)
    decreases fuel, 0int, grammar.rules@.len() - j, 0int, grammar.rules@[j].rhs@.len() - i,
{
    if j < 0 || j >= grammar.rules@.len() {
        (Set::empty(), v)
    } else {
        let rhs = grammar.rules@[j].rhs@;
        if i < 0 || i >= rhs.len() {
            (Set::empty(), v)
        } else if !(rhs[i] is NonTerminal && (rhs[i]->NonTerminal_0).index == ni) {
            spec_follow_pos(grammar, ni, j, i + 1, v, fuel)
        } else {
            let rest = rhs.subrange(i + 1, rhs.len() as int);
            let s_first = spec_first(grammar, rest, Set::empty(), full_fuel(grammar)).0;
            let lhs_i = grammar.rules@[j].lhs.index;
            if !v.contains(lhs_i) && spec_word_nullable(grammar, rest) && fuel > 0 {
                let v1 = v.insert(lhs_i);
                let (s_f, v2) = spec_follow(grammar, lhs_i, v1, (fuel - 1) as nat);
                let (s_rest, v3) = spec_follow_pos(grammar, ni, j, i + 1, v2, fuel);
                (s_first + s_f + s_rest, v3)
            } else {
                let (s_rest, v3) = spec_follow_pos(grammar, ni, j, i + 1, v, fuel);
                (s_first + s_rest, v3)
            }
        }
    }
}

/// FOLLOW contributions of the rules from index `j` on.
pub open spec fn spec_follow_rules(
    grammar: &Grammar,
    ni: usize,
    j: int,
    v: Set<usize>,
    fuel: nat,
) -> (Set<usize>, Set<usize>)
    decreases fuel, 0int, grammar.rules@.len() - j, 1int, 0int,
{
    if j < 0 || j >= grammar.rules@.len() {
        (Set::empty(), v)
    } else {
        let (s1, v1) = spec_follow_pos(grammar, ni, j, 0, v, fuel);
        let (s2, v2) = spec_follow_rules(grammar, ni, j + 1, v1, fuel);
        (s1 + s2, v2)
    }
}

/// The terminals that can immediately follow `ni` in some derivation: for
/// every occurrence of `ni` in a rule's right-hand side, FIRST of the
/// remainder, and, when the remainder is nullable and the rule's left-hand
/// side is not yet guarded, FOLLOW of that left-hand side.
pub open spec fn spec_follow(grammar: &Grammar, ni: usize, v: Set<usize>, fuel: nat) -> (
    Set<usize>,
    Set<usize>,
)
    decreases fuel, 1int, 0int, 0int, 0int,
{
    spec_follow_rules(grammar, ni, 0, v, fuel)
}

/// What is still to be scanned from position `i` of rule `j` on: the rest of
/// that rule, then all later rules.
pub open spec fn spec_follow_from(
    grammar: &Grammar,
    ni: usize,
    j: int,
    i: int,
    v: Set<usize>,
    fuel: nat,
) -> (Set<usize>, Set<usize>) {
    let (s1, v1) = spec_follow_pos(grammar, ni, j, i, v, fuel);
    let (s2, v2) = spec_follow_rules(grammar, ni, j + 1, v1, fuel);
    (s1 + s2, v2)
}

/// The position scan of FOLLOW only grows the guard set, keeps it valid, and
/// yields resolvable terminal indices.
pub proof fn lemma_follow_pos_grows(
    grammar: &Grammar,
    ni: usize,
    j: int,
    i: int,
    v: Set<usize>,
    fuel: nat,
)
    requires
        grammar.wf(),
        valid_visited(grammar, v),
    ensures
        v.subset_of(spec_follow_pos(grammar, ni, j, i, v, fuel).1),
        valid_visited(grammar, spec_follow_pos(grammar, ni, j, i, v, fuel).1),
        valid_terms(grammar, spec_follow_pos(grammar, ni, j, i, v, fuel).0),
    decreases fuel, 0int, grammar.rules@.len() - j, 0int, grammar.rules@[j].rhs@.len() - i,
{
    if j < 0 || j >= grammar.rules@.len() {
    } else {
        let rhs = grammar.rules@[j].rhs@;
        assert(wf_rule(grammar, &grammar.rules@[j]));
        if i < 0 || i >= rhs.len() {
        } else if !(rhs[i] is NonTerminal && (rhs[i]->NonTerminal_0).index == ni) {
            lemma_follow_pos_grows(grammar, ni, j, i + 1, v, fuel);
        } else {
            let rest = rhs.subrange(i + 1, rhs.len() as int);
            assert(wf_word(grammar, rest));
            lemma_first_grows(grammar, rest, Set::empty(), full_fuel(grammar));
            let lhs_i = grammar.rules@[j].lhs.index;
            if !v.contains(lhs_i) && spec_word_nullable(grammar, rest) && fuel > 0 {
                let v1 = v.insert(lhs_i);
                lemma_follow_grows(grammar, lhs_i, v1, (fuel - 1) as nat);
                let (s_f, v2) = spec_follow(grammar, lhs_i, v1, (fuel - 1) as nat);
                lemma_follow_pos_grows(grammar, ni, j, i + 1, v2, fuel);
            } else {
                lemma_follow_pos_grows(grammar, ni, j, i + 1, v, fuel);
            }
        }
    }
}

/// The rule scan of FOLLOW only grows the guard set, keeps it valid, and
/// yields resolvable terminal indices.
pub proof fn lemma_follow_rules_grows(
    grammar: &Grammar,
    ni: usize,
    j: int,
    v: Set<usize>,
    fuel: nat,
)
    requires
        grammar.wf(),
        valid_visited(grammar, v),
    ensures
        v.subset_of(spec_follow_rules(grammar, ni, j, v, fuel).1),
        valid_visited(grammar, spec_follow_rules(grammar, ni, j, v, fuel).1),
        valid_terms(grammar, spec_follow_rules(grammar, ni, j, v, fuel).0),
    decreases fuel, 0int, grammar.rules@.len() - j, 1int, 0int,
{
    if j < 0 || j >= grammar.rules@.len() {
    } else {
        lemma_follow_pos_grows(grammar, ni, j, 0, v, fuel);
        let (s1, v1) = spec_follow_pos(grammar, ni, j, 0, v, fuel);
        lemma_follow_rules_grows(grammar, ni, j + 1, v1, fuel);
    }
}

/// FOLLOW only grows the guard set, keeps it valid, and yields resolvable
/// terminal indices.
pub proof fn lemma_follow_grows(grammar: &Grammar, ni: usize, v: Set<usize>, fuel: nat)
    requires
        grammar.wf(),
        valid_visited(grammar, v),
    ensures
        v.subset_of(spec_follow(grammar, ni, v, fuel).1),
        valid_visited(grammar, spec_follow(grammar, ni, v, fuel).1),
        valid_terms(grammar, spec_follow(grammar, ni, v, fuel).0),
    decreases fuel, 1int, 0int, 0int, 0int,
{
    lemma_follow_rules_grows(grammar, ni, 0, v, fuel);
}

/// With enough fuel on both sides, the exact fuel does not matter to the
/// position scan of FOLLOW.
pub proof fn lemma_follow_pos_fuel(
    grammar: &Grammar,
    ni: usize,
    j: int,
    i: int,
    v: Set<usize>,
    f1: nat,
    f2: nat,
)
    requires
        grammar.wf(),
        valid_visited(grammar, v),
        suff_fuel(grammar, v, f1),
        suff_fuel(grammar, v, f2),
    ensures
        spec_follow_pos(grammar, ni, j, i, v, f1) == spec_follow_pos(
            grammar,
            ni,
            j,
            i,
            v,
            f2,
        ),
    decreases f1 + f2, 0int, grammar.rules@.len() - j, 0int, grammar.rules@[j].rhs@.len() - i,
{
    if j < 0 || j >= grammar.rules@.len() {
    } else {
        let rhs = grammar.rules@[j].rhs@;
        assert(wf_rule(grammar, &grammar.rules@[j]));
        if i < 0 || i >= rhs.len() {
        } else if !(rhs[i] is NonTerminal && (rhs[i]->NonTerminal_0).index == ni) {
            lemma_follow_pos_fuel(grammar, ni, j, i + 1, v, f1, f2);
        } else {
            let rest = rhs.subrange(i + 1, rhs.len() as int);
            let lhs_i = grammar.rules@[j].lhs.index;
            if !v.contains(lhs_i) && spec_word_nullable(grammar, rest) {
                lemma_visited_card(grammar, v);
                assert(f1 > 0 && f2 > 0);
                let v1 = v.insert(lhs_i);
                lemma_follow_fuel(grammar, lhs_i, v1, (f1 - 1) as nat, (f2 - 1) as nat);
                let (s_f, v2) = spec_follow(grammar, lhs_i, v1, (f1 - 1) as nat);
                lemma_follow_grows(grammar, lhs_i, v1, (f1 - 1) as nat);
                vstd::set_lib::lemma_len_subset(v1, v2);
                lemma_follow_pos_fuel(grammar, ni, j, i + 1, v2, f1, f2);
            } else {
                lemma_follow_pos_fuel(grammar, ni, j, i + 1, v, f1, f2);
            }
        }
    }
}

/// With enough fuel on both sides, the exact fuel does not matter to the
/// rule scan of FOLLOW.
pub proof fn lemma_follow_rules_fuel(
    grammar: &Grammar,
    ni: usize,
    j: int,
    v: Set<usize>,
    f1: nat,
    f2: nat,
)
    requires
        grammar.wf(),
        valid_visited(grammar, v),
        suff_fuel(grammar, v, f1),
        suff_fuel(grammar, v, f2),
    ensures
        spec_follow_rules(grammar, ni, j, v, f1) == spec_follow_rules(
            grammar,
            ni,
            j,
            v,
            f2,
        ),
    decreases f1 + f2, 0int, grammar.rules@.len() - j, 1int, 0int,
{
    if j < 0 || j >= grammar.rules@.len() {
    } else {
        lemma_follow_pos_fuel(grammar, ni, j, 0, v, f1, f2);
        let (s1, v1) = spec_follow_pos(grammar, ni, j, 0, v, f1);
        lemma_follow_pos_grows(grammar, ni, j, 0, v, f1);
        vstd::set_lib::lemma_len_subset(v, v1);
        lemma_follow_rules_fuel(grammar, ni, j + 1, v1, f1, f2);
    }
}

/// With enough fuel on both sides, the exact fuel does not matter to
/// FOLLOW.
pub proof fn lemma_follow_fuel(
    grammar: &Grammar,
    ni: usize,
    v: Set<usize>,
    f1: nat,
    f2: nat,
)
    requires
        grammar.wf(),
        valid_visited(grammar, v),
        suff_fuel(grammar, v, f1),
        suff_fuel(grammar, v, f2),
    ensures
        spec_follow(grammar, ni, v, f1) == spec_follow(grammar, ni, v, f2),
    decreases f1 + f2, 1int, 0int, 0int, 0int,
{
    lemma_follow_rules_fuel(grammar, ni, 0, v, f1, f2);
}

/// The set of terminals that can immediately follow `nt` in some
/// derivation, under the caller's guard set, which is left as the scan grew
/// it. The result and the final guard are functions of the grammar, the
/// non-terminal and the incoming guard alone.
pub fn follow(nt: &NonTerminalRef, grammar: &Grammar, visited: &mut IndexSet) -> (r:
    IndexSet)
    requires
        grammar.wf(),
        old(visited).wf(),
        valid_visited(grammar, old(visited)@),
    ensures
        r.wf(),
        final(visited).wf(),
        valid_visited(grammar, final(visited)@),
        old(visited)@.subset_of(final(visited)@),
        valid_terms(grammar, r@),
        (r@, final(visited)@) == spec_follow(
            grammar,
            nt.index as usize,
            old(visited)@,
            fuel_for(grammar, old(visited)@),
        ),
    decreases fuel_for(grammar, old(visited)@),
{
    let ghost v0 = visited@;
    let ghost fuel = fuel_for(grammar, v0);
    let ni = nt.index();
    proof {
        lemma_visited_card(grammar, v0);
        lemma_follow_grows(grammar, ni, v0, fuel);
    }
    let mut acc = IndexSet::new();
    let n = grammar.rules.len();
    let mut j: usize = 0;
    while j < n
        invariant
            grammar.wf(),
            n == grammar.rules@.len(),
            j <= n,
            ni == nt.index,
            v0 == old(visited)@,
            visited.wf(),
            acc.wf(),
            valid_visited(grammar, visited@),
            valid_visited(grammar, v0),
            fuel == fuel_for(grammar, v0),
            v0.subset_of(visited@),
            spec_follow(grammar, ni, v0, fuel).0 == acc@ + spec_follow_rules(
                grammar,
                ni,
                j as int,
                visited@,
                fuel,
            ).0,
            spec_follow(grammar, ni, v0, fuel).1 == spec_follow_rules(
                grammar,
                ni,
                j as int,
                visited@,
                fuel,
            ).1,
        decreases n - j,
    {
        let rhs_len = grammar.rules[j].rhs.len();
        let ghost vj = visited@;
        let ghost accj = acc@;
        let mut i: usize = 0;
        proof {
            assert(wf_rule(grammar, &grammar.rules@[j as int]));
            assert(spec_follow_rules(grammar, ni, j as int, vj, fuel)
                == spec_follow_from(grammar, ni, j as int, 0, vj, fuel));
        }
        while i < rhs_len
            invariant
                grammar.wf(),
                n == grammar.rules@.len(),
                j < n,
                rhs_len == grammar.rules@[j as int].rhs@.len(),
                i <= rhs_len,
                ni == nt.index,
                v0 == old(visited)@,
                visited.wf(),
                acc.wf(),
                valid_visited(grammar, visited@),
                valid_visited(grammar, v0),
                fuel == fuel_for(grammar, v0),
                v0.subset_of(visited@),
                spec_follow(grammar, ni, v0, fuel).0 == acc@ + spec_follow_from(
                    grammar,
                    ni,
                    j as int,
                    i as int,
                    visited@,
                    fuel,
                ).0,
                spec_follow(grammar, ni, v0, fuel).1 == spec_follow_from(
                    grammar,
                    ni,
                    j as int,
                    i as int,
                    visited@,
                    fuel,
                ).1,
            decreases rhs_len - i,
        {
            let ghost vc = visited@;
            let matches_nt = grammar.rules[j].rhs.symbols[i].eq_non_terminal(nt);
            if matches_nt {
                let rhs_slice = grammar.rules[j].rhs.as_slice();
                let rest_slice = vstd::slice::slice_subrange(
                    rhs_slice,
                    i + 1,
                    rhs_len,
                );
                proof {
                    assert(rest_slice@ =~= grammar.rules@[j as int].rhs@.subrange(
                        i + 1,
                        rhs_len as int,
                    ));
                    assert(wf_word(grammar, rest_slice@));
                    assert(fuel_for(grammar, Set::<usize>::empty()) == full_fuel(
                        grammar,
                    ));
                }
                let mut fresh_first = IndexSet::new();
                let s_first = first(rest_slice, grammar, &mut fresh_first);
                let ghost acc_before = acc@;
                acc.union_with(&s_first);
                let mut fresh_eps = IndexSet::new();
                let nullable_rest = eps(rest_slice, grammar, &mut fresh_eps);
                let lhs_ref = grammar.rules[j].lhs;
                let lhs_guarded = visited.contains(lhs_ref.index());
                if !lhs_guarded && nullable_rest {
                    proof {
                        lemma_visited_card(grammar, visited@);
                        vstd::set_lib::lemma_len_subset(v0, vc);
                        assert(fuel > 0);
                    }
                    visited.insert(lhs_ref.index());
                    let ghost v1 = visited@;
                    proof {
                        assert(v1 =~= vc.insert(lhs_ref.index));
                        assert(v1.len() == vc.len() + 1);
                        vstd::set_lib::lemma_len_subset(v0, vc);
                        lemma_visited_card(grammar, v1);
                        assert(fuel_for(grammar, v1) < fuel_for(grammar, v0));
                        lemma_follow_fuel(
                            grammar,
                            lhs_ref.index as usize,
                            v1,
                            fuel_for(grammar, v1),
                            (fuel - 1) as nat,
                        );
                    }
                    let s_f = follow(&lhs_ref, grammar, visited);
                    let ghost acc_mid = acc@;
                    acc.union_with(&s_f);
                    proof {
                        let ghost v2 = visited@;
                        let tail = spec_follow_from(
                            grammar,
                            ni,
                            j as int,
                            i + 1,
                            v2,
                            fuel,
                        );
                        assert(spec_follow_pos(grammar, ni, j as int, i as int, vc, fuel).0
                            =~= s_first@ + s_f@ + spec_follow_pos(
                            grammar,
                            ni,
                            j as int,
                            i + 1,
                            v2,
                            fuel,
                        ).0);
                        assert(acc@ =~= acc_before + s_first@ + s_f@);
                        assert(acc_before + (s_first@ + s_f@ + spec_follow_pos(
                            grammar,
                            ni,
                            j as int,
                            i + 1,
                            v2,
                            fuel,
                        ).0 + spec_follow_rules(grammar, ni, j + 1, spec_follow_pos(
                            grammar,
                            ni,
                            j as int,
                            i + 1,
                            v2,
                            fuel,
                        ).1, fuel).0) =~= acc@ + tail.0);
                    }
                } else {
                    proof {
                        let tail = spec_follow_from(
                            grammar,
                            ni,
                            j as int,
                            i + 1,
                            vc,
                            fuel,
                        );
                        assert(visited@ == vc);
                        assert(spec_follow_pos(grammar, ni, j as int, i as int, vc, fuel).0
                            =~= s_first@ + spec_follow_pos(
                            grammar,
                            ni,
                            j as int,
                            i + 1,
                            vc,
                            fuel,
                        ).0);
                        assert(acc@ =~= acc_before + s_first@);
                        assert(acc_before + (s_first@ + spec_follow_pos(
                            grammar,
                            ni,
                            j as int,
                            i + 1,
                            vc,
                            fuel,
                        ).0 + spec_follow_rules(grammar, ni, j + 1, spec_follow_pos(
                            grammar,
                            ni,
                            j as int,
                            i + 1,
                            vc,
                            fuel,
                        ).1, fuel).0) =~= acc@ + tail.0);
                    }
                }
            } else {
                proof {
                    assert(spec_follow_pos(grammar, ni, j as int, i as int, vc, fuel)
                        == spec_follow_pos(grammar, ni, j as int, i + 1, vc, fuel));
                }
            }
            i = i + 1;
        }
        proof {
            let vend = visited@;
            assert(spec_follow_pos(grammar, ni, j as int, rhs_len as int, vend, fuel) == (
                Set::<usize>::empty(),
                vend,
            ));
            assert(spec_follow_from(grammar, ni, j as int, rhs_len as int, vend, fuel).0
                =~= spec_follow_rules(grammar, ni, j + 1, vend, fuel).0);
            assert(Set::<usize>::empty() + spec_follow_rules(grammar, ni, j + 1, vend, fuel).0
                =~= spec_follow_rules(grammar, ni, j + 1, vend, fuel).0);
        }
        j = j + 1;
    }
    proof {
        assert(spec_follow_rules(grammar, ni, n as int, visited@, fuel) == (
            Set::<usize>::empty(),
            visited@,
        ));
        assert(acc@ + Set::<usize>::empty() =~= acc@);
    }
    acc
}

/// The exact lookahead set of one rule: FIRST of its right-hand side,
/// extended by FOLLOW of its left-hand non-terminal when the right-hand side
/// can derive the empty string. All three judgements start with fresh
/// guards.
pub open spec fn spec_predict(grammar: &Grammar, rule: &Rule) -> Set<usize> {
    let s_first = spec_first(grammar, rule.rhs@, Set::empty(), full_fuel(grammar)).0;
    if spec_word_nullable(grammar, rule.rhs@) {
        s_first + spec_follow(grammar, rule.lhs.index as usize, Set::empty(), full_fuel(grammar)).0
    } else {
        s_first
    }
}

/// The set of terminals able to begin a string derived from the rule: FIRST
/// of the right-hand side, plus FOLLOW of the left-hand side when the
/// right-hand side is nullable. This is the lookahead set that must single
/// out the rule among its siblings.
pub fn predict(rule: &Rule, grammar: &Grammar) -> (r: IndexSet)
    requires
        grammar.wf(),
        wf_rule(grammar, rule),
    ensures
        r.wf(),
        valid_terms(grammar, r@),
        r@ == spec_predict(grammar, rule),
{
    proof {
        assert(fuel_for(grammar, Set::<usize>::empty()) == full_fuel(grammar));
    }
    let mut fresh_first = IndexSet::new();
    let mut p = first(rule.rhs.as_slice(), grammar, &mut fresh_first);
    let mut fresh_eps = IndexSet::new();
    if eps(rule.rhs.as_slice(), grammar, &mut fresh_eps) {
        let mut fresh_follow = IndexSet::new();
        let f = follow(&rule.lhs, grammar, &mut fresh_follow);
        let ghost p_before = p@;
        p.union_with(&f);
        proof {
            assert(p@ =~= spec_predict(grammar, rule));
        }
    } else {
        proof {
            assert(p@ =~= spec_predict(grammar, rule));
        }
    }
    p
}

/// A word containing any terminal is never judged nullable, whatever the
/// guard set and fuel: a terminal consumes at least one byte.
pub proof fn lemma_eps_terminal_false(
    grammar: &Grammar,
    word: Seq<SymbolRef>,
    v: Set<usize>,
    fuel: nat,
    k: int,
)
    requires
        0 <= k < word.len(),
        word[k] is Terminal,
    ensures
        !spec_eps(grammar, word, v, fuel).0,
    decreases word.len(),
{
    match word[0] {
        SymbolRef::Epsilon => {
            lemma_eps_terminal_false(grammar, word.drop_first(), v, fuel, k - 1);
        },
        SymbolRef::Terminal(_) => {},
        SymbolRef::NonTerminal(nt) => {
            let ni = nt.index;
            if !v.contains(ni) && fuel > 0 {
                let v1 = v.insert(ni);
                let (ok, v2) = spec_eps_rules(grammar, ni, 0, v1, (fuel - 1) as nat);
                if ok {
                    lemma_eps_terminal_false(grammar, word.drop_first(), v2, fuel, k - 1);
                }
            }
        },
    }
}

/// A word of epsilon symbols only is judged nullable, and leaves the guard
/// set untouched.
pub proof fn lemma_eps_all_epsilon(
    grammar: &Grammar,
    word: Seq<SymbolRef>,
    v: Set<usize>,
    fuel: nat,
)
    requires
        forall|i: int| 0 <= i < word.len() ==> word[i] is Epsilon,
    ensures
        spec_eps(grammar, word, v, fuel) == (true, v),
    decreases word.len(),
{
    if word.len() > 0 {
        assert(word[0] is Epsilon);
        lemma_eps_all_epsilon(grammar, word.drop_first(), v, fuel);
    }
}

/// A successful rule scan exhibits a rule of `ni` whose right-hand side was
/// judged nullable under some guard set.
proof fn lemma_eps_rules_witness(grammar: &Grammar, ni: usize, j: int, v: Set<usize>, fuel: nat)
    requires
        spec_eps_rules(grammar, ni, j, v, fuel).0,
    ensures
        exists|jj: int, v2: Set<usize>|
            j <= jj < grammar.rules@.len() && grammar.rules@[jj].lhs.index == ni
                && #[trigger] spec_eps(grammar, grammar.rules@[jj].rhs@, v2, fuel).0,
    decreases grammar.rules@.len() - j,
{
    if j < 0 || j >= grammar.rules@.len() {
    } else if grammar.rules@[j].lhs.index != ni {
        lemma_eps_rules_witness(grammar, ni, j + 1, v, fuel);
    } else {
        let (ok, v2) = spec_eps(grammar, grammar.rules@[j].rhs@, v, fuel);
        if ok {
            assert(grammar.rules@[j].lhs.index == ni && spec_eps(
                grammar,
                grammar.rules@[j].rhs@,
                v,
                fuel,
            ).0);
        } else {
            lemma_eps_rules_witness(grammar, ni, j + 1, v2, fuel);
        }
    }
}

/// When a word is judged nullable, each of its symbols is epsilon or a
/// non-terminal with at least one rule whose right-hand side was judged
/// nullable (under the guard set the scan reached it with).
pub proof fn lemma_eps_true_symbols(
    grammar: &Grammar,
    word: Seq<SymbolRef>,
    v: Set<usize>,
    fuel: nat,
)
    requires
        spec_eps(grammar, word, v, fuel).0,
    ensures
        forall|i: int|
            0 <= i < word.len() ==> (word[i] is Epsilon || (word[i] is NonTerminal
                && exists|jj: int, v2: Set<usize>, f2: nat|
                0 <= jj < grammar.rules@.len() && grammar.rules@[jj].lhs.index == (
                word[i]->NonTerminal_0).index && #[trigger] spec_eps(
                    grammar,
                    grammar.rules@[jj].rhs@,
                    v2,
                    f2,
                ).0)),
    decreases word.len(),
{
    if word.len() == 0 {
    } else {
        match word[0] {
            SymbolRef::Epsilon => {
                lemma_eps_true_symbols(grammar, word.drop_first(), v, fuel);
                assert(forall|i: int| 1 <= i < word.len() ==> word[i] == word.drop_first()[i - 1]);
            },
            SymbolRef::Terminal(_) => {},
            SymbolRef::NonTerminal(nt) => {
                let ni = nt.index;
                assert(!v.contains(ni) && fuel > 0);
                let v1 = v.insert(ni);
                let (ok, v2) = spec_eps_rules(grammar, ni, 0, v1, (fuel - 1) as nat);
                assert(ok);
                lemma_eps_rules_witness(grammar, ni, 0, v1, (fuel - 1) as nat);
                lemma_eps_true_symbols(grammar, word.drop_first(), v2, fuel);
                assert(forall|i: int| 1 <= i < word.len() ==> word[i] == word.drop_first()[i - 1]);
            },
        }
    }
}

/// Every symbol of `word` is epsilon.
pub open spec fn all_epsilon(w: Seq<SymbolRef>) -> bool {
    forall|k: int| 0 <= k < w.len() ==> (#[trigger] w[k]) is Epsilon
}

/// Every rule of non-terminal `ni` has an all-epsilon right-hand side.
pub open spec fn nt_rules_all_epsilon(grammar: &Grammar, ni: usize) -> bool {
    forall|jj: int|
        0 <= jj < grammar.rules@.len() && (#[trigger] grammar.rules@[jj]).lhs.index == ni
            ==> all_epsilon(grammar.rules@[jj].rhs@)
}

/// Non-terminal `ni` has at least one rule.
pub open spec fn nt_has_some_rule(grammar: &Grammar, ni: usize) -> bool {
    exists|jj: int|
        0 <= jj < grammar.rules@.len() && (#[trigger] grammar.rules@[jj]).lhs.index == ni
}

/// Every symbol of `word` is epsilon, or a non-terminal all of whose rules
/// derive the empty string directly (an all-epsilon right-hand side).
pub open spec fn directly_nullable_word(grammar: &Grammar, word: Seq<SymbolRef>) -> bool {
    forall|i: int|
        0 <= i < word.len() ==> ((#[trigger] word[i]) is Epsilon || (word[i] is NonTerminal
            && nt_has_some_rule(grammar, (word[i]->NonTerminal_0).index)
            && nt_rules_all_epsilon(grammar, (word[i]->NonTerminal_0).index)))
}

/// On directly nullable words the rule scan succeeds at the first matching
/// rule without touching the guard set.
proof fn lemma_eps_rules_direct(grammar: &Grammar, ni: usize, j: int, v: Set<usize>, fuel: nat)
    requires
        0 <= j,
        exists|jj: int|
            j <= jj < grammar.rules@.len() && (#[trigger] grammar.rules@[jj]).lhs.index == ni,
        nt_rules_all_epsilon(grammar, ni),
    ensures
        spec_eps_rules(grammar, ni, j, v, fuel) == (true, v),
    decreases grammar.rules@.len() - j,
{
    let jw = choose|jj: int|
        j <= jj < grammar.rules@.len() && (#[trigger] grammar.rules@[jj]).lhs.index == ni;
    if grammar.rules@[j].lhs.index != ni {
        assert(jw >= j + 1);
        lemma_eps_rules_direct(grammar, ni, j + 1, v, fuel);
    } else {
        assert(all_epsilon(grammar.rules@[j].rhs@));
        lemma_eps_all_epsilon(grammar, grammar.rules@[j].rhs@, v, fuel);
    }
}

/// A directly nullable word whose non-terminals are pairwise distinct and
/// unguarded is judged nullable. (With a repeated non-terminal, such as the
/// word `A A` for a nullable `A`, the conservative guard makes the scan
/// answer no; that behaviour is inherited, not a defect.)
pub proof fn lemma_eps_directly_nullable(
    grammar: &Grammar,
    word: Seq<SymbolRef>,
    v: Set<usize>,
    fuel: nat,
)
    requires
        grammar.wf(),
        wf_word(grammar, word),
        valid_visited(grammar, v),
        suff_fuel(grammar, v, fuel),
        directly_nullable_word(grammar, word),
        forall|i1: int, i2: int|
            0 <= i1 < i2 < word.len() && word[i1] is NonTerminal && word[i2] is NonTerminal ==> (
            word[i1]->NonTerminal_0).index != (word[i2]->NonTerminal_0).index,
        forall|i: int|
            0 <= i < word.len() && (#[trigger] word[i]) is NonTerminal ==> !v.contains(
                (word[i]->NonTerminal_0).index,
            ),
    ensures
        spec_eps(grammar, word, v, fuel).0,
    decreases word.len(),
{
    if word.len() == 0 {
    } else {
        assert(wf_word(grammar, word.drop_first()));
        assert(forall|i: int| 1 <= i < word.len() ==> word[i] == word.drop_first()[i - 1]);
        assert(directly_nullable_word(grammar, word.drop_first()));
        match word[0] {
            SymbolRef::Epsilon => {
                lemma_eps_directly_nullable(grammar, word.drop_first(), v, fuel);
            },
            SymbolRef::Terminal(_) => {
                assert(word[0] is Epsilon || word[0] is NonTerminal);
            },
            SymbolRef::NonTerminal(nt) => {
                let ni = nt.index;
                lemma_visited_card(grammar, v);
                assert(wf_symbol(grammar, word[0]));
                assert(fuel > 0);
                let v1 = v.insert(ni);
                assert(nt_has_some_rule(grammar, ni) && nt_rules_all_epsilon(grammar, ni));
                lemma_eps_rules_direct(grammar, ni, 0, v1, (fuel - 1) as nat);
                assert(forall|i: int|
                    0 <= i < word.drop_first().len() && (
                    #[trigger] word.drop_first()[i]) is NonTerminal ==> !v1.contains(
                        (word.drop_first()[i]->NonTerminal_0).index,
                    ));
                lemma_eps_directly_nullable(grammar, word.drop_first(), v1, fuel);
            },
        }
    }
}

} // verus!
