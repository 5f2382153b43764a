//! The shared-prefix (trie) matcher over multiple byte-words.
//!
//! A trie terminal holds a set of candidate byte-words. Insertion descends
//! byte by byte, creating one child node per unmatched byte. A word that is a
//! strict prefix of an already-inserted word is accepted (its node simply
//! gains a completed-word result); inserting the same word twice, or the
//! empty word, is rejected as a recoverable construction error.

use crate::index_set::IndexSet;
use vstd::prelude::*;

verus! {

/// An internal node of the trie: a distinguishing byte, child nodes keyed by
/// their bytes, and an optional completed-word result expression, present only
/// where an inserted word terminates.
pub struct TrieNode {
    pub children: Vec<TrieNode>,
    pub byte: u8,
    pub result: Option<String>,
}

/// The set of byte-words that terminate in the subtree rooted at `node`,
/// relative to `node` itself (the empty word is in the set iff `node` holds a
/// completed-word result).
pub open spec fn subtree_words(node: TrieNode) -> Set<Seq<u8>>
    decreases node,
{
    let below = children_words(node.children@);
    if node.result is Some {
        below.insert(seq![])
    } else {
        below
    }
}

/// The words terminating below any node of `children`, each prefixed with the
/// byte of the child it descends through.
pub open spec fn children_words(children: Seq<TrieNode>) -> Set<Seq<u8>>
    decreases children,
{
    Set::new(
        |w: Seq<u8>|
            w.len() > 0 && exists|i: int|
                0 <= i < children.len() && children[i].byte == w[0] && subtree_words(
                    children[i],
                ).contains(w.drop_first()),
    )
}

/// Distinct child bytes, recursively, and no dead nodes: a node either
/// completes a word or has at least one child.
pub open spec fn wf_children(children: Seq<TrieNode>) -> bool
    decreases children,
{
    &&& forall|i: int, j: int|
        0 <= i < j < children.len() ==> children[i].byte != children[j].byte
    &&& forall|i: int| 0 <= i < children.len() ==> wf_node(#[trigger] children[i])
}

/// Well-formedness of one node.
pub open spec fn wf_node(node: TrieNode) -> bool
    decreases node,
{
    &&& wf_children(node.children@)
    &&& (node.result is None ==> node.children@.len() > 0)
}

/// A well-formed node completes at least one word in its subtree.
pub proof fn lemma_subtree_nonempty(node: TrieNode)
    requires
        wf_node(node),
    ensures
        exists|w: Seq<u8>| subtree_words(node).contains(w),
    decreases node,
{
    if node.result is Some {
        assert(subtree_words(node).contains(seq![]));
    } else {
        let c = node.children@[0];
        lemma_subtree_nonempty(c);
        let w = choose|w: Seq<u8>| subtree_words(c).contains(w);
        let full = seq![c.byte] + w;
        assert(full.drop_first() =~= w);
        assert(full.len() > 0 && full[0] == c.byte);
        assert(0 <= 0 < node.children@.len() && node.children@[0].byte == full[0]
            && subtree_words(node.children@[0]).contains(full.drop_first()));
        assert(children_words(node.children@).contains(full));
        assert(subtree_words(node).contains(full));
    }
}

/// The result expression completing `w` at `node`: the node's own result
/// where `w` is spent, else whatever lies below the child bearing `w`'s
/// leading byte. Nothing where the path breaks off or no word ends there.
pub open spec fn result_in_node(node: TrieNode, w: Seq<u8>) -> Option<Seq<char>>
    decreases node, 0int, 0int,
{
    if w.len() == 0 {
        match node.result {
            Some(r) => Some(r@),
            None => None,
        }
    } else {
        result_in_children(node.children@, 0, w)
    }
}

/// The result expression completing `w` below `children`, scanning from
/// child `i` on for the first child bearing `w`'s leading byte.
pub open spec fn result_in_children(children: Seq<TrieNode>, i: int, w: Seq<u8>) -> Option<
    Seq<char>,
>
    decreases children, 1int, children.len() - i,
{
    if w.len() == 0 || i < 0 || i >= children.len() {
        None
    } else if children[i].byte == w[0] {
        result_in_node(children[i], w.drop_first())
    } else {
        result_in_children(children, i + 1, w)
    }
}

/// Where no child from position `i` on bears `w`'s leading byte, the scan
/// yields nothing.
proof fn lemma_scan_no_match(children: Seq<TrieNode>, i: int, w: Seq<u8>)
    requires
        0 <= i,
        forall|k: int| i <= k < children.len() ==> (#[trigger] children[k]).byte != w[0],
    ensures
        result_in_children(children, i, w) == Option::<Seq<char>>::None,
    decreases children.len() - i,
{
    if w.len() == 0 || i >= children.len() {
    } else {
        lemma_scan_no_match(children, i + 1, w);
    }
}

/// Appending a child changes the scan only for words no child from
/// position `i` on could already begin.
proof fn lemma_scan_push(children: Seq<TrieNode>, c: TrieNode, i: int, w: Seq<u8>)
    requires
        0 <= i <= children.len(),
        w.len() > 0,
    ensures
        (exists|k: int| i <= k < children.len() && (#[trigger] children[k]).byte == w[0])
            ==> result_in_children(children.push(c), i, w) == result_in_children(
            children,
            i,
            w,
        ),
        !(exists|k: int| i <= k < children.len() && (#[trigger] children[k]).byte == w[0])
            ==> result_in_children(children.push(c), i, w) == (if c.byte == w[0] {
            result_in_node(c, w.drop_first())
        } else {
            Option::<Seq<char>>::None
        }),
    decreases children.len() - i,
{
    let ext = children.push(c);
    if i == children.len() {
        assert(ext[i] == c);
        assert(result_in_children(ext, i + 1, w) == Option::<Seq<char>>::None);
    } else {
        assert(ext[i] == children[i]);
        if children[i].byte != w[0] {
            lemma_scan_push(children, c, i + 1, w);
        }
    }
}

/// Replacing the first child bearing a byte reroutes the scan only for
/// words beginning with that byte, and only through the replaced child.
proof fn lemma_scan_update(
    children: Seq<TrieNode>,
    idx: int,
    c2: TrieNode,
    i: int,
    w: Seq<u8>,
)
    requires
        0 <= i <= children.len(),
        0 <= idx < children.len(),
        c2.byte == children[idx].byte,
        forall|k: int| 0 <= k < idx ==> (#[trigger] children[k]).byte != children[idx].byte,
        w.len() > 0,
        w[0] == children[idx].byte ==> i <= idx,
    ensures
        w[0] == children[idx].byte ==> result_in_children(children.update(idx, c2), i, w)
            == result_in_node(c2, w.drop_first()) && result_in_children(children, i, w)
            == result_in_node(children[idx], w.drop_first()),
        w[0] != children[idx].byte ==> result_in_children(children.update(idx, c2), i, w)
            == result_in_children(children, i, w),
    decreases children.len() - i,
{
    let upd = children.update(idx, c2);
    if i == children.len() {
    } else if i == idx {
        assert(upd[i] == c2);
        if children[i].byte != w[0] {
            lemma_scan_update(children, idx, c2, i + 1, w);
        }
    } else {
        assert(upd[i] == children[i]);
        if children[i].byte != w[0] {
            lemma_scan_update(children, idx, c2, i + 1, w);
        }
    }
}

/// In a well-formed subtree, a result completes `w` exactly when `w` is one
/// of the subtree's words.
pub proof fn lemma_result_iff_word_node(node: TrieNode, w: Seq<u8>)
    requires
        wf_node(node),
    ensures
        result_in_node(node, w) is Some <==> subtree_words(node).contains(w),
    decreases node, 0int, 0int,
{
    if w.len() == 0 {
        assert(w =~= seq![]);
        assert(!children_words(node.children@).contains(w));
    } else {
        lemma_result_iff_word_children(node.children@, 0, w);
        assert(children_words(node.children@).contains(w) <==> exists|k: int|
            0 <= k < node.children@.len() && node.children@[k].byte == w[0]
                && subtree_words(node.children@[k]).contains(w.drop_first()));
    }
}

/// Below a well-formed child list, the scan from position `i` finds a result
/// for `w` exactly when some child from `i` on bears `w`'s leading byte and
/// completes its remainder.
proof fn lemma_result_iff_word_children(children: Seq<TrieNode>, i: int, w: Seq<u8>)
    requires
        wf_children(children),
        0 <= i,
        w.len() > 0,
    ensures
        result_in_children(children, i, w) is Some <==> exists|k: int|
            i <= k < children.len() && children[k].byte == w[0] && subtree_words(
                #[trigger] children[k],
            ).contains(w.drop_first()),
    decreases children, 1int, children.len() - i,
{
    if i >= children.len() {
    } else if children[i].byte == w[0] {
        lemma_result_iff_word_node(children[i], w.drop_first());
        if result_in_children(children, i, w) is Some {
            assert(children[i].byte == w[0] && subtree_words(children[i]).contains(
                w.drop_first(),
            ));
        } else {
            assert forall|k: int|
                i <= k < children.len() && children[k].byte == w[0] implies !subtree_words(
                #[trigger] children[k],
            ).contains(w.drop_first()) by {
                assert(k == i);
            }
        }
    } else {
        lemma_result_iff_word_children(children, i + 1, w);
    }
}

impl TrieNode {
    /// A fresh node with no children.
    pub fn new(byte: u8, result: Option<String>) -> (r: TrieNode)
        ensures
            r.byte == byte,
            r.result == result,
            r.children@.len() == 0,
    {
        TrieNode { children: Vec::new(), byte, result }
    }

    /// Builds the chain of nodes for `word`, whose last node completes it
    /// and carries the given result expression.
    fn new_chain(word: &[u8], result: String) -> (r: TrieNode)
        requires
            word@.len() > 0,
        ensures
            wf_node(r),
            r.byte == word@[0],
            subtree_words(r) =~~= set![word@.drop_first()],
            forall|w: Seq<u8>| #![auto]
                result_in_node(r, w) == (if w == word@.drop_first() {
                    Some(result@)
                } else {
                    Option::<Seq<char>>::None
                }),
        decreases word@.len(),
    {
        if word.len() == 1 {
            let r = TrieNode::new(word[0], Some(result));
            proof {
                assert(forall|w: Seq<u8>| !children_words(r.children@).contains(w));
                assert(word@.drop_first() =~= Seq::<u8>::empty());
                assert(subtree_words(r) =~~= set![word@.drop_first()]);
                assert forall|w: Seq<u8>| #![auto]
                    result_in_node(r, w) == (if w == word@.drop_first() {
                        Some(result@)
                    } else {
                        Option::<Seq<char>>::None
                    }) by {
                    if w.len() == 0 {
                        assert(w =~= word@.drop_first());
                    } else {
                        assert(result_in_children(r.children@, 0, w)
                            == Option::<Seq<char>>::None);
                        assert(w != word@.drop_first());
                    }
                }
            }
            r
        } else {
            let rest = vstd::slice::slice_subrange(word, 1, word.len());
            let tail = TrieNode::new_chain(rest, result);
            let mut children: Vec<TrieNode> = Vec::new();
            children.push(tail);
            let r = TrieNode { children, byte: word[0], result: None };
            proof {
                let cw = children_words(r.children@);
                assert forall|w: Seq<u8>| cw.contains(w) implies w
                    =~= word@.drop_first() by {
                    let i = choose|i: int|
                        0 <= i < r.children@.len() && r.children@[i].byte == w[0]
                            && subtree_words(r.children@[i]).contains(w.drop_first());
                    assert(i == 0);
                    assert(w.drop_first() =~= word@.drop_first().drop_first());
                    assert(w =~= seq![w[0]] + w.drop_first());
                }
                let full = word@.drop_first();
                assert(full.len() > 0 && full[0] == tail.byte);
                assert(subtree_words(tail).contains(full.drop_first())) by {
                    assert(rest@ =~= word@.drop_first());
                    assert(full.drop_first() =~= rest@.drop_first());
                }
                assert(0 <= 0 < r.children@.len() && r.children@[0].byte == full[0]
                    && subtree_words(r.children@[0]).contains(full.drop_first()));
                assert(cw.contains(full));
                assert(subtree_words(r) =~~= set![word@.drop_first()]);
                let wd = word@.drop_first();
                assert(rest@ =~= wd);
                assert(tail.byte == wd[0]);
                assert forall|w: Seq<u8>| #![auto]
                    result_in_node(r, w) == (if w == wd {
                        Some(result@)
                    } else {
                        Option::<Seq<char>>::None
                    }) by {
                    if w.len() == 0 {
                        assert(w != wd);
                    } else {
                        assert(r.children@[0] == tail);
                        if w[0] == tail.byte {
                            assert(result_in_node(r, w) == result_in_node(
                                tail,
                                w.drop_first(),
                            ));
                            if w == wd {
                                assert(w.drop_first() =~= wd.drop_first());
                                assert(wd.drop_first() =~= rest@.drop_first());
                            } else {
                                assert(w.drop_first() != rest@.drop_first()) by {
                                    if w.drop_first() == rest@.drop_first() {
                                        assert(w =~= seq![w[0]] + w.drop_first());
                                        assert(wd =~= seq![wd[0]] + wd.drop_first());
                                        assert(wd.drop_first() =~= rest@.drop_first());
                                        assert(w =~= wd);
                                    }
                                }
                            }
                        } else {
                            assert(result_in_children(r.children@, 1, w)
                                == Option::<Seq<char>>::None);
                            assert(w != wd) by {
                                if w == wd {
                                    assert(w[0] == wd[0]);
                                }
                            }
                        }
                    }
                }
            }
            r
        }
    }

    /// True iff `word`, read relative to this node, terminates at a
    /// completed-word node of this subtree.
    pub fn contains_word(&self, word: &[u8]) -> (r: bool)
        requires
            wf_node(*self),
        ensures
            r == subtree_words(*self).contains(word@),
        decreases word@.len(), 1int,
    {
        if word.len() == 0 {
            proof {
                assert(word@ =~= Seq::<u8>::empty());
                assert(!children_words(self.children@).contains(word@));
            }
            self.result.is_some()
        } else {
            children_contain(&self.children, word)
        }
    }

    /// Descends the trie inserting `word` relative to this node; reports
    /// `false` when the word (relative to this node) was already completed
    /// here. On insertion the node reached by `word`'s bytes carries the
    /// given result expression, every other word's result is untouched, and
    /// existing children keep their positions (one fresh child at most, at
    /// the end).
    pub fn add_word(&mut self, word: &[u8], result: String) -> (inserted: bool)
        requires
            wf_node(*old(self)),
        ensures
            wf_node(*final(self)),
            final(self).byte == old(self).byte,
            inserted == !subtree_words(*old(self)).contains(word@),
            inserted ==> subtree_words(*final(self)) == subtree_words(*old(self)).insert(
                word@,
            ),
            !inserted ==> *final(self) == *old(self),
            inserted ==> result_in_node(*final(self), word@) == Some(result@),
            inserted ==> forall|w: Seq<u8>|
                w != word@ ==> result_in_node(*final(self), w) == result_in_node(
                    *old(self),
                    w,
                ),
            word@.len() > 0 ==> final(self).result == old(self).result,
            forall|k: int|
                0 <= k < old(self).children@.len() ==> (
                #[trigger] final(self).children@[k]).byte == old(self).children@[k].byte,
            final(self).children@.len() <= old(self).children@.len() + 1,
            forall|k: int|
                0 <= k < old(self).children@.len() && (#[trigger] old(
                    self,
                ).children@[k]).byte != word@[0] ==> final(self).children@[k] == old(
                    self,
                ).children@[k],
        decreases word@.len(), 2int,
    {
        if word.len() == 0 {
            match &self.result {
                Some(_) => {
                    proof {
                        assert(word@ =~= Seq::<u8>::empty());
                        assert(subtree_words(*self).contains(word@));
                    }
                    false
                },
                None => {
                    let prior = Ghost(*self);
                    self.result = Some(result);
                    proof {
                        assert(word@ =~= Seq::<u8>::empty());
                        assert(!subtree_words(prior@).contains(seq![]));
                        assert(subtree_words(*self) =~= subtree_words(
                            prior@,
                        ).insert(word@));
                        assert(result_in_node(*self, word@) == Some(result@));
                        assert forall|w: Seq<u8>| w != word@ implies result_in_node(
                            *self,
                            w,
                        ) == result_in_node(prior@, w) by {
                            if w.len() == 0 {
                                assert(w =~= word@);
                            }
                        }
                    }
                    true
                },
            }
        } else {
            if children_contain(&self.children, word) {
                return false;
            }
            add_to_children(&mut self.children, word, result);
            proof {
                assert(subtree_words(*self) =~= subtree_words(*old(self)).insert(
                    word@,
                ));
                assert(result_in_node(*self, word@) == result_in_children(
                    self.children@,
                    0,
                    word@,
                ));
                assert forall|w: Seq<u8>| w != word@ implies result_in_node(*self, w)
                    == result_in_node(*old(self), w) by {
                    if w.len() == 0 {
                        assert(self.result == old(self).result);
                    } else {
                        assert(result_in_children(self.children@, 0, w)
                            == result_in_children(old(self).children@, 0, w));
                    }
                }
            }
            true
        }
    }
}

/// Read-only membership test below a child list.
fn children_contain(children: &Vec<TrieNode>, word: &[u8]) -> (r: bool)
    requires
        wf_children(children@),
        word@.len() > 0,
    ensures
        r == children_words(children@).contains(word@),
    decreases word@.len(), 0int,
{
    let b = word[0];
    let n = children.len();
    let mut idx: usize = 0;
    while idx < n && children[idx].byte != b
        invariant
            n == children@.len(),
            idx <= n,
            forall|k: int| 0 <= k < idx ==> children@[k].byte != b,
        decreases n - idx,
    {
        idx = idx + 1;
    }
    if idx == n {
        proof {
            assert(!children_words(children@).contains(word@));
        }
        false
    } else {
        let rest = vstd::slice::slice_subrange(word, 1, word.len());
        let r = children[idx].contains_word(rest);
        proof {
            assert(rest@ =~= word@.drop_first());
            if r {
                assert(children_words(children@).contains(word@));
            }
            if children_words(children@).contains(word@) {
                let i = choose|i: int|
                    0 <= i < children@.len() && children@[i].byte == word@[0]
                        && subtree_words(children@[i]).contains(word@.drop_first());
                if i != idx {
                    assert(children@[i].byte == b && children@[idx as int].byte == b);
                    assert(forall|k: int| 0 <= k < idx ==> children@[k].byte != b);
                    assert(i > idx);
                    assert(false) by {
                        assert(children@[idx as int].byte == children@[i].byte);
                    }
                }
            }
        }
        r
    }
}

/// Inserts a word known to be absent below one of `children`, matching on
/// its first byte, or grows a fresh chain. The node reached by the word's
/// bytes then carries the given result expression; every other word's
/// result, and every sibling off the word's path, is untouched, and
/// existing children keep their positions.
fn add_to_children(children: &mut Vec<TrieNode>, word: &[u8], result: String)
    requires
        wf_children(old(children)@),
        word@.len() > 0,
        !children_words(old(children)@).contains(word@),
    ensures
        wf_children(final(children)@),
        children_words(final(children)@) == children_words(old(children)@).insert(
            word@,
        ),
        final(children)@.len() >= old(children)@.len(),
        result_in_children(final(children)@, 0, word@) == Some(result@),
        forall|w: Seq<u8>|
            w != word@ ==> result_in_children(final(children)@, 0, w)
                == result_in_children(old(children)@, 0, w),
        forall|k: int|
            0 <= k < old(children)@.len() ==> (#[trigger] final(children)@[k]).byte == old(
                children,
            )@[k].byte,
        final(children)@.len() <= old(children)@.len() + 1,
        final(children)@.len() == old(children)@.len() + 1 ==> final(children)@[old(
            children,
        )@.len() as int].byte == word@[0],
        forall|k: int|
            0 <= k < old(children)@.len() && (#[trigger] old(children)@[k]).byte
                != word@[0] ==> final(children)@[k] == old(children)@[k],
    decreases word@.len(), 0int,
{
    let b = word[0];
    let n = children.len();
    let mut idx: usize = 0;
    while idx < n && children[idx].byte != b
        invariant
            n == children@.len(),
            idx <= n,
            children == old(children),
            forall|k: int| 0 <= k < idx ==> children@[k].byte != b,
        decreases n - idx,
    {
        idx = idx + 1;
    }
    if idx == n {
        // No child starts with this byte: the whole remainder becomes a
        // fresh chain, so the word cannot have been present.
        proof {
            assert(!children_words(children@).contains(word@));
        }
        let chain = TrieNode::new_chain(word, result);
        children.push(chain);
        proof {
            let olds = old(children)@;
            let news = children@;
            assert forall|w: Seq<u8>|
                children_words(news).contains(w) implies children_words(olds).insert(
                word@,
            ).contains(w) by {
                let i = choose|i: int|
                    0 <= i < news.len() && news[i].byte == w[0] && subtree_words(
                        news[i],
                    ).contains(w.drop_first());
                if i < olds.len() {
                    assert(children_words(olds).contains(w));
                } else {
                    assert(news[i] == chain);
                    assert(w.drop_first() =~= word@.drop_first());
                    assert(w =~= seq![w[0]] + w.drop_first());
                    assert(w =~= word@);
                }
            }
            assert forall|w: Seq<u8>|
                children_words(olds).insert(word@).contains(w) implies children_words(
                news,
            ).contains(w) by {
                if children_words(olds).contains(w) {
                    let i = choose|i: int|
                        0 <= i < olds.len() && olds[i].byte == w[0] && subtree_words(
                            olds[i],
                        ).contains(w.drop_first());
                    assert(news[i] == olds[i]);
                } else {
                    assert(w =~= word@);
                    assert(news[n as int] == chain);
                    assert(subtree_words(chain).contains(w.drop_first()));
                }
            }
            assert(children_words(news) =~= children_words(olds).insert(word@));
            // The inserted word now completes with the given result, and no
            // other word's result moved.
            lemma_scan_push(olds, chain, 0, word@);
            assert(!(exists|k: int|
                0 <= k < olds.len() && (#[trigger] olds[k]).byte == word@[0]));
            assert(result_in_children(news, 0, word@) == Some(result@));
            assert forall|w: Seq<u8>| w != word@ implies result_in_children(news, 0, w)
                == result_in_children(olds, 0, w) by {
                if w.len() > 0 {
                    lemma_scan_push(olds, chain, 0, w);
                    if !(exists|k: int|
                        0 <= k < olds.len() && (#[trigger] olds[k]).byte == w[0]) {
                        lemma_scan_no_match(olds, 0, w);
                        if chain.byte == w[0] {
                            assert(w.drop_first() != word@.drop_first()) by {
                                if w.drop_first() == word@.drop_first() {
                                    assert(w =~= seq![w[0]] + w.drop_first());
                                    assert(word@ =~= seq![word@[0]] + word@.drop_first());
                                    assert(w =~= word@);
                                }
                            }
                        }
                    }
                }
            }
            assert(forall|k: int| 0 <= k < olds.len() ==> news[k] == #[trigger] olds[k]);
            assert(news[olds.len() as int].byte == word@[0]);
        }
    } else {
        let mut child = children.remove(idx);
        let ghost child0 = child;
        let rest = vstd::slice::slice_subrange(word, 1, word.len());
        proof {
            assert(rest@ =~= word@.drop_first());
            if subtree_words(child).contains(rest@) {
                assert(children_words(old(children)@).contains(word@));
            }
        }
        let inserted = child.add_word(rest, result);
        children.insert(idx, child);
        proof {
            let olds = old(children)@;
            let news = children@;
            assert(news =~= olds.update(idx as int, child));
            assert(olds[idx as int] == child0);
            // Membership of any word starting with a byte other than `b` is
            // untouched; words starting with `b` go through child `idx` only.
            assert forall|w: Seq<u8>| #![auto]
                w.len() > 0 && w[0] != b implies (children_words(news).contains(w)
                <==> children_words(olds).contains(w)) by {
                assert(forall|i: int|
                    0 <= i < news.len() && i != idx ==> news[i] == olds[i]);
            }
            assert(subtree_words(child0).contains(word@.drop_first()) == children_words(
                olds,
            ).contains(word@)) by {
                if subtree_words(child0).contains(word@.drop_first()) {
                    assert(children_words(olds).contains(word@));
                }
                if children_words(olds).contains(word@) {
                    let i = choose|i: int|
                        0 <= i < olds.len() && olds[i].byte == word@[0] && subtree_words(
                            olds[i],
                        ).contains(word@.drop_first());
                    assert(i == idx);
                }
            }
            assert(inserted);
            {
                assert forall|w: Seq<u8>|
                    children_words(news).contains(w) implies children_words(
                    olds,
                ).insert(word@).contains(w) by {
                    let i = choose|i: int|
                        0 <= i < news.len() && news[i].byte == w[0] && subtree_words(
                            news[i],
                        ).contains(w.drop_first());
                    if i != idx {
                        assert(children_words(olds).contains(w));
                    } else {
                        assert(subtree_words(child).contains(w.drop_first()));
                        if subtree_words(child0).contains(w.drop_first()) {
                            assert(children_words(olds).contains(w));
                        } else {
                            assert(w.drop_first() =~= word@.drop_first());
                            assert(w =~= seq![w[0]] + w.drop_first());
                            assert(w =~= word@);
                        }
                    }
                }
                assert forall|w: Seq<u8>|
                    children_words(olds).insert(word@).contains(w) implies children_words(
                    news,
                ).contains(w) by {
                    if children_words(olds).contains(w) {
                        let i = choose|i: int|
                            0 <= i < olds.len() && olds[i].byte == w[0] && subtree_words(
                                olds[i],
                            ).contains(w.drop_first());
                        if i == idx {
                            assert(subtree_words(child).contains(w.drop_first()));
                        }
                        assert(news[i].byte == w[0] && subtree_words(news[i]).contains(
                            w.drop_first(),
                        ));
                    } else {
                        assert(w =~= word@);
                        assert(news[idx as int].byte == w[0] && subtree_words(
                            news[idx as int],
                        ).contains(w.drop_first()));
                    }
                }
                assert(children_words(news) =~= children_words(olds).insert(word@));
            }
            // The inserted word routes through the replaced child, which now
            // completes it with the given result; every other word keeps its
            // result, and every other child its place.
            assert(child0.byte == word@[0]);
            assert(child.byte == child0.byte);
            assert(forall|k: int|
                0 <= k < idx ==> (#[trigger] olds[k]).byte != olds[idx as int].byte);
            lemma_scan_update(olds, idx as int, child, 0, word@);
            assert(rest@ =~= word@.drop_first());
            assert(result_in_node(child, word@.drop_first()) == Some(result@));
            assert(result_in_children(news, 0, word@) == Some(result@));
            assert forall|w: Seq<u8>| w != word@ implies result_in_children(news, 0, w)
                == result_in_children(olds, 0, w) by {
                if w.len() > 0 {
                    lemma_scan_update(olds, idx as int, child, 0, w);
                    if w[0] == child0.byte {
                        assert(w.drop_first() != rest@) by {
                            if w.drop_first() == rest@ {
                                assert(w =~= seq![w[0]] + w.drop_first());
                                assert(word@ =~= seq![word@[0]] + word@.drop_first());
                                assert(w =~= word@);
                            }
                        }
                        assert(result_in_node(child, w.drop_first()) == result_in_node(
                            child0,
                            w.drop_first(),
                        ));
                    }
                }
            }
            assert(forall|k: int|
                0 <= k < olds.len() ==> (#[trigger] news[k]).byte == olds[k].byte);
            assert(forall|k: int|
                0 <= k < olds.len() && (#[trigger] olds[k]).byte != word@[0] ==> news[k]
                    == olds[k]);
        }
    }
}

/// A terminal that recognizes one of several inserted byte-words by shared
/// trie descent.
pub struct TrieTerminal {
    pub name: String,
    pub children: Vec<TrieNode>,
    pub words: Vec<Vec<u8>>,
    pub result_type: String,
}

impl TrieTerminal {
    /// The words inserted so far.
    pub open spec fn word_set(&self) -> Set<Seq<u8>> {
        children_words(self.children@)
    }

    /// The result expression attached to `w`, where `w` completes a word of
    /// the trie.
    pub open spec fn result_of(&self, w: Seq<u8>) -> Option<Seq<char>> {
        result_in_children(self.children@, 0, w)
    }

    /// The insertion log mirrors the trie contents, in insertion order and
    /// without repetition.
    pub open spec fn wf(&self) -> bool {
        &&& wf_children(self.children@)
        &&& self.words@.map_values(|w: Vec<u8>| w@).no_duplicates()
        &&& self.words@.map_values(|w: Vec<u8>| w@).to_set() == self.word_set()
        &&& forall|i: int| 0 <= i < self.words@.len() ==> #[trigger] self.words@[i]@.len() > 0
    }

    /// An empty trie terminal with the given name and semantic result type.
    pub fn new(name: String, result_type: String) -> (r: TrieTerminal)
        ensures
            r.wf(),
            r.name@ == name@,
            r.result_type@ == result_type@,
            r.word_set() == Set::<Seq<u8>>::empty(),
            r.words@.len() == 0,
    {
        let r = TrieTerminal {
            name,
            children: Vec::new(),
            words: Vec::new(),
            result_type,
        };
        proof {
            assert(r.word_set() =~= Set::<Seq<u8>>::empty());
            assert(r.words@.map_values(|w: Vec<u8>| w@).to_set() =~= r.word_set());
        }
        r
    }

    /// Inserts a candidate word with its semantic result expression.
    /// The empty word and an exactly repeated word are rejected; a word that
    /// is a strict prefix or an extension of an existing word is accepted.
    /// On success the word's terminating node carries the given expression,
    /// every other word keeps its expression, and existing first-level
    /// children keep their positions (one fresh child at most, at the end).
    pub fn add_word(&mut self, word: &[u8], result: String) -> (r: Result<(), String>)
        requires
            old(self).wf(),
        ensures
            final(self).wf(),
            final(self).name == old(self).name,
            final(self).result_type == old(self).result_type,
            r is Ok <==> (word@.len() > 0 && !old(self).word_set().contains(word@)),
            r is Ok ==> final(self).word_set() == old(self).word_set().insert(word@)
                && final(self).words@.map_values(|w: Vec<u8>| w@) == old(
                self,
            ).words@.map_values(|w: Vec<u8>| w@).push(word@),
            r is Ok ==> final(self).result_of(word@) == Some(result@),
            r is Ok ==> forall|w: Seq<u8>|
                w != word@ ==> final(self).result_of(w) == old(self).result_of(w),
            forall|k: int|
                0 <= k < old(self).children@.len() ==> (
                #[trigger] final(self).children@[k]).byte == old(self).children@[k].byte,
            final(self).children@.len() <= old(self).children@.len() + 1,
            r is Err ==> *final(self) == *old(self),
            word@.len() == 0 ==> r is Err && (r->Err_0)@
                == "Empty word cannot be added to trie"@,
            word@.len() > 0 && old(self).word_set().contains(word@) ==> r is Err && (
            r->Err_0)@ == "Word already exists in trie"@,
    {
        if word.len() == 0 {
            return Err("Empty word cannot be added to trie".to_owned());
        }
        if children_contain(&self.children, word) {
            return Err("Word already exists in trie".to_owned());
        }
        add_to_children(&mut self.children, word, result);
        let owned: Vec<u8> = vstd::slice::slice_to_vec(word);
        self.words.push(owned);
        proof {
            let oldm = old(self).words@.map_values(|w: Vec<u8>| w@);
            let newm = self.words@.map_values(|w: Vec<u8>| w@);
            assert(newm =~= oldm.push(word@));
            assert(newm.drop_last() =~= oldm);
            assert(!oldm.contains(word@)) by {
                if oldm.contains(word@) {
                    assert(oldm.to_set().contains(word@));
                }
            }
            assert(newm.no_duplicates()) by {
                assert(forall|i: int|
                    0 <= i < oldm.len() ==> newm[i] == #[trigger] oldm[i]);
                assert(newm[newm.len() - 1] == word@);
                assert(forall|i: int| 0 <= i < oldm.len() ==> oldm[i] != word@);
            }
            assert forall|e: Seq<u8>| newm.contains(e) implies (oldm.contains(e) || e
                == word@) by {
                let k = choose|k: int| 0 <= k < newm.len() && newm[k] == e;
                if k < oldm.len() {
                    assert(oldm[k] == e);
                }
            }
            assert(forall|e: Seq<u8>| oldm.contains(e) ==> newm.contains(e));
            assert(newm.contains(word@)) by {
                assert(newm[newm.len() - 1] == word@);
            }
            assert(oldm.to_set() == old(self).word_set());
            assert(newm.to_set() =~= self.word_set());
        }
        Ok(())
    }

    /// The set of bytes that can begin a recognized word.
    pub fn first_bytes(&self) -> (r: IndexSet)
        requires
            self.wf(),
        ensures
            r.wf(),
            forall|b: u8| #[trigger]
                r@.contains(b as usize) <==> exists|w: Seq<u8>|
                    self.word_set().contains(w) && w.len() > 0 && w[0] == b,
            forall|x: usize| r@.contains(x) ==> x < 256,
    {
        let mut r = IndexSet::new();
        let n = self.children.len();
        for i in 0..n
            invariant
                n == self.children@.len(),
                r.wf(),
                wf_children(self.children@),
                forall|x: usize| r@.contains(x) ==> x < 256,
                forall|b: u8| #[trigger]
                    r@.contains(b as usize) <==> exists|k: int|
                        0 <= k < i && self.children@[k].byte == b,
        {
            r.insert(self.children[i].byte as usize);
            proof {
                let b0 = self.children@[i as int].byte;
                assert forall|b: u8| #[trigger] r@.contains(b as usize) implies exists|
                    k: int,
                |
                    0 <= k < i + 1 && self.children@[k].byte == b by {
                    if b == b0 {
                        assert(self.children@[i as int].byte == b);
                    } else {
                        assert((b as usize) != (b0 as usize));
                    }
                }
            }
        }
        proof {
            assert forall|b: u8| #[trigger] r@.contains(b as usize) implies exists|
                w: Seq<u8>,
            |
                self.word_set().contains(w) && w.len() > 0 && w[0] == b by {
                let k = choose|k: int| 0 <= k < n && self.children@[k].byte == b;
                lemma_subtree_nonempty(self.children@[k]);
                let sub = choose|w: Seq<u8>| subtree_words(self.children@[k]).contains(w);
                let full = seq![b] + sub;
                assert(full.drop_first() =~= sub);
                assert(self.word_set().contains(full));
            }
            assert forall|b: u8|
                (exists|w: Seq<u8>|
                    self.word_set().contains(w) && w.len() > 0 && w[0]
                        == b) implies #[trigger] r@.contains(b as usize) by {
                let w = choose|w: Seq<u8>|
                    self.word_set().contains(w) && w.len() > 0 && w[0] == b;
                let i = choose|i: int|
                    0 <= i < self.children@.len() && self.children@[i].byte == w[0]
                        && subtree_words(self.children@[i]).contains(w.drop_first());
                assert(self.children@[i].byte == b);
            }
        }
        r
    }
}

impl TrieTerminal {
    /// The two views of a well-formed trie agree: a word carries a result
    /// exactly when it was inserted.
    pub proof fn lemma_result_iff_word(&self, w: Seq<u8>)
        requires
            self.wf(),
        ensures
            self.result_of(w) is Some <==> self.word_set().contains(w),
    {
        if w.len() == 0 {
            assert(!self.word_set().contains(w));
        } else {
            lemma_result_iff_word_children(self.children@, 0, w);
            assert(self.word_set().contains(w) <==> exists|k: int|
                0 <= k < self.children@.len() && self.children@[k].byte == w[0]
                    && subtree_words(self.children@[k]).contains(w.drop_first()));
        }
    }
}

} // verus!
