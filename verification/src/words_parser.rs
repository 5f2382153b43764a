//! A generated parser, kept in source form, for the grammar
//! `S -> Trie({food, foot, for, bar, baz})` with transform `res1`: the shape
//! every trie-terminal grammar's generated parser takes.

use crate::cursor::ByteCursor;
use crate::text::opt_byte_text;
use crate::text::opt_byte_string;
use vstd::prelude::*;
use vstd::string::StringExecFns;

verus! {

/// The outcome the trie recognizer owes on the unread bytes `rem`: the word
/// it completes, or the byte observed at the point of divergence (nothing at
/// end of input), together with how many bytes are consumed either way.
pub open spec fn words_outcome(rem: Seq<u8>) -> (Result<Seq<char>, Option<u8>>, int) {
    if rem.len() == 0 {
        (Err(None), 0)
    } else if rem[0] == 102 {
        if rem.len() == 1 {
            (Err(None), 1)
        } else if rem[1] == 111 {
            if rem.len() == 2 {
                (Err(None), 2)
            } else if rem[2] == 111 {
                if rem.len() == 3 {
                    (Err(None), 3)
                } else if rem[3] == 100 {
                    (Ok("food"@), 4)
                } else if rem[3] == 116 {
                    (Ok("foot"@), 4)
                } else {
                    (Err(Some(rem[3])), 4)
                }
            } else if rem[2] == 114 {
                (Ok("for"@), 3)
            } else {
                (Err(Some(rem[2])), 3)
            }
        } else {
            (Err(Some(rem[1])), 2)
        }
    } else if rem[0] == 98 {
        if rem.len() == 1 {
            (Err(None), 1)
        } else if rem[1] == 97 {
            if rem.len() == 2 {
                (Err(None), 2)
            } else if rem[2] == 114 {
                (Ok("bar"@), 3)
            } else if rem[2] == 122 {
                (Ok("baz"@), 3)
            } else {
                (Err(Some(rem[2])), 3)
            }
        } else {
            (Err(Some(rem[1])), 2)
        }
    } else {
        (Err(Some(rem[0])), 1)
    }
}

/// The failure message of the trie recognizer: every inserted word, and the
/// byte observed.
pub open spec fn words_err_text(found: Option<u8>) -> Seq<char> {
    "Error parsing a: Expected [[102, 111, 111, 100], [102, 111, 111, 116], [102, 111, 114], [98, 97, 114], [98, 97, 122]] but found "@
        + opt_byte_text(found)
}

/// Builds the trie recognizer's failure message for the observed byte.
fn words_err(found: Option<u8>) -> (r: String)
    ensures
        r@ == words_err_text(found),
{
    let mut msg = String::from_str(
        "Error parsing a: Expected [[102, 111, 111, 100], [102, 111, 111, 116], [102, 111, 114], [98, 97, 114], [98, 97, 122]] but found ",
    );
    let shown = opt_byte_string(found);
    msg.append(shown.as_str());
    msg
}

// Terminal: a
#[inline]
fn _parse_t_0x00000000(input: &mut ByteCursor) -> (r: Result<String, String>)
    requires
        old(input).wf(),
    ensures
        final(input).wf(),
        final(input).bytes == old(input).bytes,
        final(input).pos == old(input).pos + words_outcome(old(input).remaining()).1,
        r is Ok <==> words_outcome(old(input).remaining()).0 is Ok,
        r is Ok ==> (r->Ok_0)@ == words_outcome(old(input).remaining()).0->Ok_0,
        r is Err ==> (r->Err_0)@ == words_err_text(
            words_outcome(old(input).remaining()).0->Err_0,
        ),
{
    let ghost rem = old(input).remaining();
    let next = input.next();
    match next {
        Some(102) => {
            proof {
                assert(input.remaining() =~= rem.drop_first());
            }
            let next = input.next();
            match next {
                Some(111) => {
                    proof {
                        assert(input.remaining() =~= rem.drop_first().drop_first());
                    }
                    let next = input.next();
                    match next {
                        Some(111) => {
                            proof {
                                assert(input.remaining() =~= rem.drop_first().drop_first().drop_first());
                            }
                            let next = input.next();
                            match next {
                                Some(100) => Ok("food".to_owned()),
                                Some(116) => Ok("foot".to_owned()),
                                _ => Err(words_err(next)),
                            }
                        },
                        Some(114) => Ok("for".to_owned()),
                        _ => Err(words_err(next)),
                    }
                },
                _ => Err(words_err(next)),
            }
        },
        Some(98) => {
            proof {
                assert(input.remaining() =~= rem.drop_first());
            }
            let next = input.next();
            match next {
                Some(97) => {
                    proof {
                        assert(input.remaining() =~= rem.drop_first().drop_first());
                    }
                    let next = input.next();
                    match next {
                        Some(114) => Ok("bar".to_owned()),
                        Some(122) => Ok("baz".to_owned()),
                        _ => Err(words_err(next)),
                    }
                },
                _ => Err(words_err(next)),
            }
        },
        _ => Err(words_err(next)),
    }
}

/// The outcome the parse of `S` owes: the trie recognizer's outcome when
/// the lookahead byte could begin a word, otherwise an immediate failure
/// naming the non-terminal, with nothing consumed.
pub open spec fn words_parse_outcome(rem: Seq<u8>) -> (Result<Seq<char>, Seq<char>>, int) {
    if rem.len() > 0 && (rem[0] == 98 || rem[0] == 102) {
        let (res, consumed) = words_outcome(rem);
        (
            match res {
                Ok(w) => Ok(w),
                Err(found) => Err(words_err_text(found)),
            },
            consumed,
        )
    } else if rem.len() > 0 {
        (Err("Error parsing S: No matching rule found for "@ + opt_byte_text(Some(rem[0]))), 0)
    } else {
        (Err("Error parsing S: No matching rule found for "@ + opt_byte_text(None)), 0)
    }
}

// Non-terminal: S
fn _parse_nt_0x00000000(input: &mut ByteCursor) -> (r: Result<String, String>)
    requires
        old(input).wf(),
    ensures
        final(input).wf(),
        final(input).bytes == old(input).bytes,
        final(input).pos == old(input).pos + words_parse_outcome(old(input).remaining()).1,
        r is Ok <==> words_parse_outcome(old(input).remaining()).0 is Ok,
        r is Ok ==> (r->Ok_0)@ == words_parse_outcome(old(input).remaining()).0->Ok_0,
        r is Err ==> (r->Err_0)@ == words_parse_outcome(old(input).remaining()).0->Err_0,
{
    let next = input.peek();
    // Rule: NT(S) -> Trie(a)
    // Predict: {98, 102}
    if next == Some(98) || next == Some(102) {
        // Symbol: Trie(a)
        let res1 = match _parse_t_0x00000000(input) {
            Ok(v) => v,
            Err(e) => {
                return Err(e);
            },
        };
        return Ok(res1);
    }
    let mut msg = String::from_str("Error parsing S: No matching rule found for ");
    let shown = opt_byte_string(input.peek());
    msg.append(shown.as_str());
    Err(msg)
}

/// Parses `S -> Trie({food, foot, for, bar, baz})` from the cursor: a
/// recognized word yields itself; divergence from every inserted word fails
/// naming all of them and the byte found.
pub fn parse(input: &mut ByteCursor) -> (r: Result<String, String>)
    requires
        old(input).wf(),
    ensures
        final(input).wf(),
        final(input).bytes == old(input).bytes,
        final(input).pos == old(input).pos + words_parse_outcome(old(input).remaining()).1,
        r is Ok <==> words_parse_outcome(old(input).remaining()).0 is Ok,
        r is Ok ==> (r->Ok_0)@ == words_parse_outcome(old(input).remaining()).0->Ok_0,
        r is Err ==> (r->Err_0)@ == words_parse_outcome(old(input).remaining()).0->Err_0,
{
    _parse_nt_0x00000000(input)
}

} // verus!
