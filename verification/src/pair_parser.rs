//! A generated parser, kept in source form, for the grammar
//! `S -> 'a' 'b' | 'b' 'a'` with transform `(res1, res2)`: the shape every
//! byte-terminal grammar's generated parser takes.

use crate::cursor::ByteCursor;
use crate::text::opt_byte_text;
use crate::text::opt_byte_string;
use vstd::prelude::*;
use vstd::string::StringExecFns;

verus! {

// Terminal: char(a)
#[inline]
fn _parse_t_0x00000000(input: &mut ByteCursor) -> (r: Result<char, String>)
    requires
        old(input).wf(),
    ensures
        final(input).wf(),
        final(input).bytes == old(input).bytes,
        old(input).remaining().len() > 0 && old(input).remaining()[0] == 97 ==> r == Result::<
            char,
            String,
        >::Ok('a') && final(input).pos == old(input).pos + 1,
        old(input).remaining().len() > 0 && old(input).remaining()[0] != 97 ==> r is Err && (
        r->Err_0)@ == "Error parsing char(a): Expected 97 but found "@ + opt_byte_text(
            Some(old(input).remaining()[0]),
        ) && final(input).pos == old(input).pos + 1,
        old(input).remaining().len() == 0 ==> r is Err && (r->Err_0)@
            == "Error parsing char(a): Expected 97 but found "@ + opt_byte_text(None)
            && final(input).pos == old(input).pos,
{
    let next = input.next();
    if next == Some(97) {
        Ok('a')
    } else {
        let mut msg = String::from_str("Error parsing char(a): Expected 97 but found ");
        let shown = opt_byte_string(next);
        msg.append(shown.as_str());
        Err(msg)
    }
}

// Terminal: char(b)
#[inline]
fn _parse_t_0x00000001(input: &mut ByteCursor) -> (r: Result<char, String>)
    requires
        old(input).wf(),
    ensures
        final(input).wf(),
        final(input).bytes == old(input).bytes,
        old(input).remaining().len() > 0 && old(input).remaining()[0] == 98 ==> r == Result::<
            char,
            String,
        >::Ok('b') && final(input).pos == old(input).pos + 1,
        old(input).remaining().len() > 0 && old(input).remaining()[0] != 98 ==> r is Err && (
        r->Err_0)@ == "Error parsing char(b): Expected 98 but found "@ + opt_byte_text(
            Some(old(input).remaining()[0]),
        ) && final(input).pos == old(input).pos + 1,
        old(input).remaining().len() == 0 ==> r is Err && (r->Err_0)@
            == "Error parsing char(b): Expected 98 but found "@ + opt_byte_text(None)
            && final(input).pos == old(input).pos,
{
    let next = input.next();
    if next == Some(98) {
        Ok('b')
    } else {
        let mut msg = String::from_str("Error parsing char(b): Expected 98 but found ");
        let shown = opt_byte_string(next);
        msg.append(shown.as_str());
        Err(msg)
    }
}

/// The outcome the parse of `S` owes on the unread bytes `rem`: the pair of
/// recognized characters and how many bytes are consumed, or the failure
/// message and how many bytes are consumed before it.
pub open spec fn pair_outcome(rem: Seq<u8>) -> (Result<(char, char), Seq<char>>, int) {
    if rem.len() > 0 && rem[0] == 97 {
        if rem.len() > 1 && rem[1] == 98 {
            (Ok(('a', 'b')), 2)
        } else if rem.len() > 1 {
            (
                Err("Error parsing char(b): Expected 98 but found "@ + opt_byte_text(Some(rem[1]))),
                2,
            )
        } else {
            (Err("Error parsing char(b): Expected 98 but found "@ + opt_byte_text(None)), 1)
        }
    } else if rem.len() > 0 && rem[0] == 98 {
        if rem.len() > 1 && rem[1] == 97 {
            (Ok(('b', 'a')), 2)
        } else if rem.len() > 1 {
            (
                Err("Error parsing char(a): Expected 97 but found "@ + opt_byte_text(Some(rem[1]))),
                2,
            )
        } else {
            (Err("Error parsing char(a): Expected 97 but found "@ + opt_byte_text(None)), 1)
        }
    } else if rem.len() > 0 {
        (
            Err("Error parsing S: No matching rule found for "@ + opt_byte_text(Some(rem[0]))),
            0,
        )
    } else {
        (Err("Error parsing S: No matching rule found for "@ + opt_byte_text(None)), 0)
    }
}

// Non-terminal: S
fn _parse_nt_0x00000000(input: &mut ByteCursor) -> (r: Result<(char, char), String>)
    requires
        old(input).wf(),
    ensures
        final(input).wf(),
        final(input).bytes == old(input).bytes,
        final(input).pos == old(input).pos + pair_outcome(old(input).remaining()).1,
        r is Ok <==> pair_outcome(old(input).remaining()).0 is Ok,
        r is Ok ==> r->Ok_0 == pair_outcome(old(input).remaining()).0->Ok_0,
        r is Err ==> (r->Err_0)@ == pair_outcome(old(input).remaining()).0->Err_0,
{
    let ghost rem = old(input).remaining();
    let next = input.peek();
    // Rule: NT(S) -> T(char(a)) T(char(b))
    // Predict: {97}
    if next == Some(97) {
        // Symbol: T(char(a))
        let res1 = match _parse_t_0x00000000(input) {
            Ok(v) => v,
            Err(e) => {
                return Err(e);
            },
        };
        proof {
            assert(input.remaining() =~= rem.drop_first());
        }
        // Symbol: T(char(b))
        let res2 = match _parse_t_0x00000001(input) {
            Ok(v) => v,
            Err(e) => {
                return Err(e);
            },
        };
        return Ok((res1, res2));
    }
    // Rule: NT(S) -> T(char(b)) T(char(a))
    // Predict: {98}
    if next == Some(98) {
        // Symbol: T(char(b))
        let res1 = match _parse_t_0x00000001(input) {
            Ok(v) => v,
            Err(e) => {
                return Err(e);
            },
        };
        proof {
            assert(input.remaining() =~= rem.drop_first());
        }
        // Symbol: T(char(a))
        let res2 = match _parse_t_0x00000000(input) {
            Ok(v) => v,
            Err(e) => {
                return Err(e);
            },
        };
        return Ok((res1, res2));
    }
    let mut msg = String::from_str("Error parsing S: No matching rule found for ");
    let shown = opt_byte_string(input.peek());
    msg.append(shown.as_str());
    Err(msg)
}

/// Parses `S -> 'a' 'b' | 'b' 'a'` from the cursor: `ab` yields
/// `('a', 'b')`, `ba` yields `('b', 'a')`, anything else fails naming what
/// was expected and what was found.
pub fn parse(input: &mut ByteCursor) -> (r: Result<(char, char), String>)
    requires
        old(input).wf(),
    ensures
        final(input).wf(),
        final(input).bytes == old(input).bytes,
        final(input).pos == old(input).pos + pair_outcome(old(input).remaining()).1,
        r is Ok <==> pair_outcome(old(input).remaining()).0 is Ok,
        r is Ok ==> r->Ok_0 == pair_outcome(old(input).remaining()).0->Ok_0,
        r is Err ==> (r->Err_0)@ == pair_outcome(old(input).remaining()).0->Err_0,
{
    _parse_nt_0x00000000(input)
}

} // verus!
