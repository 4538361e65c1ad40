//! Message sanitizers for the interactive front end: uppercase the input,
//! deal with whitespace, enforce the length cap, and collect every
//! unsupported character instead of stopping at the first.

use vstd::prelude::*;
use crate::alphabet::is_letter;
use crate::errors::MessageErrors;
use crate::text::push_char;

verus! {

/// The whitespace the sanitizers recognize.
pub open spec fn is_space(c: char) -> bool {
    c == ' ' || c == '\t' || c == '\n' || c == '\r'
}

/// The uppercase form of an ASCII letter; anything else is untouched.
pub open spec fn to_upper(c: char) -> char {
    if 97 <= c as int <= 122 {
        (c as int - 32) as char
    } else {
        c
    }
}

/// A character the sanitizers accept: whitespace, or a letter in either
/// case.
pub open spec fn is_input_letter(c: char) -> bool {
    is_letter(to_upper(c))
}

/// The sanitized message with whitespace kept as single spaces.
pub open spec fn sanitized_keeping_spaces(s: Seq<char>) -> Seq<char> {
    Seq::new(
        s.len(),
        |k: int|
            if is_space(s[k]) {
                ' '
            } else {
                to_upper(s[k])
            },
    )
}

/// The sanitized message with whitespace replaced by the filler letter 'X'.
pub open spec fn sanitized_masking_spaces(s: Seq<char>) -> Seq<char> {
    Seq::new(
        s.len(),
        |k: int|
            if is_space(s[k]) {
                'X'
            } else {
                to_upper(s[k])
            },
    )
}

/// A character the sanitizers must reject.
pub open spec fn is_offender(c: char) -> bool {
    !(is_space(c) || is_input_letter(c))
}

/// Every character that is neither whitespace nor a letter, in order.
pub open spec fn input_offenders(s: Seq<char>) -> Seq<char> {
    s.filter(|c: char| is_offender(c))
}

/// The length cap on messages.
pub const MESSAGE_LENGTH_LIMIT: usize = 500;

/// Whether the sanitizers accept a message of this content and length.
pub open spec fn message_ok(s: Seq<char>) -> bool {
    s.len() <= 500 && forall|k: int| 0 <= k < s.len() ==> is_space(s[k]) || is_input_letter(s[k])
}

pub fn is_space_char(c: char) -> (r: bool)
    ensures
        r == is_space(c),
{
    c == ' ' || c == '\t' || c == '\n' || c == '\r'
}

pub fn to_uppercase_char(c: char) -> (r: char)
    ensures
        r == to_upper(c),
{
    let u = c as u32;
    if 97 <= u && u <= 122 {
        ((u - 32) as u8) as char
    } else {
        c
    }
}

/// The shared scan: uppercases, substitutes whitespace with the given
/// filler, and collects the cap overrun and every unsupported character.
fn scan(input: &str, filler: char) -> (r: (Vec<char>, MessageErrors))
    requires
        filler == ' ' || filler == 'X',
    ensures
        r.1.length_exceeded == if input@.len() > 500 {
            Some(input@.len() as usize)
        } else {
            None::<usize>
        },
        r.1.unsupported@ == input_offenders(input@),
        r.1.spec_is_empty() ==> input@.len() <= 500 && r.0@ == (if filler == ' ' {
            sanitized_keeping_spaces(input@)
        } else {
            sanitized_masking_spaces(input@)
        }),
        r.1.spec_is_empty() <==> message_ok(input@),
{
    let n = input.unicode_len();
    let length_exceeded = if n > MESSAGE_LENGTH_LIMIT {
        Some(n)
    } else {
        None
    };
    let mut kept: Vec<char> = Vec::new();
    let mut offending: Vec<char> = Vec::new();
    let mut k: usize = 0;
    while k < n
        invariant
            n == input@.len(),
            0 <= k <= n,
            filler == ' ' || filler == 'X',
            offending@ == input_offenders(input@.take(k as int)),
            offending@.len() == 0 ==> kept@ == (if filler == ' ' {
                sanitized_keeping_spaces(input@.take(k as int))
            } else {
                sanitized_masking_spaces(input@.take(k as int))
            }),
        decreases n - k,
    {
        let c = input.get_char(k);
        let ghost prefix = input@.take(k as int);
        let ghost prefix1 = input@.take(k + 1);
        proof {
            assert(prefix1.drop_last() =~= prefix);
            assert(prefix1.last() == input@[k as int]);
        }
        if is_space_char(c) {
            kept.push(filler);
            proof {
                reveal(Seq::filter);
                assert(!is_offender(input@[k as int]));
                assert(offending@ =~= input_offenders(prefix1));
                if offending@.len() == 0 {
                    if filler == ' ' {
                        assert(kept@ =~= sanitized_keeping_spaces(prefix1));
                    } else {
                        assert(kept@ =~= sanitized_masking_spaces(prefix1));
                    }
                }
            }
        } else {
            let u = to_uppercase_char(c);
            if crate::alphabet::is_supported(u) {
                kept.push(u);
                proof {
                    reveal(Seq::filter);
                    assert(!is_offender(input@[k as int]));
                    assert(offending@ =~= input_offenders(prefix1));
                    if offending@.len() == 0 {
                        if filler == ' ' {
                            assert(kept@ =~= sanitized_keeping_spaces(prefix1));
                        } else {
                            assert(kept@ =~= sanitized_masking_spaces(prefix1));
                        }
                    }
                }
            } else {
                offending.push(c);
                proof {
                    reveal(Seq::filter);
                    assert(is_offender(input@[k as int]));
                    assert(offending@ =~= input_offenders(prefix1));
                }
            }
        }
        k += 1;
    }
    proof {
        assert(input@.take(n as int) =~= input@);
        lemma_no_offenders(input@);
    }
    (kept, MessageErrors { length_exceeded, unsupported: offending })
}

/// No characters are collected exactly when every character is acceptable.
proof fn lemma_no_offenders(s: Seq<char>)
    ensures
        input_offenders(s).len() == 0 <==> (forall|k: int|
            0 <= k < s.len() ==> !is_offender(#[trigger] s[k])),
    decreases s.len(),
{
    reveal(Seq::filter);
    if s.len() > 0 {
        lemma_no_offenders(s.drop_last());
        assert(forall|k: int| 0 <= k < s.len() - 1 ==> s.drop_last()[k] == #[trigger] s[k]);
        assert(s[s.len() - 1] == s.last());
    }
}

/// Reads a message for encoding, keeping whitespace as single spaces.
/// Uppercases letters, caps the length at 500, and reports every
/// unsupported character together.
pub fn sanitize_message(input: &str) -> (r: Result<String, MessageErrors>)
    ensures
        r is Ok <==> message_ok(input@),
        r matches Ok(s) ==> s@ == sanitized_keeping_spaces(input@),
        r matches Err(e) ==> ({
            &&& e.length_exceeded == if input@.len() > 500 {
                Some(input@.len() as usize)
            } else {
                None::<usize>
            }
            &&& e.unsupported@ == input_offenders(input@)
        }),
{
    let (kept, errors) = scan(input, ' ');
    if errors.is_empty() {
        Ok(chars_to_string(&kept))
    } else {
        Err(errors)
    }
}

/// Reads a message for encoding, substituting the filler letter 'X' for
/// whitespace; otherwise exactly like `sanitize_message`.
pub fn sanitize_message_masking_spaces(input: &str) -> (r: Result<String, MessageErrors>)
    ensures
        r is Ok <==> message_ok(input@),
        r matches Ok(s) ==> s@ == sanitized_masking_spaces(input@),
        r matches Err(e) ==> ({
            &&& e.length_exceeded == if input@.len() > 500 {
                Some(input@.len() as usize)
            } else {
                None::<usize>
            }
            &&& e.unsupported@ == input_offenders(input@)
        }),
{
    let (kept, errors) = scan(input, 'X');
    if errors.is_empty() {
        Ok(chars_to_string(&kept))
    } else {
        Err(errors)
    }
}

/// Collects characters into a string.
pub fn chars_to_string(cs: &Vec<char>) -> (r: String)
    ensures
        r@ == cs@,
{
    let mut s = String::new();
    let n = cs.len();
    let mut k: usize = 0;
    while k < n
        invariant
            n == cs@.len(),
            0 <= k <= n,
            s@ == cs@.take(k as int),
        decreases n - k,
    {
        push_char(&mut s, cs[k]);
        proof {
            assert(cs@.take(k + 1) =~= cs@.take(k as int).push(cs@[k as int]));
        }
        k += 1;
    }
    proof {
        assert(cs@.take(n as int) =~= cs@);
    }
    s
}

} // verus!
