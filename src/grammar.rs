//! The token grammar: the vocabulary of text and marker tokens, and how text
//! is carried by tokens.
//!
//! A text token is the code of one Unicode scalar value; marker tokens are
//! reserved just above the scalar range, so the two can never collide.
use vstd::prelude::*;
use crate::chat::Role;

verus! {

pub const START: u32 = 0x110000;
pub const END: u32 = 0x110001;
pub const MESSAGE: u32 = 0x110002;
pub const CHANNEL: u32 = 0x110003;
pub const RECIPIENT: u32 = 0x110004;
pub const CONSTRAIN: u32 = 0x110005;
pub const CALL: u32 = 0x110006;
pub const SYSTEM: u32 = 0x110007;
pub const DEVELOPER: u32 = 0x110008;
pub const USER: u32 = 0x110009;
pub const ASSISTANT: u32 = 0x11000a;
pub const TOOL: u32 = 0x11000b;

pub open spec fn role_token(r: Role) -> u32 {
    match r {
        Role::System => SYSTEM,
        Role::Developer => DEVELOPER,
        Role::User => USER,
        Role::Assistant => ASSISTANT,
        Role::Tool => TOOL,
    }
}

pub open spec fn role_of_token(t: u32) -> Option<Role> {
    if t == SYSTEM {
        Some(Role::System)
    } else if t == DEVELOPER {
        Some(Role::Developer)
    } else if t == USER {
        Some(Role::User)
    } else if t == ASSISTANT {
        Some(Role::Assistant)
    } else if t == TOOL {
        Some(Role::Tool)
    } else {
        None
    }
}

pub open spec fn code_of(c: char) -> u32 {
    c as u32
}

/// A token carries text when it is the code of some character.
pub open spec fn is_text_token(t: u32) -> bool {
    exists|c: char| code_of(c) == t
}

pub open spec fn char_of_token(t: u32) -> char {
    choose|c: char| code_of(c) == t
}

/// The tokens that carry a piece of text, one per character.
pub open spec fn text_tokens(s: Seq<char>) -> Seq<u32> {
    s.map_values(|c: char| code_of(c))
}

pub proof fn lemma_char_of_code(c: char)
    ensures
        is_text_token(code_of(c)),
        char_of_token(code_of(c)) == c,
{
    assert(code_of(c) == code_of(c));
}

pub proof fn lemma_code_bound(c: char)
    ensures
        code_of(c) < START,
{
}

/// No marker token carries text.
pub proof fn lemma_marker_not_text(t: u32)
    requires
        t >= START,
    ensures
        !is_text_token(t),
{
    assert forall|c: char| code_of(c) != t by {
        lemma_code_bound(c);
    }
}

pub proof fn lemma_role_token(r: Role)
    ensures
        role_of_token(role_token(r)) == Some(r),
        !is_text_token(role_token(r)),
{
    lemma_marker_not_text(role_token(r));
}

pub fn role_marker(r: Role) -> (t: u32)
    ensures
        t == role_token(r),
{
    match r {
        Role::System => SYSTEM,
        Role::Developer => DEVELOPER,
        Role::User => USER,
        Role::Assistant => ASSISTANT,
        Role::Tool => TOOL,
    }
}

pub fn role_from_marker(t: u32) -> (r: Option<Role>)
    ensures
        r == role_of_token(t),
{
    if t == SYSTEM {
        Some(Role::System)
    } else if t == DEVELOPER {
        Some(Role::Developer)
    } else if t == USER {
        Some(Role::User)
    } else if t == ASSISTANT {
        Some(Role::Assistant)
    } else if t == TOOL {
        Some(Role::Tool)
    } else {
        None
    }
}

/// Relies on `str::chars`: it yields the string's characters in order.
#[verifier::external_body]
fn chars_of(s: &str) -> (r: Vec<char>)
    ensures
        r@ == s@,
{
    s.chars().collect()
}

/// Relies on `char::from_u32`: it returns the character of that code when the
/// value is a Unicode scalar value, and `None` otherwise.
#[verifier::external_body]
fn char_from_u32(v: u32) -> (r: Option<char>)
    ensures
        match r {
            Some(c) => code_of(c) == v,
            None => !is_text_token(v),
        },
{
    char::from_u32(v)
}

/// Relies on `String::push`: it appends one character.
#[verifier::external_body]
pub fn push_char(s: &mut String, c: char)
    ensures
        final(s)@ == old(s)@.push(c),
{
    s.push(c)
}

/// Appends the tokens of `s` to `out`.
pub fn encode_text(s: &str, out: &mut Vec<u32>)
    ensures
        final(out)@ == old(out)@ + text_tokens(s@),
{
    let chars = chars_of(s);
    let mut i: usize = 0;
    while i < chars.len()
        invariant
            chars@ == s@,
            i <= chars.len(),
            out@ == old(out)@ + text_tokens(s@.subrange(0, i as int)),
        decreases chars.len() - i,
    {
        let c = chars[i];
        out.push(c as u32);
        proof {
            assert(s@.subrange(0, i + 1) == s@.subrange(0, i as int).push(c));
            assert(text_tokens(s@.subrange(0, i + 1)) =~= text_tokens(
                s@.subrange(0, i as int),
            ).push(code_of(c)));
        }
        i += 1;
    }
    proof {
        assert(s@.subrange(0, s@.len() as int) == s@);
    }
}

/// The character a text token carries, or `None` for any other token.
pub fn decode_token(t: u32) -> (r: Option<char>)
    ensures
        r is Some <==> is_text_token(t),
        r matches Some(c) ==> c == char_of_token(t) && code_of(c) == t,
{
    let r = char_from_u32(t);
    proof {
        if let Some(c) = r {
            lemma_char_of_code(c);
        }
    }
    r
}

/// The text a sequence of tokens carries, or `None` when one of them is not
/// a text token.
pub fn decode_text(tokens: &[u32]) -> (r: Option<String>)
    ensures
        match r {
            Some(s) => text_tokens(s@) == tokens@,
            None => exists|i: int| 0 <= i < tokens@.len() && !is_text_token(#[trigger] tokens@[i]),
        },
{
    let mut out = String::new();
    let mut i: usize = 0;
    proof {
        assert(text_tokens(out@) =~= tokens@.subrange(0, 0));
    }
    while i < tokens.len()
        invariant
            i <= tokens.len(),
            text_tokens(out@) == tokens@.subrange(0, i as int),
        decreases tokens.len() - i,
    {
        match decode_token(tokens[i]) {
            Some(c) => {
                let ghost before = out@;
                push_char(&mut out, c);
                proof {
                    assert(text_tokens(out@) =~= text_tokens(before).push(code_of(c)));
                    assert(tokens@.subrange(0, i + 1) =~= tokens@.subrange(0, i as int).push(
                        tokens@[i as int],
                    ));
                }
            },
            None => {
                return None;
            },
        }
        i += 1;
    }
    proof {
        assert(tokens@.subrange(0, tokens@.len() as int) == tokens@);
    }
    Some(out)
}

} // verus!
