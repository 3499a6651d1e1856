//! The argument of a transformation site, and the text of the string literal
//! it carries.
//!
//! A site takes exactly one string literal, plain (`"..."`) or raw
//! (`r"..."`, `r#"..."#`, ...). Both forms resolve to the bytes the literal
//! denotes: a plain literal's escape sequences are resolved, and a raw
//! literal's body is taken exactly as it stands in the source.
use crate::error::LitcryptError;
use crate::escape::{unescape, unescape_literal};
use vstd::prelude::*;
use vstd::utf8::encode_utf8;

verus! {

/// One token handed to a transformation site.
#[derive(Debug)]
pub enum Token {
    /// A literal, as the source text that spells it (quotes included).
    Literal(String),
    /// Anything that is not a literal.
    Other,
}

pub open spec fn is_quote(b: u8) -> bool {
    b == 34
}

pub open spec fn is_hash(b: u8) -> bool {
    b == 35
}

/// `t` spells a plain string literal: a quote, the content, a quote.
pub open spec fn is_plain_literal(t: Seq<u8>) -> bool {
    t.len() >= 2 && is_quote(t[0]) && is_quote(t[t.len() - 1])
}

/// `t` spells a raw string literal fenced by `h` hashes on each side:
/// `r`, `h` hashes, a quote, the content, a quote, `h` hashes.
pub open spec fn is_raw_literal(t: Seq<u8>, h: int) -> bool {
    &&& h >= 0
    &&& t.len() >= 2 * h + 3
    &&& t[0] == 114
    &&& forall|j: int| 1 <= j <= h ==> is_hash(#[trigger] t[j])
    &&& is_quote(t[h + 1])
    &&& is_quote(t[t.len() - h - 1])
    &&& forall|j: int| t.len() - h <= j < t.len() ==> is_hash(#[trigger] t[j])
}

/// The bytes denoted by the string literal spelled by `t`, or `None` where
/// `t` spells no string literal (or a plain one with an escape that is not
/// allowed).
pub open spec fn literal_content(t: Seq<u8>) -> Option<Seq<u8>> {
    if is_plain_literal(t) {
        unescape(t.subrange(1, t.len() - 1))
    } else if exists|h: int| is_raw_literal(t, h) {
        let h = choose|h: int| is_raw_literal(t, h);
        Some(t.subrange(h + 2, t.len() - h - 1))
    } else {
        None
    }
}

/// The text of the string literal that a token carries, if it carries one.
pub open spec fn token_content(tok: Token) -> Option<Seq<u8>> {
    match tok {
        Token::Literal(s) => literal_content(encode_utf8(s@)),
        Token::Other => None,
    }
}

/// A raw literal has one fence width only.
proof fn lemma_raw_fence_unique(t: Seq<u8>, h1: int, h2: int)
    requires
        is_raw_literal(t, h1),
        is_raw_literal(t, h2),
    ensures
        h1 == h2,
{
    if h1 < h2 {
        assert(is_hash(t[h1 + 1]));
    } else if h2 < h1 {
        assert(is_hash(t[h2 + 1]));
    }
}

/// The bytes denoted by the string literal spelled by `t`.
pub fn resolve_literal_text(t: &[u8]) -> (r: Option<Vec<u8>>)
    ensures
        r is Some <==> literal_content(t@) is Some,
        r matches Some(c) ==> c@ == literal_content(t@)->Some_0,
{
    let n = t.len();
    if n >= 2 && t[0] == 34 && t[n - 1] == 34 {
        return unescape_literal(vstd::slice::slice_subrange(t, 1, n - 1));
    }
    if n < 3 || t[0] != 114 {
        return None;
    }
    let mut h: usize = 0;
    while 1 + h < n && t[1 + h] == 35
        invariant
            n == t@.len(),
            t@[0] == 114,
            1 + h <= n,
            forall|j: int| 1 <= j <= h ==> is_hash(#[trigger] t@[j]),
        decreases n - h,
    {
        h = h + 1;
    }
    proof {
        assert forall|g: int| is_raw_literal(t@, g) implies g == h by {
            if g < h {
                assert(is_hash(t@[g + 1]));
            } else if g > h {
                assert(is_hash(t@[h as int + 1]));
            }
        }
    }
    let rest = n - 1 - h;
    if rest < h || rest - h < 2 {
        return None;
    }
    if t[h + 1] != 34 || t[n - h - 1] != 34 {
        return None;
    }
    let mut j: usize = n - h;
    while j < n
        invariant
            n == t@.len(),
            t@[0] == 114,
            h < n,
            n - h <= j <= n,
            forall|k: int| n - h <= k < j ==> is_hash(#[trigger] t@[k]),
            forall|g: int| is_raw_literal(t@, g) ==> g == h,
        decreases n - j,
    {
        if t[j] != 35 {
            proof {
                assert forall|g: int| !is_raw_literal(t@, g) by {
                    if is_raw_literal(t@, g) {
                        assert(g == h);
                        assert(is_hash(t@[j as int]));
                    }
                }
            }
            return None;
        }
        j = j + 1;
    }
    proof {
        assert(is_raw_literal(t@, h as int));
        let g = choose|g: int| is_raw_literal(t@, g);
        lemma_raw_fence_unique(t@, g, h as int);
    }
    let c = vstd::slice::slice_subrange(t, h + 2, n - h - 1);
    Some(vstd::slice::slice_to_vec(c))
}

/// The text of the one string literal that a transformation site received.
///
/// Fails with `ArgumentCount` unless there is exactly one token, and with
/// `ArgumentKind` where that token is no string literal.
pub fn resolve_literal(tokens: &Vec<Token>) -> (r: Result<Vec<u8>, LitcryptError>)
    ensures
        tokens@.len() != 1 <==> r matches Err(LitcryptError::ArgumentCount),
        tokens@.len() == 1 ==> match token_content(tokens@[0]) {
            Some(c) => r matches Ok(v) && v@ == c,
            None => r matches Err(LitcryptError::ArgumentKind),
        },
{
    if tokens.len() != 1 {
        return Err(LitcryptError::ArgumentCount);
    }
    match &tokens[0] {
        Token::Literal(text) => {
            let bytes = text.as_str().as_bytes();
            match resolve_literal_text(bytes) {
                Some(c) => Ok(c),
                None => Err(LitcryptError::ArgumentKind),
            }
        },
        Token::Other => Err(LitcryptError::ArgumentKind),
    }
}

} // verus!
