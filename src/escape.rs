//! Escape sequences of plain string literals.
//!
//! Between its quotes a plain literal may write `\n`, `\r`, `\t`, `\\`, `\0`,
//! `\'`, `\"`, `\xHH` (at most `\x7F`), `\u{H..}` (one to six hex digits
//! naming a Unicode scalar value), and a backslash before a line break, which
//! drops the break and the whitespace that follows it. Resolving them gives
//! the bytes that the literal denotes.
use vstd::prelude::*;
use vstd::utf8::{encode_scalar, encode_utf8, is_scalar};

verus! {

pub open spec fn is_hex(b: u8) -> bool {
    (48 <= b <= 57) || (97 <= b <= 102) || (65 <= b <= 70)
}

pub open spec fn hex_digit(b: u8) -> nat {
    if 48 <= b <= 57 {
        (b - 48) as nat
    } else if 97 <= b <= 102 {
        (b - 87) as nat
    } else {
        (b - 55) as nat
    }
}

/// Whitespace skipped after a backslash that ends a line.
pub open spec fn is_space(b: u8) -> bool {
    b == 32 || b == 9 || b == 10 || b == 13
}

/// The byte denoted by a one-character escape `\e`.
pub open spec fn simple_escape(e: u8) -> Option<u8> {
    if e == 110 {
        Some(10u8)
    } else if e == 114 {
        Some(13u8)
    } else if e == 116 {
        Some(9u8)
    } else if e == 92 {
        Some(92u8)
    } else if e == 48 {
        Some(0u8)
    } else if e == 39 {
        Some(39u8)
    } else if e == 34 {
        Some(34u8)
    } else {
        None
    }
}

/// The number of hex digits at the start of `c`.
pub open spec fn hex_run(c: Seq<u8>) -> nat
    decreases c.len(),
{
    if c.len() > 0 && is_hex(c[0]) {
        1 + hex_run(c.drop_first())
    } else {
        0
    }
}

/// The number that the hex digits `d` spell.
pub open spec fn hex_value(d: Seq<u8>) -> nat
    decreases d.len(),
{
    if d.len() == 0 {
        0
    } else {
        hex_value(d.drop_last()) * 16 + hex_digit(d.last())
    }
}

pub open spec fn pow16(n: nat) -> nat
    decreases n,
{
    if n == 0 {
        1
    } else {
        16 * pow16((n - 1) as nat)
    }
}

pub open spec fn prepend(p: Seq<u8>, rest: Option<Seq<u8>>) -> Option<Seq<u8>> {
    match rest {
        Some(r) => Some(p + r),
        None => None,
    }
}

/// The bytes denoted by the literal body `c`, or `None` where it holds an
/// escape that is not allowed. With `skipping`, leading whitespace of `c` is
/// dropped first (it follows a backslash that ended a line).
pub open spec fn unescape_rest(c: Seq<u8>, skipping: bool) -> Option<Seq<u8>>
    decreases c.len(), if skipping {
        1nat
    } else {
        0nat
    },
{
    if skipping {
        if c.len() > 0 && is_space(c[0]) {
            unescape_rest(c.drop_first(), true)
        } else {
            unescape_rest(c, false)
        }
    } else if c.len() == 0 {
        Some(Seq::empty())
    } else if c[0] != 92 {
        prepend(seq![c[0]], unescape_rest(c.drop_first(), false))
    } else if c.len() < 2 {
        None
    } else if simple_escape(c[1]) is Some {
        prepend(seq![simple_escape(c[1])->Some_0], unescape_rest(c.subrange(2, c.len() as int), false))
    } else if c[1] == 120 {
        if c.len() >= 4 && 48 <= c[2] <= 55 && is_hex(c[3]) {
            prepend(
                seq![(hex_digit(c[2]) * 16 + hex_digit(c[3])) as u8],
                unescape_rest(c.subrange(4, c.len() as int), false),
            )
        } else {
            None
        }
    } else if c[1] == 10 {
        unescape_rest(c.subrange(2, c.len() as int), true)
    } else if c[1] == 117 {
        let k = hex_run(c.subrange(3, c.len() as int)) as int;
        if c.len() >= 3 && c[2] == 123 && 1 <= k <= 6 && c.len() > 3 + k && c[3 + k] == 125
            && is_scalar(hex_value(c.subrange(3, 3 + k)) as u32) {
            prepend(
                encode_scalar(hex_value(c.subrange(3, 3 + k)) as u32),
                unescape_rest(c.subrange(4 + k, c.len() as int), false),
            )
        } else {
            None
        }
    } else {
        None
    }
}

/// The bytes denoted by the body of a plain string literal.
pub open spec fn unescape(c: Seq<u8>) -> Option<Seq<u8>> {
    unescape_rest(c, false)
}

/// Relies on std's `char::from_u32`: it gives the char of a Unicode scalar
/// value, and `None` for any other number.
#[verifier::external_body]
fn char_from_u32(v: u32) -> (r: Option<char>)
    ensures
        r is Some <==> is_scalar(v),
        r matches Some(c) ==> c as u32 == v,
{
    char::from_u32(v)
}

/// Relies on std's `String::from(char)`: a string of that one char.
#[verifier::external_body]
fn string_of_char(c: char) -> (r: String)
    ensures
        r@ == seq![c],
{
    String::from(c)
}

fn hex_digit_value(b: u8) -> (r: u32)
    requires
        is_hex(b),
    ensures
        r == hex_digit(b),
        r < 16,
{
    if 48 <= b && b <= 57 {
        (b - 48) as u32
    } else if 97 <= b && b <= 102 {
        (b - 87) as u32
    } else {
        (b - 55) as u32
    }
}

proof fn lemma_pow16_bound(n: nat)
    requires
        n <= 6,
    ensures
        pow16(n) <= 16777216,
{
    reveal_with_fuel(pow16, 7);
}

/// Pushes each byte of `p` onto `out`.
fn push_all(out: &mut Vec<u8>, p: &[u8])
    ensures
        final(out)@ == old(out)@ + p@,
{
    let mut i: usize = 0;
    while i < p.len()
        invariant
            i <= p@.len(),
            out@ == old(out)@ + p@.subrange(0, i as int),
        decreases p@.len() - i,
    {
        out.push(p[i]);
        i = i + 1;
        assert(out@ =~= old(out)@ + p@.subrange(0, i as int));
    }
    assert(p@.subrange(0, p@.len() as int) =~= p@);
}

/// The escape `\u{H..}` that starts at `c[i]`: the UTF-8 bytes of the scalar
/// value it names, and the position just after it.
fn unicode_escape(c: &[u8], i: usize) -> (r: Option<(Vec<u8>, usize)>)
    requires
        i + 1 < c@.len(),
        c@[i as int] == 92,
        c@[i + 1] == 117,
    ensures
        ({
            let rest = c@.subrange(i as int, c@.len() as int);
            let k = hex_run(rest.subrange(3, rest.len() as int)) as int;
            let ok = rest.len() >= 3 && rest[2] == 123 && 1 <= k <= 6 && rest.len() > 3 + k
                && rest[3 + k] == 125 && is_scalar(hex_value(rest.subrange(3, 3 + k)) as u32);
            &&& r is Some <==> ok
            &&& r matches Some((b, j)) ==> b@ == encode_scalar(
                hex_value(rest.subrange(3, 3 + k)) as u32,
            ) && j == i + 4 + k
        }),
{
    let n = c.len();
    let ghost rest = c@.subrange(i as int, n as int);
    if i + 2 >= n || c[i + 2] != 123 {
        return None;
    }
    let start: usize = i + 3;
    assert(rest.subrange(3, rest.len() as int) =~= c@.subrange(start as int, n as int));
    let mut k: usize = 0;
    while start + k < n && k < 7 && ((48 <= c[start + k] && c[start + k] <= 57) || (97 <= c[start
        + k] && c[start + k] <= 102) || (65 <= c[start + k] && c[start + k] <= 70))
        invariant
            n == c@.len(),
            start <= n,
            start + k <= n,
            k <= 7,
            hex_run(c@.subrange(start as int, n as int)) == k + hex_run(
                c@.subrange(start + k, n as int),
            ),
            forall|m: int| start <= m < start + k ==> is_hex(#[trigger] c@[m]),
        decreases n - k,
    {
        assert(c@.subrange(start + k, n as int).drop_first() =~= c@.subrange(
            start + k + 1,
            n as int,
        ));
        k = k + 1;
    }
    if start + k < n && k < 7 {
        assert(c@.subrange(start + k, n as int)[0] == c@[start + k as int]);
    }
    if k == 0 || k > 6 || start + k >= n || c[start + k] != 125 {
        return None;
    }
    assert(hex_run(c@.subrange(start + k, n as int)) == 0);
    let mut val: u32 = 0;
    let mut d: usize = 0;
    while d < k
        invariant
            n == c@.len(),
            start + k < n,
            1 <= k <= 6,
            d <= k,
            forall|m: int| start <= m < start + k ==> is_hex(#[trigger] c@[m]),
            val == hex_value(c@.subrange(start as int, start + d)),
            val < pow16(d as nat),
        decreases k - d,
    {
        proof {
            lemma_pow16_bound(d as nat);
            assert(c@.subrange(start as int, start + d + 1).drop_last() =~= c@.subrange(
                start as int,
                start + d,
            ));
        }
        val = val * 16 + hex_digit_value(c[start + d]);
        d = d + 1;
    }
    assert(rest.subrange(3, 3 + k) =~= c@.subrange(start as int, start + k));
    match char_from_u32(val) {
        None => None,
        Some(ch) => {
            let s = string_of_char(ch);
            let bytes = s.as_str().as_bytes();
            proof {
                reveal_with_fuel(encode_utf8, 2);
                assert(seq![ch].drop_first() =~= Seq::<char>::empty());
                assert(seq![ch][0] as u32 == val);
                assert(encode_utf8(seq![ch]) =~= encode_scalar(val));
            }
            Some((vstd::slice::slice_to_vec(bytes), start + k + 1))
        },
    }
}

/// Resolves the one byte or escape at `c[i]`, appending what it denotes to
/// `out`; returns the position after it, or `None` where the escape is not
/// allowed.
#[verifier::rlimit(60)]
fn unescape_step(c: &[u8], i: usize, out: &mut Vec<u8>) -> (r: Option<usize>)
    requires
        i < c@.len(),
    ensures
        match r {
            Some(j) => i < j <= c@.len() && prepend(
                old(out)@,
                unescape_rest(c@.subrange(i as int, c@.len() as int), false),
            ) == prepend(final(out)@, unescape_rest(c@.subrange(j as int, c@.len() as int), false)),
            None => unescape_rest(c@.subrange(i as int, c@.len() as int), false) is None,
        },
{
    let n = c.len();
    let ghost rest = c@.subrange(i as int, n as int);
    let b = c[i];
    if b != 92 {
        assert(rest.drop_first() =~= c@.subrange(i + 1, n as int));
        proof {
            let tail = unescape_rest(c@.subrange(i + 1, n as int), false);
            if tail is Some {
                assert(out@ + (seq![b] + tail->Some_0) =~= out@.push(b) + tail->Some_0);
            }
        }
        out.push(b);
        return Some(i + 1);
    }
    if i + 1 >= n {
        return None;
    }
    let e = c[i + 1];
    let simple: Option<u8> = if e == 110 {
        Some(10u8)
    } else if e == 114 {
        Some(13u8)
    } else if e == 116 {
        Some(9u8)
    } else if e == 92 {
        Some(92u8)
    } else if e == 48 {
        Some(0u8)
    } else if e == 39 {
        Some(39u8)
    } else if e == 34 {
        Some(34u8)
    } else {
        None
    };
    assert(simple == simple_escape(e));
    assert(rest.subrange(2, rest.len() as int) =~= c@.subrange(i + 2, n as int));
    if let Some(v) = simple {
        proof {
            let tail = unescape_rest(c@.subrange(i + 2, n as int), false);
            if tail is Some {
                assert(out@ + (seq![v] + tail->Some_0) =~= out@.push(v) + tail->Some_0);
            }
        }
        out.push(v);
        Some(i + 2)
    } else if e == 120 {
        if n - i < 4 || c[i + 2] < 48 || c[i + 2] > 55 || !((48 <= c[i + 3] && c[i + 3] <= 57)
            || (97 <= c[i + 3] && c[i + 3] <= 102) || (65 <= c[i + 3] && c[i + 3] <= 70)) {
            return None;
        }
        let v: u8 = (hex_digit_value(c[i + 2]) * 16 + hex_digit_value(c[i + 3])) as u8;
        assert(rest.subrange(4, rest.len() as int) =~= c@.subrange(i + 4, n as int));
        proof {
            let tail = unescape_rest(c@.subrange(i + 4, n as int), false);
            if tail is Some {
                assert(out@ + (seq![v] + tail->Some_0) =~= out@.push(v) + tail->Some_0);
            }
        }
        out.push(v);
        Some(i + 4)
    } else if e == 10 {
        let mut j: usize = i + 2;
        while j < n && (c[j] == 32 || c[j] == 9 || c[j] == 10 || c[j] == 13)
            invariant
                n == c@.len(),
                i + 2 <= j <= n,
                unescape_rest(rest, false) == unescape_rest(c@.subrange(j as int, n as int), true),
            decreases n - j,
        {
            assert(c@.subrange(j as int, n as int).drop_first() =~= c@.subrange(j + 1, n as int));
            j = j + 1;
        }
        if j < n {
            assert(c@.subrange(j as int, n as int)[0] == c@[j as int]);
        }
        Some(j)
    } else if e == 117 {
        match unicode_escape(c, i) {
            None => None,
            Some((bytes, j)) => {
                proof {
                    assert(rest.subrange(4 + (j - i - 4), rest.len() as int) =~= c@.subrange(
                        j as int,
                        n as int,
                    ));
                    let tail = unescape_rest(c@.subrange(j as int, n as int), false);
                    if tail is Some {
                        assert(out@ + (bytes@ + tail->Some_0) =~= (out@ + bytes@) + tail->Some_0);
                    }
                }
                push_all(out, bytes.as_slice());
                Some(j)
            },
        }
    } else {
        None
    }
}

/// The bytes denoted by the body `c` of a plain string literal, or `None`
/// where it holds an escape that is not allowed.
pub fn unescape_literal(c: &[u8]) -> (r: Option<Vec<u8>>)
    ensures
        r is Some <==> unescape(c@) is Some,
        r matches Some(v) ==> v@ == unescape(c@)->Some_0,
{
    let n = c.len();
    let mut out: Vec<u8> = Vec::new();
    let mut i: usize = 0;
    proof {
        assert(c@.subrange(0, n as int) =~= c@);
        if unescape(c@) is Some {
            assert(Seq::<u8>::empty() + unescape(c@)->Some_0 =~= unescape(c@)->Some_0);
        }
    }
    while i < n
        invariant
            n == c@.len(),
            i <= n,
            unescape(c@) == prepend(out@, unescape_rest(c@.subrange(i as int, n as int), false)),
        decreases n - i,
    {
        match unescape_step(c, i, &mut out) {
            Some(j) => {
                i = j;
            },
            None => {
                return None;
            },
        }
    }
    proof {
        assert(c@.subrange(n as int, n as int) =~= Seq::<u8>::empty());
        assert(out@ + Seq::<u8>::empty() =~= out@);
    }
    Some(out)
}

} // verus!
