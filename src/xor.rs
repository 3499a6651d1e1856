//! Repeating-key XOR over byte sequences.
//!
//! The key is treated as an infinitely repeating sequence. An empty key leaves
//! the source unchanged. Since XOR is its own inverse, the same operation both
//! encodes and decodes.
use vstd::arithmetic::div_mod::{lemma_add_mod_noop, lemma_mod_self_0, lemma_small_mod};
use vstd::prelude::*;

verus! {

/// The repeating-key XOR of `source` with `key`: byte `i` of the result is
/// `source[i] ^ key[i % key.len()]`; with an empty key the result is `source`.
pub open spec fn xor_spec(source: Seq<u8>, key: Seq<u8>) -> Seq<u8> {
    if key.len() == 0 {
        source
    } else {
        Seq::new(source.len(), |i: int| source[i] ^ key[i % (key.len() as int)])
    }
}

/// Each byte of `source` XORed with the one byte `byte`.
pub open spec fn xor_byte_spec(source: Seq<u8>, byte: u8) -> Seq<u8> {
    Seq::new(source.len(), |i: int| source[i] ^ byte)
}

/// The position that follows `index` in a cycle of `count` positions.
pub open spec fn next_index_spec(index: int, count: int) -> int {
    if index + 1 < count {
        index + 1
    } else {
        0
    }
}

/// Returns result of a XOR operation applied to a `source` byte sequence.
///
/// `key` will be an infinitely repeating byte sequence.
pub fn xor(source: &[u8], key: &[u8]) -> (r: Vec<u8>)
    ensures
        r@ == xor_spec(source@, key@),
{
    let n = key.len();
    if n == 0 {
        vstd::slice::slice_to_vec(source)
    } else if n == 1 {
        let r = xor_with_byte(source, key[0]);
        proof {
            assert forall|i: int| 0 <= i < source@.len() implies #[trigger] r@[i] == xor_spec(
                source@,
                key@,
            )[i] by {
                assert(i % 1 == 0);
            }
            assert(r@ =~= xor_spec(source@, key@));
        }
        r
    } else {
        let mut key_iter = InfiniteByteIterator::new(key);
        let mut r: Vec<u8> = Vec::new();
        let mut i: usize = 0;
        while i < source.len()
            invariant
                key_iter.wf(),
                key_iter.bytes@ == key@,
                n == key@.len(),
                n > 1,
                i <= source@.len(),
                key_iter.index == i % n,
                r@ =~= xor_spec(source@, key@).subrange(0, i as int),
            decreases source@.len() - i,
        {
            let b = key_iter.next();
            proof {
                let ii = i as int;
                let ni = n as int;
                lemma_add_mod_noop(ii, 1, ni);
                lemma_small_mod(1, n as nat);
                if ii % ni + 1 < ni {
                    lemma_small_mod((ii % ni + 1) as nat, n as nat);
                } else {
                    lemma_mod_self_0(ni);
                }
            }
            r.push(source[i] ^ b);
            i = i + 1;
        }
        r
    }
}

/// Returns result of a XOR operation applied to a `source` byte sequence.
///
/// `byte` will be an infinitely repeating byte sequence.
pub fn xor_with_byte(source: &[u8], byte: u8) -> (r: Vec<u8>)
    ensures
        r@ == xor_byte_spec(source@, byte),
{
    let mut r: Vec<u8> = Vec::new();
    let mut i: usize = 0;
    while i < source.len()
        invariant
            i <= source@.len(),
            r@ =~= xor_byte_spec(source@, byte).subrange(0, i as int),
        decreases source@.len() - i,
    {
        r.push(source[i] ^ byte);
        i = i + 1;
    }
    r
}

/// A cursor that walks a non-empty byte slice round and round.
pub struct InfiniteByteIterator<'a> {
    pub bytes: &'a [u8],
    pub index: usize,
}

impl<'a> InfiniteByteIterator<'a> {
    /// The cursor stands on a byte of a non-empty slice.
    pub open spec fn wf(&self) -> bool {
        self.index < self.bytes@.len()
    }

    /// A cursor on the first byte of `bytes`.
    pub fn new(bytes: &'a [u8]) -> (r: InfiniteByteIterator<'a>)
        ensures
            r.bytes@ == bytes@,
            r.index == 0,
            bytes@.len() > 0 ==> r.wf(),
    {
        InfiniteByteIterator { bytes, index: 0 }
    }

    /// Returns the byte under the cursor and moves to the next one, wrapping
    /// to the first after the last.
    pub fn next(&mut self) -> (r: u8)
        requires
            old(self).wf(),
        ensures
            final(self).wf(),
            final(self).bytes@ == old(self).bytes@,
            r == old(self).bytes@[old(self).index as int],
            final(self).index == next_index_spec(
                old(self).index as int,
                old(self).bytes@.len() as int,
            ),
    {
        let byte = self.bytes[self.index];
        self.index = next_index(self.index, self.bytes.len());
        byte
    }
}

/// The position that follows `index` in a cycle of `count` positions.
pub fn next_index(index: usize, count: usize) -> (r: usize)
    requires
        index < count,
    ensures
        r == next_index_spec(index as int, count as int),
        r < count,
{
    if index + 1 < count {
        index + 1
    } else {
        0
    }
}

/// The cipher undoes itself: encoding twice with the same key gives back the
/// source, whatever the key (empty included).
pub proof fn lemma_xor_involution(s: Seq<u8>, k: Seq<u8>)
    ensures
        xor_spec(xor_spec(s, k), k) == s,
{
    if k.len() > 0 {
        assert forall|i: int| 0 <= i < s.len() implies #[trigger] xor_spec(xor_spec(s, k), k)[i]
            == s[i] by {
            let a = s[i];
            let b = k[i % (k.len() as int)];
            assert((a ^ b) ^ b == a) by (bit_vector);
        }
        assert(xor_spec(xor_spec(s, k), k) =~= s);
    }
}

/// With an empty key the cipher is the identity.
pub proof fn lemma_xor_empty_key(s: Seq<u8>)
    ensures
        xor_spec(s, Seq::<u8>::empty()) == s,
{
}

/// A key of one byte is XORed into every byte of the source.
pub proof fn lemma_xor_single_byte(s: Seq<u8>, b: u8)
    ensures
        forall|i: int| 0 <= i < s.len() ==> #[trigger] xor_spec(s, seq![b])[i] == s[i] ^ b,
{
    assert forall|i: int| 0 <= i < s.len() implies #[trigger] xor_spec(s, seq![b])[i] == s[i]
        ^ b by {
        assert(i % 1 == 0);
    }
}

/// The output is exactly as long as the source, for any key.
pub proof fn lemma_xor_length(s: Seq<u8>, k: Seq<u8>)
    ensures
        xor_spec(s, k).len() == s.len(),
{
}

} // verus!
