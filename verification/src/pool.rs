//! The pool of random base64 glyphs that passwords are drawn from.
//!
//! A pool is made from `POOL_BYTES` random bytes. Since that count is a
//! multiple of three, their base64 encoding has no padding: every one of the
//! `POOL_GLYPHS` glyphs carries six bits of the random input.

use vstd::prelude::*;
use base64::Engine;
use vstd::std_specs::iter::IteratorSpec;
use crate::glyphs::{
    base64_symbol, is_base64_glyph, lemma_base64_symbol_injective, lemma_base64_symbol_is_glyph,
};
use crate::scrub::{zeroize_char, zeroize_chars, zeroize_string};

verus! {

broadcast use vstd::string::group_string_axioms;

/// Random bytes that one pool is made from.
pub const POOL_BYTES: usize = 12288;

/// Glyphs in one pool: four for every three bytes.
pub const POOL_GLYPHS: usize = 16384;

/// Pools a generator may draw for one password before it gives up. Each
/// pool holds thousands of glyphs, and at least one of the 64 glyphs is
/// accepted, so running through this many pools is not a practical outcome;
/// the bound makes generation terminate.
pub const REFILL_LIMIT: u64 = 0xffff_ffff_ffff_ffff;

/// The six-bit group at position `k` of the bits of `bytes`, most significant
/// bit first (each group of three bytes gives four groups).
pub open spec fn sextet(bytes: Seq<u8>, k: int) -> int {
    let g = k / 4;
    let b0 = bytes[3 * g];
    let b1 = bytes[3 * g + 1];
    let b2 = bytes[3 * g + 2];
    if k % 4 == 0 {
        (b0 >> 2u8) as int
    } else if k % 4 == 1 {
        (((b0 & 3u8) << 4u8) | (b1 >> 4u8)) as int
    } else if k % 4 == 2 {
        (((b1 & 15u8) << 2u8) | (b2 >> 6u8)) as int
    } else {
        (b2 & 63u8) as int
    }
}

/// Standard base64 (RFC 4648, section 4) of a byte string whose length is a
/// multiple of three, which needs no padding.
pub open spec fn base64_encoding(bytes: Seq<u8>) -> Seq<char> {
    Seq::new((bytes.len() / 3 * 4) as nat, |k: int| base64_symbol(sextet(bytes, k)))
}

/// The glyphs of successive pools, in order, each pool made from one block
/// of bytes.
pub open spec fn encoded_pools(blocks: Seq<Seq<u8>>) -> Seq<char>
    decreases blocks.len(),
{
    if blocks.len() == 0 {
        Seq::empty()
    } else {
        encoded_pools(blocks.drop_last()) + base64_encoding(blocks.last())
    }
}

/// Every block is a whole pool's worth of bytes.
pub open spec fn pool_blocks(blocks: Seq<Seq<u8>>) -> bool {
    forall|k: int| 0 <= k < blocks.len() ==> (#[trigger] blocks[k]).len() == POOL_BYTES
}

pub proof fn lemma_encoded_pools_push(blocks: Seq<Seq<u8>>, b: Seq<u8>)
    ensures
        encoded_pools(blocks.push(b)) == encoded_pools(blocks) + base64_encoding(b),
        encoded_pools(Seq::<Seq<u8>>::empty()) == Seq::<char>::empty(),
{
    assert(blocks.push(b).drop_last() =~= blocks);
}

/// Every six-bit group is a value below 64.
pub proof fn lemma_sextet_range(bytes: Seq<u8>, k: int)
    requires
        bytes.len() % 3 == 0,
        0 <= k < bytes.len() / 3 * 4,
    ensures
        0 <= sextet(bytes, k) < 64,
{
    let g = k / 4;
    assert(0 <= g < bytes.len() / 3) by (nonlinear_arith)
        requires
            0 <= k < bytes.len() / 3 * 4,
            g == k / 4,
    ;
    assert(3 * g + 2 < bytes.len()) by (nonlinear_arith)
        requires
            0 <= g < bytes.len() / 3,
            bytes.len() % 3 == 0,
    ;
    let b0 = bytes[3 * g];
    let b1 = bytes[3 * g + 1];
    let b2 = bytes[3 * g + 2];
    assert((b0 >> 2u8) < 64 && (((b0 & 3u8) << 4u8) | (b1 >> 4u8)) < 64 && (((b1 & 15u8) << 2u8)
        | (b2 >> 6u8)) < 64 && (b2 & 63u8) < 64) by (bit_vector);
}

proof fn lemma_same_sextet(a: Seq<u8>, b: Seq<u8>, k: int)
    requires
        a.len() == b.len(),
        a.len() % 3 == 0,
        0 <= k < a.len() / 3 * 4,
        base64_encoding(a) == base64_encoding(b),
    ensures
        sextet(a, k) == sextet(b, k),
{
    assert(base64_encoding(a).len() == a.len() / 3 * 4);
    assert(base64_encoding(a)[k] == base64_symbol(sextet(a, k)));
    assert(base64_encoding(b)[k] == base64_symbol(sextet(b, k)));
    lemma_sextet_range(a, k);
    lemma_sextet_range(b, k);
    lemma_base64_symbol_injective(sextet(a, k), sextet(b, k));
}

/// Six bits per glyph: the encoding loses nothing. Blocks of bytes with the
/// same encoding are the same block, so the `POOL_GLYPHS` glyphs of a pool
/// carry all `8 * POOL_BYTES` random bits, six in each glyph.
pub proof fn lemma_encoding_injective(a: Seq<u8>, b: Seq<u8>)
    requires
        a.len() == b.len(),
        a.len() % 3 == 0,
        base64_encoding(a) == base64_encoding(b),
    ensures
        a == b,
{
    assert forall|j: int| 0 <= j < a.len() implies a[j] == b[j] by {
        let g = j / 3;
        assert(0 <= g && 3 * g <= j < 3 * g + 3 && 3 * g + 2 < a.len());
        assert(4 * g + 3 < a.len() / 3 * 4);
        lemma_same_sextet(a, b, 4 * g);
        lemma_same_sextet(a, b, 4 * g + 1);
        lemma_same_sextet(a, b, 4 * g + 2);
        lemma_same_sextet(a, b, 4 * g + 3);
        let (a0, a1, a2) = (a[3 * g], a[3 * g + 1], a[3 * g + 2]);
        let (b0, b1, b2) = (b[3 * g], b[3 * g + 1], b[3 * g + 2]);
        assert(sextet(a, 4 * g) == sextet(b, 4 * g));
        assert(sextet(a, 4 * g + 1) == sextet(b, 4 * g + 1));
        assert(sextet(a, 4 * g + 2) == sextet(b, 4 * g + 2));
        assert(sextet(a, 4 * g + 3) == sextet(b, 4 * g + 3));
        assert((4 * g) / 4 == g && (4 * g) % 4 == 0);
        assert((4 * g + 1) / 4 == g && (4 * g + 1) % 4 == 1);
        assert((4 * g + 2) / 4 == g && (4 * g + 2) % 4 == 2);
        assert((4 * g + 3) / 4 == g && (4 * g + 3) % 4 == 3);
        assert(a0 == b0 && a1 == b1 && a2 == b2) by (bit_vector)
            requires
                (a0 >> 2u8) == (b0 >> 2u8),
                (((a0 & 3u8) << 4u8) | (a1 >> 4u8)) == (((b0 & 3u8) << 4u8) | (b1 >> 4u8)),
                (((a1 & 15u8) << 2u8) | (a2 >> 6u8)) == (((b1 & 15u8) << 2u8) | (b2 >> 6u8)),
                (a2 & 63u8) == (b2 & 63u8),
        ;
    }
    assert(a =~= b);
}

/// Every glyph of the encoding of a whole pool is a base64 glyph.
pub proof fn lemma_pool_encoding_glyphs(bytes: Seq<u8>)
    requires
        bytes.len() == POOL_BYTES,
    ensures
        base64_encoding(bytes).len() == POOL_GLYPHS,
        forall|k: int|
            0 <= k < POOL_GLYPHS ==> #[trigger] is_base64_glyph(base64_encoding(bytes)[k]),
{
    assert forall|k: int| 0 <= k < POOL_GLYPHS implies #[trigger] is_base64_glyph(
        base64_encoding(bytes)[k],
    ) by {
        lemma_sextet_range(bytes, k);
        lemma_base64_symbol_is_glyph(sextet(bytes, k));
    }
}

/// `Engine::encode` of the `STANDARD_NO_PAD` engine (standard alphabet, no
/// padding): the base64 text of the bytes. Its length is `ceil(4n / 3)`; for
/// a length that is a multiple of three it is the padding-free encoding
/// stated by `base64_encoding`. An encoded size that overflows `usize`, or a
/// buffer above `isize::MAX` bytes, panics, so the input is bounded.
#[verifier::external_body]
fn encode_base64(bytes: &Vec<u8>) -> (text: String)
    requires
        bytes@.len() <= isize::MAX / 2,
    ensures
        text@.len() == (4 * bytes@.len() + 2) / 3,
        bytes@.len() % 3 == 0 ==> text@ == base64_encoding(bytes@),
{
    base64::engine::general_purpose::STANDARD_NO_PAD.encode(bytes)
}

/// A buffer of random base64 glyphs, consumed from the front.
pub struct GlyphPool {
    glyphs: Vec<char>,
    next: usize,
}

impl GlyphPool {
    /// The glyphs held, consumed or not.
    pub closed spec fn glyphs(&self) -> Seq<char> {
        self.glyphs@
    }

    /// The position of the next glyph to hand out.
    pub closed spec fn position(&self) -> nat {
        self.next as nat
    }

    pub open spec fn wf(&self) -> bool {
        &&& self.glyphs().len() == POOL_GLYPHS
        &&& self.position() <= POOL_GLYPHS
    }

    pub open spec fn exhausted(&self) -> bool {
        self.position() >= POOL_GLYPHS
    }

    /// An empty pool: all glyphs zero, none left to hand out.
    pub fn new() -> (pool: Self)
        ensures
            pool.wf(),
            pool.glyphs() == Seq::new(POOL_GLYPHS as nat, |i: int| '\0'),
            pool.position() == POOL_GLYPHS,
    {
        let pool = GlyphPool { glyphs: vec!['\0'; POOL_GLYPHS], next: POOL_GLYPHS };
        assert(pool.glyphs@ =~= Seq::new(POOL_GLYPHS as nat, |i: int| '\0'));
        pool
    }

    pub fn is_exhausted(&self) -> (r: bool)
        requires
            self.wf(),
        ensures
            r == self.exhausted(),
    {
        self.next >= POOL_GLYPHS
    }

    /// Zeroizes the glyphs held, then fills the pool with the base64 text of
    /// `bytes`; the intermediate text is zeroized too.
    pub fn refill_from(&mut self, bytes: &Vec<u8>)
        requires
            old(self).wf(),
            bytes@.len() == POOL_BYTES,
        ensures
            final(self).wf(),
            final(self).glyphs() == base64_encoding(bytes@),
            final(self).position() == 0,
            forall|k: int| 0 <= k < POOL_GLYPHS ==> #[trigger] is_base64_glyph(final(self).glyphs()[k]),
    {
        zeroize_chars(&mut self.glyphs);
        self.next = 0;
        let mut text = encode_base64(bytes);
        proof {
            lemma_pool_encoding_glyphs(bytes@);
        }
        let ghost encoded = text@;
        let mut iter = text.as_str().chars();
        let mut index: usize = 0;
        while index < POOL_GLYPHS
            invariant
                index <= POOL_GLYPHS,
                encoded == base64_encoding(bytes@),
                encoded.len() == POOL_GLYPHS,
                self.glyphs@.len() == POOL_GLYPHS,
                self.next == 0,
                iter.remaining() == encoded.skip(index as int),
                forall|j: int| 0 <= j < index ==> self.glyphs@[j] == encoded[j],
            decreases POOL_GLYPHS - index,
        {
            match iter.next() {
                Some(ch) => {
                    self.glyphs.set(index, ch);
                },
                None => {
                    assert(false);
                },
            }
            index += 1;
        }
        zeroize_string(&mut text);
        assert(self.glyphs@ =~= encoded);
    }

    /// The glyph held at position `i`, drawn or not.
    pub fn glyph(&self, i: usize) -> (c: char)
        requires
            self.wf(),
            i < POOL_GLYPHS,
        ensures
            c == self.glyphs()[i as int],
    {
        self.glyphs[i]
    }

    /// The position of the next glyph to hand out.
    pub fn next_position(&self) -> (n: usize)
        ensures
            n == self.position(),
    {
        self.next
    }

    /// Hands out the next glyph and leaves it in the pool.
    pub fn draw(&mut self) -> (c: char)
        requires
            old(self).wf(),
            !old(self).exhausted(),
        ensures
            final(self).wf(),
            c == old(self).glyphs()[old(self).position() as int],
            final(self).glyphs() == old(self).glyphs(),
            final(self).position() == old(self).position() + 1,
    {
        let c = self.glyphs[self.next];
        self.next += 1;
        c
    }

    /// Hands out the next glyph and zeroizes its slot in the pool.
    pub fn draw_and_scrub(&mut self) -> (c: char)
        requires
            old(self).wf(),
            !old(self).exhausted(),
        ensures
            final(self).wf(),
            c == old(self).glyphs()[old(self).position() as int],
            final(self).glyphs() == old(self).glyphs().update(old(self).position() as int, '\0'),
            final(self).position() == old(self).position() + 1,
    {
        let c = self.glyphs[self.next];
        zeroize_char(&mut self.glyphs[self.next]);
        self.next += 1;
        c
    }

    /// Zeroizes every glyph; the pool is then exhausted, so the next draw
    /// needs a refill.
    pub fn scrub(&mut self)
        ensures
            final(self).glyphs() == Seq::new(old(self).glyphs().len(), |i: int| '\0'),
            final(self).position() == POOL_GLYPHS,
        opens_invariants none
        no_unwind
    {
        zeroize_chars(&mut self.glyphs);
        self.next = POOL_GLYPHS;
    }
}

} // verus!
