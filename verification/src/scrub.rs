//! Buffers that hold secret material: building them without stray copies,
//! and zeroizing them once they are done with.

use vstd::prelude::*;
use zeroize::Zeroize;

verus! {

/// `Zeroize` on a `[char]` slice (the slice impl, for `DefaultIsZeroes`
/// types): every element is overwritten with `char::default()`, `'\0'`,
/// through volatile writes; the length is unchanged. Its one check, that the
/// length fits `isize`, always holds for a vector, so it does not unwind.
#[verifier::external_body]
pub(crate) fn zeroize_chars(buf: &mut Vec<char>)
    ensures
        final(buf)@ == Seq::new(old(buf)@.len(), |i: int| '\0'),
    opens_invariants none
    no_unwind
{
    buf.as_mut_slice().zeroize()
}

/// `Zeroize` on a `char` (the blanket impl for `DefaultIsZeroes` types): it
/// becomes `char::default()`, `'\0'`, through a volatile write.
#[verifier::external_body]
pub(crate) fn zeroize_char(c: &mut char)
    ensures
        *final(c) == '\0',
{
    c.zeroize()
}

/// `Zeroize` on a `[u8]` slice: every byte becomes `0`, the length is
/// unchanged.
#[verifier::external_body]
pub(crate) fn zeroize_bytes(buf: &mut Vec<u8>)
    ensures
        final(buf)@ == Seq::new(old(buf)@.len(), |i: int| 0u8),
{
    buf.as_mut_slice().zeroize()
}

/// `Zeroize` on a `Vec<usize>` (the `Vec` impl): the elements and the spare
/// capacity are zeroed, then the vector is cleared, so it ends empty.
#[verifier::external_body]
pub(crate) fn zeroize_indices(v: &mut Vec<usize>)
    ensures
        final(v)@.len() == 0,
{
    v.zeroize()
}

/// `Zeroize` on a `String` (through its byte vector, the `Vec` impl): the
/// bytes are zeroed and the string is cleared, so it ends empty.
#[verifier::external_body]
pub(crate) fn zeroize_string(s: &mut String)
    ensures
        final(s)@ == Seq::<char>::empty(),
{
    s.zeroize()
}

/// Zeroizes a password once it has been shown: its bytes are overwritten and
/// it is left empty.
pub fn zeroize_password(password: &mut String)
    ensures
        final(password)@ == Seq::<char>::empty(),
{
    zeroize_string(password)
}

/// `String::reserve`: makes room for `additional` more bytes, so that the
/// pushes that follow do not move the text (and leave copies of it behind).
/// The text itself is unchanged. A capacity above `isize::MAX` bytes panics,
/// so the string starts empty and the amount is bounded.
#[verifier::external_body]
pub(crate) fn reserve_text(s: &mut String, additional: usize)
    requires
        old(s)@.len() == 0,
        additional <= isize::MAX,
    ensures
        final(s)@ == old(s)@,
{
    s.reserve(additional)
}

/// `String::push`: appends one character. A capacity above `isize::MAX`
/// bytes panics; a character takes at most four bytes, so the length is
/// bounded.
#[verifier::external_body]
pub(crate) fn push_char(s: &mut String, c: char)
    requires
        4 * (old(s)@.len() + 1) <= isize::MAX,
    ensures
        final(s)@ == old(s)@.push(c),
{
    s.push(c)
}

} // verus!
