//! Byte-string buffers for operating-system path handling, and the
//! platform error helpers that go with them.

use vstd::prelude::*;

use crate::text::push_char;

verus! {

/// Why a platform call failed, decoded from an error number. This
/// platform reports nothing finer than an unspecified failure.
#[derive(Copy, Clone, Debug, PartialEq, Eq, Structural)]
pub enum OsErrorKind {
    Other,
}

/// Decodes a platform error number into an error kind; every number
/// maps to the unspecified kind.
pub fn decode_error_kind(errno: i32) -> (r: OsErrorKind)
    ensures
        r == OsErrorKind::Other,
{
    OsErrorKind::Other
}

/// The platform's error number; this platform records none and always
/// reports -1.
pub fn errno() -> (r: i32)
    ensures
        r == -1,
{
    -1
}

/// A text description for a platform error number; this platform knows
/// none.
pub fn error_string(errno: i32) -> (r: String)
    ensures
        r@ == "unknown error"@,
{
    let mut s = String::new();
    let lit = "unknown error";
    proof {
        reveal_strlit("unknown error");
    }
    let n = lit.unicode_len();
    let mut i: usize = 0;
    while i < n
        invariant
            0 <= i <= n,
            n == lit@.len(),
            lit@ == "unknown error"@,
            s@ == lit@.take(i as int),
        decreases n - i,
    {
        let c = lit.get_char(i);
        push_char(&mut s, c);
        proof {
            assert(lit@.take(i + 1) == lit@.take(i as int).push(lit@[i as int]));
        }
        i = i + 1;
    }
    proof {
        assert(lit@.take(n as int) == lit@);
    }
    s
}

/// Whether a byte separates path components.
pub fn is_sep_byte(b: u8) -> (r: bool)
    ensures
        r == (b == 47),
{
    b == 0x2F
}

/// Whether a byte separates components of a verbatim path; this
/// platform draws no distinction.
pub fn is_verbatim_sep(b: u8) -> (r: bool)
    ensures
        r == (b == 47),
{
    b == 0x2F
}

/// An owned byte string: path text that need not be valid UTF-8.
#[derive(Debug)]
pub struct Buf {
    pub inner: Vec<u8>,
}

/// A borrowed-style byte string, held here as its own bytes.
#[derive(Debug)]
pub struct Slice {
    pub inner: Vec<u8>,
}

/// Relies on String::into_bytes: the string's UTF-8 encoding, taken by
/// value.
#[verifier::external_body]
fn string_into_bytes(s: String) -> (r: Vec<u8>)
    ensures
        r@ == vstd::utf8::encode_utf8(s@),
{
    s.into_bytes()
}

/// Relies on String::from_utf8: `Ok` exactly on valid UTF-8 — the
/// bytes some character sequence encodes to — giving the decoded
/// string; on failure the original bytes come back.
#[verifier::external_body]
fn string_from_utf8(v: Vec<u8>) -> (r: Result<String, Vec<u8>>)
    ensures
        match r {
            Ok(s) => vstd::utf8::encode_utf8(s@) == v@,
            Err(w) => w@ == v@,
        },
        (exists|cs: Seq<char>| vstd::utf8::encode_utf8(cs) == v@) ==> r is Ok,
{
    match String::from_utf8(v) {
        Ok(s) => Ok(s),
        Err(e) => Err(e.into_bytes()),
    }
}

/// Relies on Vec::capacity: never below the length.
#[verifier::external_body]
fn vec_capacity(v: &Vec<u8>) -> (r: usize)
    ensures
        r >= v@.len(),
{
    v.capacity()
}

/// Relies on Vec::reserve_exact: the contents are untouched.
#[verifier::external_body]
fn vec_reserve_exact(v: &mut Vec<u8>, additional: usize)
    ensures
        final(v)@ == old(v)@,
{
    v.reserve_exact(additional)
}

/// Relies on Vec::shrink_to_fit: the contents are untouched.
#[verifier::external_body]
fn vec_shrink_to_fit(v: &mut Vec<u8>)
    ensures
        final(v)@ == old(v)@,
{
    v.shrink_to_fit()
}

impl Buf {
    /// Takes a string's bytes as a byte string.
    pub fn from_string(s: String) -> (r: Buf)
        ensures
            r.inner@ == vstd::utf8::encode_utf8(s@),
    {
        Buf { inner: string_into_bytes(s) }
    }

    /// An empty byte string with room for `capacity` bytes.
    pub fn with_capacity(capacity: usize) -> (r: Buf)
        ensures
            r.inner@ == Seq::<u8>::empty(),
    {
        let v: Vec<u8> = Vec::with_capacity(capacity);
        proof {
            assert(v@ =~= Seq::<u8>::empty());
        }
        Buf { inner: v }
    }

    /// Empties the byte string.
    pub fn clear(&mut self)
        ensures
            final(self).inner@ == Seq::<u8>::empty(),
    {
        self.inner.clear();
    }

    /// How many bytes fit without another allocation; never below the
    /// current length.
    pub fn capacity(&self) -> (r: usize)
        ensures
            r >= self.inner@.len(),
    {
        vec_capacity(&self.inner)
    }

    /// Reserves room for at least `additional` more bytes.
    pub fn reserve(&mut self, additional: usize)
        ensures
            final(self).inner@ == old(self).inner@,
    {
        self.inner.reserve(additional);
    }

    /// Reserves room for exactly `additional` more bytes.
    pub fn reserve_exact(&mut self, additional: usize)
        ensures
            final(self).inner@ == old(self).inner@,
    {
        vec_reserve_exact(&mut self.inner, additional);
    }

    /// Gives surplus capacity back.
    pub fn shrink_to_fit(&mut self)
        ensures
            final(self).inner@ == old(self).inner@,
    {
        vec_shrink_to_fit(&mut self.inner);
    }

    /// Turns the byte string back into text, exactly when it is valid
    /// UTF-8; otherwise hands the byte string back unchanged.
    pub fn into_string(self) -> (r: Result<String, Buf>)
        ensures
            match r {
                Ok(s) => vstd::utf8::encode_utf8(s@) == self.inner@,
                Err(b) => b.inner@ == self.inner@,
            },
            (exists|cs: Seq<char>| vstd::utf8::encode_utf8(cs) == self.inner@) ==> r is Ok,
    {
        match string_from_utf8(self.inner) {
            Ok(s) => Ok(s),
            Err(w) => Err(Buf { inner: w }),
        }
    }

    /// Appends a borrowed byte string.
    pub fn push_slice(&mut self, s: &Slice)
        ensures
            final(self).inner@ == old(self).inner@ + s.inner@,
    {
        let mut i: usize = 0;
        while i < s.inner.len()
            invariant
                0 <= i <= s.inner@.len(),
                self.inner@ == old(self).inner@ + s.inner@.take(i as int),
            decreases s.inner@.len() - i,
        {
            self.inner.push(s.inner[i]);
            proof {
                assert(s.inner@.take(i + 1) == s.inner@.take(i as int).push(s.inner@[i as int]));
                assert(old(self).inner@ + s.inner@.take(i + 1) == (old(self).inner@
                    + s.inner@.take(i as int)).push(s.inner@[i as int]));
            }
            i = i + 1;
        }
        proof {
            assert(s.inner@.take(s.inner@.len() as int) == s.inner@);
        }
    }
}

impl Slice {
    /// Copies the borrowed byte string into an owned one.
    pub fn to_owned(&self) -> (r: Buf)
        ensures
            r.inner@ == self.inner@,
    {
        let v = crate::bytes::copy_bytes(&self.inner, 0, self.inner.len());
        proof {
            assert(v@ =~= self.inner@);
        }
        Buf { inner: v }
    }
}

} // verus!
