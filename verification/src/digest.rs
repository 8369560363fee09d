//! MD5 digests of files that are read piece by piece.

use md5::Digest;
use vstd::prelude::*;

verus! {

/// The hasher of the `md-5` crate.
#[verifier::external_type_specification]
#[verifier::external_body]
pub struct ExMd5(md5::Md5);

/// The bytes that a hasher has taken in so far.
pub uninterp spec fn absorbed(hasher: md5::Md5) -> Seq<u8>;

/// The MD5 digest of bytes.
pub uninterp spec fn md5_of(bytes: Seq<u8>) -> Seq<u8>;

/// Calls `md5::Md5::new`. A new hasher has taken in nothing.
#[verifier::external_body]
fn new_hasher() -> (res: md5::Md5)
    ensures
        absorbed(res) == Seq::<u8>::empty(),
{
    md5::Md5::new()
}

/// Calls `md5::Digest::update`. The hasher takes in the bytes, after those that it has.
#[verifier::external_body]
fn feed(hasher: &mut md5::Md5, bytes: &[u8])
    ensures
        absorbed(*final(hasher)) == absorbed(*old(hasher)) + bytes@,
{
    hasher.update(bytes);
}

/// Calls `md5::Digest::finalize`. The digest has sixteen bytes and is a function of the bytes
/// that the hasher has taken in.
#[verifier::external_body]
fn finalize(hasher: md5::Md5) -> (res: Vec<u8>)
    ensures
        res@ == md5_of(absorbed(hasher)),
        res@.len() == 16,
{
    hasher.finalize().to_vec()
}

/// The digest of a sequence of bytes that comes in pieces.
pub struct Hasher {
    inner: md5::Md5,
}

impl View for Hasher {
    type V = Seq<u8>;

    closed spec fn view(&self) -> Seq<u8> {
        absorbed(self.inner)
    }
}

impl Hasher {
    pub fn new() -> (res: Self)
        ensures
            res@ == Seq::<u8>::empty(),
    {
        Hasher { inner: new_hasher() }
    }

    /// Take in the next piece.
    pub fn update(&mut self, bytes: &[u8])
        ensures
            final(self)@ == old(self)@ + bytes@,
    {
        feed(&mut self.inner, bytes);
    }

    /// The digest of all pieces together.
    pub fn finish(self) -> (res: Vec<u8>)
        ensures
            res@ == md5_of(self@),
            res@.len() == 16,
    {
        finalize(self.inner)
    }
}

} // verus!
