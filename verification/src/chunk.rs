//! A chunk of upload data handed out in pieces of at most 1 MiB, so that
//! the progress of the transfer can be reported piece by piece.
use crate::upload::{next_piece, pieces, PIECE};
use bytes::{Buf, Bytes};
use vstd::prelude::*;

verus! {

#[verifier::external_type_specification]
#[verifier::external_body]
pub struct ExBytes(Bytes);

/// What a `Bytes` holds: its bytes, in order.
pub uninterp spec fn bytes_view(b: Bytes) -> Seq<u8>;

/// `Buf::remaining` of a `Bytes`, which is its length: the number of bytes
/// it holds.
#[verifier::external_body]
fn bytes_remaining(b: &Bytes) -> (n: usize)
    ensures
        n == bytes_view(*b).len(),
{
    b.remaining()
}

/// `Buf::copy_to_bytes` of a `Bytes`, which is its `split_to`: the first
/// `n` bytes come out, the rest stay (it panics past the end, which the
/// `requires` rules out).
#[verifier::external_body]
fn bytes_take(b: &mut Bytes, n: usize) -> (r: Bytes)
    requires
        n <= bytes_view(*old(b)).len(),
    ensures
        bytes_view(r) == bytes_view(*old(b)).subrange(0, n as int),
        bytes_view(*final(b)) == bytes_view(*old(b)).subrange(n as int, bytes_view(*old(b)).len() as int),
{
    b.copy_to_bytes(n)
}

/// The pieces in which the bytes `s` are handed out: `next_piece` of what
/// is left each time (1 MiB, the last one shorter), until nothing is left.
pub open spec fn byte_pieces(s: Seq<u8>) -> Seq<Seq<u8>>
    decreases s.len(),
{
    if s.len() == 0 {
        Seq::<Seq<u8>>::empty()
    } else {
        let k = next_piece(s.len()) as int;
        seq![s.subrange(0, k)] + byte_pieces(s.subrange(k, s.len() as int))
    }
}

/// The pieces put back together, in order.
pub open spec fn joined(ps: Seq<Seq<u8>>) -> Seq<u8>
    decreases ps.len(),
{
    if ps.len() == 0 {
        Seq::<u8>::empty()
    } else {
        ps[0] + joined(ps.subrange(1, ps.len() as int))
    }
}

/// The sizes of the pieces.
pub open spec fn piece_sizes(ps: Seq<Seq<u8>>) -> Seq<nat> {
    ps.map_values(|p: Seq<u8>| p.len())
}

/// A chunk of upload data, handed out piece by piece.
pub struct ChunkedBuffer {
    bytes: Bytes,
}

impl View for ChunkedBuffer {
    type V = Seq<u8>;

    /// The bytes not handed out yet.
    closed spec fn view(&self) -> Seq<u8> {
        bytes_view(self.bytes)
    }
}

impl ChunkedBuffer {
    /// A buffer over all of `bytes`.
    pub fn new(bytes: Bytes) -> (r: Self)
        ensures
            r@ == bytes_view(bytes),
    {
        ChunkedBuffer { bytes }
    }

    /// How many bytes are left.
    pub fn remaining(&self) -> (n: usize)
        ensures
            n == self@.len(),
    {
        bytes_remaining(&self.bytes)
    }

    /// The size of the next piece, the one to report before it goes out:
    /// 0 when nothing is left.
    pub fn next_len(&self) -> (n: usize)
        ensures
            n == next_piece(self@.len()),
    {
        crate::upload::piece_len(bytes_remaining(&self.bytes))
    }

    /// Hands out the next piece: `None` when nothing is left; else the first
    /// `next_len()` bytes, which leave the buffer.
    pub fn take_piece(&mut self) -> (r: Option<Bytes>)
        ensures
            old(self)@.len() == 0 ==> r is None && final(self)@ == old(self)@,
            old(self)@.len() > 0 ==> (r matches Some(p) && {
                let k = next_piece(old(self)@.len()) as int;
                &&& bytes_view(p) == old(self)@.subrange(0, k)
                &&& final(self)@ == old(self)@.subrange(k, old(self)@.len() as int)
                &&& byte_pieces(old(self)@) == seq![bytes_view(p)] + byte_pieces(final(self)@)
            }),
    {
        let n = crate::upload::piece_len(bytes_remaining(&self.bytes));
        if n == 0 {
            return None;
        }
        let p = bytes_take(&mut self.bytes, n);
        Some(p)
    }
}

/// Handing out pieces until none is left gives back the whole chunk: the
/// pieces, in order, join up to its bytes, and their sizes are the piece
/// sizes of its length (each 1 byte to 1 MiB, together its length).
pub proof fn law_pieces_rebuild_chunk(s: Seq<u8>)
    ensures
        joined(byte_pieces(s)) == s,
        piece_sizes(byte_pieces(s)) == pieces(s.len()),
        forall|i: int|
            0 <= i < byte_pieces(s).len() ==> 0 < #[trigger] byte_pieces(s)[i].len() <= PIECE,
    decreases s.len(),
{
    crate::upload::law_pieces_cover_chunk(s.len());
    if s.len() > 0 {
        let k = next_piece(s.len()) as int;
        let rest = s.subrange(k, s.len() as int);
        law_pieces_rebuild_chunk(rest);
        let ps = byte_pieces(s);
        assert(ps.subrange(1, ps.len() as int) =~= byte_pieces(rest));
        assert(s =~= s.subrange(0, k) + rest);
        assert(piece_sizes(ps) =~= pieces(s.len()));
        assert forall|i: int| 0 <= i < ps.len() implies 0 < #[trigger] ps[i].len() <= PIECE by {
            if i > 0 {
                assert(ps[i] == byte_pieces(rest)[i - 1]);
            }
        }
    }
}

} // verus!
