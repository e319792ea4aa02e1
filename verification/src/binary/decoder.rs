use crate::errors::RuntimeError;
use vstd::prelude::*;

verus! {

/// The capability to decode one value of a type from a byte stream.
///
/// `decodes(bytes, pos, n, v)` is the type's decode relation: run at `pos`
/// in `bytes`, the decoder accepts exactly the next `n` bytes and produces
/// a value whose view is `v`. `decodable(bytes, pos)` says some prefix at
/// `pos` is accepted. Implementations prove that the relation is a partial
/// function and that it witnesses decodability, so generic code built on
/// this capability can reason about failure as well as success.
pub trait Decoder: View + Sized {
    /// The decode relation, over the type's mathematical view.
    spec fn decodes(bytes: Seq<u8>, pos: int, n: int, v: Self::V) -> bool;

    /// Some prefix at `pos` decodes to a value of this type.
    spec fn decodable(bytes: Seq<u8>, pos: int) -> bool;

    /// The decode relation accepts at most one prefix and value at a
    /// position.
    proof fn lemma_decodes_deterministic(
        bytes: Seq<u8>,
        pos: int,
        n1: int,
        n2: int,
        v1: Self::V,
        v2: Self::V,
    )
        requires
            Self::decodes(bytes, pos, n1, v1),
            Self::decodes(bytes, pos, n2, v2),
        ensures
            n1 == n2,
            v1 == v2,
    ;

    /// A successful decode witnesses decodability.
    proof fn lemma_decodes_decodable(bytes: Seq<u8>, pos: int, n: int, v: Self::V)
        requires
            Self::decodes(bytes, pos, n, v),
        ensures
            Self::decodable(bytes, pos),
    ;

    /// Decode one value from `bytes` at `pos`, reporting the byte count
    /// consumed. Succeeds exactly on decodable input; on success the
    /// consumed prefix and the result satisfy the decode relation.
    fn decode(bytes: &Vec<u8>, pos: usize) -> (r: Result<(usize, Self), RuntimeError>)
        requires
            pos <= bytes@.len(),
        ensures
            (r matches Ok((n, v)) ==> 1 <= n && pos + n <= bytes@.len() && Self::decodes(
                bytes@,
                pos as int,
                n as int,
                v@,
            )),
            r.is_ok() <==> Self::decodable(bytes@, pos as int),
            (r matches Err(e) ==> e is InvalidWasmError),
    ;
}

} // verus!
