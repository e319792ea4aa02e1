use crate::binary::decoder::Decoder;
use crate::errors::{RuntimeError, WasmFault};
use crate::structure::values::Byte;
use vstd::prelude::*;

verus! {

impl Decoder for Byte {
    open spec fn decodes(bytes: Seq<u8>, pos: int, n: int, v: u8) -> bool {
        n == 1 && 0 <= pos && pos + 1 <= bytes.len() && v == bytes[pos]
    }

    open spec fn decodable(bytes: Seq<u8>, pos: int) -> bool {
        0 <= pos < bytes.len()
    }

    proof fn lemma_decodes_deterministic(
        bytes: Seq<u8>,
        pos: int,
        n1: int,
        n2: int,
        v1: u8,
        v2: u8,
    ) {
    }

    proof fn lemma_decodes_decodable(bytes: Seq<u8>, pos: int, n: int, v: u8) {
    }

    fn decode(bytes: &Vec<u8>, pos: usize) -> (r: Result<(usize, Byte), RuntimeError>) {
        if pos < bytes.len() {
            Ok((1, Byte(bytes[pos])))
        } else {
            Err(RuntimeError::InvalidWasmError(WasmFault::StreamEnd))
        }
    }
}

} // verus!
