use crate::binary::decoder::Decoder;
use crate::errors::{RuntimeError, WasmFault};
use crate::leb128;
use crate::leb128::decode::{
    lemma_sleb32_len_unique, lemma_uleb32_len_unique, sleb32_bits, sleb32_len_at, uleb32_len_at,
    uleb_val,
};
use crate::structure::instructions::{Expr, Instr};
use crate::structure::modules::LocalIdx;
use vstd::prelude::*;

verus! {

/// One instruction decodes at `pos`, consuming `k` bytes: a recognized
/// opcode byte, then its immediate operand if it has one.
pub open spec fn instr_decodes(bytes: Seq<u8>, pos: int, k: int, i: Instr) -> bool {
    &&& 0 <= pos < bytes.len()
    &&& {
        let op = bytes[pos];
        if op == 0x20 {
            exists|m: int|
                {
                    &&& #[trigger] uleb32_len_at(bytes, pos + 1, m)
                    &&& k == 1 + m
                    &&& i matches Instr::LocalGet(li) && li.0 as nat == uleb_val(
                        bytes.subrange(pos + 1, pos + 1 + m),
                    )
                }
        } else if op == 0x21 {
            exists|m: int|
                {
                    &&& #[trigger] uleb32_len_at(bytes, pos + 1, m)
                    &&& k == 1 + m
                    &&& i matches Instr::LocalSet(li) && li.0 as nat == uleb_val(
                        bytes.subrange(pos + 1, pos + 1 + m),
                    )
                }
        } else if op == 0x41 {
            exists|m: int|
                {
                    &&& #[trigger] sleb32_len_at(bytes, pos + 1, m)
                    &&& k == 1 + m
                    &&& i matches Instr::I32Const(c) && (c as u32) as int == sleb32_bits(
                        bytes.subrange(pos + 1, pos + 1 + m),
                    )
                }
        } else if op == 0x6a {
            k == 1 && i == Instr::I32Add
        } else if op == 0x6b {
            k == 1 && i == Instr::I32Sub
        } else if op == 0x6c {
            k == 1 && i == Instr::I32Mul
        } else {
            false
        }
    }
}

/// The opcodes of the supported instruction set (the end marker aside).
pub open spec fn recognized_opcode(op: u8) -> bool {
    op == 0x20 || op == 0x21 || op == 0x41 || op == 0x6a || op == 0x6b || op == 0x6c
}

/// Some instruction decodes at `pos`.
pub open spec fn instr_decodable(bytes: Seq<u8>, pos: int) -> bool {
    &&& 0 <= pos < bytes.len()
    &&& {
        let op = bytes[pos];
        if op == 0x20 || op == 0x21 {
            exists|m: int| #[trigger] uleb32_len_at(bytes, pos + 1, m)
        } else if op == 0x41 {
            exists|m: int| #[trigger] sleb32_len_at(bytes, pos + 1, m)
        } else {
            op == 0x6a || op == 0x6b || op == 0x6c
        }
    }
}

/// At most one instruction decodes at a position.
pub proof fn lemma_instr_decodes_deterministic(
    bytes: Seq<u8>,
    pos: int,
    k1: int,
    k2: int,
    i1: Instr,
    i2: Instr,
)
    requires
        instr_decodes(bytes, pos, k1, i1),
        instr_decodes(bytes, pos, k2, i2),
    ensures
        k1 == k2,
        i1 == i2,
{
    let op = bytes[pos];
    if op == 0x20 || op == 0x21 {
        let m1 = choose|m: int| #[trigger] uleb32_len_at(bytes, pos + 1, m) && k1 == 1 + m;
        let m2 = choose|m: int| #[trigger] uleb32_len_at(bytes, pos + 1, m) && k2 == 1 + m;
        lemma_uleb32_len_unique(bytes, pos + 1, m1, m2);
    } else if op == 0x41 {
        let m1 = choose|m: int| #[trigger] sleb32_len_at(bytes, pos + 1, m) && k1 == 1 + m;
        let m2 = choose|m: int| #[trigger] sleb32_len_at(bytes, pos + 1, m) && k2 == 1 + m;
        lemma_sleb32_len_unique(bytes, pos + 1, m1, m2);
        let c1 = i1->I32Const_0;
        let c2 = i2->I32Const_0;
        assert(c1 == c2) by (bit_vector)
            requires
                c1 as u32 == c2 as u32,
        ;
    }
}

/// A decoded instruction witnesses that one decodes there.
pub proof fn lemma_instr_decodes_decodable(bytes: Seq<u8>, pos: int, k: int, i: Instr)
    requires
        instr_decodes(bytes, pos, k, i),
    ensures
        instr_decodable(bytes, pos),
{
}

/// A run of instructions with no end marker: `instrs` decode one after the
/// other at `pos`, consuming `n` bytes in all.
pub open spec fn instrs_decodes(bytes: Seq<u8>, pos: int, n: int, instrs: Seq<Instr>) -> bool
    decreases instrs.len(),
{
    if instrs.len() == 0 {
        n == 0
    } else {
        exists|k: int|
            {
                &&& 1 <= k
                &&& #[trigger] instr_decodes(bytes, pos, k, instrs[0])
                &&& instrs_decodes(bytes, pos + k, n - k, instrs.drop_first())
            }
    }
}

/// Extending a run of instructions by one decoded at its end.
pub proof fn lemma_instrs_decodes_snoc(
    bytes: Seq<u8>,
    pos: int,
    n: int,
    instrs: Seq<Instr>,
    k: int,
    i: Instr,
)
    requires
        instrs_decodes(bytes, pos, n, instrs),
        instr_decodes(bytes, pos + n, k, i),
        1 <= k,
    ensures
        instrs_decodes(bytes, pos, n + k, instrs.push(i)),
    decreases instrs.len(),
{
    if instrs.len() == 0 {
        assert(n == 0);
        assert(instrs.push(i)[0] == i);
        assert(instr_decodes(bytes, pos, k, instrs.push(i)[0]));
        assert(instrs.push(i).drop_first() =~= Seq::<Instr>::empty());
        assert(instrs_decodes(bytes, pos + k, n + k - k, instrs.push(i).drop_first()));
    } else {
        let k0 = choose|k0: int|
            {
                &&& 1 <= k0
                &&& #[trigger] instr_decodes(bytes, pos, k0, instrs[0])
                &&& instrs_decodes(bytes, pos + k0, n - k0, instrs.drop_first())
            };
        lemma_instrs_decodes_snoc(bytes, pos + k0, n - k0, instrs.drop_first(), k, i);
        assert(instrs.push(i).drop_first() =~= instrs.drop_first().push(i));
        assert(instrs.push(i)[0] == instrs[0]);
        assert(instr_decodes(bytes, pos, k0, instrs.push(i)[0]));
        assert(instrs_decodes(bytes, pos + k0, n + k - k0, instrs.push(i).drop_first()));
    }
}

/// An expression decodes at `pos`, consuming `n` bytes: a run of
/// instructions, closed by the end marker, which is consumed but not kept.
pub open spec fn expr_decodes(bytes: Seq<u8>, pos: int, n: int, instrs: Seq<Instr>) -> bool
    decreases bytes.len() - pos,
{
    if n <= 0 || !(0 <= pos < bytes.len()) {
        false
    } else if bytes[pos] == 0x0b {
        n == 1 && instrs.len() == 0
    } else {
        &&& instrs.len() >= 1
        &&& exists|k: int|
            {
                &&& 1 <= k
                &&& #[trigger] instr_decodes(bytes, pos, k, instrs[0])
                &&& expr_decodes(bytes, pos + k, n - k, instrs.drop_first())
            }
    }
}

/// An expression decodes at `pos`: instructions follow until an end marker.
pub open spec fn expr_decodable(bytes: Seq<u8>, pos: int) -> bool
    decreases bytes.len() - pos,
{
    if !(0 <= pos < bytes.len()) {
        false
    } else if bytes[pos] == 0x0b {
        true
    } else {
        &&& instr_decodable(bytes, pos)
        &&& forall|k: int, i: Instr|
            #[trigger] instr_decodes(bytes, pos, k, i) && 1 <= k ==> expr_decodable(bytes, pos + k)
    }
}

/// A run of instructions followed by an end marker forms an expression.
pub proof fn lemma_instrs_to_expr(bytes: Seq<u8>, pos: int, n: int, instrs: Seq<Instr>)
    requires
        instrs_decodes(bytes, pos, n, instrs),
        0 <= pos,
        pos + n < bytes.len(),
        bytes[pos + n] == 0x0b,
    ensures
        expr_decodes(bytes, pos, n + 1, instrs),
    decreases instrs.len(),
{
    if instrs.len() == 0 {
    } else {
        let k0 = choose|k0: int|
            {
                &&& 1 <= k0
                &&& #[trigger] instr_decodes(bytes, pos, k0, instrs[0])
                &&& instrs_decodes(bytes, pos + k0, n - k0, instrs.drop_first())
            };
        assert(bytes[pos] != 0x0b);
        lemma_instrs_to_expr(bytes, pos + k0, n - k0, instrs.drop_first());
    }
}

/// A decoded expression witnesses that one decodes there.
pub proof fn lemma_expr_decodes_decodable(bytes: Seq<u8>, pos: int, n: int, instrs: Seq<Instr>)
    requires
        expr_decodes(bytes, pos, n, instrs),
    ensures
        expr_decodable(bytes, pos),
    decreases bytes.len() - pos,
{
    if bytes[pos] == 0x0b {
    } else {
        let k0 = choose|k0: int|
            {
                &&& 1 <= k0
                &&& #[trigger] instr_decodes(bytes, pos, k0, instrs[0])
                &&& expr_decodes(bytes, pos + k0, n - k0, instrs.drop_first())
            };
        lemma_instr_decodes_decodable(bytes, pos, k0, instrs[0]);
        lemma_expr_decodes_decodable(bytes, pos + k0, n - k0, instrs.drop_first());
        assert forall|k: int, i: Instr|
            #[trigger] instr_decodes(bytes, pos, k, i) && 1 <= k implies expr_decodable(
            bytes,
            pos + k,
        ) by {
            lemma_instr_decodes_deterministic(bytes, pos, k, k0, i, instrs[0]);
        }
    }
}

/// A stream whose next byte is neither the end marker nor a supported
/// opcode cannot decode as an expression: the decoder stops with an error
/// rather than skipping the instruction.
pub proof fn lemma_unknown_opcode_rejected(bytes: Seq<u8>, pos: int)
    requires
        0 <= pos < bytes.len(),
        bytes[pos] != 0x0b,
        bytes[pos] != 0x20,
        bytes[pos] != 0x21,
        bytes[pos] != 0x41,
        bytes[pos] != 0x6a,
        bytes[pos] != 0x6b,
        bytes[pos] != 0x6c,
    ensures
        !expr_decodable(bytes, pos),
        forall|n: int, instrs: Seq<Instr>| !(#[trigger] expr_decodes(bytes, pos, n, instrs)),
{
    assert(!instr_decodable(bytes, pos));
    assert forall|n: int, instrs: Seq<Instr>| !(#[trigger] expr_decodes(bytes, pos, n, instrs)) by {
        if expr_decodes(bytes, pos, n, instrs) {
            let k0 = choose|k: int|
                {
                    &&& 1 <= k
                    &&& #[trigger] instr_decodes(bytes, pos, k, instrs[0])
                    &&& expr_decodes(bytes, pos + k, n - k, instrs.drop_first())
                };
            assert(false);
        }
    }
}

impl Decoder for Expr {
    open spec fn decodes(bytes: Seq<u8>, pos: int, n: int, v: Seq<Instr>) -> bool {
        expr_decodes(bytes, pos, n, v)
    }

    open spec fn decodable(bytes: Seq<u8>, pos: int) -> bool {
        expr_decodable(bytes, pos)
    }

    proof fn lemma_decodes_deterministic(
        bytes: Seq<u8>,
        pos: int,
        n1: int,
        n2: int,
        v1: Seq<Instr>,
        v2: Seq<Instr>,
    ) {
        lemma_expr_decodes_deterministic(bytes, pos, n1, n2, v1, v2);
    }

    proof fn lemma_decodes_decodable(bytes: Seq<u8>, pos: int, n: int, v: Seq<Instr>) {
        lemma_expr_decodes_decodable(bytes, pos, n, v);
    }

    #[verifier::rlimit(60)]
    fn decode(bytes: &Vec<u8>, pos: usize) -> (r: Result<(usize, Expr), RuntimeError>)
        ensures
            pos < bytes@.len() && bytes@[pos as int] != 0x0b && !recognized_opcode(
                bytes@[pos as int],
            ) ==> r == Err::<(usize, Expr), RuntimeError>(
                RuntimeError::InvalidWasmError(WasmFault::Opcode),
            ),
    {
        let len = bytes.len();
        let mut instrs: Vec<Instr> = Vec::new();
        let mut cur: usize = pos;
        loop
            invariant
                len == bytes@.len(),
                pos <= cur <= len,
                instrs_decodes(bytes@, pos as int, cur - pos, instrs@),
                expr_decodable(bytes@, pos as int) ==> expr_decodable(bytes@, cur as int),
                cur != pos ==> !(pos < bytes@.len() && bytes@[pos as int] != 0x0b
                    && !recognized_opcode(bytes@[pos as int])),
            decreases len - cur,
        {
            if cur >= len {
                proof {
                    assert(!expr_decodable(bytes@, cur as int));
                    assert(!expr_decodable(bytes@, pos as int));
                    assert(!<Expr as Decoder>::decodable(bytes@, pos as int));
                }
                return Err(RuntimeError::InvalidWasmError(WasmFault::StreamEnd));
            }
            let op = bytes[cur];
            if op == 0x0b {
                proof {
                    lemma_instrs_to_expr(bytes@, pos as int, cur - pos, instrs@);
                    lemma_expr_decodes_decodable(bytes@, pos as int, cur - pos + 1, instrs@);
                    assert(<Expr as Decoder>::decodable(bytes@, pos as int));
                    assert(<Expr as Decoder>::decodes(
                        bytes@,
                        pos as int,
                        cur - pos + 1,
                        instrs@,
                    ));
                }
                return Ok((cur - pos + 1, Expr(instrs)));
            }
            let ghost old_instrs = instrs@;
            let ghost old_cur = cur as int;
            let (k, instr) = if op == 0x20 || op == 0x21 {
                match leb128::decode::u32(bytes, cur + 1) {
                    Ok((m, idx)) => {
                        let i = if op == 0x20 {
                            Instr::LocalGet(LocalIdx(idx))
                        } else {
                            Instr::LocalSet(LocalIdx(idx))
                        };
                        proof {
                            assert(instr_decodes(bytes@, cur as int, 1 + m, i));
                        }
                        (1 + m, i)
                    },
                    Err(leb128::decode::Error::IoError) => {
                        proof {
                            assert(!instr_decodable(bytes@, cur as int));
                            assert(!expr_decodable(bytes@, cur as int));
                            assert(!expr_decodable(bytes@, pos as int));
                            assert(!<Expr as Decoder>::decodable(bytes@, pos as int));
                        }
                        return Err(RuntimeError::InvalidWasmError(WasmFault::StreamEnd));
                    },
                    Err(leb128::decode::Error::Overflow) => {
                        proof {
                            assert(!instr_decodable(bytes@, cur as int));
                            assert(!expr_decodable(bytes@, cur as int));
                            assert(!expr_decodable(bytes@, pos as int));
                            assert(!<Expr as Decoder>::decodable(bytes@, pos as int));
                        }
                        return Err(RuntimeError::InvalidWasmError(WasmFault::IntOverflow));
                    },
                }
            } else if op == 0x41 {
                match leb128::decode::i32(bytes, cur + 1) {
                    Ok((m, num)) => {
                        let i = Instr::I32Const(num);
                        proof {
                            assert(instr_decodes(bytes@, cur as int, 1 + m, i));
                        }
                        (1 + m, i)
                    },
                    Err(leb128::decode::Error::IoError) => {
                        proof {
                            assert(!instr_decodable(bytes@, cur as int));
                            assert(!expr_decodable(bytes@, cur as int));
                            assert(!expr_decodable(bytes@, pos as int));
                            assert(!<Expr as Decoder>::decodable(bytes@, pos as int));
                        }
                        return Err(RuntimeError::InvalidWasmError(WasmFault::StreamEnd));
                    },
                    Err(leb128::decode::Error::Overflow) => {
                        proof {
                            assert(!instr_decodable(bytes@, cur as int));
                            assert(!expr_decodable(bytes@, cur as int));
                            assert(!expr_decodable(bytes@, pos as int));
                            assert(!<Expr as Decoder>::decodable(bytes@, pos as int));
                        }
                        return Err(RuntimeError::InvalidWasmError(WasmFault::IntOverflow));
                    },
                }
            } else if op == 0x6a {
                (1, Instr::I32Add)
            } else if op == 0x6b {
                (1, Instr::I32Sub)
            } else if op == 0x6c {
                (1, Instr::I32Mul)
            } else {
                // a closed instruction set: an unknown opcode is a hard stop
                proof {
                    assert(!instr_decodable(bytes@, cur as int));
                    assert(!expr_decodable(bytes@, cur as int));
                    assert(!expr_decodable(bytes@, pos as int));
                    assert(!<Expr as Decoder>::decodable(bytes@, pos as int));
                }
                return Err(RuntimeError::InvalidWasmError(WasmFault::Opcode));
            };
            proof {
                assert(instr_decodes(bytes@, old_cur, k as int, instr));
                lemma_instrs_decodes_snoc(
                    bytes@,
                    pos as int,
                    old_cur - pos,
                    old_instrs,
                    k as int,
                    instr,
                );
            }
            instrs.push(instr);
            cur = cur + k;
            proof {
                assert(instrs@ =~= old_instrs.push(instr));
            }
        }
    }
}

/// At most one expression decodes at a position.
pub proof fn lemma_expr_decodes_deterministic(
    bytes: Seq<u8>,
    pos: int,
    n1: int,
    n2: int,
    v1: Seq<Instr>,
    v2: Seq<Instr>,
)
    requires
        expr_decodes(bytes, pos, n1, v1),
        expr_decodes(bytes, pos, n2, v2),
    ensures
        n1 == n2,
        v1 == v2,
    decreases bytes.len() - pos,
{
    if bytes[pos] == 0x0b {
        assert(v1 =~= v2);
    } else {
        let k1 = choose|k: int|
            {
                &&& 1 <= k
                &&& #[trigger] instr_decodes(bytes, pos, k, v1[0])
                &&& expr_decodes(bytes, pos + k, n1 - k, v1.drop_first())
            };
        let k2 = choose|k: int|
            {
                &&& 1 <= k
                &&& #[trigger] instr_decodes(bytes, pos, k, v2[0])
                &&& expr_decodes(bytes, pos + k, n2 - k, v2.drop_first())
            };
        lemma_instr_decodes_deterministic(bytes, pos, k1, k2, v1[0], v2[0]);
        lemma_expr_decodes_deterministic(
            bytes,
            pos + k1,
            n1 - k1,
            n2 - k1,
            v1.drop_first(),
            v2.drop_first(),
        );
        assert forall|i: int| 0 <= i < v1.len() implies v1[i] == v2[i] by {
            if i > 0 {
                assert(v1.drop_first()[i - 1] == v2.drop_first()[i - 1]);
            }
        }
        assert(v1 =~= v2);
    }
}

} // verus!
