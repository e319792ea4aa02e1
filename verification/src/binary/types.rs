use crate::binary::conventions::{
    lemma_vec_decodes_deterministic, Vectors,
};
use crate::binary::decoder::Decoder;
use crate::binary::instructions::{
    expr_decodable, expr_decodes, lemma_expr_decodes_decodable, lemma_expr_decodes_deterministic,
};
use crate::binary::modules::Locals;
use crate::errors::{RuntimeError, WasmFault};
use crate::leb128;
use crate::leb128::decode::{lemma_uleb32_len_unique, uleb32_len_at, uleb_val};
use crate::structure::instructions::Expr;
use crate::structure::modules::{Func, FuncV, TypeIdx};
use crate::structure::types::{FuncType, FuncTypeV, NumType, ResultType, ValType};
use vstd::prelude::*;

verus! {

/// The number type a value-type byte denotes, if any.
pub open spec fn num_type_of(b: u8) -> Option<NumType> {
    if b == 0x7f {
        Some(NumType::I32)
    } else if b == 0x7e {
        Some(NumType::I64)
    } else if b == 0x7d {
        Some(NumType::F32)
    } else if b == 0x7c {
        Some(NumType::F64)
    } else {
        None
    }
}

impl Decoder for ValType {
    open spec fn decodes(bytes: Seq<u8>, pos: int, n: int, v: ValType) -> bool {
        &&& n == 1
        &&& 0 <= pos < bytes.len()
        &&& num_type_of(bytes[pos]) matches Some(nt) && v == ValType::NumType(nt)
    }

    open spec fn decodable(bytes: Seq<u8>, pos: int) -> bool {
        0 <= pos < bytes.len() && num_type_of(bytes[pos]) is Some
    }

    proof fn lemma_decodes_deterministic(
        bytes: Seq<u8>,
        pos: int,
        n1: int,
        n2: int,
        v1: ValType,
        v2: ValType,
    ) {
    }

    proof fn lemma_decodes_decodable(bytes: Seq<u8>, pos: int, n: int, v: ValType) {
    }

    fn decode(bytes: &Vec<u8>, pos: usize) -> (r: Result<(usize, ValType), RuntimeError>) {
        if pos >= bytes.len() {
            return Err(RuntimeError::InvalidWasmError(WasmFault::StreamEnd));
        }
        let b = bytes[pos];
        let nt = if b == 0x7f {
            NumType::I32
        } else if b == 0x7e {
            NumType::I64
        } else if b == 0x7d {
            NumType::F32
        } else if b == 0x7c {
            NumType::F64
        } else {
            return Err(RuntimeError::InvalidWasmError(WasmFault::NumType));
        };
        Ok((1, ValType::NumType(nt)))
    }
}

impl Decoder for ResultType {
    open spec fn decodes(bytes: Seq<u8>, pos: int, n: int, v: Seq<ValType>) -> bool {
        Vectors::<ValType>::decodes(bytes, pos, n, v)
    }

    open spec fn decodable(bytes: Seq<u8>, pos: int) -> bool {
        Vectors::<ValType>::decodable(bytes, pos)
    }

    proof fn lemma_decodes_deterministic(
        bytes: Seq<u8>,
        pos: int,
        n1: int,
        n2: int,
        v1: Seq<ValType>,
        v2: Seq<ValType>,
    ) {
        crate::binary::conventions::lemma_vec_decodes_deterministic::<ValType>(
            bytes,
            pos + 1,
            bytes[pos] as int,
            n1 - 1,
            n2 - 1,
            v1,
            v2,
        );
    }

    proof fn lemma_decodes_decodable(bytes: Seq<u8>, pos: int, n: int, v: Seq<ValType>) {
        crate::binary::conventions::lemma_vec_decodes_decodable::<ValType>(
            bytes,
            pos + 1,
            bytes[pos] as int,
            n - 1,
            v,
        );
    }

    fn decode(bytes: &Vec<u8>, pos: usize) -> (r: Result<(usize, ResultType), RuntimeError>) {
        match Vectors::<ValType>::decode(bytes, pos) {
            Ok((n, res)) => {
                proof {
                    // a value type's view is itself, so the vector's view is
                    // its element sequence
                    assert(res@ =~= res.0@);
                }
                Ok((n, ResultType(res.0)))
            },
            Err(e) => Err(e),
        }
    }
}

impl Decoder for FuncType {
    open spec fn decodes(bytes: Seq<u8>, pos: int, n: int, v: FuncTypeV) -> bool {
        &&& 0 <= pos < bytes.len()
        &&& bytes[pos] == 0x60
        &&& exists|n1: int, n2: int|
            {
                &&& #[trigger] ResultType::decodes(bytes, pos + 1, n1, v.params)
                &&& #[trigger] ResultType::decodes(bytes, pos + 1 + n1, n2, v.results)
                &&& n == 1 + n1 + n2
            }
    }

    open spec fn decodable(bytes: Seq<u8>, pos: int) -> bool {
        &&& 0 <= pos < bytes.len()
        &&& bytes[pos] == 0x60
        &&& ResultType::decodable(bytes, pos + 1)
        &&& forall|n1: int, p: Seq<ValType>|
            #[trigger] ResultType::decodes(bytes, pos + 1, n1, p) ==> ResultType::decodable(
                bytes,
                pos + 1 + n1,
            )
    }

    proof fn lemma_decodes_deterministic(
        bytes: Seq<u8>,
        pos: int,
        n1: int,
        n2: int,
        v1: FuncTypeV,
        v2: FuncTypeV,
    ) {
        let (a1, b1) = choose|a: int, b: int|
            {
                &&& #[trigger] ResultType::decodes(bytes, pos + 1, a, v1.params)
                &&& #[trigger] ResultType::decodes(bytes, pos + 1 + a, b, v1.results)
                &&& n1 == 1 + a + b
            };
        let (a2, b2) = choose|a: int, b: int|
            {
                &&& #[trigger] ResultType::decodes(bytes, pos + 1, a, v2.params)
                &&& #[trigger] ResultType::decodes(bytes, pos + 1 + a, b, v2.results)
                &&& n2 == 1 + a + b
            };
        ResultType::lemma_decodes_deterministic(bytes, pos + 1, a1, a2, v1.params, v2.params);
        ResultType::lemma_decodes_deterministic(
            bytes,
            pos + 1 + a1,
            b1,
            b2,
            v1.results,
            v2.results,
        );
        assert(v1 =~= v2);
    }

    proof fn lemma_decodes_decodable(bytes: Seq<u8>, pos: int, n: int, v: FuncTypeV) {
        let (a1, b1) = choose|a: int, b: int|
            {
                &&& #[trigger] ResultType::decodes(bytes, pos + 1, a, v.params)
                &&& #[trigger] ResultType::decodes(bytes, pos + 1 + a, b, v.results)
                &&& n == 1 + a + b
            };
        ResultType::lemma_decodes_decodable(bytes, pos + 1, a1, v.params);
        assert forall|m: int, p: Seq<ValType>|
            #[trigger] ResultType::decodes(bytes, pos + 1, m, p) implies ResultType::decodable(
            bytes,
            pos + 1 + m,
        ) by {
            ResultType::lemma_decodes_deterministic(bytes, pos + 1, m, a1, p, v.params);
            ResultType::lemma_decodes_decodable(bytes, pos + 1 + a1, b1, v.results);
        }
    }

    fn decode(bytes: &Vec<u8>, pos: usize) -> (r: Result<(usize, FuncType), RuntimeError>) {
        if pos >= bytes.len() {
            return Err(RuntimeError::InvalidWasmError(WasmFault::StreamEnd));
        }
        if bytes[pos] != 0x60 {
            return Err(RuntimeError::InvalidWasmError(WasmFault::FuncTypeTag));
        }
        let (n1, params) = match ResultType::decode(bytes, pos + 1) {
            Ok(p) => p,
            Err(e) => {
                return Err(e);
            },
        };
        let (n2, results) = match ResultType::decode(bytes, pos + 1 + n1) {
            Ok(p) => p,
            Err(e) => {
                proof {
                    assert forall|m: int, p: Seq<ValType>| !(#[trigger] ResultType::decodes(
                        bytes@,
                        pos + 1,
                        m,
                        p,
                    ) && ResultType::decodable(bytes@, pos + 1 + m)) by {
                        if ResultType::decodes(bytes@, pos + 1, m, p) {
                            ResultType::lemma_decodes_deterministic(
                                bytes@,
                                pos + 1,
                                m,
                                n1 as int,
                                p,
                                params@,
                            );
                        }
                    }
                }
                return Err(e);
            },
        };
        let ft = FuncType(params, results);
        proof {
            assert(ResultType::decodes(bytes@, pos + 1, n1 as int, ft@.params));
            assert(ResultType::decodes(bytes@, pos + 1 + n1, n2 as int, ft@.results));
            assert forall|m: int, p: Seq<ValType>|
                #[trigger] ResultType::decodes(bytes@, pos + 1, m, p) implies ResultType::decodable(
                bytes@,
                pos + 1 + m,
            ) by {
                ResultType::lemma_decodes_deterministic(bytes@, pos + 1, m, n1 as int, p, params@);
            }
        }
        Ok((1 + n1 + n2, ft))
    }
}

impl Decoder for TypeIdx {
    open spec fn decodes(bytes: Seq<u8>, pos: int, n: int, v: TypeIdx) -> bool {
        &&& uleb32_len_at(bytes, pos, n)
        &&& v.0 as nat == uleb_val(bytes.subrange(pos, pos + n))
    }

    open spec fn decodable(bytes: Seq<u8>, pos: int) -> bool {
        exists|n: int| uleb32_len_at(bytes, pos, n)
    }

    proof fn lemma_decodes_deterministic(
        bytes: Seq<u8>,
        pos: int,
        n1: int,
        n2: int,
        v1: TypeIdx,
        v2: TypeIdx,
    ) {
        lemma_uleb32_len_unique(bytes, pos, n1, n2);
    }

    proof fn lemma_decodes_decodable(bytes: Seq<u8>, pos: int, n: int, v: TypeIdx) {
    }

    fn decode(bytes: &Vec<u8>, pos: usize) -> (r: Result<(usize, TypeIdx), RuntimeError>) {
        match leb128::decode::u32(bytes, pos) {
            Ok((n, idx)) => Ok((n, TypeIdx(idx))),
            Err(leb128::decode::Error::IoError) => Err(
                RuntimeError::InvalidWasmError(WasmFault::StreamEnd),
            ),
            Err(leb128::decode::Error::Overflow) => Err(
                RuntimeError::InvalidWasmError(WasmFault::IntOverflow),
            ),
        }
    }
}

/// The local types a sequence of run-length groups expands to: each group's
/// value type, repeated its count times, in group order.
pub open spec fn expand_locals(gs: Seq<Locals>) -> Seq<ValType>
    decreases gs.len(),
{
    if gs.len() == 0 {
        Seq::empty()
    } else {
        Seq::new(gs[0].0 as nat, |i: int| gs[0].1) + expand_locals(gs.drop_first())
    }
}

/// Expansion distributes over extending the group list at its end.
pub proof fn lemma_expand_locals_snoc(gs: Seq<Locals>, g: Locals)
    ensures
        expand_locals(gs.push(g)) == expand_locals(gs) + Seq::new(g.0 as nat, |i: int| g.1),
    decreases gs.len(),
{
    if gs.len() == 0 {
        assert(gs.push(g).drop_first() =~= Seq::<Locals>::empty());
        assert(gs.push(g)[0] == g);
        assert(expand_locals(gs.push(g)) == Seq::new(g.0 as nat, |i: int| g.1) + expand_locals(
            Seq::<Locals>::empty(),
        ));
        assert(expand_locals(Seq::<Locals>::empty()) =~= Seq::<ValType>::empty());
        assert(expand_locals(gs) =~= Seq::<ValType>::empty());
        assert(expand_locals(gs.push(g)) =~= expand_locals(gs) + Seq::new(g.0 as nat, |i: int| g.1));
    } else {
        assert(gs.push(g).drop_first() =~= gs.drop_first().push(g));
        assert(gs.push(g)[0] == gs[0]);
        lemma_expand_locals_snoc(gs.drop_first(), g);
        assert(expand_locals(gs.push(g)) =~= expand_locals(gs) + Seq::new(g.0 as nat, |i: int| g.1));
    }
}

impl Decoder for Func {
    open spec fn decodes(bytes: Seq<u8>, pos: int, n: int, v: FuncV) -> bool {
        exists|n1: int, n2: int, n3: int, gs: Seq<Locals>|
            #![trigger uleb32_len_at(bytes, pos, n1), Vectors::<Locals>::decodes(bytes, pos + n1, n2, gs), expr_decodes(bytes, pos + n1 + n2, n3, v.body)]
            {
                &&& uleb32_len_at(bytes, pos, n1)
                &&& Vectors::<Locals>::decodes(bytes, pos + n1, n2, gs)
                &&& expr_decodes(bytes, pos + n1 + n2, n3, v.body)
                &&& v.type_ == TypeIdx(0)
                &&& v.locals == expand_locals(gs)
                &&& n == n1 + n2 + n3
            }
    }

    open spec fn decodable(bytes: Seq<u8>, pos: int) -> bool {
        exists|n1: int|
            {
                &&& #[trigger] uleb32_len_at(bytes, pos, n1)
                &&& Vectors::<Locals>::decodable(bytes, pos + n1)
                &&& forall|n2: int, gs: Seq<Locals>|
                    #[trigger] Vectors::<Locals>::decodes(bytes, pos + n1, n2, gs)
                        ==> expr_decodable(bytes, pos + n1 + n2)
            }
    }

    proof fn lemma_decodes_deterministic(
        bytes: Seq<u8>,
        pos: int,
        n1: int,
        n2: int,
        v1: FuncV,
        v2: FuncV,
    ) {
        let (a1, b1, c1, g1): (int, int, int, Seq<Locals>) = choose|
            a: int,
            b: int,
            c: int,
            gs: Seq<Locals>,
        |
            #![trigger uleb32_len_at(bytes, pos, a), Vectors::<Locals>::decodes(bytes, pos + a, b, gs), expr_decodes(bytes, pos + a + b, c, v1.body)]
            {
                &&& uleb32_len_at(bytes, pos, a)
                &&& Vectors::<Locals>::decodes(bytes, pos + a, b, gs)
                &&& expr_decodes(bytes, pos + a + b, c, v1.body)
                &&& v1.type_ == TypeIdx(0)
                &&& v1.locals == expand_locals(gs)
                &&& n1 == a + b + c
            };
        let (a2, b2, c2, g2): (int, int, int, Seq<Locals>) = choose|
            a: int,
            b: int,
            c: int,
            gs: Seq<Locals>,
        |
            #![trigger uleb32_len_at(bytes, pos, a), Vectors::<Locals>::decodes(bytes, pos + a, b, gs), expr_decodes(bytes, pos + a + b, c, v2.body)]
            {
                &&& uleb32_len_at(bytes, pos, a)
                &&& Vectors::<Locals>::decodes(bytes, pos + a, b, gs)
                &&& expr_decodes(bytes, pos + a + b, c, v2.body)
                &&& v2.type_ == TypeIdx(0)
                &&& v2.locals == expand_locals(gs)
                &&& n2 == a + b + c
            };
        lemma_uleb32_len_unique(bytes, pos, a1, a2);
        lemma_vec_decodes_deterministic::<Locals>(
            bytes,
            pos + a1 + 1,
            bytes[pos + a1] as int,
            b1 - 1,
            b2 - 1,
            g1,
            g2,
        );
        lemma_expr_decodes_deterministic(bytes, pos + a1 + b1, c1, c2, v1.body, v2.body);
        assert(v1 =~= v2);
    }

    proof fn lemma_decodes_decodable(bytes: Seq<u8>, pos: int, n: int, v: FuncV) {
        let (a1, b1, c1, g1): (int, int, int, Seq<Locals>) = choose|
            a: int,
            b: int,
            c: int,
            gs: Seq<Locals>,
        |
            #![trigger uleb32_len_at(bytes, pos, a), Vectors::<Locals>::decodes(bytes, pos + a, b, gs), expr_decodes(bytes, pos + a + b, c, v.body)]
            {
                &&& uleb32_len_at(bytes, pos, a)
                &&& Vectors::<Locals>::decodes(bytes, pos + a, b, gs)
                &&& expr_decodes(bytes, pos + a + b, c, v.body)
                &&& v.type_ == TypeIdx(0)
                &&& v.locals == expand_locals(gs)
                &&& n == a + b + c
            };
        crate::binary::conventions::lemma_vec_decodes_decodable::<Locals>(
            bytes,
            pos + a1 + 1,
            bytes[pos + a1] as int,
            b1 - 1,
            g1,
        );
        assert forall|b: int, gs: Seq<Locals>|
            #[trigger] Vectors::<Locals>::decodes(bytes, pos + a1, b, gs) implies expr_decodable(
            bytes,
            pos + a1 + b,
        ) by {
            lemma_vec_decodes_deterministic::<Locals>(
                bytes,
                pos + a1 + 1,
                bytes[pos + a1] as int,
                b - 1,
                b1 - 1,
                gs,
                g1,
            );
            lemma_expr_decodes_decodable(bytes, pos + a1 + b1, c1, v.body);
        }
        assert(Func::decodable(bytes, pos));
    }

    fn decode(bytes: &Vec<u8>, pos: usize) -> (r: Result<(usize, Func), RuntimeError>) {
        let len = bytes.len();
        // the declared body size; the parser trusts the element decoders to
        // consume exactly the right bytes, so the value is unused
        let (n1, _size) = match leb128::decode::u32(bytes, pos) {
            Ok(p) => p,
            Err(leb128::decode::Error::IoError) => {
                return Err(RuntimeError::InvalidWasmError(WasmFault::StreamEnd));
            },
            Err(leb128::decode::Error::Overflow) => {
                return Err(RuntimeError::InvalidWasmError(WasmFault::IntOverflow));
            },
        };
        let (n2, groups) = match Vectors::<Locals>::decode(bytes, pos + n1) {
            Ok(p) => p,
            Err(e) => {
                proof {
                    assert forall|a: int| #[trigger]
                        uleb32_len_at(bytes@, pos as int, a) implies !Vectors::<
                        Locals,
                    >::decodable(bytes@, pos + a) by {
                        lemma_uleb32_len_unique(bytes@, pos as int, a, n1 as int);
                    }
                }
                return Err(e);
            },
        };
        let ghost gsv: Seq<Locals> = groups@;
        proof {
            assert(gsv =~= groups.0@);
        }
        let mut locals: Vec<ValType> = Vec::new();
        let mut gi: usize = 0;
        proof {
            assert(groups.0@.take(0int) =~= Seq::<Locals>::empty());
            assert(locals@ =~= expand_locals(groups.0@.take(0int)));
        }
        while gi < groups.0.len()
            invariant
                gi <= groups.0@.len(),
                gsv == groups.0@,
                locals@ == expand_locals(groups.0@.take(gi as int)),
            decreases groups.0@.len() - gi,
        {
            let count = groups.0[gi].0;
            let vt = groups.0[gi].1;
            let ghost before = locals@;
            let mut j: u32 = 0;
            while j < count
                invariant
                    j <= count,
                    locals@ == before + Seq::new(j as nat, |i: int| vt),
                decreases count - j,
            {
                locals.push(vt);
                j = j + 1;
                proof {
                    assert(locals@ =~= before + Seq::new(j as nat, |i: int| vt));
                }
            }
            proof {
                lemma_expand_locals_snoc(groups.0@.take(gi as int), groups.0@[gi as int]);
                assert(groups.0@.take(gi + 1) =~= groups.0@.take(gi as int).push(
                    groups.0@[gi as int],
                ));
            }
            gi = gi + 1;
        }
        proof {
            assert(groups.0@.take(groups.0@.len() as int) =~= groups.0@);
        }
        let (n3, body) = match Expr::decode(bytes, pos + n1 + n2) {
            Ok(p) => p,
            Err(e) => {
                proof {
                    assert forall|a: int| #[trigger]
                        uleb32_len_at(bytes@, pos as int, a) implies !(Vectors::<
                        Locals,
                    >::decodable(bytes@, pos + a) && (forall|b: int, gs: Seq<Locals>|
                        #[trigger] Vectors::<Locals>::decodes(bytes@, pos + a, b, gs)
                            ==> expr_decodable(bytes@, pos + a + b))) by {
                        lemma_uleb32_len_unique(bytes@, pos as int, a, n1 as int);
                        if Vectors::<Locals>::decodable(bytes@, pos + a) {
                            assert(Vectors::<Locals>::decodes(
                                bytes@,
                                pos + n1,
                                n2 as int,
                                gsv,
                            ));
                        }
                    }
                }
                return Err(e);
            },
        };
        let f = Func { type_: TypeIdx(0), locals, body };
        proof {
            assert(f@.body == body@);
            assert(f@.locals == expand_locals(gsv));
            assert(Func::decodes(bytes@, pos as int, (n1 + n2 + n3) as int, f@));
            Func::lemma_decodes_decodable(bytes@, pos as int, (n1 + n2 + n3) as int, f@);
        }
        Ok((n1 + n2 + n3, f))
    }
}

} // verus!
