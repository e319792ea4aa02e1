use crate::binary::conventions::{
    lemma_vec_decodes_decodable, lemma_vec_decodes_deterministic, Vectors,
};
use crate::binary::decoder::Decoder;
use crate::errors::{RuntimeError, WasmFault};
use crate::leb128;
use crate::leb128::decode::{lemma_uleb32_len_unique, uleb32_len_at, uleb_val};
use crate::structure::modules::{
    Export, ExportDesc, ExportV, Func, FuncIdx, FuncV, GlobalIdx, MemIdx, Module, ModuleV,
    TableIdx, TypeIdx,
};
use crate::structure::types::{FuncType, FuncTypeV, ValType};
use crate::structure::values::{Byte, Name};
use vstd::prelude::*;
use vstd::utf8::{decode_utf8, valid_utf8};

verus! {

/// One run-length-encoded group of locals in a code entry: a count and the
/// value type repeated that many times.
#[derive(Debug, Clone, Copy, PartialEq)]
pub struct Locals(pub u32, pub ValType);

impl View for Locals {
    type V = Locals;

    open spec fn view(&self) -> Locals {
        *self
    }
}

impl Decoder for Locals {
    open spec fn decodes(bytes: Seq<u8>, pos: int, n: int, v: Locals) -> bool {
        exists|n1: int|
            {
                &&& #[trigger] uleb32_len_at(bytes, pos, n1)
                &&& v.0 as nat == uleb_val(bytes.subrange(pos, pos + n1))
                &&& ValType::decodes(bytes, pos + n1, 1, v.1)
                &&& n == n1 + 1
            }
    }

    open spec fn decodable(bytes: Seq<u8>, pos: int) -> bool {
        exists|n1: int|
            #[trigger] uleb32_len_at(bytes, pos, n1) && ValType::decodable(bytes, pos + n1)
    }

    proof fn lemma_decodes_deterministic(
        bytes: Seq<u8>,
        pos: int,
        n1: int,
        n2: int,
        v1: Locals,
        v2: Locals,
    ) {
        let a1 = choose|a: int| #[trigger] uleb32_len_at(bytes, pos, a) && n1 == a + 1;
        let a2 = choose|a: int| #[trigger] uleb32_len_at(bytes, pos, a) && n2 == a + 1;
        lemma_uleb32_len_unique(bytes, pos, a1, a2);
    }

    proof fn lemma_decodes_decodable(bytes: Seq<u8>, pos: int, n: int, v: Locals) {
    }

    fn decode(bytes: &Vec<u8>, pos: usize) -> (r: Result<(usize, Locals), RuntimeError>) {
        let len = bytes.len();
        let (n1, count) = match leb128::decode::u32(bytes, pos) {
            Ok(p) => p,
            Err(leb128::decode::Error::IoError) => {
                return Err(RuntimeError::InvalidWasmError(WasmFault::StreamEnd));
            },
            Err(leb128::decode::Error::Overflow) => {
                return Err(RuntimeError::InvalidWasmError(WasmFault::IntOverflow));
            },
        };
        match ValType::decode(bytes, pos + n1) {
            Ok((_, t)) => Ok((n1 + 1, Locals(count, t))),
            Err(e) => {
                proof {
                    assert forall|a: int| #[trigger]
                        uleb32_len_at(bytes@, pos as int, a) implies !ValType::decodable(
                        bytes@,
                        pos + a,
                    ) by {
                        lemma_uleb32_len_unique(bytes@, pos as int, a, n1 as int);
                    }
                }
                Err(e)
            },
        }
    }
}

/// The export descriptor a tag byte selects, around the index that follows.
pub open spec fn export_desc_of(tag: u8, idx: u32) -> Option<ExportDesc> {
    if tag == 0x00 {
        Some(ExportDesc::Func(FuncIdx(idx)))
    } else if tag == 0x01 {
        Some(ExportDesc::Table(TableIdx(idx)))
    } else if tag == 0x02 {
        Some(ExportDesc::Mem(MemIdx(idx)))
    } else if tag == 0x03 {
        Some(ExportDesc::Global(GlobalIdx(idx)))
    } else {
        None
    }
}

/// Relies on `String::from_utf8`: it succeeds exactly on valid UTF-8 and
/// returns the string of the bytes' characters, as `vstd::utf8` defines
/// validity and decoding.
#[verifier::external_body]
fn string_from_utf8(bytes: Vec<u8>) -> (r: Option<String>)
    ensures
        r is Some <==> valid_utf8(bytes@),
        (r matches Some(s) ==> s@ == decode_utf8(bytes@)),
{
    String::from_utf8(bytes).ok()
}

impl Decoder for Export {
    open spec fn decodes(bytes: Seq<u8>, pos: int, n: int, v: ExportV) -> bool {
        exists|n1: int, nb: Seq<u8>, n2: int|
            {
                &&& #[trigger] Vectors::<Byte>::decodes(bytes, pos, n1, nb)
                &&& pos + n1 <= bytes.len()
                &&& valid_utf8(nb)
                &&& v.name == decode_utf8(nb)
                &&& pos + n1 < bytes.len()
                &&& #[trigger] uleb32_len_at(bytes, pos + n1 + 1, n2)
                &&& export_desc_of(
                    bytes[pos + n1],
                    uleb_val(bytes.subrange(pos + n1 + 1, pos + n1 + 1 + n2)) as u32,
                ) matches Some(d) && v.desc == d
                &&& uleb_val(bytes.subrange(pos + n1 + 1, pos + n1 + 1 + n2)) < 0x1_0000_0000
                &&& n == n1 + 1 + n2
            }
    }

    open spec fn decodable(bytes: Seq<u8>, pos: int) -> bool {
        exists|n1: int, nb: Seq<u8>|
            {
                &&& #[trigger] Vectors::<Byte>::decodes(bytes, pos, n1, nb)
                &&& pos + n1 <= bytes.len()
                &&& valid_utf8(nb)
                &&& pos + n1 < bytes.len()
                &&& export_desc_of(bytes[pos + n1], 0) is Some
                &&& exists|n2: int| #[trigger] uleb32_len_at(bytes, pos + n1 + 1, n2)
            }
    }

    proof fn lemma_decodes_deterministic(
        bytes: Seq<u8>,
        pos: int,
        n1: int,
        n2: int,
        v1: ExportV,
        v2: ExportV,
    ) {
        let (a1, nb1, b1): (int, Seq<u8>, int) = choose|a: int, nb: Seq<u8>, b: int|
            {
                &&& #[trigger] Vectors::<Byte>::decodes(bytes, pos, a, nb)
                &&& pos + a <= bytes.len()
                &&& valid_utf8(nb)
                &&& v1.name == decode_utf8(nb)
                &&& pos + a < bytes.len()
                &&& #[trigger] uleb32_len_at(bytes, pos + a + 1, b)
                &&& export_desc_of(
                    bytes[pos + a],
                    uleb_val(bytes.subrange(pos + a + 1, pos + a + 1 + b)) as u32,
                ) matches Some(d) && v1.desc == d
                &&& uleb_val(bytes.subrange(pos + a + 1, pos + a + 1 + b)) < 0x1_0000_0000
                &&& n1 == a + 1 + b
            };
        let (a2, nb2, b2): (int, Seq<u8>, int) = choose|a: int, nb: Seq<u8>, b: int|
            {
                &&& #[trigger] Vectors::<Byte>::decodes(bytes, pos, a, nb)
                &&& pos + a <= bytes.len()
                &&& valid_utf8(nb)
                &&& v2.name == decode_utf8(nb)
                &&& pos + a < bytes.len()
                &&& #[trigger] uleb32_len_at(bytes, pos + a + 1, b)
                &&& export_desc_of(
                    bytes[pos + a],
                    uleb_val(bytes.subrange(pos + a + 1, pos + a + 1 + b)) as u32,
                ) matches Some(d) && v2.desc == d
                &&& uleb_val(bytes.subrange(pos + a + 1, pos + a + 1 + b)) < 0x1_0000_0000
                &&& n2 == a + 1 + b
            };
        lemma_vec_decodes_deterministic::<Byte>(
            bytes,
            pos + 1,
            bytes[pos] as int,
            a1 - 1,
            a2 - 1,
            nb1,
            nb2,
        );
        lemma_uleb32_len_unique(bytes, pos + a1 + 1, b1, b2);
        assert(v1 =~= v2);
    }

    proof fn lemma_decodes_decodable(bytes: Seq<u8>, pos: int, n: int, v: ExportV) {
    }

    fn decode(bytes: &Vec<u8>, pos: usize) -> (r: Result<(usize, Export), RuntimeError>)
        ensures
            (exists|n1: int, nb: Seq<u8>|
                #[trigger] Vectors::<Byte>::decodes(bytes@, pos as int, n1, nb) && !valid_utf8(
                    nb,
                )) ==> r == Err::<(usize, Export), RuntimeError>(
                RuntimeError::InvalidWasmError(WasmFault::Utf8),
            ),
            (exists|n1: int, nb: Seq<u8>|
                #[trigger] Vectors::<Byte>::decodes(bytes@, pos as int, n1, nb) && valid_utf8(nb)
                    && pos + n1 < bytes@.len() && bytes@[pos + n1] > 3) ==> r == Err::<
                (usize, Export),
                RuntimeError,
            >(RuntimeError::InvalidWasmError(WasmFault::ExportDesc)),
    {
        let len = bytes.len();
        let (n1, name_bytes) = match Vectors::<Byte>::decode(bytes, pos) {
            Ok(p) => p,
            Err(e) => {
                proof {
                    assert forall|a: int, nb: Seq<u8>| !(#[trigger] Vectors::<Byte>::decodes(
                        bytes@,
                        pos as int,
                        a,
                        nb,
                    )) by {
                        if Vectors::<Byte>::decodes(bytes@, pos as int, a, nb) {
                            lemma_vec_decodes_decodable::<Byte>(
                                bytes@,
                                pos + 1,
                                bytes@[pos as int] as int,
                                a - 1,
                                nb,
                            );
                        }
                    }
                }
                return Err(e);
            },
        };
        let ghost nbv = name_bytes@;
        proof {
            lemma_export_headers_unique(bytes@, pos as int, n1 as int, nbv);
        }
        let mut raw: Vec<u8> = Vec::new();
        let mut bi: usize = 0;
        while bi < name_bytes.0.len()
            invariant
                bi <= name_bytes.0@.len(),
                raw@ == name_bytes@.take(bi as int),
                nbv == name_bytes@,
            decreases name_bytes.0@.len() - bi,
        {
            raw.push(name_bytes.0[bi].0);
            bi = bi + 1;
            proof {
                assert(raw@ =~= name_bytes@.take(bi as int));
            }
        }
        proof {
            assert(raw@ =~= name_bytes@);
        }
        let name = match string_from_utf8(raw) {
            Some(s) => s,
            None => {
                proof {
                    assert forall|a: int, nb: Seq<u8>| !(#[trigger] Vectors::<Byte>::decodes(
                        bytes@,
                        pos as int,
                        a,
                        nb,
                    ) && valid_utf8(nb)) by {
                        if Vectors::<Byte>::decodes(bytes@, pos as int, a, nb) {
                            lemma_vec_decodes_deterministic::<Byte>(
                                bytes@,
                                pos + 1,
                                bytes@[pos as int] as int,
                                a - 1,
                                n1 - 1,
                                nb,
                                nbv,
                            );
                        }
                    }
                }
                return Err(RuntimeError::InvalidWasmError(WasmFault::Utf8));
            },
        };
        if pos + n1 >= len {
            proof {
                lemma_export_headers_unique(bytes@, pos as int, n1 as int, nbv);
            }
            return Err(RuntimeError::InvalidWasmError(WasmFault::StreamEnd));
        }
        let tag = bytes[pos + n1];
        if tag > 0x03 {
            proof {
                lemma_export_headers_unique(bytes@, pos as int, n1 as int, nbv);
            }
            return Err(RuntimeError::InvalidWasmError(WasmFault::ExportDesc));
        }
        let (n2, idx) = match leb128::decode::u32(bytes, pos + n1 + 1) {
            Ok(p) => p,
            Err(e) => {
                proof {
                    lemma_export_headers_unique(bytes@, pos as int, n1 as int, nbv);
                }
                return Err(
                    RuntimeError::InvalidWasmError(
                        match e {
                            leb128::decode::Error::IoError => WasmFault::StreamEnd,
                            leb128::decode::Error::Overflow => WasmFault::IntOverflow,
                        },
                    ),
                );
            },
        };
        let desc = if tag == 0x00 {
            ExportDesc::Func(FuncIdx(idx))
        } else if tag == 0x01 {
            ExportDesc::Table(TableIdx(idx))
        } else if tag == 0x02 {
            ExportDesc::Mem(MemIdx(idx))
        } else {
            ExportDesc::Global(GlobalIdx(idx))
        };
        let e = Export { name: Name(name), desc };
        proof {
            assert(Export::decodes(bytes@, pos as int, (n1 + 1 + n2) as int, e@));
        }
        Ok((n1 + 1 + n2, e))
    }
}

/// Every decode of the export's name vector at `pos` agrees with the one
/// found, so a failure after the name refutes every decode candidate.
proof fn lemma_export_headers_unique(bytes: Seq<u8>, pos: int, n1: int, nbv: Seq<u8>)
    requires
        Vectors::<Byte>::decodes(bytes, pos, n1, nbv),
    ensures
        forall|a: int, nb: Seq<u8>|
            #[trigger] Vectors::<Byte>::decodes(bytes, pos, a, nb) ==> a == n1 && nb == nbv,
{
    assert forall|a: int, nb: Seq<u8>| #[trigger]
        Vectors::<Byte>::decodes(bytes, pos, a, nb) implies a == n1 && nb == nbv by {
        lemma_vec_decodes_deterministic::<Byte>(
            bytes,
            pos + 1,
            bytes[pos] as int,
            a - 1,
            n1 - 1,
            nb,
            nbv,
        );
    }
}

/// The four bytes at `pos` are the module signature.
pub open spec fn magic_at(s: Seq<u8>, pos: int) -> bool {
    &&& 0 <= pos
    &&& pos + 4 <= s.len()
    &&& s[pos] == 0x00
    &&& s[pos + 1] == 0x61
    &&& s[pos + 2] == 0x73
    &&& s[pos + 3] == 0x6d
}

/// The four bytes at `pos` are the supported version.
pub open spec fn version_at(s: Seq<u8>, pos: int) -> bool {
    &&& 0 <= pos
    &&& pos + 4 <= s.len()
    &&& s[pos] == 0x01
    &&& s[pos + 1] == 0x00
    &&& s[pos + 2] == 0x00
    &&& s[pos + 3] == 0x00
}

/// Check the 4-byte module signature at `pos`. A stream whose first four
/// bytes differ from it is rejected here, before any section is read.
pub fn magic(bytes: &Vec<u8>, pos: usize) -> (r: Result<(), RuntimeError>)
    requires
        pos <= bytes@.len(),
    ensures
        r.is_ok() <==> magic_at(bytes@, pos as int),
        (r matches Err(e) ==> e == RuntimeError::InvalidWasmError(WasmFault::Magic)),
{
    if bytes.len() - pos >= 4 && bytes[pos] == 0x00 && bytes[pos + 1] == 0x61 && bytes[pos + 2]
        == 0x73 && bytes[pos + 3] == 0x6d {
        Ok(())
    } else {
        Err(RuntimeError::InvalidWasmError(WasmFault::Magic))
    }
}

/// Check the 4-byte version at `pos`, after the signature.
pub fn version(bytes: &Vec<u8>, pos: usize) -> (r: Result<(), RuntimeError>)
    requires
        pos <= bytes@.len(),
    ensures
        r.is_ok() <==> version_at(bytes@, pos as int),
        (r matches Err(e) ==> e == RuntimeError::InvalidWasmError(WasmFault::Version)),
{
    if bytes.len() - pos >= 4 && bytes[pos] == 0x01 && bytes[pos + 1] == 0x00 && bytes[pos + 2]
        == 0x00 && bytes[pos + 3] == 0x00 {
        Ok(())
    } else {
        Err(RuntimeError::InvalidWasmError(WasmFault::Version))
    }
}

/// The section ids the parser implements.
pub open spec fn recognized_section_id(id: u8) -> bool {
    id == 1 || id == 3 || id == 7 || id == 10
}

/// The code-section entries, each annotated with its positional type index
/// from the function section.
pub open spec fn backfill(funcs: Seq<FuncV>, fi: Seq<TypeIdx>) -> Seq<FuncV> {
    Seq::new(
        funcs.len(),
        |i: int| FuncV { type_: fi[i], locals: funcs[i].locals, body: funcs[i].body },
    )
}

/// One section's payload decodes at `p2`, consuming `n` bytes, and takes the
/// module under assembly from `m0` with pending function indices `fi0` to
/// `m1` with `fi1`. Only the Type, Function, Export and Code sections exist;
/// each replaces its part of the module wholesale.
pub open spec fn section_decodes(
    bytes: Seq<u8>,
    id: u8,
    p2: int,
    m0: ModuleV,
    fi0: Seq<TypeIdx>,
    m1: ModuleV,
    fi1: Seq<TypeIdx>,
    n: int,
) -> bool {
    &&& 1 <= n
    &&& p2 + n <= bytes.len()
    &&& if id == 1 {
        exists|ts: Seq<FuncTypeV>|
            #[trigger] Vectors::<FuncType>::decodes(bytes, p2, n, ts) && m1 == (ModuleV {
                types: ts,
                ..m0
            }) && fi1 == fi0
    } else if id == 3 {
        exists|tis: Seq<TypeIdx>|
            #[trigger] Vectors::<TypeIdx>::decodes(bytes, p2, n, tis) && m1 == m0 && fi1 == tis
    } else if id == 7 {
        exists|es: Seq<ExportV>|
            #[trigger] Vectors::<Export>::decodes(bytes, p2, n, es) && m1 == (ModuleV {
                exports: es,
                ..m0
            }) && fi1 == fi0
    } else if id == 10 {
        exists|fs: Seq<FuncV>|
            #[trigger] Vectors::<Func>::decodes(bytes, p2, n, fs) && fs.len() <= fi0.len() && m1
                == (ModuleV { funcs: backfill(fs, fi0), ..m0 }) && fi1 == fi0
    } else {
        false
    }
}

/// A section id's payload decodes at `p2`, with the code section's count
/// within the pending function indices.
pub open spec fn section_payload_decodable(
    bytes: Seq<u8>,
    id: u8,
    p2: int,
    fi0: Seq<TypeIdx>,
) -> bool {
    if id == 1 {
        Vectors::<FuncType>::decodable(bytes, p2)
    } else if id == 3 {
        Vectors::<TypeIdx>::decodable(bytes, p2)
    } else if id == 7 {
        Vectors::<Export>::decodable(bytes, p2)
    } else if id == 10 {
        &&& Vectors::<Func>::decodable(bytes, p2)
        &&& forall|n: int, fs: Seq<FuncV>|
            #[trigger] Vectors::<Func>::decodes(bytes, p2, n, fs) ==> fs.len() <= fi0.len()
    } else {
        false
    }
}

/// Payload length and resulting function indices are determined by the
/// bytes, whatever module the section is decoded into.
pub proof fn lemma_section_decodes_deterministic(
    bytes: Seq<u8>,
    id: u8,
    p2: int,
    fi0: Seq<TypeIdx>,
    m0a: ModuleV,
    ma: ModuleV,
    fia: Seq<TypeIdx>,
    na: int,
    m0b: ModuleV,
    mb: ModuleV,
    fib: Seq<TypeIdx>,
    nb: int,
)
    requires
        section_decodes(bytes, id, p2, m0a, fi0, ma, fia, na),
        section_decodes(bytes, id, p2, m0b, fi0, mb, fib, nb),
    ensures
        na == nb,
        fia == fib,
{
    if id == 1 {
        let ta = choose|ts: Seq<FuncTypeV>| #[trigger] Vectors::<FuncType>::decodes(
            bytes,
            p2,
            na,
            ts,
        );
        let tb = choose|ts: Seq<FuncTypeV>| #[trigger] Vectors::<FuncType>::decodes(
            bytes,
            p2,
            nb,
            ts,
        );
        lemma_vec_decodes_deterministic::<FuncType>(
            bytes,
            p2 + 1,
            bytes[p2] as int,
            na - 1,
            nb - 1,
            ta,
            tb,
        );
    } else if id == 3 {
        let ta = choose|ts: Seq<TypeIdx>| #[trigger] Vectors::<TypeIdx>::decodes(bytes, p2, na, ts)
            && fia == ts;
        let tb = choose|ts: Seq<TypeIdx>| #[trigger] Vectors::<TypeIdx>::decodes(bytes, p2, nb, ts)
            && fib == ts;
        lemma_vec_decodes_deterministic::<TypeIdx>(
            bytes,
            p2 + 1,
            bytes[p2] as int,
            na - 1,
            nb - 1,
            ta,
            tb,
        );
    } else if id == 7 {
        let ta = choose|ts: Seq<ExportV>| #[trigger] Vectors::<Export>::decodes(bytes, p2, na, ts);
        let tb = choose|ts: Seq<ExportV>| #[trigger] Vectors::<Export>::decodes(bytes, p2, nb, ts);
        lemma_vec_decodes_deterministic::<Export>(
            bytes,
            p2 + 1,
            bytes[p2] as int,
            na - 1,
            nb - 1,
            ta,
            tb,
        );
    } else if id == 10 {
        let ta = choose|ts: Seq<FuncV>| #[trigger] Vectors::<Func>::decodes(bytes, p2, na, ts);
        let tb = choose|ts: Seq<FuncV>| #[trigger] Vectors::<Func>::decodes(bytes, p2, nb, ts);
        lemma_vec_decodes_deterministic::<Func>(
            bytes,
            p2 + 1,
            bytes[p2] as int,
            na - 1,
            nb - 1,
            ta,
            tb,
        );
    }
}

/// A decoded section witnesses that its payload is decodable.
pub proof fn lemma_section_decodes_decodable(
    bytes: Seq<u8>,
    id: u8,
    p2: int,
    m0: ModuleV,
    fi0: Seq<TypeIdx>,
    m1: ModuleV,
    fi1: Seq<TypeIdx>,
    n: int,
)
    requires
        section_decodes(bytes, id, p2, m0, fi0, m1, fi1, n),
    ensures
        section_payload_decodable(bytes, id, p2, fi0),
{
    if id == 1 {
        let ts = choose|ts: Seq<FuncTypeV>| #[trigger] Vectors::<FuncType>::decodes(
            bytes,
            p2,
            n,
            ts,
        );
        lemma_vec_decodes_decodable::<FuncType>(bytes, p2 + 1, bytes[p2] as int, n - 1, ts);
    } else if id == 3 {
        let ts = choose|ts: Seq<TypeIdx>| #[trigger] Vectors::<TypeIdx>::decodes(bytes, p2, n, ts);
        lemma_vec_decodes_decodable::<TypeIdx>(bytes, p2 + 1, bytes[p2] as int, n - 1, ts);
    } else if id == 7 {
        let ts = choose|ts: Seq<ExportV>| #[trigger] Vectors::<Export>::decodes(bytes, p2, n, ts);
        lemma_vec_decodes_decodable::<Export>(bytes, p2 + 1, bytes[p2] as int, n - 1, ts);
    } else if id == 10 {
        let ts = choose|ts: Seq<FuncV>| #[trigger] Vectors::<Func>::decodes(bytes, p2, n, ts)
            && ts.len() <= fi0.len();
        lemma_vec_decodes_decodable::<Func>(bytes, p2 + 1, bytes[p2] as int, n - 1, ts);
        assert forall|n2: int, fs: Seq<FuncV>|
            #[trigger] Vectors::<Func>::decodes(bytes, p2, n2, fs) implies fs.len()
            <= fi0.len() by {
            lemma_vec_decodes_deterministic::<Func>(
                bytes,
                p2 + 1,
                bytes[p2] as int,
                n2 - 1,
                n - 1,
                fs,
                ts,
            );
        }
    }
}

/// A decoded section can be decoded into any base module, with the same
/// length and resulting function indices.
pub proof fn lemma_section_decodes_rebase(
    bytes: Seq<u8>,
    id: u8,
    p2: int,
    m0: ModuleV,
    fi0: Seq<TypeIdx>,
    m1: ModuleV,
    fi1: Seq<TypeIdx>,
    n: int,
    mb: ModuleV,
)
    requires
        section_decodes(bytes, id, p2, m0, fi0, m1, fi1, n),
    ensures
        exists|m2: ModuleV| #[trigger] section_decodes(bytes, id, p2, mb, fi0, m2, fi1, n),
{
    if id == 1 {
        let ts = choose|ts: Seq<FuncTypeV>| #[trigger] Vectors::<FuncType>::decodes(
            bytes,
            p2,
            n,
            ts,
        );
        assert(section_decodes(bytes, id, p2, mb, fi0, (ModuleV { types: ts, ..mb }), fi1, n));
    } else if id == 3 {
        assert(section_decodes(bytes, id, p2, mb, fi0, mb, fi1, n));
    } else if id == 7 {
        let ts = choose|ts: Seq<ExportV>| #[trigger] Vectors::<Export>::decodes(bytes, p2, n, ts);
        assert(section_decodes(bytes, id, p2, mb, fi0, (ModuleV { exports: ts, ..mb }), fi1, n));
    } else if id == 10 {
        let ts = choose|ts: Seq<FuncV>| #[trigger] Vectors::<Func>::decodes(bytes, p2, n, ts)
            && ts.len() <= fi0.len();
        assert(section_decodes(
            bytes,
            id,
            p2,
            mb,
            fi0,
            (ModuleV { funcs: backfill(ts, fi0), ..mb }),
            fi1,
            n,
        ));
    }
}

/// The section stream at `pos`, decoded into the module under assembly `m0`
/// with pending function indices `fi0`, ends exactly at the end of the
/// stream and yields the module `m`.
pub open spec fn sections_decodes(
    bytes: Seq<u8>,
    pos: int,
    m0: ModuleV,
    fi0: Seq<TypeIdx>,
    m: ModuleV,
) -> bool
    decreases bytes.len() - pos,
{
    if !(0 <= pos <= bytes.len()) {
        false
    } else if pos == bytes.len() {
        m == m0
    } else {
        exists|sz: int, n: int, m1: ModuleV, fi1: Seq<TypeIdx>|
            {
                &&& #[trigger] uleb32_len_at(bytes, pos + 1, sz)
                &&& #[trigger] section_decodes(
                    bytes,
                    bytes[pos],
                    pos + 1 + sz,
                    m0,
                    fi0,
                    m1,
                    fi1,
                    n,
                )
                &&& sections_decodes(bytes, pos + 1 + sz + n, m1, fi1, m)
            }
    }
}

/// The section stream at `pos` decodes to its end, with `fi0` the pending
/// function indices.
pub open spec fn sections_ok(bytes: Seq<u8>, pos: int, fi0: Seq<TypeIdx>) -> bool
    decreases bytes.len() - pos,
{
    if !(0 <= pos <= bytes.len()) {
        false
    } else if pos == bytes.len() {
        true
    } else {
        &&& (exists|sz: int| #[trigger] uleb32_len_at(bytes, pos + 1, sz))
        &&& (forall|sz: int|
            #[trigger] uleb32_len_at(bytes, pos + 1, sz) ==> section_payload_decodable(
                bytes,
                bytes[pos],
                pos + 1 + sz,
                fi0,
            ))
        &&& (forall|sz: int, n: int, m1: ModuleV, fi1: Seq<TypeIdx>|
            (#[trigger] uleb32_len_at(bytes, pos + 1, sz) && #[trigger] section_decodes(
                bytes,
                bytes[pos],
                pos + 1 + sz,
                ModuleV::empty(),
                fi0,
                m1,
                fi1,
                n,
            )) ==> sections_ok(bytes, pos + 1 + sz + n, fi1))
    }
}

/// A fully decoded section stream witnesses its own decodability.
pub proof fn lemma_sections_decodes_ok(
    bytes: Seq<u8>,
    pos: int,
    m0: ModuleV,
    fi0: Seq<TypeIdx>,
    m: ModuleV,
)
    requires
        sections_decodes(bytes, pos, m0, fi0, m),
    ensures
        sections_ok(bytes, pos, fi0),
    decreases bytes.len() - pos,
{
    if pos == bytes.len() {
    } else {
        let (sz0, n0, m10, fi10): (int, int, ModuleV, Seq<TypeIdx>) = choose|
            sz: int,
            n: int,
            m1: ModuleV,
            fi1: Seq<TypeIdx>,
        |
            {
                &&& #[trigger] uleb32_len_at(bytes, pos + 1, sz)
                &&& #[trigger] section_decodes(
                    bytes,
                    bytes[pos],
                    pos + 1 + sz,
                    m0,
                    fi0,
                    m1,
                    fi1,
                    n,
                )
                &&& sections_decodes(bytes, pos + 1 + sz + n, m1, fi1, m)
            };
        assert forall|sz: int| #[trigger]
            uleb32_len_at(bytes, pos + 1, sz) implies section_payload_decodable(
            bytes,
            bytes[pos],
            pos + 1 + sz,
            fi0,
        ) by {
            lemma_uleb32_len_unique(bytes, pos + 1, sz, sz0);
            lemma_section_decodes_decodable(
                bytes,
                bytes[pos],
                pos + 1 + sz0,
                m0,
                fi0,
                m10,
                fi10,
                n0,
            );
        }
        assert forall|sz: int, n: int, m1: ModuleV, fi1: Seq<TypeIdx>|
            (#[trigger] uleb32_len_at(bytes, pos + 1, sz) && #[trigger] section_decodes(
                bytes,
                bytes[pos],
                pos + 1 + sz,
                ModuleV::empty(),
                fi0,
                m1,
                fi1,
                n,
            )) implies sections_ok(bytes, pos + 1 + sz + n, fi1) by {
            lemma_uleb32_len_unique(bytes, pos + 1, sz, sz0);
            lemma_section_decodes_deterministic(
                bytes,
                bytes[pos],
                pos + 1 + sz0,
                fi0,
                ModuleV::empty(),
                m1,
                fi1,
                n,
                m0,
                m10,
                fi10,
                n0,
            );
            lemma_sections_decodes_ok(bytes, pos + 1 + sz0 + n0, m10, fi10, m);
        }
    }
}

/// Decode the section sequence at `pos` to the end of the stream,
/// assembling a module: each recognized section replaces its part of the
/// module, the code section's entries take their type indices positionally
/// from the latest function section, and any other section id is a hard
/// stop.
pub fn sections(bytes: &Vec<u8>, pos: usize) -> (r: Result<Module, RuntimeError>)
    requires
        pos <= bytes@.len(),
    ensures
        (r matches Ok(m) ==> sections_decodes(
            bytes@,
            pos as int,
            ModuleV::empty(),
            Seq::empty(),
            m@,
        )),
        r.is_ok() <==> sections_ok(bytes@, pos as int, Seq::empty()),
        (r matches Err(e) ==> e is InvalidWasmError),
        pos < bytes@.len() && !recognized_section_id(bytes@[pos as int]) && (exists|sz: int|
            #[trigger] uleb32_len_at(bytes@, pos + 1, sz)) ==> r == Err::<Module, RuntimeError>(
            RuntimeError::InvalidWasmError(WasmFault::Section),
        ),
{
    let len = bytes.len();
    let mut module = Module::new();
    let mut func_indices: Vec<TypeIdx> = Vec::new();
    let mut cur: usize = pos;
    proof {
        assert(func_indices@ =~= Seq::<TypeIdx>::empty());
    }
    loop
        invariant
            len == bytes@.len(),
            pos <= cur <= len,
            forall|m: ModuleV|
                sections_decodes(bytes@, cur as int, module@, func_indices@, m)
                    ==> sections_decodes(
                    bytes@,
                    pos as int,
                    ModuleV::empty(),
                    Seq::<TypeIdx>::empty(),
                    m,
                ),
            sections_ok(bytes@, pos as int, Seq::<TypeIdx>::empty()) ==> sections_ok(
                bytes@,
                cur as int,
                func_indices@,
            ),
            cur != pos ==> !(pos < bytes@.len() && !recognized_section_id(bytes@[pos as int])
                && (exists|sz: int| #[trigger] uleb32_len_at(bytes@, pos + 1, sz))),
        decreases len - cur,
    {
        if cur >= len {
            proof {
                assert(sections_decodes(bytes@, cur as int, module@, func_indices@, module@));
                assert(sections_decodes(
                    bytes@,
                    pos as int,
                    ModuleV::empty(),
                    Seq::<TypeIdx>::empty(),
                    module@,
                ));
                lemma_sections_decodes_ok(
                    bytes@,
                    pos as int,
                    ModuleV::empty(),
                    Seq::<TypeIdx>::empty(),
                    module@,
                );
            }
            return Ok(module);
        }
        let id = bytes[cur];
        let (ns, _section_size) = match leb128::decode::u32(bytes, cur + 1) {
            Ok(p) => p,
            Err(e) => {
                proof {
                    assert(!sections_ok(bytes@, cur as int, func_indices@));
                }
                return Err(
                    RuntimeError::InvalidWasmError(
                        match e {
                            leb128::decode::Error::IoError => WasmFault::StreamEnd,
                            leb128::decode::Error::Overflow => WasmFault::IntOverflow,
                        },
                    ),
                );
            },
        };
        let p2 = cur + 1 + ns;
        let ghost old_module = module@;
        let ghost old_fi = func_indices@;
        let ghost old_cur = cur as int;
        if id == 1 {
            match Vectors::<FuncType>::decode(bytes, p2) {
                Ok((n, types)) => {
                    module.types = types.0;
                    cur = p2 + n;
                    proof {
                        assert(module@.types =~= types@);
                        assert(module@ =~= (ModuleV { types: types@, ..old_module }));
                        lemma_sections_step(
                            bytes@,
                            old_cur,
                            ns as int,
                            n as int,
                            old_module,
                            old_fi,
                            module@,
                            func_indices@,
                            pos as int,
                        );
                    }
                },
                Err(e) => {
                    proof {
                        lemma_sections_fail(bytes@, old_cur, ns as int, old_fi);
                    }
                    return Err(e);
                },
            }
        } else if id == 3 {
            match Vectors::<TypeIdx>::decode(bytes, p2) {
                Ok((n, tis)) => {
                    func_indices = tis.0;
                    cur = p2 + n;
                    proof {
                        assert(func_indices@ =~= tis@);
                        lemma_sections_step(
                            bytes@,
                            old_cur,
                            ns as int,
                            n as int,
                            old_module,
                            old_fi,
                            module@,
                            func_indices@,
                            pos as int,
                        );
                    }
                },
                Err(e) => {
                    proof {
                        lemma_sections_fail(bytes@, old_cur, ns as int, old_fi);
                    }
                    return Err(e);
                },
            }
        } else if id == 7 {
            match Vectors::<Export>::decode(bytes, p2) {
                Ok((n, exports)) => {
                    module.exports = exports.0;
                    cur = p2 + n;
                    proof {
                        assert(module@.exports =~= exports@);
                        assert(module@ =~= (ModuleV { exports: exports@, ..old_module }));
                        lemma_sections_step(
                            bytes@,
                            old_cur,
                            ns as int,
                            n as int,
                            old_module,
                            old_fi,
                            module@,
                            func_indices@,
                            pos as int,
                        );
                    }
                },
                Err(e) => {
                    proof {
                        lemma_sections_fail(bytes@, old_cur, ns as int, old_fi);
                    }
                    return Err(e);
                },
            }
        } else if id == 10 {
            match Vectors::<Func>::decode(bytes, p2) {
                Ok((n, funcs)) => {
                    let ghost fsv = funcs@;
                    let mut funcs = funcs.0;
                    proof {
                        assert(fsv =~= Seq::new(funcs@.len(), |i: int| funcs@[i]@));
                    }
                    if funcs.len() > func_indices.len() {
                        proof {
                            assert(Vectors::<Func>::decodes(bytes@, p2 as int, n as int, fsv));
                            assert(!section_payload_decodable(
                                bytes@,
                                id,
                                p2 as int,
                                func_indices@,
                            ));
                            assert(!sections_ok(bytes@, cur as int, func_indices@));
                        }
                        return Err(RuntimeError::InvalidWasmError(WasmFault::CodeIndex));
                    }
                    let mut fi: usize = 0;
                    while fi < funcs.len()
                        invariant
                            fi <= funcs@.len(),
                            funcs@.len() == fsv.len() <= func_indices@.len(),
                            old_fi == func_indices@,
                            forall|j: int|
                                0 <= j < fsv.len() ==> (#[trigger] funcs@[j]).locals@
                                    == fsv[j].locals && funcs@[j].body@ == fsv[j].body,
                            forall|j: int|
                                0 <= j < fi ==> (#[trigger] funcs@[j]).type_ == func_indices@[j],
                            forall|j: int| fi <= j < fsv.len() ==> (#[trigger] funcs@[j])@ == fsv[j],
                        decreases funcs@.len() - fi,
                    {
                        funcs[fi].type_ = func_indices[fi];
                        fi = fi + 1;
                    }
                    module.funcs = funcs;
                    cur = p2 + n;
                    proof {
                        assert forall|j: int| 0 <= j < module@.funcs.len() implies module@.funcs[j]
                            == backfill(fsv, old_fi)[j] by {
                            assert(module@.funcs[j] == funcs@[j]@);
                        }
                        assert(module@.funcs =~= backfill(fsv, old_fi));
                        assert(module@ =~= (ModuleV { funcs: backfill(fsv, old_fi), ..old_module }));
                        lemma_sections_step(
                            bytes@,
                            old_cur,
                            ns as int,
                            n as int,
                            old_module,
                            old_fi,
                            module@,
                            func_indices@,
                            pos as int,
                        );
                    }
                },
                Err(e) => {
                    proof {
                        lemma_sections_fail(bytes@, old_cur, ns as int, old_fi);
                    }
                    return Err(e);
                },
            }
        } else {
            // only the Type, Function, Export and Code sections exist; any
            // other id is a hard stop, with no partial module
            proof {
                assert(!section_payload_decodable(bytes@, id, p2 as int, func_indices@));
                assert(!sections_ok(bytes@, cur as int, func_indices@));
            }
            return Err(RuntimeError::InvalidWasmError(WasmFault::Section));
        }
    }
}

/// One decoded section extends both loop invariants of `sections`: whatever
/// the rest decodes to is what the whole decodes to, and decodability at the
/// section's start carries past it.
proof fn lemma_sections_step(
    bytes: Seq<u8>,
    cur: int,
    ns: int,
    n: int,
    m0: ModuleV,
    fi0: Seq<TypeIdx>,
    m1: ModuleV,
    fi1: Seq<TypeIdx>,
    pos: int,
)
    requires
        0 <= pos <= cur < bytes.len(),
        uleb32_len_at(bytes, cur + 1, ns),
        section_decodes(bytes, bytes[cur], cur + 1 + ns, m0, fi0, m1, fi1, n),
        forall|m: ModuleV|
            sections_decodes(bytes, cur, m0, fi0, m) ==> sections_decodes(
                bytes,
                pos,
                ModuleV::empty(),
                Seq::<TypeIdx>::empty(),
                m,
            ),
        sections_ok(bytes, pos, Seq::<TypeIdx>::empty()) ==> sections_ok(bytes, cur, fi0),
    ensures
        forall|m: ModuleV|
            sections_decodes(bytes, cur + 1 + ns + n, m1, fi1, m) ==> sections_decodes(
                bytes,
                pos,
                ModuleV::empty(),
                Seq::<TypeIdx>::empty(),
                m,
            ),
        sections_ok(bytes, pos, Seq::<TypeIdx>::empty()) ==> sections_ok(
            bytes,
            cur + 1 + ns + n,
            fi1,
        ),
{
    assert forall|m: ModuleV|
        sections_decodes(bytes, cur + 1 + ns + n, m1, fi1, m) implies sections_decodes(
        bytes,
        pos,
        ModuleV::empty(),
        Seq::<TypeIdx>::empty(),
        m,
    ) by {
        assert(sections_decodes(bytes, cur, m0, fi0, m));
    }
    if sections_ok(bytes, pos, Seq::<TypeIdx>::empty()) {
        lemma_section_decodes_rebase(
            bytes,
            bytes[cur],
            cur + 1 + ns,
            m0,
            fi0,
            m1,
            fi1,
            n,
            ModuleV::empty(),
        );
        let m2 = choose|m2: ModuleV| #[trigger] section_decodes(
            bytes,
            bytes[cur],
            cur + 1 + ns,
            ModuleV::empty(),
            fi0,
            m2,
            fi1,
            n,
        );
        assert(sections_ok(bytes, cur + 1 + ns + n, fi1));
    }
}

/// A failed section payload refutes decodability at the section's start.
proof fn lemma_sections_fail(bytes: Seq<u8>, cur: int, ns: int, fi0: Seq<TypeIdx>)
    requires
        0 <= cur < bytes.len(),
        uleb32_len_at(bytes, cur + 1, ns),
        !section_payload_decodable(bytes, bytes[cur], cur + 1 + ns, fi0),
    ensures
        !sections_ok(bytes, cur, fi0),
{
}

/// A stream whose next byte is any section id other than Type, Function,
/// Export or Code cannot decode as a section sequence: the parser stops
/// with an error and yields no partial module.
pub proof fn lemma_unknown_section_rejected(bytes: Seq<u8>, pos: int, fi0: Seq<TypeIdx>)
    requires
        0 <= pos < bytes.len(),
        bytes[pos] != 1,
        bytes[pos] != 3,
        bytes[pos] != 7,
        bytes[pos] != 10,
    ensures
        !sections_ok(bytes, pos, fi0),
        forall|m0: ModuleV, fi: Seq<TypeIdx>, m: ModuleV|
            !(#[trigger] sections_decodes(bytes, pos, m0, fi, m)),
{
    if exists|sz: int| #[trigger] uleb32_len_at(bytes, pos + 1, sz) {
        let sz = choose|sz: int| #[trigger] uleb32_len_at(bytes, pos + 1, sz);
        assert(!section_payload_decodable(bytes, bytes[pos], pos + 1 + sz, fi0));
    }
    assert forall|m0: ModuleV, fi: Seq<TypeIdx>, m: ModuleV| !(#[trigger] sections_decodes(
        bytes,
        pos,
        m0,
        fi,
        m,
    )) by {
        if sections_decodes(bytes, pos, m0, fi, m) {
            let (sz0, n0, m10, fi10): (int, int, ModuleV, Seq<TypeIdx>) = choose|
                sz: int,
                n: int,
                m1: ModuleV,
                fi1: Seq<TypeIdx>,
            |
                {
                    &&& #[trigger] uleb32_len_at(bytes, pos + 1, sz)
                    &&& #[trigger] section_decodes(
                        bytes,
                        bytes[pos],
                        pos + 1 + sz,
                        m0,
                        fi,
                        m1,
                        fi1,
                        n,
                    )
                    &&& sections_decodes(bytes, pos + 1 + sz + n, m1, fi1, m)
                };
            assert(false);
        }
    }
}

/// Decode a whole binary module: the 4-byte signature, the 4-byte version,
/// then sections to the end of the stream. A stream with a wrong signature
/// is rejected before any section is read.
pub fn decode_module(bytes: &Vec<u8>) -> (r: Result<Module, RuntimeError>)
    ensures
        (r matches Ok(m) ==> magic_at(bytes@, 0) && version_at(bytes@, 4) && sections_decodes(
            bytes@,
            8,
            ModuleV::empty(),
            Seq::empty(),
            m@,
        )),
        r.is_ok() <==> magic_at(bytes@, 0) && version_at(bytes@, 4) && sections_ok(
            bytes@,
            8,
            Seq::empty(),
        ),
        (!magic_at(bytes@, 0) ==> r == Err::<Module, RuntimeError>(
            RuntimeError::InvalidWasmError(WasmFault::Magic),
        )),
        (magic_at(bytes@, 0) && !version_at(bytes@, 4) ==> r == Err::<Module, RuntimeError>(
            RuntimeError::InvalidWasmError(WasmFault::Version),
        )),
        (magic_at(bytes@, 0) && version_at(bytes@, 4) && 8 < bytes@.len()
            && !recognized_section_id(bytes@[8]) && (exists|sz: int|
            #[trigger] uleb32_len_at(bytes@, 9, sz)) ==> r == Err::<Module, RuntimeError>(
            RuntimeError::InvalidWasmError(WasmFault::Section),
        )),
        (r matches Err(e) ==> e is InvalidWasmError),
{
    match magic(bytes, 0) {
        Ok(_) => {},
        Err(e) => {
            return Err(e);
        },
    }
    match version(bytes, 4) {
        Ok(_) => {},
        Err(e) => {
            return Err(e);
        },
    }
    sections(bytes, 8)
}

} // verus!
