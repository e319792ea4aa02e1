use rasm::binary::conventions::Vectors;
use rasm::binary::decoder::Decoder;
use rasm::binary::modules::{decode_module, magic, sections, version};
use rasm::errors::{CallFault, RuntimeError, WasmFault};
use rasm::execution::runtime::{FuncInst, Store};
use rasm::execution::stack::{Frame, FrameStack, LabelStack, Val, ValueStack};
use rasm::leb128::decode;
use rasm::structure::modules::{Func, Module, TypeIdx};
use rasm::structure::values::Byte;

fn module_header() -> Vec<u8> {
    vec![0x00, 0x61, 0x73, 0x6d, 0x01, 0x00, 0x00, 0x00]
}

/// The module of the add scenario: type (i32, i32) -> i32, one function,
/// one export "add", body `local.get 0; local.get 1; i32.add; end`.
fn add_module_bytes() -> Vec<u8> {
    let mut b = module_header();
    // type section
    b.extend_from_slice(&[0x01, 0x07, 0x01, 0x60, 0x02, 0x7f, 0x7f, 0x01, 0x7f]);
    // function section
    b.extend_from_slice(&[0x03, 0x02, 0x01, 0x00]);
    // export section
    b.extend_from_slice(&[0x07, 0x07, 0x01, 0x03, 0x61, 0x64, 0x64, 0x00, 0x00]);
    // code section
    b.extend_from_slice(&[0x0a, 0x09, 0x01, 0x07, 0x00, 0x20, 0x00, 0x20, 0x01, 0x6a, 0x0b]);
    b
}

/// A module exporting `run` with the given type-use, locals and body bytes.
fn one_func_module(params: &[u8], results: &[u8], code_entry: &[u8]) -> Vec<u8> {
    let mut b = module_header();
    let mut typesec = vec![0x01, 0x60, params.len() as u8];
    typesec.extend_from_slice(params);
    typesec.push(results.len() as u8);
    typesec.extend_from_slice(results);
    b.push(0x01);
    b.push(typesec.len() as u8);
    b.extend_from_slice(&typesec);
    b.extend_from_slice(&[0x03, 0x02, 0x01, 0x00]);
    b.extend_from_slice(&[0x07, 0x07, 0x01, 0x03, 0x72, 0x75, 0x6e, 0x00, 0x00]);
    let mut codesec = vec![0x01];
    codesec.extend_from_slice(code_entry);
    b.push(0x0a);
    b.push(codesec.len() as u8);
    b.extend_from_slice(&codesec);
    b
}

#[test]
fn decode_u32_single_byte() {
    assert_eq!(decode::u32(&vec![0x00], 0), Ok((1, 0)));
    assert_eq!(decode::u32(&vec![0x7f], 0), Ok((1, 127)));
}

#[test]
fn decode_u32_multi_byte() {
    // 624485 = 0xE5 0x8E 0x26
    assert_eq!(decode::u32(&vec![0xe5, 0x8e, 0x26], 0), Ok((3, 624485)));
}

#[test]
fn decode_u32_max() {
    assert_eq!(
        decode::u32(&vec![0xff, 0xff, 0xff, 0xff, 0x0f], 0),
        Ok((5, u32::MAX))
    );
}

#[test]
fn decode_u32_at_offset() {
    assert_eq!(decode::u32(&vec![0xff, 0x08], 1), Ok((1, 8)));
}

#[test]
fn decode_u32_redundant_continuation() {
    // a non-minimal encoding of zero is still a valid encoding
    assert_eq!(decode::u32(&vec![0x80, 0x00], 0), Ok((2, 0)));
}

#[test]
fn decode_u32_overflow() {
    // five continuation-free bits beyond bit 31
    assert_eq!(
        decode::u32(&vec![0x80, 0x80, 0x80, 0x80, 0x10], 0),
        Err(decode::Error::Overflow)
    );
}

#[test]
fn decode_u32_overflow_drains_to_byte_boundary() {
    assert_eq!(
        decode::u32(&vec![0x80, 0x80, 0x80, 0x80, 0x90, 0x80, 0x01, 0x05], 0),
        Err(decode::Error::Overflow)
    );
}

#[test]
fn decode_u32_io_error_on_empty_and_unterminated() {
    assert_eq!(decode::u32(&vec![], 0), Err(decode::Error::IoError));
    assert_eq!(decode::u32(&vec![0x80], 0), Err(decode::Error::IoError));
    assert_eq!(decode::u32(&vec![0x80, 0x80], 0), Err(decode::Error::IoError));
}

#[test]
fn encode_u32_minimal() {
    assert_eq!(decode::encode_u32(0), vec![0x00]);
    assert_eq!(decode::encode_u32(624485), vec![0xe5, 0x8e, 0x26]);
    assert_eq!(decode::encode_u32(u32::MAX), vec![0xff, 0xff, 0xff, 0xff, 0x0f]);
}

#[test]
fn u32_round_trip() {
    for v in [0u32, 1, 127, 128, 624485, 0x0fff_ffff, u32::MAX] {
        let enc = decode::encode_u32(v);
        let n = enc.len();
        assert_eq!(decode::u32(&enc, 0), Ok((n, v)));
    }
}

#[test]
fn decode_i32_minus_one() {
    assert_eq!(decode::i32(&vec![0x7f], 0), Ok((1, -1)));
}

#[test]
fn decode_i32_zero() {
    assert_eq!(decode::i32(&vec![0x00], 0), Ok((1, 0)));
}

#[test]
fn decode_i32_two_byte_127() {
    assert_eq!(decode::i32(&vec![0xff, 0x00], 0), Ok((2, 127)));
}

#[test]
fn decode_i32_sign_extension() {
    // -64 is a single byte with the sign bit of its payload set
    assert_eq!(decode::i32(&vec![0x40], 0), Ok((1, -64)));
    // -123456 = 0xC0 0xBB 0x78
    assert_eq!(decode::i32(&vec![0xc0, 0xbb, 0x78], 0), Ok((3, -123456)));
}

#[test]
fn decode_i32_errors() {
    assert_eq!(decode::i32(&vec![], 0), Err(decode::Error::IoError));
    assert_eq!(decode::i32(&vec![0x80], 0), Err(decode::Error::IoError));
    assert_eq!(
        decode::i32(&vec![0x80, 0x80, 0x80, 0x80, 0x80, 0x00], 0),
        Err(decode::Error::Overflow)
    );
}

#[test]
fn low_bits_strip_continuation() {
    assert_eq!(decode::low_bits_of_byte(0xff), 0x7f);
    assert_eq!(decode::low_bits_of_byte(0x3a), 0x3a);
}

#[test]
fn magic_rejected_before_sections() {
    // any stream whose first four bytes differ from the signature fails at
    // the magic check, even if the rest is garbage
    let r = decode_module(&vec![0x01, 0x61, 0x73, 0x6d, 0xde, 0xad]);
    assert_eq!(r, Err(RuntimeError::InvalidWasmError(WasmFault::Magic)));
    assert_eq!(
        decode_module(&vec![]),
        Err(RuntimeError::InvalidWasmError(WasmFault::Magic))
    );
    assert_eq!(
        magic(&vec![0x00, 0x61, 0x73, 0x6d], 0),
        Ok(())
    );
}

#[test]
fn version_rejected() {
    let mut b = vec![0x00, 0x61, 0x73, 0x6d, 0x02, 0x00, 0x00, 0x00];
    assert_eq!(
        decode_module(&b),
        Err(RuntimeError::InvalidWasmError(WasmFault::Version))
    );
    b[4] = 0x01;
    assert_eq!(version(&b, 4), Ok(()));
}

#[test]
fn empty_module_decodes() {
    let m = decode_module(&module_header()).unwrap();
    assert_eq!(m.types.len(), 0);
    assert_eq!(m.funcs.len(), 0);
    assert_eq!(m.exports.len(), 0);
}

#[test]
fn vector_of_zero_elements() {
    // a zero count byte yields an empty vector and consumes exactly one byte
    let (n, v) = Vectors::<Byte>::decode(&vec![0x00, 0xaa], 0).unwrap();
    assert_eq!(n, 1);
    assert_eq!(v.0.len(), 0);
}

#[test]
fn vector_of_bytes() {
    let (n, v) = Vectors::<Byte>::decode(&vec![0x03, 0x0a, 0x0b, 0x0c], 0).unwrap();
    assert_eq!(n, 4);
    assert_eq!(v.0, vec![Byte(0x0a), Byte(0x0b), Byte(0x0c)]);
}

#[test]
fn vector_length_byte_missing() {
    assert_eq!(
        Vectors::<Byte>::decode(&vec![], 0),
        Err(RuntimeError::InvalidWasmError(WasmFault::Vector))
    );
}

#[test]
fn add_module_shape() {
    let m = decode_module(&add_module_bytes()).unwrap();
    assert_eq!(m.types.len(), 1);
    assert_eq!(m.types[0].0.0.len(), 2);
    assert_eq!(m.types[0].1.0.len(), 1);
    assert_eq!(m.funcs.len(), 1);
    assert_eq!(m.funcs[0].type_, TypeIdx(0));
    assert_eq!(m.funcs[0].body.0.len(), 3);
    assert_eq!(m.exports.len(), 1);
    assert_eq!(m.exports[0].name.0, "add");
}

#[test]
fn add_three_and_four() {
    let m = decode_module(&add_module_bytes()).unwrap();
    let store = Store::new(&m).unwrap();
    let r = m.call(store, &"add".to_string(), vec![Val::I32(3), Val::I32(4)]);
    assert_eq!(r, Ok(vec![Val::I32(7)]));
}

#[test]
fn add_wraps_around() {
    let m = decode_module(&add_module_bytes()).unwrap();
    let store = Store::new(&m).unwrap();
    let r = m.call(store, &"add".to_string(), vec![Val::I32(i32::MAX), Val::I32(1)]);
    assert_eq!(r, Ok(vec![Val::I32(i32::MIN)]));
}

#[test]
fn unknown_export_name() {
    let m = decode_module(&add_module_bytes()).unwrap();
    let store = Store::new(&m).unwrap();
    let r = m.call(store, &"mul".to_string(), vec![Val::I32(3), Val::I32(4)]);
    assert_eq!(
        r,
        Err(RuntimeError::InvalidParameters(CallFault::UnknownFunction))
    );
}

#[test]
fn wrong_argument_count() {
    let m = decode_module(&add_module_bytes()).unwrap();
    let store = Store::new(&m).unwrap();
    let r = m.call(store, &"add".to_string(), vec![Val::I32(3)]);
    assert_eq!(r, Err(RuntimeError::InvalidParameters(CallFault::Arity)));
}

#[test]
fn local_get_out_of_range() {
    // () -> (), body: local.get 5
    let b = one_func_module(&[], &[], &[0x02, 0x00, 0x20, 0x05, 0x0b]);
    let m = decode_module(&b).unwrap();
    let store = Store::new(&m).unwrap();
    let r = m.call(store, &"run".to_string(), vec![]);
    assert_eq!(
        r,
        Err(RuntimeError::InvalidWasmError(WasmFault::InvalidLocals))
    );
}

#[test]
fn arithmetic_on_empty_stack() {
    // () -> (), body: i32.add with nothing on the stack
    let b = one_func_module(&[], &[], &[0x02, 0x00, 0x6a, 0x0b]);
    let m = decode_module(&b).unwrap();
    let store = Store::new(&m).unwrap();
    let r = m.call(store, &"run".to_string(), vec![]);
    assert_eq!(r, Err(RuntimeError::InvalidWasmError(WasmFault::NoOperand)));
}

#[test]
fn local_set_on_empty_stack() {
    // () -> () with one declared i32 local, body: local.set 0
    let b = one_func_module(&[], &[], &[0x04, 0x01, 0x01, 0x7f, 0x21, 0x00, 0x0b]);
    let m = decode_module(&b).unwrap();
    let store = Store::new(&m).unwrap();
    let r = m.call(store, &"run".to_string(), vec![]);
    assert_eq!(r, Err(RuntimeError::InvalidWasmError(WasmFault::EmptyStack)));
}

#[test]
fn local_set_and_get_roundtrip() {
    // (i32) -> i32 with one declared local:
    // local.get 0; local.set 1; local.get 1
    let b = one_func_module(
        &[0x7f],
        &[0x7f],
        &[0x08, 0x01, 0x01, 0x7f, 0x20, 0x00, 0x21, 0x01, 0x20, 0x01, 0x0b],
    );
    let m = decode_module(&b).unwrap();
    let store = Store::new(&m).unwrap();
    let r = m.call(store, &"run".to_string(), vec![Val::I32(99)]);
    assert_eq!(r, Ok(vec![Val::I32(99)]));
}

#[test]
fn declared_locals_zero_initialized() {
    // () -> i32 with one declared local, body: local.get 0
    let b = one_func_module(&[], &[0x7f], &[0x06, 0x01, 0x01, 0x7f, 0x20, 0x00, 0x0b]);
    let m = decode_module(&b).unwrap();
    let store = Store::new(&m).unwrap();
    let r = m.call(store, &"run".to_string(), vec![]);
    assert_eq!(r, Ok(vec![Val::I32(0)]));
}

#[test]
fn i32_const_sub_mul() {
    // () -> i32: 10 - 4 = 6, then 6 * 7 = 42
    let b = one_func_module(
        &[],
        &[0x7f],
        &[0x0a, 0x00, 0x41, 0x0a, 0x41, 0x04, 0x6b, 0x41, 0x07, 0x6c, 0x0b],
    );
    let m = decode_module(&b).unwrap();
    let store = Store::new(&m).unwrap();
    let r = m.call(store, &"run".to_string(), vec![]);
    assert_eq!(r, Ok(vec![Val::I32(42)]));
}

#[test]
fn i32_const_negative() {
    // () -> i32: push -1 (signed LEB 0x7f)
    let b = one_func_module(&[], &[0x7f], &[0x04, 0x00, 0x41, 0x7f, 0x0b]);
    let m = decode_module(&b).unwrap();
    let store = Store::new(&m).unwrap();
    let r = m.call(store, &"run".to_string(), vec![]);
    assert_eq!(r, Ok(vec![Val::I32(-1)]));
}

#[test]
fn type_mismatch_operand() {
    // (i64) -> i32? keep () -> (): push i64 via argumentless const is not
    // encodable here, so call "add"-shaped function with i64 argument
    let b = one_func_module(&[0x7e, 0x7e], &[0x7e], &[0x07, 0x00, 0x20, 0x00, 0x20, 0x01, 0x6a, 0x0b]);
    let m = decode_module(&b).unwrap();
    let store = Store::new(&m).unwrap();
    let r = m.call(store, &"run".to_string(), vec![Val::I64(1), Val::I64(2)]);
    assert_eq!(
        r,
        Err(RuntimeError::InvalidWasmError(WasmFault::OperandType))
    );
}

#[test]
fn unknown_section_id_rejected() {
    // a memory section (id 5) is not implemented: hard stop, no module
    let mut b = module_header();
    b.extend_from_slice(&[0x05, 0x01, 0x00]);
    assert_eq!(
        decode_module(&b),
        Err(RuntimeError::InvalidWasmError(WasmFault::Section))
    );
}

#[test]
fn unknown_opcode_rejected() {
    // i32.eqz (0x45) is outside the supported set
    let b = one_func_module(&[], &[], &[0x03, 0x00, 0x45, 0x0b]);
    assert_eq!(
        decode_module(&b),
        Err(RuntimeError::InvalidWasmError(WasmFault::Opcode))
    );
}

#[test]
fn unknown_value_type_rejected() {
    let mut b = module_header();
    // type section declaring a parameter of unknown value type 0x10
    b.extend_from_slice(&[0x01, 0x06, 0x01, 0x60, 0x01, 0x10, 0x01, 0x7f]);
    assert_eq!(
        decode_module(&b),
        Err(RuntimeError::InvalidWasmError(WasmFault::NumType))
    );
}

#[test]
fn bad_func_type_tag_rejected() {
    let mut b = module_header();
    b.extend_from_slice(&[0x01, 0x05, 0x01, 0x61, 0x00, 0x00, 0x00]);
    assert_eq!(
        decode_module(&b),
        Err(RuntimeError::InvalidWasmError(WasmFault::FuncTypeTag))
    );
}

#[test]
fn unknown_export_descriptor_rejected() {
    let mut b = module_header();
    b.extend_from_slice(&[0x07, 0x07, 0x01, 0x03, 0x61, 0x64, 0x64, 0x04, 0x00]);
    assert_eq!(
        decode_module(&b),
        Err(RuntimeError::InvalidWasmError(WasmFault::ExportDesc))
    );
}

#[test]
fn invalid_utf8_export_name_rejected() {
    let mut b = module_header();
    b.extend_from_slice(&[0x07, 0x06, 0x01, 0x02, 0xff, 0xfe, 0x00, 0x00]);
    assert_eq!(
        decode_module(&b),
        Err(RuntimeError::InvalidWasmError(WasmFault::Utf8))
    );
}

#[test]
fn more_code_entries_than_function_indices() {
    let mut b = module_header();
    // code section with one entry but no function section
    b.extend_from_slice(&[0x0a, 0x04, 0x01, 0x02, 0x00, 0x0b]);
    assert_eq!(
        decode_module(&b),
        Err(RuntimeError::InvalidWasmError(WasmFault::CodeIndex))
    );
}

#[test]
fn truncated_stream_mid_varint() {
    let mut b = module_header();
    // section id present, but its size varint never terminates
    b.extend_from_slice(&[0x01, 0x80]);
    assert_eq!(
        decode_module(&b),
        Err(RuntimeError::InvalidWasmError(WasmFault::StreamEnd))
    );
}

#[test]
fn store_rejects_unknown_functype() {
    let b = add_module_bytes();
    let mut m = decode_module(&b).unwrap();
    m.types.clear();
    assert_eq!(
        Store::new(&m),
        Err(RuntimeError::InvalidWasmError(WasmFault::UnknownFuncType))
    );
}

#[test]
fn store_layout() {
    let m = decode_module(&add_module_bytes()).unwrap();
    let store = Store::new(&m).unwrap();
    assert_eq!(store.funcs.len(), 1);
    assert_eq!(store.modules.len(), 1);
    assert_eq!(store.modules[0].funcaddrs, vec![0]);
    assert_eq!(store.funcs[0].type_, m.types[0]);
    assert_eq!(store.funcs[0].code.body, m.funcs[0].body);
}

#[test]
fn export_to_non_function_rejected_at_call() {
    let mut b = module_header();
    // one export naming a table
    b.extend_from_slice(&[0x07, 0x07, 0x01, 0x03, 0x74, 0x61, 0x62, 0x01, 0x00]);
    let m = decode_module(&b).unwrap();
    let store = Store::new(&m).unwrap();
    let r = m.call(store, &"tab".to_string(), vec![]);
    assert_eq!(
        r,
        Err(RuntimeError::InvalidParameters(CallFault::NotAFunction))
    );
}

#[test]
fn export_with_dangling_function_address() {
    let mut b = module_header();
    // an export pointing at function 3 of a module with no functions
    b.extend_from_slice(&[0x07, 0x07, 0x01, 0x03, 0x61, 0x64, 0x64, 0x00, 0x03]);
    let m = decode_module(&b).unwrap();
    let store = Store::new(&m).unwrap();
    let r = m.call(store, &"add".to_string(), vec![]);
    assert_eq!(
        r,
        Err(RuntimeError::InvalidParameters(CallFault::UnknownFuncAddr))
    );
}

#[test]
fn value_stack_push_pop() {
    let mut s = ValueStack(Vec::new());
    assert_eq!(s.pop(), None);
    s.push(Val::I32(1));
    s.push(Val::I64(2));
    assert_eq!(s.pop(), Some(Val::I64(2)));
    assert_eq!(s.pop(), Some(Val::I32(1)));
    assert_eq!(s.pop(), None);
}

#[test]
fn frame_stack_push_pop() {
    let mut s = FrameStack(Vec::new());
    assert!(s.pop().is_none());
    s.push(Frame { locals: vec![Val::I32(9)], module: 0, labels: LabelStack(Vec::new()) });
    let f = s.pop().unwrap();
    assert_eq!(f.locals, vec![Val::I32(9)]);
    assert!(s.pop().is_none());
}

#[test]
fn sections_accepts_empty_tail() {
    let b = module_header();
    let m = sections(&b, 8).unwrap();
    assert_eq!(m.funcs.len(), 0);
}

#[test]
fn later_section_replaces_earlier() {
    // two type sections: the second overwrites the first
    let mut b = module_header();
    b.extend_from_slice(&[0x01, 0x04, 0x01, 0x60, 0x00, 0x00]);
    b.extend_from_slice(&[0x01, 0x07, 0x01, 0x60, 0x02, 0x7f, 0x7f, 0x01, 0x7f]);
    let m = decode_module(&b).unwrap();
    assert_eq!(m.types.len(), 1);
    assert_eq!(m.types[0].0.0.len(), 2);
}

#[test]
fn func_decoder_consumes_exact_bytes() {
    // one code entry: size 4, no locals, body local.get 0; end
    let bytes = vec![0x04, 0x00, 0x20, 0x00, 0x0b];
    let (n, f) = Func::decode(&bytes, 0).unwrap();
    assert_eq!(n, 5);
    assert_eq!(f.locals.len(), 0);
    assert_eq!(f.body.0.len(), 1);
}

#[test]
fn missing_result_on_empty_body() {
    // () -> i32 with an empty body: nothing is left for the result
    let b = one_func_module(&[], &[0x7f], &[0x01, 0x00, 0x0b]);
    let m = decode_module(&b).unwrap();
    let store = Store::new(&m).unwrap();
    let r = m.call(store, &"run".to_string(), vec![]);
    assert_eq!(
        r,
        Err(RuntimeError::InvalidParameters(CallFault::MissingResult))
    );
}

#[test]
fn section_size_varint_overflow() {
    let mut b = module_header();
    b.extend_from_slice(&[0x01, 0x80, 0x80, 0x80, 0x80, 0x10, 0x00]);
    assert_eq!(
        decode_module(&b),
        Err(RuntimeError::InvalidWasmError(WasmFault::IntOverflow))
    );
}

#[test]
fn funcinst_call_runs_body_on_shared_stack() {
    let m = decode_module(&add_module_bytes()).unwrap();
    let store = Store::new(&m).unwrap();
    let fi: &FuncInst = &store.funcs[0];
    let mut vs = ValueStack(vec![Val::I32(20), Val::I32(22)]);
    let mut fs = FrameStack(Vec::new());
    assert_eq!(fi.call(&mut vs, &mut fs), Ok(()));
    assert_eq!(vs.0, vec![Val::I32(42)]);
    // the frame pushed on entry was popped on return
    assert_eq!(fs.0.len(), 0);
}

#[test]
fn funcinst_call_pops_frame_on_body_error() {
    // () -> (), body: i32.add on an empty stack
    let b = one_func_module(&[], &[], &[0x02, 0x00, 0x6a, 0x0b]);
    let m = decode_module(&b).unwrap();
    let store = Store::new(&m).unwrap();
    let fi: &FuncInst = &store.funcs[0];
    let mut vs = ValueStack(Vec::new());
    let mut fs = FrameStack(Vec::new());
    assert_eq!(
        fi.call(&mut vs, &mut fs),
        Err(RuntimeError::InvalidWasmError(WasmFault::NoOperand))
    );
    assert_eq!(fs.0.len(), 0);
}

#[test]
fn funcinst_call_underflow_drains_stack() {
    let m = decode_module(&add_module_bytes()).unwrap();
    let store = Store::new(&m).unwrap();
    let fi: &FuncInst = &store.funcs[0];
    let mut vs = ValueStack(vec![Val::I32(20)]);
    let mut fs = FrameStack(Vec::new());
    assert_eq!(
        fi.call(&mut vs, &mut fs),
        Err(RuntimeError::InvalidParameters(CallFault::MissingResult))
    );
    assert_eq!(vs.0.len(), 0);
    assert_eq!(fs.0.len(), 0);
}
