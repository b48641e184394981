//! End-to-end runs: assemble a class file byte for byte, parse it, and
//! execute its `main`.

use minijvm::interp::{VmError, find_method, run_class};
use minijvm::parser::{ParseError, get_class};
use minijvm::types::ClassFile;

const DEPTH: u64 = 64;
const BUDGET: u64 = 100_000;

fn utf8_entry(s: &str) -> Vec<u8> {
    let mut v = vec![1u8];
    v.extend((s.len() as u16).to_be_bytes());
    v.extend(s.as_bytes());
    v
}

fn integer_entry(x: i32) -> Vec<u8> {
    let mut v = vec![3u8];
    v.extend(x.to_be_bytes());
    v
}

fn class_entry(name_index: u16) -> Vec<u8> {
    let mut v = vec![7u8];
    v.extend(name_index.to_be_bytes());
    v
}

fn method_ref_entry(class_index: u16, name_and_type_index: u16) -> Vec<u8> {
    let mut v = vec![10u8];
    v.extend(class_index.to_be_bytes());
    v.extend(name_and_type_index.to_be_bytes());
    v
}

fn name_and_type_entry(name_index: u16, descriptor_index: u16) -> Vec<u8> {
    let mut v = vec![12u8];
    v.extend(name_index.to_be_bytes());
    v.extend(descriptor_index.to_be_bytes());
    v
}

/// A `Code` attribute with `trailing` opaque bytes after the code array,
/// as real files have for the exception table and sub-attributes.
fn code_attribute(name_index: u16, max_stack: u16, max_locals: u16, code: &[u8], trailing: &[u8]) -> Vec<u8> {
    let mut v = Vec::new();
    v.extend(name_index.to_be_bytes());
    let alen = 8 + code.len() + trailing.len();
    v.extend((alen as u32).to_be_bytes());
    v.extend(max_stack.to_be_bytes());
    v.extend(max_locals.to_be_bytes());
    v.extend((code.len() as u32).to_be_bytes());
    v.extend(code);
    v.extend(trailing);
    v
}

fn method_record(access_flags: u16, name_index: u16, descriptor_index: u16, attributes: &[Vec<u8>]) -> Vec<u8> {
    let mut v = Vec::new();
    v.extend(access_flags.to_be_bytes());
    v.extend(name_index.to_be_bytes());
    v.extend(descriptor_index.to_be_bytes());
    v.extend((attributes.len() as u16).to_be_bytes());
    for a in attributes {
        v.extend(a);
    }
    v
}

fn class_bytes(pool: &[Vec<u8>], methods: &[Vec<u8>]) -> Vec<u8> {
    let mut v = Vec::new();
    v.extend(0xCAFEBABEu32.to_be_bytes());
    v.extend(0u16.to_be_bytes());
    v.extend(52u16.to_be_bytes());
    v.extend(((pool.len() + 1) as u16).to_be_bytes());
    for e in pool {
        v.extend(e);
    }
    v.extend(0x21u16.to_be_bytes());
    v.extend(0u16.to_be_bytes());
    v.extend(0u16.to_be_bytes());
    v.extend(0u16.to_be_bytes());
    v.extend(0u16.to_be_bytes());
    v.extend((methods.len() as u16).to_be_bytes());
    for m in methods {
        v.extend(m);
    }
    v
}

/// The shared pool for a class with `main` and one helper method at
/// reference index 9: `1 Code, 2 main, 3 main-descriptor, 4 helper name,
/// 5 helper descriptor, 6 class name, 7 Class, 8 NameAndType, 9 Ref`.
fn two_method_pool(fname: &str, fdesc: &str) -> Vec<Vec<u8>> {
    vec![
        utf8_entry("Code"),
        utf8_entry("main"),
        utf8_entry("([Ljava/lang/String;)V"),
        utf8_entry(fname),
        utf8_entry(fdesc),
        utf8_entry("C"),
        class_entry(6),
        name_and_type_entry(4, 5),
        method_ref_entry(7, 8),
    ]
}

fn run_bytes(bytes: &[u8]) -> (Result<(), VmError>, Vec<i32>) {
    let class = get_class(&bytes.to_vec()).expect("parse");
    let mut out: Vec<i32> = Vec::new();
    let r = run_class(&class, DEPTH, BUDGET, &mut out);
    (r, out)
}

#[test]
fn constant_return_prints_42() {
    let pool = two_method_pool("f", "()I");
    let f = method_record(0x0008, 4, 5, &[code_attribute(1, 1, 0, &[16, 42, 172], &[])]);
    let main = method_record(
        0x0009,
        2,
        3,
        &[code_attribute(1, 1, 1, &[184, 0, 9, 182, 0, 0, 177], &[])],
    );
    let bytes = class_bytes(&pool, &[f, main]);
    let (r, out) = run_bytes(&bytes);
    assert_eq!(r, Ok(()));
    assert_eq!(out, vec![42]);
}

#[test]
fn iterative_factorial_prints_120() {
    let pool = two_method_pool("fact", "(I)I");
    let fact_code: Vec<u8> = vec![
        4, // iconst_1
        60, // istore_1
        5, // iconst_2
        61, // istore_2
        28, // iload_2
        26, // iload_0
        163, 0, 13, // if_icmpgt -> 19
        27, // iload_1
        28, // iload_2
        104, // imul
        60, // istore_1
        132, 2, 1, // iinc 2 by 1
        167, 0xFF, 0xF4, // goto -> 4
        27, // iload_1
        172, // ireturn
    ];
    let fact = method_record(0x0008, 4, 5, &[code_attribute(1, 2, 3, &fact_code, &[])]);
    let main = method_record(
        0x0009,
        2,
        3,
        &[code_attribute(1, 1, 1, &[8, 184, 0, 9, 182, 0, 0, 177], &[])],
    );
    let bytes = class_bytes(&pool, &[fact, main]);
    let (r, out) = run_bytes(&bytes);
    assert_eq!(r, Ok(()));
    assert_eq!(out, vec![120]);
}

#[test]
fn recursive_sum_prints_55() {
    let pool = two_method_pool("sum", "(I)I");
    let sum_code: Vec<u8> = vec![
        26, // iload_0
        154, 0, 5, // ifne -> 6
        3, // iconst_0
        172, // ireturn
        26, // iload_0
        26, // iload_0
        4, // iconst_1
        100, // isub
        184, 0, 9, // invokestatic sum
        96, // iadd
        172, // ireturn
    ];
    let sum = method_record(0x0008, 4, 5, &[code_attribute(1, 3, 1, &sum_code, &[])]);
    let main = method_record(
        0x0009,
        2,
        3,
        &[code_attribute(1, 1, 1, &[16, 10, 184, 0, 9, 182, 0, 0, 177], &[])],
    );
    let bytes = class_bytes(&pool, &[sum, main]);
    let (r, out) = run_bytes(&bytes);
    assert_eq!(r, Ok(()));
    assert_eq!(out, vec![55]);
}

#[test]
fn branch_and_arithmetic_prints_4_twice() {
    let pool = two_method_pool("g", "(II)I");
    let g_code: Vec<u8> = vec![
        26, // iload_0
        27, // iload_1
        161, 0, 7, // if_icmplt -> 9
        26, // iload_0
        27, // iload_1
        100, // isub
        172, // ireturn
        27, // iload_1
        26, // iload_0
        100, // isub
        172, // ireturn
    ];
    let g = method_record(0x0008, 4, 5, &[code_attribute(1, 2, 2, &g_code, &[])]);
    let main_code: Vec<u8> = vec![
        16, 7, // bipush 7
        6, // iconst_3
        184, 0, 9, // invokestatic g
        182, 0, 0, // print
        16, 3, // bipush 3
        16, 7, // bipush 7
        184, 0, 9, // invokestatic g
        182, 0, 0, // print
        177, // return
    ];
    let main = method_record(0x0009, 2, 3, &[code_attribute(1, 2, 1, &main_code, &[])]);
    let bytes = class_bytes(&pool, &[g, main]);
    let (r, out) = run_bytes(&bytes);
    assert_eq!(r, Ok(()));
    assert_eq!(out, vec![4, 4]);
}

#[test]
fn overflow_wrapping_prints_0() {
    let mut pool = two_method_pool("h", "()I");
    pool.push(integer_entry(65536)); // entry 10
    let h_code: Vec<u8> = vec![
        18, 10, // ldc 65536
        18, 10, // ldc 65536
        104, // imul
        172, // ireturn
    ];
    let h = method_record(0x0008, 4, 5, &[code_attribute(1, 2, 0, &h_code, &[])]);
    let main = method_record(
        0x0009,
        2,
        3,
        &[code_attribute(1, 1, 1, &[184, 0, 9, 182, 0, 0, 177], &[])],
    );
    let bytes = class_bytes(&pool, &[h, main]);
    let (r, out) = run_bytes(&bytes);
    assert_eq!(r, Ok(()));
    assert_eq!(out, vec![0]);
}

#[test]
fn nested_static_calls_print_12() {
    let mut pool = two_method_pool("inc", "(I)I");
    pool.push(utf8_entry("twice")); // 10
    pool.push(name_and_type_entry(10, 5)); // 11
    pool.push(method_ref_entry(7, 11)); // 12
    let inc = method_record(
        0x0008,
        4,
        5,
        &[code_attribute(1, 2, 1, &[26, 4, 96, 172], &[])],
    );
    let twice = method_record(
        0x0008,
        10,
        5,
        &[code_attribute(1, 1, 1, &[26, 184, 0, 9, 184, 0, 9, 172], &[])],
    );
    let main = method_record(
        0x0009,
        2,
        3,
        &[code_attribute(1, 1, 1, &[16, 10, 184, 0, 12, 182, 0, 0, 177], &[])],
    );
    let bytes = class_bytes(&pool, &[inc, twice, main]);
    let (r, out) = run_bytes(&bytes);
    assert_eq!(r, Ok(()));
    assert_eq!(out, vec![12]);
}

#[test]
fn parsed_main_code_matches_file_bytes() {
    let pool = two_method_pool("f", "()I");
    let f = method_record(0x0008, 4, 5, &[code_attribute(1, 1, 0, &[16, 42, 172], &[])]);
    let main_code: Vec<u8> = vec![184, 0, 9, 182, 0, 0, 177];
    // Real files carry an empty exception table and attribute count after
    // the code array; the parser must skip them.
    let main = method_record(
        0x0009,
        2,
        3,
        &[code_attribute(1, 1, 1, &main_code, &[0, 0, 0, 0])],
    );
    let bytes = class_bytes(&pool, &[f, main]);
    let class: ClassFile = get_class(&bytes).expect("parse");
    let idx = find_method(b"main", b"([Ljava/lang/String;)V", &class.method).expect("main");
    let m = &class.method[idx];
    assert_eq!(m.code.code, main_code);
    assert_eq!(m.code.code_length as usize, main_code.len());
    // The same bytes stand in the file itself, inside main's Code attribute.
    let pos = bytes
        .windows(main_code.len())
        .rposition(|w| w == &main_code[..])
        .expect("code bytes in file");
    assert_eq!(&bytes[pos..pos + main_code.len()], &main_code[..]);
}

#[test]
fn empty_main_runs_and_prints_nothing() {
    let pool = two_method_pool("f", "()I");
    let main = method_record(0x0009, 2, 3, &[code_attribute(1, 0, 1, &[], &[])]);
    let bytes = class_bytes(&pool, &[main]);
    let (r, out) = run_bytes(&bytes);
    assert_eq!(r, Ok(()));
    assert_eq!(out, Vec::<i32>::new());
}

#[test]
fn missing_main_is_method_not_found() {
    let pool = two_method_pool("f", "()I");
    let f = method_record(0x0008, 4, 5, &[code_attribute(1, 1, 0, &[16, 42, 172], &[])]);
    let bytes = class_bytes(&pool, &[f]);
    let (r, out) = run_bytes(&bytes);
    assert_eq!(r, Err(VmError::MethodNotFound));
    assert_eq!(out, Vec::<i32>::new());
}

#[test]
fn main_returning_value_is_fatal() {
    let pool = two_method_pool("f", "()I");
    let main = method_record(
        0x0009,
        2,
        3,
        &[code_attribute(1, 1, 1, &[6, 172], &[])],
    );
    let bytes = class_bytes(&pool, &[main]);
    let (r, _) = run_bytes(&bytes);
    assert_eq!(r, Err(VmError::MainReturnedValue));
}

#[test]
fn unsupported_tag_is_rejected() {
    let mut bytes = Vec::new();
    bytes.extend(0xCAFEBABEu32.to_be_bytes());
    bytes.extend(0u16.to_be_bytes());
    bytes.extend(52u16.to_be_bytes());
    bytes.extend(2u16.to_be_bytes());
    bytes.push(5); // tag 5 (Long) is outside the subset
    bytes.extend([0u8; 8]);
    assert_eq!(get_class(&bytes).err(), Some(ParseError::UnsupportedTag(5)));
}

#[test]
fn truncated_file_is_rejected() {
    let pool = two_method_pool("f", "()I");
    let f = method_record(0x0008, 4, 5, &[code_attribute(1, 1, 0, &[16, 42, 172], &[])]);
    let mut bytes = class_bytes(&pool, &[f]);
    bytes.truncate(bytes.len() - 3);
    assert_eq!(get_class(&bytes).err(), Some(ParseError::UnexpectedEof));
}

#[test]
fn nonzero_interfaces_are_rejected() {
    let pool = vec![utf8_entry("Code")];
    let mut bytes = Vec::new();
    bytes.extend(0xCAFEBABEu32.to_be_bytes());
    bytes.extend(0u16.to_be_bytes());
    bytes.extend(52u16.to_be_bytes());
    bytes.extend(2u16.to_be_bytes());
    bytes.extend(pool[0].clone());
    bytes.extend(0x21u16.to_be_bytes());
    bytes.extend(0u16.to_be_bytes());
    bytes.extend(0u16.to_be_bytes());
    bytes.extend(1u16.to_be_bytes()); // one interface
    assert_eq!(get_class(&bytes).err(), Some(ParseError::InterfacesUnsupported));
}

#[test]
fn nonzero_fields_are_rejected() {
    let pool = vec![utf8_entry("Code")];
    let mut bytes = Vec::new();
    bytes.extend(0xCAFEBABEu32.to_be_bytes());
    bytes.extend(0u16.to_be_bytes());
    bytes.extend(52u16.to_be_bytes());
    bytes.extend(2u16.to_be_bytes());
    bytes.extend(pool[0].clone());
    bytes.extend(0x21u16.to_be_bytes());
    bytes.extend(0u16.to_be_bytes());
    bytes.extend(0u16.to_be_bytes());
    bytes.extend(0u16.to_be_bytes());
    bytes.extend(2u16.to_be_bytes()); // two fields
    assert_eq!(get_class(&bytes).err(), Some(ParseError::FieldsUnsupported));
}

#[test]
fn non_static_method_is_rejected() {
    let pool = two_method_pool("f", "()I");
    let f = method_record(0x0001, 4, 5, &[code_attribute(1, 1, 0, &[16, 42, 172], &[])]);
    let bytes = class_bytes(&pool, &[f]);
    assert_eq!(get_class(&bytes).err(), Some(ParseError::NonStaticMethod));
}

#[test]
fn duplicate_code_attribute_is_rejected() {
    let pool = two_method_pool("f", "()I");
    let a = code_attribute(1, 1, 0, &[16, 42, 172], &[]);
    let f = method_record(0x0008, 4, 5, &[a.clone(), a]);
    let bytes = class_bytes(&pool, &[f]);
    assert_eq!(get_class(&bytes).err(), Some(ParseError::DuplicateCode));
}

#[test]
fn missing_code_attribute_is_rejected() {
    let pool = two_method_pool("f", "()I");
    let f = method_record(0x0008, 4, 5, &[]);
    let bytes = class_bytes(&pool, &[f]);
    assert_eq!(get_class(&bytes).err(), Some(ParseError::MissingCode));
}

/// A file holding just the header, a pool made of the given raw entry
/// bytes, and nothing after it.
fn header_and_pool(count: u16, entries_raw: &[u8]) -> Vec<u8> {
    let mut bytes = Vec::new();
    bytes.extend(0xCAFEBABEu32.to_be_bytes());
    bytes.extend(0u16.to_be_bytes());
    bytes.extend(52u16.to_be_bytes());
    bytes.extend(count.to_be_bytes());
    bytes.extend(entries_raw);
    bytes
}

#[test]
fn malformed_utf8_in_constant_is_rejected() {
    // One Utf8 constant whose single payload byte 0xFF is not UTF-8.
    let bytes = header_and_pool(2, &[1, 0, 1, 0xFF]);
    assert_eq!(get_class(&bytes).err(), Some(ParseError::MalformedUtf8));
}

#[test]
fn overlong_utf8_encoding_is_rejected() {
    // 0xC0 0x80 is the overlong two-byte form of U+0000.
    let bytes = header_and_pool(2, &[1, 0, 2, 0xC0, 0x80]);
    assert_eq!(get_class(&bytes).err(), Some(ParseError::MalformedUtf8));
}

#[test]
fn truncated_utf8_sequence_is_rejected() {
    // A three-byte sequence cut off after two bytes.
    let bytes = header_and_pool(2, &[1, 0, 2, 0xE2, 0x82]);
    assert_eq!(get_class(&bytes).err(), Some(ParseError::MalformedUtf8));
}

#[test]
fn utf16_surrogate_in_utf8_is_rejected() {
    // 0xED 0xA0 0x80 encodes the surrogate U+D800.
    let bytes = header_and_pool(2, &[1, 0, 3, 0xED, 0xA0, 0x80]);
    assert_eq!(get_class(&bytes).err(), Some(ParseError::MalformedUtf8));
}

#[test]
fn multi_byte_utf8_names_are_accepted() {
    // Two-, three- and four-byte sequences in one constant.
    let pool = vec![utf8_entry("\u{e9}\u{4e2d}\u{1F600}")];
    let bytes = class_bytes(&pool, &[]);
    let class = get_class(&bytes).expect("parse");
    assert_eq!(class.constant_pool.len(), 1);
}

#[test]
fn zero_pool_count_is_rejected() {
    let mut bytes = Vec::new();
    bytes.extend(0xCAFEBABEu32.to_be_bytes());
    bytes.extend(0u16.to_be_bytes());
    bytes.extend(52u16.to_be_bytes());
    bytes.extend(0u16.to_be_bytes());
    assert_eq!(get_class(&bytes).err(), Some(ParseError::BadPoolCount));
}

#[test]
fn dangling_pool_reference_is_rejected() {
    // A method reference whose NameAndType index points at a Utf8.
    let pool = vec![utf8_entry("Code"), method_ref_entry(1, 1)];
    let mut bytes = Vec::new();
    bytes.extend(0xCAFEBABEu32.to_be_bytes());
    bytes.extend(0u16.to_be_bytes());
    bytes.extend(52u16.to_be_bytes());
    bytes.extend(3u16.to_be_bytes());
    for e in &pool {
        bytes.extend(e);
    }
    bytes.extend(0x21u16.to_be_bytes());
    bytes.extend(0u16.to_be_bytes());
    bytes.extend(0u16.to_be_bytes());
    bytes.extend(0u16.to_be_bytes());
    bytes.extend(0u16.to_be_bytes());
    bytes.extend(0u16.to_be_bytes());
    assert_eq!(get_class(&bytes).err(), Some(ParseError::InvalidPoolReference));
}

#[test]
fn unbounded_recursion_exhausts_call_depth() {
    let pool = two_method_pool("f", "()I");
    // f calls itself forever.
    let f = method_record(
        0x0008,
        4,
        5,
        &[code_attribute(1, 1, 0, &[184, 0, 9, 172], &[])],
    );
    let main = method_record(
        0x0009,
        2,
        3,
        &[code_attribute(1, 1, 1, &[184, 0, 9, 182, 0, 0, 177], &[])],
    );
    let bytes = class_bytes(&pool, &[f, main]);
    let (r, _) = run_bytes(&bytes);
    assert_eq!(r, Err(VmError::CallDepthExceeded));
}
