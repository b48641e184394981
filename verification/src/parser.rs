//! The class-file parser: a specification-level parser over the byte
//! sequence (`parse_class` and its pieces) and the executable parser,
//! proved to produce exactly what the specification produces.

use vstd::prelude::*;

use crate::types::{
    AttributeInfo, ClassFile, ClassHeader, ClassInfo, Code, ConstantPool, Method, MethodInfo,
    SpecClassFile, SpecCode, SpecConstant, SpecMethod, entry_wf, pool_wf,
};

verus! {

/// A fatal parse error: the byte stream does not hold a class file of
/// the supported subset.
#[derive(Clone, Copy, Debug, PartialEq, Eq, Structural)]
pub enum ParseError {
    /// The stream ended inside a record, or an attribute payload is too
    /// short for the code it declares.
    UnexpectedEof,
    /// A constant-pool tag outside the supported set.
    UnsupportedTag(u8),
    /// A constant-pool count of zero.
    BadPoolCount,
    /// A nonzero interface count.
    InterfacesUnsupported,
    /// A nonzero field count.
    FieldsUnsupported,
    /// A pool index outside `1 ..= pool len`.
    BadPoolIndex,
    /// A name or descriptor index named a constant that is not a `Utf8`.
    ExpectedUtf8,
    /// An index held by a pool entry does not resolve to the expected
    /// variant.
    InvalidPoolReference,
    /// A method without the static access bit.
    NonStaticMethod,
    /// A method with two `Code` attributes.
    DuplicateCode,
    /// A method without a `Code` attribute.
    MissingCode,
    /// A `Utf8` constant whose payload is not well-formed UTF-8.
    MalformedUtf8,
}

/// A UTF-8 continuation byte.
pub open spec fn utf8_tail(b: u8) -> bool {
    0x80 <= b && b <= 0xBF
}

/// The bytes from `p` on are a well-formed UTF-8 sequence: ASCII and
/// the two-, three- and four-byte forms, with overlong encodings,
/// surrogates and values past the last code point excluded by the
/// ranges allowed for the first two bytes.
pub open spec fn utf8_valid_from(s: Seq<u8>, p: int) -> bool
    decreases s.len() - p,
{
    if p < 0 || p >= s.len() {
        true
    } else {
        let b0 = s[p];
        if b0 <= 0x7F {
            utf8_valid_from(s, p + 1)
        } else if 0xC2 <= b0 && b0 <= 0xDF {
            if p + 1 < s.len() {
                utf8_tail(s[p + 1]) && utf8_valid_from(s, p + 2)
            } else {
                false
            }
        } else if b0 == 0xE0 {
            if p + 2 < s.len() {
                0xA0 <= s[p + 1] && s[p + 1] <= 0xBF && utf8_tail(s[p + 2]) && utf8_valid_from(
                    s,
                    p + 3,
                )
            } else {
                false
            }
        } else if (0xE1 <= b0 && b0 <= 0xEC) || b0 == 0xEE || b0 == 0xEF {
            if p + 2 < s.len() {
                utf8_tail(s[p + 1]) && utf8_tail(s[p + 2]) && utf8_valid_from(s, p + 3)
            } else {
                false
            }
        } else if b0 == 0xED {
            if p + 2 < s.len() {
                0x80 <= s[p + 1] && s[p + 1] <= 0x9F && utf8_tail(s[p + 2]) && utf8_valid_from(
                    s,
                    p + 3,
                )
            } else {
                false
            }
        } else if b0 == 0xF0 {
            if p + 3 < s.len() {
                0x90 <= s[p + 1] && s[p + 1] <= 0xBF && utf8_tail(s[p + 2]) && utf8_tail(s[p + 3])
                    && utf8_valid_from(s, p + 4)
            } else {
                false
            }
        } else if 0xF1 <= b0 && b0 <= 0xF3 {
            if p + 3 < s.len() {
                utf8_tail(s[p + 1]) && utf8_tail(s[p + 2]) && utf8_tail(s[p + 3])
                    && utf8_valid_from(s, p + 4)
            } else {
                false
            }
        } else if b0 == 0xF4 {
            if p + 3 < s.len() {
                0x80 <= s[p + 1] && s[p + 1] <= 0x8F && utf8_tail(s[p + 2]) && utf8_tail(s[p + 3])
                    && utf8_valid_from(s, p + 4)
            } else {
                false
            }
        } else {
            false
        }
    }
}

/// The whole byte sequence is well-formed UTF-8.
pub open spec fn is_valid_utf8(s: Seq<u8>) -> bool {
    utf8_valid_from(s, 0)
}

/// One byte at `p`.
pub open spec fn r_u8(s: Seq<u8>, p: int) -> Result<(u8, int), ParseError> {
    if 0 <= p && p + 1 <= s.len() {
        Ok((s[p], p + 1))
    } else {
        Err(ParseError::UnexpectedEof)
    }
}

/// A big-endian 16-bit value at `p`.
pub open spec fn r_u16(s: Seq<u8>, p: int) -> Result<(u16, int), ParseError> {
    if 0 <= p && p + 2 <= s.len() {
        Ok((((s[p] as int) * 0x100 + s[p + 1]) as u16, p + 2))
    } else {
        Err(ParseError::UnexpectedEof)
    }
}

/// A big-endian 32-bit value at `p`.
pub open spec fn r_u32(s: Seq<u8>, p: int) -> Result<(u32, int), ParseError> {
    if 0 <= p && p + 4 <= s.len() {
        Ok(
            (
                ((s[p] as int) * 0x100_0000 + (s[p + 1] as int) * 0x1_0000 + (s[p + 2] as int)
                    * 0x100 + s[p + 3]) as u32,
                p + 4,
            ),
        )
    } else {
        Err(ParseError::UnexpectedEof)
    }
}

/// A 32-bit wire value read as a signed two's-complement integer.
pub open spec fn sint32_of(v: u32) -> i32 {
    if v >= 0x8000_0000 {
        (v - 0x1_0000_0000) as i32
    } else {
        v as i32
    }
}

/// Read one byte and advance the cursor.
pub fn read_1_byte(buf: &Vec<u8>, pos: &mut usize) -> (r: Result<u8, ParseError>)
    ensures
        match r {
            Ok(v) => r_u8(buf@, *old(pos) as int) == Ok::<(u8, int), ParseError>(
                (v, *final(pos) as int),
            ),
            Err(e) => r_u8(buf@, *old(pos) as int) == Err::<(u8, int), ParseError>(e) && *final(pos)
                == *old(pos),
        },
{
    if *pos < buf.len() {
        let v = buf[*pos];
        *pos = *pos + 1;
        Ok(v)
    } else {
        Err(ParseError::UnexpectedEof)
    }
}

/// Read a big-endian 16-bit value and advance the cursor.
pub fn read_2_bytes(buf: &Vec<u8>, pos: &mut usize) -> (r: Result<u16, ParseError>)
    ensures
        match r {
            Ok(v) => r_u16(buf@, *old(pos) as int) == Ok::<(u16, int), ParseError>(
                (v, *final(pos) as int),
            ),
            Err(e) => r_u16(buf@, *old(pos) as int) == Err::<(u16, int), ParseError>(e) && *final(pos) == *old(pos),
        },
{
    if buf.len() >= 2 && *pos <= buf.len() - 2 {
        let b1 = buf[*pos];
        let b2 = buf[*pos + 1];
        *pos = *pos + 2;
        Ok((b1 as u16) * 0x100 + (b2 as u16))
    } else {
        Err(ParseError::UnexpectedEof)
    }
}

/// Read a big-endian 32-bit value and advance the cursor.
pub fn read_4_bytes(buf: &Vec<u8>, pos: &mut usize) -> (r: Result<u32, ParseError>)
    ensures
        match r {
            Ok(v) => r_u32(buf@, *old(pos) as int) == Ok::<(u32, int), ParseError>(
                (v, *final(pos) as int),
            ),
            Err(e) => r_u32(buf@, *old(pos) as int) == Err::<(u32, int), ParseError>(e) && *final(pos) == *old(pos),
        },
{
    if buf.len() >= 4 && *pos <= buf.len() - 4 {
        let b1 = buf[*pos];
        let b2 = buf[*pos + 1];
        let b3 = buf[*pos + 2];
        let b4 = buf[*pos + 3];
        *pos = *pos + 4;
        Ok((b1 as u32) * 0x100_0000 + (b2 as u32) * 0x1_0000 + (b3 as u32) * 0x100 + (b4 as u32))
    } else {
        Err(ParseError::UnexpectedEof)
    }
}

/// The bytes of the attribute name `Code`.
pub open spec fn code_attr_name() -> Seq<u8> {
    seq![0x43u8, 0x6fu8, 0x64u8, 0x65u8]
}

/// The header: magic and version, read and kept only for the record.
pub open spec fn parse_header(s: Seq<u8>, p: int) -> Result<(ClassHeader, int), ParseError> {
    match r_u32(s, p) {
        Err(e) => Err(e),
        Ok((magic, p1)) => match r_u16(s, p1) {
            Err(e) => Err(e),
            Ok((minor, p2)) => match r_u16(s, p2) {
                Err(e) => Err(e),
                Ok((major, p3)) => Ok(
                    (ClassHeader { magic, minor_version: minor, major_version: major }, p3),
                ),
            },
        },
    }
}

/// One constant-pool entry: a tag byte and its tag-dependent payload.
pub open spec fn parse_entry(s: Seq<u8>, p: int) -> Result<(SpecConstant, int), ParseError> {
    match r_u8(s, p) {
        Err(e) => Err(e),
        Ok((tag, p1)) => {
            if tag == 1 {
                match r_u16(s, p1) {
                    Err(e) => Err(e),
                    Ok((len, p2)) => {
                        if p2 + len > s.len() {
                            Err(ParseError::UnexpectedEof)
                        } else if !is_valid_utf8(s.subrange(p2, p2 + len)) {
                            Err(ParseError::MalformedUtf8)
                        } else {
                            Ok((SpecConstant::Utf8 { bytes: s.subrange(p2, p2 + len) }, p2 + len))
                        }
                    },
                }
            } else if tag == 3 {
                match r_u32(s, p1) {
                    Err(e) => Err(e),
                    Ok((v, p2)) => Ok((SpecConstant::Integer { value: sint32_of(v) }, p2)),
                }
            } else if tag == 7 {
                match r_u16(s, p1) {
                    Err(e) => Err(e),
                    Ok((ix, p2)) => Ok((SpecConstant::Class { starting_index: ix }, p2)),
                }
            } else if tag == 9 || tag == 10 {
                match r_u16(s, p1) {
                    Err(e) => Err(e),
                    Ok((ci, p2)) => match r_u16(s, p2) {
                        Err(e) => Err(e),
                        Ok((nti, p3)) => Ok(
                            (
                                SpecConstant::MethodOrFieldRef {
                                    class_index: ci,
                                    name_and_type_index: nti,
                                },
                                p3,
                            ),
                        ),
                    },
                }
            } else if tag == 12 {
                match r_u16(s, p1) {
                    Err(e) => Err(e),
                    Ok((ni, p2)) => match r_u16(s, p2) {
                        Err(e) => Err(e),
                        Ok((di, p3)) => Ok(
                            (
                                SpecConstant::NameAndType {
                                    name_index: ni,
                                    descriptor_index: di,
                                },
                                p3,
                            ),
                        ),
                    },
                }
            } else {
                Err(ParseError::UnsupportedTag(tag))
            }
        },
    }
}

/// `k` further constant-pool entries after the ones in `acc`.
pub open spec fn parse_entries(s: Seq<u8>, p: int, k: nat, acc: Seq<SpecConstant>) -> Result<
    (Seq<SpecConstant>, int),
    ParseError,
>
    decreases k,
{
    if k == 0 {
        Ok((acc, p))
    } else {
        match parse_entry(s, p) {
            Err(e) => Err(e),
            Ok((c0, p1)) => parse_entries(s, p1, (k - 1) as nat, acc.push(c0)),
        }
    }
}

/// The constant pool: a count, then `count - 1` entries.
pub open spec fn parse_constant_pool(s: Seq<u8>, p: int) -> Result<
    (Seq<SpecConstant>, int),
    ParseError,
> {
    match r_u16(s, p) {
        Err(e) => Err(e),
        Ok((count, p1)) => {
            if count == 0 {
                Err(ParseError::BadPoolCount)
            } else {
                parse_entries(s, p1, (count - 1) as nat, Seq::empty())
            }
        },
    }
}

/// The class record after the pool; interfaces and fields must be absent.
pub open spec fn parse_class_info(s: Seq<u8>, p: int) -> Result<(ClassInfo, int), ParseError> {
    match r_u16(s, p) {
        Err(e) => Err(e),
        Ok((access_flags, p1)) => match r_u16(s, p1) {
            Err(e) => Err(e),
            Ok((this_class, p2)) => match r_u16(s, p2) {
                Err(e) => Err(e),
                Ok((super_class, p3)) => match r_u16(s, p3) {
                    Err(e) => Err(e),
                    Ok((interfaces_count, p4)) => {
                        if interfaces_count != 0 {
                            Err(ParseError::InterfacesUnsupported)
                        } else {
                            match r_u16(s, p4) {
                                Err(e) => Err(e),
                                Ok((fields_count, p5)) => {
                                    if fields_count != 0 {
                                        Err(ParseError::FieldsUnsupported)
                                    } else {
                                        Ok(
                                            (
                                                ClassInfo { access_flags, this_class, super_class },
                                                p5,
                                            ),
                                        )
                                    }
                                },
                            }
                        }
                    },
                },
            },
        },
    }
}

/// One attribute record. A `Code` attribute is decoded into `acc` (two
/// of them are an error); any other attribute is skipped whole.
pub open spec fn parse_attribute(
    s: Seq<u8>,
    p: int,
    pool: Seq<SpecConstant>,
    acc: Option<SpecCode>,
) -> Result<(Option<SpecCode>, int), ParseError> {
    match r_u16(s, p) {
        Err(e) => Err(e),
        Ok((name_index, p1)) => match r_u32(s, p1) {
            Err(e) => Err(e),
            Ok((alen, p2)) => {
                if p2 + alen > s.len() {
                    Err(ParseError::UnexpectedEof)
                } else if !crate::types::pool_index_ok(pool, name_index as int) {
                    Err(ParseError::BadPoolIndex)
                } else {
                    match crate::types::pool_at(pool, name_index as int) {
                        SpecConstant::Utf8 { bytes: aname } => {
                            if aname == code_attr_name() {
                                if acc is Some {
                                    Err(ParseError::DuplicateCode)
                                } else if alen < 8 {
                                    Err(ParseError::UnexpectedEof)
                                } else {
                                    let max_stack = ((s[p2] as int) * 0x100 + s[p2 + 1]) as u16;
                                    let max_locals = ((s[p2 + 2] as int) * 0x100 + s[p2 + 3]) as u16;
                                    let code_length = ((s[p2 + 4] as int) * 0x100_0000 + (s[p2 + 5] as int)
                                        * 0x1_0000 + (s[p2 + 6] as int) * 0x100 + s[p2 + 7]) as u32;
                                    if code_length > alen - 8 {
                                        Err(ParseError::UnexpectedEof)
                                    } else {
                                        Ok(
                                            (
                                                Some(
                                                    SpecCode {
                                                        max_stack,
                                                        max_locals,
                                                        code_length,
                                                        code: s.subrange(p2 + 8, p2 + 8 + code_length),
                                                    },
                                                ),
                                                p2 + alen,
                                            ),
                                        )
                                    }
                                }
                            } else {
                                Ok((acc, p2 + alen))
                            }
                        },
                        _ => Err(ParseError::ExpectedUtf8),
                    }
                }
            },
        },
    }
}

/// Fold `k` attribute records into the `Code` accumulator.
pub open spec fn parse_attributes(
    s: Seq<u8>,
    p: int,
    pool: Seq<SpecConstant>,
    k: nat,
    acc: Option<SpecCode>,
) -> Result<(Option<SpecCode>, int), ParseError>
    decreases k,
{
    if k == 0 {
        Ok((acc, p))
    } else {
        match parse_attribute(s, p, pool, acc) {
            Err(e) => Err(e),
            Ok((acc2, p2)) => parse_attributes(s, p2, pool, (k - 1) as nat, acc2),
        }
    }
}

/// One method record: access flags, name, descriptor and the one `Code`
/// attribute. A method without the static bit is refused: this machine
/// runs static methods only.
pub open spec fn parse_method(s: Seq<u8>, p: int, pool: Seq<SpecConstant>) -> Result<
    (SpecMethod, int),
    ParseError,
> {
    match r_u16(s, p) {
        Err(e) => Err(e),
        Ok((access_flags, p1)) => match r_u16(s, p1) {
            Err(e) => Err(e),
            Ok((name_index, p2)) => match r_u16(s, p2) {
                Err(e) => Err(e),
                Ok((descriptor_index, p3)) => match r_u16(s, p3) {
                    Err(e) => Err(e),
                    Ok((attributes_count, p4)) => {
                        if !crate::types::pool_index_ok(pool, name_index as int) {
                            Err(ParseError::BadPoolIndex)
                        } else {
                            match crate::types::pool_at(pool, name_index as int) {
                                SpecConstant::Utf8 { bytes: name } => {
                                    if !crate::types::pool_index_ok(pool, descriptor_index as int) {
                                        Err(ParseError::BadPoolIndex)
                                    } else {
                                        match crate::types::pool_at(pool, descriptor_index as int) {
                                            SpecConstant::Utf8 { bytes: descriptor } => {
                                                if access_flags & 0x0008 == 0 {
                                                    Err(ParseError::NonStaticMethod)
                                                } else {
                                                    match parse_attributes(
                                                        s,
                                                        p4,
                                                        pool,
                                                        attributes_count as nat,
                                                        None,
                                                    ) {
                                                        Err(e) => Err(e),
                                                        Ok((None, _)) => Err(ParseError::MissingCode),
                                                        Ok((Some(code), p5)) => Ok(
                                                            (
                                                                SpecMethod { name, descriptor, code },
                                                                p5,
                                                            ),
                                                        ),
                                                    }
                                                }
                                            },
                                            _ => Err(ParseError::ExpectedUtf8),
                                        }
                                    }
                                },
                                _ => Err(ParseError::ExpectedUtf8),
                            }
                        }
                    },
                },
            },
        },
    }
}

/// `k` further method records after the ones in `acc`.
pub open spec fn parse_methods(
    s: Seq<u8>,
    p: int,
    pool: Seq<SpecConstant>,
    k: nat,
    acc: Seq<SpecMethod>,
) -> Result<(Seq<SpecMethod>, int), ParseError>
    decreases k,
{
    if k == 0 {
        Ok((acc, p))
    } else {
        match parse_method(s, p, pool) {
            Err(e) => Err(e),
            Ok((m, p1)) => parse_methods(s, p1, pool, (k - 1) as nat, acc.push(m)),
        }
    }
}

/// The method table: a count, then that many method records.
pub open spec fn parse_methods_section(s: Seq<u8>, p: int, pool: Seq<SpecConstant>) -> Result<
    (Seq<SpecMethod>, int),
    ParseError,
> {
    match r_u16(s, p) {
        Err(e) => Err(e),
        Ok((mc, p1)) => parse_methods(s, p1, pool, mc as nat, Seq::empty()),
    }
}

/// A whole class file: header, constant pool (validated: every index a
/// pool entry holds resolves to the expected variant), class record,
/// method table. Bytes after the method table are ignored.
pub open spec fn parse_class(s: Seq<u8>) -> Result<SpecClassFile, ParseError> {
    match parse_header(s, 0) {
        Err(e) => Err(e),
        Ok((_, p1)) => match parse_constant_pool(s, p1) {
            Err(e) => Err(e),
            Ok((pool, p2)) => {
                if !pool_wf(pool) {
                    Err(ParseError::InvalidPoolReference)
                } else {
                    match parse_class_info(s, p2) {
                        Err(e) => Err(e),
                        Ok((_, p3)) => match parse_methods_section(s, p3, pool) {
                            Err(e) => Err(e),
                            Ok((methods, _)) => Ok(
                                SpecClassFile { constant_pool: pool, methods },
                            ),
                        },
                    }
                }
            },
        },
    }
}

/// Every parsed method's code array is exactly as long as its declared
/// `code_length`.
pub open spec fn methods_code_wf(c: SpecClassFile) -> bool {
    forall|i: int|
        0 <= i < c.methods.len() ==> (#[trigger] c.methods[i]).code.code.len()
            == c.methods[i].code.code_length
}

/// Copy `n` bytes from the cursor and advance it.
#[verifier::loop_isolation(false)]
fn read_bytes(buf: &Vec<u8>, pos: &mut usize, n: usize) -> (r: Result<Vec<u8>, ParseError>)
    ensures
        match r {
            Ok(v) => *old(pos) + n <= buf@.len() && v@ == buf@.subrange(
                *old(pos) as int,
                *old(pos) + n,
            ) && *final(pos) == *old(pos) + n,
            Err(e) => *old(pos) + n > buf@.len() && e == ParseError::UnexpectedEof,
        },
{
    if n > buf.len() || *pos > buf.len() - n {
        return Err(ParseError::UnexpectedEof);
    }
    let start = *pos;
    let mut v: Vec<u8> = Vec::new();
    let mut i: usize = 0;
    while i < n
        invariant
            start + n <= buf@.len(),
            0 <= i <= n,
            v@ == buf@.subrange(start as int, start + i),
        decreases n - i,
    {
        let x = buf[start + i];
        v.push(x);
        proof {
            assert(buf@.subrange(start as int, start + i).push(x) =~= buf@.subrange(
                start as int,
                start + i + 1,
            ));
        }
        i = i + 1;
    }
    *pos = start + n;
    Ok(v)
}

#[verifier::loop_isolation(false)]
fn clone_bytes(v: &Vec<u8>) -> (r: Vec<u8>)
    ensures
        r@ == v@,
{
    let mut w: Vec<u8> = Vec::new();
    let n = v.len();
    let mut i: usize = 0;
    while i < n
        invariant
            n == v@.len(),
            0 <= i <= n,
            w@ == v@.subrange(0, i as int),
        decreases n - i,
    {
        let x = v[i];
        w.push(x);
        proof {
            assert(v@.subrange(0, i as int).push(x) =~= v@.subrange(0, i + 1));
        }
        i = i + 1;
    }
    proof {
        assert(v@.subrange(0, n as int) =~= v@);
    }
    w
}

fn is_code_name(v: &Vec<u8>) -> (r: bool)
    ensures
        r == (v@ == code_attr_name()),
{
    let r = v.len() == 4 && v[0] == 0x43 && v[1] == 0x6f && v[2] == 0x64 && v[3] == 0x65;
    proof {
        if r {
            assert(v@ =~= code_attr_name());
        }
    }
    r
}

/// Read the header; magic and version are not validated.
pub fn get_class_header(buf: &Vec<u8>, pos: &mut usize) -> (r: Result<ClassHeader, ParseError>)
    ensures
        match r {
            Ok(h) => parse_header(buf@, *old(pos) as int) == Ok::<(ClassHeader, int), ParseError>(
                (h, *final(pos) as int),
            ),
            Err(e) => parse_header(buf@, *old(pos) as int) == Err::<(ClassHeader, int), ParseError>(
                e,
            ),
        },
{
    let magic = match read_4_bytes(buf, pos) {
        Ok(v) => v,
        Err(e) => {
            return Err(e);
        },
    };
    let minor_version = match read_2_bytes(buf, pos) {
        Ok(v) => v,
        Err(e) => {
            return Err(e);
        },
    };
    let major_version = match read_2_bytes(buf, pos) {
        Ok(v) => v,
        Err(e) => {
            return Err(e);
        },
    };
    Ok(ClassHeader { magic, minor_version, major_version })
}

/// Check a whole byte array for UTF-8 well-formedness.
#[verifier::loop_isolation(false)]
fn utf8_ok(v: &Vec<u8>) -> (r: bool)
    ensures
        r == is_valid_utf8(v@),
{
    let n = v.len();
    let mut i: usize = 0;
    while i < n
        invariant
            0 <= i <= n,
            utf8_valid_from(v@, 0) == utf8_valid_from(v@, i as int),
        decreases n - i,
    {
        let b0 = v[i];
        if b0 <= 0x7F {
            i = i + 1;
        } else if 0xC2 <= b0 && b0 <= 0xDF {
            if !(n - i > 1 && 0x80 <= v[i + 1] && v[i + 1] <= 0xBF) {
                return false;
            }
            i = i + 2;
        } else if b0 == 0xE0 {
            if !(n - i > 2 && 0xA0 <= v[i + 1] && v[i + 1] <= 0xBF && 0x80 <= v[i + 2] && v[i + 2]
                <= 0xBF) {
                return false;
            }
            i = i + 3;
        } else if (0xE1 <= b0 && b0 <= 0xEC) || b0 == 0xEE || b0 == 0xEF {
            if !(n - i > 2 && 0x80 <= v[i + 1] && v[i + 1] <= 0xBF && 0x80 <= v[i + 2] && v[i + 2]
                <= 0xBF) {
                return false;
            }
            i = i + 3;
        } else if b0 == 0xED {
            if !(n - i > 2 && 0x80 <= v[i + 1] && v[i + 1] <= 0x9F && 0x80 <= v[i + 2] && v[i + 2]
                <= 0xBF) {
                return false;
            }
            i = i + 3;
        } else if b0 == 0xF0 {
            if !(n - i > 3 && 0x90 <= v[i + 1] && v[i + 1] <= 0xBF && 0x80 <= v[i + 2] && v[i + 2]
                <= 0xBF && 0x80 <= v[i + 3] && v[i + 3] <= 0xBF) {
                return false;
            }
            i = i + 4;
        } else if 0xF1 <= b0 && b0 <= 0xF3 {
            if !(n - i > 3 && 0x80 <= v[i + 1] && v[i + 1] <= 0xBF && 0x80 <= v[i + 2] && v[i + 2]
                <= 0xBF && 0x80 <= v[i + 3] && v[i + 3] <= 0xBF) {
                return false;
            }
            i = i + 4;
        } else if b0 == 0xF4 {
            if !(n - i > 3 && 0x80 <= v[i + 1] && v[i + 1] <= 0x8F && 0x80 <= v[i + 2] && v[i + 2]
                <= 0xBF && 0x80 <= v[i + 3] && v[i + 3] <= 0xBF) {
                return false;
            }
            i = i + 4;
        } else {
            return false;
        }
    }
    true
}

/// Read one constant-pool entry.
fn read_constant(buf: &Vec<u8>, pos: &mut usize) -> (r: Result<ConstantPool, ParseError>)
    ensures
        match r {
            Ok(cst) => parse_entry(buf@, *old(pos) as int) == Ok::<(SpecConstant, int), ParseError>(
                (cst@, *final(pos) as int),
            ),
            Err(e) => parse_entry(buf@, *old(pos) as int) == Err::<(SpecConstant, int), ParseError>(
                e,
            ),
        },
{
    let tag = match read_1_byte(buf, pos) {
        Ok(v) => v,
        Err(e) => {
            return Err(e);
        },
    };
    match tag {
        1 => {
            let length = match read_2_bytes(buf, pos) {
                Ok(v) => v,
                Err(e) => {
                    return Err(e);
                },
            };
            let bytes = match read_bytes(buf, pos, length as usize) {
                Ok(v) => v,
                Err(e) => {
                    return Err(e);
                },
            };
            if !utf8_ok(&bytes) {
                return Err(ParseError::MalformedUtf8);
            }
            Ok(ConstantPool::Utf8(bytes))
        },
        3 => {
            let v = match read_4_bytes(buf, pos) {
                Ok(v) => v,
                Err(e) => {
                    return Err(e);
                },
            };
            let value: i32 = if v >= 0x8000_0000 {
                ((v as i64) - 0x1_0000_0000) as i32
            } else {
                v as i32
            };
            Ok(ConstantPool::Integer { bytes: value })
        },
        7 => {
            let starting_index = match read_2_bytes(buf, pos) {
                Ok(v) => v,
                Err(e) => {
                    return Err(e);
                },
            };
            Ok(ConstantPool::Class { starting_index })
        },
        9 | 10 => {
            let class_index = match read_2_bytes(buf, pos) {
                Ok(v) => v,
                Err(e) => {
                    return Err(e);
                },
            };
            let name_and_type_index = match read_2_bytes(buf, pos) {
                Ok(v) => v,
                Err(e) => {
                    return Err(e);
                },
            };
            Ok(ConstantPool::MethodOrFieldRef { class_index, name_and_type_index })
        },
        12 => {
            let name_index = match read_2_bytes(buf, pos) {
                Ok(v) => v,
                Err(e) => {
                    return Err(e);
                },
            };
            let descriptor_index = match read_2_bytes(buf, pos) {
                Ok(v) => v,
                Err(e) => {
                    return Err(e);
                },
            };
            Ok(ConstantPool::NameAndType { name_index, descriptor_index })
        },
        x => Err(ParseError::UnsupportedTag(x)),
    }
}

/// Read the whole constant pool.
#[verifier::loop_isolation(false)]
pub fn get_constant_pool(buf: &Vec<u8>, pos: &mut usize) -> (r: Result<Vec<ConstantPool>, ParseError>)
    ensures
        match r {
            Ok(cp) => parse_constant_pool(buf@, *old(pos) as int) == Ok::<
                (Seq<SpecConstant>, int),
                ParseError,
            >((cp.deep_view(), *final(pos) as int)),
            Err(e) => parse_constant_pool(buf@, *old(pos) as int) == Err::<
                (Seq<SpecConstant>, int),
                ParseError,
            >(e),
        },
{
    let count = match read_2_bytes(buf, pos) {
        Ok(v) => v,
        Err(e) => {
            return Err(e);
        },
    };
    if count == 0 {
        return Err(ParseError::BadPoolCount);
    }
    let k = (count - 1) as usize;
    let ghost p1 = *pos as int;
    let mut cp: Vec<ConstantPool> = Vec::new();
    proof {
        assert(cp.deep_view() =~= Seq::<SpecConstant>::empty());
    }
    let mut i: usize = 0;
    while i < k
        invariant
            0 <= i <= k,
            parse_entries(buf@, p1, k as nat, Seq::empty()) == parse_entries(
                buf@,
                *pos as int,
                (k - i) as nat,
                cp.deep_view(),
            ),
        decreases k - i,
    {
        let ghost cpv = cp.deep_view();
        let cst = match read_constant(buf, pos) {
            Ok(c) => c,
            Err(e) => {
                return Err(e);
            },
        };
        cp.push(cst);
        proof {
            assert(cp.deep_view() =~= cpv.push(cst@));
        }
        i = i + 1;
    }
    Ok(cp)
}

/// Read the class record; nonzero interface or field counts are fatal.
pub fn get_class_info(buf: &Vec<u8>, pos: &mut usize) -> (r: Result<ClassInfo, ParseError>)
    ensures
        match r {
            Ok(info) => parse_class_info(buf@, *old(pos) as int) == Ok::<
                (ClassInfo, int),
                ParseError,
            >((info, *final(pos) as int)),
            Err(e) => parse_class_info(buf@, *old(pos) as int) == Err::<
                (ClassInfo, int),
                ParseError,
            >(e),
        },
{
    let access_flags = match read_2_bytes(buf, pos) {
        Ok(v) => v,
        Err(e) => {
            return Err(e);
        },
    };
    let this_class = match read_2_bytes(buf, pos) {
        Ok(v) => v,
        Err(e) => {
            return Err(e);
        },
    };
    let super_class = match read_2_bytes(buf, pos) {
        Ok(v) => v,
        Err(e) => {
            return Err(e);
        },
    };
    let interfaces_count = match read_2_bytes(buf, pos) {
        Ok(v) => v,
        Err(e) => {
            return Err(e);
        },
    };
    if interfaces_count != 0 {
        return Err(ParseError::InterfacesUnsupported);
    }
    let fields_count = match read_2_bytes(buf, pos) {
        Ok(v) => v,
        Err(e) => {
            return Err(e);
        },
    };
    if fields_count != 0 {
        return Err(ParseError::FieldsUnsupported);
    }
    Ok(ClassInfo { access_flags, this_class, super_class })
}

/// Read one attribute record into the `Code` accumulator.
fn read_attribute(
    buf: &Vec<u8>,
    pos: &mut usize,
    cp: &Vec<ConstantPool>,
    found: &mut Option<Code>,
) -> (r: Result<(), ParseError>)
    ensures
        match r {
            Ok(()) => parse_attribute(
                buf@,
                *old(pos) as int,
                cp.deep_view(),
                old(found).deep_view(),
            ) == Ok::<(Option<SpecCode>, int), ParseError>(
                (final(found).deep_view(), *final(pos) as int),
            ),
            Err(e) => parse_attribute(
                buf@,
                *old(pos) as int,
                cp.deep_view(),
                old(found).deep_view(),
            ) == Err::<(Option<SpecCode>, int), ParseError>(e),
        },
{
    let info = AttributeInfo {
        attribute_name_index: match read_2_bytes(buf, pos) {
            Ok(v) => v,
            Err(e) => {
                return Err(e);
            },
        },
        attribute_length: match read_4_bytes(buf, pos) {
            Ok(v) => v,
            Err(e) => {
                return Err(e);
            },
        },
    };
    let alen = info.attribute_length as usize;
    if alen > buf.len() || *pos > buf.len() - alen {
        return Err(ParseError::UnexpectedEof);
    }
    let name_index = info.attribute_name_index;
    if name_index < 1 || (name_index as usize) > cp.len() {
        return Err(ParseError::BadPoolIndex);
    }
    let aname = match &cp[(name_index as usize) - 1] {
        ConstantPool::Utf8(aname) => aname,
        _ => {
            return Err(ParseError::ExpectedUtf8);
        },
    };
    if is_code_name(aname) {
        if found.is_some() {
            return Err(ParseError::DuplicateCode);
        }
        if alen < 8 {
            return Err(ParseError::UnexpectedEof);
        }
        let payload_start = *pos;
        let max_stack = match read_2_bytes(buf, pos) {
            Ok(v) => v,
            Err(e) => {
                return Err(e);
            },
        };
        let max_locals = match read_2_bytes(buf, pos) {
            Ok(v) => v,
            Err(e) => {
                return Err(e);
            },
        };
        let code_length = match read_4_bytes(buf, pos) {
            Ok(v) => v,
            Err(e) => {
                return Err(e);
            },
        };
        if (code_length as u64) > (info.attribute_length as u64) - 8 {
            return Err(ParseError::UnexpectedEof);
        }
        let code = match read_bytes(buf, pos, code_length as usize) {
            Ok(v) => v,
            Err(e) => {
                return Err(e);
            },
        };
        *pos = payload_start + alen;
        *found = Some(Code { max_stack, max_locals, code_length, code });
        Ok(())
    } else {
        *pos = *pos + alen;
        Ok(())
    }
}

/// Read a method's attributes and keep its single `Code`; zero or two
/// `Code` attributes are fatal.
#[verifier::loop_isolation(false)]
pub fn read_method_attributes(
    buf: &Vec<u8>,
    pos: &mut usize,
    acount: u16,
    cp: &Vec<ConstantPool>,
) -> (r: Result<Code, ParseError>)
    ensures
        ({
            let pa = parse_attributes(
                buf@,
                *old(pos) as int,
                cp.deep_view(),
                acount as nat,
                None,
            );
            match r {
                Ok(code) => pa == Ok::<(Option<SpecCode>, int), ParseError>(
                    (Some(code@), *final(pos) as int),
                ) && code.code@.len() == code.code_length,
                Err(e) => match pa {
                    Ok((acc2, p2)) => acc2 is None && e == ParseError::MissingCode,
                    Err(e2) => e == e2,
                },
            }
        }),
{
    let ghost p0 = *pos as int;
    let mut found: Option<Code> = None;
    let mut i: u16 = 0;
    while i < acount
        invariant
            0 <= i <= acount,
            parse_attributes(buf@, p0, cp.deep_view(), acount as nat, None) == parse_attributes(
                buf@,
                *pos as int,
                cp.deep_view(),
                (acount - i) as nat,
                found.deep_view(),
            ),
            match found {
                Some(code) => code.code@.len() == code.code_length,
                None => true,
            },
        decreases acount - i,
    {
        match read_attribute(buf, pos, cp, &mut found) {
            Ok(()) => {},
            Err(e) => {
                return Err(e);
            },
        };
        i = i + 1;
    }
    match found {
        Some(code) => Ok(code),
        None => Err(ParseError::MissingCode),
    }
}

/// Read one method record.
fn read_method(buf: &Vec<u8>, pos: &mut usize, cp: &Vec<ConstantPool>) -> (r: Result<
    Method,
    ParseError,
>)
    ensures
        match r {
            Ok(m) => parse_method(buf@, *old(pos) as int, cp.deep_view()) == Ok::<
                (SpecMethod, int),
                ParseError,
            >((m@, *final(pos) as int)) && m.code.code@.len() == m.code.code_length,
            Err(e) => parse_method(buf@, *old(pos) as int, cp.deep_view()) == Err::<
                (SpecMethod, int),
                ParseError,
            >(e),
        },
{
    let info = MethodInfo {
        access_flags: match read_2_bytes(buf, pos) {
            Ok(v) => v,
            Err(e) => {
                return Err(e);
            },
        },
        name_index: match read_2_bytes(buf, pos) {
            Ok(v) => v,
            Err(e) => {
                return Err(e);
            },
        },
        descriptor_index: match read_2_bytes(buf, pos) {
            Ok(v) => v,
            Err(e) => {
                return Err(e);
            },
        },
        attributes_count: match read_2_bytes(buf, pos) {
            Ok(v) => v,
            Err(e) => {
                return Err(e);
            },
        },
    };
    if info.name_index < 1 || (info.name_index as usize) > cp.len() {
        return Err(ParseError::BadPoolIndex);
    }
    let name = match &cp[(info.name_index as usize) - 1] {
        ConstantPool::Utf8(n) => clone_bytes(n),
        _ => {
            return Err(ParseError::ExpectedUtf8);
        },
    };
    if info.descriptor_index < 1 || (info.descriptor_index as usize) > cp.len() {
        return Err(ParseError::BadPoolIndex);
    }
    let descriptor = match &cp[(info.descriptor_index as usize) - 1] {
        ConstantPool::Utf8(d) => clone_bytes(d),
        _ => {
            return Err(ParseError::ExpectedUtf8);
        },
    };
    if info.access_flags & 0x0008 == 0 {
        return Err(ParseError::NonStaticMethod);
    }
    let code = match read_method_attributes(buf, pos, info.attributes_count, cp) {
        Ok(c) => c,
        Err(e) => {
            return Err(e);
        },
    };
    Ok(Method { name, descriptor, code })
}

/// Read the whole method table.
#[verifier::loop_isolation(false)]
pub fn get_methods(buf: &Vec<u8>, pos: &mut usize, cp: &Vec<ConstantPool>) -> (r: Result<
    Vec<Method>,
    ParseError,
>)
    ensures
        match r {
            Ok(ms) => parse_methods_section(buf@, *old(pos) as int, cp.deep_view()) == Ok::<
                (Seq<SpecMethod>, int),
                ParseError,
            >((ms.deep_view(), *final(pos) as int)) && (forall|j: int|
                0 <= j < ms.deep_view().len() ==> (#[trigger] ms.deep_view()[j]).code.code.len()
                    == ms.deep_view()[j].code.code_length),
            Err(e) => parse_methods_section(buf@, *old(pos) as int, cp.deep_view()) == Err::<
                (Seq<SpecMethod>, int),
                ParseError,
            >(e),
        },
{
    let method_count = match read_2_bytes(buf, pos) {
        Ok(v) => v,
        Err(e) => {
            return Err(e);
        },
    };
    let ghost p1 = *pos as int;
    let mut methods: Vec<Method> = Vec::new();
    proof {
        assert(methods.deep_view() =~= Seq::<SpecMethod>::empty());
    }
    let mut i: u16 = 0;
    while i < method_count
        invariant
            0 <= i <= method_count,
            parse_methods(buf@, p1, cp.deep_view(), method_count as nat, Seq::empty())
                == parse_methods(
                buf@,
                *pos as int,
                cp.deep_view(),
                (method_count - i) as nat,
                methods.deep_view(),
            ),
            forall|j: int|
                0 <= j < methods.deep_view().len() ==> (#[trigger] methods.deep_view()[j]).code.code.len()
                    == methods.deep_view()[j].code.code_length,
        decreases method_count - i,
    {
        let ghost msv = methods.deep_view();
        let m = match read_method(buf, pos, cp) {
            Ok(m) => m,
            Err(e) => {
                return Err(e);
            },
        };
        methods.push(m);
        proof {
            assert(methods.deep_view() =~= msv.push(methods@[msv.len() as int]@));
        }
        i = i + 1;
    }
    Ok(methods)
}

fn index_is_utf8(cp: &Vec<ConstantPool>, index: u16) -> (r: bool)
    ensures
        r == crate::types::is_utf8_at(cp.deep_view(), index as int),
{
    index >= 1 && (index as usize) <= cp.len() && matches!(
        &cp[(index as usize) - 1],
        ConstantPool::Utf8(_)
    )
}

fn index_is_class(cp: &Vec<ConstantPool>, index: u16) -> (r: bool)
    ensures
        r == crate::types::is_class_at(cp.deep_view(), index as int),
{
    index >= 1 && (index as usize) <= cp.len() && matches!(
        &cp[(index as usize) - 1],
        ConstantPool::Class { .. }
    )
}

fn index_is_name_and_type(cp: &Vec<ConstantPool>, index: u16) -> (r: bool)
    ensures
        r == crate::types::is_name_and_type_at(cp.deep_view(), index as int),
{
    index >= 1 && (index as usize) <= cp.len() && matches!(
        &cp[(index as usize) - 1],
        ConstantPool::NameAndType { .. }
    )
}

fn check_entry(cp: &Vec<ConstantPool>, e: &ConstantPool) -> (r: bool)
    ensures
        r == entry_wf(cp.deep_view(), e@),
{
    match e {
        ConstantPool::Utf8(_) => true,
        ConstantPool::Integer { .. } => true,
        ConstantPool::Class { starting_index } => index_is_utf8(cp, *starting_index),
        ConstantPool::MethodOrFieldRef { class_index, name_and_type_index } => index_is_class(
            cp,
            *class_index,
        ) && index_is_name_and_type(cp, *name_and_type_index),
        ConstantPool::NameAndType { name_index, descriptor_index } => index_is_utf8(
            cp,
            *name_index,
        ) && index_is_utf8(cp, *descriptor_index),
    }
}

/// Check that every index held by a pool entry resolves to the expected
/// variant.
#[verifier::loop_isolation(false)]
pub fn validate_pool(cp: &Vec<ConstantPool>) -> (r: bool)
    ensures
        r == pool_wf(cp.deep_view()),
{
    let n = cp.len();
    let mut k: usize = 0;
    while k < n
        invariant
            0 <= k <= n,
            forall|j: int| 0 <= j < k ==> entry_wf(cp.deep_view(), #[trigger] cp.deep_view()[j]),
        decreases n - k,
    {
        if !check_entry(cp, &cp[k]) {
            proof {
                assert(!entry_wf(cp.deep_view(), cp.deep_view()[k as int]));
            }
            return false;
        }
        k = k + 1;
    }
    true
}

/// Parse a whole class file from its bytes: exactly the `parse_class`
/// result. On success the constant pool is well formed and every
/// method's code array matches its declared length.
pub fn get_class(buf: &Vec<u8>) -> (r: Result<ClassFile, ParseError>)
    ensures
        match r {
            Ok(cf) => parse_class(buf@) == Ok::<SpecClassFile, ParseError>(cf@) && pool_wf(
                cf@.constant_pool,
            ) && methods_code_wf(cf@) && crate::interp::class_code_bounded(cf@),
            Err(e) => parse_class(buf@) == Err::<SpecClassFile, ParseError>(e),
        },
{
    let mut pos: usize = 0;
    match get_class_header(buf, &mut pos) {
        Ok(_) => {},
        Err(e) => {
            return Err(e);
        },
    };
    let constant_pool = match get_constant_pool(buf, &mut pos) {
        Ok(cp) => cp,
        Err(e) => {
            return Err(e);
        },
    };
    if !validate_pool(&constant_pool) {
        return Err(ParseError::InvalidPoolReference);
    }
    match get_class_info(buf, &mut pos) {
        Ok(_) => {},
        Err(e) => {
            return Err(e);
        },
    };
    let method = match get_methods(buf, &mut pos, &constant_pool) {
        Ok(ms) => ms,
        Err(e) => {
            return Err(e);
        },
    };
    Ok(ClassFile { constant_pool, method })
}

} // verus!
