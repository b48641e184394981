//! The in-memory representation of a parsed class file, together with its
//! mathematical model (the `Spec*` mirror types) and the well-formedness
//! predicate on constant pools.

use vstd::prelude::*;

verus! {

/// The leading bytes of a class file: magic number and format version.
/// All three fields are read and then ignored.
pub struct ClassHeader {
    pub magic: u32,
    pub minor_version: u16,
    pub major_version: u16,
}

/// The fixed-size class record that follows the constant pool.
/// All three fields are read and then ignored.
pub struct ClassInfo {
    pub access_flags: u16,
    pub this_class: u16,
    pub super_class: u16,
}

/// The fixed-size prefix of a method record.
pub struct MethodInfo {
    pub access_flags: u16,
    pub name_index: u16,
    pub descriptor_index: u16,
    pub attributes_count: u16,
}

/// The fixed-size prefix of an attribute record; the payload of
/// `attribute_length` bytes follows it.
pub struct AttributeInfo {
    pub attribute_name_index: u16,
    pub attribute_length: u32,
}

/// The decoded payload of a method's `Code` attribute.
pub struct Code {
    pub max_stack: u16,
    pub max_locals: u16,
    pub code_length: u32,
    pub code: Vec<u8>,
}

/// A method: its name and descriptor (raw bytes of the corresponding
/// `Utf8` constants, compared byte for byte) and its bytecode.
pub struct Method {
    pub name: Vec<u8>,
    pub descriptor: Vec<u8>,
    pub code: Code,
}

/// One constant-pool entry. Only the tags of this strict subset are
/// accepted: 1 (Utf8), 3 (Integer), 7 (Class), 9 and 10 (field and method
/// references, merged), 12 (NameAndType).
pub enum ConstantPool {
    Utf8(Vec<u8>),
    Integer { bytes: i32 },
    Class { starting_index: u16 },
    MethodOrFieldRef { class_index: u16, name_and_type_index: u16 },
    NameAndType { name_index: u16, descriptor_index: u16 },
}

/// A parsed class file: the constant pool (externally 1-indexed; entry `i`
/// of the file sits at position `i - 1`) and the methods, in file order.
pub struct ClassFile {
    pub constant_pool: Vec<ConstantPool>,
    pub method: Vec<Method>,
}

/// Model of a constant-pool entry.
pub enum SpecConstant {
    Utf8 { bytes: Seq<u8> },
    Integer { value: i32 },
    Class { starting_index: u16 },
    MethodOrFieldRef { class_index: u16, name_and_type_index: u16 },
    NameAndType { name_index: u16, descriptor_index: u16 },
}

/// Model of a `Code` attribute payload.
pub struct SpecCode {
    pub max_stack: u16,
    pub max_locals: u16,
    pub code_length: u32,
    pub code: Seq<u8>,
}

/// Model of a method.
pub struct SpecMethod {
    pub name: Seq<u8>,
    pub descriptor: Seq<u8>,
    pub code: SpecCode,
}

/// Model of a class file.
pub struct SpecClassFile {
    pub constant_pool: Seq<SpecConstant>,
    pub methods: Seq<SpecMethod>,
}

impl View for ConstantPool {
    type V = SpecConstant;

    open spec fn view(&self) -> SpecConstant {
        match self {
            ConstantPool::Utf8(b) => SpecConstant::Utf8 { bytes: b@ },
            ConstantPool::Integer { bytes } => SpecConstant::Integer { value: *bytes },
            ConstantPool::Class { starting_index } => SpecConstant::Class {
                starting_index: *starting_index,
            },
            ConstantPool::MethodOrFieldRef { class_index, name_and_type_index } =>
                SpecConstant::MethodOrFieldRef {
                    class_index: *class_index,
                    name_and_type_index: *name_and_type_index,
                },
            ConstantPool::NameAndType { name_index, descriptor_index } =>
                SpecConstant::NameAndType {
                    name_index: *name_index,
                    descriptor_index: *descriptor_index,
                },
        }
    }
}

impl DeepView for ConstantPool {
    type V = SpecConstant;

    open spec fn deep_view(&self) -> SpecConstant {
        self.view()
    }
}

impl View for Code {
    type V = SpecCode;

    open spec fn view(&self) -> SpecCode {
        SpecCode {
            max_stack: self.max_stack,
            max_locals: self.max_locals,
            code_length: self.code_length,
            code: self.code@,
        }
    }
}

impl DeepView for Code {
    type V = SpecCode;

    open spec fn deep_view(&self) -> SpecCode {
        self.view()
    }
}

impl View for Method {
    type V = SpecMethod;

    open spec fn view(&self) -> SpecMethod {
        SpecMethod { name: self.name@, descriptor: self.descriptor@, code: self.code@ }
    }
}

impl DeepView for Method {
    type V = SpecMethod;

    open spec fn deep_view(&self) -> SpecMethod {
        self.view()
    }
}

impl View for ClassFile {
    type V = SpecClassFile;

    open spec fn view(&self) -> SpecClassFile {
        SpecClassFile {
            constant_pool: self.constant_pool.deep_view(),
            methods: self.method.deep_view(),
        }
    }
}

/// An external (1-based) pool index is in range.
pub open spec fn pool_index_ok(pool: Seq<SpecConstant>, index: int) -> bool {
    1 <= index && index <= pool.len()
}

/// The entry at an external (1-based) pool index.
pub open spec fn pool_at(pool: Seq<SpecConstant>, index: int) -> SpecConstant {
    pool[index - 1]
}

/// The external index points at a `Utf8` entry.
pub open spec fn is_utf8_at(pool: Seq<SpecConstant>, index: int) -> bool {
    pool_index_ok(pool, index) && pool_at(pool, index) is Utf8
}

/// The external index points at a `NameAndType` entry.
pub open spec fn is_name_and_type_at(pool: Seq<SpecConstant>, index: int) -> bool {
    pool_index_ok(pool, index) && pool_at(pool, index) is NameAndType
}

/// The external index points at a `Class` entry.
pub open spec fn is_class_at(pool: Seq<SpecConstant>, index: int) -> bool {
    pool_index_ok(pool, index) && pool_at(pool, index) is Class
}

/// Every index held by one entry is in range and targets the expected
/// variant: a `Class` names a `Utf8`; a reference names a `Class` and a
/// `NameAndType`; a `NameAndType` names two `Utf8` entries.
pub open spec fn entry_wf(pool: Seq<SpecConstant>, e: SpecConstant) -> bool {
    match e {
        SpecConstant::Utf8 { .. } => true,
        SpecConstant::Integer { .. } => true,
        SpecConstant::Class { starting_index } => is_utf8_at(pool, starting_index as int),
        SpecConstant::MethodOrFieldRef { class_index, name_and_type_index } =>
            is_class_at(pool, class_index as int)
            && is_name_and_type_at(pool, name_and_type_index as int),
        SpecConstant::NameAndType { name_index, descriptor_index } =>
            is_utf8_at(pool, name_index as int) && is_utf8_at(pool, descriptor_index as int),
    }
}

/// A constant pool is well formed when every entry is.
pub open spec fn pool_wf(pool: Seq<SpecConstant>) -> bool {
    forall|k: int| 0 <= k < pool.len() ==> entry_wf(pool, #[trigger] pool[k])
}

/// In a well-formed pool, the whole resolution chain of a reference
/// succeeds: its `name_and_type_index` targets a `NameAndType` whose
/// `name_index` and `descriptor_index` both target `Utf8` entries.
pub proof fn lemma_ref_chain_resolves(pool: Seq<SpecConstant>, k: int)
    requires
        pool_wf(pool),
        0 <= k < pool.len(),
        pool[k] is MethodOrFieldRef,
    ensures
        is_name_and_type_at(pool, pool[k]->MethodOrFieldRef_name_and_type_index as int),
        is_utf8_at(
            pool,
            pool_at(
                pool,
                pool[k]->MethodOrFieldRef_name_and_type_index as int,
            )->NameAndType_name_index as int,
        ),
        is_utf8_at(
            pool,
            pool_at(
                pool,
                pool[k]->MethodOrFieldRef_name_and_type_index as int,
            )->NameAndType_descriptor_index as int,
        ),
{
    let nti = pool[k]->MethodOrFieldRef_name_and_type_index as int;
    assert(entry_wf(pool, pool[k]));
    assert(entry_wf(pool, pool[nti - 1]));
}

} // verus!
