use vstd::prelude::*;

verus! {

/// The base bitmask of a quiet NaN: all eleven exponent bits and the quiet bit are set.
pub const QNAN_BASE: u64 = 0x7ffc000000000000;

/// The sign bit (most significant bit).
pub const SIGN_BIT: u64 = 0x8000000000000000;

/// Payload tag of `nil`.
pub const TAG_NIL: u64 = 1;

/// Payload tag of `false`.
pub const TAG_FALSE: u64 = 2;

/// Payload tag of `true`.
pub const TAG_TRUE: u64 = 3;

/// A cell is a number exactly when it does not carry the whole quiet-NaN prefix.
pub open spec fn bits_is_number(bits: u64) -> bool {
    bits & QNAN_BASE != QNAN_BASE
}

/// The one pattern of `nil`.
pub open spec fn nil_bits() -> u64 {
    QNAN_BASE | TAG_NIL
}

pub open spec fn bits_is_nil(bits: u64) -> bool {
    bits == nil_bits()
}

/// The pattern of a boolean: the quiet-NaN prefix with tag 3 (`true`) or 2 (`false`).
pub open spec fn boolean_bits(b: bool) -> u64 {
    if b {
        QNAN_BASE | TAG_TRUE
    } else {
        QNAN_BASE | TAG_FALSE
    }
}

/// A cell is a boolean exactly when it is one of the two boolean patterns.
pub open spec fn bits_is_boolean(bits: u64) -> bool {
    bits == boolean_bits(true) || bits == boolean_bits(false)
}

/// The truth value that a boolean pattern carries.
pub open spec fn bits_as_boolean(bits: u64) -> bool {
    bits == boolean_bits(true)
}

/// The pattern of an object reference: sign bit, quiet-NaN prefix and the address.
pub open spec fn obj_bits(addr: u64) -> u64 {
    SIGN_BIT | QNAN_BASE | addr
}

/// A cell is an object reference when both the sign bit and the quiet-NaN prefix are present.
pub open spec fn bits_is_obj(bits: u64) -> bool {
    bits & (SIGN_BIT | QNAN_BASE) == (SIGN_BIT | QNAN_BASE)
}

/// The address held by an object reference: the cell with the tag bits cleared.
pub open spec fn bits_as_obj(bits: u64) -> u64 {
    bits & !(SIGN_BIT | QNAN_BASE)
}

/// An address fits in a cell when it does not touch the tag bits (48-bit addressing).
pub open spec fn is_address(addr: u64) -> bool {
    addr & (SIGN_BIT | QNAN_BASE) == 0
}

/// What a cell denotes.
#[derive(Debug, Clone, Copy, PartialEq, Eq, Structural)]
pub enum ValueKind {
    /// A 64-bit float; the cell holds its IEEE 754 bits.
    Number,
    Nil,
    Boolean(bool),
    /// An object reference with its address.
    Object(u64),
    /// A quiet-NaN pattern that none of the other kinds uses.
    Invalid,
}

/// The kind of a cell, tested in the order number, nil, boolean, object.
pub open spec fn kind_of(bits: u64) -> ValueKind {
    if bits_is_number(bits) {
        ValueKind::Number
    } else if bits_is_nil(bits) {
        ValueKind::Nil
    } else if bits_is_boolean(bits) {
        ValueKind::Boolean(bits_as_boolean(bits))
    } else if bits_is_obj(bits) {
        ValueKind::Object(bits_as_obj(bits))
    } else {
        ValueKind::Invalid
    }
}

/// The tagged patterns of the value system: nil is 0x7ffc000000000001, false
/// 0x7ffc000000000002 and true 0x7ffc000000000003 (the quiet-NaN prefix with tags 1, 2, 3).
pub proof fn lemma_tag_patterns()
    ensures
        nil_bits() == 0x7ffc000000000001u64,
        boolean_bits(false) == 0x7ffc000000000002u64,
        boolean_bits(true) == 0x7ffc000000000003u64,
{
    assert((0x7ffc000000000000u64 | 1u64) == 0x7ffc000000000001u64) by (bit_vector);
    assert((0x7ffc000000000000u64 | 2u64) == 0x7ffc000000000002u64) by (bit_vector);
    assert((0x7ffc000000000000u64 | 3u64) == 0x7ffc000000000003u64) by (bit_vector);
}

/// The bit patterns of the value system, written out: a number is any cell without all of
/// 0x7ffc000000000000; an object reference is any cell with all of 0xfffc000000000000 and is
/// made as 0xfffc000000000000 | address; the booleans are 0x7ffc000000000002 and
/// 0x7ffc000000000003 and nil is 0x7ffc000000000001.
pub proof fn lemma_bit_patterns(bits: u64, addr: u64)
    ensures
        bits_is_number(bits) <==> bits & 0x7ffc_0000_0000_0000u64 != 0x7ffc_0000_0000_0000u64,
        bits_is_obj(bits) <==> bits & 0xfffc_0000_0000_0000u64 == 0xfffc_0000_0000_0000u64,
        obj_bits(addr) == 0xfffc_0000_0000_0000u64 | addr,
        bits_as_obj(bits) == bits & 0x0003_ffff_ffff_ffffu64,
        bits_is_nil(bits) <==> bits == 0x7ffc_0000_0000_0001u64,
        bits_is_boolean(bits) <==> (bits == 0x7ffc_0000_0000_0002u64 || bits
            == 0x7ffc_0000_0000_0003u64),
        bits_as_boolean(bits) <==> bits == 0x7ffc_0000_0000_0003u64,
{
    lemma_tag_patterns();
    assert((0x8000000000000000u64 | 0x7ffc000000000000u64) == 0xfffc_0000_0000_0000u64)
        by (bit_vector);
    assert(!(0x8000000000000000u64 | 0x7ffc000000000000u64) == 0x0003_ffff_ffff_ffffu64)
        by (bit_vector);
}

/// `nil` is nil and nothing else.
pub proof fn lemma_nil_kind()
    ensures
        bits_is_nil(nil_bits()),
        !bits_is_number(nil_bits()),
        !bits_is_boolean(nil_bits()),
        !bits_is_obj(nil_bits()),
        kind_of(nil_bits()) == ValueKind::Nil,
{
    assert(!((0x7ffc000000000000u64 | 1u64) & 0x7ffc000000000000u64 != 0x7ffc000000000000u64))
        by (bit_vector);
    assert((0x7ffc000000000001u64 & (0x8000000000000000u64 | 0x7ffc000000000000u64))
        != (0x8000000000000000u64 | 0x7ffc000000000000u64)) by (bit_vector);
    lemma_tag_patterns();
}

/// A boolean made from `b` is a boolean, nothing else, and reads back as `b`.
pub proof fn lemma_boolean_roundtrip(b: bool)
    ensures
        bits_is_boolean(boolean_bits(b)),
        bits_as_boolean(boolean_bits(b)) == b,
        !bits_is_number(boolean_bits(b)),
        !bits_is_nil(boolean_bits(b)),
        !bits_is_obj(boolean_bits(b)),
        kind_of(boolean_bits(b)) == ValueKind::Boolean(b),
{
    lemma_tag_patterns();
    assert(0x7ffc000000000002u64 & 0x7ffc000000000000u64 == 0x7ffc000000000000u64)
        by (bit_vector);
    assert(0x7ffc000000000003u64 & 0x7ffc000000000000u64 == 0x7ffc000000000000u64)
        by (bit_vector);
    assert((0x8000000000000000u64 | 0x7ffc000000000000u64) == 0xfffc000000000000u64)
        by (bit_vector);
    assert(0x7ffc000000000002u64 & 0xfffc000000000000u64 != 0xfffc000000000000u64)
        by (bit_vector);
    assert(0x7ffc000000000003u64 & 0xfffc000000000000u64 != 0xfffc000000000000u64)
        by (bit_vector);
}

/// An object reference is an object and nothing else; when the address fits in the
/// payload (48-bit addressing) it reads back unchanged.
pub proof fn lemma_obj_roundtrip(addr: u64)
    ensures
        bits_is_obj(obj_bits(addr)),
        !bits_is_number(obj_bits(addr)),
        !bits_is_nil(obj_bits(addr)),
        !bits_is_boolean(obj_bits(addr)),
        is_address(addr) ==> bits_as_obj(obj_bits(addr)) == addr,
        is_address(addr) ==> kind_of(obj_bits(addr)) == ValueKind::Object(addr),
{
    assert((0x8000000000000000u64 | 0x7ffc000000000000u64 | addr)
        & (0x8000000000000000u64 | 0x7ffc000000000000u64)
        == (0x8000000000000000u64 | 0x7ffc000000000000u64)) by (bit_vector);
    assert((0x8000000000000000u64 | 0x7ffc000000000000u64 | addr) & 0x7ffc000000000000u64
        == 0x7ffc000000000000u64) by (bit_vector);
    assert((0x8000000000000000u64 | 0x7ffc000000000000u64 | addr) & 0x8000000000000000u64
        != 0) by (bit_vector);
    assert((0x7ffc000000000000u64 | 1u64) & 0x8000000000000000u64 == 0) by (bit_vector);
    assert((0x7ffc000000000000u64 | 2u64) & 0x8000000000000000u64 == 0) by (bit_vector);
    assert((0x7ffc000000000000u64 | 3u64) & 0x8000000000000000u64 == 0) by (bit_vector);
    assert(addr & (0x8000000000000000u64 | 0x7ffc000000000000u64) == 0 ==> (
    0x8000000000000000u64 | 0x7ffc000000000000u64 | addr) & !(0x8000000000000000u64
        | 0x7ffc000000000000u64) == addr) by (bit_vector);
}

/// The kinds exclude one another: a cell is at most one of number, nil, boolean, object,
/// and its kind names exactly the predicate that holds of it.
pub proof fn lemma_kinds_exclusive(bits: u64)
    ensures
        bits_is_number(bits) ==> !bits_is_nil(bits) && !bits_is_boolean(bits) && !bits_is_obj(
            bits,
        ),
        bits_is_nil(bits) ==> !bits_is_boolean(bits) && !bits_is_obj(bits),
        bits_is_boolean(bits) ==> !bits_is_obj(bits),
        (kind_of(bits) == ValueKind::Number) == bits_is_number(bits),
        (kind_of(bits) == ValueKind::Nil) == bits_is_nil(bits),
        (kind_of(bits) is Boolean) == bits_is_boolean(bits),
        (kind_of(bits) is Object) == bits_is_obj(bits),
{
    lemma_nil_kind();
    lemma_boolean_roundtrip(true);
    lemma_boolean_roundtrip(false);
    assert(bits & (0x8000000000000000u64 | 0x7ffc000000000000u64) == (0x8000000000000000u64
        | 0x7ffc000000000000u64) ==> bits & 0x7ffc000000000000u64 == 0x7ffc000000000000u64)
        by (bit_vector);
}

/// A cell without the whole quiet-NaN prefix (the bits of every float that is not such a
/// NaN) is a number and nothing else.
pub proof fn lemma_number_cell(bits: u64)
    requires
        bits_is_number(bits),
    ensures
        kind_of(bits) == ValueKind::Number,
        !bits_is_nil(bits),
        !bits_is_boolean(bits),
        !bits_is_obj(bits),
{
    lemma_kinds_exclusive(bits);
}

/// A NaN-boxed value: every number, boolean, nil and object reference is one 64-bit cell.
#[derive(Debug, Clone, Copy, PartialEq, Eq, PartialOrd, Ord, Structural)]
pub struct Value(u64);

impl View for Value {
    type V = u64;

    closed spec fn view(&self) -> u64 {
        self.0
    }
}

impl Value {
    /// Two values are equal exactly when their cells are.
    pub proof fn lemma_view_injective(a: Value, b: Value)
        ensures
            a@ == b@ <==> a == b,
    {
    }

    /// The value whose cell is `bits`; a number is made from the bits of its float.
    pub fn from_raw(bits: u64) -> (v: Value)
        ensures
            v@ == bits,
    {
        Value(bits)
    }

    /// Whether the value is a standard float.
    pub fn is_number(&self) -> (r: bool)
        ensures
            r == bits_is_number(self@),
    {
        (self.0 & QNAN_BASE) != QNAN_BASE
    }

    /// The `nil` value.
    pub fn nil() -> (v: Value)
        ensures
            v@ == nil_bits(),
    {
        Value(QNAN_BASE | TAG_NIL)
    }

    pub fn is_nil(&self) -> (r: bool)
        ensures
            r == bits_is_nil(self@),
    {
        self.0 == (QNAN_BASE | TAG_NIL)
    }

    /// The boolean value `b`.
    pub fn boolean(b: bool) -> (v: Value)
        ensures
            v@ == boolean_bits(b),
    {
        if b {
            Value(QNAN_BASE | TAG_TRUE)
        } else {
            Value(QNAN_BASE | TAG_FALSE)
        }
    }

    pub fn is_boolean(&self) -> (r: bool)
        ensures
            r == bits_is_boolean(self@),
    {
        let bits = self.0;
        let r = (bits | 1) == (QNAN_BASE | TAG_TRUE);
        assert(r == (bits == (QNAN_BASE | TAG_TRUE) || bits == (QNAN_BASE | TAG_FALSE)))
            by (bit_vector)
            requires
                r == ((bits | 1) == (QNAN_BASE | TAG_TRUE)),
        ;
        r
    }

    /// The truth value of a boolean.
    pub fn as_boolean(&self) -> (r: bool)
        requires
            bits_is_boolean(self@),
        ensures
            r == bits_as_boolean(self@),
    {
        self.0 == (QNAN_BASE | TAG_TRUE)
    }

    /// The object reference to the heap object at `addr`.
    pub fn obj(addr: u64) -> (v: Value)
        ensures
            v@ == obj_bits(addr),
    {
        Value(SIGN_BIT | QNAN_BASE | addr)
    }

    pub fn is_obj(&self) -> (r: bool)
        ensures
            r == bits_is_obj(self@),
    {
        (self.0 & (SIGN_BIT | QNAN_BASE)) == (SIGN_BIT | QNAN_BASE)
    }

    /// The address held by an object reference.
    pub fn as_obj(&self) -> (addr: u64)
        requires
            bits_is_obj(self@),
        ensures
            addr == bits_as_obj(self@),
    {
        self.0 & !(SIGN_BIT | QNAN_BASE)
    }

    /// The raw cell.
    pub fn raw(&self) -> (bits: u64)
        ensures
            bits == self@,
    {
        self.0
    }

    /// What the value denotes.
    pub fn kind(&self) -> (k: ValueKind)
        ensures
            k == kind_of(self@),
    {
        if self.is_number() {
            ValueKind::Number
        } else if self.is_nil() {
            ValueKind::Nil
        } else if self.is_boolean() {
            ValueKind::Boolean(self.as_boolean())
        } else if self.is_obj() {
            ValueKind::Object(self.as_obj())
        } else {
            ValueKind::Invalid
        }
    }
}

} // verus!
