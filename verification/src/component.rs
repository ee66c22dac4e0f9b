//! Accessor components as typed values, and the glTF tables of component
//! types and element types.

use vstd::prelude::*;
use crate::decode::{decode_index, index_component_size, le_u16_at, le_u32_at};
use vstd::string::StringSliceAdditionalSpecFns;

verus! {

/// One component read from a buffer, with its type. A `FLOAT` component is
/// kept as its 32-bit IEEE-754 bit pattern.
#[derive(Clone, Copy, Debug)]
pub enum DataType {
    U8(u8),
    I8(i8),
    U16(u16),
    I16(i16),
    U32(u32),
    F32(u32),
}

impl DataType {
    /// The component as an unsigned 32-bit integer, signed ones wrapped in
    /// two's complement; `None` for a `FLOAT` component, whose conversion is
    /// a floating-point one.
    pub fn to_uint(&self) -> (r: Option<u32>)
        ensures
            r == match *self {
                DataType::U8(v) => Some(v as u32),
                DataType::I8(v) => Some(v as u32),
                DataType::U16(v) => Some(v as u32),
                DataType::I16(v) => Some(v as u32),
                DataType::U32(v) => Some(v),
                DataType::F32(_) => None::<u32>,
            },
    {
        match self {
            DataType::U8(v) => Some(*v as u32),
            DataType::I8(v) => Some(*v as u32),
            DataType::U16(v) => Some(*v as u32),
            DataType::I16(v) => Some(*v as u32),
            DataType::U32(v) => Some(*v),
            DataType::F32(_) => None,
        }
    }

    /// The component as a signed 64-bit integer; `None` for a `FLOAT`
    /// component, whose conversion is a floating-point one.
    pub fn to_int(&self) -> (r: Option<i64>)
        ensures
            r == match *self {
                DataType::U8(v) => Some(v as i64),
                DataType::I8(v) => Some(v as i64),
                DataType::U16(v) => Some(v as i64),
                DataType::I16(v) => Some(v as i64),
                DataType::U32(v) => Some(v as i64),
                DataType::F32(_) => None::<i64>,
            },
    {
        match self {
            DataType::U8(v) => Some(*v as i64),
            DataType::I8(v) => Some(*v as i64),
            DataType::U16(v) => Some(*v as i64),
            DataType::I16(v) => Some(*v as i64),
            DataType::U32(v) => Some(*v as i64),
            DataType::F32(_) => None,
        }
    }

    /// Whether two components are equal: components of different types never
    /// are, integer ones are when their values are; `None` for two `FLOAT`
    /// components, whose comparison is a floating-point one. Two `UNSIGNED_INT`
    /// components are compared through their difference, so the first must
    /// not be the smaller.
    pub fn eq_value(&self, other: &Self) -> (r: Option<bool>)
        requires
            !(self is U32 && other is U32 && self->U32_0 < other->U32_0),
        ensures
            r == match (*self, *other) {
                (DataType::U8(a), DataType::U8(b)) => Some(a == b),
                (DataType::I8(a), DataType::I8(b)) => Some(a == b),
                (DataType::U16(a), DataType::U16(b)) => Some(a == b),
                (DataType::I16(a), DataType::I16(b)) => Some(a == b),
                (DataType::U32(a), DataType::U32(b)) => Some(a == b),
                (DataType::F32(_), DataType::F32(_)) => None::<bool>,
                _ => Some(false),
            },
    {
        match (self, other) {
            (DataType::U8(a), DataType::U8(b)) => Some(*a == *b),
            (DataType::I8(a), DataType::I8(b)) => Some(*a == *b),
            (DataType::U16(a), DataType::U16(b)) => Some(*a == *b),
            (DataType::I16(a), DataType::I16(b)) => Some(*a == *b),
            (DataType::U32(a), DataType::U32(b)) => Some(*a - *b == 0),
            (DataType::F32(_), DataType::F32(_)) => None,
            _ => Some(false),
        }
    }
}

/// Reads the byte at `x` as a `BYTE` component.
pub fn byte_i8(buff: &[u8], x: usize) -> (r: DataType)
    requires
        x + 1 <= buff@.len(),
    ensures
        r == DataType::I8(buff@[x as int] as i8),
{
    DataType::I8(buff[x] as i8)
}

/// Reads the byte at `x` as an `UNSIGNED_BYTE` component.
pub fn byte_u8(buff: &[u8], x: usize) -> (r: DataType)
    requires
        x + 1 <= buff@.len(),
    ensures
        r == DataType::U8(buff@[x as int]),
{
    DataType::U8(buff[x])
}

/// Reads the little-endian word at `x` as a `SHORT` component.
pub fn byte_i16(buff: &[u8], x: usize) -> (r: DataType)
    requires
        x + 2 <= buff@.len(),
    ensures
        r == DataType::I16(le_u16_at(buff@, x as int) as i16),
{
    let w: u32 = crate::decode::byte_u16(buff, x);
    DataType::I16(w as u16 as i16)
}

/// Reads the little-endian word at `x` as an `UNSIGNED_SHORT` component.
pub fn byte_u16(buff: &[u8], x: usize) -> (r: DataType)
    requires
        x + 2 <= buff@.len(),
    ensures
        r == DataType::U16(le_u16_at(buff@, x as int) as u16),
{
    let w: u32 = crate::decode::byte_u16(buff, x);
    DataType::U16(w as u16)
}

/// Reads the little-endian word at `x` as an `UNSIGNED_INT` component.
pub fn byte_u32(buff: &[u8], x: usize) -> (r: DataType)
    requires
        x + 4 <= buff@.len(),
    ensures
        r == DataType::U32(le_u32_at(buff@, x as int) as u32),
{
    DataType::U32(crate::decode::byte_u32(buff, x))
}

/// Reads the little-endian word at `x` as a `FLOAT` component (its bit pattern).
pub fn byte_f32(buff: &[u8], x: usize) -> (r: DataType)
    requires
        x + 4 <= buff@.len(),
    ensures
        r == DataType::F32(le_u32_at(buff@, x as int) as u32),
{
    DataType::F32(crate::decode::byte_u32(buff, x))
}

/// The component types of glTF accessors.
#[derive(PartialEq, Eq, Structural, Clone, Copy, Debug)]
pub enum ComponentKind {
    I8,
    U8,
    I16,
    U16,
    U32,
    F32,
    Unknown,
}

/// The kind and byte size of a glTF component type code.
pub open spec fn kind_of(t: u64) -> (ComponentKind, usize) {
    if t == 5120 {
        (ComponentKind::I8, 1)
    } else if t == 5121 {
        (ComponentKind::U8, 1)
    } else if t == 5122 {
        (ComponentKind::I16, 2)
    } else if t == 5123 {
        (ComponentKind::U16, 2)
    } else if t == 5125 {
        (ComponentKind::U32, 4)
    } else if t == 5126 {
        (ComponentKind::F32, 4)
    } else {
        (ComponentKind::Unknown, 0)
    }
}

/// The kind and byte size of a glTF component type code (`BYTE` 5120,
/// `UNSIGNED_BYTE` 5121, `SHORT` 5122, `UNSIGNED_SHORT` 5123, `UNSIGNED_INT`
/// 5125, `FLOAT` 5126); an unknown code has size 0.
pub fn component_layout(t: u64) -> (r: (ComponentKind, usize))
    ensures
        r == kind_of(t),
{
    if t == 5120 {
        (ComponentKind::I8, 1)
    } else if t == 5121 {
        (ComponentKind::U8, 1)
    } else if t == 5122 {
        (ComponentKind::I16, 2)
    } else if t == 5123 {
        (ComponentKind::U16, 2)
    } else if t == 5125 {
        (ComponentKind::U32, 4)
    } else if t == 5126 {
        (ComponentKind::F32, 4)
    } else {
        (ComponentKind::Unknown, 0)
    }
}

/// The number of components of a glTF element type, given by the bytes of its
/// name: `SCALAR` 1, `VEC2` 2, `VEC3` 3, `VEC4` 4, `MAT2` 4, `MAT3` 9, `MAT4`
/// 16, anything else 0.
pub open spec fn components_of(name: Seq<u8>) -> usize {
    if name == seq![83u8, 67u8, 65u8, 76u8, 65u8, 82u8] {
        1
    } else if name == seq![86u8, 69u8, 67u8, 50u8] {
        2
    } else if name == seq![86u8, 69u8, 67u8, 51u8] {
        3
    } else if name == seq![86u8, 69u8, 67u8, 52u8] {
        4
    } else if name == seq![77u8, 65u8, 84u8, 50u8] {
        4
    } else if name == seq![77u8, 65u8, 84u8, 51u8] {
        9
    } else if name == seq![77u8, 65u8, 84u8, 52u8] {
        16
    } else {
        0
    }
}

/// The number of components of the element type named `element_type`.
pub fn element_num(element_type: &str) -> (r: usize)
    ensures
        r == components_of(element_type.spec_bytes()),
{
    let b = element_type.as_bytes();
    if b.len() == 6 {
        if b[0] == 83 && b[1] == 67 && b[2] == 65 && b[3] == 76 && b[4] == 65 && b[5] == 82 {
            assert(b@ =~= seq![83u8, 67u8, 65u8, 76u8, 65u8, 82u8]);
            return 1;
        }
        return 0;
    }
    if b.len() != 4 {
        return 0;
    }
    if b[0] == 86 && b[1] == 69 && b[2] == 67 {
        if b[3] == 50 {
            assert(b@ =~= seq![86u8, 69u8, 67u8, 50u8]);
            2
        } else if b[3] == 51 {
            assert(b@ =~= seq![86u8, 69u8, 67u8, 51u8]);
            3
        } else if b[3] == 52 {
            assert(b@ =~= seq![86u8, 69u8, 67u8, 52u8]);
            4
        } else {
            0
        }
    } else if b[0] == 77 && b[1] == 65 && b[2] == 84 {
        if b[3] == 50 {
            assert(b@ =~= seq![77u8, 65u8, 84u8, 50u8]);
            4
        } else if b[3] == 51 {
            assert(b@ =~= seq![77u8, 65u8, 84u8, 51u8]);
            9
        } else if b[3] == 52 {
            assert(b@ =~= seq![77u8, 65u8, 84u8, 52u8]);
            16
        } else {
            0
        }
    } else {
        0
    }
}

/// The byte size of a component kind.
pub open spec fn kind_size(k: ComponentKind) -> usize {
    match k {
        ComponentKind::I8 | ComponentKind::U8 => 1,
        ComponentKind::I16 | ComponentKind::U16 => 2,
        ComponentKind::U32 | ComponentKind::F32 => 4,
        ComponentKind::Unknown => 0,
    }
}

/// The kind of a component value, by its variant.
pub open spec fn value_kind(d: DataType) -> ComponentKind {
    match d {
        DataType::U8(_) => ComponentKind::U8,
        DataType::I8(_) => ComponentKind::I8,
        DataType::U16(_) => ComponentKind::U16,
        DataType::I16(_) => ComponentKind::I16,
        DataType::U32(_) => ComponentKind::U32,
        DataType::F32(_) => ComponentKind::F32,
    }
}

/// The unsigned integer a component holds, for the unsigned kinds.
pub open spec fn unsigned_value(d: DataType) -> Option<int> {
    match d {
        DataType::U8(v) => Some(v as int),
        DataType::U16(v) => Some(v as int),
        DataType::U32(v) => Some(v as int),
        _ => None,
    }
}

/// The component of kind `k` stored at byte `x`.
pub open spec fn decode_kind(k: ComponentKind, buff: Seq<u8>, x: int) -> DataType {
    match k {
        ComponentKind::I8 => DataType::I8(buff[x] as i8),
        ComponentKind::U8 => DataType::U8(buff[x]),
        ComponentKind::I16 => DataType::I16(le_u16_at(buff, x) as i16),
        ComponentKind::U16 => DataType::U16(le_u16_at(buff, x) as u16),
        ComponentKind::U32 => DataType::U32(le_u32_at(buff, x) as u32),
        _ => DataType::F32(le_u32_at(buff, x) as u32),
    }
}

/// A component read for a known kind has the variant of that kind; one of an
/// unsigned kind holds the little-endian unsigned number made of the kind's
/// bytes at `x` (1, 2 or 4 of them).
pub proof fn law_decoded_component_kind(k: ComponentKind, buff: Seq<u8>, x: int)
    requires
        k != ComponentKind::Unknown,
        0 <= x,
        x + kind_size(k) <= buff.len(),
    ensures
        value_kind(decode_kind(k, buff, x)) == k,
        k == ComponentKind::U8 ==> unsigned_value(decode_kind(k, buff, x)) == Some(buff[x] as int),
        k == ComponentKind::U16 ==> unsigned_value(decode_kind(k, buff, x))
            == Some(buff[x] + 256 * buff[x + 1]),
        k == ComponentKind::U32 ==> unsigned_value(decode_kind(k, buff, x))
            == Some(buff[x] + 256 * buff[x + 1] + 65536 * buff[x + 2] + 16777216 * buff[x + 3]),
{
    if k == ComponentKind::U16 {
        assert(0 <= buff[x] + 256 * buff[x + 1] < 0x1_0000);
    }
    if k == ComponentKind::U32 {
        assert(0 <= buff[x] + 256 * buff[x + 1] + 65536 * buff[x + 2] + 16777216 * buff[x + 3] < 0x1_0000_0000);
    }
}

/// The component table and the index table agree on the unsigned index
/// types: the same byte width, and the same value read at any byte.
pub proof fn law_component_table_agrees_with_index_table(t: u32, buff: Seq<u8>, x: int)
    requires
        t == 5121 || t == 5123 || t == 5125,
        0 <= x,
        x + index_component_size(t) <= buff.len(),
    ensures
        kind_of(t as u64).1 == index_component_size(t),
        kind_size(kind_of(t as u64).0) == index_component_size(t),
        unsigned_value(decode_kind(kind_of(t as u64).0, buff, x)) == Some(decode_index(t, buff, x) as int),
{
    law_decoded_component_kind(kind_of(t as u64).0, buff, x);
}

/// Reads the components of `count` elements of `num` components of kind `k`
/// (of `size` bytes each) stored one after the other from byte `off`: element
/// `i`'s component `j` is at `off + (i * num + j) * size`, `size` being the
/// kind's size as [`component_layout`] gives it. Nothing is read for
/// an unknown kind; `None` when the components do not lie within the buffer.
pub fn read_elements(buff: &[u8], off: usize, k: ComponentKind, size: usize, count: usize, num: usize) -> (r: Option<Vec<DataType>>)
    requires
        k != ComponentKind::Unknown ==> size == kind_size(k),
    ensures
        match r {
            Some(v) => if k == ComponentKind::Unknown {
                v@.len() == 0
            } else {
                &&& off + count * num * size <= buff@.len() || count * num == 0
                &&& v@.len() == count * num
                &&& forall|q: int| 0 <= q < v@.len() ==> #[trigger] v@[q] == decode_kind(k, buff@, off + q * size)
                &&& forall|q: int| 0 <= q < v@.len() ==> value_kind(#[trigger] v@[q]) == k
            },
            None => k != ComponentKind::Unknown && count * num > 0 && off + count * num * size > buff@.len(),
        },
{
    let mut out: Vec<DataType> = Vec::new();
    if k == ComponentKind::Unknown {
        return Some(out);
    }
    let len = buff.len();
    if count == 0 || num == 0 {
        proof {
            assert(count * num == 0) by (nonlinear_arith)
                requires
                    count == 0 || num == 0,
            ;
        }
        return Some(out);
    }
    assert(count * num >= 1) by (nonlinear_arith)
        requires
            count >= 1,
            num >= 1,
    ;
    if count > len / num {
        proof {
            assert(count * num > len) by (nonlinear_arith)
                requires
                    count > len / num,
                    num >= 1,
            ;
            assert(count * num * size >= count * num) by (nonlinear_arith)
                requires
                    size >= 1,
                    count * num >= 1,
            ;
        }
        return None;
    }
    assert(count * num <= len) by (nonlinear_arith)
        requires
            count <= len / num,
            num >= 1,
    ;
    let total: usize = count * num;
    if off > len || total > (len - off) / size {
        proof {
            if off <= len {
                assert(total * size > len - off) by (nonlinear_arith)
                    requires
                        total > (len - off) as int / size as int,
                        size >= 1,
                ;
            }
            assert(total * size >= 0) by (nonlinear_arith)
                requires
                    size >= 1,
            ;
        }
        return None;
    }
    assert(off + total * size <= len) by (nonlinear_arith)
        requires
            total <= (len - off) as int / size as int,
            size >= 1,
            off <= len,
    ;
    let mut q: usize = 0;
    let mut pos: usize = off;
    while q < total
        invariant
            k != ComponentKind::Unknown,
            size == 1 || size == 2 || size == 4,
            (k == ComponentKind::I8 || k == ComponentKind::U8) ==> size == 1,
            (k == ComponentKind::I16 || k == ComponentKind::U16) ==> size == 2,
            (k == ComponentKind::U32 || k == ComponentKind::F32) ==> size == 4,
            len == buff@.len(),
            off + total * size <= len,
            q <= total,
            pos == off + q * size,
            out@.len() == q,
            forall|p: int| 0 <= p < q ==> #[trigger] out@[p] == decode_kind(k, buff@, off + p * size),
        decreases total - q,
    {
        assert(pos + size <= off + total * size) by (nonlinear_arith)
            requires
                pos == off + q * size,
                q < total,
        ;
        let v = match k {
            ComponentKind::I8 => byte_i8(buff, pos),
            ComponentKind::U8 => byte_u8(buff, pos),
            ComponentKind::I16 => byte_i16(buff, pos),
            ComponentKind::U16 => byte_u16(buff, pos),
            ComponentKind::U32 => byte_u32(buff, pos),
            _ => byte_f32(buff, pos),
        };
        out.push(v);
        assert(pos + size == off + (q + 1) * size) by (nonlinear_arith)
            requires
                pos == off + q * size,
        ;
        pos = pos + size;
        q = q + 1;
    }
    proof {
        assert forall|p: int| 0 <= p < out@.len() implies value_kind(#[trigger] out@[p]) == k by {
            assert(p * size + size <= total * size) by (nonlinear_arith)
                requires
                    p < total,
                    size >= 1,
            ;
            law_decoded_component_kind(k, buff@, off + p * size);
        }
    }
    Some(out)
}

} // verus!
