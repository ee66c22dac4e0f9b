//! Little-endian decoding of the component types that glTF accessors use.

use vstd::prelude::*;

verus! {

/// The unsigned value of the little-endian 16-bit word at `x`.
pub open spec fn le_u16_at(buff: Seq<u8>, x: int) -> int {
    buff[x] + 256 * buff[x + 1]
}

/// The unsigned value of the little-endian 32-bit word at `x`.
pub open spec fn le_u32_at(buff: Seq<u8>, x: int) -> int {
    buff[x] + 256 * buff[x + 1] + 65536 * buff[x + 2] + 16777216 * buff[x + 3]
}

/// A signed 8-bit value, given by its byte, widened to 32 bits in two's complement.
pub open spec fn sign_extend_8(b: int) -> int {
    if b < 0x80 { b } else { b + 0xFFFF_FF00 }
}

/// A signed 16-bit value, given by its unsigned word, widened to 32 bits in two's complement.
pub open spec fn sign_extend_16(w: int) -> int {
    if w < 0x8000 { w } else { w + 0xFFFF_0000 }
}

/// Reads the byte at `x` as a signed 8-bit value (`BYTE`), widened to `u32`.
pub fn byte_i8(buff: &[u8], x: usize) -> (r: u32)
    requires
        x + 1 <= buff@.len(),
    ensures
        r == sign_extend_8(buff@[x as int] as int),
{
    let b: u32 = buff[x] as u32;
    if b < 0x80 {
        b
    } else {
        b + 0xFFFF_FF00
    }
}

/// Reads the byte at `x` as an unsigned 8-bit value (`UNSIGNED_BYTE`).
pub fn byte_u8(buff: &[u8], x: usize) -> (r: u32)
    requires
        x + 1 <= buff@.len(),
    ensures
        r == buff@[x as int],
{
    buff[x] as u32
}

/// Reads the little-endian word at `x` as a signed 16-bit value (`SHORT`), widened to `u32`.
pub fn byte_i16(buff: &[u8], x: usize) -> (r: u32)
    requires
        x + 2 <= buff@.len(),
    ensures
        r == sign_extend_16(le_u16_at(buff@, x as int)),
{
    let w: u32 = byte_u16(buff, x);
    if w < 0x8000 {
        w
    } else {
        w + 0xFFFF_0000
    }
}

/// Reads the little-endian word at `x` as an unsigned 16-bit value (`UNSIGNED_SHORT`).
pub fn byte_u16(buff: &[u8], x: usize) -> (r: u32)
    requires
        x + 2 <= buff@.len(),
    ensures
        r == le_u16_at(buff@, x as int),
        r < 0x1_0000,
{
    let b0: u32 = buff[x] as u32;
    let b1: u32 = buff[x + 1] as u32;
    b0 + 256 * b1
}

/// Reads the little-endian word at `x` as an unsigned 32-bit value (`UNSIGNED_INT`).
pub fn byte_u32(buff: &[u8], x: usize) -> (r: u32)
    requires
        x + 4 <= buff@.len(),
    ensures
        r == le_u32_at(buff@, x as int),
{
    let b0: u32 = buff[x] as u32;
    let b1: u32 = buff[x + 1] as u32;
    let b2: u32 = buff[x + 2] as u32;
    let b3: u32 = buff[x + 3] as u32;
    b0 + 256 * b1 + 65536 * b2 + 16777216 * b3
}

/// The size in bytes of an index component type (`BYTE`, `UNSIGNED_BYTE`,
/// `SHORT`, `UNSIGNED_SHORT`, `UNSIGNED_INT`); 0 for any other type.
pub open spec fn index_component_size(t: u32) -> int {
    if t == 5120 || t == 5121 {
        1
    } else if t == 5122 || t == 5123 {
        2
    } else if t == 5125 {
        4
    } else {
        0
    }
}

/// The value, widened to `u32`, of the index component of type `t` at byte `x`.
pub open spec fn decode_index(t: u32, buff: Seq<u8>, x: int) -> u32 {
    if t == 5120 {
        sign_extend_8(buff[x] as int) as u32
    } else if t == 5121 {
        buff[x] as u32
    } else if t == 5122 {
        sign_extend_16(le_u16_at(buff, x)) as u32
    } else if t == 5123 {
        le_u16_at(buff, x) as u32
    } else {
        le_u32_at(buff, x) as u32
    }
}

/// Whether `count` items of `size` bytes, the first at byte `off`, can be
/// read: the offset of the last item is computed in 32 bits, so it must fit,
/// and the last item must end within the buffer.
pub open spec fn items_within(len: int, off: int, size: int, count: int) -> bool {
    count == 0 || (off + (count - 1) * size <= u32::MAX && off + (count - 1) * size + size <= len)
}

/// The `count` index values of type `t` stored one after the other from byte `off`.
pub open spec fn decoded_indices(t: u32, buff: Seq<u8>, off: int, count: nat) -> Seq<u32> {
    Seq::new(count, |i: int| decode_index(t, buff, off + i * index_component_size(t)))
}

/// Index values lie one right after the other, each as wide as its type (1
/// byte for `BYTE` and `UNSIGNED_BYTE`, 2 for `SHORT` and `UNSIGNED_SHORT`, 4
/// for `UNSIGNED_INT`): the first is the one at `off`, and the values from
/// the second on are the values stored from the end of the first.
pub proof fn law_indices_follow_each_other(t: u32, buff: Seq<u8>, off: int, count: nat)
    requires
        count > 0,
    ensures
        index_component_size(t) == if t == 5120 || t == 5121 { 1int } else if t == 5122 || t == 5123 { 2int } else if t == 5125 { 4int } else { 0int },
        decoded_indices(t, buff, off, count)[0] == decode_index(t, buff, off),
        decoded_indices(t, buff, off, count).drop_first()
            == decoded_indices(t, buff, off + index_component_size(t), (count - 1) as nat),
        t == 5121 ==> decode_index(t, buff, off) == buff[off],
        t == 5123 ==> decode_index(t, buff, off) == (buff[off] + 256 * buff[off + 1]) as u32,
        t == 5125 ==> decode_index(t, buff, off)
            == (buff[off] + 256 * buff[off + 1] + 65536 * buff[off + 2] + 16777216 * buff[off + 3]) as u32,
{
    let w = index_component_size(t);
    assert forall|i: int| 0 <= i < count - 1 implies
        #[trigger] decoded_indices(t, buff, off, count).drop_first()[i]
            == decoded_indices(t, buff, off + w, (count - 1) as nat)[i] by {
        assert(off + (i + 1) * w == off + w + i * w) by (nonlinear_arith);
    }
    assert(decoded_indices(t, buff, off, count).drop_first()
        =~= decoded_indices(t, buff, off + w, (count - 1) as nat));
}

/// Reads `count` index values of component type `t` stored one after the other
/// from byte `off`, widened to `u32`. `None` when `t` is not an index type or
/// when the values do not lie within the buffer.
pub fn read_indices(buff: &[u8], off: u32, t: u32, count: u32) -> (r: Option<Vec<u32>>)
    ensures
        match r {
            Some(v) => {
                &&& index_component_size(t) > 0
                &&& items_within(buff@.len() as int, off as int, index_component_size(t), count as int)
                &&& v@ == decoded_indices(t, buff@, off as int, count as nat)
            },
            None => index_component_size(t) == 0
                || !items_within(buff@.len() as int, off as int, index_component_size(t), count as int),
        },
{
    let size: u32 = if t == 5120 || t == 5121 {
        1
    } else if t == 5122 || t == 5123 {
        2
    } else if t == 5125 {
        4
    } else {
        return None;
    };
    let len = buff.len();
    if count > 0 {
        assert((count as u64 - 1) * (size as u64) <= 0xFFFF_FFFF * 4) by (nonlinear_arith)
            requires
                count <= 0xFFFF_FFFF,
                size <= 4,
        ;
        let last: u64 = off as u64 + (count as u64 - 1) * size as u64;
        if last > 0xFFFF_FFFF || last + size as u64 > len as u64 {
            return None;
        }
    }
    let mut out: Vec<u32> = Vec::new();
    let mut i: u32 = 0;
    while i < count
        invariant
            size as int == index_component_size(t),
            size > 0,
            len == buff@.len(),
            items_within(len as int, off as int, size as int, count as int),
            i <= count,
            out@ =~= decoded_indices(t, buff@, off as int, i as nat),
        decreases count - i,
    {
        assert(off + i * size <= off + (count - 1) * size) by (nonlinear_arith)
            requires
                i < count,
                size > 0,
        ;
        let x: u32 = off + i * size;
        let v: u32 = if t == 5120 {
            byte_i8(buff, x as usize)
        } else if t == 5121 {
            byte_u8(buff, x as usize)
        } else if t == 5122 {
            byte_i16(buff, x as usize)
        } else if t == 5123 {
            byte_u16(buff, x as usize)
        } else {
            byte_u32(buff, x as usize)
        };
        out.push(v);
        i = i + 1;
    }
    Some(out)
}

/// The `components` 32-bit words of the item numbered `i`, for items of
/// `4 * components` bytes stored from byte `off`.
pub open spec fn item_words(buff: Seq<u8>, off: int, i: int, components: int) -> Seq<u32> {
    Seq::new(components as nat, |c: int| le_u32_at(buff, off + i * (4 * components) + 4 * c) as u32)
}

/// Items lie one right after the other, the first at `off`: word `c` of item
/// 0 is the word at `off + 4 * c`, and item `i + 1` is item `i` of the items
/// stored from the end of item 0 (`4 * components` bytes further). So word `c`
/// of item `i` is the word `i * components + c` of the words stored from `off`.
pub proof fn law_items_follow_each_other(buff: Seq<u8>, off: int, i: int, components: int)
    requires
        0 <= i,
        1 <= components,
    ensures
        forall|c: int| 0 <= c < components ==>
            #[trigger] item_words(buff, off, 0, components)[c] == le_u32_at(buff, off + 4 * c) as u32,
        item_words(buff, off, i + 1, components) == item_words(buff, off + 4 * components, i, components),
        forall|c: int| 0 <= c < components ==>
            #[trigger] item_words(buff, off, i, components)[c] == item_words(buff, off, i * components + c, 1)[0],
{
    assert forall|c: int| 0 <= c < components implies
        #[trigger] item_words(buff, off, 0, components)[c] == le_u32_at(buff, off + 4 * c) as u32 by {
        assert(0 * (4 * components) == 0);
    }
    assert((i + 1) * (4 * components) == 4 * components + i * (4 * components)) by (nonlinear_arith);
    assert(item_words(buff, off, i + 1, components) =~= item_words(buff, off + 4 * components, i, components));
    assert forall|c: int| 0 <= c < components implies
        #[trigger] item_words(buff, off, i, components)[c] == item_words(buff, off, i * components + c, 1)[0] by {
        assert(i * (4 * components) + 4 * c == (i * components + c) * (4 * 1) + 4 * 0) by (nonlinear_arith);
    }
}

/// Whether the items numbered by `idx`, of `4 * components` bytes each and
/// stored from byte `off`, can be read: the offset of each word is computed in
/// 32 bits, so it must fit, and each item must end within the buffer.
pub open spec fn words_within(len: int, off: int, idx: Seq<u32>, components: int) -> bool {
    forall|j: int| 0 <= j < idx.len() ==> {
        let start = off + #[trigger] idx[j] * (4 * components);
        &&& start + 4 * components - 4 <= u32::MAX
        &&& start + 4 * components <= len
    }
}

/// Reads, for each entry `i` of `idx`, the `components` little-endian words of
/// item `i`, the items being `4 * components` bytes long and stored from byte
/// `off`. `None` when one of them does not lie within the buffer.
pub fn read_item_words(buff: &[u8], off: u32, idx: &Vec<u32>, components: u32) -> (r: Option<Vec<Vec<u32>>>)
    requires
        1 <= components <= 4,
    ensures
        match r {
            Some(w) => {
                &&& words_within(buff@.len() as int, off as int, idx@, components as int)
                &&& w@.len() == idx@.len()
                &&& forall|j: int| 0 <= j < idx@.len() ==>
                    (#[trigger] w@[j])@ == item_words(buff@, off as int, idx@[j] as int, components as int)
            },
            None => !words_within(buff@.len() as int, off as int, idx@, components as int),
        },
{
    let len = buff.len();
    let stride: u64 = 4 * components as u64;
    let n = idx.len();
    let mut out: Vec<Vec<u32>> = Vec::new();
    let mut j: usize = 0;
    while j < n
        invariant
            1 <= components <= 4,
            stride == 4 * components,
            len == buff@.len(),
            n == idx@.len(),
            j <= n,
            words_within(len as int, off as int, idx@.subrange(0, j as int), components as int),
            out@.len() == j,
            forall|q: int| 0 <= q < j ==>
                (#[trigger] out@[q])@ == item_words(buff@, off as int, idx@[q] as int, components as int),
        decreases n - j,
    {
        let i = idx[j];
        assert(i as u64 * stride <= 0xFFFF_FFFF * 16) by (nonlinear_arith)
            requires
                i <= 0xFFFF_FFFF,
                stride <= 16,
        ;
        let start: u64 = off as u64 + i as u64 * stride;
        if start + stride - 4 > 0xFFFF_FFFF || start + stride > len as u64 {
            proof {
                assert(idx@[j as int] == i);
            }
            return None;
        }
        let mut words: Vec<u32> = Vec::new();
        let mut c: u32 = 0;
        while c < components
            invariant
                1 <= components <= 4,
                stride == 4 * components,
                len == buff@.len(),
                start == off + i * stride,
                start + stride - 4 <= 0xFFFF_FFFF,
                start + stride <= len,
                c <= components,
                words@ =~= item_words(buff@, off as int, i as int, components as int).subrange(0, c as int),
            decreases components - c,
        {
            let x: u32 = (start + 4 * c as u64) as u32;
            words.push(byte_u32(buff, x as usize));
            c = c + 1;
        }
        out.push(words);
        proof {
            assert forall|jj: int| 0 <= jj < j + 1 implies {
                let st = off + #[trigger] idx@.subrange(0, j + 1)[jj] * (4 * components);
                &&& st + 4 * components - 4 <= u32::MAX
                &&& st + 4 * components <= len
            } by {
                if jj < j {
                    assert(idx@.subrange(0, j + 1)[jj] == idx@.subrange(0, j as int)[jj]);
                }
            }
        }
        j = j + 1;
    }
    proof {
        assert(idx@.subrange(0, n as int) =~= idx@);
    }
    Some(out)
}

} // verus!
