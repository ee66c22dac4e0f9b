//! The integer side of writing the decimated mesh back: the order and the
//! byte offsets of the buffer sections, and the renumbered, re-encoded index
//! list.

use vstd::prelude::*;
use crate::unpack::{table_entry, AttributeSlots, PrimitiveTable, Role};
use crate::decode::{decode_index, decoded_indices, index_component_size, items_within, le_u16_at, le_u32_at};
use crate::glb::le_bytes;

verus! {

/// A section of the output binary chunk.
#[derive(PartialEq, Eq, Structural, Clone, Copy, Debug)]
pub enum Section {
    Indices,
    Normal,
    Position,
    Texcoord0,
}

/// The section whose number `a` (indices), `b` (normals), `c` (positions) or
/// `d` (texture coordinates) is `i`, the first of them in that order.
pub open spec fn section_at(i: int, a: int, b: int, c: int, d: int) -> Option<Section> {
    if a == i {
        Some(Section::Indices)
    } else if b == i {
        Some(Section::Normal)
    } else if c == i {
        Some(Section::Position)
    } else if d == i {
        Some(Section::Texcoord0)
    } else {
        None
    }
}

/// The sections found at numbers `0..n`, in that order.
pub open spec fn sections_upto(n: int, a: int, b: int, c: int, d: int) -> Seq<Section>
    decreases n,
{
    if n <= 0 {
        Seq::empty()
    } else {
        let prev = sections_upto(n - 1, a, b, c, d);
        match section_at(n - 1, a, b, c, d) {
            Some(sec) => prev.push(sec),
            None => prev,
        }
    }
}

fn section_at_exec(i: i64, a: i64, b: i64, c: i64, d: i64) -> (r: Option<Section>)
    ensures
        r == section_at(i as int, a as int, b as int, c as int, d as int),
{
    if a == i {
        Some(Section::Indices)
    } else if b == i {
        Some(Section::Normal)
    } else if c == i {
        Some(Section::Position)
    } else if d == i {
        Some(Section::Texcoord0)
    } else {
        None
    }
}

/// The order in which the sections are written to the binary chunk: for each
/// buffer view number 0 to 3, the section whose accessor uses that buffer view.
pub fn binary_sections(indices_view: u32, normal_view: u32, position_view: u32, texcoord_view: u32) -> (r: Vec<Section>)
    ensures
        r@ == sections_upto(4, indices_view as int, normal_view as int, position_view as int, texcoord_view as int),
{
    let mut r: Vec<Section> = Vec::new();
    let mut i: i64 = 0;
    while i < 4
        invariant
            0 <= i <= 4,
            r@ == sections_upto(i as int, indices_view as int, normal_view as int, position_view as int, texcoord_view as int),
        decreases 4 - i,
    {
        match section_at_exec(i, indices_view as i64, normal_view as i64, position_view as i64, texcoord_view as i64) {
            Some(sec) => r.push(sec),
            None => {},
        }
        i = i + 1;
    }
    r
}

/// The byte length of each section: 12 bytes per index and per normal and
/// position, 8 bytes per texture coordinate.
#[derive(Debug, Clone, Copy)]
pub struct SectionSizes {
    pub indices: usize,
    pub normal: usize,
    pub position: usize,
    pub texcoord_0: usize,
}

/// The byte length of a section.
pub open spec fn size_of_section(s: SectionSizes, sec: Section) -> int {
    match sec {
        Section::Indices => s.indices as int,
        Section::Normal => s.normal as int,
        Section::Position => s.position as int,
        Section::Texcoord0 => s.texcoord_0 as int,
    }
}

/// Computes the section byte lengths for lists of the given lengths; `None`
/// when one does not fit in a `usize`.
pub fn section_sizes(index_len: usize, normal_len: usize, position_len: usize, texcoord_len: usize) -> (r: Option<SectionSizes>)
    ensures
        match r {
            Some(s) => s.indices == index_len * 12 && s.normal == normal_len * 12
                && s.position == position_len * 12 && s.texcoord_0 == texcoord_len * 8,
            None => index_len * 12 > usize::MAX || normal_len * 12 > usize::MAX
                || position_len * 12 > usize::MAX || texcoord_len * 8 > usize::MAX,
        },
{
    if index_len > usize::MAX / 12 || normal_len > usize::MAX / 12 || position_len > usize::MAX / 12
        || texcoord_len > usize::MAX / 8 {
        return None;
    }
    Some(SectionSizes {
        indices: index_len * 12,
        normal: normal_len * 12,
        position: position_len * 12,
        texcoord_0: texcoord_len * 8,
    })
}

/// The sum of the byte lengths of the sections in `secs`.
pub open spec fn total_size(sizes: SectionSizes, secs: Seq<Section>) -> int
    decreases secs.len(),
{
    if secs.len() == 0 {
        0
    } else {
        total_size(sizes, secs.drop_last()) + size_of_section(sizes, secs.last())
    }
}

proof fn lemma_sections_prefix(a: int, b: int, c: int, d: int, m: int, n: int)
    requires
        0 <= m <= n,
    ensures
        sections_upto(m, a, b, c, d).len() <= sections_upto(n, a, b, c, d).len(),
        sections_upto(n, a, b, c, d).subrange(0, sections_upto(m, a, b, c, d).len() as int)
            == sections_upto(m, a, b, c, d),
    decreases n - m,
{
    if m < n {
        lemma_sections_prefix(a, b, c, d, m, n - 1);
        let p = sections_upto(n - 1, a, b, c, d);
        let q = sections_upto(n, a, b, c, d);
        let l = sections_upto(m, a, b, c, d).len() as int;
        assert(q.subrange(0, l) =~= p.subrange(0, l));
    } else {
        assert(sections_upto(n, a, b, c, d).subrange(0, sections_upto(n, a, b, c, d).len() as int)
            =~= sections_upto(n, a, b, c, d));
    }
}

proof fn lemma_total_size_mono(sizes: SectionSizes, s: Seq<Section>, k: int)
    requires
        0 <= k <= s.len(),
    ensures
        total_size(sizes, s.subrange(0, k)) <= total_size(sizes, s),
    decreases s.len(),
{
    if k < s.len() {
        lemma_total_size_mono(sizes, s.drop_last(), k);
        assert(s.drop_last().subrange(0, k) =~= s.subrange(0, k));
    } else {
        assert(s.subrange(0, k) =~= s);
    }
}

/// The byte offsets given to the sections of the JSON document: for each
/// accessor number 0 to 3, the section of that accessor (by the slots) gets
/// the current offset, which then grows by the section's length. Returns the
/// sections in that order with their offsets, and the final offset (the byte
/// length of the buffer); `None` when the sum does not fit in a `usize`.
pub fn buffer_offsets(slots: &AttributeSlots, sizes: &SectionSizes) -> (r: Option<(Vec<(Section, usize)>, usize)>)
    ensures
        ({
            let secs = sections_upto(4, slots.indices as int, slots.normal as int,
                slots.position as int, slots.texcoord_0 as int);
            match r {
                Some((offs, total)) => {
                    &&& offs@.len() == secs.len()
                    &&& total == total_size(*sizes, secs)
                    &&& forall|k: int| 0 <= k < secs.len() ==> {
                        &&& (#[trigger] offs@[k]).0 == secs[k]
                        &&& offs@[k].1 == total_size(*sizes, secs.subrange(0, k))
                    }
                },
                None => total_size(*sizes, secs) > usize::MAX,
            }
        }),
{
    let ghost secs = sections_upto(4, slots.indices as int, slots.normal as int,
        slots.position as int, slots.texcoord_0 as int);
    let mut offs: Vec<(Section, usize)> = Vec::new();
    let mut offset: usize = 0;
    let mut i: i64 = 0;
    while i < 4
        invariant
            0 <= i <= 4,
            secs == sections_upto(4, slots.indices as int, slots.normal as int,
                slots.position as int, slots.texcoord_0 as int),
            offs@.len() == sections_upto(i as int, slots.indices as int, slots.normal as int,
                slots.position as int, slots.texcoord_0 as int).len(),
            offset == total_size(*sizes, sections_upto(i as int, slots.indices as int, slots.normal as int,
                slots.position as int, slots.texcoord_0 as int)),
            forall|k: int| 0 <= k < offs@.len() ==> {
                let cur = sections_upto(i as int, slots.indices as int, slots.normal as int,
                    slots.position as int, slots.texcoord_0 as int);
                &&& (#[trigger] offs@[k]).0 == cur[k]
                &&& offs@[k].1 == total_size(*sizes, cur.subrange(0, k))
            },
        decreases 4 - i,
    {
        let ghost cur = sections_upto(i as int, slots.indices as int, slots.normal as int,
            slots.position as int, slots.texcoord_0 as int);
        match section_at_exec(i, slots.indices, slots.normal, slots.position, slots.texcoord_0) {
            Some(sec) => {
                let size = match sec {
                    Section::Indices => sizes.indices,
                    Section::Normal => sizes.normal,
                    Section::Position => sizes.position,
                    Section::Texcoord0 => sizes.texcoord_0,
                };
                let ghost next = cur.push(sec);
                assert(next.drop_last() =~= cur);
                assert(next.subrange(0, cur.len() as int) =~= cur);
                if offset > usize::MAX - size {
                    proof {
                        assert(next == sections_upto(i + 1, slots.indices as int, slots.normal as int,
                            slots.position as int, slots.texcoord_0 as int));
                        lemma_sections_prefix(slots.indices as int, slots.normal as int,
                            slots.position as int, slots.texcoord_0 as int, i + 1, 4);
                        lemma_total_size_mono(*sizes, secs, next.len() as int);
                    }
                    return None;
                }
                offs.push((sec, offset));
                offset = offset + size;
                proof {
                    assert forall|k: int| 0 <= k < offs@.len() implies {
                        &&& (#[trigger] offs@[k]).0 == next[k]
                        &&& offs@[k].1 == total_size(*sizes, next.subrange(0, k))
                    } by {
                        if k < cur.len() {
                            assert(next.subrange(0, k) =~= cur.subrange(0, k));
                        }
                    }
                }
            },
            None => {},
        }
        i = i + 1;
    }
    proof {
        assert(secs.subrange(0, secs.len() as int) =~= secs);
    }
    Some((offs, offset))
}

/// The number of vertices among `0..n` that are still alive.
pub open spec fn alive_before(alive: Seq<bool>, n: int) -> int
    decreases n,
{
    if n <= 0 {
        0
    } else {
        alive_before(alive, n - 1) + if alive[n - 1] { 1int } else { 0int }
    }
}

proof fn lemma_alive_before_mono(alive: Seq<bool>, m: int, n: int)
    requires
        m <= n,
    ensures
        0 <= alive_before(alive, m) <= alive_before(alive, n),
    decreases n - m,
{
    if m < n {
        lemma_alive_before_mono(alive, m, n - 1);
    } else {
        lemma_alive_before_nonneg(alive, m);
    }
}

proof fn lemma_alive_before_le(alive: Seq<bool>, n: int)
    requires
        0 <= n,
    ensures
        0 <= alive_before(alive, n) <= n,
    decreases n,
{
    if n > 0 {
        lemma_alive_before_le(alive, n - 1);
    }
}

proof fn lemma_alive_before_nonneg(alive: Seq<bool>, n: int)
    ensures
        0 <= alive_before(alive, n),
    decreases n,
{
    if n > 0 {
        lemma_alive_before_nonneg(alive, n - 1);
    }
}

/// Whether vertex `x` is alive (and so has a number in the output).
pub open spec fn has_number(alive: Seq<bool>, x: u32) -> bool {
    x < alive.len() && alive[x as int]
}

/// The index list with every vertex replaced by its number among the alive
/// vertices (the alive vertices are numbered 0, 1, 2, ... in order).
pub open spec fn renumbered(alive: Seq<bool>, idx: Seq<u32>) -> Seq<u32> {
    idx.map_values(|x: u32| alive_before(alive, x as int) as u32)
}

/// The alive vertices are numbered without gaps and without repeats: an alive
/// vertex gets a number below the count of alive vertices, and a later alive
/// vertex a larger number.
pub proof fn law_renumbering_compact(alive: Seq<bool>, x: int, y: int)
    requires
        0 <= x < y < alive.len(),
        alive[x],
        alive[y],
    ensures
        0 <= alive_before(alive, x) < alive_before(alive, y) < alive_before(alive, alive.len() as int),
{
    lemma_alive_before_mono(alive, x + 1, y);
    lemma_alive_before_mono(alive, y + 1, alive.len() as int);
    lemma_alive_before_nonneg(alive, x);
}

/// The little-endian bytes of the low `w` bytes of `v` (`w` is 1, 2 or 4).
pub open spec fn encode_value(v: u32, w: int) -> Seq<u8> {
    if w == 1 {
        seq![(v % 256) as u8]
    } else if w == 2 {
        seq![(v % 256) as u8, ((v / 256) % 256) as u8]
    } else {
        le_bytes(v)
    }
}

/// The values of `vals` encoded one after the other on `w` bytes each.
pub open spec fn encoded(vals: Seq<u32>, w: int) -> Seq<u8>
    decreases vals.len(),
{
    if vals.len() == 0 {
        Seq::empty()
    } else {
        encoded(vals.drop_last(), w) + encode_value(vals.last(), w)
    }
}

/// Whether the index list can be written out: every entry names an alive
/// vertex, and a non-empty list has an index component type to be written in.
pub open spec fn packable(idx: Seq<u32>, alive: Seq<bool>, t: u32) -> bool {
    &&& forall|j: int| 0 <= j < idx.len() ==> has_number(alive, #[trigger] idx[j])
    &&& idx.len() > 0 ==> index_component_size(t) > 0
}

fn push_value(out: &mut Vec<u8>, v: u32, w: u32)
    requires
        w == 1 || w == 2 || w == 4,
    ensures
        final(out)@ == old(out)@ + encode_value(v, w as int),
{
    out.push((v % 256) as u8);
    if w >= 2 {
        out.push(((v / 256) % 256) as u8);
    }
    if w == 4 {
        out.push(((v / 65536) % 256) as u8);
        out.push(((v / 16777216) % 256) as u8);
    }
    assert(out@ =~= old(out)@ + encode_value(v, w as int));
}

/// Renumbers the index list over the alive vertices (the alive vertices are
/// numbered 0, 1, 2, ... in order, whatever their count) and encodes it in
/// the component type `t` of the index accessor, each number truncated to the
/// type's width.
pub fn pack_indices(index_list: &Vec<u32>, alive: &Vec<bool>, t: u32) -> (r: (Vec<u32>, Vec<u8>))
    requires
        packable(index_list@, alive@, t),
    ensures
        r.0@ == renumbered(alive@, index_list@),
        r.1@ == encoded(renumbered(alive@, index_list@), index_component_size(t)),
{
    let n = alive.len();
    let mut ranks: Vec<u32> = Vec::new();
    let mut k: u64 = 0;
    let mut i: usize = 0;
    while i < n
        invariant
            n == alive@.len(),
            i <= n,
            ranks@.len() == i,
            k == alive_before(alive@, i as int),
            forall|x: int| 0 <= x < i ==> #[trigger] ranks@[x] == alive_before(alive@, x) as u32,
        decreases n - i,
    {
        proof {
            lemma_alive_before_le(alive@, i as int);
        }
        ranks.push(k as u32);
        if alive[i] {
            k = k + 1;
        }
        i = i + 1;
    }
    let m = index_list.len();
    if m == 0 {
        proof {
            assert(renumbered(alive@, index_list@) =~= Seq::<u32>::empty());
        }
        return (Vec::new(), Vec::new());
    }
    let w: u32 = if t == 5120 || t == 5121 {
        1
    } else if t == 5122 || t == 5123 {
        2
    } else {
        4
    };
    let mut new_index_list: Vec<u32> = Vec::new();
    let mut bytes: Vec<u8> = Vec::new();
    let mut j: usize = 0;
    while j < m
        invariant
            n == alive@.len(),
            m == index_list@.len(),
            ranks@.len() == n,
            forall|x: int| 0 <= x < n ==> #[trigger] ranks@[x] == alive_before(alive@, x) as u32,
            w as int == index_component_size(t),
            w == 1 || w == 2 || w == 4,
            j <= m,
            packable(index_list@, alive@, t),
            new_index_list@ == renumbered(alive@, index_list@.subrange(0, j as int)),
            bytes@ == encoded(new_index_list@, w as int),
        decreases m - j,
    {
        let x = index_list[j];
        proof {
            assert(has_number(alive@, index_list@[j as int]));
        }
        let v = ranks[x as usize];
        let ghost before = new_index_list@;
        new_index_list.push(v);
        push_value(&mut bytes, v, w);
        proof {
            assert(new_index_list@ =~= renumbered(alive@, index_list@.subrange(0, j + 1)));
            assert(new_index_list@.drop_last() == before);
        }
        j = j + 1;
    }
    proof {
        assert(index_list@.subrange(0, m as int) =~= index_list@);
    }
    (new_index_list, bytes)
}

proof fn lemma_encoded(vals: Seq<u32>, w: int, i: int)
    requires
        w == 1 || w == 2 || w == 4,
        0 <= i < vals.len(),
    ensures
        encoded(vals, w).len() == w * vals.len(),
        encoded(vals, w).subrange(w * i, w * i + w) == encode_value(vals[i], w),
    decreases vals.len(),
{
    let prev = vals.drop_last();
    lemma_encoded_len(prev, w);
    if i < vals.len() - 1 {
        lemma_encoded(prev, w, i);
        assert(w * i + w <= w * prev.len()) by (nonlinear_arith)
            requires
                i < prev.len(),
                w > 0,
        ;
        assert(encoded(vals, w).subrange(w * i, w * i + w) =~= encoded(prev, w).subrange(w * i, w * i + w));
    } else {
        assert(w * i == w * prev.len());
        assert(encoded(vals, w).subrange(w * i, w * i + w) =~= encode_value(vals[i], w));
    }
}

proof fn lemma_encoded_len(vals: Seq<u32>, w: int)
    requires
        w == 1 || w == 2 || w == 4,
    ensures
        encoded(vals, w).len() == w * vals.len(),
    decreases vals.len(),
{
    if vals.len() > 0 {
        lemma_encoded_len(vals.drop_last(), w);
        assert(w * vals.len() == w * vals.drop_last().len() + w) by (nonlinear_arith)
            requires
                vals.len() == vals.drop_last().len() + 1,
        ;
    }
}

/// The largest value, plus one, that index component type `t` gives back
/// unchanged once written on its width and read again.
pub open spec fn round_trip_bound(t: u32) -> int {
    if t == 5120 {
        0x80
    } else if t == 5121 {
        0x100
    } else if t == 5122 {
        0x8000
    } else if t == 5123 {
        0x1_0000
    } else {
        0x1_0000_0000
    }
}

/// Index values written out in an index component type and read back in that
/// type are the values written, when each value is below the type's bound
/// (for the signed types, below the point where the sign bit is set).
pub proof fn law_encoded_indices_read_back(vals: Seq<u32>, t: u32)
    requires
        index_component_size(t) > 0,
        index_component_size(t) * vals.len() <= u32::MAX,
        forall|i: int| 0 <= i < vals.len() ==> #[trigger] vals[i] < round_trip_bound(t),
    ensures
        ({
            let bytes = encoded(vals, index_component_size(t));
            &&& items_within(bytes.len() as int, 0, index_component_size(t), vals.len() as int)
            &&& decoded_indices(t, bytes, 0, vals.len()) == vals
        }),
{
    let w = index_component_size(t);
    let bytes = encoded(vals, w);
    lemma_encoded_len(vals, w);
    if vals.len() > 0 {
        assert((vals.len() - 1) * w + w == w * vals.len()) by (nonlinear_arith);
        assert((vals.len() - 1) * w <= w * vals.len()) by (nonlinear_arith)
            requires
                w > 0,
        ;
    }
    assert forall|i: int| 0 <= i < vals.len() implies
        #[trigger] decode_index(t, bytes, 0 + i * w) == vals[i] by {
        lemma_encoded(vals, w, i);
        let v = vals[i];
        let part = bytes.subrange(w * i, w * i + w);
        assert(i * w == w * i) by (nonlinear_arith);
        assert(bytes[w * i] == part[0]);
        if w >= 2 {
            assert(bytes[w * i + 1] == part[1]);
        }
        if w == 4 {
            assert(bytes[w * i + 2] == part[2]);
            assert(bytes[w * i + 3] == part[3]);
            crate::glb::lemma_le_bytes_read(v);
            assert(le_u32_at(bytes, w * i) == le_u32_at(le_bytes(v), 0));
        }
        if w == 2 {
            let vi = v as int;
            assert((vi % 256) + 256 * ((vi / 256) % 256) == vi) by (nonlinear_arith)
                requires
                    0 <= vi < 0x1_0000,
            ;
            assert(le_u16_at(bytes, w * i) == vi);
        }
    }
    assert(decoded_indices(t, bytes, 0, vals.len()) =~= vals);
}

/// An index list written out by [`pack_indices`] in an unsigned index type
/// reads back, with the same type and count, as the renumbered list, when the
/// numbers fit the type (always for `UNSIGNED_INT`).
pub proof fn law_packed_indices_read_back(idx: Seq<u32>, alive: Seq<bool>, t: u32)
    requires
        t == 5121 || t == 5123 || t == 5125,
        packable(idx, alive, t),
        index_component_size(t) * idx.len() <= u32::MAX,
        t == 5121 ==> alive_before(alive, alive.len() as int) <= 0x100,
        t == 5123 ==> alive_before(alive, alive.len() as int) <= 0x1_0000,
    ensures
        ({
            let list = renumbered(alive, idx);
            let bytes = encoded(list, index_component_size(t));
            &&& items_within(bytes.len() as int, 0, index_component_size(t), idx.len() as int)
            &&& decoded_indices(t, bytes, 0, idx.len()) == list
        }),
{
    let list = renumbered(alive, idx);
    if idx.len() > 0 {
        assert forall|i: int| 0 <= i < list.len() implies #[trigger] list[i] < round_trip_bound(t) by {
            let x = idx[i];
            assert(has_number(alive, x));
            lemma_alive_before_mono(alive, x + 1, alive.len() as int);
            lemma_alive_before_le(alive, x as int);
        }
        law_encoded_indices_read_back(list, t);
    }
}

/// A number to be written into the JSON document.
#[derive(PartialEq, Eq, Structural, Clone, Copy, Debug)]
pub enum JsonEdit {
    /// `accessors[a].count = n`
    AccessorCount(usize, usize),
    /// `bufferViews[v].byteLength = n`
    ViewByteLength(u32, usize),
    /// `bufferViews[v].byteOffset = n`
    ViewByteOffset(u32, usize),
    /// `buffers[0].byteLength = n`
    BufferByteLength(usize),
}

/// Why the JSON document cannot be brought up to date.
#[derive(PartialEq, Eq, Structural, Clone, Copy, Debug)]
pub enum RepackError {
    /// A byte length or offset does not fit in a `usize`.
    Overflow,
}

/// Whether an accessor is filed for each of indices, normals, positions and
/// texture coordinates.
pub open spec fn accessors_filed(t: PrimitiveTable) -> bool {
    &&& table_entry(t, Role::Indices) is Some
    &&& table_entry(t, Role::Normal) is Some
    &&& table_entry(t, Role::Position) is Some
    &&& table_entry(t, Role::Texcoord0) is Some
}

/// The buffer view of a section, given the buffer views of the four accessors.
pub open spec fn view_of(sec: Section, iv: u32, nv: u32, pv: u32, tv: u32) -> u32 {
    match sec {
        Section::Indices => iv,
        Section::Normal => nv,
        Section::Position => pv,
        Section::Texcoord0 => tv,
    }
}

/// The byte-offset edits for the sections `secs` laid out one after the other.
pub open spec fn offset_edits(secs: Seq<Section>, sizes: SectionSizes, iv: u32, nv: u32, pv: u32, tv: u32) -> Seq<JsonEdit> {
    Seq::new(secs.len(), |k: int| JsonEdit::ViewByteOffset(view_of(secs[k], iv, nv, pv, tv),
        total_size(sizes, secs.subrange(0, k)) as usize))
}

/// The numbers written into the JSON document after a decimation: the new
/// counts of the four accessors (by their slots), the byte lengths of their
/// buffer views, the byte offsets of those views in accessor-number order,
/// and the byte length of the buffer.
pub open spec fn json_edit_list(
    s: AttributeSlots,
    t: PrimitiveTable,
    index_len: usize,
    normal_len: usize,
    position_len: usize,
    texcoord_len: usize,
) -> Result<Seq<JsonEdit>, RepackError> {
    let pi = table_entry(t, Role::Indices)->Some_0;
    let pn = table_entry(t, Role::Normal)->Some_0;
    let pp = table_entry(t, Role::Position)->Some_0;
    let pt = table_entry(t, Role::Texcoord0)->Some_0;
    if index_len * 12 > usize::MAX || normal_len * 12 > usize::MAX || position_len * 12 > usize::MAX
        || texcoord_len * 8 > usize::MAX {
        Err(RepackError::Overflow)
    } else {
        let sizes = SectionSizes {
            indices: (index_len * 12) as usize,
            normal: (normal_len * 12) as usize,
            position: (position_len * 12) as usize,
            texcoord_0: (texcoord_len * 8) as usize,
        };
        let secs = sections_upto(4, s.indices as int, s.normal as int, s.position as int, s.texcoord_0 as int);
        if total_size(sizes, secs) > usize::MAX {
            Err(RepackError::Overflow)
        } else {
            Ok(seq![
                JsonEdit::AccessorCount(s.indices as usize, index_len),
                JsonEdit::AccessorCount(s.normal as usize, normal_len),
                JsonEdit::AccessorCount(s.position as usize, position_len),
                JsonEdit::AccessorCount(s.texcoord_0 as usize, texcoord_len),
                JsonEdit::ViewByteLength(pi.bufferView, sizes.indices),
                JsonEdit::ViewByteLength(pn.bufferView, sizes.normal),
                JsonEdit::ViewByteLength(pp.bufferView, sizes.position),
                JsonEdit::ViewByteLength(pt.bufferView, sizes.texcoord_0),
            ] + offset_edits(secs, sizes, pi.bufferView, pn.bufferView, pp.bufferView, pt.bufferView)
              + seq![JsonEdit::BufferByteLength(total_size(sizes, secs) as usize)])
        }
    }
}

/// Each list's new length is written as the count of the accessor of that
/// list's slot, and nowhere else: the count edits are exactly the index count
/// at the index slot, the normal count at the normal slot, the position count
/// at the position slot and the texture-coordinate count at its slot. Each
/// filed accessor's buffer view gets the byte length of its list (12 bytes per
/// index, normal or position, 8 per texture coordinate).
pub proof fn law_edits_name_each_lists_accessor(
    s: AttributeSlots,
    t: PrimitiveTable,
    index_len: usize,
    normal_len: usize,
    position_len: usize,
    texcoord_len: usize,
)
    requires
        accessors_filed(t),
        json_edit_list(s, t, index_len, normal_len, position_len, texcoord_len) is Ok,
    ensures
        ({
            let e = json_edit_list(s, t, index_len, normal_len, position_len, texcoord_len)->Ok_0;
            &&& e.contains(JsonEdit::AccessorCount(s.indices as usize, index_len))
            &&& e.contains(JsonEdit::AccessorCount(s.normal as usize, normal_len))
            &&& e.contains(JsonEdit::AccessorCount(s.position as usize, position_len))
            &&& e.contains(JsonEdit::AccessorCount(s.texcoord_0 as usize, texcoord_len))
            &&& forall|k: int| 0 <= k < e.len() && (#[trigger] e[k]) is AccessorCount ==> {
                let (a, n) = (e[k]->AccessorCount_0, e[k]->AccessorCount_1);
                ||| (a == s.indices as usize && n == index_len)
                ||| (a == s.normal as usize && n == normal_len)
                ||| (a == s.position as usize && n == position_len)
                ||| (a == s.texcoord_0 as usize && n == texcoord_len)
            }
            &&& e.contains(JsonEdit::ViewByteLength(table_entry(t, Role::Indices)->Some_0.bufferView,
                (12 * index_len) as usize))
            &&& e.contains(JsonEdit::ViewByteLength(table_entry(t, Role::Normal)->Some_0.bufferView,
                (12 * normal_len) as usize))
            &&& e.contains(JsonEdit::ViewByteLength(table_entry(t, Role::Position)->Some_0.bufferView,
                (12 * position_len) as usize))
            &&& e.contains(JsonEdit::ViewByteLength(table_entry(t, Role::Texcoord0)->Some_0.bufferView,
                (8 * texcoord_len) as usize))
        }),
{
    let e = json_edit_list(s, t, index_len, normal_len, position_len, texcoord_len)->Ok_0;
    assert(e[0] == JsonEdit::AccessorCount(s.indices as usize, index_len));
    assert(e[1] == JsonEdit::AccessorCount(s.normal as usize, normal_len));
    assert(e[2] == JsonEdit::AccessorCount(s.position as usize, position_len));
    assert(e[3] == JsonEdit::AccessorCount(s.texcoord_0 as usize, texcoord_len));
    assert(e[4] == JsonEdit::ViewByteLength(table_entry(t, Role::Indices)->Some_0.bufferView, (12 * index_len) as usize));
    assert(e[5] == JsonEdit::ViewByteLength(table_entry(t, Role::Normal)->Some_0.bufferView, (12 * normal_len) as usize));
    assert(e[6] == JsonEdit::ViewByteLength(table_entry(t, Role::Position)->Some_0.bufferView, (12 * position_len) as usize));
    assert(e[7] == JsonEdit::ViewByteLength(table_entry(t, Role::Texcoord0)->Some_0.bufferView, (8 * texcoord_len) as usize));
    assert forall|k: int| 0 <= k < e.len() && (#[trigger] e[k]) is AccessorCount implies {
        let (a, n) = (e[k]->AccessorCount_0, e[k]->AccessorCount_1);
        ||| (a == s.indices as usize && n == index_len)
        ||| (a == s.normal as usize && n == normal_len)
        ||| (a == s.position as usize && n == position_len)
        ||| (a == s.texcoord_0 as usize && n == texcoord_len)
    } by {
        if k >= 8 {
            assert(!(e[k] is AccessorCount));
        }
    }
}

/// Lists the numbers to write into the JSON document after a decimation, in
/// the order they are written, for lists of the given lengths, given an
/// accessor for each of indices, normals, positions and texture coordinates.
pub fn json_edits(
    slots: &AttributeSlots,
    table: &PrimitiveTable,
    index_len: usize,
    normal_len: usize,
    position_len: usize,
    texcoord_len: usize,
) -> (r: Result<Vec<JsonEdit>, RepackError>)
    requires
        accessors_filed(*table),
    ensures
        match (r, json_edit_list(*slots, *table, index_len, normal_len, position_len, texcoord_len)) {
            (Ok(v), Ok(sv)) => v@ == sv,
            (Err(e), Err(se)) => e == se,
            _ => false,
        },
        r is Ok ==> r->Ok_0@.contains(JsonEdit::AccessorCount(slots.indices as usize, index_len)),
        r is Ok ==> r->Ok_0@.contains(JsonEdit::AccessorCount(slots.normal as usize, normal_len)),
        r is Ok ==> r->Ok_0@.contains(JsonEdit::AccessorCount(slots.position as usize, position_len)),
        r is Ok ==> r->Ok_0@.contains(JsonEdit::AccessorCount(slots.texcoord_0 as usize, texcoord_len)),
{
    let iv = table.get(Role::Indices).unwrap().bufferView;
    let nv = table.get(Role::Normal).unwrap().bufferView;
    let pv = table.get(Role::Position).unwrap().bufferView;
    let tv = table.get(Role::Texcoord0).unwrap().bufferView;
    let sizes = match section_sizes(index_len, normal_len, position_len, texcoord_len) {
        Some(sz) => sz,
        None => return Err(RepackError::Overflow),
    };
    let (offs, total) = match buffer_offsets(slots, &sizes) {
        Some(x) => x,
        None => return Err(RepackError::Overflow),
    };
    let mut edits: Vec<JsonEdit> = Vec::new();
    edits.push(JsonEdit::AccessorCount(slots.indices as usize, index_len));
    edits.push(JsonEdit::AccessorCount(slots.normal as usize, normal_len));
    edits.push(JsonEdit::AccessorCount(slots.position as usize, position_len));
    edits.push(JsonEdit::AccessorCount(slots.texcoord_0 as usize, texcoord_len));
    edits.push(JsonEdit::ViewByteLength(iv, sizes.indices));
    edits.push(JsonEdit::ViewByteLength(nv, sizes.normal));
    edits.push(JsonEdit::ViewByteLength(pv, sizes.position));
    edits.push(JsonEdit::ViewByteLength(tv, sizes.texcoord_0));
    let ghost head = edits@;
    let ghost secs = sections_upto(4, slots.indices as int, slots.normal as int, slots.position as int,
        slots.texcoord_0 as int);
    let n = offs.len();
    let mut k: usize = 0;
    while k < n
        invariant
            n == offs@.len(),
            n == secs.len(),
            k <= n,
            forall|q: int| 0 <= q < secs.len() ==> {
                &&& (#[trigger] offs@[q]).0 == secs[q]
                &&& offs@[q].1 == total_size(sizes, secs.subrange(0, q))
            },
            edits@ == head + offset_edits(secs, sizes, iv, nv, pv, tv).subrange(0, k as int),
        decreases n - k,
    {
        let (sec, off) = offs[k];
        let v = match sec {
            Section::Indices => iv,
            Section::Normal => nv,
            Section::Position => pv,
            Section::Texcoord0 => tv,
        };
        edits.push(JsonEdit::ViewByteOffset(v, off));
        proof {
            assert(offset_edits(secs, sizes, iv, nv, pv, tv).subrange(0, k + 1)
                =~= offset_edits(secs, sizes, iv, nv, pv, tv).subrange(0, k as int).push(JsonEdit::ViewByteOffset(v, off)));
        }
        k = k + 1;
    }
    edits.push(JsonEdit::BufferByteLength(total));
    proof {
        assert(offset_edits(secs, sizes, iv, nv, pv, tv).subrange(0, n as int) =~= offset_edits(secs, sizes, iv, nv, pv, tv));
        let sv = json_edit_list(*slots, *table, index_len, normal_len, position_len, texcoord_len);
        assert(edits@ =~= sv->Ok_0);
        law_edits_name_each_lists_accessor(*slots, *table, index_len, normal_len, position_len, texcoord_len);
    }
    Ok(edits)
}

} // verus!
