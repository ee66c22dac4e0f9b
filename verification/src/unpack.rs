//! From the records of the JSON chunk and the bytes of the binary chunk to
//! the index list and the raw attribute words of the first mesh primitive.

use vstd::prelude::*;
use crate::decode::{
    decoded_indices, index_component_size, item_words, items_within, read_indices,
    read_item_words, words_within,
};
use crate::glb::Prim;

verus! {

/// The accessor numbers that the first primitive of the first mesh gives for
/// its indices and attributes; -1 where it gives none.
#[derive(Debug, Clone, Copy)]
pub struct AttributeSlots {
    pub indices: i64,
    pub normal: i64,
    pub position: i64,
    pub tangent: i64,
    pub texcoord_0: i64,
}

/// The part an accessor plays for the mesh primitive.
#[derive(PartialEq, Eq, Structural, Clone, Copy, Debug)]
pub enum Role {
    Indices,
    Normal,
    Position,
    Tangent,
    Texcoord0,
    Other,
}

/// The role given to accessor number `i`: the first of indices, normal,
/// position and texture coordinates whose slot it fills. No accessor is ever
/// filed as the tangent one.
pub open spec fn role_of(i: int, s: AttributeSlots) -> Role {
    if i == s.indices {
        Role::Indices
    } else if i == s.normal {
        Role::Normal
    } else if i == s.position {
        Role::Position
    } else if i == s.texcoord_0 {
        Role::Texcoord0
    } else {
        Role::Other
    }
}

/// Gives accessor number `i` its role.
pub fn accessor_role(i: i64, slots: &AttributeSlots) -> (r: Role)
    ensures
        r == role_of(i as int, *slots),
{
    if i == slots.indices {
        Role::Indices
    } else if i == slots.normal {
        Role::Normal
    } else if i == slots.position {
        Role::Position
    } else if i == slots.texcoord_0 {
        Role::Texcoord0
    } else {
        Role::Other
    }
}

fn slot_is(slot: i64, i: usize) -> (r: bool)
    ensures
        r == (slot == i as int),
{
    slot >= 0 && slot as u64 == i as u64
}

fn role_at(i: usize, slots: &AttributeSlots) -> (r: Role)
    ensures
        r == role_of(i as int, *slots),
{
    if slot_is(slots.indices, i) {
        Role::Indices
    } else if slot_is(slots.normal, i) {
        Role::Normal
    } else if slot_is(slots.position, i) {
        Role::Position
    } else if slot_is(slots.texcoord_0, i) {
        Role::Texcoord0
    } else {
        Role::Other
    }
}

/// The accessors of the document filed by role; for each role the last
/// accessor given that role.
pub struct PrimitiveTable {
    pub indices: Option<Prim>,
    pub normal: Option<Prim>,
    pub position: Option<Prim>,
    pub texcoord_0: Option<Prim>,
    pub other: Option<Prim>,
}

/// The entry of the table for a role (never one for the tangent).
pub open spec fn table_entry(t: PrimitiveTable, role: Role) -> Option<Prim> {
    match role {
        Role::Indices => t.indices,
        Role::Normal => t.normal,
        Role::Position => t.position,
        Role::Tangent => None,
        Role::Texcoord0 => t.texcoord_0,
        Role::Other => t.other,
    }
}

/// The last of the accessors numbered `lo..hi` in `accs` whose role is `role`.
pub open spec fn last_in(accs: Seq<Prim>, lo: int, hi: int, s: AttributeSlots, role: Role) -> Option<Prim>
    decreases hi - lo,
{
    if hi <= lo {
        None
    } else if role_of(hi - 1, s) == role {
        Some(accs[hi - 1])
    } else {
        last_in(accs, lo, hi - 1, s, role)
    }
}

/// The last of the accessors `accs` (numbered from 0) whose role is `role`.
pub open spec fn last_with_role(accs: Seq<Prim>, s: AttributeSlots, role: Role) -> Option<Prim> {
    last_in(accs, 0, accs.len() as int, s, role)
}

proof fn lemma_last_in_extend(accs: Seq<Prim>, lo: int, hi: int, s: AttributeSlots, role: Role)
    requires
        0 < lo <= hi,
    ensures
        last_in(accs, lo - 1, hi, s, role) == match last_in(accs, lo, hi, s, role) {
            Some(p) => Some(p),
            None => if role_of(lo - 1, s) == role { Some(accs[lo - 1]) } else { None },
        },
    decreases hi - lo,
{
    if hi > lo {
        lemma_last_in_extend(accs, lo, hi - 1, s, role);
        if role_of(hi - 1, s) != role {
            assert(last_in(accs, lo - 1, hi, s, role) == last_in(accs, lo - 1, hi - 1, s, role));
            assert(last_in(accs, lo, hi, s, role) == last_in(accs, lo, hi - 1, s, role));
        }
    } else {
        assert(last_in(accs, lo, hi, s, role) == None::<Prim>);
        assert(last_in(accs, lo - 1, lo - 1, s, role) == None::<Prim>);
    }
}

impl PrimitiveTable {
    /// The accessor filed under a role.
    pub fn get(&self, role: Role) -> (r: Option<&Prim>)
        ensures
            r == match table_entry(*self, role) {
                Some(p) => Some(&p),
                None => None::<&Prim>,
            },
    {
        match role {
            Role::Indices => self.indices.as_ref(),
            Role::Normal => self.normal.as_ref(),
            Role::Position => self.position.as_ref(),
            Role::Tangent => None,
            Role::Texcoord0 => self.texcoord_0.as_ref(),
            Role::Other => self.other.as_ref(),
        }
    }
}

/// Files the accessors of the document (numbered from 0) by role; an accessor
/// replaces any earlier one of the same role.
pub fn build_primitives(accessors: Vec<Prim>, slots: &AttributeSlots) -> (t: PrimitiveTable)
    ensures
        forall|role: Role| table_entry(t, role) == if role == Role::Tangent {
            None
        } else {
            last_with_role(accessors@, *slots, role)
        },
{
    let ghost all = accessors@;
    let mut accessors = accessors;
    let mut t = PrimitiveTable { indices: None, normal: None, position: None, texcoord_0: None, other: None };
    while accessors.len() > 0
        invariant
            accessors@.len() <= all.len(),
            accessors@ == all.subrange(0, accessors@.len() as int),
            forall|role: Role| #[trigger] table_entry(t, role) == if role == Role::Tangent {
                None
            } else {
                last_in(all, accessors@.len() as int, all.len() as int, *slots, role)
            },
        decreases accessors@.len(),
    {
        let i = accessors.len() - 1;
        let ghost t0 = t;
        let p = accessors.pop().unwrap();
        proof {
            assert(p == all[i as int]);
            assert(accessors@ =~= all.subrange(0, i as int));
        }
        let role = role_at(i, slots);
        match role {
            Role::Indices => if t.indices.is_none() { t.indices = Some(p); },
            Role::Normal => if t.normal.is_none() { t.normal = Some(p); },
            Role::Position => if t.position.is_none() { t.position = Some(p); },
            Role::Texcoord0 => if t.texcoord_0.is_none() { t.texcoord_0 = Some(p); },
            _ => if t.other.is_none() { t.other = Some(p); },
        }
        proof {
            assert forall|r: Role| #[trigger] table_entry(t, r) == if r == Role::Tangent {
                None
            } else {
                last_in(all, i as int, all.len() as int, *slots, r)
            } by {
                lemma_last_in_extend(all, i + 1, all.len() as int, *slots, r);
                assert(role == role_of(i as int, *slots));
                if r != role {
                    assert(table_entry(t, r) == table_entry(t0, r));
                }
            }
        }
    }
    t
}

/// Why the data of the mesh primitive cannot be read.
#[derive(PartialEq, Eq, Structural, Clone, Copy, Debug)]
pub enum UnpackError {
    /// The data does not lie within the binary chunk.
    OutOfBounds,
}

/// The buffer view that the loader takes for a slot: the view whose number is
/// the slot's accessor number, if there is one.
pub open spec fn view_for(views: Seq<crate::buffer_view::View>, slot: i64) -> Option<crate::buffer_view::View> {
    if 0 <= slot < views.len() { Some(views[slot as int]) } else { None }
}

/// Whether the index list can be read at all: where a buffer view is taken
/// for the index slot, an accessor is filed as the index one and its
/// component type is an index type.
pub open spec fn indices_readable(views: Seq<crate::buffer_view::View>, t: PrimitiveTable, s: AttributeSlots) -> bool {
    view_for(views, s.indices) is Some ==> {
        &&& t.indices is Some
        &&& index_component_size(t.indices->Some_0.componentType) > 0
    }
}

/// What reading the index list gives, given the binary chunk, the buffer views,
/// the accessor table and the slots, where it can be read.
pub open spec fn unpacked_indices(
    binary: Seq<u8>,
    views: Seq<crate::buffer_view::View>,
    t: PrimitiveTable,
    s: AttributeSlots,
) -> Result<Seq<u32>, UnpackError> {
    match view_for(views, s.indices) {
        None => Ok(Seq::empty()),
        Some(view) => {
            let p = t.indices->Some_0;
            if !items_within(binary.len() as int, view.byteOffset as int,
                index_component_size(p.componentType), p.count as int) {
                Err(UnpackError::OutOfBounds)
            } else {
                Ok(decoded_indices(p.componentType, binary, view.byteOffset as int, p.count as nat))
            }
        },
    }
}

/// Reads the index list of the mesh primitive: the `count` values of the index
/// accessor, of its component type, from the start of the buffer view taken
/// for the index slot. Empty when there is no such view.
pub fn unpack_indices(
    binary: &[u8],
    views: &Vec<crate::buffer_view::View>,
    table: &PrimitiveTable,
    slots: &AttributeSlots,
) -> (r: Result<Vec<u32>, UnpackError>)
    requires
        indices_readable(views@, *table, *slots),
    ensures
        match (r, unpacked_indices(binary@, views@, *table, *slots)) {
            (Ok(v), Ok(sv)) => v@ == sv,
            (Err(e), Err(se)) => e == se,
            _ => false,
        },
{
    if slots.indices < 0 || slots.indices as u64 >= views.len() as u64 {
        return Ok(Vec::new());
    }
    let off = views[slots.indices as usize].byteOffset;
    let p = table.indices.as_ref().unwrap();
    match read_indices(binary, off, p.componentType, p.count) {
        Some(v) => Ok(v),
        None => Err(UnpackError::OutOfBounds),
    }
}

/// The data read for a vertex attribute.
pub enum AttributeData {
    /// No buffer view was found for the attribute's slot.
    Absent,
    /// The attribute's accessor is not of `FLOAT` components; nothing is read.
    NotFloat,
    /// For each entry of the index list, the raw 32-bit words of that vertex's value.
    Words(Vec<Vec<u32>>),
}

/// Reads a `FLOAT` vertex attribute of `components` components for each entry
/// of the index list: the words of vertex `i` lie at `i * 4 * components`
/// bytes from the start of the buffer view taken for the attribute's slot.
pub fn unpack_attribute(
    binary: &[u8],
    views: &Vec<crate::buffer_view::View>,
    table: &PrimitiveTable,
    slot: i64,
    role: Role,
    components: u32,
    index_list: &Vec<u32>,
) -> (r: Result<AttributeData, UnpackError>)
    requires
        1 <= components <= 4,
        view_for(views@, slot) is Some ==> table_entry(*table, role) is Some,
    ensures
        match view_for(views@, slot) {
            None => r is Ok && r->Ok_0 is Absent,
            Some(view) => match table_entry(*table, role) {
                None => false,
                Some(p) => if p.componentType != 5126 {
                    r is Ok && r->Ok_0 is NotFloat
                } else if !words_within(binary@.len() as int, view.byteOffset as int, index_list@, components as int) {
                    r == Err::<AttributeData, UnpackError>(UnpackError::OutOfBounds)
                } else {
                    &&& r is Ok
                    &&& r->Ok_0 is Words
                    &&& r->Ok_0->Words_0@.len() == index_list@.len()
                    &&& forall|j: int| 0 <= j < index_list@.len() ==>
                        (#[trigger] r->Ok_0->Words_0@[j])@
                            == item_words(binary@, view.byteOffset as int, index_list@[j] as int, components as int)
                },
            },
        },
{
    if slot < 0 || slot as u64 >= views.len() as u64 {
        return Ok(AttributeData::Absent);
    }
    let off = views[slot as usize].byteOffset;
    let p = table.get(role).unwrap();
    if p.componentType != 5126 {
        Ok(AttributeData::NotFloat)
    } else {
        match read_item_words(binary, off, index_list, components) {
            Some(w) => Ok(AttributeData::Words(w)),
            None => Err(UnpackError::OutOfBounds),
        }
    }
}

} // verus!
