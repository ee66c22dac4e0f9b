//! The buffer-view and accessor records and the attribute slots of the first
//! mesh primitive, read from the parsed JSON document of a GLB file.

use vstd::prelude::*;
use crate::glb::Prim;
use crate::unpack::AttributeSlots;

verus! {

/// The value that `value[key]` gives for a document (`Null` where there is no
/// such member): a function of the value and the key alone.
pub uninterp spec fn json_member(v: serde_json::Value, key: Seq<char>) -> serde_json::Value;

/// The value that `value[i]` gives for a document (`Null` where there is no
/// such element): a function of the value and the position alone.
pub uninterp spec fn json_element(v: serde_json::Value, i: nat) -> serde_json::Value;

/// The elements that `Value::as_array` gives, where the value is an array.
pub uninterp spec fn json_array(v: serde_json::Value) -> Option<Seq<serde_json::Value>>;

/// What `Value::as_u64` gives for a value.
pub uninterp spec fn json_u64(v: serde_json::Value) -> Option<u64>;

/// What `Value::as_i64` gives for a value.
pub uninterp spec fn json_i64(v: serde_json::Value) -> Option<i64>;

/// What `Value::as_bool` gives for a value.
pub uninterp spec fn json_bool(v: serde_json::Value) -> Option<bool>;

/// The text that `Value::as_str` gives for a value, where it is a string.
pub uninterp spec fn json_str(v: serde_json::Value) -> Option<Seq<char>>;

/// Looks up a member with `Index<&str>` of `serde_json::Value`, which gives
/// the same value for the same document and key.
#[verifier::external_body]
fn member<'a>(v: &'a serde_json::Value, key: &str) -> (r: &'a serde_json::Value)
    ensures
        *r == json_member(*v, key@),
{
    &v[key]
}

/// Looks up an element with `Index<usize>` of `serde_json::Value`, which
/// gives the same value for the same document and position.
#[verifier::external_body]
fn element(v: &serde_json::Value, i: usize) -> (r: &serde_json::Value)
    ensures
        *r == json_element(*v, i as nat),
{
    &v[i]
}

/// The elements of an array value, by `Value::as_array`.
#[verifier::external_body]
fn as_array(v: &serde_json::Value) -> (r: Option<&Vec<serde_json::Value>>)
    ensures
        json_array(*v) == match r {
            Some(a) => Some(a@),
            None => None::<Seq<serde_json::Value>>,
        },
{
    v.as_array()
}

/// An integer value as a `u64`, by `Value::as_u64`.
#[verifier::external_body]
fn as_u64(v: &serde_json::Value) -> (r: Option<u64>)
    ensures
        r == json_u64(*v),
{
    v.as_u64()
}

/// An integer value as an `i64`, by `Value::as_i64`.
#[verifier::external_body]
fn as_i64(v: &serde_json::Value) -> (r: Option<i64>)
    ensures
        r == json_i64(*v),
{
    v.as_i64()
}

/// A boolean value, by `Value::as_bool`.
#[verifier::external_body]
fn as_bool(v: &serde_json::Value) -> (r: Option<bool>)
    ensures
        r == json_bool(*v),
{
    v.as_bool()
}

/// The text of a string value, by `Value::as_str`, copied into a `String`.
#[verifier::external_body]
fn as_str(v: &serde_json::Value) -> (r: Option<String>)
    ensures
        json_str(*v) == match r {
            Some(s) => Some(s@),
            None => None::<Seq<char>>,
        },
{
    v.as_str().map(String::from)
}

/// An unsigned member of a record, taken as a 32-bit number; 0 where the
/// member is missing or not an unsigned integer.
pub open spec fn member_u32(v: serde_json::Value, key: Seq<char>) -> u32 {
    match json_u64(json_member(v, key)) {
        Some(x) => x as u32,
        None => 0,
    }
}

/// The buffer-view record read from a `bufferViews` entry.
pub open spec fn view_record(v: serde_json::Value) -> crate::buffer_view::View {
    crate::buffer_view::View {
        buffer: member_u32(v, "buffer"@),
        byteLength: member_u32(v, "byteLength"@),
        byteOffset: member_u32(v, "byteOffset"@),
    }
}

/// The buffer-view records of the document, one per entry of `bufferViews`
/// (none when it is not an array).
pub open spec fn view_records(doc: serde_json::Value) -> Seq<crate::buffer_view::View> {
    match json_array(json_member(doc, "bufferViews"@)) {
        Some(entries) => entries.map_values(|e: serde_json::Value| view_record(e)),
        None => Seq::empty(),
    }
}

/// An accessor number given for a slot; -1 where none is given.
pub open spec fn slot_number(v: serde_json::Value) -> i64 {
    match json_i64(v) {
        Some(x) => x,
        None => -1i64,
    }
}

/// The first primitive of the first mesh of the document.
pub open spec fn first_primitive(doc: serde_json::Value) -> serde_json::Value {
    json_element(json_member(json_element(json_member(doc, "meshes"@), 0), "primitives"@), 0)
}

/// The slots of the first primitive of the first mesh: its `indices` and its
/// `NORMAL`, `POSITION`, `TANGENT` and `TEXCOORD_0` attributes.
pub open spec fn slot_record(doc: serde_json::Value) -> AttributeSlots {
    let p = first_primitive(doc);
    let attrs = json_member(p, "attributes"@);
    AttributeSlots {
        indices: slot_number(json_member(p, "indices"@)),
        normal: slot_number(json_member(attrs, "NORMAL"@)),
        position: slot_number(json_member(attrs, "POSITION"@)),
        tangent: slot_number(json_member(attrs, "TANGENT"@)),
        texcoord_0: slot_number(json_member(attrs, "TEXCOORD_0"@)),
    }
}

/// Whether an `accessors` entry has the members that every accessor must
/// have: an unsigned `componentType` and `count`, and a string `type`.
pub open spec fn accessor_complete(a: serde_json::Value) -> bool {
    &&& json_u64(json_member(a, "componentType"@)) is Some
    &&& json_u64(json_member(a, "count"@)) is Some
    &&& json_str(json_member(a, "type"@)) is Some
}

/// Whether an accessor record holds what an `accessors` entry gives: the
/// buffer view and byte offset (0 where missing), the component type, the
/// `normalized` flag (false where missing), the count and the type.
pub open spec fn accessor_record_of(p: Prim, a: serde_json::Value) -> bool {
    &&& p.bufferView == member_u32(a, "bufferView"@)
    &&& p.byteOffset == member_u32(a, "byteOffset"@)
    &&& p.componentType == json_u64(json_member(a, "componentType"@))->Some_0 as u32
    &&& p.normalized == match json_bool(json_member(a, "normalized"@)) {
        Some(b) => b,
        None => false,
    }
    &&& p.count == json_u64(json_member(a, "count"@))->Some_0 as u32
    &&& p.prim_type@ == json_str(json_member(a, "type"@))->Some_0
}

/// The entries of `accessors` (none when it is not an array).
pub open spec fn accessor_entries(doc: serde_json::Value) -> Seq<serde_json::Value> {
    match json_array(json_member(doc, "accessors"@)) {
        Some(entries) => entries,
        None => Seq::empty(),
    }
}

/// Why the records cannot be read from the document.
#[derive(PartialEq, Eq, Structural, Clone, Copy, Debug)]
pub enum RecordError {
    /// An accessor lacks its component type, its count or its type.
    IncompleteAccessor,
}

fn view_from(v: &serde_json::Value) -> (r: crate::buffer_view::View)
    ensures
        r == view_record(*v),
{
    let buffer: u32 = match as_u64(member(v, "buffer")) {
        Some(x) => x as u32,
        None => 0,
    };
    let byte_length: u32 = match as_u64(member(v, "byteLength")) {
        Some(x) => x as u32,
        None => 0,
    };
    let byte_offset: u32 = match as_u64(member(v, "byteOffset")) {
        Some(x) => x as u32,
        None => 0,
    };
    crate::buffer_view::View::new(buffer, byte_length, byte_offset)
}

fn slot_from(v: &serde_json::Value) -> (r: i64)
    ensures
        r == slot_number(*v),
{
    match as_i64(v) {
        Some(x) => x,
        None => -1,
    }
}

fn accessor_from(a: &serde_json::Value) -> (r: Option<Prim>)
    ensures
        r is Some <==> accessor_complete(*a),
        r matches Some(p) ==> accessor_record_of(p, *a),
{
    let buffer_view: u32 = match as_u64(member(a, "bufferView")) {
        Some(x) => x as u32,
        None => 0,
    };
    let byte_offset: u32 = match as_u64(member(a, "byteOffset")) {
        Some(x) => x as u32,
        None => 0,
    };
    let component_type: u32 = match as_u64(member(a, "componentType")) {
        Some(x) => x as u32,
        None => return None,
    };
    let normalized: bool = match as_bool(member(a, "normalized")) {
        Some(b) => b,
        None => false,
    };
    let count: u32 = match as_u64(member(a, "count")) {
        Some(x) => x as u32,
        None => return None,
    };
    let prim_type = match as_str(member(a, "type")) {
        Some(s) => s,
        None => return None,
    };
    Some(Prim::new(buffer_view, byte_offset, component_type, normalized, count, prim_type))
}

/// Reads the records of the document: the buffer views, the slots of the
/// first primitive of the first mesh, and the accessors, in the order they
/// are listed. Fails when an accessor lacks its component type, count or type.
pub fn read_records(doc: &serde_json::Value) -> (r: Result<(Vec<crate::buffer_view::View>, AttributeSlots, Vec<Prim>), RecordError>)
    ensures
        match r {
            Ok((views, slots, accessors)) => {
                let entries = accessor_entries(*doc);
                &&& views@ == view_records(*doc)
                &&& slots == slot_record(*doc)
                &&& accessors@.len() == entries.len()
                &&& forall|i: int| 0 <= i < entries.len() ==> #[trigger] accessor_complete(entries[i])
                &&& forall|i: int| 0 <= i < entries.len() ==> accessor_record_of(#[trigger] accessors@[i], entries[i])
            },
            Err(e) => {
                &&& e == RecordError::IncompleteAccessor
                &&& exists|i: int| 0 <= i < accessor_entries(*doc).len()
                    && !#[trigger] accessor_complete(accessor_entries(*doc)[i])
            },
        },
{
    let mut views: Vec<crate::buffer_view::View> = Vec::new();
    match as_array(member(doc, "bufferViews")) {
        Some(entries) => {
            let n = entries.len();
            let mut i: usize = 0;
            while i < n
                invariant
                    n == entries@.len(),
                    i <= n,
                    views@ == entries@.subrange(0, i as int).map_values(|e: serde_json::Value| view_record(e)),
                decreases n - i,
            {
                let v = view_from(&entries[i]);
                views.push(v);
                assert(entries@.subrange(0, i + 1).map_values(|e: serde_json::Value| view_record(e))
                    =~= entries@.subrange(0, i as int).map_values(|e: serde_json::Value| view_record(e)).push(v));
                i = i + 1;
            }
            assert(entries@.subrange(0, n as int) =~= entries@);
        },
        None => {},
    }
    assert(views@ =~= view_records(*doc));

    let p = element(member(element(member(doc, "meshes"), 0), "primitives"), 0);
    let attrs = member(p, "attributes");
    let slots = AttributeSlots {
        indices: slot_from(member(p, "indices")),
        normal: slot_from(member(attrs, "NORMAL")),
        position: slot_from(member(attrs, "POSITION")),
        tangent: slot_from(member(attrs, "TANGENT")),
        texcoord_0: slot_from(member(attrs, "TEXCOORD_0")),
    };

    let mut accessors: Vec<Prim> = Vec::new();
    match as_array(member(doc, "accessors")) {
        Some(entries) => {
            let n = entries.len();
            let mut i: usize = 0;
            while i < n
                invariant
                    n == entries@.len(),
                    entries@ == accessor_entries(*doc),
                    i <= n,
                    accessors@.len() == i,
                    forall|k: int| 0 <= k < i ==> #[trigger] accessor_complete(entries@[k]),
                    forall|k: int| 0 <= k < i ==> accessor_record_of(#[trigger] accessors@[k], entries@[k]),
                decreases n - i,
            {
                match accessor_from(&entries[i]) {
                    Some(a) => accessors.push(a),
                    None => {
                        assert(!accessor_complete(entries@[i as int]));
                        return Err(RecordError::IncompleteAccessor);
                    },
                }
                i = i + 1;
            }
        },
        None => {},
    }
    Ok((views, slots, accessors))
}

} // verus!
