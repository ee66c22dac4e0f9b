//! The GLB container: its header, its JSON and binary chunks, and the
//! accessor and buffer-view records read from the JSON chunk.

use vstd::prelude::*;
use crate::decode::le_u32_at;

verus! {

/// An accessor of the glTF document: where its data lies and how it is typed.
#[allow(non_snake_case)]
#[derive(Debug, Clone)]
pub struct Prim {
    pub bufferView: u32,
    pub byteOffset: u32,
    pub componentType: u32,
    pub normalized: bool,
    pub count: u32,
    pub prim_type: String,
}

impl Prim {
    /// Builds an accessor record.
    #[allow(non_snake_case)]
    pub fn new(
        bufferView: u32,
        byteOffset: u32,
        componentType: u32,
        normalized: bool,
        count: u32,
        prim_type: String,
    ) -> (p: Self)
        ensures
            p.bufferView == bufferView,
            p.byteOffset == byteOffset,
            p.componentType == componentType,
            p.normalized == normalized,
            p.count == count,
            p.prim_type@ == prim_type@,
    {
        Prim { bufferView, byteOffset, componentType, normalized, count, prim_type }
    }
}

/// The little-endian bytes of a 32-bit word.
pub open spec fn le_bytes(x: u32) -> Seq<u8> {
    seq![
        (x % 256) as u8,
        ((x / 256) % 256) as u8,
        ((x / 65536) % 256) as u8,
        ((x / 16777216) % 256) as u8,
    ]
}

/// The magic number that opens a GLB file (`"glTF"`).
pub open spec fn glb_magic() -> u32 {
    0x46546C67
}

/// The type tag of the JSON chunk (`"JSON"`).
pub open spec fn json_tag() -> Seq<u8> {
    seq![0x4Au8, 0x53u8, 0x4Fu8, 0x4Eu8]
}

/// The type tag of the binary chunk (`"BIN\0"`).
pub open spec fn bin_tag() -> Seq<u8> {
    seq![0x42u8, 0x49u8, 0x4Eu8, 0x00u8]
}

/// The bytes of a GLB file: header, JSON chunk, binary chunk.
pub open spec fn glb_layout(
    version: u32,
    total_length: u32,
    json_chunk_length: u32,
    json_data: Seq<u8>,
    binary_chunk_length: u32,
    binary_data: Seq<u8>,
) -> Seq<u8> {
    le_bytes(glb_magic()) + le_bytes(version) + le_bytes(total_length)
        + le_bytes(json_chunk_length) + json_tag() + json_data
        + le_bytes(binary_chunk_length) + bin_tag() + binary_data
}

fn push_le_u32(out: &mut Vec<u8>, x: u32)
    ensures
        final(out)@ == old(out)@ + le_bytes(x),
{
    out.push((x % 256) as u8);
    out.push(((x / 256) % 256) as u8);
    out.push(((x / 65536) % 256) as u8);
    out.push(((x / 16777216) % 256) as u8);
    assert(out@ =~= old(out)@ + le_bytes(x));
}

fn push_bytes(out: &mut Vec<u8>, data: &[u8])
    ensures
        final(out)@ == old(out)@ + data@,
{
    let ghost start = out@;
    let n = data.len();
    let mut i: usize = 0;
    while i < n
        invariant
            n == data@.len(),
            i <= n,
            out@ == start + data@.subrange(0, i as int),
        decreases n - i,
    {
        out.push(data[i]);
        assert(data@.subrange(0, i + 1) =~= data@.subrange(0, i as int).push(data@[i as int]));
        assert(out@ =~= start + data@.subrange(0, i + 1));
        i = i + 1;
    }
    assert(data@.subrange(0, n as int) =~= data@);
}

/// The bytes of a GLB file with the given header fields and chunks, in the
/// order they are written out: magic, version, total length, JSON chunk
/// length and tag and data, binary chunk length and tag and data.
pub fn glb_bytes(
    version: u32,
    total_length: u32,
    json_chunk_length: u32,
    json_data: &[u8],
    binary_chunk_length: u32,
    binary_data: &[u8],
) -> (out: Vec<u8>)
    ensures
        out@ == glb_layout(version, total_length, json_chunk_length, json_data@, binary_chunk_length, binary_data@),
{
    let mut out: Vec<u8> = Vec::new();
    push_le_u32(&mut out, 0x46546C67);
    push_le_u32(&mut out, version);
    push_le_u32(&mut out, total_length);
    push_le_u32(&mut out, json_chunk_length);
    out.push(0x4A);
    out.push(0x53);
    out.push(0x4F);
    out.push(0x4E);
    push_bytes(&mut out, json_data);
    push_le_u32(&mut out, binary_chunk_length);
    out.push(0x42);
    out.push(0x49);
    out.push(0x4E);
    out.push(0x00);
    push_bytes(&mut out, binary_data);
    assert(out@ =~= glb_layout(version, total_length, json_chunk_length, json_data@, binary_chunk_length, binary_data@));
    out
}

/// The length fields of a GLB header for chunks of `json_len` and `bin_len`
/// bytes: the two chunk lengths as 32-bit words, and the total length
/// `12 + 8 + json + 8 + binary`; `None` when the total does not fit in 32 bits.
pub fn glb_lengths(json_len: usize, bin_len: usize) -> (r: Option<(u32, u32, u32)>)
    ensures
        match r {
            Some((j, b, t)) => {
                &&& j == json_len as u32
                &&& b == bin_len as u32
                &&& t == 28 + j + b
            },
            None => 28 + (json_len as u32) + (bin_len as u32) > u32::MAX,
        },
{
    let j: u32 = json_len as u32;
    let b: u32 = bin_len as u32;
    if j as u64 + b as u64 + 28 > 0xFFFF_FFFF {
        None
    } else {
        Some((j, b, 28 + j + b))
    }
}

/// Where the chunks of a GLB file lie: `None` when the file is too short to
/// hold the JSON chunk length at byte 12, the JSON chunk from byte 20, and
/// the 8-byte header of the binary chunk after it.
pub open spec fn glb_chunks(buffer: Seq<u8>) -> Option<(Seq<u8>, Seq<u8>)> {
    if buffer.len() < 16 {
        None
    } else {
        let l = le_u32_at(buffer, 12);
        if 28 + l > buffer.len() {
            None
        } else {
            Some((buffer.subrange(20, 20 + l), buffer.subrange(28 + l, buffer.len() as int)))
        }
    }
}

/// Splits a GLB file into its JSON chunk and its binary chunk.
pub fn split_glb(buffer: &[u8]) -> (r: Option<(&[u8], &[u8])>)
    ensures
        match (r, glb_chunks(buffer@)) {
            (Some((j, b)), Some((sj, sb))) => j@ == sj && b@ == sb,
            (None, None) => true,
            _ => false,
        },
{
    let len = buffer.len();
    if len < 16 {
        return None;
    }
    let json_length: u32 = crate::decode::byte_u32(buffer, 12);
    if json_length as usize > len || 28 > len - json_length as usize {
        return None;
    }
    let json_end: usize = 20 + json_length as usize;
    let json_chunk = &buffer[20..json_end];
    let binary_chunk = &buffer[json_end + 8..len];
    Some((json_chunk, binary_chunk))
}

/// Reading a 32-bit word back from its little-endian bytes gives the word.
pub proof fn lemma_le_bytes_read(x: u32)
    ensures
        le_u32_at(le_bytes(x), 0) == x,
{
    let xi = x as int;
    let b0 = xi % 256;
    let b1 = (xi / 256) % 256;
    let b2 = (xi / 65536) % 256;
    let b3 = (xi / 16777216) % 256;
    assert(b0 + 256 * b1 + 65536 * b2 + 16777216 * b3 == xi) by (nonlinear_arith)
        requires
            0 <= xi < 0x1_0000_0000,
            b0 == xi % 256,
            b1 == (xi / 256) % 256,
            b2 == (xi / 65536) % 256,
            b3 == (xi / 16777216) % 256,
    ;
}

/// A GLB file written with a JSON chunk length equal to the length of its
/// JSON data splits back into that JSON data and that binary data, whatever
/// the other header fields hold.
pub proof fn law_glb_round_trip(
    version: u32,
    total_length: u32,
    json_data: Seq<u8>,
    binary_chunk_length: u32,
    binary_data: Seq<u8>,
)
    requires
        json_data.len() <= u32::MAX,
    ensures
        glb_chunks(glb_layout(version, total_length, json_data.len() as u32, json_data, binary_chunk_length, binary_data))
            == Some((json_data, binary_data)),
{
    let l = json_data.len() as u32;
    let file = glb_layout(version, total_length, l, json_data, binary_chunk_length, binary_data);
    lemma_le_bytes_read(l);
    let lb = le_bytes(l);
    assert(file.len() == 28 + json_data.len() + binary_data.len());
    assert(file[12] == lb[0] && file[13] == lb[1] && file[14] == lb[2] && file[15] == lb[3]);
    assert(le_u32_at(file, 12) == l);
    assert(file.subrange(20, 20 + l) =~= json_data);
    assert(file.subrange(28 + l, file.len() as int) =~= binary_data);
}

/// The JSON document type of `serde_json`.
#[verifier::external_type_specification]
#[verifier::external_body]
pub struct ExJsonValue(serde_json::Value);

/// The error type of `serde_json`.
#[verifier::external_type_specification]
#[verifier::external_body]
pub struct ExJsonError(serde_json::Error);

/// Whether `serde_json::from_slice` reads the bytes as one JSON document
/// (a property of the bytes alone).
pub uninterp spec fn json_accepts(bytes: Seq<u8>) -> bool;

/// The document that `serde_json::from_slice` reads from the bytes, where it
/// reads one (a function of the bytes alone).
pub uninterp spec fn json_doc(bytes: Seq<u8>) -> serde_json::Value;

/// The compact JSON text that `serde_json::to_vec` writes for a document (a
/// function of the document alone).
pub uninterp spec fn json_text(v: serde_json::Value) -> Seq<u8>;

/// Parses bytes as a JSON document with `serde_json::from_slice`; succeeds
/// exactly on the bytes it accepts, and then gives the document they hold.
#[verifier::external_body]
fn parse_json(bytes: &[u8]) -> (r: Result<serde_json::Value, serde_json::Error>)
    ensures
        r is Ok <==> json_accepts(bytes@),
        r is Ok ==> r->Ok_0 == json_doc(bytes@),
{
    serde_json::from_slice::<serde_json::Value>(bytes)
}

/// Writes a JSON document out as compact JSON text with `serde_json::to_vec`,
/// which does not fail on a document written to a vector.
#[verifier::external_body]
fn json_to_vec(v: &serde_json::Value) -> (r: Result<Vec<u8>, serde_json::Error>)
    ensures
        r is Ok,
        r is Ok ==> r->Ok_0@ == json_text(*v),
{
    serde_json::to_vec(v)
}

/// Why a GLB file cannot be read or written.
#[derive(PartialEq, Eq, Structural, Clone, Copy, Debug)]
pub enum GlbError {
    /// The JSON chunk is not a JSON document.
    InvalidJson,
    /// The file would be longer than a 32-bit length can say.
    TooLarge,
}

/// Reads a GLB file that is long enough for its chunks (see [`split_glb`]):
/// its JSON chunk parsed as a JSON document, and its binary chunk.
pub fn load_glb(buffer: &[u8]) -> (r: Result<(serde_json::Value, &[u8]), GlbError>)
    requires
        glb_chunks(buffer@) is Some,
    ensures
        ({
            let (json, binary) = glb_chunks(buffer@)->Some_0;
            if json_accepts(json) {
                r is Ok && r->Ok_0.0 == json_doc(json) && r->Ok_0.1@ == binary
            } else {
                r == Err::<(serde_json::Value, &[u8]), GlbError>(GlbError::InvalidJson)
            }
        }),
{
    let (json_chunk, binary_chunk) = split_glb(buffer).unwrap();
    match parse_json(json_chunk) {
        Ok(doc) => Ok((doc, binary_chunk)),
        Err(_) => Err(GlbError::InvalidJson),
    }
}

/// Writes a GLB file of the given version: the JSON document as compact JSON
/// text in the JSON chunk, then the binary chunk, each length taken modulo
/// 2^32 as the header stores it; `TooLarge` when the total length does not fit
/// in 32 bits.
pub fn store_glb(version: u32, json: &serde_json::Value, binary_data: &[u8]) -> (r: Result<Vec<u8>, GlbError>)
    ensures
        ({
            let text = json_text(*json);
            let jl = text.len() as u32;
            let bl = binary_data@.len() as u32;
            match r {
                Ok(bytes) => {
                    &&& 28 + jl + bl <= u32::MAX
                    &&& bytes@ == glb_layout(version, (28 + jl + bl) as u32, jl, text, bl, binary_data@)
                },
                Err(e) => e == GlbError::TooLarge && 28 + jl + bl > u32::MAX,
            }
        }),
{
    let json_data = match json_to_vec(json) {
        Ok(v) => v,
        Err(_) => {
            proof {
                assert(false);
            }
            return Err(GlbError::TooLarge);
        },
    };
    match glb_lengths(json_data.len(), binary_data.len()) {
        None => Err(GlbError::TooLarge),
        Some((j, b, t)) => {
            let bytes = glb_bytes(version, t, j, json_data.as_slice(), b, binary_data);
            proof {
                assert(bytes@ == glb_layout(version, (28 + j + b) as u32, j, json_data@, b, binary_data@));
            }
            Ok(bytes)
        },
    }
}

} // verus!
