use vstd::prelude::*;

use vstd::string::StringSliceAdditionalSpecFns;

use crate::shared::PAGE_SIZE;

verus! {

/// Width of each text field of a song record.
pub const FIELD_LEN: usize = 50;

/// Encoded size of a song record: a four-byte id and two text fields.
pub const SONG_LEN: usize = 104;

/// Failures at the codec boundary.
#[derive(PartialEq, Eq, Structural, Clone, Copy, Debug)]
pub enum CodecError {
    /// The encoded record does not fit in a page.
    BufferTooLarge,
    /// The input ends before the record does.
    Truncated,
}

/// A song record stored in a page.
#[derive(Clone, Copy)]
pub struct Song {
    pub id: i32,
    pub title: [u8; 50],
    pub artist: [u8; 50],
}

/// `x` read as an unsigned 32-bit value (two's complement).
pub open spec fn bits_of_i32(x: i32) -> int {
    if x >= 0 {
        x as int
    } else {
        x as int + 0x1_0000_0000
    }
}

/// The four little-endian bytes of `u`, for `0 <= u < 2^32`.
pub open spec fn le_bytes(u: int) -> Seq<u8> {
    seq![
        (u % 256) as u8,
        (u / 256 % 256) as u8,
        (u / 0x1_0000 % 256) as u8,
        (u / 0x100_0000 % 256) as u8,
    ]
}

/// The encoding of a song: its id in four little-endian bytes, then the title
/// and artist fields.
pub open spec fn song_encoding(s: Song) -> Seq<u8> {
    le_bytes(bits_of_i32(s.id)) + s.title@ + s.artist@
}

/// `b` zero-padded to a full page.
pub open spec fn padded(b: Seq<u8>) -> Seq<u8> {
    b + Seq::new((PAGE_SIZE - b.len()) as nat, |i: int| 0u8)
}

/// The text `s` in a fixed-width field: its bytes, then zeros.
pub open spec fn field_of(s: Seq<u8>) -> Seq<u8> {
    s + Seq::new((FIELD_LEN - s.len()) as nat, |i: int| 0u8)
}

fn field(s: &str) -> (r: [u8; 50])
    requires
        s.spec_bytes().len() <= FIELD_LEN,
    ensures
        r@ == field_of(s.spec_bytes()),
{
    let b = s.as_bytes();
    let mut out = [0u8; 50];
    let mut i: usize = 0;
    while i < FIELD_LEN
        invariant
            b@ == s.spec_bytes(),
            b@.len() <= FIELD_LEN,
            i <= FIELD_LEN,
            out@.len() == FIELD_LEN,
            forall|j: int| 0 <= j < i ==> out@[j] == field_of(b@)[j],
        decreases FIELD_LEN - i,
    {
        if i < b.len() {
            out[i] = b[i];
        } else {
            out[i] = 0u8;
        }
        i = i + 1;
    }
    assert(out@ =~= field_of(s.spec_bytes()));
    out
}

impl Song {
    /// A song whose text fields hold `title` and `artist`, zero-padded.
    pub fn new(id: i32, title: &str, artist: &str) -> (r: Song)
        requires
            title.spec_bytes().len() <= FIELD_LEN,
            artist.spec_bytes().len() <= FIELD_LEN,
        ensures
            r.id == id,
            r.title@ == field_of(title.spec_bytes()),
            r.artist@ == field_of(artist.spec_bytes()),
    {
        Song { id, title: field(title), artist: field(artist) }
    }
}

/// The deterministic encoding of `item`.
pub fn encode(item: &Song) -> (r: Vec<u8>)
    ensures
        r@ == song_encoding(*item),
{
    let u: u32 = if item.id >= 0 {
        item.id as u32
    } else {
        (item.id as i64 + 0x1_0000_0000i64) as u32
    };
    let mut out: Vec<u8> = Vec::with_capacity(SONG_LEN);
    out.push((u % 256) as u8);
    out.push((u / 256 % 256) as u8);
    out.push((u / 0x1_0000 % 256) as u8);
    out.push((u / 0x100_0000 % 256) as u8);
    let mut i: usize = 0;
    while i < FIELD_LEN
        invariant
            i <= FIELD_LEN,
            out@ == le_bytes(u as int) + item.title@.subrange(0, i as int),
        decreases FIELD_LEN - i,
    {
        out.push(item.title[i]);
        i = i + 1;
        assert(out@ =~= le_bytes(u as int) + item.title@.subrange(0, i as int));
    }
    let mut j: usize = 0;
    while j < FIELD_LEN
        invariant
            j <= FIELD_LEN,
            out@ == le_bytes(u as int) + item.title@ + item.artist@.subrange(0, j as int),
        decreases FIELD_LEN - j,
    {
        proof {
            assert(item.title@.subrange(0, FIELD_LEN as int) =~= item.title@);
        }
        out.push(item.artist[j]);
        j = j + 1;
        assert(out@ =~= le_bytes(u as int) + item.title@ + item.artist@.subrange(0, j as int));
    }
    assert(item.artist@.subrange(0, FIELD_LEN as int) =~= item.artist@);
    out
}

/// Reads a song from the start of `bytes`; what follows the record is ignored.
pub fn decode(bytes: &Vec<u8>) -> (r: Result<Song, CodecError>)
    ensures
        r is Err <==> bytes@.len() < SONG_LEN,
        match r {
            Ok(s) => song_encoding(s) == bytes@.subrange(0, SONG_LEN as int),
            Err(e) => e == CodecError::Truncated,
        },
{
    if bytes.len() < SONG_LEN {
        return Err(CodecError::Truncated);
    }
    let u: u32 = bytes[0] as u32 + bytes[1] as u32 * 256 + bytes[2] as u32 * 0x1_0000 + bytes[3] as u32
        * 0x100_0000;
    let id: i32 = if u < 0x8000_0000 {
        u as i32
    } else {
        (u as i64 - 0x1_0000_0000i64) as i32
    };
    let mut title = [0u8; 50];
    let mut artist = [0u8; 50];
    let mut i: usize = 0;
    while i < FIELD_LEN
        invariant
            bytes@.len() >= SONG_LEN,
            i <= FIELD_LEN,
            title@.len() == FIELD_LEN,
            artist@.len() == FIELD_LEN,
            forall|j: int| 0 <= j < i ==> title@[j] == bytes@[4 + j],
            forall|j: int| 0 <= j < i ==> artist@[j] == bytes@[54 + j],
        decreases FIELD_LEN - i,
    {
        title[i] = bytes[4 + i];
        artist[i] = bytes[54 + i];
        i = i + 1;
    }
    let s = Song { id, title, artist };
    proof {
        assert(bits_of_i32(id) == u as int);
        let b0 = bytes@[0] as int;
        let b1 = bytes@[1] as int;
        let b2 = bytes@[2] as int;
        let b3 = bytes@[3] as int;
        assert(u as int == b0 + b1 * 256 + b2 * 0x1_0000 + b3 * 0x100_0000);
        assert(le_bytes(u as int) =~= bytes@.subrange(0, 4)) by {
            lemma_le_bytes_of(b0, b1, b2, b3);
        }
        assert(song_encoding(s) =~= bytes@.subrange(0, SONG_LEN as int));
    }
    Ok(s)
}

proof fn lemma_le_bytes_of(b0: int, b1: int, b2: int, b3: int)
    requires
        0 <= b0 < 256,
        0 <= b1 < 256,
        0 <= b2 < 256,
        0 <= b3 < 256,
    ensures
        ({
            let u = b0 + b1 * 256 + b2 * 0x1_0000 + b3 * 0x100_0000;
            &&& u % 256 == b0
            &&& u / 256 % 256 == b1
            &&& u / 0x1_0000 % 256 == b2
            &&& u / 0x100_0000 % 256 == b3
        }),
{
    let u = b0 + b1 * 256 + b2 * 0x1_0000 + b3 * 0x100_0000;
    assert(u % 256 == b0) by (nonlinear_arith)
        requires u == b0 + b1 * 256 + b2 * 0x1_0000 + b3 * 0x100_0000, 0 <= b0 < 256, 0 <= b1 < 256, 0 <= b2 < 256, 0 <= b3 < 256;
    assert(u / 256 == b1 + b2 * 256 + b3 * 0x1_0000) by (nonlinear_arith)
        requires u == b0 + b1 * 256 + b2 * 0x1_0000 + b3 * 0x100_0000, 0 <= b0 < 256, 0 <= b1 < 256, 0 <= b2 < 256, 0 <= b3 < 256;
    assert(u / 0x1_0000 == b2 + b3 * 256) by (nonlinear_arith)
        requires u == b0 + b1 * 256 + b2 * 0x1_0000 + b3 * 0x100_0000, 0 <= b0 < 256, 0 <= b1 < 256, 0 <= b2 < 256, 0 <= b3 < 256;
    assert(u / 0x100_0000 == b3) by (nonlinear_arith)
        requires u == b0 + b1 * 256 + b2 * 0x1_0000 + b3 * 0x100_0000, 0 <= b0 < 256, 0 <= b1 < 256, 0 <= b2 < 256, 0 <= b3 < 256;
}

/// `bytes` zero-padded to a full page; `BufferTooLarge` when they exceed a page.
pub fn pad_to_page(bytes: &Vec<u8>) -> (r: Result<Vec<u8>, CodecError>)
    ensures
        r is Err <==> bytes@.len() > PAGE_SIZE,
        match r {
            Ok(b) => b@ == padded(bytes@),
            Err(e) => e == CodecError::BufferTooLarge,
        },
{
    if bytes.len() > PAGE_SIZE {
        return Err(CodecError::BufferTooLarge);
    }
    let mut out: Vec<u8> = Vec::with_capacity(PAGE_SIZE);
    let mut i: usize = 0;
    while i < PAGE_SIZE
        invariant
            bytes@.len() <= PAGE_SIZE,
            i <= PAGE_SIZE,
            out@.len() == i,
            forall|j: int| 0 <= j < i ==> out@[j] == padded(bytes@)[j],
        decreases PAGE_SIZE - i,
    {
        if i < bytes.len() {
            out.push(bytes[i]);
        } else {
            out.push(0u8);
        }
        i = i + 1;
    }
    assert(out@ =~= padded(bytes@));
    Ok(out)
}

/// The page image of `item`: its encoding, zero-padded to a page.
pub fn to_buffer(item: &Song) -> (r: Result<Vec<u8>, CodecError>)
    ensures
        match r {
            Ok(b) => b@ == padded(song_encoding(*item)),
            Err(_) => false,
        },
{
    let encoded = encode(item);
    pad_to_page(&encoded)
}

/// Reads the song stored at the start of a page image; the zero padding after it
/// is ignored.
pub fn from_buffer(buf: &Vec<u8>) -> (r: Result<Song, CodecError>)
    ensures
        r is Err <==> buf@.len() < SONG_LEN,
        match r {
            Ok(s) => song_encoding(s) == buf@.subrange(0, SONG_LEN as int),
            Err(e) => e == CodecError::Truncated,
        },
{
    decode(buf)
}

proof fn lemma_le_bytes_injective(u: int, v: int)
    requires
        0 <= u < 0x1_0000_0000,
        0 <= v < 0x1_0000_0000,
        le_bytes(u) == le_bytes(v),
    ensures
        u == v,
{
    assert(le_bytes(u)[0] == le_bytes(v)[0]);
    assert(le_bytes(u)[1] == le_bytes(v)[1]);
    assert(le_bytes(u)[2] == le_bytes(v)[2]);
    assert(le_bytes(u)[3] == le_bytes(v)[3]);
    assert(u == u % 256 + 256 * (u / 256 % 256) + 0x1_0000 * (u / 0x1_0000 % 256) + 0x100_0000 * (u
        / 0x100_0000 % 256)) by (nonlinear_arith)
        requires 0 <= u < 0x1_0000_0000;
    assert(v == v % 256 + 256 * (v / 256 % 256) + 0x1_0000 * (v / 0x1_0000 % 256) + 0x100_0000 * (v
        / 0x100_0000 % 256)) by (nonlinear_arith)
        requires 0 <= v < 0x1_0000_0000;
}

/// Decoding the encoding of a song gives back its fields: a record that decodes
/// from the first bytes of `to_buffer(s)` (its encoding followed by zeros) has
/// the id, title and artist of `s`.
pub proof fn lemma_buffer_round_trip(s: Song, r: Song)
    requires
        song_encoding(r) == padded(song_encoding(s)).subrange(0, SONG_LEN as int),
    ensures
        r.id == s.id,
        r.title@ == s.title@,
        r.artist@ == s.artist@,
{
    let es = song_encoding(s);
    let er = song_encoding(r);
    assert(padded(es).subrange(0, SONG_LEN as int) =~= es);
    assert(er.subrange(0, 4) =~= le_bytes(bits_of_i32(r.id)));
    assert(es.subrange(0, 4) =~= le_bytes(bits_of_i32(s.id)));
    lemma_le_bytes_injective(bits_of_i32(r.id), bits_of_i32(s.id));
    assert(er.subrange(4, 54) =~= r.title@);
    assert(es.subrange(4, 54) =~= s.title@);
    assert(er.subrange(54, 104) =~= r.artist@);
    assert(es.subrange(54, 104) =~= s.artist@);
}

} // verus!
