//! The persisted atlas format: one binary blob holding a format version,
//! a content checksum, the compressed pixel payload, the metrics table
//! and the bake parameters.
//!
//! Writing compresses the raw pixel buffer and records a SHA-256 digest
//! of the *uncompressed* bytes. Loading rejects, loudly and in this
//! order: a malformed blob, an unsupported version, a payload that does
//! not decompress, a digest mismatch, and inconsistent contents. Two
//! independent integrity layers (schema version, content hash) make
//! truncation and bit flips fail rather than render garbage.
//!
//! All scalars are little-endian 64-bit; bearings are stored biased by
//! 2^31 so the encoding stays unsigned. The layout is this library's
//! own: only blobs in exactly this layout load, and there is no
//! best-effort acceptance of any other encoding.
//!
//! Loading also re-establishes the atlas data model on every accepted
//! blob: sides must be powers of two in [256, 8192], the decompressed
//! buffer must match them, and the metrics table must be sorted with
//! every region inside the atlas. A blob that decompresses and passes
//! the checksum but breaks that invariant is still rejected.

use vstd::prelude::*;
use vstd::string::StringExecFns;

use sha2::Digest;
use std::io::Read;
use std::io::Write;

use crate::atlas::CharEntry;
use crate::atlas::CharInfo;
use crate::atlas::FontAtlas;
use crate::atlas::FontType;
use crate::atlas::entries_in_bounds;
use crate::atlas::entries_sorted;
use crate::atlas::is_atlas_dim;
use crate::error::FontError;

verus! {

/// What the gzip compressor produces for given bytes. Stands for flate2's
/// `GzEncoder` at the default level, whose output is a function of the
/// input alone: the stream header it writes has a fixed zero timestamp
/// and a fixed operating-system byte.
pub uninterp spec fn gzip_of(data: Seq<u8>) -> Seq<u8>;

/// What the gzip decompressor yields for given bytes: the decompressed
/// stream, or nothing when the bytes are not a valid stream. A function
/// of the input alone.
pub uninterp spec fn gunzip_of(data: Seq<u8>) -> Option<Seq<u8>>;

/// The SHA-256 digest of given bytes: a function of the input alone.
pub uninterp spec fn sha256_of(data: Seq<u8>) -> Seq<u8>;

/// Relies on flate2's `write::GzEncoder` (`new`, `write_all`, `finish`)
/// at the default compression level: writing into a `Vec` sink cannot
/// fail, the stream is a function of the input alone, and gzip is
/// lossless, so decompressing the stream yields the input back.
#[verifier::external_body]
fn gzip_compress(data: &[u8]) -> (r: Vec<u8>)
    ensures
        r@ == gzip_of(data@),
        gunzip_of(r@) == Some(data@),
{
    let mut enc = flate2::write::GzEncoder::new(Vec::new(), flate2::Compression::default());
    enc.write_all(data).expect("writing to a Vec sink cannot fail");
    enc.finish().expect("finishing a Vec sink cannot fail")
}

/// Relies on flate2's `read::GzDecoder` with `read_to_end`: it yields the
/// decompressed bytes of a valid gzip stream and an error for anything
/// else, deciding the same way for the same bytes every time.
#[verifier::external_body]
fn gzip_decompress(data: &[u8]) -> (r: Option<Vec<u8>>)
    ensures
        r is Some <==> gunzip_of(data@) is Some,
        r is Some ==> r->0@ == gunzip_of(data@)->0,
{
    let mut dec = flate2::read::GzDecoder::new(data);
    let mut out = Vec::new();
    match dec.read_to_end(&mut out) {
        Ok(_) => Some(out),
        Err(_) => None,
    }
}

/// Relies on sha2's `Sha256` (`new`, `update`, `finalize`): the 32-byte
/// SHA-256 digest of the input, a function of the input alone.
#[verifier::external_body]
fn sha256_digest(data: &[u8]) -> (r: Vec<u8>)
    ensures
        r@ == sha256_of(data@),
        r@.len() == 32,
{
    let mut h = sha2::Sha256::new();
    h.update(data);
    h.finalize().to_vec()
}

/// Byte `i` of a 64-bit scalar's little-endian encoding.
pub open spec fn le64_byte(n: u64, i: int) -> u8 {
    if i == 0 {
        (n & 0xff) as u8
    } else if i == 1 {
        ((n >> 8u64) & 0xff) as u8
    } else if i == 2 {
        ((n >> 16u64) & 0xff) as u8
    } else if i == 3 {
        ((n >> 24u64) & 0xff) as u8
    } else if i == 4 {
        ((n >> 32u64) & 0xff) as u8
    } else if i == 5 {
        ((n >> 40u64) & 0xff) as u8
    } else if i == 6 {
        ((n >> 48u64) & 0xff) as u8
    } else {
        ((n >> 56u64) & 0xff) as u8
    }
}

/// A 64-bit scalar as eight little-endian bytes.
pub open spec fn le64(n: u64) -> Seq<u8> {
    Seq::new(8, |i: int| le64_byte(n, i))
}

/// The 64-bit scalar read from eight little-endian bytes at `off`.
pub open spec fn rd64(b: Seq<u8>, off: int) -> u64 {
    (b[off] as u64) | ((b[off + 1] as u64) << 8u64) | ((b[off + 2] as u64) << 16u64) | ((b[off
        + 3] as u64) << 24u64) | ((b[off + 4] as u64) << 32u64) | ((b[off + 5] as u64) << 40u64)
        | ((b[off + 6] as u64) << 48u64) | ((b[off + 7] as u64) << 56u64)
}

/// Reading back the eight bytes a scalar was written as yields the
/// scalar.
pub proof fn lemma_rd64_le64(b: Seq<u8>, off: int, n: u64)
    requires
        0 <= off,
        off + 8 <= b.len(),
        b[off] == le64(n)[0],
        b[off + 1] == le64(n)[1],
        b[off + 2] == le64(n)[2],
        b[off + 3] == le64(n)[3],
        b[off + 4] == le64(n)[4],
        b[off + 5] == le64(n)[5],
        b[off + 6] == le64(n)[6],
        b[off + 7] == le64(n)[7],
    ensures
        rd64(b, off) == n,
{
    let b0 = b[off];
    let b1 = b[off + 1];
    let b2 = b[off + 2];
    let b3 = b[off + 3];
    let b4 = b[off + 4];
    let b5 = b[off + 5];
    let b6 = b[off + 6];
    let b7 = b[off + 7];
    assert(b0 == (n & 0xff) as u8);
    assert(b1 == ((n >> 8u64) & 0xff) as u8);
    assert(b2 == ((n >> 16u64) & 0xff) as u8);
    assert(b3 == ((n >> 24u64) & 0xff) as u8);
    assert(b4 == ((n >> 32u64) & 0xff) as u8);
    assert(b5 == ((n >> 40u64) & 0xff) as u8);
    assert(b6 == ((n >> 48u64) & 0xff) as u8);
    assert(b7 == ((n >> 56u64) & 0xff) as u8);
    assert((b0 as u64) | ((b1 as u64) << 8u64) | ((b2 as u64) << 16u64) | ((b3 as u64) << 24u64)
        | ((b4 as u64) << 32u64) | ((b5 as u64) << 40u64) | ((b6 as u64) << 48u64) | ((
    b7 as u64) << 56u64) == n) by (bit_vector)
        requires
            b0 == (n & 0xff) as u8,
            b1 == ((n >> 8u64) & 0xff) as u8,
            b2 == ((n >> 16u64) & 0xff) as u8,
            b3 == ((n >> 24u64) & 0xff) as u8,
            b4 == ((n >> 32u64) & 0xff) as u8,
            b5 == ((n >> 40u64) & 0xff) as u8,
            b6 == ((n >> 48u64) & 0xff) as u8,
            b7 == ((n >> 56u64) & 0xff) as u8,
    ;
}

/// A bearing stored unsigned: shifted up by 2^31.
pub open spec fn bias32(x: i32) -> u64 {
    (x as int + 0x80000000) as u64
}

/// The bearing a stored biased value denotes.
pub open spec fn unbias32(v: u64) -> i32 {
    (v as int - 0x80000000) as i32
}

/// Append eight little-endian bytes of a scalar.
fn push_le64(v: &mut Vec<u8>, n: u64)
    ensures
        final(v)@ == old(v)@ + le64(n),
{
    v.push((n & 0xff) as u8);
    v.push(((n >> 8u64) & 0xff) as u8);
    v.push(((n >> 16u64) & 0xff) as u8);
    v.push(((n >> 24u64) & 0xff) as u8);
    v.push(((n >> 32u64) & 0xff) as u8);
    v.push(((n >> 40u64) & 0xff) as u8);
    v.push(((n >> 48u64) & 0xff) as u8);
    v.push(((n >> 56u64) & 0xff) as u8);
    proof {
        assert(v@ =~= old(v)@ + le64(n));
    }
}

/// Append a byte sequence.
fn push_bytes(v: &mut Vec<u8>, src: &Vec<u8>)
    ensures
        final(v)@ == old(v)@ + src@,
{
    let n = src.len();
    let mut i: usize = 0;
    while i < n
        invariant
            0 <= i <= n,
            n == src@.len(),
            v@ == old(v)@ + src@.take(i as int),
        decreases n - i,
    {
        v.push(src[i]);
        proof {
            assert(v@ =~= old(v)@ + src@.take(i + 1));
        }
        i = i + 1;
    }
    proof {
        assert(src@.take(n as int) =~= src@);
    }
}

/// The character of one decimal digit.
pub open spec fn digit_char(d: int) -> char {
    if d == 0 {
        '0'
    } else if d == 1 {
        '1'
    } else if d == 2 {
        '2'
    } else if d == 3 {
        '3'
    } else if d == 4 {
        '4'
    } else if d == 5 {
        '5'
    } else if d == 6 {
        '6'
    } else if d == 7 {
        '7'
    } else if d == 8 {
        '8'
    } else {
        '9'
    }
}

/// The decimal digits of a number, most significant first.
pub open spec fn dec_digits(n: int) -> Seq<char>
    decreases n,
{
    if n < 10 {
        seq![digit_char(n)]
    } else {
        dec_digits(n / 10) + seq![digit_char(n % 10)]
    }
}

/// Append one decimal digit.
fn push_digit(s: &mut String, d: u64)
    requires
        d < 10,
    ensures
        final(s)@ == old(s)@ + seq![digit_char(d as int)],
{
    broadcast use vstd::string::group_string_axioms;

    proof {
        reveal_strlit("0");
        reveal_strlit("1");
        reveal_strlit("2");
        reveal_strlit("3");
        reveal_strlit("4");
        reveal_strlit("5");
        reveal_strlit("6");
        reveal_strlit("7");
        reveal_strlit("8");
        reveal_strlit("9");
    }
    let lit: &str = if d == 0 {
        "0"
    } else if d == 1 {
        "1"
    } else if d == 2 {
        "2"
    } else if d == 3 {
        "3"
    } else if d == 4 {
        "4"
    } else if d == 5 {
        "5"
    } else if d == 6 {
        "6"
    } else if d == 7 {
        "7"
    } else if d == 8 {
        "8"
    } else {
        "9"
    };
    proof {
        assert(lit@ =~= seq![digit_char(d as int)]);
    }
    s.append(lit);
}

/// Append a number's decimal digits, most significant first.
fn push_decimal(s: &mut String, n: u64)
    ensures
        final(s)@ == old(s)@ + dec_digits(n as int),
    decreases n,
{
    if n >= 10 {
        push_decimal(s, n / 10);
    }
    push_digit(s, n % 10);
    proof {
        assert(final(s)@ =~= old(s)@ + dec_digits(n as int));
    }
}

/// The abstract contents of a persisted atlas blob.
pub struct FileModel {
    pub version: u64,
    pub checksum: Seq<u8>,
    pub payload: Seq<u8>,
    pub entries: Seq<CharEntry>,
    pub padding: u32,
    pub width: u32,
    pub height: u32,
    pub line_height: u32,
    pub font_size: u32,
    pub font_type: FontType,
}

/// One metrics-table row as 64 bytes: code, region, biased bearings,
/// advance.
pub open spec fn encode_entry(e: CharEntry) -> Seq<u8> {
    le64(e.code as u64) + le64(e.info.x as u64) + le64(e.info.y as u64) + le64(
        e.info.width as u64,
    ) + le64(e.info.height as u64) + le64(bias32(e.info.xoffset)) + le64(bias32(e.info.yoffset))
        + le64(e.info.xadvance as u64)
}

/// The metrics table, row after row.
pub open spec fn encode_entries(es: Seq<CharEntry>) -> Seq<u8>
    decreases es.len(),
{
    if es.len() == 0 {
        Seq::empty()
    } else {
        encode_entries(es.drop_last()) + encode_entry(es.last())
    }
}

/// The stored tag of a character set.
pub open spec fn ft_byte(ft: FontType) -> u8 {
    match ft {
        FontType::Ascii => 0u8,
        FontType::Unicode => 1u8,
    }
}

/// The whole persisted blob: version, checksum, length-prefixed payload,
/// counted metrics table, bake parameters, character-set tag.
pub open spec fn encode_file(m: FileModel) -> Seq<u8> {
    le64(m.version) + m.checksum + le64(m.payload.len() as u64) + m.payload + le64(
        m.entries.len() as u64,
    ) + encode_entries(m.entries) + le64(m.padding as u64) + le64(m.width as u64) + le64(
        m.height as u64,
    ) + le64(m.line_height as u64) + le64(m.font_size as u64) + seq![ft_byte(m.font_type)]
}

/// Each table row takes 64 bytes.
pub proof fn lemma_encode_entries_len(es: Seq<CharEntry>)
    ensures
        encode_entries(es).len() == 64 * es.len(),
    decreases es.len(),
{
    if es.len() > 0 {
        lemma_encode_entries_len(es.drop_last());
    }
}

/// The blob a model encodes to: its parts at fixed offsets.
pub proof fn lemma_encode_file_len(m: FileModel)
    requires
        m.checksum.len() == 32,
    ensures
        encode_file(m).len() == 97 + m.payload.len() + 64 * m.entries.len(),
{
    lemma_encode_entries_len(m.entries);
}

/// What a baked atlas persists as: the current version, the digest of the
/// raw pixels, the compressed pixels, and the atlas's own table and
/// parameters.
pub open spec fn file_model_of(a: FontAtlas) -> FileModel {
    FileModel {
        version: FontAtlas::CURRENT_VERSION as u64,
        checksum: sha256_of(a.image@),
        payload: gzip_of(a.image@),
        entries: a.chars@,
        padding: a.padding,
        width: a.width,
        height: a.height,
        line_height: a.line_height,
        font_size: a.font_size,
        font_type: a.font_type,
    }
}

/// The persisted-atlas codec.
pub struct FontAtlasFile;

impl FontAtlasFile {
    /// Serialize a baked atlas to one binary blob: compress the pixel
    /// buffer, digest the uncompressed bytes, and write version, digest,
    /// payload, metrics table and parameters.
    pub fn to_bytes(atlas: &FontAtlas) -> (r: Vec<u8>)
        ensures
            r@ == encode_file(file_model_of(*atlas)),
            gunzip_of(file_model_of(*atlas).payload) == Some(atlas.image@),
            sha256_of(atlas.image@).len() == 32,
            gzip_of(atlas.image@).len() <= u64::MAX,
            atlas.chars@.len() <= u64::MAX,
    {
        let payload = gzip_compress(atlas.image.as_slice());
        let checksum = sha256_digest(atlas.image.as_slice());
        let mut out: Vec<u8> = Vec::new();
        push_le64(&mut out, FontAtlas::CURRENT_VERSION as u64);
        push_bytes(&mut out, &checksum);
        push_le64(&mut out, payload.len() as u64);
        push_bytes(&mut out, &payload);
        push_le64(&mut out, atlas.chars.len() as u64);
        let ghost head = out@;
        let n = atlas.chars.len();
        let mut i: usize = 0;
        proof {
            assert(head + encode_entries(atlas.chars@.take(0)) =~= head);
        }
        while i < n
            invariant
                0 <= i <= n,
                n == atlas.chars@.len(),
                out@ == head + encode_entries(atlas.chars@.take(i as int)),
            decreases n - i,
        {
            let e = atlas.chars[i];
            push_le64(&mut out, e.code as u64);
            push_le64(&mut out, e.info.x as u64);
            push_le64(&mut out, e.info.y as u64);
            push_le64(&mut out, e.info.width as u64);
            push_le64(&mut out, e.info.height as u64);
            push_le64(&mut out, ((e.info.xoffset as i64) + 0x80000000) as u64);
            push_le64(&mut out, ((e.info.yoffset as i64) + 0x80000000) as u64);
            push_le64(&mut out, e.info.xadvance as u64);
            proof {
                assert(atlas.chars@.take(i + 1).drop_last() =~= atlas.chars@.take(i as int));
                assert(atlas.chars@.take(i + 1).last() == atlas.chars@[i as int]);
                assert(((e.info.xoffset as i64) + 0x80000000) as u64 == bias32(e.info.xoffset));
                assert(((e.info.yoffset as i64) + 0x80000000) as u64 == bias32(e.info.yoffset));
                assert(out@ =~= head + encode_entries(atlas.chars@.take(i + 1)));
            }
            i = i + 1;
        }
        proof {
            assert(atlas.chars@.take(n as int) =~= atlas.chars@);
        }
        push_le64(&mut out, atlas.padding as u64);
        push_le64(&mut out, atlas.width as u64);
        push_le64(&mut out, atlas.height as u64);
        push_le64(&mut out, atlas.line_height as u64);
        push_le64(&mut out, atlas.font_size as u64);
        let tag: u8 = match atlas.font_type {
            FontType::Ascii => 0,
            FontType::Unicode => 1,
        };
        out.push(tag);
        proof {
            assert(seq![tag] =~= out@.subrange(out@.len() - 1, out@.len() as int));
            assert(out@ =~= encode_file(file_model_of(*atlas)));
        }
        out
    }
}

/// The metrics-table row stored at `off`, unless a field overflows its
/// range.
pub open spec fn decode_entry_at(b: Seq<u8>, off: int) -> Option<CharEntry> {
    let code = rd64(b, off);
    let x = rd64(b, off + 8);
    let y = rd64(b, off + 16);
    let w = rd64(b, off + 24);
    let h = rd64(b, off + 32);
    let xo = rd64(b, off + 40);
    let yo = rd64(b, off + 48);
    let adv = rd64(b, off + 56);
    if code > u32::MAX as u64 || x > u32::MAX as u64 || y > u32::MAX as u64 || w > u32::MAX as u64
        || h > u32::MAX as u64 || xo > u32::MAX as u64 || yo > u32::MAX as u64 || adv
        > u32::MAX as u64 {
        None
    } else {
        Some(
            CharEntry {
                code: code as u32,
                info: CharInfo {
                    x: x as u32,
                    y: y as u32,
                    width: w as u32,
                    height: h as u32,
                    xoffset: unbias32(xo),
                    yoffset: unbias32(yo),
                    xadvance: adv as u32,
                },
            },
        )
    }
}

/// The first `n` metrics-table rows stored from `off` on.
pub open spec fn decode_entries(b: Seq<u8>, off: int, n: int) -> Option<Seq<CharEntry>>
    decreases n,
{
    if n <= 0 {
        Some(Seq::empty())
    } else {
        match decode_entries(b, off, n - 1) {
            Option::None => None,
            Option::Some(s) => match decode_entry_at(b, off + 64 * (n - 1)) {
                Option::None => None,
                Option::Some(e) => Some(s.push(e)),
            },
        }
    }
}

/// A prefix of the table that does not parse never starts parsing again.
pub proof fn lemma_decode_entries_none(b: Seq<u8>, off: int, j: int, n: int)
    requires
        0 <= j <= n,
        decode_entries(b, off, j) is None,
    ensures
        decode_entries(b, off, n) is None,
    decreases n - j,
{
    if j < n {
        lemma_decode_entries_none(b, off, j, n - 1);
    }
}

/// The contents a blob parses to, if it is shaped like a persisted
/// atlas: correctly length-prefixed, in-range fields, a known
/// character-set tag. No integrity judgment is made here.
pub open spec fn decode_file(b: Seq<u8>) -> Option<FileModel> {
    if b.len() < 48 {
        None
    } else {
        let version = rd64(b, 0);
        let checksum = b.subrange(8, 40);
        let plen = rd64(b, 40) as int;
        if b.len() < 56 + plen {
            None
        } else {
            let payload = b.subrange(48, 48 + plen);
            let n = rd64(b, 48 + plen) as int;
            if b.len() != 97 + plen + 64 * n {
                None
            } else {
                let toff = 56 + plen + 64 * n;
                let padding = rd64(b, toff);
                let width = rd64(b, toff + 8);
                let height = rd64(b, toff + 16);
                let line_height = rd64(b, toff + 24);
                let font_size = rd64(b, toff + 32);
                let tag = b[toff + 40];
                if padding > u32::MAX as u64 || width > u32::MAX as u64 || height
                    > u32::MAX as u64 || line_height > u32::MAX as u64 || font_size
                    > u32::MAX as u64 {
                    None
                } else if tag != 0 && tag != 1 {
                    None
                } else {
                    match decode_entries(b, 56 + plen, n) {
                        Option::None => None,
                        Option::Some(es) => Some(
                            FileModel {
                                version,
                                checksum,
                                payload,
                                entries: es,
                                padding: padding as u32,
                                width: width as u32,
                                height: height as u32,
                                line_height: line_height as u32,
                                font_size: font_size as u32,
                                font_type: if tag == 0 {
                                    FontType::Ascii
                                } else {
                                    FontType::Unicode
                                },
                            },
                        ),
                    }
                }
            }
        }
    }
}

/// A row read back from its own encoding is the row itself.
proof fn lemma_decode_encoded_entry(b: Seq<u8>, off: int, e: CharEntry)
    requires
        0 <= off,
        off + 64 <= b.len(),
        forall|k: int| 0 <= k < 64 ==> b[off + k] == #[trigger] encode_entry(e)[k],
    ensures
        decode_entry_at(b, off) == Some(e),
{
    assert forall|k: int| 0 <= k < 8 implies b[off + k] == #[trigger] le64(e.code as u64)[k] by {
        assert(b[off + k] == encode_entry(e)[k]);
    }
    assert forall|k: int| 0 <= k < 8 implies b[off + 8 + k] == #[trigger] le64(e.info.x as u64)[k] by {
        assert(b[off + (8 + k)] == encode_entry(e)[8 + k]);
    }
    assert forall|k: int| 0 <= k < 8 implies b[off + 16 + k] == #[trigger] le64(e.info.y as u64)[k] by {
        assert(b[off + (16 + k)] == encode_entry(e)[16 + k]);
    }
    assert forall|k: int| 0 <= k < 8 implies b[off + 24 + k] == #[trigger] le64(e.info.width as u64)[k] by {
        assert(b[off + (24 + k)] == encode_entry(e)[24 + k]);
    }
    assert forall|k: int| 0 <= k < 8 implies b[off + 32 + k] == #[trigger] le64(e.info.height as u64)[k] by {
        assert(b[off + (32 + k)] == encode_entry(e)[32 + k]);
    }
    assert forall|k: int| 0 <= k < 8 implies b[off + 40 + k] == #[trigger] le64(bias32(e.info.xoffset))[k] by {
        assert(b[off + (40 + k)] == encode_entry(e)[40 + k]);
    }
    assert forall|k: int| 0 <= k < 8 implies b[off + 48 + k] == #[trigger] le64(bias32(e.info.yoffset))[k] by {
        assert(b[off + (48 + k)] == encode_entry(e)[48 + k]);
    }
    assert forall|k: int| 0 <= k < 8 implies b[off + 56 + k] == #[trigger] le64(e.info.xadvance as u64)[k] by {
        assert(b[off + (56 + k)] == encode_entry(e)[56 + k]);
    }
    lemma_rd64_le64(b, off, e.code as u64);
    lemma_rd64_le64(b, off + 8, e.info.x as u64);
    lemma_rd64_le64(b, off + 16, e.info.y as u64);
    lemma_rd64_le64(b, off + 24, e.info.width as u64);
    lemma_rd64_le64(b, off + 32, e.info.height as u64);
    lemma_rd64_le64(b, off + 40, bias32(e.info.xoffset));
    lemma_rd64_le64(b, off + 48, bias32(e.info.yoffset));
    lemma_rd64_le64(b, off + 56, e.info.xadvance as u64);
    assert(unbias32(bias32(e.info.xoffset)) == e.info.xoffset);
    assert(unbias32(bias32(e.info.yoffset)) == e.info.yoffset);
}

/// A table read back from its own encoding is the table itself.
proof fn lemma_decode_encoded_entries(b: Seq<u8>, off: int, es: Seq<CharEntry>)
    requires
        0 <= off,
        off + 64 * es.len() <= b.len(),
        forall|k: int| 0 <= k < 64 * es.len() ==> b[off + k] == #[trigger] encode_entries(es)[k],
    ensures
        decode_entries(b, off, es.len() as int) == Some(es),
    decreases es.len(),
{
    if es.len() > 0 {
        let n1 = (es.len() - 1) as int;
        lemma_encode_entries_len(es.drop_last());
        assert forall|k: int| 0 <= k < 64 * n1 implies b[off + k] == #[trigger] encode_entries(
            es.drop_last(),
        )[k] by {
            assert(b[off + k] == encode_entries(es)[k]);
            assert(encode_entries(es) == encode_entries(es.drop_last()) + encode_entry(es.last()));
        }
        lemma_decode_encoded_entries(b, off, es.drop_last());
        assert forall|k: int| 0 <= k < 64 implies b[off + 64 * n1 + k] == #[trigger] encode_entry(
            es.last(),
        )[k] by {
            assert(b[off + (64 * n1 + k)] == encode_entries(es)[64 * n1 + k]);
            assert(encode_entries(es) == encode_entries(es.drop_last()) + encode_entry(es.last()));
            assert(encode_entries(es)[64 * n1 + k] == encode_entry(es.last())[k]);
        }
        lemma_decode_encoded_entry(b, off + 64 * n1, es.last());
        assert(es.drop_last().push(es.last()) =~= es);
    }
}

/// Decoding what a model encodes to yields the model back: the persisted
/// format loses nothing.
pub proof fn lemma_file_roundtrip(m: FileModel)
    requires
        m.checksum.len() == 32,
        m.payload.len() <= u64::MAX,
        m.entries.len() <= u64::MAX,
    ensures
        decode_file(encode_file(m)) == Some(m),
{
    let b = encode_file(m);
    let plen = m.payload.len() as int;
    let n = m.entries.len() as int;
    lemma_encode_entries_len(m.entries);
    lemma_encode_file_len(m);
    let p1 = le64(m.version);
    let p2 = m.checksum;
    let p3 = le64(m.payload.len() as u64);
    let p4 = m.payload;
    let p5 = le64(m.entries.len() as u64);
    let p6 = encode_entries(m.entries);
    let p7 = le64(m.padding as u64);
    let p8 = le64(m.width as u64);
    let p9 = le64(m.height as u64);
    let p10 = le64(m.line_height as u64);
    let p11 = le64(m.font_size as u64);
    let p12 = seq![ft_byte(m.font_type)];
    assert(b == p1 + p2 + p3 + p4 + p5 + p6 + p7 + p8 + p9 + p10 + p11 + p12);
    assert forall|k: int| 0 <= k < 8 implies b[k] == #[trigger] p1[k] by {}
    lemma_rd64_le64(b, 0, m.version);
    assert(b.subrange(8, 40) =~= m.checksum);
    assert forall|k: int| 0 <= k < 8 implies b[40 + k] == #[trigger] p3[k] by {}
    lemma_rd64_le64(b, 40, m.payload.len() as u64);
    assert(b.subrange(48, 48 + plen) =~= m.payload);
    assert forall|k: int| 0 <= k < 8 implies b[48 + plen + k] == #[trigger] p5[k] by {}
    lemma_rd64_le64(b, 48 + plen, m.entries.len() as u64);
    let toff = 56 + plen + 64 * n;
    assert forall|k: int| 0 <= k < 8 implies b[toff + k] == #[trigger] p7[k] by {}
    lemma_rd64_le64(b, toff, m.padding as u64);
    assert forall|k: int| 0 <= k < 8 implies b[toff + 8 + k] == #[trigger] p8[k] by {}
    lemma_rd64_le64(b, toff + 8, m.width as u64);
    assert forall|k: int| 0 <= k < 8 implies b[toff + 16 + k] == #[trigger] p9[k] by {}
    lemma_rd64_le64(b, toff + 16, m.height as u64);
    assert forall|k: int| 0 <= k < 8 implies b[toff + 24 + k] == #[trigger] p10[k] by {}
    lemma_rd64_le64(b, toff + 24, m.line_height as u64);
    assert forall|k: int| 0 <= k < 8 implies b[toff + 32 + k] == #[trigger] p11[k] by {}
    lemma_rd64_le64(b, toff + 32, m.font_size as u64);
    assert(b[toff + 40] == ft_byte(m.font_type));
    assert forall|k: int| 0 <= k < 64 * n implies b[56 + plen + k] == #[trigger] p6[k] by {}
    lemma_decode_encoded_entries(b, 56 + plen, m.entries);
    assert(decode_file(b) == Some(m));
}

/// Read the scalar at `off`.
fn read_le64(b: &[u8], off: usize) -> (r: u64)
    requires
        off + 8 <= b@.len(),
    ensures
        r == rd64(b@, off as int),
{
    (b[off] as u64) | ((b[off + 1] as u64) << 8u64) | ((b[off + 2] as u64) << 16u64) | ((b[off
        + 3] as u64) << 24u64) | ((b[off + 4] as u64) << 32u64) | ((b[off + 5] as u64) << 40u64)
        | ((b[off + 6] as u64) << 48u64) | ((b[off + 7] as u64) << 56u64)
}

} // verus!

verus! {

/// The outcome is a typed load failure carrying `msg`.
pub open spec fn is_load_err(r: Result<FontAtlas, FontError>, msg: Seq<char>) -> bool {
    r is Err && r->Err_0 is LoadError && r->Err_0.message_spec() == msg
}

/// What loading a blob must yield, checked in this order: reject a
/// malformed blob, then a version other than the current one, then a
/// payload that does not decompress, then a digest that differs from the
/// one recomputed over the decompressed bytes, then an image buffer that
/// does not match the stored dimensions, then an unsound metrics table;
/// otherwise reconstruct exactly the stored atlas. A corrupt file is
/// never silently accepted.
pub open spec fn loads_to(data: Seq<u8>, r: Result<FontAtlas, FontError>) -> bool {
    match decode_file(data) {
        Option::None => is_load_err(r, "malformed atlas file"@),
        Option::Some(f) => {
            if f.version != FontAtlas::CURRENT_VERSION as u64 {
                is_load_err(r, "Unsupported file version: "@ + dec_digits(f.version as int))
            } else {
                match gunzip_of(f.payload) {
                    Option::None => is_load_err(r, "decompression failed"@),
                    Option::Some(px) => {
                        if sha256_of(px) != f.checksum {
                            is_load_err(r, "Checksum verification failed"@)
                        } else if !(is_atlas_dim(f.width as int) && is_atlas_dim(f.height as int)
                            && px.len() == f.width as int * f.height as int * 4) {
                            is_load_err(r, "invalid atlas image"@)
                        } else if !(entries_sorted(f.entries) && entries_in_bounds(
                            f.entries,
                            f.width as int,
                            f.height as int,
                        )) {
                            is_load_err(r, "invalid metrics table"@)
                        } else {
                            r is Ok && {
                                let a = r->Ok_0;
                                &&& a.image@ == px
                                &&& a.chars@ == f.entries
                                &&& a.padding == f.padding
                                &&& a.width == f.width
                                &&& a.height == f.height
                                &&& a.line_height == f.line_height
                                &&& a.font_size == f.font_size
                                &&& a.font_type == f.font_type
                                &&& a.wf()
                            }
                        }
                    },
                }
            }
        },
    }
}

/// A typed load failure carrying `msg`.
fn load_err(msg: &str) -> (r: FontError)
    ensures
        r is LoadError,
        r.message_spec() == msg@,
{
    FontError::LoadError(msg.to_owned())
}

/// The bytes of `b` from `from` (inclusive) to `to` (exclusive).
fn copy_range(b: &[u8], from: usize, to: usize) -> (r: Vec<u8>)
    requires
        from <= to <= b@.len(),
    ensures
        r@ == b@.subrange(from as int, to as int),
{
    let mut v: Vec<u8> = Vec::new();
    let mut i: usize = from;
    while i < to
        invariant
            from <= i <= to <= b@.len(),
            v@ =~= b@.subrange(from as int, i as int),
        decreases to - i,
    {
        v.push(b[i]);
        proof {
            assert(v@ =~= b@.subrange(from as int, i + 1));
        }
        i = i + 1;
    }
    v
}

/// Whether two byte strings hold the same bytes.
fn bytes_eq(x: &Vec<u8>, y: &Vec<u8>) -> (r: bool)
    ensures
        r <==> x@ == y@,
{
    let n = x.len();
    if n != y.len() {
        proof {
            assert(x@.len() != y@.len());
        }
        return false;
    }
    let mut i: usize = 0;
    while i < n
        invariant
            0 <= i <= n,
            n == x@.len(),
            n == y@.len(),
            forall|j: int| 0 <= j < i ==> x@[j] == y@[j],
        decreases n - i,
    {
        if x[i] != y[i] {
            return false;
        }
        i = i + 1;
    }
    proof {
        assert(x@ =~= y@);
    }
    true
}

/// Whether `n` is a legal atlas side.
fn is_atlas_dim_exec(n: u32) -> (r: bool)
    ensures
        r == is_atlas_dim(n as int),
{
    n == 256 || n == 512 || n == 1024 || n == 2048 || n == 4096 || n == 8192
}

/// Whether the table is strictly ascending by code with every region
/// inside a `w x h` atlas.
fn check_entries(entries: &Vec<CharEntry>, w: u32, h: u32) -> (r: bool)
    ensures
        r <==> (entries_sorted(entries@) && entries_in_bounds(entries@, w as int, h as int)),
{
    let n = entries.len();
    let mut i: usize = 0;
    while i < n
        invariant
            0 <= i <= n,
            n == entries@.len(),
            forall|p: int, q: int|
                0 <= p < q < i ==> (#[trigger] entries@[p]).code < (#[trigger] entries@[q]).code,
            forall|p: int| 0 <= p < i ==> (#[trigger] entries@[p]).info.in_bounds(
                w as int,
                h as int,
            ),
        decreases n - i,
    {
        let e = entries[i];
        if i > 0 {
            if entries[i - 1].code >= e.code {
                proof {
                    assert(!entries_sorted(entries@));
                }
                return false;
            }
        }
        let x64 = e.info.x as u64 + e.info.width as u64;
        let y64 = e.info.y as u64 + e.info.height as u64;
        if x64 > w as u64 || y64 > h as u64 {
            proof {
                assert(!entries@[i as int].info.in_bounds(w as int, h as int));
                assert(!entries_in_bounds(entries@, w as int, h as int));
            }
            return false;
        }
        proof {
            assert forall|p: int, q: int| 0 <= p < q < i + 1 implies (
            #[trigger] entries@[p]).code < (#[trigger] entries@[q]).code by {
                if q == i {
                    if p < i - 1 {
                        assert(entries@[p].code < entries@[i - 1].code);
                    }
                }
            }
        }
        i = i + 1;
    }
    true
}

impl FontAtlasFile {
    /// Deserialize a persisted atlas: parse the blob, reject any version
    /// other than the current one, decompress, recompute the digest over
    /// the decompressed bytes and compare it to the stored one, and
    /// rebuild the atlas from the stored dimensions. Every rejection is a
    /// typed load failure; corruption is never silently accepted.
    pub fn load_from_bytes(data: &[u8]) -> (r: Result<FontAtlas, FontError>)
        ensures
            loads_to(data@, r),
    {
        let len = data.len();
        if len < 48 {
            return Err(load_err("malformed atlas file"));
        }
        let version = read_le64(data, 0);
        let plen64 = read_le64(data, 40);
        if (len as u128) < 56 + (plen64 as u128) {
            return Err(load_err("malformed atlas file"));
        }
        let plen = plen64 as usize;
        let n64 = read_le64(data, 48 + plen);
        if (len as u128) != 97 + (plen as u128) + 64 * (n64 as u128) {
            return Err(load_err("malformed atlas file"));
        }
        let n = n64 as usize;
        proof {
            assert(len == 97 + plen + 64 * (n64 as int));
            assert(n == n64 as int);
        }
        let mut entries: Vec<CharEntry> = Vec::new();
        let mut i: usize = 0;
        while i < n
            invariant
                0 <= i <= n,
                len == data@.len(),
                plen == rd64(data@, 40) as int,
                n == rd64(data@, 48 + plen) as int,
                len == 97 + plen + 64 * n,
                entries@.len() == i,
                decode_entries(data@, 56 + plen, i as int) == Some(entries@),
            decreases n - i,
        {
            let off = 56 + plen + 64 * i;
            let code = read_le64(data, off);
            let x = read_le64(data, off + 8);
            let y = read_le64(data, off + 16);
            let w = read_le64(data, off + 24);
            let h = read_le64(data, off + 32);
            let xo = read_le64(data, off + 40);
            let yo = read_le64(data, off + 48);
            let adv = read_le64(data, off + 56);
            let m = u32::MAX as u64;
            if code > m || x > m || y > m || w > m || h > m || xo > m || yo > m || adv > m {
                proof {
                    assert(decode_entry_at(data@, off as int) is None);
                    assert(decode_entries(data@, 56 + plen, i + 1) is None);
                    lemma_decode_entries_none(data@, 56 + plen, i + 1, n as int);
                    assert(decode_file(data@) is None);
                }
                return Err(load_err("malformed atlas file"));
            }
            let entry = CharEntry {
                code: code as u32,
                info: CharInfo {
                    x: x as u32,
                    y: y as u32,
                    width: w as u32,
                    height: h as u32,
                    xoffset: ((xo as i64) - 0x80000000) as i32,
                    yoffset: ((yo as i64) - 0x80000000) as i32,
                    xadvance: adv as u32,
                },
            };
            proof {
                assert(decode_entry_at(data@, off as int) == Some(entry));
            }
            entries.push(entry);
            i = i + 1;
        }
        let toff = 56 + plen + 64 * n;
        let padding64 = read_le64(data, toff);
        let width64 = read_le64(data, toff + 8);
        let height64 = read_le64(data, toff + 16);
        let line_height64 = read_le64(data, toff + 24);
        let font_size64 = read_le64(data, toff + 32);
        let tag = data[toff + 40];
        let m = u32::MAX as u64;
        if padding64 > m || width64 > m || height64 > m || line_height64 > m || font_size64 > m {
            return Err(load_err("malformed atlas file"));
        }
        if tag != 0 && tag != 1 {
            return Err(load_err("malformed atlas file"));
        }
        let font_type = if tag == 0 {
            FontType::Ascii
        } else {
            FontType::Unicode
        };
        let width = width64 as u32;
        let height = height64 as u32;
        proof {
            assert(decode_file(data@) matches Some(f) && f.version == rd64(data@, 0)
                && f.entries == entries@ && f.payload == data@.subrange(48, 48 + plen as int)
                && f.checksum == data@.subrange(8, 40) && f.padding == padding64 as u32
                && f.width == width && f.height == height && f.line_height
                == line_height64 as u32 && f.font_size == font_size64 as u32 && f.font_type
                == font_type);
        }
        if version != 1 {
            let mut msg = "Unsupported file version: ".to_owned();
            push_decimal(&mut msg, version);
            return Err(FontError::LoadError(msg));
        }
        let payload = copy_range(data, 48, 48 + plen);
        let pixels = match gzip_decompress(payload.as_slice()) {
            Some(px) => px,
            None => {
                return Err(load_err("decompression failed"));
            },
        };
        let digest = sha256_digest(pixels.as_slice());
        let stored = copy_range(data, 8, 40);
        if !bytes_eq(&digest, &stored) {
            return Err(load_err("Checksum verification failed"));
        }
        let dims_ok = is_atlas_dim_exec(width) && is_atlas_dim_exec(height);
        let size_ok = dims_ok && {
            proof {
                assert((width as int) * (height as int) <= 8192 * 8192) by (nonlinear_arith)
                    requires
                        width <= 8192,
                        height <= 8192,
                ;
            }
            (pixels.len() as u64) == (width as u64) * (height as u64) * 4
        };
        if !size_ok {
            return Err(load_err("invalid atlas image"));
        }
        if !check_entries(&entries, width, height) {
            return Err(load_err("invalid metrics table"));
        }
        Ok(
            FontAtlas {
                image: pixels,
                chars: entries,
                font_size: font_size64 as u32,
                padding: padding64 as u32,
                width,
                height,
                line_height: line_height64 as u32,
                font_type,
            },
        )
    }
}

/// Round trip: the blob a baked atlas persists as loads back to an atlas
/// with identical metrics, parameters, and a pixel-identical image.
#[verifier::rlimit(100)]
pub proof fn lemma_save_load_roundtrip(
    a: FontAtlas,
    bytes: Seq<u8>,
    r: Result<FontAtlas, FontError>,
)
    requires
        a.wf(),
        a.chars@.len() <= u64::MAX,
        sha256_of(a.image@).len() == 32,
        gzip_of(a.image@).len() <= u64::MAX,
        gunzip_of(gzip_of(a.image@)) == Some(a.image@),
        bytes == encode_file(file_model_of(a)),
        loads_to(bytes, r),
    ensures
        r is Ok,
        r->Ok_0.image@ == a.image@,
        r->Ok_0.chars@ == a.chars@,
        r->Ok_0.font_size == a.font_size,
        r->Ok_0.padding == a.padding,
        r->Ok_0.width == a.width,
        r->Ok_0.height == a.height,
        r->Ok_0.line_height == a.line_height,
        r->Ok_0.font_type == a.font_type,
{
    let m = file_model_of(a);
    lemma_file_roundtrip(m);
    assert(decode_file(bytes) == Some(m));
    assert(gunzip_of(m.payload) == Some(a.image@));
}

} // verus!
