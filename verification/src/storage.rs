//! The shard container for pre-rendered images.
//!
//! A shard is one byte blob: compressed image payloads back to back, an
//! index of fixed 20-byte entries, and a trailing 32-byte footer naming the
//! index. The layout functions are exact — an index entry written and read
//! back is unchanged — while compression and checksumming rely on the
//! outside codecs. Files and memory maps stay outside the library; a shard
//! arrives and leaves as plain bytes.

use vstd::prelude::*;
use vstd::string::StringExecFns;

use crate::errors::Error;

verus! {

/// Size of one serialized index entry in bytes.
pub const INDEX_ENTRY_SIZE: usize = 20;

/// Size of the serialized footer in bytes.
pub const FOOTER_SIZE: usize = 32;

/// The shard format version this library writes and reads.
pub const SHARD_VERSION: u32 = 1;

/// Index entry for one stored image: where its compressed bytes sit, their
/// length, the image extent, and the payload checksum.
#[derive(Clone, Copy, Debug, PartialEq, Eq, Structural)]
pub struct IndexEntry {
    /// Byte offset of the compressed payload within the shard.
    pub offset: u64,
    /// Length of the compressed payload.
    pub len: u32,
    /// Image width in pixels.
    pub width: u16,
    /// Image height in pixels.
    pub height: u16,
    /// CRC-32 of the compressed payload.
    pub checksum: u32,
}

/// A little-endian 64-bit value split into bytes.
pub open spec fn le64(v: u64) -> Seq<u8> {
    seq![
        (v % 256) as u8,
        ((v / 0x100) % 256) as u8,
        ((v / 0x10000) % 256) as u8,
        ((v / 0x1000000) % 256) as u8,
        ((v / 0x100000000) % 256) as u8,
        ((v / 0x10000000000) % 256) as u8,
        ((v / 0x1000000000000) % 256) as u8,
        ((v / 0x100000000000000) % 256) as u8,
    ]
}

/// A little-endian 32-bit value split into bytes.
pub open spec fn le32(v: u32) -> Seq<u8> {
    seq![(v % 256) as u8, ((v / 0x100) % 256) as u8, ((v / 0x10000) % 256) as u8, ((v
        / 0x1000000) % 256) as u8]
}

/// A little-endian 16-bit value split into bytes.
pub open spec fn le16(v: u16) -> Seq<u8> {
    seq![(v % 256) as u8, ((v / 0x100) % 256) as u8]
}

/// The value eight little-endian bytes denote.
pub open spec fn le64_value(s: Seq<u8>) -> int
    recommends
        s.len() == 8,
{
    s[0] + s[1] * 0x100 + s[2] * 0x10000 + s[3] * 0x1000000 + s[4] * 0x100000000 + s[5]
        * 0x10000000000 + s[6] * 0x1000000000000 + s[7] * 0x100000000000000
}

/// The value four little-endian bytes denote.
pub open spec fn le32_value(s: Seq<u8>) -> int
    recommends
        s.len() == 4,
{
    s[0] + s[1] * 0x100 + s[2] * 0x10000 + s[3] * 0x1000000
}

/// The value two little-endian bytes denote.
pub open spec fn le16_value(s: Seq<u8>) -> int
    recommends
        s.len() == 2,
{
    s[0] + s[1] * 0x100
}

/// Little-endian encodings decode to the encoded value.
pub proof fn lemma_le_round_trip(v64: u64, v32: u32, v16: u16)
    ensures
        le64_value(le64(v64)) == v64,
        le32_value(le32(v32)) == v32,
        le16_value(le16(v16)) == v16,
{
    assert(v64 % 256 + ((v64 / 0x100) % 256) * 0x100 + ((v64 / 0x10000) % 256) * 0x10000 + ((v64
        / 0x1000000) % 256) * 0x1000000 + ((v64 / 0x100000000) % 256) * 0x100000000 + ((v64
        / 0x10000000000) % 256) * 0x10000000000 + ((v64 / 0x1000000000000) % 256) * 0x1000000000000
        + ((v64 / 0x100000000000000) % 256) * 0x100000000000000 == v64) by (bit_vector);
    assert(v32 % 256 + ((v32 / 0x100) % 256) * 0x100 + ((v32 / 0x10000) % 256) * 0x10000 + ((v32
        / 0x1000000) % 256) * 0x1000000 == v32) by (bit_vector);
    assert(v16 % 256 + ((v16 / 0x100) % 256) * 0x100 == v16) by (bit_vector);
}

/// The 20-byte serialized form of an index entry: offset, length, width,
/// height, checksum, each little-endian.
pub open spec fn index_entry_bytes(e: IndexEntry) -> Seq<u8> {
    le64(e.offset) + le32(e.len) + le16(e.width) + le16(e.height) + le32(e.checksum)
}

/// Append a little-endian 64-bit value to a byte vector.
fn push_le64(v: u64, out: &mut Vec<u8>)
    ensures
        final(out)@ == old(out)@ + le64(v),
{
    out.push((v % 256) as u8);
    out.push(((v / 0x100) % 256) as u8);
    out.push(((v / 0x10000) % 256) as u8);
    out.push(((v / 0x1000000) % 256) as u8);
    out.push(((v / 0x100000000) % 256) as u8);
    out.push(((v / 0x10000000000) % 256) as u8);
    out.push(((v / 0x1000000000000) % 256) as u8);
    out.push(((v / 0x100000000000000) % 256) as u8);
    proof {
        assert(final(out)@ =~= old(out)@ + le64(v));
    }
}

/// Append a little-endian 32-bit value to a byte vector.
fn push_le32(v: u32, out: &mut Vec<u8>)
    ensures
        final(out)@ == old(out)@ + le32(v),
{
    out.push((v % 256) as u8);
    out.push(((v / 0x100) % 256) as u8);
    out.push(((v / 0x10000) % 256) as u8);
    out.push(((v / 0x1000000) % 256) as u8);
    proof {
        assert(final(out)@ =~= old(out)@ + le32(v));
    }
}

/// Append a little-endian 16-bit value to a byte vector.
fn push_le16(v: u16, out: &mut Vec<u8>)
    ensures
        final(out)@ == old(out)@ + le16(v),
{
    out.push((v % 256) as u8);
    out.push(((v / 0x100) % 256) as u8);
    proof {
        assert(final(out)@ =~= old(out)@ + le16(v));
    }
}

/// Append the 20-byte form of an index entry to a byte vector.
pub fn push_index_entry(e: &IndexEntry, out: &mut Vec<u8>)
    ensures
        final(out)@ == old(out)@ + index_entry_bytes(*e),
{
    push_le64(e.offset, out);
    push_le32(e.len, out);
    push_le16(e.width, out);
    push_le16(e.height, out);
    push_le32(e.checksum, out);
    proof {
        assert(final(out)@ =~= old(out)@ + index_entry_bytes(*e));
    }
}

/// Read a little-endian 64-bit value.
fn read_le64(data: &[u8], at: usize) -> (r: u64)
    requires
        at + 8 <= data@.len(),
    ensures
        r == le64_value(data@.subrange(at as int, at as int + 8)),
{
    let b0 = data[at] as u64;
    let b1 = data[at + 1] as u64;
    let b2 = data[at + 2] as u64;
    let b3 = data[at + 3] as u64;
    let b4 = data[at + 4] as u64;
    let b5 = data[at + 5] as u64;
    let b6 = data[at + 6] as u64;
    let b7 = data[at + 7] as u64;
    b0 + b1 * 0x100 + b2 * 0x10000 + b3 * 0x1000000 + b4 * 0x100000000 + b5 * 0x10000000000 + b6
        * 0x1000000000000 + b7 * 0x100000000000000
}

/// Read a little-endian 32-bit value.
fn read_le32(data: &[u8], at: usize) -> (r: u32)
    requires
        at + 4 <= data@.len(),
    ensures
        r == le32_value(data@.subrange(at as int, at as int + 4)),
{
    let b0 = data[at] as u32;
    let b1 = data[at + 1] as u32;
    let b2 = data[at + 2] as u32;
    let b3 = data[at + 3] as u32;
    b0 + b1 * 0x100 + b2 * 0x10000 + b3 * 0x1000000
}

/// Read a little-endian 16-bit value.
fn read_le16(data: &[u8], at: usize) -> (r: u16)
    requires
        at + 2 <= data@.len(),
    ensures
        r == le16_value(data@.subrange(at as int, at as int + 2)),
{
    let b0 = data[at] as u16;
    let b1 = data[at + 1] as u16;
    b0 + b1 * 0x100
}

/// Read one index entry at a byte position. Every field is the value its
/// little-endian bytes denote, so an entry written by `push_index_entry`
/// reads back unchanged.
pub fn parse_index_entry(data: &[u8], at: usize) -> (e: IndexEntry)
    requires
        at + INDEX_ENTRY_SIZE <= data@.len(),
    ensures
        e.offset == le64_value(data@.subrange(at as int, at as int + 8)),
        e.len == le32_value(data@.subrange(at as int + 8, at as int + 12)),
        e.width == le16_value(data@.subrange(at as int + 12, at as int + 14)),
        e.height == le16_value(data@.subrange(at as int + 14, at as int + 16)),
        e.checksum == le32_value(data@.subrange(at as int + 16, at as int + 20)),
{
    let n = data.len();
    IndexEntry {
        offset: read_le64(data, at),
        len: read_le32(data, at + 8),
        width: read_le16(data, at + 12),
        height: read_le16(data, at + 14),
        checksum: read_le32(data, at + 16),
    }
}

/// Round trip of the index layout: an entry serialized and read back field
/// by field is the same entry.
pub proof fn lemma_index_entry_round_trip(e: IndexEntry)
    ensures
        ({
            let b = index_entry_bytes(e);
            &&& b.len() == INDEX_ENTRY_SIZE
            &&& le64_value(b.subrange(0, 8)) == e.offset
            &&& le32_value(b.subrange(8, 12)) == e.len
            &&& le16_value(b.subrange(12, 14)) == e.width
            &&& le16_value(b.subrange(14, 16)) == e.height
            &&& le32_value(b.subrange(16, 20)) == e.checksum
        }),
{
    let b = index_entry_bytes(e);
    lemma_le_round_trip(e.offset, e.len, e.width);
    lemma_le_round_trip(e.offset, e.checksum, e.height);
    assert(b.subrange(0, 8) =~= le64(e.offset));
    assert(b.subrange(8, 12) =~= le32(e.len));
    assert(b.subrange(12, 14) =~= le16(e.width));
    assert(b.subrange(14, 16) =~= le16(e.height));
    assert(b.subrange(16, 20) =~= le32(e.checksum));
}

/// What the outside CRC-32 implementation computes for a byte string: the
/// IEEE polynomial checksum, a function of the bytes alone.
pub uninterp spec fn crc32_of(data: Seq<u8>) -> u32;

/// Relies on crc32fast::hash: the CRC-32 (IEEE) checksum of the bytes,
/// depending on the bytes alone.
#[verifier::external_body]
pub fn crc32(data: &Vec<u8>) -> (r: u32)
    ensures
        r == crc32_of(data@),
{
    crc32fast::hash(data.as_slice())
}

/// What the outside compressor produces for a byte string at a compression
/// level: a compressed frame, a function of the input and level alone.
pub uninterp spec fn zstd_frame_of(data: Seq<u8>, level: i32) -> Option<Seq<u8>>;

/// Relies on zstd::encode_all: one compressed frame for the whole input,
/// depending on the input and level alone.
#[verifier::external_body]
fn zstd_compress(data: &Vec<u8>, level: i32) -> (r: Option<Vec<u8>>)
    ensures
        r is Some <==> zstd_frame_of(data@, level) is Some,
        r matches Some(v) ==> v@ == zstd_frame_of(data@, level)->0,
{
    zstd::encode_all(data.as_slice(), level).ok()
}

/// What the outside decompressor recovers from a frame: the decoded bytes,
/// or nothing for input that is not a valid frame; a function of the bytes
/// alone.
pub uninterp spec fn zstd_unframed_of(data: Seq<u8>) -> Option<Seq<u8>>;

/// Relies on zstd::decode_all: the decoded bytes of a compressed frame,
/// depending on the frame bytes alone.
#[verifier::external_body]
fn zstd_decompress(data: &Vec<u8>) -> (r: Option<Vec<u8>>)
    ensures
        r is Some <==> zstd_unframed_of(data@) is Some,
        r matches Some(v) ==> v@ == zstd_unframed_of(data@)->0,
{
    zstd::decode_all(data.as_slice()).ok()
}

/// The serialized index of a list of entries, back to back.
pub open spec fn entries_bytes(entries: Seq<IndexEntry>) -> Seq<u8>
    decreases entries.len(),
{
    if entries.len() == 0 {
        Seq::empty()
    } else {
        entries_bytes(entries.drop_last()) + index_entry_bytes(entries.last())
    }
}

/// The 32-byte footer: magic `HAFO`, version, entry count, index offset,
/// shard id, and a reserved zero word.
pub open spec fn footer_bytes(n_entries: u64, index_offset: u64, shard_id: u32) -> Seq<u8> {
    seq![0x48u8, 0x41u8, 0x46u8, 0x4Fu8] + le32(SHARD_VERSION) + le64(n_entries) + le64(
        index_offset,
    ) + le32(shard_id) + le32(0u32)
}

/// An in-memory shard under construction: payload bytes and the entries
/// describing them.
pub struct ShardWriter {
    data: Vec<u8>,
    entries: Vec<IndexEntry>,
    shard_id: u32,
}

impl ShardWriter {
    /// The payload bytes written so far.
    pub closed spec fn spec_data(&self) -> Seq<u8> {
        self.data@
    }

    /// The index entries recorded so far.
    pub closed spec fn spec_entries(&self) -> Seq<IndexEntry> {
        self.entries@
    }

    /// The shard id recorded in the footer.
    pub closed spec fn spec_shard_id(&self) -> u32 {
        self.shard_id
    }

    /// Start an empty shard with an id.
    pub fn new(shard_id: u32) -> (r: ShardWriter)
        ensures
            r.spec_data().len() == 0,
            r.spec_entries().len() == 0,
            r.spec_shard_id() == shard_id,
    {
        ShardWriter { data: Vec::new(), entries: Vec::new(), shard_id }
    }

    /// Number of images stored so far.
    pub fn count(&self) -> (r: usize)
        ensures
            r == self.spec_entries().len(),
    {
        self.entries.len()
    }

    /// Append one image: the payload is compressed, checksummed, written at
    /// the current end, and indexed. Returns the image's index within the
    /// shard. Fails only when the compressor fails or the frame cannot be
    /// indexed.
    pub fn add_image(&mut self, image: &Vec<u8>, width: u16, height: u16) -> (r: Result<
        usize,
        Error,
    >)
        ensures
            r matches Ok(idx) ==> ({
                let frame = zstd_frame_of(image@, 3)->0;
                &&& idx == old(self).spec_entries().len()
                &&& zstd_frame_of(image@, 3) is Some
                &&& final(self).spec_data() == old(self).spec_data() + frame
                &&& final(self).spec_entries() == old(self).spec_entries().push(
                    IndexEntry {
                        offset: old(self).spec_data().len() as u64,
                        len: frame.len() as u32,
                        width,
                        height,
                        checksum: crc32_of(frame),
                    },
                )
            }),
            r.is_err() ==> *final(self) == *old(self) && r->Err_0 is Internal,
            final(self).spec_shard_id() == old(self).spec_shard_id(),
    {
        let compressed = match zstd_compress(image, 3) {
            Some(c) => c,
            None => {
                return Err(
                    Error::Internal { reason: String::from_str("Failed to compress image") },
                );
            },
        };
        if compressed.len() > 0xFFFFFFFFusize {
            return Err(Error::Internal { reason: String::from_str("Shard payload too large") });
        }
        if (self.data.len() as u64) > u64::MAX - (compressed.len() as u64) {
            return Err(Error::Internal { reason: String::from_str("Shard payload too large") });
        }
        let checksum = crc32(&compressed);
        let entry = IndexEntry {
            offset: self.data.len() as u64,
            len: compressed.len() as u32,
            width,
            height,
            checksum,
        };
        let idx = self.entries.len();
        let n = compressed.len();
        let ghost predata = self.data@;
        let mut i: usize = 0;
        while i < n
            invariant
                i <= n,
                n == compressed@.len(),
                self.data@ == predata + compressed@.take(i as int),
                self.entries@ == old(self).spec_entries(),
                self.shard_id == old(self).spec_shard_id(),
            decreases n - i,
        {
            self.data.push(compressed[i]);
            proof {
                assert(self.data@ =~= predata + compressed@.take(i as int + 1));
            }
            i = i + 1;
        }
        proof {
            assert(compressed@.take(n as int) =~= compressed@);
        }
        self.entries.push(entry);
        Ok(idx)
    }

    /// Finish the shard: payload, then the serialized index, then the
    /// footer, as one byte blob ready to be written out.
    pub fn finalize(self) -> (r: Vec<u8>)
        ensures
            r@ == self.spec_data() + entries_bytes(self.spec_entries()) + footer_bytes(
                self.spec_entries().len() as u64,
                self.spec_data().len() as u64,
                self.spec_shard_id(),
            ),
    {
        let index_offset = self.data.len() as u64;
        let n_entries = self.entries.len() as u64;
        let mut out = self.data;
        let ghost payload = out@;
        let n = self.entries.len();
        proof {
            assert(self.entries@.take(0) =~= Seq::<IndexEntry>::empty());
        }
        let mut i: usize = 0;
        while i < n
            invariant
                i <= n,
                n == self.entries@.len(),
                out@ == payload + entries_bytes(self.entries@.take(i as int)),
            decreases n - i,
        {
            proof {
                assert(self.entries@.take(i as int + 1).drop_last() =~= self.entries@.take(
                    i as int,
                ));
                assert(self.entries@.take(i as int + 1).last() == self.entries@[i as int]);
            }
            push_index_entry(&self.entries[i], &mut out);
            proof {
                assert(out@ =~= payload + entries_bytes(self.entries@.take(i as int + 1)));
            }
            i = i + 1;
        }
        proof {
            assert(self.entries@.take(n as int) =~= self.entries@);
        }
        let ghost before_footer = out@;
        out.push(0x48);
        out.push(0x41);
        out.push(0x46);
        out.push(0x4F);
        push_le32(SHARD_VERSION, &mut out);
        push_le64(n_entries, &mut out);
        push_le64(index_offset, &mut out);
        push_le32(self.shard_id, &mut out);
        push_le32(0, &mut out);
        proof {
            assert(out@ =~= before_footer + footer_bytes(
                self.spec_entries().len() as u64,
                self.spec_data().len() as u64,
                self.spec_shard_id(),
            ));
        }
        out
    }
}

/// Read and validate a shard footer from the end of a blob. Accepted
/// exactly when the blob is long enough, carries the magic and version, and
/// the counts it names fit inside the blob; the returned counts are the
/// footer's own words.
pub fn parse_shard_footer(data: &[u8]) -> (r: Result<(u64, u64, u32), Error>)
    ensures
        r matches Ok((n_entries, index_offset, shard_id)) ==> ({
            let f = data@.len() - FOOTER_SIZE;
            &&& data@.len() >= FOOTER_SIZE
            &&& n_entries == le64_value(data@.subrange(f + 8, f + 16))
            &&& index_offset == le64_value(data@.subrange(f + 16, f + 24))
            &&& shard_id == le32_value(data@.subrange(f + 24, f + 28))
            &&& index_offset + n_entries * INDEX_ENTRY_SIZE + FOOTER_SIZE <= data@.len()
        }),
        r.is_err() ==> r->Err_0 is Internal,
{
    let n = data.len();
    if n < FOOTER_SIZE {
        return Err(Error::Internal { reason: String::from_str("Shard file too small") });
    }
    let f = n - FOOTER_SIZE;
    if data[f] != 0x48 || data[f + 1] != 0x41 || data[f + 2] != 0x46 || data[f + 3] != 0x4F {
        return Err(Error::Internal { reason: String::from_str("Invalid shard magic") });
    }
    let version = read_le32(data, f + 4);
    if version != SHARD_VERSION {
        return Err(Error::Internal { reason: String::from_str("Unsupported shard version") });
    }
    let n_entries = read_le64(data, f + 8);
    let index_offset = read_le64(data, f + 16);
    let shard_id = read_le32(data, f + 24);
    if n_entries > 0xFFFFFFFFu64 || index_offset > n as u64 {
        return Err(Error::Internal { reason: String::from_str("Shard index out of bounds") });
    }
    let index_bytes: u64 = n_entries * (INDEX_ENTRY_SIZE as u64);
    if index_bytes > (n as u64) - (FOOTER_SIZE as u64) || index_offset > (n as u64) - (
    FOOTER_SIZE as u64) - index_bytes {
        return Err(Error::Internal { reason: String::from_str("Shard index out of bounds") });
    }
    Ok((n_entries, index_offset, shard_id))
}

/// Read one image's compressed payload out of a shard blob and decompress
/// it. Accepted when the entry's span lies inside the blob and the frame
/// decodes; the result is exactly the decoded frame.
pub fn get_image_data(data: &[u8], entry: &IndexEntry) -> (r: Result<Vec<u8>, Error>)
    ensures
        r matches Ok(image) ==> ({
            let frame = data@.subrange(
                entry.offset as int,
                entry.offset as int + entry.len as int,
            );
            &&& entry.offset + entry.len <= data@.len()
            &&& zstd_unframed_of(frame) is Some
            &&& image@ == zstd_unframed_of(frame)->0
        }),
        r.is_err() ==> r->Err_0 is Internal,
{
    let n = data.len();
    if entry.len as u64 > n as u64 || entry.offset > (n as u64) - (entry.len as u64) {
        return Err(Error::Internal { reason: String::from_str("Image data beyond file bounds") });
    }
    let start = entry.offset as usize;
    let end = start + (entry.len as usize);
    let mut frame: Vec<u8> = Vec::new();
    let mut k: usize = start;
    while k < end
        invariant
            start <= k <= end,
            end <= data@.len(),
            frame@ == data@.subrange(start as int, k as int),
        decreases end - k,
    {
        frame.push(data[k]);
        proof {
            assert(frame@ =~= data@.subrange(start as int, k as int + 1));
        }
        k = k + 1;
    }
    match zstd_decompress(&frame) {
        Some(image) => Ok(image),
        None => Err(Error::Internal { reason: String::from_str("Failed to decompress image") }),
    }
}

} // verus!
