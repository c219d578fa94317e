use crate::error::{SaveError, SaveResult};
use crate::integrity::{crc32, crc32_of};
use crate::metadata::{
    custom_pairs_normalized, keys_unique, lemma_custom_from_unique_pairs, normalized,
    MetadataModel, SaveMetadata,
};
use crate::migration::MigrationRegistry;
use vstd::prelude::*;
use vstd::slice::slice_to_vec;

verus! {

/// Magic number identifying a save file: "FXSG" read as a big-endian number.
/// Files store it little-endian, so they begin with the bytes "GSXF".
pub const MAGIC: u32 = 0x46585347;

/// How the payload of a save file is compressed.
#[derive(Debug, Clone, Copy, PartialEq, Eq, Structural)]
pub enum CompressionKind {
    /// Stored as is.
    NoCompression,
    /// LZ4 block format, the uncompressed size prepended.
    Lz4,
}

impl Default for CompressionKind {
    /// LZ4 compression.
    fn default() -> (k: Self)
        ensures
            k == CompressionKind::Lz4,
    {
        CompressionKind::Lz4
    }
}

/// The number that encodes a compression kind in a save file.
pub open spec fn compression_tag(kind: CompressionKind) -> u32 {
    match kind {
        CompressionKind::NoCompression => 0,
        CompressionKind::Lz4 => 1,
    }
}

/// The compression kind that a number in a save file encodes, if any.
pub open spec fn compression_of_tag(tag: u32) -> Option<CompressionKind> {
    if tag == 0 {
        Some(CompressionKind::NoCompression)
    } else if tag == 1 {
        Some(CompressionKind::Lz4)
    } else {
        None
    }
}

/// Configuration for how saves are written.
#[derive(Clone)]
pub struct SaveConfig {
    /// Current save data version.
    pub version: u32,
    /// Which compression to use.
    pub compression: CompressionKind,
    /// If `true`, saving over an existing slot first moves the previous slot
    /// file to `<slot>.fxsave.bak`, from which it can be restored.
    /// Defaults to `false`.
    pub keep_backup_on_overwrite: bool,
}

impl Default for SaveConfig {
    /// Version 1, LZ4 compression, no backups.
    fn default() -> (c: Self)
        ensures
            c.version == 1,
            c.compression == CompressionKind::Lz4,
            !c.keep_backup_on_overwrite,
    {
        SaveConfig { version: 1, compression: CompressionKind::default(), keep_backup_on_overwrite: false }
    }
}

/// The fields of a save file, each taken by its view.
pub struct EnvelopeModel {
    pub magic: u32,
    pub version: u32,
    pub compression: u32,
    pub metadata: MetadataModel,
    /// CRC32 of the (possibly compressed) payload.
    pub crc32: u32,
    /// The game data payload (possibly compressed).
    pub payload: Seq<u8>,
}

/// The leading fields of a save file, up to and including the metadata.
pub struct HeaderModel {
    pub magic: u32,
    pub version: u32,
    pub compression: u32,
    pub metadata: MetadataModel,
}

/// The bytes that `bincode::serialize` produces for the fields of `envelope`,
/// in order (fixed-width little-endian integers, length-prefixed sequences).
pub uninterp spec fn envelope_bytes(envelope: EnvelopeModel) -> Seq<u8>;

/// What `bincode::deserialize` reads from `bytes` as the fields of a whole
/// save file, or `None` where it fails.
pub uninterp spec fn parse_envelope(bytes: Seq<u8>) -> Option<EnvelopeModel>;

/// What `bincode::deserialize` reads from `bytes` as the leading fields of a
/// save file up to the metadata, or `None` where it fails.
pub uninterp spec fn parse_header(bytes: Seq<u8>) -> Option<HeaderModel>;


/// The header part of an envelope.
pub open spec fn header_of(e: EnvelopeModel) -> HeaderModel {
    HeaderModel { magic: e.magic, version: e.version, compression: e.compression, metadata: e.metadata }
}

/// `h` is read as the header from the first `k` bytes of `bytes`, whatever
/// follows them.
pub open spec fn header_read_within(bytes: Seq<u8>, h: HeaderModel, k: int) -> bool {
    &&& 0 <= k <= bytes.len()
    &&& forall|tail: Seq<u8>| #[trigger] parse_header(bytes.take(k) + tail) == Some(h)
}

/// `h` is read as the header from a prefix of `bytes`.
pub open spec fn header_read_from_prefix(bytes: Seq<u8>, h: HeaderModel) -> bool {
    exists|k: int| #[trigger] header_read_within(bytes, h, k)
}

/// The four little-endian bytes of `x`, as bincode writes a `u32`.
pub open spec fn u32_le_bytes(x: u32) -> Seq<u8> {
    seq![(x & 0xff) as u8, ((x >> 8) & 0xff) as u8, ((x >> 16) & 0xff) as u8, ((x >> 24) & 0xff) as u8]
}

/// The `u32` that the first four bytes of `b` hold, little-endian.
pub open spec fn u32_from_le(b: Seq<u8>) -> u32 {
    (b[0] as u32) | ((b[1] as u32) << 8u32) | ((b[2] as u32) << 16u32) | ((b[3] as u32) << 24u32)
}

/// The magic, version and compression numbers that `bincode::deserialize`
/// reads from the start of `bytes`: three little-endian `u32`s, or `None`
/// when fewer than twelve bytes are there.
pub open spec fn parse_lead(bytes: Seq<u8>) -> Option<(u32, u32, u32)> {
    if bytes.len() < 12 {
        None
    } else {
        Some((
            u32_from_le(bytes.subrange(0, 4)),
            u32_from_le(bytes.subrange(4, 8)),
            u32_from_le(bytes.subrange(8, 12)),
        ))
    }
}

/// Reading back the little-endian bytes of `x` gives `x`.
pub proof fn lemma_u32_le_roundtrip(x: u32)
    ensures
        u32_from_le(u32_le_bytes(x)) == x,
{
    let b = u32_le_bytes(x);
    assert(b[0] == (x & 0xff) as u8);
    assert(b[1] == ((x >> 8) & 0xff) as u8);
    assert(b[2] == ((x >> 16) & 0xff) as u8);
    assert(b[3] == ((x >> 24) & 0xff) as u8);
    assert((((x & 0xff) as u8) as u32) | (((((x >> 8u32) & 0xff) as u8) as u32) << 8u32)
        | (((((x >> 16u32) & 0xff) as u8) as u32) << 16u32) | (((((x >> 24u32) & 0xff) as u8) as u32) << 24u32) == x)
        by (bit_vector);
}

/// The lead numbers read from bytes that begin with the little-endian bytes
/// of `magic`, `version` and `compression` are these three numbers.
proof fn lemma_lead_of_le_bytes(b: Seq<u8>, magic: u32, version: u32, compression: u32)
    requires
        b.len() >= 12,
        b.subrange(0, 4) == u32_le_bytes(magic),
        b.subrange(4, 8) == u32_le_bytes(version),
        b.subrange(8, 12) == u32_le_bytes(compression),
    ensures
        parse_lead(b) == Some((magic, version, compression)),
{
    lemma_u32_le_roundtrip(magic);
    lemma_u32_le_roundtrip(version);
    lemma_u32_le_roundtrip(compression);
}

/// Serializes the save-file fields with `bincode::serialize`, as one tuple
/// laid out exactly as the fields of the file.
///
/// Claims: serialization succeeds (bincode's default options have no size
/// limit, every field has a known length, and writing into a `Vec` cannot
/// fail); the bytes are `envelope_bytes` of the fields and begin with magic,
/// version and compression as little-endian `u32`s; `bincode::deserialize`
/// reads back from them the same whole envelope and the same header (bincode
/// reads fields in the order it writes them and ignores trailing bytes); and
/// the header is read from the bytes before the last `12 + payload.len()`,
/// which hold the checksum (4 bytes) and the payload with its 8-byte length,
/// whatever stands after them.
#[verifier::external_body]
fn write_envelope(
    magic: u32,
    version: u32,
    compression: u32,
    metadata: &SaveMetadata,
    crc: u32,
    payload: &[u8],
) -> (res: Result<Vec<u8>, bincode::Error>)
    ensures
        res is Ok,
        res matches Ok(b) ==> {
            let e = EnvelopeModel { magic, version, compression, metadata: metadata@, crc32: crc, payload: payload@ };
            &&& b@ == envelope_bytes(e)
            &&& b@.len() >= 12
            &&& b@.subrange(0, 4) == u32_le_bytes(magic)
            &&& b@.subrange(4, 8) == u32_le_bytes(version)
            &&& b@.subrange(8, 12) == u32_le_bytes(compression)
            &&& parse_envelope(b@) == Some(e)
            &&& parse_header(b@) == Some(header_of(e))
            &&& b@.len() - 12 - payload@.len() >= 12
            &&& forall|tail: Seq<u8>| #[trigger] parse_header(b@.take(b@.len() - 12 - payload@.len()) + tail)
                == Some(header_of(e))
        },
{
    let m = metadata;
    bincode::serialize(&(magic, version, compression, m.created_at, m.updated_at,
        m.play_time_bits, &m.description, &m.thumbnail, &m.custom, crc, payload))
}

/// Reads the magic, version and compression numbers with `bincode::deserialize`.
///
/// Claims: the outcome is `parse_lead` of the bytes (bincode reads a `u32`
/// as four little-endian bytes and fails only when they are missing); when
/// it succeeds, any header or whole envelope read from the same bytes starts
/// with these three numbers, and a header that can be read is read from a
/// prefix of the bytes (bincode reads a slice front to back and ignores
/// trailing bytes); when it fails, neither a header nor a whole envelope can
/// be read (both start with these three fields).
#[verifier::external_body]
fn read_lead(bytes: &[u8]) -> (res: Result<(u32, u32, u32), bincode::Error>)
    ensures
        match res {
            Ok(t) => {
                &&& parse_lead(bytes@) == Some(t)
                &&& parse_header(bytes@) matches Some(h) ==> (h.magic, h.version, h.compression) == t
                    && header_read_from_prefix(bytes@, h)
                &&& parse_envelope(bytes@) matches Some(e) ==> (e.magic, e.version, e.compression) == t
            },
            Err(_) => {
                &&& parse_lead(bytes@) is None
                &&& parse_header(bytes@) is None
                &&& parse_envelope(bytes@) is None
            },
        },
{
    bincode::deserialize(bytes)
}

/// Reads the header fields with `bincode::deserialize` and gathers the
/// metadata fields into a [`SaveMetadata`].
///
/// Claims: the outcome is `parse_header` of the bytes; when it succeeds, the
/// header is read from a prefix of the bytes (bincode reads a slice front to
/// back and ignores trailing bytes) and a whole envelope read from the same
/// bytes starts with this header; when it fails, no whole envelope can be
/// read either.
#[verifier::external_body]
fn read_header(bytes: &[u8]) -> (res: Result<(u32, u32, u32, SaveMetadata), bincode::Error>)
    ensures
        match res {
            Ok(t) => {
                let h = HeaderModel { magic: t.0, version: t.1, compression: t.2, metadata: t.3@ };
                &&& parse_header(bytes@) == Some(h)
                &&& header_read_from_prefix(bytes@, h)
                &&& parse_envelope(bytes@) matches Some(e) ==> header_of(e) == h
            },
            Err(_) => {
                &&& parse_header(bytes@) is None
                &&& parse_envelope(bytes@) is None
            },
        },
{
    let t: (u32, u32, u32, i64, i64, u64, String, Option<Vec<u8>>, Vec<(String, String)>) =
        bincode::deserialize(bytes)?;
    let metadata = SaveMetadata { created_at: t.3, updated_at: t.4, play_time_bits: t.5,
        description: t.6, thumbnail: t.7, custom: t.8 };
    Ok((t.0, t.1, t.2, metadata))
}

/// Reads all fields of a save file with `bincode::deserialize`, gathering the
/// metadata fields into a [`SaveMetadata`].
///
/// Claims: the outcome is `parse_envelope` of the bytes, and on success the
/// header read from the same bytes is this envelope's header.
#[verifier::external_body]
fn read_envelope(bytes: &[u8]) -> (res: Result<(u32, u32, u32, SaveMetadata, u32, Vec<u8>), bincode::Error>)
    ensures
        match res {
            Ok(t) => {
                let e = EnvelopeModel {
                    magic: t.0, version: t.1, compression: t.2, metadata: t.3@, crc32: t.4, payload: t.5@,
                };
                &&& parse_envelope(bytes@) == Some(e)
                &&& parse_header(bytes@) == Some(header_of(e))
            },
            Err(_) => parse_envelope(bytes@) is None,
        },
{
    let t: (u32, u32, u32, i64, i64, u64, String, Option<Vec<u8>>, Vec<(String, String)>, u32, Vec<u8>) =
        bincode::deserialize(bytes)?;
    let metadata = SaveMetadata { created_at: t.3, updated_at: t.4, play_time_bits: t.5,
        description: t.6, thumbnail: t.7, custom: t.8 };
    Ok((t.0, t.1, t.2, metadata, t.9, t.10))
}

/// The error that deserializing a two-variant enum reports for variant index
/// `tag` (serde's `de::Error::invalid_value` with the message that
/// `#[derive(Deserialize)]` writes). Nothing is claimed of the value.
#[verifier::external_body]
fn unknown_compression_error(tag: u32) -> bincode::Error {
    serde::de::Error::invalid_value(serde::de::Unexpected::Unsigned(tag as u64), &"variant index 0 <= i < 2")
}

/// What `lz4_flex::compress_prepend_size` produces for `data`.
pub uninterp spec fn lz4_compressed(data: Seq<u8>) -> Seq<u8>;

/// What `lz4_flex::decompress_size_prepended` produces for `data`: the
/// decompressed bytes, or the message of its error.
pub uninterp spec fn lz4_decompressed(data: Seq<u8>) -> Result<Seq<u8>, Seq<char>>;

/// `packed` decompresses, as by `lz4_flex::decompress_size_prepended`, to `data`.
pub open spec fn decompresses_to(packed: Seq<u8>, data: Seq<u8>) -> bool {
    lz4_decompressed(packed) == Ok::<Seq<u8>, Seq<char>>(data)
}

/// Compresses with `lz4_flex::compress_prepend_size`.
///
/// Claims: the result is `lz4_compressed(data)`, and, for inputs whose length
/// fits the `u32` size prefix, `decompress_size_prepended` gives the input back.
#[verifier::external_body]
fn lz4_compress(data: &[u8]) -> (out: Vec<u8>)
    ensures
        out@ == lz4_compressed(data@),
        data@.len() <= u32::MAX ==> decompresses_to(out@, data@),
{
    lz4_flex::compress_prepend_size(data)
}

/// Decompresses with `lz4_flex::decompress_size_prepended`, turning its error
/// into its message. Claims only that the outcome is `lz4_decompressed(data)`.
#[verifier::external_body]
fn lz4_decompress(data: &[u8]) -> (out: Result<Vec<u8>, String>)
    ensures
        match out {
            Ok(v) => lz4_decompressed(data@) matches Ok(d) && d == v@,
            Err(m) => lz4_decompressed(data@) matches Err(e) && e == m@,
        },
{
    match lz4_flex::decompress_size_prepended(data) {
        Ok(v) => Ok(v),
        Err(e) => Err(e.to_string()),
    }
}

/// The stored payload for raw data under a compression kind.
pub open spec fn compressed_payload(raw: Seq<u8>, kind: CompressionKind) -> Seq<u8> {
    match kind {
        CompressionKind::NoCompression => raw,
        CompressionKind::Lz4 => lz4_compressed(raw),
    }
}

/// The raw data recovered from a stored payload, or a decompression message.
pub open spec fn decompressed_payload(stored: Seq<u8>, kind: CompressionKind) -> Result<Seq<u8>, Seq<char>> {
    match kind {
        CompressionKind::NoCompression => Ok(stored),
        CompressionKind::Lz4 => lz4_decompressed(stored),
    }
}

fn compression_tag_of(kind: CompressionKind) -> (t: u32)
    ensures
        t == compression_tag(kind),
{
    match kind {
        CompressionKind::NoCompression => 0,
        CompressionKind::Lz4 => 1,
    }
}

fn compression_from_tag(tag: u32) -> (k: Option<CompressionKind>)
    ensures
        k == compression_of_tag(tag),
{
    if tag == 0 {
        Some(CompressionKind::NoCompression)
    } else if tag == 1 {
        Some(CompressionKind::Lz4)
    } else {
        None
    }
}

fn compress(data: &[u8], kind: CompressionKind) -> (res: SaveResult<Vec<u8>>)
    ensures
        res matches Ok(v) && v@ == compressed_payload(data@, kind),
        kind == CompressionKind::Lz4 && data@.len() <= u32::MAX
            ==> (decompressed_payload(compressed_payload(data@, kind), kind) matches Ok(d) && d == data@),
{
    match kind {
        CompressionKind::NoCompression => Ok(slice_to_vec(data)),
        CompressionKind::Lz4 => Ok(lz4_compress(data)),
    }
}

fn decompress(data: &[u8], kind: CompressionKind) -> (res: SaveResult<Vec<u8>>)
    ensures
        match decompressed_payload(data@, kind) {
            Ok(raw) => res matches Ok(v) && v@ == raw,
            Err(m) => res matches Err(SaveError::Decompression(msg)) && msg@ == m,
        },
{
    match kind {
        CompressionKind::NoCompression => Ok(slice_to_vec(data)),
        CompressionKind::Lz4 => match lz4_decompress(data) {
            Ok(v) => Ok(v),
            Err(m) => Err(SaveError::Decompression(m)),
        },
    }
}

/// The fields that [`encode_save`] writes for `raw` data with `metadata`
/// under `version` and `compression`.
pub open spec fn encoded_envelope(
    raw: Seq<u8>,
    metadata: MetadataModel,
    version: u32,
    compression: CompressionKind,
) -> EnvelopeModel {
    let payload = compressed_payload(raw, compression);
    EnvelopeModel {
        magic: MAGIC,
        version,
        compression: compression_tag(compression),
        metadata,
        crc32: crc32_of(payload),
        payload,
    }
}

/// How decoding a save file ends, before any migration runs.
pub enum DecodeOutcome {
    /// The bytes are not a well-formed envelope (bincode rejects them, or the
    /// compression number names no compression kind).
    Malformed,
    /// The file carries this magic number instead of [`MAGIC`].
    BadMagic(u32),
    /// The stored checksum is not the checksum of the stored payload.
    BadChecksum { expected: u32, got: u32 },
    /// The payload does not decompress; the decompressor's message.
    BadPayload(Seq<char>),
    /// Older than the configured version: needs migration from `version`.
    Outdated { version: u32, raw: Seq<u8>, metadata: MetadataModel },
    /// Ready to use as is.
    Current { raw: Seq<u8>, metadata: MetadataModel },
}

/// How decoding `bytes` for a reader configured with `target_version` ends.
pub open spec fn decode_outcome(bytes: Seq<u8>, target_version: u32) -> DecodeOutcome {
    match parse_envelope(bytes) {
        None => DecodeOutcome::Malformed,
        Some(e) => match compression_of_tag(e.compression) {
            None => DecodeOutcome::Malformed,
            Some(kind) => if e.magic != MAGIC {
                DecodeOutcome::BadMagic(e.magic)
            } else if crc32_of(e.payload) != e.crc32 {
                DecodeOutcome::BadChecksum { expected: e.crc32, got: crc32_of(e.payload) }
            } else {
                match decompressed_payload(e.payload, kind) {
                    Err(m) => DecodeOutcome::BadPayload(m),
                    Ok(raw) => if e.version < target_version {
                        DecodeOutcome::Outdated { version: e.version, raw, metadata: normalized(e.metadata) }
                    } else {
                        DecodeOutcome::Current { raw, metadata: normalized(e.metadata) }
                    },
                }
            },
        },
    }
}

/// The checksum is checked for every compression kind: a well-formed file
/// with the right magic number whose stored CRC32 is not the CRC32 of its
/// stored payload is refused with both checksums, before anything is
/// decompressed, whatever version a reader is configured with.
pub proof fn lemma_checksum_checked_for_every_kind(bytes: Seq<u8>, target_version: u32)
    requires
        parse_envelope(bytes) is Some,
        compression_of_tag(parse_envelope(bytes)->0.compression) is Some,
        parse_envelope(bytes)->0.magic == MAGIC,
        crc32_of(parse_envelope(bytes)->0.payload) != parse_envelope(bytes)->0.crc32,
    ensures
        decode_outcome(bytes, target_version) == (DecodeOutcome::BadChecksum {
            expected: parse_envelope(bytes)->0.crc32,
            got: crc32_of(parse_envelope(bytes)->0.payload),
        }),
{
}

/// A file whose magic number is wrong is refused with that number, whatever
/// else it holds.
pub proof fn lemma_magic_checked_first(bytes: Seq<u8>, target_version: u32)
    requires
        parse_envelope(bytes) is Some,
        compression_of_tag(parse_envelope(bytes)->0.compression) is Some,
        parse_envelope(bytes)->0.magic != MAGIC,
    ensures
        decode_outcome(bytes, target_version) == DecodeOutcome::BadMagic(parse_envelope(bytes)->0.magic),
{
}

/// A sound file (right magic, matching checksum) whose payload decompresses
/// to `raw` decodes to `raw` and its stored metadata (custom pairs with
/// repeated keys reduced as a map would): as is when it is not older than
/// the reader's version, and otherwise as data to migrate from the file's
/// version, the migrations then starting from the decompressed `raw`.
pub proof fn lemma_sound_file_decodes_to_decompressed_payload(
    bytes: Seq<u8>,
    target_version: u32,
    kind: CompressionKind,
    raw: Seq<u8>,
)
    requires
        parse_envelope(bytes) is Some,
        compression_of_tag(parse_envelope(bytes)->0.compression) == Some(kind),
        parse_envelope(bytes)->0.magic == MAGIC,
        crc32_of(parse_envelope(bytes)->0.payload) == parse_envelope(bytes)->0.crc32,
        decompressed_payload(parse_envelope(bytes)->0.payload, kind) == Ok::<Seq<u8>, Seq<char>>(raw),
    ensures
        ({
            let e = parse_envelope(bytes)->0;
            &&& e.version < target_version ==> decode_outcome(bytes, target_version)
                == (DecodeOutcome::Outdated { version: e.version, raw, metadata: normalized(e.metadata) })
            &&& e.version >= target_version ==> decode_outcome(bytes, target_version)
                == (DecodeOutcome::Current { raw, metadata: normalized(e.metadata) })
        }),
{
}

/// How reading only the metadata of a save file ends.
pub enum PeekOutcome {
    /// The leading fields are not well formed.
    Malformed,
    /// The file carries this magic number instead of [`MAGIC`].
    BadMagic(u32),
    /// The metadata of the file.
    Found(MetadataModel),
}

/// How reading the metadata of a save file with header `h` ends.
pub open spec fn peek_of_header(h: HeaderModel) -> PeekOutcome {
    if compression_of_tag(h.compression) is None {
        PeekOutcome::Malformed
    } else if h.magic != MAGIC {
        PeekOutcome::BadMagic(h.magic)
    } else {
        PeekOutcome::Found(normalized(h.metadata))
    }
}

/// How reading the metadata of `bytes` ends.
pub open spec fn peek_outcome(bytes: Seq<u8>) -> PeekOutcome {
    match parse_header(bytes) {
        None => PeekOutcome::Malformed,
        Some(h) => peek_of_header(h),
    }
}

/// The payload bytes of a decoding result, or its error.
pub open spec fn decoded_payload(res: SaveResult<(Vec<u8>, SaveMetadata)>) -> Result<Seq<u8>, SaveError> {
    match res {
        Ok((d, _)) => Ok(d@),
        Err(e) => Err(e),
    }
}

/// Build a complete save file from raw (already serialized) game data.
///
/// The payload is compressed as `config.compression` says, its CRC32 is taken,
/// and magic, version, compression, metadata, checksum and payload are
/// serialized in that order. Whenever this succeeds, decoding the result
/// with any configured version up to `config.version` gives back exactly
/// `raw` and `metadata` (for metadata with distinct custom keys and, under
/// LZ4, data whose length fits a `u32`), and peeking gives back `metadata`,
/// also after the checksum and payload at the end of the file are changed or
/// cut off.
pub fn encode_save(raw: &[u8], metadata: SaveMetadata, config: &SaveConfig) -> (res: SaveResult<Vec<u8>>)
    ensures
        res matches Ok(b) && b@ == envelope_bytes(encoded_envelope(raw@, metadata@, config.version, config.compression)),
        res matches Ok(b) && b@.len() >= 12 && b@.subrange(0, 4) == u32_le_bytes(MAGIC)
            && b@.subrange(4, 8) == u32_le_bytes(config.version)
            && b@.subrange(8, 12) == u32_le_bytes(compression_tag(config.compression)),
        res matches Ok(b) && parse_lead(b@) == Some((MAGIC, config.version, compression_tag(config.compression))),
        metadata.wf() ==> (res matches Ok(b) ==> peek_outcome(b@) == PeekOutcome::Found(metadata@)),
        metadata.wf() ==> (res matches Ok(b) ==> {
            let k = b@.len() - 12 - compressed_payload(raw@, config.compression).len();
            &&& 12 <= k
            &&& forall|tail: Seq<u8>| #[trigger] peek_outcome(b@.take(k) + tail) == PeekOutcome::Found(metadata@)
        }),
        metadata.wf() && (config.compression == CompressionKind::Lz4 ==> raw@.len() <= u32::MAX)
            ==> (res matches Ok(b) ==> forall|v: u32| v <= config.version ==> #[trigger] decode_outcome(b@, v)
                == (DecodeOutcome::Current { raw: raw@, metadata: metadata@ })),
        metadata.wf() && (config.compression == CompressionKind::Lz4 ==> raw@.len() <= u32::MAX)
            ==> (res matches Ok(b) ==> forall|v: u32| v > config.version ==> #[trigger] decode_outcome(b@, v)
                == (DecodeOutcome::Outdated { version: config.version, raw: raw@, metadata: metadata@ })),
{
    let payload = compress(raw, config.compression)?;
    let crc = crc32(payload.as_slice());
    let tag = compression_tag_of(config.compression);
    match write_envelope(MAGIC, config.version, tag, &metadata, crc, payload.as_slice()) {
        Ok(bytes) => {
            proof {
                lemma_lead_of_le_bytes(bytes@, MAGIC, config.version, tag);
                if metadata.wf() {
                    lemma_custom_from_unique_pairs(metadata@.custom);
                    assert(normalized(metadata@) == metadata@);
                }
            }
            Ok(bytes)
        },
        Err(e) => Err(SaveError::Serialize(e)),
    }
}

/// Decode a save file, optionally running migrations; gives back the raw
/// (still serialized) game data and the metadata.
///
/// Checks, in order: the envelope is well formed, the magic number, the
/// payload checksum, and decompression. A file older than `config.version`
/// is migrated when a registry is given and refused otherwise; a file of the
/// configured version or newer is used as is.
pub fn decode_save(
    bytes: &[u8],
    config: &SaveConfig,
    migrations: Option<&MigrationRegistry>,
) -> (res: SaveResult<(Vec<u8>, SaveMetadata)>)
    ensures
        res matches Ok((_, m)) ==> m.wf(),
        match decode_outcome(bytes@, config.version) {
            DecodeOutcome::Malformed => res matches Err(SaveError::Serialize(_)),
            DecodeOutcome::BadMagic(g) => res matches Err(SaveError::InvalidMagic { expected, got })
                && expected == MAGIC && got == g,
            DecodeOutcome::BadChecksum { expected: x, got: g } =>
                res matches Err(SaveError::Crc32Mismatch { expected, got }) && expected == x && got == g,
            DecodeOutcome::BadPayload(msg) => res matches Err(SaveError::Decompression(m)) && m@ == msg,
            DecodeOutcome::Outdated { version, raw, metadata } => match migrations {
                None => res matches Err(SaveError::UnsupportedVersion { version: v, max_supported: t })
                    && v == version && t == config.version,
                Some(registry) => {
                    &&& registry.runs(raw, version as int, config.version as int, decoded_payload(res))
                    &&& res matches Ok((_, m)) ==> m@ == metadata && registry.covers(version, config.version)
                    &&& !registry.covers(version, config.version) ==> res is Err
                    &&& !registry.sources().contains(version)
                        ==> (res matches Err(SaveError::NoMigration(v)) && v == version)
                },
            },
            DecodeOutcome::Current { raw, metadata } => res matches Ok((d, m)) && d@ == raw && m@ == metadata,
        },
{
    let (_, _, lead_tag) = match read_lead(bytes) {
        Ok(t) => t,
        Err(e) => return Err(SaveError::Serialize(e)),
    };
    if compression_from_tag(lead_tag).is_none() {
        return Err(SaveError::Serialize(unknown_compression_error(lead_tag)));
    }
    let (magic, version, tag, metadata, crc, payload) = match read_envelope(bytes) {
        Ok(t) => t,
        Err(e) => return Err(SaveError::Serialize(e)),
    };
    let kind = match compression_from_tag(tag) {
        Some(k) => k,
        None => return Err(SaveError::Serialize(unknown_compression_error(tag))),
    };
    if magic != MAGIC {
        return Err(SaveError::InvalidMagic { expected: MAGIC, got: magic });
    }
    let got = crc32(payload.as_slice());
    if got != crc {
        return Err(SaveError::Crc32Mismatch { expected: crc, got });
    }
    let raw = decompress(payload.as_slice(), kind)?;
    let raw = if version < config.version {
        match migrations {
            Some(registry) => registry.migrate(raw, version, config.version)?,
            None => {
                return Err(SaveError::UnsupportedVersion { version, max_supported: config.version });
            },
        }
    } else {
        raw
    };
    let SaveMetadata { created_at, updated_at, play_time_bits, description, thumbnail, custom } = metadata;
    let custom = custom_pairs_normalized(custom);
    Ok((raw, SaveMetadata { created_at, updated_at, play_time_bits, description, thumbnail, custom }))
}

/// A header read from a prefix of `bytes` makes peeking at that prefix, with
/// anything after it, end as peeking at `bytes` does.
proof fn lemma_peek_from_prefix(bytes: Seq<u8>, h: HeaderModel)
    requires
        parse_header(bytes) == Some(h),
        header_read_from_prefix(bytes, h),
    ensures
        exists|k: int| #![trigger bytes.take(k)] 0 <= k <= bytes.len()
            && forall|tail: Seq<u8>| #[trigger] peek_outcome(bytes.take(k) + tail) == peek_outcome(bytes),
{
    let k = choose|k: int| #[trigger] header_read_within(bytes, h, k);
    assert forall|tail: Seq<u8>| #[trigger] peek_outcome(bytes.take(k) + tail) == peek_outcome(bytes) by {
        assert(parse_header(bytes.take(k) + tail) == Some(h));
    }
}

/// Read only the metadata of a save file, without its payload.
///
/// Decodes the leading envelope (magic, version, compression, metadata) and
/// checks the magic number; the rest of the file is not looked at.
pub fn peek_metadata_bytes(bytes: &[u8]) -> (res: SaveResult<SaveMetadata>)
    ensures
        match peek_outcome(bytes@) {
            PeekOutcome::Malformed => res matches Err(SaveError::Serialize(_)),
            PeekOutcome::BadMagic(g) => res matches Err(SaveError::InvalidMagic { expected, got })
                && expected == MAGIC && got == g,
            PeekOutcome::Found(metadata) => res matches Ok(m) && m@ == metadata && m.wf(),
        },
        parse_envelope(bytes@) matches Some(e) ==> peek_outcome(bytes@) == peek_of_header(header_of(e)),
        parse_header(bytes@) is Some ==> exists|k: int| #![trigger bytes@.take(k)] 0 <= k <= bytes@.len()
            && forall|tail: Seq<u8>| #[trigger] peek_outcome(bytes@.take(k) + tail) == peek_outcome(bytes@),
{
    let (_, _, lead_tag) = match read_lead(bytes) {
        Ok(t) => t,
        Err(e) => return Err(SaveError::Serialize(e)),
    };
    proof {
        if let Some(h) = parse_header(bytes@) {
            lemma_peek_from_prefix(bytes@, h);
        }
    }
    if compression_from_tag(lead_tag).is_none() {
        return Err(SaveError::Serialize(unknown_compression_error(lead_tag)));
    }
    let (magic, _, tag, metadata) = match read_header(bytes) {
        Ok(t) => t,
        Err(e) => return Err(SaveError::Serialize(e)),
    };
    if compression_from_tag(tag).is_none() {
        return Err(SaveError::Serialize(unknown_compression_error(tag)));
    }
    if magic != MAGIC {
        return Err(SaveError::InvalidMagic { expected: MAGIC, got: magic });
    }
    let SaveMetadata { created_at, updated_at, play_time_bits, description, thumbnail, custom } = metadata;
    let custom = custom_pairs_normalized(custom);
    Ok(SaveMetadata { created_at, updated_at, play_time_bits, description, thumbnail, custom })
}

} // verus!
