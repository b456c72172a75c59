//! The bounded snapshot protocol: a host shares its factory as compressed, base64-encoded
//! parts, and a guest publishes a factory only once every part of one revision has arrived.
use vstd::prelude::*;
use base64::Engine as _;
use std::io::{Read, Write};
use crate::sim::{Game, GameModel, Kind, HEIGHT, WIDTH};
use crate::text::{append_decimal, decimal};
use base64::DecodeError;

verus! {

/// Version of the factory network protocol.
pub const PROTOCOL: u32 = 1;

/// Largest packet, in bytes.
pub const MAX_PACKET: usize = 16384;

/// Compressed bytes per snapshot part.
pub const CHUNK_BYTES: usize = 8192;

/// Largest compressed snapshot, in bytes.
pub const MAX_COMPRESSED: usize = 2097152;

/// Largest decompressed snapshot, in bytes.
pub const MAX_JSON: u64 = 16777216;

/// Most parts one snapshot may have: `MAX_COMPRESSED` in chunks of `CHUNK_BYTES`.
pub const MAX_PARTS: u16 = 256;

/// Longest base64 text of one part: `CHUNK_BYTES` bytes encode to this many characters.
pub const MAX_PART_TEXT: usize = 10924;

/// Why base64 text did not decode, as the base64 decoder reports it.
#[derive(Clone, Copy, Debug, PartialEq, Eq, Structural)]
pub enum Base64Fault {
    /// A symbol outside the alphabet: its offset and byte.
    InvalidByte(usize, u8),
    /// A length no padded text has.
    InvalidLength(usize),
    /// A last symbol with bits left over: its offset and byte.
    InvalidLastSymbol(usize, u8),
    /// Padding where there should be none, or too little.
    InvalidPadding,
}

/// Why zlib data did not decompress, as the zlib reader reports it.
#[derive(Clone, Copy, Debug, PartialEq, Eq, Structural)]
pub enum ZlibFault {
    /// The stream stops before its end.
    Incomplete,
    /// The stream is not valid zlib.
    Corrupt,
}

/// Why a snapshot or one of its parts is refused.
#[derive(Clone, Copy, Debug, PartialEq, Eq, Structural)]
pub enum SnapshotError {
    TooLargeToShare,
    InvalidSize,
    InvalidPart,
    OversizedPart,
    BadEncoding(Base64Fault),
    CountChanged,
    ConflictingDuplicate,
    Incomplete,
    TooLarge,
    BadCompression(ZlibFault),
    ExpandsTooFar,
    CompressionFailed,
    InvalidWorld,
    HubOutside,
    NoHub,
    InvalidContract,
    ProgressionOutOfRange,
    WrongLobby,
    PacketTooLarge,
}

impl SnapshotError {
    /// The error's text.
    pub open spec fn text(self) -> Seq<char> {
        match self {
            SnapshotError::TooLargeToShare => "factory too large to share"@,
            SnapshotError::InvalidSize => "invalid snapshot size"@,
            SnapshotError::InvalidPart => "invalid snapshot part"@,
            SnapshotError::OversizedPart => "oversized snapshot part"@,
            SnapshotError::BadEncoding(f) => match f {
                Base64Fault::InvalidByte(offset, byte) => "Invalid symbol "@ + decimal(byte as nat)
                    + ", offset "@ + decimal(offset as nat) + "."@,
                Base64Fault::InvalidLength(length) => "Invalid input length: "@ + decimal(length as nat),
                Base64Fault::InvalidLastSymbol(offset, byte) => "Invalid last symbol "@ + decimal(
                    byte as nat,
                ) + ", offset "@ + decimal(offset as nat) + "."@,
                Base64Fault::InvalidPadding => "Invalid padding"@,
            },
            SnapshotError::CountChanged => "snapshot part count changed"@,
            SnapshotError::ConflictingDuplicate => "conflicting duplicate snapshot part"@,
            SnapshotError::Incomplete => "incomplete factory snapshot"@,
            SnapshotError::TooLarge => "factory snapshot is too large"@,
            SnapshotError::BadCompression(ZlibFault::Incomplete) => "incomplete deflate stream"@,
            SnapshotError::BadCompression(ZlibFault::Corrupt) => "corrupt deflate stream"@,
            SnapshotError::ExpandsTooFar => "factory snapshot expands too far"@,
            SnapshotError::CompressionFailed => "factory snapshot could not be compressed"@,
            SnapshotError::InvalidWorld => "invalid factory world"@,
            SnapshotError::HubOutside => "factory hub is outside the world"@,
            SnapshotError::NoHub => "factory has no valid hub"@,
            SnapshotError::InvalidContract => "invalid factory inventory or contract"@,
            SnapshotError::ProgressionOutOfRange => "factory progression is out of range"@,
            SnapshotError::WrongLobby => "wrong factory lobby or protocol"@,
            SnapshotError::PacketTooLarge => "factory packet exceeds 16 KiB"@,
        }
    }

    /// The error's text.
    pub fn message(&self) -> (message: String)
        ensures
            message@ == self.text(),
    {
        let fixed = match self {
            SnapshotError::TooLargeToShare => "factory too large to share",
            SnapshotError::InvalidSize => "invalid snapshot size",
            SnapshotError::InvalidPart => "invalid snapshot part",
            SnapshotError::OversizedPart => "oversized snapshot part",
            SnapshotError::BadEncoding(f) => return Self::base64_message(*f),
            SnapshotError::CountChanged => "snapshot part count changed",
            SnapshotError::ConflictingDuplicate => "conflicting duplicate snapshot part",
            SnapshotError::Incomplete => "incomplete factory snapshot",
            SnapshotError::TooLarge => "factory snapshot is too large",
            SnapshotError::BadCompression(ZlibFault::Incomplete) => "incomplete deflate stream",
            SnapshotError::BadCompression(ZlibFault::Corrupt) => "corrupt deflate stream",
            SnapshotError::ExpandsTooFar => "factory snapshot expands too far",
            SnapshotError::CompressionFailed => "factory snapshot could not be compressed",
            SnapshotError::InvalidWorld => "invalid factory world",
            SnapshotError::HubOutside => "factory hub is outside the world",
            SnapshotError::NoHub => "factory has no valid hub",
            SnapshotError::InvalidContract => "invalid factory inventory or contract",
            SnapshotError::ProgressionOutOfRange => "factory progression is out of range",
            SnapshotError::WrongLobby => "wrong factory lobby or protocol",
            SnapshotError::PacketTooLarge => "factory packet exceeds 16 KiB",
        };
        String::from_str(fixed)
    }

    fn base64_message(f: Base64Fault) -> (message: String)
        ensures
            message@ == SnapshotError::BadEncoding(f).text(),
    {
        proof {
            reveal_strlit("");
        }
        match f {
            Base64Fault::InvalidByte(offset, byte) => {
                let mut m = String::from_str("Invalid symbol ");
                append_decimal(&mut m, byte as u64);
                m.append(", offset ");
                append_decimal(&mut m, offset as u64);
                m.append(".");
                m
            },
            Base64Fault::InvalidLength(length) => {
                let mut m = String::from_str("Invalid input length: ");
                append_decimal(&mut m, length as u64);
                m
            },
            Base64Fault::InvalidLastSymbol(offset, byte) => {
                let mut m = String::from_str("Invalid last symbol ");
                append_decimal(&mut m, byte as u64);
                m.append(", offset ");
                append_decimal(&mut m, offset as u64);
                m.append(".");
                m
            },
            Base64Fault::InvalidPadding => String::from_str("Invalid padding"),
        }
    }
}

/// What the standard base64 alphabet (with padding) decodes `text` to, if it is valid.
pub uninterp spec fn base64_decoded(text: Seq<char>) -> Option<Seq<u8>>;

/// Why the standard base64 decoder refuses `text`, where it does.
pub uninterp spec fn base64_fault(text: Seq<char>) -> Base64Fault;

/// Why a zlib decoder stops with an error on `compressed` when reading stops after `limit`
/// bytes, where it does.
pub uninterp spec fn inflate_fault(compressed: Seq<u8>, limit: u64) -> ZlibFault;

/// What a zlib decoder reads from `compressed` when reading stops after `limit` bytes.
pub uninterp spec fn inflated_prefix(compressed: Seq<u8>, limit: u64) -> Option<Seq<u8>>;

/// Decodes base64 text. Trusted: `base64::engine::general_purpose::STANDARD.decode`, whose
/// result `base64_decoded` names, and whose `DecodeError` (`base64_fault`) is copied variant
/// for variant; it fails rather than panics on bad input.
#[verifier::external_body]
fn base64_decode(text: &str) -> (bytes: Result<Vec<u8>, Base64Fault>)
    ensures
        match bytes {
            Ok(b) => base64_decoded(text@) == Some(b@),
            Err(f) => base64_decoded(text@) is None && f == base64_fault(text@),
        },
{
    match base64::engine::general_purpose::STANDARD.decode(text) {
        Ok(b) => Ok(b),
        Err(DecodeError::InvalidByte(i, b)) => Err(Base64Fault::InvalidByte(i, b)),
        Err(DecodeError::InvalidLength(n)) => Err(Base64Fault::InvalidLength(n)),
        Err(DecodeError::InvalidLastSymbol(i, b)) => Err(Base64Fault::InvalidLastSymbol(i, b)),
        Err(DecodeError::InvalidPadding) => Err(Base64Fault::InvalidPadding),
    }
}

/// Encodes bytes as base64 text. Trusted: `base64::engine::general_purpose::STANDARD.encode`.
/// Its output decodes back to the input with the same engine, has four characters per
/// started group of three bytes (`encoded_len` with padding), and uses only the ASCII
/// characters of the standard alphabet. Only small inputs are passed,
/// far from the length overflow on which it panics.
#[verifier::external_body]
fn base64_encode(bytes: &[u8]) -> (text: String)
    requires
        bytes@.len() <= CHUNK_BYTES,
    ensures
        base64_decoded(text@) == Some(bytes@),
        text@.len() == 4 * ((bytes@.len() + 2) / 3),
        vstd::utf8::is_ascii_chars(text@),
{
    base64::engine::general_purpose::STANDARD.encode(bytes)
}

/// The first `limit` bytes of `data`, or all of them if there are fewer.
pub open spec fn truncated(data: Seq<u8>, limit: u64) -> Seq<u8> {
    if data.len() <= limit {
        data
    } else {
        data.take(limit as int)
    }
}

/// What the zlib encoder at the fast level gives for `data`: the compressed stream, or
/// nothing where writing it fails.
pub uninterp spec fn zlib_compressed(data: Seq<u8>) -> Option<Seq<u8>>;

/// Compresses bytes as a zlib stream at the fast level. Trusted: `flate2::write::ZlibEncoder`
/// over a `Vec`, whose result for given bytes `zlib_compressed` names (the exact compressed
/// bytes are not restated), and whose output a zlib decoder reads back to the input: read
/// with any limit, it gives the input's first `limit` bytes. An I/O error is passed on as
/// `None`.
#[verifier::external_body]
fn zlib_compress(data: &[u8]) -> (compressed: Option<Vec<u8>>)
    ensures
        match compressed {
            Some(c) => zlib_compressed(data@) == Some(c@),
            None => zlib_compressed(data@) is None,
        },
        compressed matches Some(c) ==> forall|limit: u64|
            #[trigger] inflated_prefix(c@, limit) == Some(truncated(data@, limit)),
{
    let mut encoder = flate2::write::ZlibEncoder::new(Vec::new(), flate2::Compression::fast());
    encoder.write_all(data).ok()?;
    encoder.finish().ok()
}

/// Decompresses a zlib stream, reading at most `limit` bytes. Trusted:
/// `flate2::read::ZlibDecoder` behind `Read::take(limit)` and `read_to_end`. What it returns
/// is named by `inflated_prefix`; it never returns more than `limit` bytes. Its only errors
/// are the reader's "incomplete deflate stream" (`UnexpectedEof`) and "corrupt deflate
/// stream"; which one is named by `inflate_fault`.
#[verifier::external_body]
fn zlib_inflate_limited(compressed: &[u8], limit: u64) -> (data: Result<Vec<u8>, ZlibFault>)
    ensures
        match data {
            Ok(d) => inflated_prefix(compressed@, limit) == Some(d@),
            Err(f) => inflated_prefix(compressed@, limit) is None && f == inflate_fault(compressed@, limit),
        },
        data matches Ok(d) ==> d@.len() <= limit,
{
    let mut data = Vec::new();
    match flate2::read::ZlibDecoder::new(compressed).take(limit).read_to_end(&mut data) {
        Ok(_) => Ok(data),
        Err(e) if e.kind() == std::io::ErrorKind::UnexpectedEof => Err(ZlibFault::Incomplete),
        Err(_) => Err(ZlibFault::Corrupt),
    }
}


/// One part of a shared snapshot: which revision it belongs to, its place among the
/// revision's parts, and its compressed bytes as base64 text.
pub struct StatePart {
    pub revision: u64,
    pub index: u16,
    pub count: u16,
    pub data: String,
}

/// The number of parts `len` compressed bytes are split into.
pub open spec fn part_count(len: nat) -> nat {
    ((len + 8191) / 8192) as nat
}

/// The compressed bytes part `i` carries.
pub open spec fn chunk_of(c: Seq<u8>, i: int) -> Seq<u8> {
    c.subrange(
        i * 8192,
        if (i + 1) * 8192 <= c.len() {
            (i + 1) * 8192
        } else {
            c.len() as int
        },
    )
}

/// `parts` are the parts of revision `revision` of the compressed snapshot `c`, in order.
pub open spec fn splits(parts: Seq<StatePart>, revision: u64, c: Seq<u8>) -> bool {
    &&& parts.len() == part_count(c.len())
    &&& forall|i: int|
        0 <= i < parts.len() ==> {
            &&& (#[trigger] parts[i]).revision == revision
            &&& parts[i].index == i
            &&& parts[i].count == parts.len()
            &&& base64_decoded(parts[i].data@) == Some(chunk_of(c, i))
            &&& parts[i].data@.len() <= MAX_PART_TEXT
            &&& vstd::utf8::is_ascii_chars(parts[i].data@)
        }
}

/// Why compressed bytes `c` cannot be shared, if they cannot.
pub open spec fn split_refusal(c: Seq<u8>) -> Option<SnapshotError> {
    if c.len() > MAX_COMPRESSED {
        Some(SnapshotError::TooLargeToShare)
    } else if c.len() == 0 {
        Some(SnapshotError::InvalidSize)
    } else {
        None
    }
}

proof fn lemma_chunk_bounds(len: int, i: int)
    requires
        0 <= i,
        i * 8192 < len,
    ensures
        0 <= i * 8192 < (if (i + 1) * 8192 <= len { (i + 1) * 8192 } else { len }) <= len,
        (if (i + 1) * 8192 <= len { (i + 1) * 8192 } else { len }) - i * 8192 <= 8192,
{
}

proof fn lemma_part_count(len: int, i: int)
    requires
        0 < len,
        0 <= i,
    ensures
        i < part_count(len as nat) <==> i * 8192 < len,
        part_count(len as nat) * 8192 >= len,
        len <= MAX_COMPRESSED ==> part_count(len as nat) <= 256,
{
    assert((i < (len + 8191) / 8192 <==> i * 8192 < len) && ((len + 8191) / 8192) * 8192 >= len
        && (len <= 2097152 ==> (len + 8191) / 8192 <= 256)) by (nonlinear_arith)
        requires
            0 < len,
            0 <= i,
    ;
}

/// Splits compressed snapshot bytes into base64 parts of one revision.
pub fn split_snapshot(revision: u64, compressed: &[u8]) -> (result: Result<Vec<StatePart>, SnapshotError>)
    ensures
        match split_refusal(compressed@) {
            Some(e) => result == Err::<Vec<StatePart>, SnapshotError>(e),
            None => result matches Ok(parts) && splits(parts@, revision, compressed@),
        },
{
    let len = compressed.len();
    if len > MAX_COMPRESSED {
        return Err(SnapshotError::TooLargeToShare);
    }
    if len == 0 {
        return Err(SnapshotError::InvalidSize);
    }
    let count: usize = len / CHUNK_BYTES + if len % CHUNK_BYTES == 0 {
        0
    } else {
        1
    };
    assert(count == part_count(len as nat)) by (nonlinear_arith)
        requires
            count == len / 8192 + if len % 8192 == 0 {
                0int
            } else {
                1int
            },
            0 < len,
    ;
    proof {
        lemma_part_count(len as int, 0);
    }
    let mut parts: Vec<StatePart> = Vec::new();
    let mut i: usize = 0;
    while i < count
        invariant
            len == compressed@.len(),
            0 < len <= MAX_COMPRESSED,
            count == part_count(len as nat),
            count <= 256,
            i <= count,
            parts@.len() == i,
            forall|j: int|
                0 <= j < i ==> {
                    &&& (#[trigger] parts@[j]).revision == revision
                    &&& parts@[j].index == j
                    &&& parts@[j].count == count
                    &&& base64_decoded(parts@[j].data@) == Some(chunk_of(compressed@, j))
                    &&& parts@[j].data@.len() <= MAX_PART_TEXT
                    &&& vstd::utf8::is_ascii_chars(parts@[j].data@)
                },
        decreases count - i,
    {
        proof {
            lemma_part_count(len as int, i as int);
            lemma_chunk_bounds(len as int, i as int);
        }
        let start = i * CHUNK_BYTES;
        let end = if start + CHUNK_BYTES <= len {
            start + CHUNK_BYTES
        } else {
            len
        };
        let mut chunk: Vec<u8> = Vec::new();
        let mut k = start;
        while k < end
            invariant
                start <= k <= end <= compressed@.len(),
                chunk@ == compressed@.subrange(start as int, k as int),
            decreases end - k,
        {
            chunk.push(compressed[k]);
            k += 1;
            assert(chunk@ =~= compressed@.subrange(start as int, k as int));
        }
        assert(chunk@ == chunk_of(compressed@, i as int));
        let data = base64_encode(chunk.as_slice());
        assert(4 * ((chunk@.len() + 2) / 3) <= MAX_PART_TEXT);
        parts.push(StatePart { revision, index: i as u16, count: count as u16, data });
        i += 1;
    }
    Ok(parts)
}

/// Splits a factory's JSON into base64 parts of one revision, after compressing it: fails
/// with `CompressionFailed` where the encoder fails, else exactly as `split_snapshot` does
/// on the compressed bytes.
pub fn state_parts(revision: u64, json: &[u8]) -> (result: Result<Vec<StatePart>, SnapshotError>)
    ensures
        match zlib_compressed(json@) {
            None => result == Err::<Vec<StatePart>, SnapshotError>(SnapshotError::CompressionFailed),
            Some(c) => match split_refusal(c) {
                Some(e) => result == Err::<Vec<StatePart>, SnapshotError>(e),
                None => result matches Ok(parts) && splits(parts@, revision, c),
            },
        },
        result matches Ok(parts) ==> exists|c: Seq<u8>|
            inflated_prefix(c, (MAX_JSON + 1) as u64) == Some(truncated(json@, (MAX_JSON + 1) as u64))
                && split_refusal(c) is None && splits(parts@, revision, c),
{
    let compressed = match zlib_compress(json) {
        Some(c) => c,
        None => return Err(SnapshotError::CompressionFailed),
    };
    let result = split_snapshot(revision, compressed.as_slice());
    proof {
        if result is Ok {
            assert(inflated_prefix(compressed@, (MAX_JSON + 1) as u64) == Some(
                truncated(json@, (MAX_JSON + 1) as u64),
            ));
        }
    }
    result
}

/// The compressed bytes of the first `n` parts, joined in order: refused at the first
/// missing part, or as soon as they grow beyond `MAX_COMPRESSED`.
pub open spec fn joined(chunks: Seq<Option<Seq<u8>>>, n: nat) -> Result<Seq<u8>, SnapshotError>
    decreases n,
{
    if n == 0 {
        Ok(seq![])
    } else {
        match joined(chunks, (n - 1) as nat) {
            Err(e) => Err(e),
            Ok(c) => match chunks[n - 1] {
                None => Err(SnapshotError::Incomplete),
                Some(b) => if c.len() + b.len() > MAX_COMPRESSED {
                    Err(SnapshotError::TooLarge)
                } else {
                    Ok(c + b)
                },
            },
        }
    }
}

/// The JSON a complete set of parts decompresses to, refused if it cannot be decompressed
/// or expands beyond `MAX_JSON`.
pub open spec fn snapshot_json(chunks: Seq<Option<Seq<u8>>>) -> Result<Seq<u8>, SnapshotError> {
    match joined(chunks, chunks.len()) {
        Err(e) => Err(e),
        Ok(c) => match inflated_prefix(c, (MAX_JSON + 1) as u64) {
            None => Err(SnapshotError::BadCompression(inflate_fault(c, (MAX_JSON + 1) as u64))),
            Some(j) => if j.len() > MAX_JSON {
                Err(SnapshotError::ExpandsTooFar)
            } else {
                Ok(j)
            },
        },
    }
}

proof fn lemma_joined_fails(chunks: Seq<Option<Seq<u8>>>, n: nat, m: nat, e: SnapshotError)
    requires
        n <= m,
        joined(chunks, n) == Err::<Seq<u8>, SnapshotError>(e),
    ensures
        joined(chunks, m) == Err::<Seq<u8>, SnapshotError>(e),
    decreases m - n,
{
    if n < m {
        lemma_joined_fails(chunks, n, (m - 1) as nat, e);
    }
}

/// The parts as byte sequences.
pub open spec fn chunk_views(chunks: Seq<Option<Vec<u8>>>) -> Seq<Option<Seq<u8>>> {
    chunks.map_values(
        |c: Option<Vec<u8>>|
            match c {
                Some(v) => Some(v@),
                None => None,
            },
    )
}

/// A result's bytes as a sequence.
pub open spec fn bytes_result(r: Result<Vec<u8>, SnapshotError>) -> Result<Seq<u8>, SnapshotError> {
    match r {
        Ok(v) => Ok(v@),
        Err(e) => Err(e),
    }
}

/// Joins and decompresses the parts of a snapshot into its JSON.
pub fn read_state(chunks: &[Option<Vec<u8>>]) -> (result: Result<Vec<u8>, SnapshotError>)
    ensures
        bytes_result(result) == snapshot_json(chunk_views(chunks@)),
{
    let ghost views = chunk_views(chunks@);
    let mut compressed: Vec<u8> = Vec::new();
    let mut i: usize = 0;
    while i < chunks.len()
        invariant
            views == chunk_views(chunks@),
            i <= chunks@.len(),
            joined(views, i as nat) == Ok::<Seq<u8>, SnapshotError>(compressed@),
            compressed@.len() <= MAX_COMPRESSED,
        decreases chunks@.len() - i,
    {
        let chunk = match &chunks[i] {
            Some(chunk) => chunk,
            None => {
                proof {
                    assert(views[i as int] is None);
                    lemma_joined_fails(
                        views,
                        (i + 1) as nat,
                        views.len(),
                        SnapshotError::Incomplete,
                    );
                }
                return Err(SnapshotError::Incomplete);
            },
        };
        assert(views[i as int] == Some(chunk@));
        if chunk.len() > MAX_COMPRESSED - compressed.len() {
            proof {
                lemma_joined_fails(views, (i + 1) as nat, views.len(), SnapshotError::TooLarge);
            }
            return Err(SnapshotError::TooLarge);
        }
        let ghost before = compressed@;
        let mut k: usize = 0;
        while k < chunk.len()
            invariant
                k <= chunk@.len(),
                compressed@ == before + chunk@.subrange(0, k as int),
            decreases chunk@.len() - k,
        {
            compressed.push(chunk[k]);
            k += 1;
            assert(compressed@ =~= before + chunk@.subrange(0, k as int));
        }
        assert(chunk@.subrange(0, chunk@.len() as int) =~= chunk@);
        i += 1;
    }
    let json = match zlib_inflate_limited(compressed.as_slice(), MAX_JSON + 1) {
        Ok(json) => json,
        Err(f) => return Err(SnapshotError::BadCompression(f)),
    };
    if json.len() as u64 > MAX_JSON {
        return Err(SnapshotError::ExpandsTooFar);
    }
    Ok(json)
}

/// A partly received snapshot of one revision.
pub struct Assembly {
    pub revision: u64,
    pub chunks: Vec<Option<Vec<u8>>>,
    pub started: u64,
}

/// A partly received snapshot as the protocol sees it. `started` is when its first part
/// arrived, in nanoseconds of a monotonic clock.
#[verifier::ext_equal]
pub struct AssemblyModel {
    pub revision: u64,
    pub chunks: Seq<Option<Seq<u8>>>,
    pub started: u64,
}

impl View for Assembly {
    type V = AssemblyModel;

    open spec fn view(&self) -> AssemblyModel {
        AssemblyModel {
            revision: self.revision,
            chunks: chunk_views(self.chunks@),
            started: self.started,
        }
    }
}

/// The assembly in progress, if any, as the protocol sees it.
pub open spec fn pending(a: Option<Assembly>) -> Option<AssemblyModel> {
    match a {
        Some(part) => Some(part@),
        None => None,
    }
}

/// A published snapshot's bytes as a sequence.
pub open spec fn published(r: Result<Option<Vec<u8>>, SnapshotError>) -> Result<
    Option<Seq<u8>>,
    SnapshotError,
> {
    match r {
        Ok(Some(v)) => Ok(Some(v@)),
        Ok(None) => Ok(None),
        Err(e) => Err(e),
    }
}

/// Whether every part has arrived.
pub open spec fn complete(chunks: Seq<Option<Seq<u8>>>) -> bool {
    forall|i: int| 0 <= i < chunks.len() ==> (#[trigger] chunks[i]) is Some
}

/// What receiving part `index` of `count` of `revision`, with base64 text `data` of
/// `data_len` bytes at time `now`, does to the assembly `a` when revisions up to `applied` are already shown: the
/// assembly afterwards, and the snapshot JSON published, if any.
///
/// A part of an older or already shown revision is ignored; a newer revision starts a fresh
/// assembly; a repeated part must match the first copy; the snapshot is published only when
/// its last missing part arrives. The complete assembly stays until the published factory
/// has been read and found valid (`settle_assembly`), so a snapshot that cannot be shown
/// leaves it in place.
pub open spec fn receive_part(
    a: Option<AssemblyModel>,
    applied: u64,
    revision: u64,
    index: u16,
    count: u16,
    data: Seq<char>,
    data_len: usize,
    now: u64,
) -> (Option<AssemblyModel>, Result<Option<Seq<u8>>, SnapshotError>) {
    if !(0 < count <= MAX_PARTS && index < count) {
        (a, Err(SnapshotError::InvalidPart))
    } else if revision <= applied {
        (a, Ok(None))
    } else if data_len > MAX_PART_TEXT {
        (a, Err(SnapshotError::OversizedPart))
    } else {
        match base64_decoded(data) {
            None => (a, Err(SnapshotError::BadEncoding(base64_fault(data)))),
            Some(chunk) => if chunk.len() > CHUNK_BYTES {
                (a, Err(SnapshotError::OversizedPart))
            } else {
                let current = match a {
                    Some(part) => if revision > part.revision {
                        AssemblyModel {
                            revision,
                            chunks: Seq::new(count as nat, |i: int| None),
                            started: now,
                        }
                    } else {
                        part
                    },
                    None => AssemblyModel {
                        revision,
                        chunks: Seq::new(count as nat, |i: int| None),
                        started: now,
                    },
                };
                if revision < current.revision {
                    (Some(current), Ok(None))
                } else if current.chunks.len() != count {
                    (Some(current), Err(SnapshotError::CountChanged))
                } else {
                    match current.chunks[index as int] {
                        Some(previous) => if previous == chunk {
                            (Some(current), Ok(None))
                        } else {
                            (Some(current), Err(SnapshotError::ConflictingDuplicate))
                        },
                        None => {
                            let next = AssemblyModel {
                                chunks: current.chunks.update(index as int, Some(chunk)),
                                ..current
                            };
                            if complete(next.chunks) {
                                match snapshot_json(next.chunks) {
                                    Ok(json) => (Some(next), Ok(Some(json))),
                                    Err(e) => (Some(next), Err(e)),
                                }
                            } else {
                                (Some(next), Ok(None))
                            }
                        },
                    }
                }
            },
        }
    }
}

fn same_bytes(a: &Vec<u8>, b: &Vec<u8>) -> (same: bool)
    ensures
        same == (a@ == b@),
{
    if a.len() != b.len() {
        return false;
    }
    let mut k: usize = 0;
    while k < a.len()
        invariant
            a@.len() == b@.len(),
            k <= a@.len(),
            forall|j: int| 0 <= j < k ==> a@[j] == b@[j],
        decreases a@.len() - k,
    {
        if a[k] != b[k] {
            return false;
        }
        k += 1;
    }
    assert(a@ =~= b@);
    true
}

fn all_present(chunks: &Vec<Option<Vec<u8>>>) -> (present: bool)
    ensures
        present == complete(chunk_views(chunks@)),
{
    let mut k: usize = 0;
    while k < chunks.len()
        invariant
            k <= chunks@.len(),
            forall|j: int| 0 <= j < k ==> (#[trigger] chunks@[j]) is Some,
        decreases chunks@.len() - k,
    {
        if chunks[k].is_none() {
            assert(chunk_views(chunks@)[k as int] is None);
            return false;
        }
        k += 1;
    }
    assert forall|j: int| 0 <= j < chunk_views(chunks@).len() implies (#[trigger] chunk_views(
        chunks@,
    )[j]) is Some by {
        assert(chunks@[j] is Some);
    }
    true
}

fn empty_chunks(count: u16) -> (chunks: Vec<Option<Vec<u8>>>)
    ensures
        chunk_views(chunks@) == Seq::new(count as nat, |i: int| None::<Seq<u8>>),
{
    let mut chunks: Vec<Option<Vec<u8>>> = Vec::new();
    let mut k: u16 = 0;
    while k < count
        invariant
            k <= count,
            chunks@.len() == k,
            forall|j: int| 0 <= j < k ==> (#[trigger] chunks@[j]) is None,
            chunk_views(chunks@) == Seq::new(k as nat, |i: int| None::<Seq<u8>>),
        decreases count - k,
    {
        chunks.push(None);
        k += 1;
        assert(chunk_views(chunks@) =~= Seq::new(k as nat, |i: int| None::<Seq<u8>>));
    }
    chunks
}

/// Receives one snapshot part; returns the snapshot's JSON once its last part arrives,
/// keeping the complete assembly until `settle_assembly` accepts the factory read from it.
/// `now` is in nanoseconds of a monotonic clock.
pub fn accept_state_part(
    assembly: &mut Option<Assembly>,
    applied_revision: u64,
    revision: u64,
    index: u16,
    count: u16,
    data: &str,
    now: u64,
) -> (result: Result<Option<Vec<u8>>, SnapshotError>)
    ensures
        pending(*final(assembly)) == receive_part(
            pending(*old(assembly)),
            applied_revision,
            revision,
            index,
            count,
            data@,
            data.len(),
            now,
        ).0,
        published(result) == receive_part(
            pending(*old(assembly)),
            applied_revision,
            revision,
            index,
            count,
            data@,
            data.len(),
            now,
        ).1,
{
    if !(count > 0 && count <= MAX_PARTS && index < count) {
        return Err(SnapshotError::InvalidPart);
    }
    if revision <= applied_revision {
        return Ok(None);
    }
    if data.len() > MAX_PART_TEXT {
        return Err(SnapshotError::OversizedPart);
    }
    let chunk = match base64_decode(data) {
        Ok(chunk) => chunk,
        Err(f) => return Err(SnapshotError::BadEncoding(f)),
    };
    if chunk.len() > CHUNK_BYTES {
        return Err(SnapshotError::OversizedPart);
    }
    let fresh = match &*assembly {
        Some(part) => revision > part.revision,
        None => true,
    };
    if fresh {
        *assembly = Some(Assembly { revision, chunks: empty_chunks(count), started: now });
    }
    let mut part = match assembly.take() {
        Some(part) => part,
        None => return Ok(None),
    };
    if revision < part.revision {
        *assembly = Some(part);
        return Ok(None);
    }
    if part.chunks.len() != count as usize {
        *assembly = Some(part);
        return Err(SnapshotError::CountChanged);
    }
    let i = index as usize;
    let duplicate = match &part.chunks[i] {
        Some(previous) => Some(same_bytes(previous, &chunk)),
        None => None,
    };
    match duplicate {
        Some(same) => {
            *assembly = Some(part);
            if same {
                return Ok(None);
            } else {
                return Err(SnapshotError::ConflictingDuplicate);
            }
        },
        None => {},
    }
    let ghost before = part@;
    part.chunks.set(i, Some(chunk));
    assert(part@.chunks =~= before.chunks.update(i as int, Some(chunk@)));
    if all_present(&part.chunks) {
        match read_state(part.chunks.as_slice()) {
            Ok(json) => {
                *assembly = Some(part);
                Ok(Some(json))
            },
            Err(e) => {
                *assembly = Some(part);
                Err(e)
            },
        }
    } else {
        *assembly = Some(part);
        Ok(None)
    }
}

/// Drops a partial snapshot that has waited longer than `timeout`, reporting whether it did.
/// Times are in nanoseconds of a monotonic clock; a clock reading before the start counts as
/// no time passed.
pub fn expire_assembly(assembly: &mut Option<Assembly>, now: u64, timeout: u64) -> (expired: bool)
    ensures
        expired == (*old(assembly) matches Some(part) && (if now >= part.started {
            now - part.started
        } else {
            0
        }) > timeout),
        expired ==> (*final(assembly)) is None,
        !expired ==> pending(*final(assembly)) == pending(*old(assembly)),
{
    let stale = match &*assembly {
        Some(part) => now.saturating_sub(part.started) > timeout,
        None => false,
    };
    if stale {
        *assembly = None;
        true
    } else {
        false
    }
}

/// Why a received factory cannot be shown, if it cannot: the floor must have its full
/// size, the hub must lie on it and hold the hub building, the first contract must ask for
/// something, and the contract index must be in range.
pub open spec fn world_refusal(g: GameModel) -> Option<SnapshotError> {
    if !(g.tiles.len() == 330 && g.terrain.len() == 330) {
        Some(SnapshotError::InvalidWorld)
    } else if !(g.hub[0] < 22 && g.hub[1] < 15) {
        Some(SnapshotError::HubOutside)
    } else if !(g.tiles[g.hub[1] * 22 + g.hub[0]].building matches Some(b) && b.kind
        == Kind::Hub) {
        Some(SnapshotError::NoHub)
    } else if g.first_order_amount == 0 {
        Some(SnapshotError::InvalidContract)
    } else if g.order_index > 1_000_000 {
        Some(SnapshotError::ProgressionOutOfRange)
    } else {
        None
    }
}

/// Checks that a received factory can be shown.
pub fn validate_world(game: &Game) -> (result: Result<(), SnapshotError>)
    ensures
        match world_refusal(game@) {
            Some(e) => result == Err::<(), SnapshotError>(e),
            None => result is Ok,
        },
{
    if !(game.tiles.len() == WIDTH * HEIGHT && game.terrain.len() == WIDTH * HEIGHT) {
        return Err(SnapshotError::InvalidWorld);
    }
    if !(game.hub[0] < WIDTH && game.hub[1] < HEIGHT) {
        return Err(SnapshotError::HubOutside);
    }
    let hub = game.hub[1] * WIDTH + game.hub[0];
    let has_hub = match &game.tiles[hub].building {
        Some(b) => b.kind == Kind::Hub,
        None => false,
    };
    assert(game.tiles@[hub as int]@ == game@.tiles[hub as int]);
    if !has_hub {
        return Err(SnapshotError::NoHub);
    }
    if game.first_order_amount == 0 {
        return Err(SnapshotError::InvalidContract);
    }
    if game.order_index > 1_000_000 {
        return Err(SnapshotError::ProgressionOutOfRange);
    }
    Ok(())
}

/// Ends the assembly a published snapshot came from, once the factory read from its JSON is
/// valid: a valid factory drops the assembly; an invalid one is refused, as
/// `validate_world` refuses it, and the assembly stays as it was.
pub fn settle_assembly(assembly: &mut Option<Assembly>, game: &Game) -> (result: Result<(), SnapshotError>)
    ensures
        match world_refusal(game@) {
            Some(e) => result == Err::<(), SnapshotError>(e) && pending(*final(assembly))
                == pending(*old(assembly)),
            None => result is Ok && *final(assembly) is None,
        },
{
    let checked = validate_world(game);
    if checked.is_ok() {
        *assembly = None;
    }
    checked
}

/// Refuses a packet longer than `MAX_PACKET` bytes.
pub fn check_packet_size(len: usize) -> (result: Result<(), SnapshotError>)
    ensures
        len <= MAX_PACKET ==> result is Ok,
        len > MAX_PACKET ==> result == Err::<(), SnapshotError>(SnapshotError::PacketTooLarge),
{
    if len > MAX_PACKET {
        Err(SnapshotError::PacketTooLarge)
    } else {
        Ok(())
    }
}

/// Refuses a packet from another protocol version or another lobby.
pub fn check_envelope(lobby: u64, protocol: u32, sender_lobby: u64) -> (result: Result<
    (),
    SnapshotError,
>)
    ensures
        (protocol == PROTOCOL && sender_lobby == lobby) ==> result is Ok,
        !(protocol == PROTOCOL && sender_lobby == lobby) ==> result == Err::<(), SnapshotError>(
            SnapshotError::WrongLobby,
        ),
{
    if protocol == PROTOCOL && sender_lobby == lobby {
        Ok(())
    } else {
        Err(SnapshotError::WrongLobby)
    }
}

/// The assembly and the results after receiving `parts` in order, at time `now`, each part's
/// text being ASCII so that its byte length is its character count.
pub open spec fn receive_all(
    a: Option<AssemblyModel>,
    applied: u64,
    parts: Seq<StatePart>,
    now: u64,
) -> (Option<AssemblyModel>, Seq<Result<Option<Seq<u8>>, SnapshotError>>)
    decreases parts.len(),
{
    if parts.len() == 0 {
        (a, seq![])
    } else {
        let (before, results) = receive_all(a, applied, parts.drop_last(), now);
        let p = parts.last();
        let (after, r) = receive_part(
            before,
            applied,
            p.revision,
            p.index,
            p.count,
            p.data@,
            p.data@.len() as usize,
            now,
        );
        (after, results.push(r))
    }
}

/// The parts of `c` that have arrived after the first `k` of `n`.
pub open spec fn filled(c: Seq<u8>, k: int, n: nat) -> Seq<Option<Seq<u8>>> {
    Seq::new(n, |i: int| if i < k { Some(chunk_of(c, i)) } else { None })
}

proof fn lemma_joined_filled(c: Seq<u8>, n: nat, m: nat)
    requires
        0 < c.len() <= MAX_COMPRESSED,
        n == part_count(c.len()),
        m <= n,
    ensures
        joined(filled(c, n as int, n), m) == Ok::<Seq<u8>, SnapshotError>(
            c.take(if m * 8192 <= c.len() { (m * 8192) as int } else { c.len() as int }),
        ),
    decreases m,
{
    if m > 0 {
        lemma_joined_filled(c, n, (m - 1) as nat);
        let i = (m - 1) as int;
        lemma_part_count(c.len() as int, i);
        lemma_chunk_bounds(c.len() as int, i);
        let prev = c.take(i * 8192);
        let next = c.take(if m * 8192 <= c.len() { (m * 8192) as int } else { c.len() as int });
        assert(filled(c, n as int, n)[i] == Some(chunk_of(c, i)));
        assert(prev + chunk_of(c, i) =~= next);
        assert(prev.len() + chunk_of(c, i).len() == next.len());
        assert(next.len() <= MAX_COMPRESSED);
    } else {
        assert(c.take(0) =~= Seq::<u8>::empty());
    }
}

/// Receiving every part of a snapshot in order shows nothing until the last part arrives,
/// then shows exactly the factory that was shared, keeping the complete assembly of its
/// parts until that factory is settled.
/// This holds for parts made by `state_parts` from a factory's JSON that is within
/// `MAX_JSON` bytes, and any revision newer than the one shown.
pub proof fn lemma_parts_round_trip(
    json: Seq<u8>,
    c: Seq<u8>,
    revision: u64,
    parts: Seq<StatePart>,
    applied: u64,
    now: u64,
)
    requires
        inflated_prefix(c, (MAX_JSON + 1) as u64) == Some(json),
        json.len() <= MAX_JSON,
        split_refusal(c) is None,
        splits(parts, revision, c),
        applied < revision,
    ensures
        receive_all(None, applied, parts, now).0 == Some(
            AssemblyModel { revision, chunks: filled(c, parts.len() as int, parts.len()), started: now },
        ),
        receive_all(None, applied, parts, now).1.len() == parts.len(),
        forall|i: int|
            0 <= i < parts.len() - 1 ==> #[trigger] receive_all(None, applied, parts, now).1[i]
                == Ok::<Option<Seq<u8>>, SnapshotError>(None),
        receive_all(None, applied, parts, now).1[parts.len() - 1] == Ok::<
            Option<Seq<u8>>,
            SnapshotError,
        >(Some(json)),
{
    let n = parts.len();
    lemma_part_count(c.len() as int, 0);
    lemma_round_trip_prefix(json, c, revision, parts, applied, now, n);
    assert(parts.take(n as int) =~= parts);
}

proof fn lemma_round_trip_prefix(
    json: Seq<u8>,
    c: Seq<u8>,
    revision: u64,
    parts: Seq<StatePart>,
    applied: u64,
    now: u64,
    k: nat,
)
    requires
        inflated_prefix(c, (MAX_JSON + 1) as u64) == Some(json),
        json.len() <= MAX_JSON,
        split_refusal(c) is None,
        splits(parts, revision, c),
        applied < revision,
        k <= parts.len(),
    ensures
        receive_all(None, applied, parts.take(k as int), now).1.len() == k,
        forall|i: int|
            0 <= i < k && i < parts.len() - 1 ==> #[trigger] receive_all(
                None,
                applied,
                parts.take(k as int),
                now,
            ).1[i] == Ok::<Option<Seq<u8>>, SnapshotError>(None),
        0 < k < parts.len() ==> receive_all(None, applied, parts.take(k as int), now).0 == Some(
            AssemblyModel { revision, chunks: filled(c, k as int, parts.len()), started: now },
        ),
        0 < k == parts.len() ==> receive_all(None, applied, parts.take(k as int), now).0 == Some(
            AssemblyModel { revision, chunks: filled(c, k as int, parts.len()), started: now },
        ),
        k == parts.len() ==> receive_all(None, applied, parts.take(k as int), now).1[k - 1]
            == Ok::<Option<Seq<u8>>, SnapshotError>(Some(json)),
    decreases k,
{
    let n = parts.len();
    lemma_part_count(c.len() as int, 0);
    if k > 0 {
        let j = (k - 1) as int;
        lemma_round_trip_prefix(json, c, revision, parts, applied, now, (k - 1) as nat);
        let prefix = parts.take(k as int);
        assert(prefix.drop_last() =~= parts.take(j));
        assert(prefix.last() == parts[j]);
        let (before, results) = receive_all(None, applied, parts.take(j), now);
        let p = parts[j];
        lemma_part_count(c.len() as int, j);
        lemma_chunk_bounds(c.len() as int, j);
        assert(chunk_of(c, j).len() <= CHUNK_BYTES);
        let current = AssemblyModel {
            revision,
            chunks: filled(c, j, n),
            started: now,
        };
        if j == 0 {
            assert(Seq::new(p.count as nat, |i: int| None::<Seq<u8>>) =~= filled(c, 0, n));
        }
        assert(current.chunks[j] is None);
        let next_chunks = current.chunks.update(j, Some(chunk_of(c, j)));
        assert(next_chunks =~= filled(c, k as int, n));
        if k < n {
            assert(!complete(next_chunks)) by {
                assert(next_chunks[k as int] is None);
            }
        } else {
            assert(complete(next_chunks));
            lemma_joined_filled(c, n, n);
            assert(c.take(c.len() as int) =~= c);
            assert(n * 8192 >= c.len());
        }
    }
}

/// Whether part `j` is among the first `i` arrivals, `order` giving which part each
/// arrival is.
pub open spec fn arrived(order: Seq<int>, i: int, j: int) -> bool {
    exists|t: int| 0 <= t < i && order[t] == j
}

/// Whether every one of the `n` parts is among the first `i` arrivals.
pub open spec fn all_arrived(order: Seq<int>, i: int, n: nat) -> bool {
    forall|j: int| 0 <= j < n ==> arrived(order, i, j)
}

/// The parts of `c` held after the first `i` arrivals.
pub open spec fn gathered(c: Seq<u8>, order: Seq<int>, i: int, n: nat) -> Seq<Option<Seq<u8>>> {
    Seq::new(n, |j: int| if arrived(order, i, j) { Some(chunk_of(c, j)) } else { None })
}

/// The parts, in the order they arrive.
pub open spec fn arrivals(parts: Seq<StatePart>, order: Seq<int>) -> Seq<StatePart> {
    Seq::new(order.len(), |t: int| parts[order[t]])
}

proof fn lemma_any_order_prefix(
    json: Seq<u8>,
    c: Seq<u8>,
    revision: u64,
    parts: Seq<StatePart>,
    order: Seq<int>,
    last: int,
    applied: u64,
    now: u64,
    i: int,
)
    requires
        inflated_prefix(c, (MAX_JSON + 1) as u64) == Some(json),
        json.len() <= MAX_JSON,
        split_refusal(c) is None,
        splits(parts, revision, c),
        applied < revision,
        forall|t: int| 0 <= t < order.len() ==> 0 <= #[trigger] order[t] < parts.len(),
        0 <= last < order.len(),
        !all_arrived(order, last, parts.len()),
        all_arrived(order, last + 1, parts.len()),
        0 <= i <= last + 1,
    ensures
        ({
            let r = receive_all(None, applied, arrivals(parts, order).take(i), now);
            &&& r.1.len() == i
            &&& forall|t: int| 0 <= t < i && t < last ==> #[trigger] r.1[t] == Ok::<Option<Seq<u8>>, SnapshotError>(None)
            &&& i > 0 ==> r.0 == Some(AssemblyModel { revision, chunks: gathered(c, order, i, parts.len()), started: now })
            &&& i == last + 1 ==> r.1[last] == Ok::<Option<Seq<u8>>, SnapshotError>(Some(json))
        }),
    decreases i,
{
    let n = parts.len();
    let seq = arrivals(parts, order);
    lemma_part_count(c.len() as int, 0);
    if i > 0 {
        let t = i - 1;
        lemma_any_order_prefix(json, c, revision, parts, order, last, applied, now, t);
        let prefix = seq.take(i);
        assert(prefix.drop_last() =~= seq.take(t));
        let p = parts[order[t]];
        assert(prefix.last() == p);
        let j = order[t];
        lemma_part_count(c.len() as int, j);
        lemma_chunk_bounds(c.len() as int, j);
        assert(chunk_of(c, j).len() <= CHUNK_BYTES);
        let before = gathered(c, order, t, n);
        let after = gathered(c, order, i, n);
        if t == 0 {
            assert(Seq::new(p.count as nat, |k: int| None::<Seq<u8>>) =~= before) by {
                assert forall|k: int| 0 <= k < n implies !arrived(order, 0, k) by {}
            }
        }
        assert forall|k: int| 0 <= k < n implies #[trigger] arrived(order, i, k) == (arrived(order, t, k)
            || k == j) by {
            if k == j {
                assert(order[t] == j);
            }
            if arrived(order, i, k) && k != j {
                let w = choose|w: int| 0 <= w < i && order[w] == k;
                assert(w < t);
            }
        }
        if arrived(order, t, j) {
            assert(after =~= before);
            assert(before[j] == Some(chunk_of(c, j)));
        } else {
            assert(after =~= before.update(j, Some(chunk_of(c, j))));
        }
        let (a0, res0) = receive_all(None, applied, seq.take(t), now);
        let rp = receive_part(a0, applied, p.revision, p.index, p.count, p.data@, p.data@.len() as usize, now);
        assert(receive_all(None, applied, prefix, now) == (rp.0, res0.push(rp.1)));
        assert(p.revision == revision && p.index == j && p.count == n);
        assert(base64_decoded(p.data@) == Some(chunk_of(c, j)));
        assert(p.data@.len() <= MAX_PART_TEXT);
        assert(0 < p.count <= MAX_PARTS);
        let current = AssemblyModel { revision, chunks: before, started: now };
        assert(before.len() == n);
        // Whether this arrival completes the set.
        if t < last {
            assert(!all_arrived(order, i, n)) by {
                let k = choose|k: int| 0 <= k < n && !arrived(order, last, k);
                if arrived(order, i, k) {
                    let w = choose|w: int| 0 <= w < i && order[w] == k;
                    assert(arrived(order, last, k));
                }
            }
            let k = choose|k: int| 0 <= k < n && !arrived(order, i, k);
            assert(after[k] is None);
            assert(!complete(after));
            assert(rp.0 == Some(AssemblyModel { revision, chunks: after, started: now }));
            assert(rp.1 == Ok::<Option<Seq<u8>>, SnapshotError>(None));
        } else {
            assert(complete(after)) by {
                assert forall|k: int| 0 <= k < after.len() implies (#[trigger] after[k]) is Some by {
                    assert(arrived(order, last + 1, k));
                }
            }
            assert(after =~= filled(c, n as int, n));
            lemma_joined_filled(c, n, n);
            assert(c.take(c.len() as int) =~= c);
            assert(n * 8192 >= c.len());
            assert(snapshot_json(after) == Ok::<Seq<u8>, SnapshotError>(json));
            assert(!arrived(order, t, j)) by {
                let k = choose|k: int| 0 <= k < n && !arrived(order, last, k);
                assert(arrived(order, last + 1, k));
                let w = choose|w: int| 0 <= w < last + 1 && order[w] == k;
                if w < last {
                    assert(arrived(order, last, k));
                }
                assert(j == k);
            }
            assert(rp.0 == Some(AssemblyModel { revision, chunks: after, started: now }));
            assert(rp.1 == Ok::<Option<Seq<u8>>, SnapshotError>(Some(json)));
        }
    }
}

/// Receiving every part of a shared snapshot, in any order and with repeats, shows nothing
/// until the last missing part arrives, then shows exactly the factory that was shared.
/// `order` names which part each arrival is; `last` is the arrival that brings the last
/// part not yet seen. This holds for parts made by `state_parts` from a factory's JSON
/// within `MAX_JSON` bytes, and any revision newer than the one shown.
pub proof fn lemma_parts_round_trip_any_order(
    json: Seq<u8>,
    c: Seq<u8>,
    revision: u64,
    parts: Seq<StatePart>,
    order: Seq<int>,
    last: int,
    applied: u64,
    now: u64,
)
    requires
        inflated_prefix(c, (MAX_JSON + 1) as u64) == Some(json),
        json.len() <= MAX_JSON,
        split_refusal(c) is None,
        splits(parts, revision, c),
        applied < revision,
        forall|t: int| 0 <= t < order.len() ==> 0 <= #[trigger] order[t] < parts.len(),
        0 <= last < order.len(),
        !all_arrived(order, last, parts.len()),
        all_arrived(order, last + 1, parts.len()),
    ensures
        forall|t: int|
            0 <= t < last ==> #[trigger] receive_all(None, applied, arrivals(parts, order).take(last + 1), now).1[t]
                == Ok::<Option<Seq<u8>>, SnapshotError>(None),
        receive_all(None, applied, arrivals(parts, order).take(last + 1), now).1[last] == Ok::<
            Option<Seq<u8>>,
            SnapshotError,
        >(Some(json)),
{
    lemma_any_order_prefix(json, c, revision, parts, order, last, applied, now, last + 1);
}

/// A part of a revision that is already shown changes nothing and shows nothing.
pub proof fn lemma_shown_revision_ignored(
    a: Option<AssemblyModel>,
    applied: u64,
    revision: u64,
    index: u16,
    count: u16,
    data: Seq<char>,
    data_len: usize,
    now: u64,
)
    requires
        0 < count <= MAX_PARTS,
        index < count,
        revision <= applied,
    ensures
        receive_part(a, applied, revision, index, count, data, data_len, now) == (a, Ok::<
            Option<Seq<u8>>,
            SnapshotError,
        >(None)),
{
}

/// A part of an older revision cannot replace a newer partial assembly, and shows nothing.
pub proof fn lemma_older_part_keeps_newer_assembly(
    part: AssemblyModel,
    applied: u64,
    revision: u64,
    index: u16,
    count: u16,
    data: Seq<char>,
    data_len: usize,
    now: u64,
)
    requires
        receive_part(Some(part), applied, revision, index, count, data, data_len, now).1 is Ok,
        revision < part.revision,
    ensures
        receive_part(Some(part), applied, revision, index, count, data, data_len, now) == (
            Some(part),
            Ok::<Option<Seq<u8>>, SnapshotError>(None),
        ),
{
}

/// Nothing is ever shown from a partial snapshot: a part publishes a factory only when, with
/// it, every part of its revision has arrived, and what is published is exactly what those
/// parts decompress to. The complete assembly is kept until the factory is settled.
pub proof fn lemma_only_complete_snapshots_publish(
    a: Option<AssemblyModel>,
    applied: u64,
    revision: u64,
    index: u16,
    count: u16,
    data: Seq<char>,
    data_len: usize,
    now: u64,
)
    requires
        receive_part(a, applied, revision, index, count, data, data_len, now).1 matches Ok(Some(
            _,
        )),
    ensures
        receive_part(a, applied, revision, index, count, data, data_len, now).0 matches Some(p)
            && p.revision == revision && p.chunks.len() == count && complete(p.chunks),
        exists|chunks: Seq<Option<Seq<u8>>>|
            chunks.len() == count && complete(chunks) && chunks[index as int]
                == base64_decoded(data) && receive_part(
                a,
                applied,
                revision,
                index,
                count,
                data,
                data_len,
                now,
            ).1 == match snapshot_json(chunks) {
                Ok(j) => Ok::<Option<Seq<u8>>, SnapshotError>(Some(j)),
                Err(e) => Err(e),
            },
{
    let chunk = base64_decoded(data)->0;
    let current = match a {
        Some(part) => if revision > part.revision {
            AssemblyModel {
                revision,
                chunks: Seq::new(count as nat, |i: int| None),
                started: now,
            }
        } else {
            part
        },
        None => AssemblyModel {
            revision,
            chunks: Seq::new(count as nat, |i: int| None),
            started: now,
        },
    };
    let chunks = current.chunks.update(index as int, Some(chunk));
    assert(chunks[index as int] == Some(chunk));
}

/// Whether the assembly already holds part `index` of `revision`, of `count` parts, with
/// bytes other than what `data` decodes to (a part of at most `CHUNK_BYTES` bytes).
pub open spec fn conflicting_part(a: Option<AssemblyModel>, revision: u64, index: u16, count: u16, data: Seq<char>) -> bool {
    match (a, base64_decoded(data)) {
        (Some(p), Some(chunk)) => {
            &&& chunk.len() <= CHUNK_BYTES
            &&& p.revision == revision
            &&& p.chunks.len() == count
            &&& match p.chunks[index as int] {
                Some(previous) => previous != chunk,
                None => false,
            }
        },
        _ => false,
    }
}

/// A malformed part is refused and changes nothing: a part count of zero or above the
/// limit, or an index not below the count, is an invalid part; a part that repeats one the
/// assembly already holds, with other bytes, is a conflicting duplicate.
pub proof fn lemma_refused_parts(
    a: Option<AssemblyModel>,
    applied: u64,
    revision: u64,
    index: u16,
    count: u16,
    data: Seq<char>,
    data_len: usize,
    now: u64,
)
    ensures
        !(0 < count <= MAX_PARTS && index < count) ==> receive_part(
            a,
            applied,
            revision,
            index,
            count,
            data,
            data_len,
            now,
        ) == (a, Err::<Option<Seq<u8>>, SnapshotError>(SnapshotError::InvalidPart)),
        (0 < count <= MAX_PARTS && index < count && applied < revision && data_len <= MAX_PART_TEXT
            && conflicting_part(a, revision, index, count, data)) ==> receive_part(
            a,
            applied,
            revision,
            index,
            count,
            data,
            data_len,
            now,
        ) == (a, Err::<Option<Seq<u8>>, SnapshotError>(SnapshotError::ConflictingDuplicate)),
{
}

} // verus!
