//! Reading one ZIP entry straight from the archive's bytes, with its
//! declared length, compressed length and CRC-32 checked at its end.

use vstd::prelude::*;
use vstd::slice::SliceAdditionalExecFns;

use crate::events::{is_parse_error, parse_error, spec_decimal, spec_hex_digits, u32_to_hex8, u64_to_decimal, DocxError};
use crate::inflate::DeflateReader;
use crate::io::{invalid_data, io_error_of, IoError, IoErrorKind};
use crate::package::{zip_entries, zip_open, zip_opened, ZipOpenFault};
use crate::text::concat_str;

verus! {

#[verifier::external_type_specification]
#[verifier::external_body]
#[verifier::reject_recursive_types(R)]
pub struct ExDeflateDecoder<R>(flate2::read::DeflateDecoder<R>);

/// `k` rounds of the reflected CRC-32 (IEEE) register shift on `c`.
pub open spec fn crc_shift(c: u32, k: nat) -> u32
    decreases k,
{
    if k == 0 {
        c
    } else {
        crc_shift(if c & 1 == 1 { (c >> 1u32) ^ 0xEDB8_8320u32 } else { c >> 1u32 }, (k - 1) as nat)
    }
}

/// The CRC-32 register after `bytes`, from register `c`.
pub open spec fn crc_register(c: u32, bytes: Seq<u8>) -> u32
    decreases bytes.len(),
{
    if bytes.len() == 0 {
        c
    } else {
        crc_register(crc_shift(c ^ (bytes[0] as u32), 8), bytes.skip(1))
    }
}

/// The CRC-32 (IEEE) of the bytes before `bytes` and `bytes`, from the
/// checksum `prev` of the bytes before.
pub open spec fn crc_extend(prev: u32, bytes: Seq<u8>) -> u32 {
    !crc_register(!prev, bytes)
}

/// The CRC-32 (IEEE) of `bytes`.
pub open spec fn crc32_of(bytes: Seq<u8>) -> u32 {
    crc_extend(0, bytes)
}

proof fn lemma_crc_register_concat(c: u32, a: Seq<u8>, b: Seq<u8>)
    ensures
        crc_register(c, a + b) == crc_register(crc_register(c, a), b),
    decreases a.len(),
{
    if a.len() > 0 {
        assert((a + b).skip(1) =~= a.skip(1) + b);
        assert((a + b)[0] == a[0]);
        lemma_crc_register_concat(crc_shift(c ^ (a[0] as u32), 8), a.skip(1), b);
    } else {
        assert(a + b =~= b);
    }
}

/// Continuing a checksum over `a` and then `b` is the checksum of `a + b`.
proof fn lemma_crc_extend_concat(prev: u32, a: Seq<u8>, b: Seq<u8>)
    ensures
        crc_extend(crc_extend(prev, a), b) == crc_extend(prev, a + b),
{
    let r = crc_register(!prev, a);
    assert(!(!r) == r) by (bit_vector);
    lemma_crc_register_concat(!prev, a, b);
}

/// Continues a CRC-32 (IEEE) over `bytes` from the checksum `prev` of the
/// bytes before them.
///
/// Trusted: wraps `crc32fast::Hasher::new_with_initial(prev)`, `update` and
/// `finalize`; crc32fast keeps the finished checksum as its state (its
/// `update` inverts the state, runs the reflected 0xEDB88320 register over
/// the bytes and inverts again), so the result is the checksum continued.
#[verifier::external_body]
fn crc_continue(prev: u32, bytes: &[u8]) -> (r: u32)
    ensures
        r == crc_extend(prev, bytes@),
{
    let mut h = crc32fast::Hasher::new_with_initial(prev);
    h.update(bytes);
    h.finalize()
}

/// A streaming DEFLATE decoder over `bytes`.
///
/// Trusted: wraps `flate2::read::DeflateDecoder::new` over a cursor; nothing
/// is claimed about the decoder.
#[verifier::external_body]
fn legacy_decoder(bytes: Vec<u8>) -> flate2::read::DeflateDecoder<std::io::Cursor<Vec<u8>>> {
    flate2::read::DeflateDecoder::new(std::io::Cursor::new(bytes))
}

/// Reads decoded bytes into `buf`.
///
/// Trusted: wraps `Read::read` of the decoder; its error is converted. The
/// contract claims what `Read::read` documents: the count is at most the
/// buffer's length.
#[verifier::external_body]
fn legacy_read(d: &mut flate2::read::DeflateDecoder<std::io::Cursor<Vec<u8>>>, buf: &mut [u8]) -> (r: Result<usize, IoError>)
    ensures
        final(buf)@.len() == old(buf)@.len(),
        r matches Ok(n) ==> n <= old(buf)@.len(),
{
    match std::io::Read::read(d, buf) {
        Ok(n) => Ok(n),
        Err(e) => Err(io_error_of(e)),
    }
}

/// The number of compressed bytes the decoder has consumed.
///
/// Trusted: wraps `DeflateDecoder::total_in`; nothing is claimed about it.
#[verifier::external_body]
fn legacy_total_in(d: &flate2::read::DeflateDecoder<std::io::Cursor<Vec<u8>>>) -> u64 {
    d.total_in()
}

/// How an entry's bytes are stored.
#[derive(Debug, Clone, PartialEq, Eq)]
pub enum EntryCompression {
    Stored,
    Deflated,
    /// A method the reader does not decode (its name, as the `zip` crate
    /// prints it).
    Unsupported(String),
}

/// Where an entry's data lies in the archive and what it should decode to.
#[derive(Debug, Clone, PartialEq, Eq)]
pub struct EntryMetadata {
    /// Offset of the entry's compressed bytes.
    pub data_start: u64,
    pub compressed_size: u64,
    pub uncompressed_size: u64,
    pub crc32: u32,
    pub compression: EntryCompression,
}

/// Why an entry's description could not be read.
pub enum EntryLookupFault {
    /// Reading the archive failed (the error's message).
    Io(String),
    /// Any other failure, the entry's absence among them (the error's
    /// message).
    Other(String),
}

/// The description of the entry `name`: its data offset (if known), its
/// compressed and uncompressed sizes, its CRC-32 and its method.
///
/// Trusted: wraps `ZipArchive::by_name` and the entry's `data_start`,
/// `compressed_size`, `size`, `crc32` and `compression`; errors are sorted
/// by variant. The contract claims that only a name the archive holds is
/// found, that an absent name fails as `FileNotFound` (not as an I/O error),
/// and that the entries are left as they were. What the description holds
/// is left unsaid.
#[verifier::external_body]
fn zip_entry_info(archive: &mut zip::ZipArchive<std::io::Cursor<Vec<u8>>>, name: &str) -> (r: Result<(Option<u64>, u64, u64, u32, EntryCompression), EntryLookupFault>)
    ensures
        zip_entries(*final(archive)) == zip_entries(*old(archive)),
        r is Ok ==> zip_entries(*old(archive)).contains_key(name@),
        !zip_entries(*old(archive)).contains_key(name@) ==> r matches Err(EntryLookupFault::Other(_)),
{
    match archive.by_name(name) {
        Ok(f) => Ok((f.data_start(), f.compressed_size(), f.size(), f.crc32(), match f.compression() {
            zip::CompressionMethod::Stored => EntryCompression::Stored,
            zip::CompressionMethod::Deflated => EntryCompression::Deflated,
            c => EntryCompression::Unsupported(format!("{c:?}")),
        })),
        Err(zip::result::ZipError::Io(e)) => Err(EntryLookupFault::Io(e.to_string())),
        Err(e) => Err(EntryLookupFault::Other(e.to_string())),
    }
}

/// The bytes the archive was read from.
///
/// Trusted: wraps `ZipArchive::into_inner` and `Cursor::into_inner`; nothing
/// is claimed about the bytes.
#[verifier::external_body]
fn zip_source_bytes(archive: zip::ZipArchive<std::io::Cursor<Vec<u8>>>) -> Vec<u8> {
    archive.into_inner().into_inner()
}

/// What the description `info` read for entry `name` gives: the entry's
/// metadata when its data offset is known; a parse error naming the entry
/// when it is not; an I/O error as it came; any other failure as a parse
/// error naming the reason.
pub open spec fn metadata_outcome(
    info: Result<(Option<u64>, u64, u64, u32, EntryCompression), EntryLookupFault>,
    name: Seq<char>,
    r: Result<EntryMetadata, DocxError>,
) -> bool {
    match info {
        Ok((Some(d), c, u, crc, comp)) => r == Ok::<EntryMetadata, DocxError>(
            EntryMetadata { data_start: d, compressed_size: c, uncompressed_size: u, crc32: crc, compression: comp },
        ),
        Ok((None, _, _, _, _)) => r is Err && is_parse_error(r->Err_0, "document target has no data offset: "@ + name),
        Err(EntryLookupFault::Io(m)) => r matches Err(DocxError::Io { message }) && message@ == m@,
        Err(EntryLookupFault::Other(m)) => r is Err && is_parse_error(r->Err_0, "document target not found: "@ + m@),
    }
}

/// The metadata of entry `name` from the description `info` read for it.
pub fn metadata_from_entry_info(
    info: Result<(Option<u64>, u64, u64, u32, EntryCompression), EntryLookupFault>,
    name: &str,
) -> (r: Result<EntryMetadata, DocxError>)
    ensures
        metadata_outcome(info, name@, r),
{
    match info {
        Ok((Some(data_start), compressed_size, uncompressed_size, crc32, compression)) => {
            Ok(EntryMetadata { data_start, compressed_size, uncompressed_size, crc32, compression })
        },
        Ok((None, _, _, _, _)) => Err(parse_error(concat_str("document target has no data offset: ", name))),
        Err(EntryLookupFault::Io(m)) => Err(DocxError::Io { message: m }),
        Err(EntryLookupFault::Other(m)) => Err(parse_error(concat_str("document target not found: ", m.as_str()))),
    }
}

/// Reads the description of entry `name`. An entry the archive cannot find
/// is a parse error naming the reason; one without a known data offset is a
/// parse error naming the entry.
pub fn entry_metadata(archive: &mut zip::ZipArchive<std::io::Cursor<Vec<u8>>>, name: &str) -> (r: Result<EntryMetadata, DocxError>)
    ensures
        zip_entries(*final(archive)) == zip_entries(*old(archive)),
        r is Ok ==> zip_entries(*old(archive)).contains_key(name@),
        !zip_entries(*old(archive)).contains_key(name@) ==> r is Err && r->Err_0 is Parse,
        exists|info: Result<(Option<u64>, u64, u64, u32, EntryCompression), EntryLookupFault>|
            #[trigger] metadata_outcome(info, name@, r)
            && (info is Ok ==> zip_entries(*old(archive)).contains_key(name@))
            && (!zip_entries(*old(archive)).contains_key(name@) ==> info matches Err(EntryLookupFault::Other(_))),
{
    let info = zip_entry_info(archive, name);
    let ghost gi = info;
    let r = metadata_from_entry_info(info, name);
    proof {
        assert(metadata_outcome(gi, name@, r));
    }
    r
}

/// The error for bytes that could not be opened as an archive: an I/O
/// error stays one, anything else is a parse error with the reason.
pub fn map_archive_error(f: ZipOpenFault) -> (e: DocxError)
    ensures
        match f {
            ZipOpenFault::NotZip(m) => is_parse_error(e, "not a valid ZIP archive: "@ + m@),
            ZipOpenFault::Other(m) => is_parse_error(e, "not a valid ZIP archive: "@ + m@),
            ZipOpenFault::Io(m) => e == DocxError::Io { message: m },
        },
{
    match f {
        ZipOpenFault::NotZip(m) => parse_error(concat_str("not a valid ZIP archive: ", m.as_str())),
        ZipOpenFault::Other(m) => parse_error(concat_str("not a valid ZIP archive: ", m.as_str())),
        ZipOpenFault::Io(m) => DocxError::Io { message: m },
    }
}

/// The compressed bytes of an entry as a reader positioned at `start` and
/// limited to `len` bytes finds them in `source`.
pub open spec fn entry_window(source: Seq<u8>, start: u64, len: u64) -> Seq<u8> {
    let s: int = if start as int > source.len() { source.len() as int } else { start as int };
    let e: int = if start + len > source.len() { source.len() as int } else { start + len };
    source.subrange(s, e)
}

fn window_bytes(source: &Vec<u8>, start: u64, len: u64) -> (r: Vec<u8>)
    ensures
        r@ == entry_window(source@, start, len),
{
    let n = source.len();
    let s: usize = if start as u128 > n as u128 { n } else { start as usize };
    let e: usize = if start as u128 + len as u128 > n as u128 { n } else { (start + len) as usize };
    let mut r: Vec<u8> = Vec::new();
    let mut i: usize = s;
    while i < e
        invariant
            s <= i <= e,
            e <= source@.len(),
            r@ == source@.subrange(s as int, i as int),
        decreases e - i,
    {
        r.push(source[i]);
        i = i + 1;
        assert(r@ =~= source@.subrange(s as int, i as int));
    }
    r
}

/// The decoder an entry is read through.
enum EntryReader {
    /// Stored bytes, and how many of them have been read.
    Stored { bytes: Vec<u8>, pos: usize },
    /// A deflated entry read without the strict end checks.
    DeflatedLegacy { decoder: flate2::read::DeflateDecoder<std::io::Cursor<Vec<u8>>> },
    /// A deflated entry read with truncation and stalls reported.
    DeflatedStrict { reader: DeflateReader },
}

/// One entry of an archive, read from the archive's bytes. With integrity
/// checks on, its end is reached only once the declared length, the
/// declared compressed length and the CRC-32 all match what was read.
pub struct StreamingArchive {
    reader: EntryReader,
    compressed_size: u64,
    uncompressed_size: u64,
    bytes_read: u64,
    expected_crc32: u32,
    /// The CRC-32 of the bytes returned so far.
    crc32: u32,
    verified: bool,
    verify_integrity: bool,
    returned: Ghost<Seq<u8>>,
    consumed: Ghost<Seq<u8>>,
    window: Ghost<Seq<u8>>,
}

/// The message of a length mismatch at the end of an entry.
pub open spec fn length_mismatch_message(expected: u64, read: u64) -> Seq<char> {
    "ZIP entry length mismatch: expected "@ + spec_decimal(expected as nat) + ", read "@ + spec_decimal(read as nat)
}

fn concat3(a: &str, b: &str, c: &str) -> (r: String)
    ensures
        r@ == a@ + b@ + c@,
{
    let ab = concat_str(a, b);
    concat_str(ab.as_str(), c)
}

fn concat4(a: &str, b: &str, c: &str, d: &str) -> (r: String)
    ensures
        r@ == a@ + b@ + c@ + d@,
{
    let abc = concat3(a, b, c);
    concat_str(abc.as_str(), d)
}

/// What opening entry `m` over `source` gives, with the end checks on when
/// `verify` holds: as [`StreamingArchive::from_source`] states it.
pub open spec fn from_source_outcome(source: Seq<u8>, m: EntryMetadata, verify: bool, r: Result<StreamingArchive, DocxError>) -> bool {
    &&& (verify && m.data_start + m.compressed_size > u64::MAX ==> r is Err
        && is_parse_error(r->Err_0, "ZIP entry boundary overflow"@))
    &&& (verify && m.data_start + m.compressed_size <= u64::MAX
        && m.data_start + m.compressed_size > source.len() ==> r is Err
        && is_parse_error(r->Err_0, "ZIP entry exceeds archive boundary"@))
    &&& (!(verify && m.data_start + m.compressed_size > source.len()) ==> match m.compression {
        EntryCompression::Unsupported(method) => r is Err && is_parse_error(r->Err_0, "unsupported ZIP compression method: "@ + method@),
        _ => (r matches Ok(a) && {
            &&& a.wf()
            &&& a.returned() == Seq::<u8>::empty()
            &&& a.consumed() == Seq::<u8>::empty()
            &&& a.compressed_bytes() == entry_window(source, m.data_start, m.compressed_size)
            &&& a.is_stored() == (m.compression is Stored)
            &&& a.checks_integrity() == verify
            &&& !a.at_end()
            &&& a.declared_len() == m.uncompressed_size
            &&& a.declared_crc() == m.crc32
        }),
    })
}

/// What opening an entry gives from the metadata result `mr`: the error it
/// holds, or what opening the entry over `source` gives.
pub open spec fn opened_from(mr: Result<EntryMetadata, DocxError>, source: Seq<u8>, verify: bool, r: Result<StreamingArchive, DocxError>) -> bool {
    match mr {
        Ok(m) => from_source_outcome(source, m, verify, r),
        Err(e) => r == Err::<StreamingArchive, DocxError>(e),
    }
}

impl StreamingArchive {
    /// The reader's invariant.
    pub closed spec fn wf(&self) -> bool {
        &&& self.verify_integrity ==> {
            &&& self.crc32 == crc32_of(self.returned@)
            &&& self.bytes_read == self.returned@.len()
            &&& self.bytes_read <= self.uncompressed_size
            &&& self.verified ==> self.returned@.len() == self.uncompressed_size
                && crc32_of(self.returned@) == self.expected_crc32
                && (self.reader is Stored ==> self.consumed@.len() == self.compressed_size)
                && (self.reader matches EntryReader::DeflatedStrict { reader } ==> (reader.consumed().len() <= u64::MAX
                    ==> reader.consumed().len() == self.compressed_size))
            &&& !(self.reader is DeflatedLegacy)
        }
        &&& match self.reader {
            EntryReader::Stored { bytes, pos } => {
                &&& pos <= bytes@.len()
                &&& bytes@ == self.window@
                &&& self.consumed@ == bytes@.take(pos as int)
                &&& bytes@.len() <= self.compressed_size
            },
            EntryReader::DeflatedStrict { reader } => reader.wf(),
            EntryReader::DeflatedLegacy { .. } => true,
        }
    }

    /// The bytes returned so far, in order.
    pub closed spec fn returned(&self) -> Seq<u8> {
        self.returned@
    }

    /// The bytes the decoder has handed out so far, those of reads that
    /// then failed a check included.
    pub closed spec fn consumed(&self) -> Seq<u8> {
        self.consumed@
    }

    /// The compressed bytes of the entry as found in the archive.
    pub closed spec fn compressed_bytes(&self) -> Seq<u8> {
        self.window@
    }

    /// The declared compressed length of the entry.
    pub closed spec fn declared_compressed_len(&self) -> u64 {
        self.compressed_size
    }

    /// The compressed bytes the entry's decoder has consumed: for a stored
    /// entry those read, for a deflated one read with integrity checks those
    /// its DEFLATE decoder consumed.
    pub closed spec fn compressed_consumed(&self) -> Seq<u8> {
        match self.reader {
            EntryReader::Stored { bytes, pos } => self.consumed@,
            EntryReader::DeflatedStrict { reader } => reader.consumed(),
            EntryReader::DeflatedLegacy { .. } => Seq::empty(),
        }
    }

    /// Whether the entry is stored without compression.
    pub closed spec fn is_stored(&self) -> bool {
        self.reader is Stored
    }

    /// Whether the end checks run.
    pub closed spec fn checks_integrity(&self) -> bool {
        self.verify_integrity
    }

    /// Whether the end of the entry has been reached (and, with integrity
    /// checks, passed them).
    pub closed spec fn at_end(&self) -> bool {
        self.verified
    }

    /// The declared uncompressed length.
    pub closed spec fn declared_len(&self) -> u64 {
        self.uncompressed_size
    }

    /// The declared CRC-32.
    pub closed spec fn declared_crc(&self) -> u32 {
        self.expected_crc32
    }

    /// A reader of the entry described by `metadata` whose compressed bytes
    /// lie in `source`. With `verify_integrity`, an entry that does not fit
    /// in `source` is an error. A method other than stored or deflated is an
    /// error.
    pub fn from_source(source: Vec<u8>, metadata: EntryMetadata, verify_integrity: bool) -> (r: Result<StreamingArchive, DocxError>)
        ensures
            verify_integrity && metadata.data_start + metadata.compressed_size > u64::MAX ==> r is Err
                && is_parse_error(r->Err_0, "ZIP entry boundary overflow"@),
            verify_integrity && metadata.data_start + metadata.compressed_size <= u64::MAX
                && metadata.data_start + metadata.compressed_size > source@.len() ==> r is Err
                && is_parse_error(r->Err_0, "ZIP entry exceeds archive boundary"@),
            !(verify_integrity && metadata.data_start + metadata.compressed_size > source@.len()) ==> match metadata.compression {
                EntryCompression::Unsupported(m) => r is Err && is_parse_error(r->Err_0, "unsupported ZIP compression method: "@ + m@),
                _ => (r matches Ok(a) && {
                    &&& a.wf()
                    &&& a.returned() == Seq::<u8>::empty()
                    &&& a.consumed() == Seq::<u8>::empty()
                    &&& a.compressed_bytes() == entry_window(source@, metadata.data_start, metadata.compressed_size)
                    &&& a.is_stored() == (metadata.compression is Stored)
                    &&& a.checks_integrity() == verify_integrity
                    &&& !a.at_end()
                    &&& a.declared_len() == metadata.uncompressed_size
                    &&& a.declared_crc() == metadata.crc32
                }),
            },
            from_source_outcome(source@, metadata, verify_integrity, r),
    {
        if verify_integrity {
            let source_length = source.len() as u64;
            let data_end = match metadata.data_start.checked_add(metadata.compressed_size) {
                Some(e) => e,
                None => {
                    return Err(parse_error(String::from_str("ZIP entry boundary overflow")));
                },
            };
            if data_end > source_length {
                return Err(parse_error(String::from_str("ZIP entry exceeds archive boundary")));
            }
        }
        let bytes = window_bytes(&source, metadata.data_start, metadata.compressed_size);
        let ghost window = bytes@;
        let reader = match metadata.compression {
            EntryCompression::Stored => EntryReader::Stored { bytes, pos: 0 },
            EntryCompression::Deflated => {
                if verify_integrity {
                    EntryReader::DeflatedStrict { reader: DeflateReader::new(bytes) }
                } else {
                    EntryReader::DeflatedLegacy { decoder: legacy_decoder(bytes) }
                }
            },
            EntryCompression::Unsupported(m) => {
                return Err(parse_error(concat_str("unsupported ZIP compression method: ", m.as_str())));
            },
        };
        assert(window.take(0) =~= Seq::<u8>::empty());
        assert(crc32_of(Seq::<u8>::empty()) == 0u32) by {
            assert(!(!0u32) == 0u32) by (bit_vector);
        }
        Ok(StreamingArchive {
            reader,
            compressed_size: metadata.compressed_size,
            uncompressed_size: metadata.uncompressed_size,
            bytes_read: 0,
            expected_crc32: metadata.crc32,
            crc32: 0,
            verified: false,
            verify_integrity,
            returned: Ghost(Seq::empty()),
            consumed: Ghost(Seq::empty()),
            window: Ghost(window),
        })
    }

    /// Opens entry `entry_name` of the archive held in `bytes`, without the
    /// end checks.
    pub fn open(bytes: Vec<u8>, entry_name: &str) -> (r: Result<StreamingArchive, DocxError>)
        ensures
            r matches Ok(a) ==> a.wf() && a.returned() == Seq::<u8>::empty() && !a.checks_integrity() && !a.at_end(),
            zip_opened(bytes@) is None ==> r is Err,
            zip_opened(bytes@) matches Some(ent) && !ent.contains_key(entry_name@) ==> r is Err,
            zip_opened(bytes@) matches Some(ent) ==> exists|info: Result<(Option<u64>, u64, u64, u32, EntryCompression), EntryLookupFault>,
                mr: Result<EntryMetadata, DocxError>, src: Seq<u8>|
                #[trigger] metadata_outcome(info, entry_name@, mr)
                && (info is Ok ==> ent.contains_key(entry_name@))
                && #[trigger] opened_from(mr, src, false, r),
    {
        let mut archive = match zip_open(bytes) {
            Ok(a) => a,
            Err(f) => {
                return Err(map_archive_error(f));
            },
        };
        let ghost ent = zip_entries(archive);
        let mr = entry_metadata(&mut archive, entry_name);
        let ghost gmr = mr;
        let metadata = match mr {
            Ok(m) => m,
            Err(e) => {
                proof {
                    let info = choose|info: Result<(Option<u64>, u64, u64, u32, EntryCompression), EntryLookupFault>|
                        #[trigger] metadata_outcome(info, entry_name@, gmr)
                        && (info is Ok ==> ent.contains_key(entry_name@))
                        && (!ent.contains_key(entry_name@) ==> info matches Err(EntryLookupFault::Other(_)));
                    assert(metadata_outcome(info, entry_name@, gmr));
                    assert(opened_from(gmr, Seq::<u8>::empty(), false, Err::<StreamingArchive, DocxError>(e)));
                }
                return Err(e);
            },
        };
        let source = zip_source_bytes(archive);
        let ghost gsrc = source@;
        let r = StreamingArchive::from_source(source, metadata, false);
        proof {
            let info = choose|info: Result<(Option<u64>, u64, u64, u32, EntryCompression), EntryLookupFault>|
                #[trigger] metadata_outcome(info, entry_name@, gmr)
                && (info is Ok ==> ent.contains_key(entry_name@))
                && (!ent.contains_key(entry_name@) ==> info matches Err(EntryLookupFault::Other(_)));
            assert(metadata_outcome(info, entry_name@, gmr) && opened_from(gmr, gsrc, false, r));
        }
        r
    }

    /// Opens entry `entry_name` described by `archive`, reading its bytes
    /// from `source`, with the end checks on.
    pub fn open_from_archive(source: Vec<u8>, archive: &mut zip::ZipArchive<std::io::Cursor<Vec<u8>>>, entry_name: &str) -> (r: Result<StreamingArchive, DocxError>)
        ensures
            zip_entries(*final(archive)) == zip_entries(*old(archive)),
            r is Ok ==> zip_entries(*old(archive)).contains_key(entry_name@),
            r matches Ok(a) ==> a.wf() && a.returned() == Seq::<u8>::empty() && a.checks_integrity() && !a.at_end(),
            exists|info: Result<(Option<u64>, u64, u64, u32, EntryCompression), EntryLookupFault>,
                mr: Result<EntryMetadata, DocxError>|
                #[trigger] metadata_outcome(info, entry_name@, mr)
                && (info is Ok ==> zip_entries(*old(archive)).contains_key(entry_name@))
                && opened_from(mr, source@, true, r),
    {
        let ghost ent = zip_entries(*archive);
        let ghost src = source@;
        let mr = entry_metadata(archive, entry_name);
        let ghost gmr = mr;
        let metadata = match mr {
            Ok(m) => m,
            Err(e) => {
                proof {
                    let info = choose|info: Result<(Option<u64>, u64, u64, u32, EntryCompression), EntryLookupFault>|
                        #[trigger] metadata_outcome(info, entry_name@, gmr)
                        && (info is Ok ==> ent.contains_key(entry_name@))
                        && (!ent.contains_key(entry_name@) ==> info matches Err(EntryLookupFault::Other(_)));
                    assert(metadata_outcome(info, entry_name@, gmr));
                    assert(opened_from(gmr, src, true, Err::<StreamingArchive, DocxError>(e)));
                }
                return Err(e);
            },
        };
        let r = StreamingArchive::from_source(source, metadata, true);
        proof {
            let info = choose|info: Result<(Option<u64>, u64, u64, u32, EntryCompression), EntryLookupFault>|
                #[trigger] metadata_outcome(info, entry_name@, gmr)
                && (info is Ok ==> ent.contains_key(entry_name@))
                && (!ent.contains_key(entry_name@) ==> info matches Err(EntryLookupFault::Other(_)));
            assert(metadata_outcome(info, entry_name@, gmr) && opened_from(gmr, src, true, r));
        }
        r
    }

    /// Runs the end checks: the length read, the compressed length consumed
    /// and the CR-32 of what was read must match the declared ones.
    fn verify_end(&mut self) -> (r: Result<(), IoError>)
        requires
            old(self).wf(),
            old(self).verify_integrity,
        ensures
            final(self).wf(),
            final(self).returned@ == old(self).returned@,
            final(self).consumed@ == old(self).consumed@,
            final(self).window@ == old(self).window@,
            final(self).verify_integrity == old(self).verify_integrity,
            final(self).uncompressed_size == old(self).uncompressed_size,
            final(self).expected_crc32 == old(self).expected_crc32,
            final(self).reader is Stored == old(self).reader is Stored,
            r is Ok ==> final(self).verified
                && old(self).returned@.len() == old(self).uncompressed_size
                && crc32_of(old(self).returned@) == old(self).expected_crc32,
            r is Err ==> final(self).verified == old(self).verified,
            old(self).bytes_read != old(self).uncompressed_size ==> (r matches Err(e) && e.spec_kind() == IoErrorKind::InvalidData
                && e.text() == length_mismatch_message(old(self).uncompressed_size, old(self).bytes_read)),
            r matches Err(e) ==> e.spec_kind() == IoErrorKind::InvalidData,
    {
        if self.bytes_read != self.uncompressed_size {
            let a = u64_to_decimal(self.uncompressed_size);
            let b = u64_to_decimal(self.bytes_read);
            return Err(invalid_data(concat4("ZIP entry length mismatch: expected ", a.as_str(), ", read ", b.as_str())));
        }
        let compressed_read: u64 = match &self.reader {
            EntryReader::Stored { bytes, pos } => *pos as u64,
            EntryReader::DeflatedLegacy { decoder } => legacy_total_in(decoder),
            EntryReader::DeflatedStrict { reader } => reader.total_in(),
        };
        if compressed_read != self.compressed_size {
            let a = u64_to_decimal(self.compressed_size);
            let b = u64_to_decimal(compressed_read);
            return Err(invalid_data(concat4("ZIP compressed length mismatch: expected ", a.as_str(), ", read ", b.as_str())));
        }
        let actual = self.crc32;
        if actual != self.expected_crc32 {
            let a = u32_to_hex8(self.expected_crc32);
            let b = u32_to_hex8(actual);
            return Err(invalid_data(concat4("ZIP entry CRC mismatch: expected ", a.as_str(), ", calculated ", b.as_str())));
        }
        self.verified = true;
        Ok(())
    }

    /// Reads bytes of the entry into `buf`: their number, 0 at its end.
    /// With integrity checks, reading past the declared length is invalid
    /// data, and the end is reported only once the end checks pass; a stored
    /// entry returns its bytes as they are.
    pub fn read(&mut self, buf: &mut [u8]) -> (r: Result<usize, IoError>)
        requires
            old(self).wf(),
        ensures
            final(self).wf(),
            final(self).compressed_bytes() == old(self).compressed_bytes(),
            final(self).checks_integrity() == old(self).checks_integrity(),
            final(self).is_stored() == old(self).is_stored(),
            final(self).declared_len() == old(self).declared_len(),
            final(self).declared_crc() == old(self).declared_crc(),
            final(buf)@.len() == old(buf)@.len(),
            old(self).at_end() ==> final(self).at_end(),
            (old(self).at_end() || old(buf)@.len() == 0) ==> r == Ok::<usize, IoError>(0) && final(self).returned() == old(self).returned(),
            r matches Ok(n) ==> n <= old(buf)@.len() && final(self).returned() == old(self).returned() + final(buf)@.take(n as int),
            r is Err ==> final(self).returned() == old(self).returned(),
            r == Ok::<usize, IoError>(0) && old(buf)@.len() > 0 ==> final(self).at_end(),
            final(self).at_end() && final(self).checks_integrity() ==> {
                &&& final(self).returned().len() == final(self).declared_len()
                &&& crc32_of(final(self).returned()) == final(self).declared_crc()
                &&& final(self).is_stored() ==> final(self).consumed().len() == final(self).compressed_bytes().len()
                &&& final(self).compressed_consumed().len() <= u64::MAX
                    ==> final(self).compressed_consumed().len() == final(self).declared_compressed_len()
            },
            r matches Ok(n) ==> final(self).consumed() == old(self).consumed() + final(buf)@.take(n as int),
            final(self).consumed().len() >= old(self).consumed().len(),
            old(self).is_stored() ==> final(self).consumed() == final(self).compressed_bytes().take(final(self).consumed().len() as int),
    {
        if self.verified || buf.len() == 0 {
            return Ok(0);
        }
        let ghost before = self.returned@;
        let count = match &mut self.reader {
            EntryReader::Stored { bytes, pos } => {
                let ghost p0 = *pos as int;
                let n = stored_read(bytes, pos, buf);
                assert(bytes@.take(*pos as int) =~= bytes@.take(p0) + buf@.take(n as int));
                n
            },
            EntryReader::DeflatedLegacy { decoder } => legacy_read(decoder, buf)?,
            EntryReader::DeflatedStrict { reader } => reader.read(buf)?,
        };
        proof { self.consumed@ = self.consumed@ + buf@.take(count as int); }
        if count == 0 {
            if self.verify_integrity {
                self.verify_end()?;
            } else {
                self.verified = true;
            }
            assert(buf@.take(0) =~= Seq::<u8>::empty());
            assert(self.returned@ =~= before + buf@.take(0));
            return Ok(0);
        }
        if !self.verify_integrity {
            proof { self.returned@ = before + buf@.take(count as int); }
            return Ok(count);
        }
        let next = match self.bytes_read.checked_add(count as u64) {
            Some(n) => n,
            None => {
                return Err(invalid_data(String::from_str("ZIP entry length overflow")));
            },
        };
        if next > self.uncompressed_size {
            let a = u64_to_decimal(self.uncompressed_size);
            return Err(invalid_data(concat_str("ZIP entry exceeds declared length ", a.as_str())));
        }
        let bytes = vstd::slice::slice_subrange(buf, 0, count);
        proof { lemma_crc_extend_concat(0, self.returned@, bytes@); }
        self.crc32 = crc_continue(self.crc32, bytes);
        self.bytes_read = next;
        proof { self.returned@ = before + buf@.take(count as int); }
        Ok(count)
    }
}

/// Copies the next stored bytes into `buf`: as many as fit and remain.
fn stored_read(bytes: &Vec<u8>, pos: &mut usize, buf: &mut [u8]) -> (n: usize)
    requires
        *old(pos) <= bytes@.len(),
    ensures
        n == (if old(buf)@.len() < bytes@.len() - *old(pos) { old(buf)@.len() as int } else { bytes@.len() - *old(pos) }),
        *final(pos) == *old(pos) + n,
        final(buf)@.len() == old(buf)@.len(),
        final(buf)@.take(n as int) == bytes@.subrange(*old(pos) as int, *old(pos) + n),
{
    let rem: usize = bytes.len() - *pos;
    let n: usize = if buf.len() < rem { buf.len() } else { rem };
    let start: usize = *pos;
    let mut i: usize = 0;
    while i < n
        invariant
            n <= buf@.len(),
            start + n <= bytes.len(),
            i <= n,
            buf@.len() == old(buf)@.len(),
            forall|j: int| 0 <= j < i ==> buf@[j] == bytes@[start + j],
        decreases n - i,
    {
        buf.set(i, bytes[start + i]);
        i = i + 1;
    }
    assert(buf@.take(n as int) =~= bytes@.subrange(start as int, start + n));
    *pos = start + n;
    n
}

} // verus!
