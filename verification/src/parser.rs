//! The streaming four-layer parser: outer blocks are located by their header
//! lengths, their gzip payloads are decompressed, and the decompressed bytes
//! are walked chunk by chunk, sequence by sequence, frame by frame. The
//! whole walk is specified as a mathematical function of the file bytes.

use vstd::prelude::*;
use vstd::slice::slice_subrange;
use crate::bytes_be::{be_u32_of, be_u64_of, read_be_u32};
use crate::data_layer::{
    clone_bytes, effective_len, fram_tag, spec_chunk_header_at, spec_frame_at,
    spec_task_file_header, CanFrame,
    DecompressedHeader, FileHeader, FrameSequenceInfo, ParseError, SpecChunkHeader,
    SpecFileHeader, SpecFrame,
};

verus! {

/// What a byte string decompresses to under gzip, or `None` where it is not
/// a well-formed gzip stream. Decompression is a function of the bytes
/// alone; this name stands for its result.
pub uninterp spec fn gunzip_of(compressed: Seq<u8>) -> Option<Seq<u8>>;

/// Relies on flate2's `read::GzDecoder`: decompressing a byte string is
/// deterministic, yields the bytes that were compressed appended to the
/// given buffer, and fails exactly on malformed input; on failure the
/// buffer may hold a partial prefix.
#[verifier::external_body]
fn gz_decompress_into(compressed: &[u8], out: &mut Vec<u8>) -> (r: Result<(), ()>)
    requires
        old(out)@.len() == 0,
    ensures
        match r {
            Ok(()) => gunzip_of(compressed@) == Some(final(out)@),
            Err(()) => gunzip_of(compressed@) is None,
        },
{
    let mut decoder = flate2::read::GzDecoder::new(std::io::Cursor::new(compressed));
    match std::io::Read::read_to_end(&mut decoder, out) {
        Ok(_) => Ok(()),
        Err(_) => Err(()),
    }
}

/// Relies on flate2's `write::GzEncoder` with the default header: its output
/// is a well-formed gzip stream that decompresses back to the input.
#[verifier::external_body]
fn gz_compress(data: &[u8]) -> (r: Vec<u8>)
    ensures
        gunzip_of(r@) == Some(data@),
{
    let mut encoder =
        flate2::write::GzEncoder::new(Vec::new(), flate2::Compression::default());
    std::io::Write::write_all(&mut encoder, data).expect("writing to a Vec cannot fail");
    encoder.finish().expect("finishing a Vec-backed encoder cannot fail")
}

/// Compresses a payload into a gzip stream that decompresses back to it.
pub fn compress_payload(data: &[u8]) -> (r: Vec<u8>)
    ensures
        gunzip_of(r@) == Some(data@),
{
    gz_compress(data)
}

// ---------------------------------------------------------------------------
// Mathematical model of the four layers.
// ---------------------------------------------------------------------------

/// Image of a parsed frame sequence: its 16-byte header fields and the
/// valid frames of its body.
#[verifier::ext_equal]
pub ghost struct SpecSequenceData {
    /// The preserved 4-byte bus version.
    pub sequence_id: u32,
    /// Sequence timestamp.
    pub timestamp: u64,
    /// Declared body length.
    pub data_length: u32,
    /// The valid frames of the body, in on-disk order.
    pub frames: Seq<SpecFrame>,
}

/// The valid frames of the 24-byte records in `s[lo..hi]`, in order.
/// A record whose data-length code exceeds 8 is dropped; fewer than 24
/// remaining bytes end the walk.
pub open spec fn spec_frames_in(s: Seq<u8>, lo: int, hi: int) -> Seq<SpecFrame>
    decreases hi - lo,
{
    if lo < 0 || lo + 24 > hi || hi > s.len() {
        Seq::empty()
    } else {
        let f = spec_frame_at(s, lo);
        if f.dlc <= 8 {
            seq![f] + spec_frames_in(s, lo + 24, hi)
        } else {
            spec_frames_in(s, lo + 24, hi)
        }
    }
}

/// How many of the 24-byte records in `s[lo..hi]` are invalid (code > 8).
pub open spec fn spec_invalid_in(s: Seq<u8>, lo: int, hi: int) -> nat
    decreases hi - lo,
{
    if lo < 0 || lo + 24 > hi || hi > s.len() {
        0
    } else if s[lo + 12] > 8 {
        1 + spec_invalid_in(s, lo + 24, hi)
    } else {
        spec_invalid_in(s, lo + 24, hi)
    }
}

/// The frame sequences of `s[lo..hi]`: each starts with a 16-byte header
/// whose declared body length must fit in the range; the walk stops at a
/// truncated header or an overlong body.
pub open spec fn spec_sequences_in(s: Seq<u8>, lo: int, hi: int) -> Seq<SpecSequenceData>
    decreases hi - lo,
{
    if lo < 0 || lo + 16 > hi || hi > s.len() {
        Seq::empty()
    } else {
        let dl = be_u32_of(s, lo + 12);
        if lo + 16 + dl > hi {
            Seq::empty()
        } else {
            seq![
                SpecSequenceData {
                    sequence_id: be_u32_of(s, lo) as u32,
                    timestamp: be_u64_of(s, lo + 4) as u64,
                    data_length: dl as u32,
                    frames: spec_frames_in(s, lo + 16, lo + 16 + dl),
                },
            ] + spec_sequences_in(s, lo + 16 + dl, hi)
        }
    }
}

/// Invalid-frame count over all sequences of `s[lo..hi]`.
pub open spec fn spec_invalid_in_seqs(s: Seq<u8>, lo: int, hi: int) -> nat
    decreases hi - lo,
{
    if lo < 0 || lo + 16 > hi || hi > s.len() {
        0
    } else {
        let dl = be_u32_of(s, lo + 12);
        if lo + 16 + dl > hi {
            0
        } else {
            spec_invalid_in(s, lo + 16, lo + 16 + dl) + spec_invalid_in_seqs(s, lo + 16 + dl, hi)
        }
    }
}

/// Valid-frame count over all sequences of `s[lo..hi]`.
pub open spec fn spec_frame_count_in_seqs(s: Seq<u8>, lo: int, hi: int) -> nat
    decreases hi - lo,
{
    if lo < 0 || lo + 16 > hi || hi > s.len() {
        0
    } else {
        let dl = be_u32_of(s, lo + 12);
        if lo + 16 + dl > hi {
            0
        } else {
            spec_frames_in(s, lo + 16, lo + 16 + dl).len() + spec_frame_count_in_seqs(
                s,
                lo + 16 + dl,
                hi,
            )
        }
    }
}

/// One chunk of decompressed bytes: its header and its parsed sequences.
#[verifier::ext_equal]
pub ghost struct SpecChunkData {
    /// The 20-byte chunk header.
    pub header: SpecChunkHeader,
    /// The sequences of the chunk body.
    pub sequences: Seq<SpecSequenceData>,
}

/// The chunks of the decompressed bytes `dec` from offset `lo` on. The walk
/// stops at a truncated header, a tag other than `FRAM`, or a body length
/// past the end.
pub open spec fn spec_chunks_in(dec: Seq<u8>, lo: int) -> Seq<SpecChunkData>
    decreases dec.len() - lo,
{
    if lo < 0 || lo + 20 > dec.len() {
        Seq::empty()
    } else {
        let hdr = spec_chunk_header_at(dec, lo);
        if hdr.data_type != fram_tag() {
            Seq::empty()
        } else if lo + 20 + hdr.data_length > dec.len() {
            Seq::empty()
        } else {
            seq![
                SpecChunkData {
                    header: hdr,
                    sequences: spec_sequences_in(dec, lo + 20, lo + 20 + hdr.data_length),
                },
            ] + spec_chunks_in(dec, lo + 20 + hdr.data_length)
        }
    }
}

/// Whether the chunk walk from `lo` ends at a tag error rather than at a
/// clean end (truncated header or overlong body).
pub open spec fn spec_chunks_tag_error(dec: Seq<u8>, lo: int) -> bool
    decreases dec.len() - lo,
{
    if lo < 0 || lo + 20 > dec.len() {
        false
    } else {
        let hdr = spec_chunk_header_at(dec, lo);
        if hdr.data_type != fram_tag() {
            true
        } else if lo + 20 + hdr.data_length > dec.len() {
            false
        } else {
            spec_chunks_tag_error(dec, lo + 20 + hdr.data_length)
        }
    }
}

/// Invalid-frame count over all chunks of `dec` from `lo` on.
pub open spec fn spec_invalid_in_chunks(dec: Seq<u8>, lo: int) -> nat
    decreases dec.len() - lo,
{
    if lo < 0 || lo + 20 > dec.len() {
        0
    } else {
        let hdr = spec_chunk_header_at(dec, lo);
        if hdr.data_type != fram_tag() {
            0
        } else if lo + 20 + hdr.data_length > dec.len() {
            0
        } else {
            spec_invalid_in_seqs(dec, lo + 20, lo + 20 + hdr.data_length)
                + spec_invalid_in_chunks(dec, lo + 20 + hdr.data_length)
        }
    }
}

/// Valid-frame count over all chunks of `dec` from `lo` on.
pub open spec fn spec_frame_count_in_chunks(dec: Seq<u8>, lo: int) -> nat
    decreases dec.len() - lo,
{
    if lo < 0 || lo + 20 > dec.len() {
        0
    } else {
        let hdr = spec_chunk_header_at(dec, lo);
        if hdr.data_type != fram_tag() {
            0
        } else if lo + 20 + hdr.data_length > dec.len() {
            0
        } else {
            spec_frame_count_in_seqs(dec, lo + 20, lo + 20 + hdr.data_length)
                + spec_frame_count_in_chunks(dec, lo + 20 + hdr.data_length)
        }
    }
}

/// Sequence count over all chunks of `dec` from `lo` on.
pub open spec fn spec_seq_count_in_chunks(dec: Seq<u8>, lo: int) -> nat
    decreases dec.len() - lo,
{
    if lo < 0 || lo + 20 > dec.len() {
        0
    } else {
        let hdr = spec_chunk_header_at(dec, lo);
        if hdr.data_type != fram_tag() {
            0
        } else if lo + 20 + hdr.data_length > dec.len() {
            0
        } else {
            spec_sequences_in(dec, lo + 20, lo + 20 + hdr.data_length).len()
                + spec_seq_count_in_chunks(dec, lo + 20 + hdr.data_length)
        }
    }
}

/// Image of one parsed chunk of one outer block: the preserved serial, the
/// engine's reading of the file header, the chunk header, and the sequences.
#[verifier::ext_equal]
pub ghost struct SpecParsedFile {
    /// The 18-byte serial of the outer block.
    pub serial: Seq<u8>,
    /// The engine's reading of the 35-byte file header.
    pub file_header: SpecFileHeader,
    /// The chunk header.
    pub chunk_header: SpecChunkHeader,
    /// The parsed sequences of the chunk body.
    pub sequences: Seq<SpecSequenceData>,
}

/// The parsed entry that one chunk of one block contributes.
pub open spec fn spec_file_entry(serial: Seq<u8>, comp_len: u32, c: SpecChunkData) -> SpecParsedFile {
    SpecParsedFile {
        serial,
        file_header: spec_task_file_header(comp_len),
        chunk_header: c.header,
        sequences: c.sequences,
    }
}

/// The entries that one block's chunks contribute, in chunk order.
pub open spec fn spec_block_files(serial: Seq<u8>, comp_len: u32, chunks: Seq<SpecChunkData>) -> Seq<
    SpecParsedFile,
> {
    chunks.map_values(|c: SpecChunkData| spec_file_entry(serial, comp_len, c))
}

/// The parsed entries of the whole file from offset `off` on: per outer
/// block, the entries of its decompressed chunks; a block whose payload does
/// not decompress contributes none; the walk ends when fewer than 35 bytes
/// remain or the declared payload runs past the end.
pub open spec fn spec_blocks_in(file: Seq<u8>, off: int) -> Seq<SpecParsedFile>
    decreases file.len() - off,
{
    if off < 0 || off + 35 > file.len() {
        Seq::empty()
    } else {
        let cl = be_u32_of(file, off + 31);
        if off + 35 + cl > file.len() {
            Seq::empty()
        } else {
            let rest = spec_blocks_in(file, off + 35 + cl);
            match gunzip_of(file.subrange(off + 35, off + 35 + cl)) {
                Option::None => rest,
                Option::Some(dec) => spec_block_files(
                    file.subrange(off, off + 18),
                    cl as u32,
                    spec_chunks_in(dec, 0),
                ) + rest,
            }
        }
    }
}

/// Invalid-frame count over all blocks of `file` from `off` on.
pub open spec fn spec_invalid_in_blocks(file: Seq<u8>, off: int) -> nat
    decreases file.len() - off,
{
    if off < 0 || off + 35 > file.len() {
        0
    } else {
        let cl = be_u32_of(file, off + 31);
        if off + 35 + cl > file.len() {
            0
        } else {
            let rest = spec_invalid_in_blocks(file, off + 35 + cl);
            match gunzip_of(file.subrange(off + 35, off + 35 + cl)) {
                Option::None => rest,
                Option::Some(dec) => spec_invalid_in_chunks(dec, 0) + rest,
            }
        }
    }
}

/// Valid-frame count over all blocks of `file` from `off` on.
pub open spec fn spec_frame_count_in_blocks(file: Seq<u8>, off: int) -> nat
    decreases file.len() - off,
{
    if off < 0 || off + 35 > file.len() {
        0
    } else {
        let cl = be_u32_of(file, off + 31);
        if off + 35 + cl > file.len() {
            0
        } else {
            let rest = spec_frame_count_in_blocks(file, off + 35 + cl);
            match gunzip_of(file.subrange(off + 35, off + 35 + cl)) {
                Option::None => rest,
                Option::Some(dec) => spec_frame_count_in_chunks(dec, 0) + rest,
            }
        }
    }
}

/// Sequence count over all blocks of `file` from `off` on.
pub open spec fn spec_seq_count_in_blocks(file: Seq<u8>, off: int) -> nat
    decreases file.len() - off,
{
    if off < 0 || off + 35 > file.len() {
        0
    } else {
        let cl = be_u32_of(file, off + 31);
        if off + 35 + cl > file.len() {
            0
        } else {
            let rest = spec_seq_count_in_blocks(file, off + 35 + cl);
            match gunzip_of(file.subrange(off + 35, off + 35 + cl)) {
                Option::None => rest,
                Option::Some(dec) => spec_seq_count_in_chunks(dec, 0) + rest,
            }
        }
    }
}

/// Decompressed byte count over all blocks of `file` from `off` on.
pub open spec fn spec_bytes_in_blocks(file: Seq<u8>, off: int) -> nat
    decreases file.len() - off,
{
    if off < 0 || off + 35 > file.len() {
        0
    } else {
        let cl = be_u32_of(file, off + 31);
        if off + 35 + cl > file.len() {
            0
        } else {
            let rest = spec_bytes_in_blocks(file, off + 35 + cl);
            match gunzip_of(file.subrange(off + 35, off + 35 + cl)) {
                Option::None => rest,
                Option::Some(dec) => dec.len() + rest,
            }
        }
    }
}

/// Error count over all blocks of `file` from `off` on: one per payload that
/// fails to decompress and one per chunk walk that stops at a bad tag.
pub open spec fn spec_errors_in_blocks(file: Seq<u8>, off: int) -> nat
    decreases file.len() - off,
{
    if off < 0 || off + 35 > file.len() {
        0
    } else {
        let cl = be_u32_of(file, off + 31);
        if off + 35 + cl > file.len() {
            0
        } else {
            let rest = spec_errors_in_blocks(file, off + 35 + cl);
            match gunzip_of(file.subrange(off + 35, off + 35 + cl)) {
                Option::None => 1 + rest,
                Option::Some(dec) => (if spec_chunks_tag_error(dec, 0) {
                    1nat
                } else {
                    0nat
                }) + rest,
            }
        }
    }
}

// ---------------------------------------------------------------------------
// Laws of the parsed structures.
// ---------------------------------------------------------------------------

/// Every chunk the parser yields carries the `FRAM` tag: the chunk walk
/// stops at any other tag.
pub proof fn lemma_chunks_tagged(dec: Seq<u8>, lo: int)
    ensures
        forall|k: int|
            0 <= k < spec_chunks_in(dec, lo).len() ==> (#[trigger] spec_chunks_in(
                dec,
                lo,
            )[k]).header.data_type == fram_tag(),
    decreases dec.len() - lo,
{
    if !(lo < 0 || lo + 20 > dec.len()) {
        let hdr = spec_chunk_header_at(dec, lo);
        if hdr.data_type == fram_tag() && lo + 20 + hdr.data_length <= dec.len() {
            lemma_chunks_tagged(dec, lo + 20 + hdr.data_length);
            assert forall|k: int|
                0 <= k < spec_chunks_in(dec, lo).len() implies (#[trigger] spec_chunks_in(
                dec,
                lo,
            )[k]).header.data_type == fram_tag() by {
                if k > 0 {
                    assert(spec_chunks_in(dec, lo)[k] == spec_chunks_in(
                        dec,
                        lo + 20 + hdr.data_length,
                    )[k - 1]);
                }
            }
        }
    }
}

/// Every frame the parser keeps has a data-length code of at most 8 and
/// exactly that many data bytes; a frame with a larger code is dropped and
/// counted, never kept.
pub proof fn lemma_kept_frames_valid(s: Seq<u8>, lo: int, hi: int)
    requires
        hi <= s.len(),
    ensures
        forall|k: int|
            0 <= k < spec_frames_in(s, lo, hi).len() ==> ((#[trigger] spec_frames_in(
                s,
                lo,
                hi,
            )[k]).dlc <= 8 && spec_frames_in(s, lo, hi)[k].data.len() == spec_frames_in(
                s,
                lo,
                hi,
            )[k].dlc),
    decreases hi - lo,
{
    if !(lo < 0 || lo + 24 > hi) {
        lemma_kept_frames_valid(s, lo + 24, hi);
        let f = spec_frame_at(s, lo);
        if f.dlc <= 8 {
            assert(f.data.len() == effective_len(s[lo + 12]));
            assert forall|k: int|
                0 <= k < spec_frames_in(s, lo, hi).len() implies ((#[trigger] spec_frames_in(
                s,
                lo,
                hi,
            )[k]).dlc <= 8 && spec_frames_in(s, lo, hi)[k].data.len() == spec_frames_in(
                s,
                lo,
                hi,
            )[k].dlc) by {
                if k > 0 {
                    assert(spec_frames_in(s, lo, hi)[k] == spec_frames_in(s, lo + 24, hi)[k - 1]);
                }
            }
        } else {
            assert forall|k: int|
                0 <= k < spec_frames_in(s, lo, hi).len() implies ((#[trigger] spec_frames_in(
                s,
                lo,
                hi,
            )[k]).dlc <= 8 && spec_frames_in(s, lo, hi)[k].data.len() == spec_frames_in(
                s,
                lo,
                hi,
            )[k].dlc) by {
                assert(spec_frames_in(s, lo, hi)[k] == spec_frames_in(s, lo + 24, hi)[k]);
            }
        }
    }
}

// ---------------------------------------------------------------------------
// Saturating counters.
// ---------------------------------------------------------------------------

/// `a + b`, saturating at the largest `usize`.
pub open spec fn sat_add(a: int, b: int) -> int {
    if a + b > usize::MAX {
        usize::MAX as int
    } else {
        a + b
    }
}

/// Saturating counter addition.
pub fn usize_sat_add(a: usize, b: usize) -> (r: usize)
    ensures
        r == sat_add(a as int, b as int),
{
    if b > usize::MAX - a {
        usize::MAX
    } else {
        a + b
    }
}

/// Saturating addition takes successive increments to their sum.
pub proof fn lemma_sat_add_assoc(a: int, b: int, c: int)
    requires
        0 <= a,
        0 <= b,
        0 <= c,
    ensures
        sat_add(sat_add(a, b), c) == sat_add(a, b + c),
{
}

// ---------------------------------------------------------------------------
// Executable parser.
// ---------------------------------------------------------------------------

/// Counters the parser keeps while it walks files.
#[derive(Clone, Copy, Debug, PartialEq, Eq)]
pub struct ParsingStats {
    /// Chunks parsed into `ParsedFileData` entries.
    pub files_processed: usize,
    /// Bytes produced by decompression.
    pub bytes_decompressed: usize,
    /// Frame sequences parsed.
    pub sequences_parsed: usize,
    /// Valid frames parsed.
    pub frames_parsed: usize,
    /// Frames dropped for a data-length code over 8.
    pub invalid_frames: usize,
    /// Failed decompressions and chunk walks stopped by a bad tag.
    pub parse_errors: usize,
}

impl Default for ParsingStats {
    /// Fresh counters, all zero.
    fn default() -> (r: ParsingStats)
        ensures
            r == ParsingStats::zero(),
    {
        ParsingStats {
            files_processed: 0,
            bytes_decompressed: 0,
            sequences_parsed: 0,
            frames_parsed: 0,
            invalid_frames: 0,
            parse_errors: 0,
        }
    }
}

impl ParsingStats {
    /// All counters zero.
    pub open spec fn zero() -> ParsingStats {
        ParsingStats {
            files_processed: 0,
            bytes_decompressed: 0,
            sequences_parsed: 0,
            frames_parsed: 0,
            invalid_frames: 0,
            parse_errors: 0,
        }
    }

    /// The counters of two parsers combined, each field the saturating sum.
    pub fn merge(self, other: ParsingStats) -> (r: ParsingStats)
        ensures
            r.files_processed == sat_add(self.files_processed as int, other.files_processed as int),
            r.bytes_decompressed == sat_add(
                self.bytes_decompressed as int,
                other.bytes_decompressed as int,
            ),
            r.sequences_parsed == sat_add(
                self.sequences_parsed as int,
                other.sequences_parsed as int,
            ),
            r.frames_parsed == sat_add(self.frames_parsed as int, other.frames_parsed as int),
            r.invalid_frames == sat_add(self.invalid_frames as int, other.invalid_frames as int),
            r.parse_errors == sat_add(self.parse_errors as int, other.parse_errors as int),
    {
        ParsingStats {
            files_processed: usize_sat_add(self.files_processed, other.files_processed),
            bytes_decompressed: usize_sat_add(self.bytes_decompressed, other.bytes_decompressed),
            sequences_parsed: usize_sat_add(self.sequences_parsed, other.sequences_parsed),
            frames_parsed: usize_sat_add(self.frames_parsed, other.frames_parsed),
            invalid_frames: usize_sat_add(self.invalid_frames, other.invalid_frames),
            parse_errors: usize_sat_add(self.parse_errors, other.parse_errors),
        }
    }
}

/// A parsed frame sequence: its header and its valid frames.
#[derive(Debug)]
pub struct ParsedFrameSequence {
    /// The 16-byte sequence header.
    pub info: FrameSequenceInfo,
    /// The valid frames of the body.
    pub frames: Vec<CanFrame>,
}

impl DeepView for ParsedFrameSequence {
    type V = SpecSequenceData;

    open spec fn deep_view(&self) -> SpecSequenceData {
        SpecSequenceData {
            sequence_id: self.info.sequence_id,
            timestamp: self.info.timestamp,
            data_length: self.info.data_length,
            frames: self.frames.deep_view(),
        }
    }
}

impl DeepView for CanFrame {
    type V = SpecFrame;

    open spec fn deep_view(&self) -> SpecFrame {
        self@
    }
}

/// One chunk of one outer block, fully parsed: the preserved 18-byte serial,
/// the engine's reading of the file header, the chunk header, and the
/// frame sequences of the chunk body.
#[derive(Debug)]
pub struct ParsedFileData {
    /// The 18-byte serial from the start of the outer block.
    pub serial: Vec<u8>,
    /// The engine's reading of the 35-byte file header.
    pub file_header: FileHeader,
    /// The 20-byte chunk header.
    pub decompressed_header: DecompressedHeader,
    /// The parsed sequences of the chunk body.
    pub frame_sequences: Vec<ParsedFrameSequence>,
}

impl DeepView for ParsedFileData {
    type V = SpecParsedFile;

    open spec fn deep_view(&self) -> SpecParsedFile {
        SpecParsedFile {
            serial: self.serial@,
            file_header: self.file_header@,
            chunk_header: self.decompressed_header@,
            sequences: self.frame_sequences.deep_view(),
        }
    }
}

/// Total stored frames over a list of sequences.
pub open spec fn spec_total_frames(s: Seq<SpecSequenceData>) -> nat
    decreases s.len(),
{
    if s.len() == 0 {
        0
    } else {
        s[0].frames.len() + spec_total_frames(s.drop_first())
    }
}

/// Stored frames that are valid, over a list of sequences.
pub open spec fn spec_valid_frames(s: Seq<SpecSequenceData>) -> nat
    decreases s.len(),
{
    if s.len() == 0 {
        0
    } else {
        spec_valid_in_frame_list(s[0].frames) + spec_valid_frames(s.drop_first())
    }
}

/// Valid frames in one frame list.
pub open spec fn spec_valid_in_frame_list(fs: Seq<SpecFrame>) -> nat
    decreases fs.len(),
{
    if fs.len() == 0 {
        0
    } else {
        (if fs[0].dlc <= 8 && fs[0].data.len() <= 8 {
            1nat
        } else {
            0nat
        }) + spec_valid_in_frame_list(fs.drop_first())
    }
}

/// Whether some frame of some sequence carries the given CAN identifier.
pub open spec fn spec_has_can_id(s: Seq<SpecSequenceData>, id: u32) -> bool {
    exists|i: int, j: int|
        0 <= i < s.len() && 0 <= j < s[i].frames.len() && s[i].frames[j].can_id == id
}

impl ParsedFileData {
    /// Counts all stored frames.
    pub fn total_frames(&self) -> (r: usize)
        ensures
            r == sat_add(0, spec_total_frames(self.deep_view().sequences) as int),
    {
        let ghost deep = self.deep_view().sequences;
        proof {
            assert(deep.skip(0) =~= deep);
        }
        let mut r: usize = 0;
        let mut i: usize = 0;
        while i < self.frame_sequences.len()
            invariant
                i <= self.frame_sequences@.len(),
                deep == self.deep_view().sequences,
                deep.len() == self.frame_sequences@.len(),
                sat_add(r as int, spec_total_frames(deep.skip(i as int)) as int) == sat_add(
                    0,
                    spec_total_frames(deep) as int,
                ),
            decreases self.frame_sequences@.len() - i,
        {
            let ghost r_before = r as int;
            proof {
                assert(deep.skip(i as int).drop_first() =~= deep.skip(i + 1));
                assert(deep.skip(i as int)[0] == deep[i as int]);
            }
            r = usize_sat_add(r, self.frame_sequences[i].frames.len());
            proof {
                lemma_sat_add_assoc(
                    r_before,
                    deep[i as int].frames.len() as int,
                    spec_total_frames(deep.skip(i + 1)) as int,
                );
            }
            i = i + 1;
        }
        proof {
            assert(deep.skip(deep.len() as int) =~= Seq::<SpecSequenceData>::empty());
        }
        r
    }

    /// Counts the stored frames that are valid.
    pub fn valid_frames(&self) -> (r: usize)
        ensures
            r == sat_add(0, spec_valid_frames(self.deep_view().sequences) as int),
    {
        let ghost deep = self.deep_view().sequences;
        proof {
            assert(deep.skip(0) =~= deep);
        }
        let mut r: usize = 0;
        let mut i: usize = 0;
        while i < self.frame_sequences.len()
            invariant
                i <= self.frame_sequences@.len(),
                deep == self.deep_view().sequences,
                deep.len() == self.frame_sequences@.len(),
                sat_add(r as int, spec_valid_frames(deep.skip(i as int)) as int) == sat_add(
                    0,
                    spec_valid_frames(deep) as int,
                ),
            decreases self.frame_sequences@.len() - i,
        {
            let ghost r_outer = r as int;
            proof {
                assert(deep.skip(i as int).drop_first() =~= deep.skip(i + 1));
                assert(deep.skip(i as int)[0] == deep[i as int]);
            }
            let ghost fs = deep[i as int].frames;
            let frames = &self.frame_sequences[i].frames;
            proof {
                assert(fs.skip(0) =~= fs);
            }
            let mut j: usize = 0;
            let mut c: usize = 0;
            while j < frames.len()
                invariant
                    j <= frames@.len(),
                    fs == frames.deep_view(),
                    fs.len() == frames@.len(),
                    sat_add(c as int, spec_valid_in_frame_list(fs.skip(j as int)) as int)
                        == sat_add(0, spec_valid_in_frame_list(fs) as int),
                decreases frames@.len() - j,
            {
                let ghost c_before = c as int;
                proof {
                    assert(fs.skip(j as int).drop_first() =~= fs.skip(j + 1));
                    assert(fs.skip(j as int)[0] == fs[j as int]);
                }
                if frames[j].validate() {
                    c = usize_sat_add(c, 1);
                    proof {
                        lemma_sat_add_assoc(
                            c_before,
                            1,
                            spec_valid_in_frame_list(fs.skip(j + 1)) as int,
                        );
                    }
                }
                j = j + 1;
            }
            proof {
                assert(fs.skip(fs.len() as int) =~= Seq::<SpecFrame>::empty());
            }
            r = usize_sat_add(r, c);
            proof {
                lemma_sat_add_assoc(
                    r_outer,
                    spec_valid_in_frame_list(fs) as int,
                    spec_valid_frames(deep.skip(i + 1)) as int,
                );
            }
            i = i + 1;
        }
        proof {
            assert(deep.skip(deep.len() as int) =~= Seq::<SpecSequenceData>::empty());
        }
        r
    }

    /// The distinct CAN identifiers of the stored frames, in strictly
    /// increasing order.
    pub fn unique_can_ids(&self) -> (r: Vec<u32>)
        ensures
            forall|k: int, l: int| 0 <= k < l < r@.len() ==> r@[k] < r@[l],
            forall|id: u32|
                r@.contains(id) <==> spec_has_can_id(self.deep_view().sequences, id),
    {
        let ghost deep = self.deep_view().sequences;
        let mut r: Vec<u32> = Vec::new();
        let mut i: usize = 0;
        while i < self.frame_sequences.len()
            invariant
                i <= self.frame_sequences@.len(),
                deep == self.deep_view().sequences,
                deep.len() == self.frame_sequences@.len(),
                forall|k: int, l: int| 0 <= k < l < r@.len() ==> r@[k] < r@[l],
                forall|id: u32|
                    r@.contains(id) <==> exists|a: int, b: int|
                        0 <= a < i && 0 <= b < deep[a].frames.len() && deep[a].frames[b].can_id
                            == id,
            decreases self.frame_sequences@.len() - i,
        {
            let frames = &self.frame_sequences[i].frames;
            let ghost fs = deep[i as int].frames;
            let mut j: usize = 0;
            while j < frames.len()
                invariant
                    j <= frames@.len(),
                    i < deep.len(),
                    fs == frames.deep_view(),
                    fs == deep[i as int].frames,
                    fs.len() == frames@.len(),
                    forall|k: int, l: int| 0 <= k < l < r@.len() ==> r@[k] < r@[l],
                    forall|id: u32|
                        r@.contains(id) <==> (exists|a: int, b: int|
                            0 <= a < i && 0 <= b < deep[a].frames.len() && deep[a].frames[b].can_id
                                == id) || (exists|b: int|
                            0 <= b < j && fs[b].can_id == id),
                decreases frames@.len() - j,
            {
                let id = frames[j].can_id;
                proof {
                    assert(fs[j as int].can_id == id);
                }
                insert_sorted_unique(&mut r, id);
                j = j + 1;
            }
            i = i + 1;
        }
        r
    }
}

/// Inserts a value into a strictly increasing vector, keeping it strictly
/// increasing; a value already present is left alone.
fn insert_sorted_unique(v: &mut Vec<u32>, x: u32)
    requires
        forall|k: int, l: int| 0 <= k < l < old(v)@.len() ==> old(v)@[k] < old(v)@[l],
    ensures
        forall|k: int, l: int| 0 <= k < l < final(v)@.len() ==> final(v)@[k] < final(v)@[l],
        forall|id: u32| final(v)@.contains(id) <==> (old(v)@.contains(id) || id == x),
{
    let ghost orig = v@;
    let mut pos: usize = 0;
    while pos < v.len() && v[pos as usize] < x
        invariant
            pos <= v@.len(),
            v@ == orig,
            forall|k: int| 0 <= k < pos ==> v@[k] < x,
        decreases v@.len() - pos,
    {
        pos = pos + 1;
    }
    if pos < v.len() {
        let cur = v[pos];
        if cur == x {
            proof {
                assert(v@.contains(x)) by {
                    assert(v@[pos as int] == x);
                }
            }
            return ;
        }
        proof {
            assert(v@[pos as int] > x);
        }
    }
    v.insert(pos, x);
    proof {
        assert forall|id: u32| final(v)@.contains(id) implies (orig.contains(id) || id == x) by {
            let w = choose|w: int| 0 <= w < final(v)@.len() && final(v)@[w] == id;
            if w < pos {
                assert(orig[w] == id);
            } else if w > pos {
                assert(orig[w - 1] == id);
            }
        }
        assert forall|id: u32| (orig.contains(id) || id == x) implies final(v)@.contains(id) by {
            if id == x {
                assert(final(v)@[pos as int] == id);
            } else {
                let w = choose|w: int| 0 <= w < orig.len() && orig[w] == id;
                if w < pos {
                    assert(final(v)@[w] == id);
                } else {
                    assert(final(v)@[w + 1] == id);
                }
            }
        }
        assert forall|k: int, l: int| 0 <= k < l < final(v)@.len() implies final(v)@[k]
            < final(v)@[l] by {
            if k < pos && l == pos {
            } else if k == pos && l > pos {
                assert(final(v)@[l] == orig[l - 1]);
                if l - 1 > pos {
                    assert(orig[pos as int] < orig[l - 1]);
                }
            } else if k < pos && l > pos {
                assert(final(v)@[l] == orig[l - 1]);
            } else if k > pos && l > pos {
                assert(final(v)@[k] == orig[k - 1]);
                assert(final(v)@[l] == orig[l - 1]);
            }
        }
    }
}

// ---------------------------------------------------------------------------
// Zero-copy cursors: each yields offsets and lengths into the caller's
// buffer and advances by exactly the span it reported.
// ---------------------------------------------------------------------------

/// One outer block: its 18-byte serial and the position of its compressed
/// payload in the file buffer.
pub struct CompressedBlock {
    /// The serial from the first 18 header bytes.
    pub serial: Vec<u8>,
    /// Offset of the compressed payload in the file buffer.
    pub start: usize,
    /// Length of the compressed payload.
    pub len: usize,
}

/// Cursor over the outer blocks of a file buffer.
pub struct CompressedBlockIter {
    /// Offset of the next unread block header.
    pub offset: usize,
}

impl CompressedBlockIter {
    /// Whether a whole block lies at `off` in `s`.
    pub open spec fn spec_block_at(s: Seq<u8>, off: int) -> bool {
        &&& 0 <= off
        &&& off + 35 <= s.len()
        &&& off + 35 + be_u32_of(s, off + 31) <= s.len()
    }

    /// Yields the block at the cursor and advances past it by exactly
    /// `35 + compressed_length` bytes, or yields nothing and stays put.
    pub fn next(&mut self, data: &[u8]) -> (r: Option<CompressedBlock>)
        ensures
            Self::spec_block_at(data@, old(self).offset as int) ==> (r matches Some(b)
                && b.serial@ == data@.subrange(
                old(self).offset as int,
                old(self).offset as int + 18,
            ) && b.start == old(self).offset + 35 && b.len == be_u32_of(
                data@,
                old(self).offset as int + 31,
            ) && final(self).offset == old(self).offset + 35 + b.len),
            !Self::spec_block_at(data@, old(self).offset as int) ==> (r is None && *final(self)
                == *old(self)),
    {
        let off = self.offset;
        if data.len() < 35 || off > data.len() - 35 {
            return None;
        }
        let cl = read_be_u32(data, off + 31) as usize;
        if cl > data.len() - off - 35 {
            return None;
        }
        let serial = crate::data_layer::copy_range(data, off, off + 18);
        self.offset = off + 35 + cl;
        Some(CompressedBlock { serial, start: off + 35, len: cl })
    }
}

/// One layer-2 chunk: its header and the position of its body in the
/// decompressed buffer.
pub struct DecompressedChunk {
    /// The 20-byte chunk header.
    pub header: DecompressedHeader,
    /// Offset of the chunk body in the decompressed buffer.
    pub start: usize,
    /// Length of the chunk body.
    pub len: usize,
}

/// Cursor over the chunks of a decompressed buffer.
pub struct DecompressedChunkIter {
    /// Offset of the next unread chunk header.
    pub offset: usize,
}

impl DecompressedChunkIter {
    /// Whether a whole `FRAM` chunk lies at `off` in `s`.
    pub open spec fn spec_chunk_at(s: Seq<u8>, off: int) -> bool {
        &&& 0 <= off
        &&& off + 20 <= s.len()
        &&& spec_chunk_header_at(s, off).data_type == fram_tag()
        &&& off + 20 + be_u32_of(s, off + 16) <= s.len()
    }

    /// Yields the chunk at the cursor and advances past it by exactly
    /// `20 + data_length` bytes, or yields nothing and stays put.
    pub fn next(&mut self, data: &[u8]) -> (r: Option<DecompressedChunk>)
        ensures
            Self::spec_chunk_at(data@, old(self).offset as int) ==> (r matches Some(c)
                && c.header@ == spec_chunk_header_at(data@, old(self).offset as int) && c.start
                == old(self).offset + 20 && c.len == be_u32_of(
                data@,
                old(self).offset as int + 16,
            ) && final(self).offset == old(self).offset + 20 + c.len),
            !Self::spec_chunk_at(data@, old(self).offset as int) ==> (r is None && *final(self)
                == *old(self)),
    {
        let off = self.offset;
        if data.len() < 20 || off > data.len() - 20 {
            return None;
        }
        let win = slice_subrange(data, off, off + 20);
        let header = match DecompressedHeader::from_bytes(win) {
            Ok(h) => h,
            Err(_) => {
                proof {
                    assert(false);
                }
                return None;
            },
        };
        proof {
            assert(win@.subrange(0, 4) =~= data@.subrange(off as int, off as int + 4));
            assert(header@ =~= spec_chunk_header_at(data@, off as int));
        }
        if !header.tag_ok() {
            return None;
        }
        let bl = header.data_length as usize;
        if bl > data.len() - off - 20 {
            return None;
        }
        self.offset = off + 20 + bl;
        Some(DecompressedChunk { header, start: off + 20, len: bl })
    }
}

/// One frame sequence: its header and the position of its body.
pub struct FrameSeqChunk {
    /// The 16-byte sequence header.
    pub info: FrameSequenceInfo,
    /// Offset of the sequence body.
    pub start: usize,
    /// Length of the sequence body.
    pub len: usize,
}

/// Cursor over the frame sequences of a chunk body.
pub struct FrameSeqIter {
    /// Offset of the next unread sequence header.
    pub offset: usize,
}

impl FrameSeqIter {
    /// Whether a whole sequence lies at `off` in `s`.
    pub open spec fn spec_seq_at(s: Seq<u8>, off: int) -> bool {
        &&& 0 <= off
        &&& off + 16 <= s.len()
        &&& off + 16 + be_u32_of(s, off + 12) <= s.len()
    }

    /// Yields the sequence at the cursor and advances past it by exactly
    /// `16 + data_length` bytes, or yields nothing and stays put.
    pub fn next(&mut self, data: &[u8]) -> (r: Option<FrameSeqChunk>)
        ensures
            Self::spec_seq_at(data@, old(self).offset as int) ==> (r matches Some(c)
                && c.info.sequence_id == be_u32_of(data@, old(self).offset as int)
                && c.info.timestamp == be_u64_of(data@, old(self).offset as int + 4)
                && c.info.data_length == be_u32_of(data@, old(self).offset as int + 12) && c.start
                == old(self).offset + 16 && c.len == be_u32_of(data@, old(self).offset as int + 12)
                && final(self).offset == old(self).offset + 16 + c.len),
            !Self::spec_seq_at(data@, old(self).offset as int) ==> (r is None && *final(self)
                == *old(self)),
    {
        let off = self.offset;
        if data.len() < 16 || off > data.len() - 16 {
            return None;
        }
        let win = slice_subrange(data, off, off + 16);
        let info = match FrameSequenceInfo::from_bytes(win) {
            Ok(i) => i,
            Err(_) => {
                proof {
                    assert(false);
                }
                return None;
            },
        };
        let dl = info.data_length as usize;
        if dl > data.len() - off - 16 {
            return None;
        }
        self.offset = off + 16 + dl;
        Some(FrameSeqChunk { info, start: off + 16, len: dl })
    }
}

/// One frame as a view: its fields and the position of its effective data.
pub struct FrameRef {
    /// Frame timestamp.
    pub timestamp: u64,
    /// CAN identifier.
    pub can_id: u32,
    /// Data-length code, possibly invalid.
    pub dlc: u8,
    /// Offset of the frame data in the buffer.
    pub start: usize,
    /// Effective data length, `min(dlc, 8)`.
    pub len: usize,
}

/// Cursor over the 24-byte frames of a sequence body.
pub struct FrameRefIter {
    /// Offset of the next unread frame.
    pub offset: usize,
}

impl FrameRefIter {
    /// Yields the frame at the cursor, with its data clamped to 8 bytes,
    /// and advances by exactly 24 bytes, or yields nothing and stays put.
    pub fn next(&mut self, data: &[u8]) -> (r: Option<FrameRef>)
        ensures
            old(self).offset + 24 <= data@.len() ==> (r matches Some(f)
                && f.timestamp == be_u64_of(data@, old(self).offset as int)
                && f.can_id == be_u32_of(data@, old(self).offset as int + 8)
                && f.dlc == data@[old(self).offset as int + 12]
                && f.start == old(self).offset + 16
                && f.len == effective_len(f.dlc)
                && final(self).offset == old(self).offset + 24),
            old(self).offset + 24 > data@.len() ==> (r is None && *final(self) == *old(self)),
    {
        let off = self.offset;
        if data.len() < 24 || off > data.len() - 24 {
            return None;
        }
        let timestamp = crate::bytes_be::read_be_u64(data, off);
        let can_id = read_be_u32(data, off + 8);
        let dlc = data[off + 12];
        let len: usize = if dlc <= 8 {
            dlc as usize
        } else {
            8
        };
        self.offset = off + 24;
        Some(FrameRef { timestamp, can_id, dlc, start: off + 16, len })
    }
}

// ---------------------------------------------------------------------------
// Covering law for outer blocks.
// ---------------------------------------------------------------------------

/// A file is well formed from `off` on when it is a concatenation of whole
/// outer blocks: either nothing remains, or a full header and its declared
/// payload fit and the rest is well formed in turn.
pub open spec fn spec_file_well_formed(s: Seq<u8>, off: int) -> bool
    decreases s.len() - off,
{
    if off == s.len() {
        true
    } else {
        &&& 0 <= off
        &&& off + 35 <= s.len()
        &&& off + 35 + be_u32_of(s, off + 31) <= s.len()
        &&& spec_file_well_formed(s, off + 35 + be_u32_of(s, off + 31))
    }
}

/// The sum of `35 + compressed_length` over the blocks from `off` on.
pub open spec fn spec_sum_block_lengths(s: Seq<u8>, off: int) -> int
    decreases s.len() - off,
{
    if off < 0 || off + 35 > s.len() {
        0
    } else {
        let cl = be_u32_of(s, off + 31);
        if off + 35 + cl > s.len() {
            0
        } else {
            35 + cl + spec_sum_block_lengths(s, off + 35 + cl)
        }
    }
}

/// In a well-formed file the outer block lengths cover the file exactly:
/// the sum of `35 + compressed_length` over all blocks is the file length.
pub proof fn lemma_blocks_cover_file(s: Seq<u8>)
    requires
        spec_file_well_formed(s, 0),
    ensures
        spec_sum_block_lengths(s, 0) == s.len(),
{
    lemma_blocks_cover_from(s, 0);
}

/// The block lengths from `off` on cover exactly the remaining bytes.
pub proof fn lemma_blocks_cover_from(s: Seq<u8>, off: int)
    requires
        0 <= off <= s.len(),
        spec_file_well_formed(s, off),
    ensures
        off + spec_sum_block_lengths(s, off) == s.len(),
    decreases s.len() - off,
{
    if off == s.len() {
    } else {
        let cl = be_u32_of(s, off + 31);
        lemma_blocks_cover_from(s, off + 35 + cl);
    }
}

/// The four-layer parser: its counters and the tiered pool its
/// decompression buffers come from.
pub struct DataLayerParser {
    /// Counters over everything parsed since the last reset.
    pub stats: ParsingStats,
    /// The pool serving decompression buffers.
    pub pool: crate::memory::BufferPool,
}

impl DataLayerParser {
    /// A fresh parser with zeroed counters and the default buffer tiers.
    pub fn new() -> (r: DataLayerParser)
        ensures
            r.stats == ParsingStats::zero(),
    {
        Self::with_pool_config(&crate::memory::MemoryPoolConfig::default())
    }

    /// A fresh parser drawing its decompression buffers from a pool with
    /// the given configuration.
    pub fn with_pool_config(config: &crate::memory::MemoryPoolConfig) -> (r: DataLayerParser)
        ensures
            r.stats == ParsingStats::zero(),
    {
        DataLayerParser {
            stats: ParsingStats {
                files_processed: 0,
                bytes_decompressed: 0,
                sequences_parsed: 0,
                frames_parsed: 0,
                invalid_frames: 0,
                parse_errors: 0,
            },
            pool: crate::memory::BufferPool::new(config),
        }
    }

    /// The counters gathered so far.
    pub fn get_stats(&self) -> (r: &ParsingStats)
        ensures
            r == self.stats,
    {
        &self.stats
    }

    /// Clears all counters.
    pub fn reset_stats(&mut self)
        ensures
            final(self).stats == ParsingStats::zero(),
    {
        self.stats = ParsingStats { files_processed: 0, bytes_decompressed: 0, sequences_parsed: 0, frames_parsed: 0, invalid_frames: 0, parse_errors: 0 };
    }

    /// A cursor over the outer blocks of a file buffer, starting at its
    /// first byte.
    pub fn iter_compressed_blocks(&self) -> (r: CompressedBlockIter)
        ensures
            r.offset == 0,
    {
        CompressedBlockIter { offset: 0 }
    }

    /// A cursor over the chunks of a decompressed buffer.
    pub fn iter_decompressed_chunks(&self) -> (r: DecompressedChunkIter)
        ensures
            r.offset == 0,
    {
        DecompressedChunkIter { offset: 0 }
    }

    /// A cursor over the frame sequences of a chunk body.
    pub fn iter_frame_seqs(&self) -> (r: FrameSeqIter)
        ensures
            r.offset == 0,
    {
        FrameSeqIter { offset: 0 }
    }

    /// A cursor over the frames of a sequence body.
    pub fn iter_frames(&self) -> (r: FrameRefIter)
        ensures
            r.offset == 0,
    {
        FrameRefIter { offset: 0 }
    }

    /// Parses the 24-byte frames of `data[lo..hi]`, keeping the valid ones
    /// and counting the invalid ones.
    fn parse_frames(&mut self, data: &[u8], lo: usize, hi: usize) -> (frames: Vec<CanFrame>)
        requires
            lo <= hi <= data@.len(),
        ensures
            frames.deep_view() == spec_frames_in(data@, lo as int, hi as int),
            final(self).stats.frames_parsed == sat_add(
                old(self).stats.frames_parsed as int,
                spec_frames_in(data@, lo as int, hi as int).len() as int,
            ),
            final(self).stats.invalid_frames == sat_add(
                old(self).stats.invalid_frames as int,
                spec_invalid_in(data@, lo as int, hi as int) as int,
            ),
            final(self).stats.files_processed == old(self).stats.files_processed,
            final(self).stats.bytes_decompressed == old(self).stats.bytes_decompressed,
            final(self).stats.sequences_parsed == old(self).stats.sequences_parsed,
            final(self).stats.parse_errors == old(self).stats.parse_errors,
    {
        let ghost s = data@;
        let ghost entry_frames = self.stats.frames_parsed as int;
        let ghost entry_invalid = self.stats.invalid_frames as int;
        let mut frames: Vec<CanFrame> = Vec::new();
        let mut off: usize = lo;
        while hi - off >= 24
            invariant
                lo <= off <= hi <= data@.len(),
                data@ == s,
                frames.deep_view() + spec_frames_in(s, off as int, hi as int) == spec_frames_in(
                    s,
                    lo as int,
                    hi as int,
                ),
                sat_add(
                    self.stats.frames_parsed as int,
                    spec_frames_in(s, off as int, hi as int).len() as int,
                ) == sat_add(entry_frames, spec_frames_in(s, lo as int, hi as int).len() as int),
                sat_add(
                    self.stats.invalid_frames as int,
                    spec_invalid_in(s, off as int, hi as int) as int,
                ) == sat_add(entry_invalid, spec_invalid_in(s, lo as int, hi as int) as int),
                self.stats.files_processed == old(self).stats.files_processed,
                self.stats.bytes_decompressed == old(self).stats.bytes_decompressed,
                self.stats.sequences_parsed == old(self).stats.sequences_parsed,
                self.stats.parse_errors == old(self).stats.parse_errors,
            decreases hi - off,
        {
            let win = slice_subrange(data, off, off + 24);
            let frame = match CanFrame::from_bytes(win) {
                Ok(f) => f,
                Err(_) => {
                    proof {
                        assert(false);
                    }
                    return frames;
                },
            };
            proof {
                assert(win@.subrange(13, 16) =~= s.subrange(off + 13, off + 16));
                assert(win@.subrange(16, 16 + crate::data_layer::effective_len(win@[12]))
                    =~= s.subrange(
                    off + 16,
                    off + 16 + crate::data_layer::effective_len(s[off as int + 12]),
                ));
                assert(spec_frame_at(win@, 0) =~= spec_frame_at(s, off as int));
            }
            let ghost fp_before = self.stats.frames_parsed as int;
            let ghost inv_before = self.stats.invalid_frames as int;
            let ghost deep_before = frames.deep_view();
            let ghost rest = spec_frames_in(s, off + 24, hi as int);
            if frame.validate() {
                proof {
                    assert(frame@.dlc == s[off as int + 12]);
                    assert(spec_frames_in(s, off as int, hi as int) == seq![frame@] + rest);
                    assert(spec_invalid_in(s, off as int, hi as int) == spec_invalid_in(
                        s,
                        off + 24,
                        hi as int,
                    ));
                }
                frames.push(frame);
                self.stats.frames_parsed = usize_sat_add(self.stats.frames_parsed, 1);
                proof {
                    lemma_sat_add_assoc(fp_before, 1, rest.len() as int);
                    assert(frames.deep_view() =~= deep_before + seq![frame@]);
                    assert(frames.deep_view() + rest =~= deep_before + (seq![frame@] + rest));
                }
            } else {
                proof {
                    assert(frame@.data.len() <= 8);
                    assert(frame@.dlc > 8);
                    assert(frame@.dlc == s[off as int + 12]);
                    assert(spec_frames_in(s, off as int, hi as int) == rest);
                    assert(spec_invalid_in(s, off as int, hi as int) == 1 + spec_invalid_in(
                        s,
                        off + 24,
                        hi as int,
                    ));
                }
                self.stats.invalid_frames = usize_sat_add(self.stats.invalid_frames, 1);
                proof {
                    lemma_sat_add_assoc(inv_before, 1, spec_invalid_in(s, off + 24, hi as int) as int);
                }
            }
            off = off + 24;
        }
        frames
    }

    /// Parses the frame sequences of `data[lo..hi]`: 16-byte headers each
    /// followed by the declared number of body bytes; stops at a truncated
    /// header or an overlong body.
    fn parse_frame_sequences(&mut self, data: &[u8], lo: usize, hi: usize) -> (seqs: Vec<
        ParsedFrameSequence,
    >)
        requires
            lo <= hi <= data@.len(),
        ensures
            seqs.deep_view() == spec_sequences_in(data@, lo as int, hi as int),
            final(self).stats.sequences_parsed == sat_add(
                old(self).stats.sequences_parsed as int,
                spec_sequences_in(data@, lo as int, hi as int).len() as int,
            ),
            final(self).stats.frames_parsed == sat_add(
                old(self).stats.frames_parsed as int,
                spec_frame_count_in_seqs(data@, lo as int, hi as int) as int,
            ),
            final(self).stats.invalid_frames == sat_add(
                old(self).stats.invalid_frames as int,
                spec_invalid_in_seqs(data@, lo as int, hi as int) as int,
            ),
            final(self).stats.files_processed == old(self).stats.files_processed,
            final(self).stats.bytes_decompressed == old(self).stats.bytes_decompressed,
            final(self).stats.parse_errors == old(self).stats.parse_errors,
    {
        let ghost s = data@;
        let ghost entry_seqs = self.stats.sequences_parsed as int;
        let ghost entry_frames = self.stats.frames_parsed as int;
        let ghost entry_invalid = self.stats.invalid_frames as int;
        let mut seqs: Vec<ParsedFrameSequence> = Vec::new();
        let mut off: usize = lo;
        while hi - off >= 16 && read_be_u32(data, off + 12) as usize <= hi - off - 16
            invariant
                lo <= off <= hi <= data@.len(),
                data@ == s,
                seqs.deep_view() + spec_sequences_in(s, off as int, hi as int)
                    == spec_sequences_in(s, lo as int, hi as int),
                sat_add(
                    self.stats.sequences_parsed as int,
                    spec_sequences_in(s, off as int, hi as int).len() as int,
                ) == sat_add(entry_seqs, spec_sequences_in(s, lo as int, hi as int).len() as int),
                sat_add(
                    self.stats.frames_parsed as int,
                    spec_frame_count_in_seqs(s, off as int, hi as int) as int,
                ) == sat_add(entry_frames, spec_frame_count_in_seqs(s, lo as int, hi as int) as int),
                sat_add(
                    self.stats.invalid_frames as int,
                    spec_invalid_in_seqs(s, off as int, hi as int) as int,
                ) == sat_add(entry_invalid, spec_invalid_in_seqs(s, lo as int, hi as int) as int),
                self.stats.files_processed == old(self).stats.files_processed,
                self.stats.bytes_decompressed == old(self).stats.bytes_decompressed,
                self.stats.parse_errors == old(self).stats.parse_errors,
            decreases hi - off,
        {
            let win = slice_subrange(data, off, off + 16);
            let info = match FrameSequenceInfo::from_bytes(win) {
                Ok(i) => i,
                Err(_) => {
                    proof {
                        assert(false);
                    }
                    return seqs;
                },
            };
            let dl = info.data_length as usize;
            let body_lo = off + 16;
            let body_hi = off + 16 + dl;
            let ghost sp_before = self.stats.sequences_parsed as int;
            let ghost fp_before = self.stats.frames_parsed as int;
            let ghost inv_before = self.stats.invalid_frames as int;
            let ghost deep_before = seqs.deep_view();
            let ghost rest_lo = off + 16 + dl;
            let frames = self.parse_frames(data, body_lo, body_hi);
            let entry = ParsedFrameSequence { info, frames };
            proof {
                assert(spec_sequences_in(s, off as int, hi as int) == seq![entry.deep_view()]
                    + spec_sequences_in(s, rest_lo as int, hi as int)) by {
                    assert(entry.deep_view() =~= SpecSequenceData {
                        sequence_id: be_u32_of(s, off as int) as u32,
                        timestamp: be_u64_of(s, off as int + 4) as u64,
                        data_length: be_u32_of(s, off as int + 12) as u32,
                        frames: spec_frames_in(s, off as int + 16, off as int + 16 + be_u32_of(
                            s,
                            off as int + 12,
                        )),
                    });
                }
            }
            seqs.push(entry);
            self.stats.sequences_parsed = usize_sat_add(self.stats.sequences_parsed, 1);
            proof {
                let tail = spec_sequences_in(s, rest_lo as int, hi as int);
                lemma_sat_add_assoc(sp_before, 1, tail.len() as int);
                lemma_sat_add_assoc(
                    fp_before,
                    spec_frames_in(s, body_lo as int, body_hi as int).len() as int,
                    spec_frame_count_in_seqs(s, rest_lo as int, hi as int) as int,
                );
                lemma_sat_add_assoc(
                    inv_before,
                    spec_invalid_in(s, body_lo as int, body_hi as int) as int,
                    spec_invalid_in_seqs(s, rest_lo as int, hi as int) as int,
                );
                assert(seqs.deep_view() =~= deep_before + seq![entry.deep_view()]);
                assert(seqs.deep_view() + tail =~= deep_before + (seq![entry.deep_view()] + tail));
            }
            off = off + 16 + dl;
        }
        proof {
            assert(spec_sequences_in(s, off as int, hi as int) =~= Seq::<SpecSequenceData>::empty());
        }
        seqs
    }

    /// Parses the chunks of one block's decompressed bytes and appends one
    /// `ParsedFileData` per chunk, each carrying the block's serial and the
    /// engine's reading of its file header. A chunk walk that meets a tag
    /// other than `FRAM` stops and counts one parse error.
    #[verifier::rlimit(100)]
    fn parse_chunks(
        &mut self,
        dec: &[u8],
        serial: &Vec<u8>,
        fh: &FileHeader,
        results: &mut Vec<ParsedFileData>,
    )
        requires
            fh@ == spec_task_file_header(fh.compressed_length),
        ensures
            final(results).deep_view() == old(results).deep_view() + spec_block_files(
                serial@,
                fh.compressed_length,
                spec_chunks_in(dec@, 0),
            ),
            final(self).stats.files_processed == sat_add(
                old(self).stats.files_processed as int,
                spec_chunks_in(dec@, 0).len() as int,
            ),
            final(self).stats.sequences_parsed == sat_add(
                old(self).stats.sequences_parsed as int,
                spec_seq_count_in_chunks(dec@, 0) as int,
            ),
            final(self).stats.frames_parsed == sat_add(
                old(self).stats.frames_parsed as int,
                spec_frame_count_in_chunks(dec@, 0) as int,
            ),
            final(self).stats.invalid_frames == sat_add(
                old(self).stats.invalid_frames as int,
                spec_invalid_in_chunks(dec@, 0) as int,
            ),
            final(self).stats.parse_errors == sat_add(
                old(self).stats.parse_errors as int,
                if spec_chunks_tag_error(dec@, 0) {
                    1int
                } else {
                    0int
                },
            ),
            final(self).stats.bytes_decompressed == old(self).stats.bytes_decompressed,
    {
        let ghost s = dec@;
        let ghost cl = fh.compressed_length;
        let ghost entry_files = self.stats.files_processed as int;
        let ghost entry_seqs = self.stats.sequences_parsed as int;
        let ghost entry_frames = self.stats.frames_parsed as int;
        let ghost entry_invalid = self.stats.invalid_frames as int;
        let ghost entry_deep = results.deep_view();
        let mut io: usize = 0;
        while dec.len() - io >= 20 && dec[io] == 0x46 && dec[io + 1] == 0x52 && dec[io + 2] == 0x41
            && dec[io + 3] == 0x4d && read_be_u32(dec, io + 16) as usize <= dec.len() - io - 20
            invariant
                io <= dec@.len(),
                dec@ == s,
                fh@ == spec_task_file_header(cl),
                fh.compressed_length == cl,
                results.deep_view() + spec_block_files(serial@, cl, spec_chunks_in(s, io as int))
                    == entry_deep + spec_block_files(serial@, cl, spec_chunks_in(s, 0)),
                spec_chunks_tag_error(s, io as int) == spec_chunks_tag_error(s, 0),
                sat_add(
                    self.stats.files_processed as int,
                    spec_chunks_in(s, io as int).len() as int,
                ) == sat_add(entry_files, spec_chunks_in(s, 0).len() as int),
                sat_add(
                    self.stats.sequences_parsed as int,
                    spec_seq_count_in_chunks(s, io as int) as int,
                ) == sat_add(entry_seqs, spec_seq_count_in_chunks(s, 0) as int),
                sat_add(
                    self.stats.frames_parsed as int,
                    spec_frame_count_in_chunks(s, io as int) as int,
                ) == sat_add(entry_frames, spec_frame_count_in_chunks(s, 0) as int),
                sat_add(
                    self.stats.invalid_frames as int,
                    spec_invalid_in_chunks(s, io as int) as int,
                ) == sat_add(entry_invalid, spec_invalid_in_chunks(s, 0) as int),
                self.stats.parse_errors == old(self).stats.parse_errors,
                self.stats.bytes_decompressed == old(self).stats.bytes_decompressed,
            decreases dec@.len() - io,
        {
            let win = slice_subrange(dec, io, io + 20);
            let header = match DecompressedHeader::from_bytes(win) {
                Ok(h) => h,
                Err(_) => {
                    proof {
                        assert(false);
                    }
                    return ;
                },
            };
            proof {
                assert(win@.subrange(0, 4) =~= s.subrange(io as int, io as int + 4));
                assert(header@ =~= spec_chunk_header_at(s, io as int));
                assert(spec_chunk_header_at(s, io as int).data_type =~= fram_tag());
            }
            let bl = header.data_length as usize;
            let body_lo = io + 20;
            let body_hi = io + 20 + bl;
            let ghost files_before = self.stats.files_processed as int;
            let ghost seqs_before = self.stats.sequences_parsed as int;
            let ghost fp_before = self.stats.frames_parsed as int;
            let ghost inv_before = self.stats.invalid_frames as int;
            let ghost deep_before = results.deep_view();
            let ghost rest_lo = io + 20 + bl;
            let frame_sequences = self.parse_frame_sequences(dec, body_lo, body_hi);
            let entry = ParsedFileData {
                serial: clone_bytes(serial),
                file_header: fh.duplicate(),
                decompressed_header: header,
                frame_sequences,
            };
            proof {
                let chunk = SpecChunkData {
                    header: spec_chunk_header_at(s, io as int),
                    sequences: spec_sequences_in(s, body_lo as int, body_hi as int),
                };
                assert(spec_chunks_in(s, io as int) == seq![chunk] + spec_chunks_in(
                    s,
                    rest_lo as int,
                ));
                assert(entry.deep_view() =~= spec_file_entry(serial@, cl, chunk));
            }
            results.push(entry);
            self.stats.files_processed = usize_sat_add(self.stats.files_processed, 1);
            proof {
                let chunk = SpecChunkData {
                    header: spec_chunk_header_at(s, io as int),
                    sequences: spec_sequences_in(s, body_lo as int, body_hi as int),
                };
                let tail = spec_chunks_in(s, rest_lo as int);
                lemma_sat_add_assoc(files_before, 1, tail.len() as int);
                lemma_sat_add_assoc(
                    seqs_before,
                    spec_sequences_in(s, body_lo as int, body_hi as int).len() as int,
                    spec_seq_count_in_chunks(s, rest_lo as int) as int,
                );
                lemma_sat_add_assoc(
                    fp_before,
                    spec_frame_count_in_seqs(s, body_lo as int, body_hi as int) as int,
                    spec_frame_count_in_chunks(s, rest_lo as int) as int,
                );
                lemma_sat_add_assoc(
                    inv_before,
                    spec_invalid_in_seqs(s, body_lo as int, body_hi as int) as int,
                    spec_invalid_in_chunks(s, rest_lo as int) as int,
                );
                assert(spec_block_files(serial@, cl, seq![chunk] + tail) =~= seq![
                    spec_file_entry(serial@, cl, chunk),
                ] + spec_block_files(serial@, cl, tail));
                assert(results.deep_view() =~= deep_before + seq![entry.deep_view()]);
                assert(results.deep_view() + spec_block_files(serial@, cl, tail) =~= deep_before
                    + (seq![spec_file_entry(serial@, cl, chunk)] + spec_block_files(
                    serial@,
                    cl,
                    tail,
                )));
            }
            io = io + 20 + bl;
        }
        // The walk stopped: on a bad tag one parse error is counted; on a
        // truncated header or an overlong body the walk simply ends.
        if dec.len() - io >= 20 {
            if !(dec[io] == 0x46 && dec[io + 1] == 0x52 && dec[io + 2] == 0x41 && dec[io + 3]
                == 0x4d) {
                proof {
                    assert(spec_chunk_header_at(s, io as int).data_type != fram_tag()) by {
                        assert(s.subrange(io as int, io as int + 4)[0] == s[io as int]);
                        assert(s.subrange(io as int, io as int + 4)[1] == s[io as int + 1]);
                        assert(s.subrange(io as int, io as int + 4)[2] == s[io as int + 2]);
                        assert(s.subrange(io as int, io as int + 4)[3] == s[io as int + 3]);
                    }
                    assert(spec_chunks_tag_error(s, io as int));
                }
                self.stats.parse_errors = usize_sat_add(self.stats.parse_errors, 1);
            } else {
                proof {
                    assert(spec_chunk_header_at(s, io as int).data_type =~= fram_tag());
                    assert(!spec_chunks_tag_error(s, io as int));
                }
            }
        }
    }

    /// Parses every outer block of a file: each 35-byte header names a gzip
    /// payload, each payload that decompresses contributes one entry per
    /// chunk, and a payload that fails to decompress is skipped with one
    /// parse error counted. A file with fewer than 35 bytes, or a declared
    /// payload running past the end, yields what was parsed so far and no
    /// error.
    #[verifier::rlimit(100)]
    pub fn parse_file_all(&mut self, file_data: &[u8]) -> (r: Result<
        Vec<ParsedFileData>,
        ParseError,
    >)
        ensures
            r matches Ok(v) && v.deep_view() == spec_blocks_in(file_data@, 0),
            final(self).stats.files_processed == sat_add(
                old(self).stats.files_processed as int,
                spec_blocks_in(file_data@, 0).len() as int,
            ),
            final(self).stats.sequences_parsed == sat_add(
                old(self).stats.sequences_parsed as int,
                spec_seq_count_in_blocks(file_data@, 0) as int,
            ),
            final(self).stats.frames_parsed == sat_add(
                old(self).stats.frames_parsed as int,
                spec_frame_count_in_blocks(file_data@, 0) as int,
            ),
            final(self).stats.invalid_frames == sat_add(
                old(self).stats.invalid_frames as int,
                spec_invalid_in_blocks(file_data@, 0) as int,
            ),
            final(self).stats.parse_errors == sat_add(
                old(self).stats.parse_errors as int,
                spec_errors_in_blocks(file_data@, 0) as int,
            ),
            final(self).stats.bytes_decompressed == sat_add(
                old(self).stats.bytes_decompressed as int,
                spec_bytes_in_blocks(file_data@, 0) as int,
            ),
    {
        let ghost s = file_data@;
        let ghost entry_files = self.stats.files_processed as int;
        let ghost entry_seqs = self.stats.sequences_parsed as int;
        let ghost entry_frames = self.stats.frames_parsed as int;
        let ghost entry_invalid = self.stats.invalid_frames as int;
        let ghost entry_errors = self.stats.parse_errors as int;
        let ghost entry_bytes = self.stats.bytes_decompressed as int;
        let ghost entry_deep = Seq::<SpecParsedFile>::empty();
        let mut results: Vec<ParsedFileData> = Vec::new();
        let mut off: usize = 0;
        while file_data.len() - off >= 35 && read_be_u32(file_data, off + 31) as usize
            <= file_data.len() - off - 35
            invariant
                off <= file_data@.len(),
                file_data@ == s,
                results.deep_view() + spec_blocks_in(s, off as int) == spec_blocks_in(s, 0),
                sat_add(
                    self.stats.files_processed as int,
                    spec_blocks_in(s, off as int).len() as int,
                ) == sat_add(entry_files, spec_blocks_in(s, 0).len() as int),
                sat_add(
                    self.stats.sequences_parsed as int,
                    spec_seq_count_in_blocks(s, off as int) as int,
                ) == sat_add(entry_seqs, spec_seq_count_in_blocks(s, 0) as int),
                sat_add(
                    self.stats.frames_parsed as int,
                    spec_frame_count_in_blocks(s, off as int) as int,
                ) == sat_add(entry_frames, spec_frame_count_in_blocks(s, 0) as int),
                sat_add(
                    self.stats.invalid_frames as int,
                    spec_invalid_in_blocks(s, off as int) as int,
                ) == sat_add(entry_invalid, spec_invalid_in_blocks(s, 0) as int),
                sat_add(
                    self.stats.parse_errors as int,
                    spec_errors_in_blocks(s, off as int) as int,
                ) == sat_add(entry_errors, spec_errors_in_blocks(s, 0) as int),
                sat_add(
                    self.stats.bytes_decompressed as int,
                    spec_bytes_in_blocks(s, off as int) as int,
                ) == sat_add(entry_bytes, spec_bytes_in_blocks(s, 0) as int),
            decreases file_data@.len() - off,
        {
            let win = slice_subrange(file_data, off, off + 35);
            let (serial, fh) = match FileHeader::from_task_spec_bytes(win) {
                Ok(p) => p,
                Err(_) => {
                    proof {
                        assert(false);
                    }
                    return Ok(results);
                },
            };
            proof {
                assert(serial@ =~= s.subrange(off as int, off as int + 18));
            }
            let cl = fh.compressed_length as usize;
            let comp = slice_subrange(file_data, off + 35, off + 35 + cl);
            let ghost next_off = off + 35 + cl;
            let ghost files_before = self.stats.files_processed as int;
            let ghost seqs_before = self.stats.sequences_parsed as int;
            let ghost fp_before = self.stats.frames_parsed as int;
            let ghost inv_before = self.stats.invalid_frames as int;
            let ghost err_before = self.stats.parse_errors as int;
            let ghost bytes_before = self.stats.bytes_decompressed as int;
            let ghost deep_before = results.deep_view();
            let estimate = crate::memory::decompress_estimate(cl);
            let (mut decv, origin) = self.pool.get_decompress_buffer(estimate);
            match gz_decompress_into(comp, &mut decv) {
                Err(()) => {
                    self.pool.recycle_decompress_buffer(origin, decv);
                    self.stats.parse_errors = usize_sat_add(self.stats.parse_errors, 1);
                    proof {
                        lemma_sat_add_assoc(
                            err_before,
                            1,
                            spec_errors_in_blocks(s, next_off as int) as int,
                        );
                    }
                },
                Ok(()) => {
                    let decs = decv.as_slice();
                    self.parse_chunks(decs, &serial, &fh, &mut results);
                    let ghost err_mid = self.stats.parse_errors as int;
                    self.stats.bytes_decompressed = usize_sat_add(
                        self.stats.bytes_decompressed,
                        decv.len(),
                    );
                    proof {
                        let dec = decv@;
                        lemma_sat_add_assoc(
                            files_before,
                            spec_chunks_in(dec, 0).len() as int,
                            spec_blocks_in(s, next_off as int).len() as int,
                        );
                        lemma_sat_add_assoc(
                            seqs_before,
                            spec_seq_count_in_chunks(dec, 0) as int,
                            spec_seq_count_in_blocks(s, next_off as int) as int,
                        );
                        lemma_sat_add_assoc(
                            fp_before,
                            spec_frame_count_in_chunks(dec, 0) as int,
                            spec_frame_count_in_blocks(s, next_off as int) as int,
                        );
                        lemma_sat_add_assoc(
                            inv_before,
                            spec_invalid_in_chunks(dec, 0) as int,
                            spec_invalid_in_blocks(s, next_off as int) as int,
                        );
                        lemma_sat_add_assoc(
                            err_before,
                            if spec_chunks_tag_error(dec, 0) {
                                1int
                            } else {
                                0int
                            },
                            spec_errors_in_blocks(s, next_off as int) as int,
                        );
                        lemma_sat_add_assoc(
                            bytes_before,
                            dec.len() as int,
                            spec_bytes_in_blocks(s, next_off as int) as int,
                        );
                        assert(results.deep_view() + spec_blocks_in(s, next_off as int)
                            =~= deep_before + (spec_block_files(
                            serial@,
                            fh.compressed_length,
                            spec_chunks_in(dec, 0),
                        ) + spec_blocks_in(s, next_off as int)));
                    }
                    self.pool.recycle_decompress_buffer(origin, decv);
                },
            }
            off = off + 35 + cl;
        }
        Ok(results)
    }

    /// Parses a file and returns its first entry; a file without a single
    /// parsed chunk is an error.
    pub fn parse_file(&mut self, file_data: &[u8]) -> (r: Result<ParsedFileData, ParseError>)
        ensures
            spec_blocks_in(file_data@, 0).len() > 0 ==> (r matches Ok(v) && v.deep_view()
                == spec_blocks_in(file_data@, 0)[0]),
            spec_blocks_in(file_data@, 0).len() == 0 ==> (r matches Err(e) && e
                == ParseError::InvalidHeader),
    {
        let mut all = match self.parse_file_all(file_data) {
            Ok(v) => v,
            Err(e) => {
                return Err(e);
            },
        };
        if all.len() == 0 {
            return Err(ParseError::InvalidHeader);
        }
        let _tail = all.split_off(1);
        match all.pop() {
            Some(first) => Ok(first),
            None => Err(ParseError::InvalidHeader),
        }
    }
}

} // verus!
