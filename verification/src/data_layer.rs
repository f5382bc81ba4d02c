//! The four-layer container format: a 35-byte file header followed by a
//! gzip-compressed payload (layer 1); inside the decompressed bytes, 20-byte
//! `FRAM` chunk headers (layer 2); 16-byte frame-sequence headers (layer 3);
//! and 24-byte frames (layer 4).

use vstd::prelude::*;
use crate::bytes_be::{be_u32_of, be_u64_of, read_be_u32, read_be_u64};

verus! {

/// Layer-1 file header, 35 bytes. Fields in on-disk order: an 8-byte magic,
/// a version, a file index, a timestamp, a CRC, the compressed payload
/// length, and three reserved bytes.
#[derive(Debug)]
pub struct FileHeader {
    /// File magic, 8 bytes.
    pub magic: Vec<u8>,
    /// Format version.
    pub version: u32,
    /// Index of this file in its batch.
    pub file_index: u32,
    /// Capture timestamp, seconds.
    pub timestamp: u64,
    /// Header checksum, preserved and unchecked.
    pub crc32: u32,
    /// Length in bytes of the gzip payload that follows the header.
    pub compressed_length: u32,
    /// Reserved bytes.
    pub reserved: Vec<u8>,
}

/// Mathematical image of a layer-1 file header.
#[verifier::ext_equal]
pub ghost struct SpecFileHeader {
    /// File magic.
    pub magic: Seq<u8>,
    /// Format version.
    pub version: u32,
    /// File index.
    pub file_index: u32,
    /// Capture timestamp.
    pub timestamp: u64,
    /// Header checksum.
    pub crc32: u32,
    /// Compressed payload length.
    pub compressed_length: u32,
    /// Reserved bytes.
    pub reserved: Seq<u8>,
}

impl View for FileHeader {
    type V = SpecFileHeader;

    open spec fn view(&self) -> SpecFileHeader {
        SpecFileHeader {
            magic: self.magic@,
            version: self.version,
            file_index: self.file_index,
            timestamp: self.timestamp,
            crc32: self.crc32,
            compressed_length: self.compressed_length,
            reserved: self.reserved@,
        }
    }
}

/// The header that the engine's strict reading produces: the payload length
/// from bytes 31..35, every other field zero.
pub open spec fn spec_task_file_header(compressed_length: u32) -> SpecFileHeader {
    SpecFileHeader {
        magic: Seq::new(8, |i: int| 0u8),
        version: 0,
        file_index: 0,
        timestamp: 0,
        crc32: 0,
        compressed_length,
        reserved: Seq::new(3, |i: int| 0u8),
    }
}

impl FileHeader {
    /// A well-formed header carries exactly its fixed-width opaque fields.
    pub open spec fn wf(self) -> bool {
        self.magic@.len() == 8 && self.reserved@.len() == 3
    }

    /// Copies the header; the copy has the same image.
    pub fn duplicate(&self) -> (r: FileHeader)
        ensures
            r@ == self@,
    {
        FileHeader {
            magic: clone_bytes(&self.magic),
            version: self.version,
            file_index: self.file_index,
            timestamp: self.timestamp,
            crc32: self.crc32,
            compressed_length: self.compressed_length,
            reserved: clone_bytes(&self.reserved),
        }
    }

    /// Parses the full 35-byte header layout: magic at 0..8, version at
    /// 8..12, file index at 12..16, timestamp at 16..24, CRC at 24..28,
    /// compressed length at 28..32, reserved at 32..35.
    pub fn from_bytes(data: &[u8]) -> (r: Result<FileHeader, ParseError>)
        ensures
            data@.len() >= 35 ==> (r matches Ok(h) && h.wf()
                && h.magic@ == data@.subrange(0, 8)
                && h.version == be_u32_of(data@, 8)
                && h.file_index == be_u32_of(data@, 12)
                && h.timestamp == be_u64_of(data@, 16)
                && h.crc32 == be_u32_of(data@, 24)
                && h.compressed_length == be_u32_of(data@, 28)
                && h.reserved@ == data@.subrange(32, 35)),
            data@.len() < 35 ==> (r matches Err(e) && e == ParseError::TruncatedInput),
    {
        if data.len() < 35 {
            return Err(ParseError::TruncatedInput);
        }
        let magic = copy_range(data, 0, 8);
        let reserved = copy_range(data, 32, 35);
        Ok(FileHeader {
            magic,
            version: read_be_u32(data, 8),
            file_index: read_be_u32(data, 12),
            timestamp: read_be_u64(data, 16),
            crc32: read_be_u32(data, 24),
            compressed_length: read_be_u32(data, 28),
            reserved,
        })
    }

    /// Parses the 35-byte header as the processing engine reads it: only the
    /// 18-byte serial at 0..18 and the big-endian payload length at 31..35
    /// are meaningful; every other field is filled with zeros.
    pub fn from_task_spec_bytes(data: &[u8]) -> (r: Result<(Vec<u8>, FileHeader), ParseError>)
        ensures
            data@.len() >= 35 ==> (r matches Ok(p) && p.1.wf()
                && p.0@ == data@.subrange(0, 18)
                && p.1.compressed_length == be_u32_of(data@, 31)
                && p.1@ == spec_task_file_header((be_u32_of(data@, 31)) as u32)),
            data@.len() < 35 ==> (r matches Err(e) && e == ParseError::TruncatedInput),
    {
        if data.len() < 35 {
            return Err(ParseError::TruncatedInput);
        }
        let serial = copy_range(data, 0, 18);
        let mut magic: Vec<u8> = Vec::new();
        let mut reserved: Vec<u8> = Vec::new();
        let mut i: usize = 0;
        while i < 8
            invariant
                i <= 8,
                magic@ =~= Seq::new(i as nat, |k: int| 0u8),
            decreases 8 - i,
        {
            magic.push(0);
            proof {
                assert(magic@ =~= Seq::new((i + 1) as nat, |k: int| 0u8));
            }
            i = i + 1;
        }
        let mut j: usize = 0;
        while j < 3
            invariant
                j <= 3,
                reserved@ =~= Seq::new(j as nat, |k: int| 0u8),
            decreases 3 - j,
        {
            reserved.push(0);
            proof {
                assert(reserved@ =~= Seq::new((j + 1) as nat, |k: int| 0u8));
            }
            j = j + 1;
        }
        let header = FileHeader {
            magic,
            version: 0,
            file_index: 0,
            timestamp: 0,
            crc32: 0,
            compressed_length: read_be_u32(data, 31),
            reserved,
        };
        proof {
            assert(header@ =~= spec_task_file_header(header.compressed_length));
        }
        Ok((serial, header))
    }

    /// Every layer-1 header is acceptable: the engine reads only the serial
    /// and the payload length and treats the rest as opaque.
    pub fn validate(&self) -> (r: Result<(), ParseError>)
        ensures
            r is Ok,
    {
        Ok(())
    }
}

/// Layer-2 chunk header, 20 bytes, all fields big-endian after the tag.
#[derive(Debug)]
pub struct DecompressedHeader {
    /// Data-type tag; a valid chunk carries ASCII `FRAM`.
    pub data_type: Vec<u8>,
    /// Chunk format version.
    pub version: u32,
    /// Declared number of frames in the chunk.
    pub total_frames: u32,
    /// Index of the source file.
    pub file_index: u32,
    /// Length in bytes of the chunk body that follows.
    pub data_length: u32,
}

/// The `FRAM` tag that marks a valid layer-2 chunk.
pub open spec fn fram_tag() -> Seq<u8> {
    seq![0x46u8, 0x52u8, 0x41u8, 0x4du8]
}

/// Mathematical image of a layer-2 chunk header.
#[verifier::ext_equal]
pub ghost struct SpecChunkHeader {
    /// Data-type tag.
    pub data_type: Seq<u8>,
    /// Chunk format version.
    pub version: u32,
    /// Declared frame count.
    pub total_frames: u32,
    /// Source file index.
    pub file_index: u32,
    /// Declared body length.
    pub data_length: u32,
}

impl View for DecompressedHeader {
    type V = SpecChunkHeader;

    open spec fn view(&self) -> SpecChunkHeader {
        SpecChunkHeader {
            data_type: self.data_type@,
            version: self.version,
            total_frames: self.total_frames,
            file_index: self.file_index,
            data_length: self.data_length,
        }
    }
}

/// The chunk header described by the 20 bytes at `off` in `s`.
pub open spec fn spec_chunk_header_at(s: Seq<u8>, off: int) -> SpecChunkHeader {
    SpecChunkHeader {
        data_type: s.subrange(off, off + 4),
        version: be_u32_of(s, off + 4) as u32,
        total_frames: be_u32_of(s, off + 8) as u32,
        file_index: be_u32_of(s, off + 12) as u32,
        data_length: be_u32_of(s, off + 16) as u32,
    }
}

impl DecompressedHeader {
    /// A well-formed header has a 4-byte tag.
    pub open spec fn wf(self) -> bool {
        self.data_type@.len() == 4
    }

    /// Parses a 20-byte chunk header: tag at 0..4, then version, declared
    /// frame count, file index, and body length, each big-endian.
    pub fn from_bytes(data: &[u8]) -> (r: Result<DecompressedHeader, ParseError>)
        ensures
            data@.len() >= 20 ==> (r matches Ok(h) && h.wf()
                && h@ == spec_chunk_header_at(data@, 0)
                && h.data_type@ == data@.subrange(0, 4)
                && h.version == be_u32_of(data@, 4)
                && h.total_frames == be_u32_of(data@, 8)
                && h.file_index == be_u32_of(data@, 12)
                && h.data_length == be_u32_of(data@, 16)),
            data@.len() < 20 ==> (r matches Err(e) && e == ParseError::TruncatedInput),
    {
        if data.len() < 20 {
            return Err(ParseError::TruncatedInput);
        }
        let data_type = copy_range(data, 0, 4);
        Ok(DecompressedHeader {
            data_type,
            version: read_be_u32(data, 4),
            total_frames: read_be_u32(data, 8),
            file_index: read_be_u32(data, 12),
            data_length: read_be_u32(data, 16),
        })
    }

    /// Whether the tag equals ASCII `FRAM`.
    pub open spec fn spec_tag_ok(self) -> bool {
        self.data_type@ == fram_tag()
    }

    /// Checks that the tag equals ASCII `FRAM`.
    pub fn tag_ok(&self) -> (r: bool)
        requires
            self.wf(),
        ensures
            r == self.spec_tag_ok(),
    {
        let r = self.data_type[0] == 0x46 && self.data_type[1] == 0x52
            && self.data_type[2] == 0x41 && self.data_type[3] == 0x4d;
        proof {
            if r {
                assert(self.data_type@ =~= fram_tag());
            }
        }
        r
    }

    /// A header is accepted when its tag is `FRAM` and both the declared
    /// frame count and the body length are nonzero; each rejection names
    /// its own error.
    pub fn validate(&self) -> (r: Result<(), ParseError>)
        requires
            self.wf(),
        ensures
            r is Ok <==> (self.spec_tag_ok() && self.total_frames != 0 && self.data_length != 0),
            !self.spec_tag_ok() ==> (r matches Err(e) && e == ParseError::InvalidHeader),
            self.spec_tag_ok() && (self.total_frames == 0 || self.data_length == 0)
                ==> (r matches Err(e) && e == ParseError::InvalidHeader),
    {
        if !self.tag_ok() {
            return Err(ParseError::InvalidHeader);
        }
        if self.total_frames == 0 {
            return Err(ParseError::InvalidHeader);
        }
        if self.data_length == 0 {
            return Err(ParseError::InvalidHeader);
        }
        Ok(())
    }
}

/// Layer-3 frame-sequence header, 16 bytes: a 4-byte bus version (kept in
/// `sequence_id`), an 8-byte timestamp, and a 4-byte body length.
#[derive(Debug)]
pub struct FrameSequenceInfo {
    /// The 4-byte bus version, preserved verbatim.
    pub sequence_id: u32,
    /// Sequence timestamp.
    pub timestamp: u64,
    /// Length in bytes of the frame data that follows.
    pub data_length: u32,
}

impl FrameSequenceInfo {
    /// Parses a 16-byte sequence header.
    pub fn from_bytes(data: &[u8]) -> (r: Result<FrameSequenceInfo, ParseError>)
        ensures
            data@.len() >= 16 ==> (r matches Ok(h)
                && h.sequence_id == be_u32_of(data@, 0)
                && h.timestamp == be_u64_of(data@, 4)
                && h.data_length == be_u32_of(data@, 12)),
            data@.len() < 16 ==> (r matches Err(e) && e == ParseError::TruncatedInput),
    {
        if data.len() < 16 {
            return Err(ParseError::TruncatedInput);
        }
        Ok(FrameSequenceInfo {
            sequence_id: read_be_u32(data, 0),
            timestamp: read_be_u64(data, 4),
            data_length: read_be_u32(data, 12),
        })
    }
}

/// One layer-4 frame: timestamp, CAN identifier, data-length code, three
/// reserved bytes, and up to eight data bytes.
#[derive(Debug)]
pub struct CanFrame {
    /// Frame timestamp.
    pub timestamp: u64,
    /// CAN identifier.
    pub can_id: u32,
    /// Data-length code; only 0..=8 is valid.
    pub dlc: u8,
    /// Reserved bytes, 3 of them.
    pub reserved: Vec<u8>,
    /// Frame data, truncated to the effective length min(dlc, 8).
    pub data: Vec<u8>,
}

/// Mathematical image of a frame, for contracts over frame lists.
#[verifier::ext_equal]
pub ghost struct SpecFrame {
    /// Frame timestamp.
    pub timestamp: u64,
    /// CAN identifier.
    pub can_id: u32,
    /// Data-length code.
    pub dlc: u8,
    /// Reserved bytes.
    pub reserved: Seq<u8>,
    /// Effective data bytes.
    pub data: Seq<u8>,
}

impl View for CanFrame {
    type V = SpecFrame;

    open spec fn view(&self) -> SpecFrame {
        SpecFrame {
            timestamp: self.timestamp,
            can_id: self.can_id,
            dlc: self.dlc,
            reserved: self.reserved@,
            data: self.data@,
        }
    }
}

/// The effective data length of a frame with the given data-length code:
/// the code itself when it is at most 8, else clamped to 8.
pub open spec fn effective_len(dlc: u8) -> int {
    if dlc <= 8 { dlc as int } else { 8 }
}

/// The frame described by the 24 bytes at `off` in `s`.
pub open spec fn spec_frame_at(s: Seq<u8>, off: int) -> SpecFrame {
    SpecFrame {
        timestamp: be_u64_of(s, off) as u64,
        can_id: be_u32_of(s, off + 8) as u32,
        dlc: s[off + 12],
        reserved: s.subrange(off + 13, off + 16),
        data: s.subrange(off + 16, off + 16 + effective_len(s[off + 12])),
    }
}

impl CanFrame {
    /// Parses one 24-byte frame: timestamp at 0..8, CAN id at 8..12, the
    /// data-length code at 12, reserved bytes at 13..16, and data at 16..24
    /// of which only the effective length is kept.
    pub fn from_bytes(data: &[u8]) -> (r: Result<CanFrame, ParseError>)
        ensures
            data@.len() >= 24 ==> (r matches Ok(f) && f@ == spec_frame_at(data@, 0)),
            data@.len() < 24 ==> (r matches Err(e) && e == ParseError::TruncatedInput),
    {
        if data.len() < 24 {
            return Err(ParseError::TruncatedInput);
        }
        let timestamp = read_be_u64(data, 0);
        let can_id = read_be_u32(data, 8);
        let dlc = data[12];
        let reserved = copy_range(data, 13, 16);
        let act: usize = if dlc <= 8 { dlc as usize } else { 8 };
        let frame_data = copy_range(data, 16, 16 + act);
        let f = CanFrame { timestamp, can_id, dlc, reserved, data: frame_data };
        proof {
            assert(f@ =~= spec_frame_at(data@, 0));
        }
        Ok(f)
    }

    /// Whether this frame is valid: its data-length code is at most 8 and
    /// its data fits in 8 bytes.
    pub open spec fn spec_valid(self) -> bool {
        self.dlc <= 8 && self.data@.len() <= 8
    }

    /// Checks frame validity.
    pub fn validate(&self) -> (r: bool)
        ensures
            r == self.spec_valid(),
    {
        self.dlc <= 8 && self.data.len() <= 8
    }
}

/// Kinds of failure the engine reports.
#[derive(Clone, Copy, PartialEq, Eq, Debug)]
pub enum ParseError {
    /// A header tag or declared length is wrong.
    InvalidHeader,
    /// Too few bytes remain for a fixed-size structure.
    TruncatedInput,
    /// A gzip payload could not be decompressed.
    DecompressionFailed,
    /// A dictionary file could not be parsed.
    DictionaryParseFailed,
    /// A signal's bit window exceeds the 8 frame data bytes.
    SignalOutOfRange,
    /// An output write failed.
    WriterIo,
    /// A file could not be mapped or read.
    MappingIo,
    /// A task exceeded its deadline.
    TaskTimeout,
    /// A bounded queue was full.
    QueueFull,
    /// Memory use crossed the configured threshold; advisory.
    MemoryPressure,
    /// Configuration was rejected at startup.
    ConfigError,
}

/// Copies a byte vector; the copy has the same contents.
pub fn clone_bytes(v: &Vec<u8>) -> (r: Vec<u8>)
    ensures
        r@ == v@,
{
    let mut r: Vec<u8> = Vec::new();
    let mut i: usize = 0;
    while i < v.len()
        invariant
            i <= v@.len(),
            r@ == v@.subrange(0, i as int),
        decreases v@.len() - i,
    {
        r.push(v[i]);
        proof {
            assert(r@ =~= v@.subrange(0, i + 1));
        }
        i = i + 1;
    }
    proof {
        assert(r@ =~= v@);
    }
    r
}

/// Copies `data[lo..hi]` into a fresh vector.
pub fn copy_range(data: &[u8], lo: usize, hi: usize) -> (r: Vec<u8>)
    requires
        lo <= hi <= data@.len(),
    ensures
        r@ == data@.subrange(lo as int, hi as int),
{
    let mut r: Vec<u8> = Vec::new();
    let mut i: usize = lo;
    while i < hi
        invariant
            lo <= i <= hi <= data@.len(),
            r@ == data@.subrange(lo as int, i as int),
        decreases hi - i,
    {
        r.push(data[i]);
        proof {
            assert(r@ =~= data@.subrange(lo as int, i + 1));
        }
        i = i + 1;
    }
    r
}

} // verus!
