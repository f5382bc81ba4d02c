//! The block-view parser: each layer of the container is cut into header
//! and body blocks described by offset and length into the caller's buffer,
//! without copying. It answers where each block lies; the byte content is
//! read through the frame parser.

use vstd::prelude::*;
use crate::bytes_be::{be_u32_of, read_be_u32};
use crate::data_layer::ParseError;
use crate::dbc::DbcManager;

verus! {

/// Configuration of the block-view parser.
#[derive(Clone, Copy, Debug, PartialEq, Eq)]
pub struct LayerParserConfig {
    /// Whether gzip payloads are decompressed.
    pub enable_decompression: bool,
    /// Initial capacity of the decompression buffer.
    pub decompress_buffer_size: usize,
    /// Blocks handled per batch call.
    pub batch_size: usize,
    /// Whether counters are kept.
    pub enable_monitoring: bool,
}

impl Default for LayerParserConfig {
    /// The default configuration: decompression on, a 1 MiB buffer,
    /// 100-block batches, monitoring on.
    fn default() -> (r: LayerParserConfig)
        ensures
            r.enable_decompression,
            r.decompress_buffer_size == 0x100000,
            r.batch_size == 100,
            r.enable_monitoring,
    {
        LayerParserConfig {
            enable_decompression: true,
            decompress_buffer_size: 0x100000,
            batch_size: 100,
            enable_monitoring: true,
        }
    }
}

/// The container layer a parse result belongs to.
#[derive(Clone, Copy, Debug, PartialEq, Eq, Hash)]
pub enum LayerType {
    /// The 35-byte file header and its compressed payload.
    Layer0,
    /// 20-byte headers over uncompressed bodies.
    Layer1,
    /// The same cut, one layer further in.
    Layer2,
    /// Single-frame data.
    FinalLayer,
}

/// What kind of bytes a block holds.
#[derive(Clone, Copy, Debug, PartialEq, Eq)]
pub enum BlockType {
    /// A fixed-size header.
    Header,
    /// A compressed payload.
    CompressedData,
    /// An uncompressed body.
    UncompressedData,
    /// Frame bytes.
    FrameData,
}

/// Where a block came from.
#[derive(Clone, Copy, Debug, PartialEq, Eq)]
pub struct BlockMetadata {
    /// Offset of the block in the buffer it was cut from.
    pub original_offset: usize,
    /// Length of the block.
    pub data_length: usize,
    /// A timestamp, where one is known.
    pub timestamp: Option<u64>,
}

/// One block: offset and length into the caller's buffer, its kind, and
/// where it came from.
#[derive(Clone, Copy, Debug, PartialEq, Eq)]
pub struct DataBlock {
    /// Offset and length into the caller's buffer.
    pub ptr_and_len: (usize, usize),
    /// What the block holds.
    pub block_type: BlockType,
    /// Where the block came from.
    pub metadata: Option<BlockMetadata>,
}

/// Counters of one parse call.
#[derive(Clone, Copy, Debug, PartialEq, Eq)]
pub struct ParseStats {
    /// Blocks cut.
    pub blocks_parsed: usize,
    /// Bytes walked.
    pub bytes_parsed: usize,
    /// Errors met.
    pub error_count: usize,
}

/// The blocks of one parse call, with its counters.
#[derive(Clone, Debug)]
pub struct ParseResult {
    /// The layer the call walked.
    pub layer_type: LayerType,
    /// The blocks cut, in order.
    pub data_blocks: Vec<DataBlock>,
    /// The call's counters.
    pub stats: ParseStats,
}

/// The block-view parser.
pub struct LayerParser {
    /// Configuration.
    config: LayerParserConfig,
    /// An optional dictionary manager for decoding cut frames.
    dbc_manager: Option<DbcManager>,
}

/// The header-and-body pairs of the 20-byte-header layer in `s`: at each
/// position, a 20-byte header whose last four bytes give the body length;
/// the walk stops at a truncated header or an overlong body.
pub open spec fn spec_layer1_pairs(s: Seq<u8>, off: int) -> Seq<(int, int)>
    decreases s.len() - off,
{
    if off < 0 || off + 20 > s.len() {
        Seq::empty()
    } else {
        let bl = be_u32_of(s, off + 16);
        if off + 20 + bl > s.len() {
            Seq::empty()
        } else {
            seq![(off, bl)] + spec_layer1_pairs(s, off + 20 + bl)
        }
    }
}

impl LayerParser {
    /// A parser with the given configuration; with monitoring on it carries
    /// a dictionary manager for decoding cut frames.
    pub fn new(config: LayerParserConfig) -> (r: Result<LayerParser, ParseError>)
        ensures
            r matches Ok(p) && p.spec_config() == config,
    {
        let dbc_manager = if config.enable_monitoring {
            Some(DbcManager::new(crate::dbc::DbcManagerConfig::default()))
        } else {
            None
        };
        Ok(LayerParser { config, dbc_manager })
    }

    /// The parser's configuration.
    pub closed spec fn spec_config(self) -> LayerParserConfig {
        self.config
    }

    /// Replaces the dictionary manager.
    pub fn with_dbc_parser(self, manager: DbcManager) -> (r: LayerParser)
        ensures
            r.spec_config() == self.spec_config(),
    {
        LayerParser { config: self.config, dbc_manager: Some(manager) }
    }

    /// The parser's configuration.
    pub fn config(&self) -> (r: &LayerParserConfig)
        ensures
            r == self.spec_config(),
    {
        &self.config
    }

    /// Cuts the outermost layer of a file buffer: the 35-byte header block
    /// and the compressed payload block it declares. A buffer too short for
    /// the header or for the declared payload is an error.
    pub fn parse_layer_0(&self, data: &[u8]) -> (r: Result<ParseResult, ParseError>)
        ensures
            data@.len() >= 35 && 35 + be_u32_of(data@, 31) <= data@.len() ==> (r matches Ok(pr)
                && pr.layer_type == LayerType::Layer0 && pr.data_blocks@.len() == 2
                && pr.data_blocks@[0].ptr_and_len == (0usize, 35usize)
                && pr.data_blocks@[0].block_type == BlockType::Header
                && pr.data_blocks@[1].ptr_and_len.0 == 35
                && pr.data_blocks@[1].ptr_and_len.1 == be_u32_of(data@, 31)
                && pr.data_blocks@[1].block_type == BlockType::CompressedData
                && pr.stats.blocks_parsed == 2),
            data@.len() < 35 ==> (r matches Err(e) && e == ParseError::TruncatedInput),
            data@.len() >= 35 && 35 + be_u32_of(data@, 31) > data@.len() ==> (r matches Err(e) && e
                == ParseError::InvalidHeader),
    {
        if data.len() < 35 {
            return Err(ParseError::TruncatedInput);
        }
        let compressed_length = read_be_u32(data, 31) as usize;
        if compressed_length > data.len() - 35 {
            return Err(ParseError::InvalidHeader);
        }
        let header_block = DataBlock {
            ptr_and_len: (0, 35),
            block_type: BlockType::Header,
            metadata: Some(
                BlockMetadata { original_offset: 0, data_length: 35, timestamp: None },
            ),
        };
        let compressed_block = DataBlock {
            ptr_and_len: (35, compressed_length),
            block_type: BlockType::CompressedData,
            metadata: Some(
                BlockMetadata {
                    original_offset: 35,
                    data_length: compressed_length,
                    timestamp: None,
                },
            ),
        };
        let mut data_blocks: Vec<DataBlock> = Vec::new();
        data_blocks.push(header_block);
        data_blocks.push(compressed_block);
        Ok(
            ParseResult {
                layer_type: LayerType::Layer0,
                data_blocks,
                stats: ParseStats { blocks_parsed: 2, bytes_parsed: data.len(), error_count: 0 },
            },
        )
    }

    /// Cuts one 20-byte-header layer of a buffer into alternating header
    /// and body blocks, stopping at a truncated header or an overlong body.
    pub fn parse_layer_1(&self, data: &[u8]) -> (r: Result<ParseResult, ParseError>)
        ensures
            r matches Ok(pr) && pr.layer_type == LayerType::Layer1 && ({
                let pairs = spec_layer1_pairs(data@, 0);
                &&& pr.data_blocks@.len() == 2 * pairs.len()
                &&& forall|k: int|
                    0 <= k < pairs.len() ==> (#[trigger] pr.data_blocks@[2 * k]).ptr_and_len == (
                        (pairs[k].0) as usize,
                        20usize,
                    ) && pr.data_blocks@[2 * k].block_type == BlockType::Header
                        && pr.data_blocks@[2 * k + 1].ptr_and_len.0 == pairs[k].0 + 20
                        && pr.data_blocks@[2 * k + 1].ptr_and_len.1 == pairs[k].1
                        && pr.data_blocks@[2 * k + 1].block_type == BlockType::UncompressedData
            }),
    {
        let ghost s = data@;
        let mut data_blocks: Vec<DataBlock> = Vec::new();
        let mut off: usize = 0;
        let ghost pairs = spec_layer1_pairs(s, 0);
        proof {
            assert(data_blocks@.len() == 2 * 0);
        }
        while data.len() - off >= 20 && read_be_u32(data, off + 16) as usize <= data.len() - off
            - 20
            invariant
                off <= data@.len(),
                data@ == s,
                pairs == spec_layer1_pairs(s, 0),
                data_blocks@.len() % 2 == 0,
                spec_layer1_pairs(s, 0) == data_blocks_pairs(data_blocks@) + spec_layer1_pairs(
                    s,
                    off as int,
                ),
                forall|k: int|
                    0 <= k < data_blocks@.len() / 2 ==> (#[trigger] data_blocks@[2 * k]).ptr_and_len
                        == ((data_blocks_pairs(data_blocks@)[k].0) as usize, 20usize)
                        && data_blocks@[2 * k].block_type == BlockType::Header && data_blocks@[2 * k
                        + 1].ptr_and_len.0 == data_blocks_pairs(data_blocks@)[k].0 + 20
                        && data_blocks@[2 * k + 1].ptr_and_len.1 == data_blocks_pairs(
                        data_blocks@,
                    )[k].1 && data_blocks@[2 * k + 1].block_type == BlockType::UncompressedData,
            decreases data@.len() - off,
        {
            let block_length = read_be_u32(data, off + 16) as usize;
            let header_block = DataBlock {
                ptr_and_len: (off, 20),
                block_type: BlockType::Header,
                metadata: Some(
                    BlockMetadata { original_offset: off, data_length: 20, timestamp: None },
                ),
            };
            let body_block = DataBlock {
                ptr_and_len: (off + 20, block_length),
                block_type: BlockType::UncompressedData,
                metadata: Some(
                    BlockMetadata {
                        original_offset: off + 20,
                        data_length: block_length,
                        timestamp: None,
                    },
                ),
            };
            let ghost before = data_blocks@;
            data_blocks.push(header_block);
            data_blocks.push(body_block);
            proof {
                assert(data_blocks@ =~= before + seq![header_block, body_block]);
                assert(data_blocks_pairs(data_blocks@) =~= data_blocks_pairs(before) + seq![
                    (off as int, block_length as int),
                ]);
                assert(spec_layer1_pairs(s, off as int) == seq![(off as int, block_length as int)]
                    + spec_layer1_pairs(s, off + 20 + block_length));
                assert(data_blocks_pairs(before) + seq![(off as int, block_length as int)]
                    + spec_layer1_pairs(s, off + 20 + block_length) =~= data_blocks_pairs(before)
                    + (seq![(off as int, block_length as int)] + spec_layer1_pairs(
                    s,
                    off + 20 + block_length,
                )));
            }
            off = off + 20 + block_length;
        }
        proof {
            assert(spec_layer1_pairs(s, off as int) =~= Seq::<(int, int)>::empty());
            assert(data_blocks_pairs(data_blocks@) + Seq::<(int, int)>::empty()
                =~= data_blocks_pairs(data_blocks@));
        }
        let blocks_parsed = data_blocks.len();
        Ok(
            ParseResult {
                layer_type: LayerType::Layer1,
                data_blocks,
                stats: ParseStats {
                    blocks_parsed,
                    bytes_parsed: data.len(),
                    error_count: 0,
                },
            },
        )
    }

    /// Cuts the next 20-byte-header layer; the byte contract is the same as
    /// one layer out.
    pub fn parse_layer_2(&self, data: &[u8]) -> (r: Result<ParseResult, ParseError>)
        ensures
            r matches Ok(pr) && pr.layer_type == LayerType::Layer2 && ({
                let pairs = spec_layer1_pairs(data@, 0);
                &&& pr.data_blocks@.len() == 2 * pairs.len()
                &&& forall|k: int|
                    0 <= k < pairs.len() ==> (#[trigger] pr.data_blocks@[2 * k]).ptr_and_len == (
                        (pairs[k].0) as usize,
                        20usize,
                    ) && pr.data_blocks@[2 * k].block_type == BlockType::Header
                        && pr.data_blocks@[2 * k + 1].ptr_and_len.0 == pairs[k].0 + 20
                        && pr.data_blocks@[2 * k + 1].ptr_and_len.1 == pairs[k].1
                        && pr.data_blocks@[2 * k + 1].block_type == BlockType::UncompressedData
            }),
    {
        let mut result = match self.parse_layer_1(data) {
            Ok(pr) => pr,
            Err(e) => {
                proof {
                    assert(false);
                }
                return Err(e);
            },
        };
        result.layer_type = LayerType::Layer2;
        Ok(result)
    }

    /// Wraps a whole buffer as one frame-data block.
    pub fn parse_final_layer(&self, data: &[u8]) -> (r: Result<ParseResult, ParseError>)
        ensures
            r matches Ok(pr) && pr.layer_type == LayerType::FinalLayer && pr.data_blocks@.len() == 1
                && pr.data_blocks@[0].ptr_and_len == (0usize, data@.len() as usize)
                && pr.data_blocks@[0].block_type == BlockType::FrameData,
    {
        let frame_block = DataBlock {
            ptr_and_len: (0, data.len()),
            block_type: BlockType::FrameData,
            metadata: Some(
                BlockMetadata { original_offset: 0, data_length: data.len(), timestamp: None },
            ),
        };
        let mut data_blocks: Vec<DataBlock> = Vec::new();
        data_blocks.push(frame_block);
        Ok(
            ParseResult {
                layer_type: LayerType::FinalLayer,
                data_blocks,
                stats: ParseStats { blocks_parsed: 1, bytes_parsed: data.len(), error_count: 0 },
            },
        )
    }

    /// Cuts every uncompressed body among the given blocks one layer
    /// further, in order.
    pub fn parse_layer_1_batch(&self, data: &[u8], blocks: &Vec<DataBlock>) -> (r: Result<
        Vec<ParseResult>,
        ParseError,
    >)
        requires
            forall|k: int|
                0 <= k < blocks@.len() && (#[trigger] blocks@[k]).block_type
                    == BlockType::UncompressedData ==> blocks@[k].ptr_and_len.0
                    + blocks@[k].ptr_and_len.1 <= data@.len(),
        ensures
            r matches Ok(v) && v@.len() <= blocks@.len(),
            r matches Ok(v) && forall|k: int|
                0 <= k < v@.len() ==> (#[trigger] v@[k]).layer_type == LayerType::Layer1,
    {
        self.batch_cut(data, blocks, LayerType::Layer1)
    }

    /// Cuts every uncompressed body among the given blocks as the next
    /// layer, in order.
    pub fn parse_layer_2_batch(&self, data: &[u8], blocks: &Vec<DataBlock>) -> (r: Result<
        Vec<ParseResult>,
        ParseError,
    >)
        requires
            forall|k: int|
                0 <= k < blocks@.len() && (#[trigger] blocks@[k]).block_type
                    == BlockType::UncompressedData ==> blocks@[k].ptr_and_len.0
                    + blocks@[k].ptr_and_len.1 <= data@.len(),
        ensures
            r matches Ok(v) && v@.len() <= blocks@.len(),
            r matches Ok(v) && forall|k: int|
                0 <= k < v@.len() ==> (#[trigger] v@[k]).layer_type == LayerType::Layer2,
    {
        self.batch_cut(data, blocks, LayerType::Layer2)
    }

    /// Wraps every uncompressed body among the given blocks as frame data,
    /// in order.
    pub fn parse_final_layer_batch(&self, data: &[u8], blocks: &Vec<DataBlock>) -> (r: Result<
        Vec<ParseResult>,
        ParseError,
    >)
        requires
            forall|k: int|
                0 <= k < blocks@.len() && (#[trigger] blocks@[k]).block_type
                    == BlockType::UncompressedData ==> blocks@[k].ptr_and_len.0
                    + blocks@[k].ptr_and_len.1 <= data@.len(),
        ensures
            r matches Ok(v) && v@.len() <= blocks@.len(),
            r matches Ok(v) && forall|k: int|
                0 <= k < v@.len() ==> (#[trigger] v@[k]).layer_type == LayerType::FinalLayer,
    {
        self.batch_cut(data, blocks, LayerType::FinalLayer)
    }

    /// Cuts every uncompressed body among the given blocks at the named
    /// layer.
    fn batch_cut(&self, data: &[u8], blocks: &Vec<DataBlock>, layer: LayerType) -> (r: Result<
        Vec<ParseResult>,
        ParseError,
    >)
        requires
            layer == LayerType::Layer1 || layer == LayerType::Layer2 || layer
                == LayerType::FinalLayer,
            forall|k: int|
                0 <= k < blocks@.len() && (#[trigger] blocks@[k]).block_type
                    == BlockType::UncompressedData ==> blocks@[k].ptr_and_len.0
                    + blocks@[k].ptr_and_len.1 <= data@.len(),
        ensures
            r matches Ok(v) && v@.len() <= blocks@.len(),
            r matches Ok(v) && forall|k: int|
                0 <= k < v@.len() ==> (#[trigger] v@[k]).layer_type == layer,
    {
        let data_len = data.len();
        let mut results: Vec<ParseResult> = Vec::new();
        let mut i: usize = 0;
        while i < blocks.len()
            invariant
                i <= blocks@.len(),
                data_len == data@.len(),
                results@.len() <= i,
                layer == LayerType::Layer1 || layer == LayerType::Layer2 || layer
                    == LayerType::FinalLayer,
                forall|k: int|
                    0 <= k < blocks@.len() && (#[trigger] blocks@[k]).block_type
                        == BlockType::UncompressedData ==> blocks@[k].ptr_and_len.0
                        + blocks@[k].ptr_and_len.1 <= data@.len(),
                forall|k: int|
                    0 <= k < results@.len() ==> (#[trigger] results@[k]).layer_type == layer,
            decreases blocks@.len() - i,
        {
            let b = blocks[i];
            let is_body = match b.block_type {
                BlockType::UncompressedData => true,
                _ => false,
            };
            if is_body {
                proof {
                    assert(blocks@[i as int].block_type == BlockType::UncompressedData);
                    assert(blocks@[i as int].ptr_and_len.0 + blocks@[i as int].ptr_and_len.1
                        <= data@.len());
                }
                let lo = b.ptr_and_len.0;
                proof {
                    assert(lo + b.ptr_and_len.1 <= data@.len());
                }
                let hi = lo + b.ptr_and_len.1;
                let window = vstd::slice::slice_subrange(data, lo, hi);
                let pr = match layer {
                    LayerType::Layer1 => self.parse_layer_1(window),
                    LayerType::Layer2 => self.parse_layer_2(window),
                    _ => self.parse_final_layer(window),
                };
                match pr {
                    Ok(p) => {
                        results.push(p);
                    },
                    Err(e) => {
                        return Err(e);
                    },
                }
            }
            i = i + 1;
        }
        Ok(results)
    }
}

/// The header-and-body pairs a block list describes: the offset of each
/// header block and the length of the body block after it.
pub open spec fn data_blocks_pairs(blocks: Seq<DataBlock>) -> Seq<(int, int)> {
    Seq::new((blocks.len() / 2) as nat, |k: int| (blocks[2 * k].ptr_and_len.0 as int,
        blocks[2 * k + 1].ptr_and_len.1 as int))
}

} // verus!
