//! Columnar-writer bookkeeping: rows are expanded one per decoded signal,
//! grouped under a partition key computed by the configured policy, and
//! buffered until a flush is due. Encoding and file output happen outside;
//! this module owns every decision about keys, rows, and batch boundaries.

use vstd::prelude::*;
use crate::data_layer::clone_bytes;
use crate::dbc::{ParsedMessage, SpecParsedSignal};
use crate::dbc_text::Decimal;
use crate::parser::{sat_add, usize_sat_add, ParsedFileData};

verus! {

/// Compression codecs the writer may ask of the encoder.
#[derive(Clone, Copy, Debug, PartialEq, Eq)]
pub enum CompressionType {
    /// No compression.
    Uncompressed,
    /// Snappy.
    Snappy,
    /// Gzip.
    Gzip,
    /// Lzo.
    Lzo,
    /// Brotli.
    Brotli,
    /// Lz4.
    Lz4,
    /// Zstd.
    Zstd,
}

/// How rows are grouped into partitions.
#[derive(Clone, Copy, Debug, PartialEq, Eq)]
pub enum PartitionStrategy {
    /// Everything under one constant key.
    NoPartition,
    /// By the hour of the file timestamp.
    Hourly,
    /// By the day of the file timestamp.
    Daily,
    /// By the file index.
    ByFile,
    /// By the single CAN identifier of the chunk, or a mixed-identifier key.
    ByCanId,
}

// A caller-defined policy has no variant here: the caller evaluates its own
// key function and hands the key to `write_parsed_data_with_key`.

/// Writer configuration.
#[derive(Clone, Debug)]
pub struct ColumnarStorageConfig {
    /// Output directory path.
    pub output_dir: Vec<u8>,
    /// Compression codec for the encoder.
    pub compression: CompressionType,
    /// Rows per row group.
    pub row_group_size: usize,
    /// Page size in bytes.
    pub page_size: usize,
    /// Whether dictionary encoding is on.
    pub enable_dictionary: bool,
    /// Whether chunk statistics are on.
    pub enable_statistics: bool,
    /// The partition policy.
    pub partition_strategy: PartitionStrategy,
    /// Rows buffered before a flush.
    pub batch_size: usize,
    /// Bytes after which a partition's file is rotated.
    pub max_file_size: usize,
    /// Whether the raw frame bytes are kept as an extra column.
    pub keep_raw_data: bool,
}

impl Default for ColumnarStorageConfig {
    /// The default configuration: zstd into `output`, 10000-row groups,
    /// 1 MiB pages, dictionary encoding and statistics on, daily
    /// partitions, 1000-row batches, 100 MiB files, raw data off.
    fn default() -> (r: ColumnarStorageConfig)
        ensures
            r.compression == CompressionType::Zstd,
            r.row_group_size == 10000,
            r.page_size == 0x100000,
            r.enable_dictionary,
            r.enable_statistics,
            r.partition_strategy == PartitionStrategy::Daily,
            r.batch_size == 1000,
            r.max_file_size == 0x6400000,
            !r.keep_raw_data,
    {
        let mut output_dir: Vec<u8> = Vec::new();
        output_dir.push(0x6f);
        output_dir.push(0x75);
        output_dir.push(0x74);
        output_dir.push(0x70);
        output_dir.push(0x75);
        output_dir.push(0x74);
        ColumnarStorageConfig {
            output_dir,
            compression: CompressionType::Zstd,
            row_group_size: 10000,
            page_size: 0x100000,
            enable_dictionary: true,
            enable_statistics: true,
            partition_strategy: PartitionStrategy::Daily,
            batch_size: 1000,
            max_file_size: 0x6400000,
            keep_raw_data: false,
        }
    }
}

/// The digits of the hour key chrono renders for a timestamp, UTC
/// `%Y%m%d%H`. The rendering depends on the timestamp alone; this name
/// stands for its result.
pub uninterp spec fn utc_hour_digits_of(ts: u64) -> Seq<u8>;

/// The digits of the day key chrono renders for a timestamp, UTC `%Y%m%d`.
pub uninterp spec fn utc_day_digits_of(ts: u64) -> Seq<u8>;

/// The ASCII bytes of `hour=`.
pub open spec fn hour_prefix() -> Seq<u8> {
    seq![0x68u8, 0x6fu8, 0x75u8, 0x72u8, 0x3du8]
}

/// The ASCII bytes of `day=`.
pub open spec fn day_prefix() -> Seq<u8> {
    seq![0x64u8, 0x61u8, 0x79u8, 0x3du8]
}

/// The ASCII bytes of `file=`.
pub open spec fn file_prefix() -> Seq<u8> {
    seq![0x66u8, 0x69u8, 0x6cu8, 0x65u8, 0x3du8]
}

/// The ASCII bytes of `can_id=`.
pub open spec fn can_id_prefix() -> Seq<u8> {
    seq![0x63u8, 0x61u8, 0x6eu8, 0x5fu8, 0x69u8, 0x64u8, 0x3du8]
}

/// The ASCII bytes of `default`.
pub open spec fn default_key() -> Seq<u8> {
    seq![0x64u8, 0x65u8, 0x66u8, 0x61u8, 0x75u8, 0x6cu8, 0x74u8]
}

/// The ASCII bytes of `mixed_can_ids`.
pub open spec fn mixed_key() -> Seq<u8> {
    seq![
        0x6du8, 0x69u8, 0x78u8, 0x65u8, 0x64u8, 0x5fu8, 0x63u8, 0x61u8, 0x6eu8, 0x5fu8, 0x69u8,
        0x64u8, 0x73u8,
    ]
}

/// Relies on chrono's `DateTime::from_timestamp` and `format("%Y%m%d%H")`:
/// the rendered hour digits are a function of the timestamp alone;
/// timestamps chrono cannot place are rendered as the epoch.
#[verifier::external_body]
fn utc_hour_digits(ts: u64) -> (r: Vec<u8>)
    ensures
        r@ == utc_hour_digits_of(ts),
{
    let dt = chrono::DateTime::from_timestamp(ts as i64, 0).unwrap_or(
        chrono::DateTime::from_timestamp(0, 0).expect("the epoch is representable"),
    );
    format!("{}", dt.format("%Y%m%d%H")).into_bytes()
}

/// Relies on chrono's `DateTime::from_timestamp` and `format("%Y%m%d")`:
/// the rendered day digits are a function of the timestamp alone;
/// timestamps chrono cannot place are rendered as the epoch.
#[verifier::external_body]
fn utc_day_digits(ts: u64) -> (r: Vec<u8>)
    ensures
        r@ == utc_day_digits_of(ts),
{
    let dt = chrono::DateTime::from_timestamp(ts as i64, 0).unwrap_or(
        chrono::DateTime::from_timestamp(0, 0).expect("the epoch is representable"),
    );
    format!("{}", dt.format("%Y%m%d")).into_bytes()
}

/// Prepends a prefix to digit bytes.
fn prefixed_key(prefix: &[u8], digits: &Vec<u8>) -> (r: Vec<u8>)
    ensures
        r@ == prefix@ + digits@,
{
    let mut r: Vec<u8> = Vec::new();
    let mut i: usize = 0;
    while i < prefix.len()
        invariant
            i <= prefix@.len(),
            r@ == prefix@.subrange(0, i as int),
        decreases prefix@.len() - i,
    {
        r.push(prefix[i]);
        proof {
            assert(r@ =~= prefix@.subrange(0, i + 1));
        }
        i = i + 1;
    }
    proof {
        assert(prefix@.subrange(0, prefix@.len() as int) =~= prefix@);
    }
    let mut k: usize = 0;
    while k < digits.len()
        invariant
            k <= digits@.len(),
            r@ == prefix@ + digits@.subrange(0, k as int),
        decreases digits@.len() - k,
    {
        r.push(digits[k]);
        proof {
            assert(r@ =~= prefix@ + digits@.subrange(0, k + 1));
        }
        k = k + 1;
    }
    proof {
        assert(digits@.subrange(0, digits@.len() as int) =~= digits@);
    }
    r
}

/// The decimal digits of a number, most significant first, no leading zero.
pub open spec fn spec_dec_bytes(x: nat) -> Seq<u8>
    decreases x,
{
    if x < 10 {
        seq![(48 + x) as u8]
    } else {
        spec_dec_bytes(x / 10) + seq![(48 + x % 10) as u8]
    }
}

/// Renders a number in decimal.
pub fn u32_to_dec(x: u32) -> (r: Vec<u8>)
    ensures
        r@ == spec_dec_bytes(x as nat),
    decreases x,
{
    if x < 10 {
        let mut r: Vec<u8> = Vec::new();
        r.push(48 + x as u8);
        proof {
            assert(r@ =~= spec_dec_bytes(x as nat));
        }
        r
    } else {
        let mut r = u32_to_dec(x / 10);
        r.push(48 + (x % 10) as u8);
        proof {
            assert(r@ =~= spec_dec_bytes((x / 10) as nat) + seq![(48 + x % 10) as u8]);
        }
        r
    }
}

/// One uppercase hexadecimal digit.
pub open spec fn spec_hex_digit(d: nat) -> u8 {
    if d < 10 {
        (48 + d) as u8
    } else {
        (55 + d) as u8
    }
}

/// The last `n` hexadecimal digits of a number, most significant first.
pub open spec fn spec_hex_bytes(x: nat, n: nat) -> Seq<u8>
    decreases n,
{
    if n == 0 {
        Seq::empty()
    } else {
        spec_hex_bytes(x / 16, (n - 1) as nat) + seq![spec_hex_digit(x % 16)]
    }
}

/// Renders the low `n` hexadecimal digits of a number, uppercase.
pub fn hex_bytes(x: u32, n: u32) -> (r: Vec<u8>)
    ensures
        r@ == spec_hex_bytes(x as nat, n as nat),
    decreases n,
{
    if n == 0 {
        let r: Vec<u8> = Vec::new();
        proof {
            assert(r@ =~= spec_hex_bytes(x as nat, 0));
        }
        r
    } else {
        let mut r = hex_bytes(x / 16, n - 1);
        let d = (x % 16) as u8;
        let b: u8 = if d < 10 {
            48 + d
        } else {
            55 + d
        };
        r.push(b);
        proof {
            assert(r@ =~= spec_hex_bytes((x / 16) as nat, (n - 1) as nat) + seq![
                spec_hex_digit((x as nat) % 16),
            ]);
        }
        r
    }
}

/// Whether the parsed chunk's frames carry exactly one distinct identifier.
pub open spec fn spec_single_can_id(parsed: ParsedFileData) -> bool {
    &&& exists|id: u32| crate::parser::spec_has_can_id(parsed.deep_view().sequences, id)
    &&& forall|a: u32, b: u32|
        crate::parser::spec_has_can_id(parsed.deep_view().sequences, a)
            && crate::parser::spec_has_can_id(parsed.deep_view().sequences, b) ==> a == b
}

/// Computes the partition key of a parsed chunk under a policy.
pub fn partition_key(strategy: PartitionStrategy, parsed: &ParsedFileData) -> (r: Vec<u8>)
    ensures
        strategy == PartitionStrategy::NoPartition ==> r@ == default_key(),
        strategy == PartitionStrategy::Hourly ==> r@ == hour_prefix() + utc_hour_digits_of(
            parsed.file_header.timestamp,
        ),
        strategy == PartitionStrategy::Daily ==> r@ == day_prefix() + utc_day_digits_of(
            parsed.file_header.timestamp,
        ),
        strategy == PartitionStrategy::ByFile ==> r@ == file_prefix() + spec_dec_bytes(
            parsed.file_header.file_index as nat,
        ),
        strategy == PartitionStrategy::ByCanId && spec_single_can_id(*parsed) ==> r@
            == can_id_prefix() + spec_hex_bytes(
            (choose|id: u32|
                crate::parser::spec_has_can_id(parsed.deep_view().sequences, id)) as nat,
            8,
        ),
        strategy == PartitionStrategy::ByCanId && !spec_single_can_id(*parsed) ==> r@
            == mixed_key(),
{
    match strategy {
        PartitionStrategy::NoPartition => {
            let mut r: Vec<u8> = Vec::new();
            r.push(0x64);
            r.push(0x65);
            r.push(0x66);
            r.push(0x61);
            r.push(0x75);
            r.push(0x6c);
            r.push(0x74);
            proof {
                assert(r@ =~= default_key());
            }
            r
        },
        PartitionStrategy::Hourly => {
            let mut prefix: Vec<u8> = Vec::new();
            prefix.push(0x68);
            prefix.push(0x6f);
            prefix.push(0x75);
            prefix.push(0x72);
            prefix.push(0x3d);
            proof {
                assert(prefix@ =~= hour_prefix());
            }
            let digits = utc_hour_digits(parsed.file_header.timestamp);
            prefixed_key(prefix.as_slice(), &digits)
        },
        PartitionStrategy::Daily => {
            let mut prefix: Vec<u8> = Vec::new();
            prefix.push(0x64);
            prefix.push(0x61);
            prefix.push(0x79);
            prefix.push(0x3d);
            proof {
                assert(prefix@ =~= day_prefix());
            }
            let digits = utc_day_digits(parsed.file_header.timestamp);
            prefixed_key(prefix.as_slice(), &digits)
        },
        PartitionStrategy::ByFile => {
            let mut prefix: Vec<u8> = Vec::new();
            prefix.push(0x66);
            prefix.push(0x69);
            prefix.push(0x6c);
            prefix.push(0x65);
            prefix.push(0x3d);
            proof {
                assert(prefix@ =~= file_prefix());
            }
            let digits = u32_to_dec(parsed.file_header.file_index);
            prefixed_key(prefix.as_slice(), &digits)
        },
        PartitionStrategy::ByCanId => {
            let ids = parsed.unique_can_ids();
            proof {
                let deep = parsed.deep_view().sequences;
                if ids@.len() == 1 {
                    assert(ids@.contains(ids@[0])) by {
                        assert(ids@[0] == ids@[0]);
                    }
                    assert(crate::parser::spec_has_can_id(deep, ids@[0]));
                    assert forall|a: u32, b: u32|
                        crate::parser::spec_has_can_id(deep, a) && crate::parser::spec_has_can_id(
                            deep,
                            b,
                        ) implies a == b by {
                        assert(ids@.contains(a));
                        assert(ids@.contains(b));
                        let ka = choose|k: int| 0 <= k < ids@.len() && ids@[k] == a;
                        let kb = choose|k: int| 0 <= k < ids@.len() && ids@[k] == b;
                        assert(ka == 0 && kb == 0);
                    }
                    assert(spec_single_can_id(*parsed));
                    let w = choose|id: u32| crate::parser::spec_has_can_id(deep, id);
                    assert(w == ids@[0]);
                } else if ids@.len() == 0 {
                    assert forall|id: u32| !crate::parser::spec_has_can_id(deep, id) by {
                        if crate::parser::spec_has_can_id(deep, id) {
                            assert(ids@.contains(id));
                        }
                    }
                    assert(!spec_single_can_id(*parsed));
                } else {
                    assert(ids@[0] != ids@[1]);
                    assert(ids@.contains(ids@[0])) by {
                        assert(ids@[0] == ids@[0]);
                    }
                    assert(ids@.contains(ids@[1])) by {
                        assert(ids@[1] == ids@[1]);
                    }
                    assert(crate::parser::spec_has_can_id(deep, ids@[0]));
                    assert(crate::parser::spec_has_can_id(deep, ids@[1]));
                    assert(!spec_single_can_id(*parsed));
                }
            }
            if ids.len() == 1 {
                let mut prefix: Vec<u8> = Vec::new();
                prefix.push(0x63);
                prefix.push(0x61);
                prefix.push(0x6e);
                prefix.push(0x5f);
                prefix.push(0x69);
                prefix.push(0x64);
                prefix.push(0x3d);
                proof {
                    assert(prefix@ =~= can_id_prefix());
                }
                let digits = hex_bytes(ids[0], 8);
                let r = prefixed_key(prefix.as_slice(), &digits);
                r
            } else {
                let mut r: Vec<u8> = Vec::new();
                r.push(0x6d);
                r.push(0x69);
                r.push(0x78);
                r.push(0x65);
                r.push(0x64);
                r.push(0x5f);
                r.push(0x63);
                r.push(0x61);
                r.push(0x6e);
                r.push(0x5f);
                r.push(0x69);
                r.push(0x64);
                r.push(0x73);
                proof {
                    assert(r@ =~= mixed_key());
                }
                r
            }
        },
    }
}

/// One output row: one signal occurrence of one decoded message, with the
/// file context it came from. The physical value is carried exactly as the
/// raw value and the decimal scaling.
#[derive(Clone, Debug)]
pub struct BatchRow {
    /// Path of the source capture file.
    pub source_file: Vec<u8>,
    /// File index from the chunk header.
    pub file_index: u32,
    /// File version from the chunk header.
    pub file_version: u32,
    /// Timestamp of the capture file.
    pub file_timestamp: u64,
    /// Timestamp of the message.
    pub message_timestamp: u64,
    /// CAN identifier.
    pub can_id: u32,
    /// Name of the matched message.
    pub message_name: Vec<u8>,
    /// Data-length code of the frame.
    pub dlc: u8,
    /// Sending node, empty where absent.
    pub sender: Vec<u8>,
    /// Path of the dictionary that matched.
    pub dbc_source: Vec<u8>,
    /// Signal name.
    pub signal_name: Vec<u8>,
    /// Raw signal value.
    pub signal_raw_value: u64,
    /// Scale factor of the signal, exact.
    pub signal_factor: Decimal,
    /// Offset of the signal, exact.
    pub signal_offset: Decimal,
    /// Unit text of the signal.
    pub signal_unit: Vec<u8>,
}

/// Mathematical image of a row.
#[verifier::ext_equal]
pub ghost struct SpecRow {
    /// Path of the source capture file.
    pub source_file: Seq<u8>,
    /// File index.
    pub file_index: u32,
    /// File version.
    pub file_version: u32,
    /// File timestamp.
    pub file_timestamp: u64,
    /// Message timestamp.
    pub message_timestamp: u64,
    /// CAN identifier.
    pub can_id: u32,
    /// Message name.
    pub message_name: Seq<u8>,
    /// Data-length code.
    pub dlc: u8,
    /// Sending node.
    pub sender: Seq<u8>,
    /// Dictionary path.
    pub dbc_source: Seq<u8>,
    /// Signal name.
    pub signal_name: Seq<u8>,
    /// Raw signal value.
    pub signal_raw_value: u64,
    /// Scale factor.
    pub signal_factor: Decimal,
    /// Offset.
    pub signal_offset: Decimal,
    /// Unit text.
    pub signal_unit: Seq<u8>,
}

impl DeepView for BatchRow {
    type V = SpecRow;

    open spec fn deep_view(&self) -> SpecRow {
        SpecRow {
            source_file: self.source_file@,
            file_index: self.file_index,
            file_version: self.file_version,
            file_timestamp: self.file_timestamp,
            message_timestamp: self.message_timestamp,
            can_id: self.can_id,
            message_name: self.message_name@,
            dlc: self.dlc,
            sender: self.sender@,
            dbc_source: self.dbc_source@,
            signal_name: self.signal_name@,
            signal_raw_value: self.signal_raw_value,
            signal_factor: self.signal_factor,
            signal_offset: self.signal_offset,
            signal_unit: self.signal_unit@,
        }
    }
}

/// Context a row inherits from its file and chunk.
#[verifier::ext_equal]
pub ghost struct SpecRowContext {
    /// Path of the source capture file.
    pub source_file: Seq<u8>,
    /// File index.
    pub file_index: u32,
    /// File version.
    pub file_version: u32,
    /// File timestamp.
    pub file_timestamp: u64,
}

/// Image of one decoded message, as rows see it.
#[verifier::ext_equal]
pub ghost struct SpecRowMessage {
    /// CAN identifier.
    pub message_id: u32,
    /// Message name.
    pub name: Seq<u8>,
    /// Data-length code.
    pub dlc: u8,
    /// Sending node.
    pub sender: Seq<u8>,
    /// Message timestamp.
    pub parsed_timestamp: u64,
    /// Dictionary path.
    pub source_dbc: Seq<u8>,
    /// Decoded signals.
    pub signals: Seq<SpecParsedSignal>,
}

impl DeepView for ParsedMessage {
    type V = SpecRowMessage;

    open spec fn deep_view(&self) -> SpecRowMessage {
        SpecRowMessage {
            message_id: self.message_id,
            name: self.name@,
            dlc: self.dlc,
            sender: self.sender@,
            parsed_timestamp: self.parsed_timestamp,
            source_dbc: self.source_dbc@,
            signals: self.signals.deep_view(),
        }
    }
}

/// The row one signal of one message expands to.
pub open spec fn spec_row_of(ctx: SpecRowContext, m: SpecRowMessage, s: SpecParsedSignal) -> SpecRow {
    SpecRow {
        source_file: ctx.source_file,
        file_index: ctx.file_index,
        file_version: ctx.file_version,
        file_timestamp: ctx.file_timestamp,
        message_timestamp: m.parsed_timestamp,
        can_id: m.message_id,
        message_name: m.name,
        dlc: m.dlc,
        sender: m.sender,
        dbc_source: s.source_dbc,
        signal_name: s.name,
        signal_raw_value: s.raw_value,
        signal_factor: s.factor,
        signal_offset: s.offset,
        signal_unit: s.unit,
    }
}

/// The rows of one message: one per decoded signal, in order.
pub open spec fn spec_rows_of_message(ctx: SpecRowContext, m: SpecRowMessage) -> Seq<SpecRow> {
    m.signals.map_values(|s: SpecParsedSignal| spec_row_of(ctx, m, s))
}

/// The rows of a message list, in order.
pub open spec fn spec_rows_of(ctx: SpecRowContext, msgs: Seq<SpecRowMessage>) -> Seq<SpecRow>
    decreases msgs.len(),
{
    if msgs.len() == 0 {
        Seq::empty()
    } else {
        spec_rows_of_message(ctx, msgs[0]) + spec_rows_of(ctx, msgs.drop_first())
    }
}

/// Every message expands to exactly as many rows as it has decoded signals.
pub proof fn lemma_rows_per_message(ctx: SpecRowContext, msgs: Seq<SpecRowMessage>)
    ensures
        spec_rows_of(ctx, msgs).len() == spec_signal_total(msgs),
    decreases msgs.len(),
{
    if msgs.len() > 0 {
        lemma_rows_per_message(ctx, msgs.drop_first());
    }
}

/// Total decoded signals over a message list.
pub open spec fn spec_signal_total(msgs: Seq<SpecRowMessage>) -> nat
    decreases msgs.len(),
{
    if msgs.len() == 0 {
        0
    } else {
        msgs[0].signals.len() + spec_signal_total(msgs.drop_first())
    }
}

/// Expands decoded messages to rows: one row per signal, in message order
/// and signal order.
pub fn expand_rows(
    ctx_source: &Vec<u8>,
    file_index: u32,
    file_version: u32,
    file_timestamp: u64,
    messages: &Vec<ParsedMessage>,
) -> (r: Vec<BatchRow>)
    ensures
        r.deep_view() == spec_rows_of(
            SpecRowContext {
                source_file: ctx_source@,
                file_index,
                file_version,
                file_timestamp,
            },
            messages.deep_view(),
        ),
        r@.len() == spec_signal_total(messages.deep_view()),
{
    let ghost ctx = SpecRowContext {
        source_file: ctx_source@,
        file_index,
        file_version,
        file_timestamp,
    };
    let ghost all = messages.deep_view();
    proof {
        assert(all.skip(0) =~= all);
    }
    let mut r: Vec<BatchRow> = Vec::new();
    let mut i: usize = 0;
    while i < messages.len()
        invariant
            i <= messages@.len(),
            all == messages.deep_view(),
            all.len() == messages@.len(),
            ctx == (SpecRowContext {
                source_file: ctx_source@,
                file_index,
                file_version,
                file_timestamp,
            }),
            r.deep_view() + spec_rows_of(ctx, all.skip(i as int)) == spec_rows_of(ctx, all),
        decreases messages@.len() - i,
    {
        proof {
            assert(all.skip(i as int).drop_first() =~= all.skip(i + 1));
            assert(all.skip(i as int)[0] == all[i as int]);
        }
        let m = &messages[i];
        let ghost mspec = all[i as int];
        let ghost msg_rows = spec_rows_of_message(ctx, mspec);
        let mut j: usize = 0;
        while j < m.signals.len()
            invariant
                j <= m.signals@.len(),
                ctx == (SpecRowContext {
                    source_file: ctx_source@,
                    file_index,
                    file_version,
                    file_timestamp,
                }),
                mspec == m.deep_view(),
                mspec == all[i as int],
                mspec.signals.len() == m.signals@.len(),
                msg_rows == spec_rows_of_message(ctx, mspec),
                r.deep_view() + msg_rows.skip(j as int) + spec_rows_of(ctx, all.skip(i + 1))
                    == spec_rows_of(ctx, all),
            decreases m.signals@.len() - j,
        {
            let s = &m.signals[j];
            let row = BatchRow {
                source_file: clone_bytes(ctx_source),
                file_index,
                file_version,
                file_timestamp,
                message_timestamp: m.parsed_timestamp,
                can_id: m.message_id,
                message_name: clone_bytes(&m.name),
                dlc: m.dlc,
                sender: clone_bytes(&m.sender),
                dbc_source: clone_bytes(&s.source_dbc),
                signal_name: clone_bytes(&s.name),
                signal_raw_value: s.raw_value,
                signal_factor: s.factor,
                signal_offset: s.offset,
                signal_unit: clone_bytes(&s.unit),
            };
            let ghost deep_before = r.deep_view();
            proof {
                assert(msg_rows.len() == mspec.signals.len());
                assert(msg_rows[j as int] == spec_row_of(ctx, mspec, mspec.signals[j as int]));
                assert(m.signals.deep_view()[j as int] == m.signals@[j as int].deep_view());
                assert(s.deep_view() == mspec.signals[j as int]);
                assert(row.deep_view() =~= msg_rows[j as int]);
            }
            r.push(row);
            proof {
                assert(r.deep_view() =~= deep_before + seq![row.deep_view()]);
                assert(msg_rows.skip(j as int) =~= seq![msg_rows[j as int]] + msg_rows.skip(j + 1));
                assert((deep_before + seq![msg_rows[j as int]]) + msg_rows.skip(j + 1)
                    =~= deep_before + msg_rows.skip(j as int));
                assert(r.deep_view() + msg_rows.skip(j + 1) + spec_rows_of(ctx, all.skip(i + 1))
                    =~= deep_before + msg_rows.skip(j as int) + spec_rows_of(ctx, all.skip(i + 1)));
            }
            j = j + 1;
        }
        proof {
            assert(msg_rows.skip(msg_rows.len() as int) =~= Seq::<SpecRow>::empty());
            assert(r.deep_view() + Seq::<SpecRow>::empty() =~= r.deep_view());
            assert(spec_rows_of(ctx, all.skip(i as int)) == msg_rows + spec_rows_of(
                ctx,
                all.skip(i + 1),
            ));
            assert(msg_rows.skip(0) =~= msg_rows);
        }
        i = i + 1;
    }
    proof {
        assert(all.skip(all.len() as int) =~= Seq::<SpecRowMessage>::empty());
        assert(r.deep_view() + Seq::<SpecRow>::empty() =~= r.deep_view());
        lemma_rows_per_message(ctx, all);
        assert(r@.len() == r.deep_view().len());
    }
    r
}

/// Counters the writer keeps.
#[derive(Clone, Copy, Debug, PartialEq, Eq)]
pub struct StorageStats {
    /// Parsed chunks handed to the writer.
    pub files_processed: usize,
    /// Rows buffered over the writer's lifetime.
    pub rows_written: usize,
    /// Bytes the encoder reported written.
    pub bytes_written: usize,
    /// Output files opened.
    pub output_files: usize,
}

/// One partition's buffered state.
pub struct PartitionState {
    /// The partition key.
    pub key: Vec<u8>,
    /// Rows waiting to be flushed.
    pub pending: Vec<BatchRow>,
    /// Rows handed to the encoder so far.
    pub rows_flushed: usize,
    /// Bytes the encoder reported for this partition.
    pub bytes_written: usize,
}

/// The writer's bookkeeping: buffered rows per partition and counters. The
/// encoder and the files live outside; this state decides what goes where
/// and when a flush is due.
pub struct ColumnarStorageWriter {
    /// Writer configuration.
    pub config: ColumnarStorageConfig,
    /// One buffered state per partition key, in creation order.
    pub partitions: Vec<PartitionState>,
    /// Counters.
    pub stats: StorageStats,
}

/// How one buffering call changes the writer: the rows land at the end of
/// the partition holding the key, which is created at the end of the list
/// (counting one more output file) when absent; every other partition is
/// untouched.
pub open spec fn spec_buffered(
    before: ColumnarStorageWriter,
    after: ColumnarStorageWriter,
    key: Seq<u8>,
    rows: Seq<SpecRow>,
) -> bool {
    match spec_partition_index(before.partitions@, key) {
        Some(i) => {
            &&& after.partitions@.len() == before.partitions@.len()
            &&& after.partitions@[i].key@ == key
            &&& after.partitions@[i].pending.deep_view() == before.partitions@[
                i
            ].pending.deep_view() + rows
            &&& after.stats.output_files == before.stats.output_files
            &&& forall|j: int|
                0 <= j < before.partitions@.len() && j != i ==> after.partitions@[j]
                    == before.partitions@[j]
        },
        None => {
            &&& after.partitions@.len() == before.partitions@.len() + 1
            &&& after.partitions@.last().key@ == key
            &&& after.partitions@.last().pending.deep_view() == rows
            &&& after.stats.output_files == sat_add(before.stats.output_files as int, 1)
            &&& forall|j: int|
                0 <= j < before.partitions@.len() ==> after.partitions@[j]
                    == before.partitions@[j]
        },
    }
}

/// The first partition holding the given key.
pub open spec fn spec_partition_index(parts: Seq<PartitionState>, key: Seq<u8>) -> Option<int>
    decreases parts.len(),
{
    if parts.len() == 0 {
        None
    } else if parts[0].key@ == key {
        Some(0)
    } else {
        match spec_partition_index(parts.drop_first(), key) {
            Some(k) => Some(k + 1),
            None => None,
        }
    }
}

/// A found partition index is in range and matches, and no earlier one does.
pub proof fn lemma_partition_index_found(parts: Seq<PartitionState>, key: Seq<u8>, i: int)
    requires
        0 <= i <= parts.len(),
        forall|j: int| 0 <= j < i ==> parts[j].key@ != key,
        i == parts.len() || parts[i].key@ == key,
    ensures
        spec_partition_index(parts, key) == if i == parts.len() {
            Option::<int>::None
        } else {
            Option::<int>::Some(i)
        },
    decreases i,
{
    if i == 0 {
        if parts.len() > 0 && parts[0].key@ != key {
            lemma_partition_index_found(parts.drop_first(), key, (parts.len() - 1) as int);
        }
    } else {
        lemma_partition_index_found(parts.drop_first(), key, i - 1);
    }
}

impl ColumnarStorageWriter {
    /// A writer with no partitions and zeroed counters.
    pub fn new(config: ColumnarStorageConfig) -> (r: ColumnarStorageWriter)
        ensures
            r.config == config,
            r.partitions@.len() == 0,
            r.stats == (StorageStats {
                files_processed: 0,
                rows_written: 0,
                bytes_written: 0,
                output_files: 0,
            }),
    {
        ColumnarStorageWriter {
            config,
            partitions: Vec::new(),
            stats: StorageStats {
                files_processed: 0,
                rows_written: 0,
                bytes_written: 0,
                output_files: 0,
            },
        }
    }

    /// Finds the partition holding the given key.
    fn find_partition(&self, key: &Vec<u8>) -> (r: Option<usize>)
        ensures
            match r {
                Some(i) => spec_partition_index(self.partitions@, key@) == Some(i as int) && i
                    < self.partitions@.len() && self.partitions@[i as int].key@ == key@,
                None => spec_partition_index(self.partitions@, key@) is None,
            },
    {
        let mut i: usize = 0;
        while i < self.partitions.len()
            invariant
                i <= self.partitions@.len(),
                forall|j: int| 0 <= j < i ==> self.partitions@[j].key@ != key@,
            decreases self.partitions@.len() - i,
        {
            if crate::dbc::bytes_eq(&self.partitions[i].key, key) {
                proof {
                    lemma_partition_index_found(self.partitions@, key@, i as int);
                }
                return Some(i);
            }
            i = i + 1;
        }
        proof {
            lemma_partition_index_found(self.partitions@, key@, self.partitions@.len() as int);
        }
        None
    }

    /// Buffers the rows of one parsed chunk's decoded messages under the
    /// chunk's partition key, creating the partition on first use. Counts
    /// one processed chunk and the buffered rows.
    pub fn write_parsed_data(
        &mut self,
        parsed: &ParsedFileData,
        messages: &Vec<ParsedMessage>,
        source_path: &Vec<u8>,
    )
        ensures
            final(self).config == old(self).config,
            spec_buffered(
                *old(self),
                *final(self),
                spec_key_of(old(self).config.partition_strategy, *parsed),
                spec_rows_of(
                    SpecRowContext {
                        source_file: source_path@,
                        file_index: parsed.file_header.file_index,
                        file_version: parsed.file_header.version,
                        file_timestamp: parsed.file_header.timestamp,
                    },
                    messages.deep_view(),
                ),
            ),
            final(self).stats.files_processed == sat_add(old(self).stats.files_processed as int, 1),
            final(self).stats.rows_written == sat_add(
                old(self).stats.rows_written as int,
                spec_signal_total(messages.deep_view()) as int,
            ),
            final(self).stats.bytes_written == old(self).stats.bytes_written,
    {
        let key = partition_key(self.config.partition_strategy, parsed);
        proof {
            let st = self.config.partition_strategy;
            match st {
                PartitionStrategy::NoPartition => {
                    assert(key@ == spec_key_of(st, *parsed));
                },
                PartitionStrategy::Hourly => {
                    assert(key@ == spec_key_of(st, *parsed));
                },
                PartitionStrategy::Daily => {
                    assert(key@ == spec_key_of(st, *parsed));
                },
                PartitionStrategy::ByFile => {
                    assert(key@ == spec_key_of(st, *parsed));
                },
                PartitionStrategy::ByCanId => {
                    if spec_single_can_id(*parsed) {
                        assert(key@ == spec_key_of(st, *parsed));
                    } else {
                        assert(key@ == spec_key_of(st, *parsed));
                    }
                },
            }
        }
        self.write_parsed_data_with_key(parsed, messages, source_path, key);
    }

    /// Buffers the rows of one parsed chunk under a key the caller computed
    /// itself — the way a caller-defined partition policy takes part: the
    /// caller maps the parsed chunk to a key and the writer does the rest.
    pub fn write_parsed_data_with_key(
        &mut self,
        parsed: &ParsedFileData,
        messages: &Vec<ParsedMessage>,
        source_path: &Vec<u8>,
        key: Vec<u8>,
    )
        ensures
            final(self).config == old(self).config,
            spec_buffered(
                *old(self),
                *final(self),
                key@,
                spec_rows_of(
                    SpecRowContext {
                        source_file: source_path@,
                        file_index: parsed.file_header.file_index,
                        file_version: parsed.file_header.version,
                        file_timestamp: parsed.file_header.timestamp,
                    },
                    messages.deep_view(),
                ),
            ),
            final(self).stats.files_processed == sat_add(old(self).stats.files_processed as int, 1),
            final(self).stats.rows_written == sat_add(
                old(self).stats.rows_written as int,
                spec_signal_total(messages.deep_view()) as int,
            ),
            final(self).stats.bytes_written == old(self).stats.bytes_written,
    {
        let mut rows = expand_rows(
            source_path,
            parsed.file_header.file_index,
            parsed.file_header.version,
            parsed.file_header.timestamp,
            messages,
        );
        let n_rows = rows.len();
        let found = self.find_partition(&key);
        match found {
            Some(i) => {
                let ghost before = self.partitions@;
                let mut part = self.partitions.remove(i);
                let ghost pending_before = part.pending.deep_view();
                let ghost rows_deep = rows.deep_view();
                part.pending.append(&mut rows);
                proof {
                    assert(part.pending.deep_view() =~= pending_before + rows_deep);
                }
                self.partitions.insert(i, part);
                proof {
                    assert(self.partitions@.len() == before.len());
                    assert forall|j: int|
                        0 <= j < self.partitions@.len() && j != i implies self.partitions@[j]
                        == before[j] by {
                        if j < i {
                            assert(self.partitions@[j] == before.remove(i as int)[j]);
                        } else {
                            assert(self.partitions@[j] == before.remove(i as int)[j - 1]);
                            assert(before.remove(i as int)[j - 1] == before[j]);
                        }
                    }
                }
            },
            None => {
                let part = PartitionState { key, pending: rows, rows_flushed: 0, bytes_written: 0 };
                self.partitions.push(part);
                self.stats.output_files = usize_sat_add(self.stats.output_files, 1);
            },
        }
        self.stats.files_processed = usize_sat_add(self.stats.files_processed, 1);
        self.stats.rows_written = usize_sat_add(self.stats.rows_written, n_rows);
    }

    /// Whether the partition's buffer is due for a flush: its pending rows
    /// have reached the batch size or its file has reached the size limit.
    pub fn needs_flush(&self, i: usize) -> (r: bool)
        requires
            i < self.partitions@.len(),
        ensures
            r == (self.partitions@[i as int].pending@.len() >= self.config.batch_size
                || self.partitions@[i as int].bytes_written >= self.config.max_file_size),
    {
        self.partitions[i].pending.len() >= self.config.batch_size
            || self.partitions[i].bytes_written >= self.config.max_file_size
    }

    /// Hands out a partition's pending rows for encoding and counts them as
    /// flushed; the buffer is left empty.
    pub fn take_pending(&mut self, i: usize) -> (r: Vec<BatchRow>)
        requires
            i < old(self).partitions@.len(),
        ensures
            final(self).config == old(self).config,
            final(self).stats == old(self).stats,
            r.deep_view() == old(self).partitions@[i as int].pending.deep_view(),
            final(self).partitions@.len() == old(self).partitions@.len(),
            final(self).partitions@[i as int].pending@.len() == 0,
            final(self).partitions@[i as int].key@ == old(self).partitions@[i as int].key@,
            final(self).partitions@[i as int].bytes_written == old(self).partitions@[i as int].bytes_written,
            final(self).partitions@[i as int].rows_flushed == sat_add(
                old(self).partitions@[i as int].rows_flushed as int,
                old(self).partitions@[i as int].pending@.len() as int,
            ),
            forall|j: int|
                0 <= j < old(self).partitions@.len() && j != i ==> final(self).partitions@[j]
                    == old(self).partitions@[j],
    {
        let ghost before = self.partitions@;
        let mut part = self.partitions.remove(i);
        let n = part.pending.len();
        let mut out: Vec<BatchRow> = Vec::new();
        core::mem::swap(&mut out, &mut part.pending);
        part.rows_flushed = usize_sat_add(part.rows_flushed, n);
        self.partitions.insert(i, part);
        proof {
            assert(self.partitions@.len() == before.len());
            assert forall|j: int|
                0 <= j < self.partitions@.len() && j != i implies self.partitions@[j]
                == before[j] by {
                if j < i {
                    assert(self.partitions@[j] == before.remove(i as int)[j]);
                } else {
                    assert(self.partitions@[j] == before.remove(i as int)[j - 1]);
                    assert(before.remove(i as int)[j - 1] == before[j]);
                }
            }
        }
        out
    }

    /// Records the bytes an encoder reported after flushing a partition.
    pub fn record_flush(&mut self, i: usize, bytes: usize)
        requires
            i < old(self).partitions@.len(),
        ensures
            final(self).config == old(self).config,
            final(self).partitions@.len() == old(self).partitions@.len(),
            final(self).partitions@[i as int].bytes_written == sat_add(
                old(self).partitions@[i as int].bytes_written as int,
                bytes as int,
            ),
            final(self).partitions@[i as int].key@ == old(self).partitions@[i as int].key@,
            final(self).partitions@[i as int].pending@ == old(self).partitions@[i as int].pending@,
            final(self).partitions@[i as int].rows_flushed == old(self).partitions@[i as int].rows_flushed,
            final(self).stats.bytes_written == sat_add(
                old(self).stats.bytes_written as int,
                bytes as int,
            ),
            final(self).stats.files_processed == old(self).stats.files_processed,
            final(self).stats.rows_written == old(self).stats.rows_written,
            final(self).stats.output_files == old(self).stats.output_files,
            forall|j: int|
                0 <= j < old(self).partitions@.len() && j != i ==> final(self).partitions@[j]
                    == old(self).partitions@[j],
    {
        let ghost before = self.partitions@;
        let mut part = self.partitions.remove(i);
        part.bytes_written = usize_sat_add(part.bytes_written, bytes);
        self.partitions.insert(i, part);
        self.stats.bytes_written = usize_sat_add(self.stats.bytes_written, bytes);
        proof {
            assert(self.partitions@.len() == before.len());
            assert forall|j: int|
                0 <= j < self.partitions@.len() && j != i implies self.partitions@[j]
                == before[j] by {
                if j < i {
                    assert(self.partitions@[j] == before.remove(i as int)[j]);
                } else {
                    assert(self.partitions@[j] == before.remove(i as int)[j - 1]);
                    assert(before.remove(i as int)[j - 1] == before[j]);
                }
            }
        }
    }

    /// How many partitions the writer holds.
    pub fn partition_count(&self) -> (r: usize)
        ensures
            r == self.partitions@.len(),
    {
        self.partitions.len()
    }

    /// The counters gathered so far.
    pub fn get_stats(&self) -> (r: StorageStats)
        ensures
            r == self.stats,
    {
        self.stats
    }
}

/// The partition key a policy gives a parsed chunk.
pub open spec fn spec_key_of(strategy: PartitionStrategy, parsed: ParsedFileData) -> Seq<u8> {
    match strategy {
        PartitionStrategy::NoPartition => default_key(),
        PartitionStrategy::Hourly => hour_prefix() + utc_hour_digits_of(
            parsed.file_header.timestamp,
        ),
        PartitionStrategy::Daily => day_prefix() + utc_day_digits_of(parsed.file_header.timestamp),
        PartitionStrategy::ByFile => file_prefix() + spec_dec_bytes(
            parsed.file_header.file_index as nat,
        ),
        PartitionStrategy::ByCanId => if spec_single_can_id(parsed) {
            can_id_prefix() + spec_hex_bytes(
                (choose|id: u32|
                    crate::parser::spec_has_can_id(parsed.deep_view().sequences, id)) as nat,
                8,
            )
        } else {
            mixed_key()
        },
    }
}

} // verus!
