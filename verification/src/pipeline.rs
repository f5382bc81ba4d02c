//! Orchestration rules: batching of input files, bounded retries with
//! exponential backoff, memory-pressure gating, and the aggregation of
//! per-file results into batch results. The surrounding runtime performs
//! the waiting and the I/O; every decision is made here.

use vstd::prelude::*;
use crate::parser::{sat_add, usize_sat_add, ParsingStats};
use crate::dbc::DbcParsingStats;
use crate::storage::StorageStats;

verus! {

/// Orchestrator configuration.
#[derive(Clone, Copy, Debug, PartialEq, Eq)]
pub struct PipelineConfig {
    /// Files per batch.
    pub batch_size: usize,
    /// Files processed at once within a batch.
    pub max_concurrent_files: usize,
    /// Whether failed files are retried.
    pub enable_error_recovery: bool,
    /// Retries allowed per file beyond the first attempt.
    pub max_retries: usize,
    /// Seconds before a file's processing is abandoned.
    pub processing_timeout_seconds: u64,
    /// Memory-pressure threshold in permille of total memory.
    pub memory_pressure_permille: u32,
    /// Whether progress is reported while running.
    pub enable_progress_reporting: bool,
    /// Seconds between progress reports.
    pub progress_report_interval: u64,
}

impl Default for PipelineConfig {
    /// The default configuration: 50-file batches, twice the processor
    /// count of concurrent files, recovery on with 3 retries, a 5-minute
    /// timeout, pressure at 800 permille, progress every 30 seconds.
    fn default() -> (r: PipelineConfig)
        ensures
            r.batch_size == 50,
            r.max_concurrent_files >= 2,
            r.enable_error_recovery,
            r.max_retries == 3,
            r.processing_timeout_seconds == 300,
            r.memory_pressure_permille == 800,
            r.enable_progress_reporting,
            r.progress_report_interval == 30,
    {
        let cpus = num_cpus::get();
        let concurrent = if cpus > usize::MAX / 2 {
            usize::MAX
        } else {
            cpus * 2
        };
        PipelineConfig {
            batch_size: 50,
            max_concurrent_files: concurrent,
            enable_error_recovery: true,
            max_retries: 3,
            processing_timeout_seconds: 300,
            memory_pressure_permille: 800,
            enable_progress_reporting: true,
            progress_report_interval: 30,
        }
    }
}

/// The backoff in milliseconds before a retry, indexed by the retries
/// already made before it: the first retry (no retries made yet) waits one
/// second, each further retry doubles the wait, capped at ten seconds.
pub open spec fn spec_backoff_ms(retries_made: nat) -> nat {
    if vstd::arithmetic::power2::pow2(retries_made) * 1000 > 10000 {
        10000
    } else {
        vstd::arithmetic::power2::pow2(retries_made) * 1000
    }
}

/// Computes the backoff before a retry from the retries already made:
/// `1000 * 2^retries_made` milliseconds, capped at 10000 ms, so the waits
/// run one second, two, four, eight, then ten.
pub fn backoff_ms(retries_made: usize) -> (r: u64)
    ensures
        r == spec_backoff_ms(retries_made as nat),
        r <= 10000,
        retries_made == 0 ==> r == 1000,
        retries_made >= 4 ==> r == 10000,
{
    proof {
        vstd::arithmetic::power2::lemma2_to64();
    }
    if retries_made >= 4 {
        proof {
            if retries_made > 4 {
                vstd::arithmetic::power2::lemma_pow2_strictly_increases(4, retries_made as nat);
            }
        }
        10000
    } else {
        let p = crate::bits::pow2_u64(retries_made as u64);
        if p * 1000 > 10000 {
            10000
        } else {
            p * 1000
        }
    }
}

/// The backoff sequence never exceeds ten seconds, and the waits before
/// the first retries are one, two, four, and eight seconds.
pub proof fn lemma_backoff_bounded(retries_made: nat)
    ensures
        spec_backoff_ms(retries_made) <= 10000,
        retries_made == 0 ==> spec_backoff_ms(retries_made) == 1000,
        retries_made == 1 ==> spec_backoff_ms(retries_made) == 2000,
        retries_made == 2 ==> spec_backoff_ms(retries_made) == 4000,
        retries_made == 3 ==> spec_backoff_ms(retries_made) == 8000,
        retries_made >= 4 ==> spec_backoff_ms(retries_made) == 10000,
{
    vstd::arithmetic::power2::lemma2_to64();
    if retries_made >= 4 {
        if retries_made > 4 {
            vstd::arithmetic::power2::lemma_pow2_strictly_increases(4, retries_made);
        }
    }
}

/// Whether a failed attempt is retried: recovery must be on and the
/// retries made so far must stay under the limit.
pub fn should_retry(retries_made: usize, max_retries: usize, enable_recovery: bool) -> (r: bool)
    ensures
        r == (enable_recovery && retries_made < max_retries),
{
    enable_recovery && retries_made < max_retries
}

/// How many attempts a file takes, given which attempts would fail: the
/// first attempt always runs; every failed attempt is retried while
/// recovery is on and fewer than `max_retries` retries were made; the walk
/// stops at the first success.
pub open spec fn spec_attempts(fails: Seq<bool>, max_retries: nat, recovery: bool, k: nat) -> nat
    decreases fails.len() - k,
{
    if k >= fails.len() || !fails[k as int] {
        k + 1
    } else if recovery && k < max_retries {
        spec_attempts(fails, max_retries, recovery, k + 1)
    } else {
        k + 1
    }
}

/// A file is attempted at most `max_retries + 1` times, whatever fails.
pub proof fn lemma_attempts_bounded(fails: Seq<bool>, max_retries: nat, recovery: bool, k: nat)
    requires
        k <= max_retries,
    ensures
        spec_attempts(fails, max_retries, recovery, k) <= max_retries + 1,
    decreases fails.len() - k,
{
    if k >= fails.len() || !fails[k as int] {
    } else if recovery && k < max_retries {
        lemma_attempts_bounded(fails, max_retries, recovery, k + 1);
    }
}

/// Runs the retry loop of one file against a recorded failure pattern:
/// attempt `k` fails exactly when `fails[k]` holds (attempts past the
/// pattern succeed). Returns the attempts made and whether the file ended
/// in success; the attempt count never exceeds `max_retries + 1`.
pub fn retry_attempts(fails: &Vec<bool>, max_retries: usize, recovery: bool) -> (r: (usize, bool))
    requires
        max_retries < usize::MAX,
    ensures
        r.0 == spec_attempts(fails@, max_retries as nat, recovery, 0),
        r.0 <= max_retries + 1,
        r.1 == (r.0 > fails@.len() || !fails@[r.0 - 1]),
{
    let mut k: usize = 0;
    loop
        invariant
            k <= max_retries,
            k <= fails@.len() || k == 0,
            max_retries < usize::MAX,
            spec_attempts(fails@, max_retries as nat, recovery, 0) == spec_attempts(
                fails@,
                max_retries as nat,
                recovery,
                k as nat,
            ),
        ensures
            k < usize::MAX,
            spec_attempts(fails@, max_retries as nat, recovery, 0) == k + 1,
            (k >= fails@.len() || !fails@[k as int]) == (k + 1 > fails@.len() || !fails@[k as int]),
        decreases fails@.len() - k,
    {
        if k >= fails.len() || !fails[k] {
            break ;
        }
        if recovery && k < max_retries {
            k = k + 1;
        } else {
            break ;
        }
    }
    proof {
        lemma_attempts_bounded(fails@, max_retries as nat, recovery, 0);
    }
    (k + 1, k >= fails.len() || !fails[k])
}

/// Whether memory use crosses the configured pressure threshold: used over
/// total, compared in permille; an empty total is never under pressure.
pub fn is_memory_pressure(used: u64, total: u64, threshold_permille: u32) -> (r: bool)
    ensures
        total > 0 ==> r == (used as int * 1000 > total as int * threshold_permille),
        total == 0 ==> r == false,
{
    if total == 0 {
        return false;
    }
    proof {
        assert(total as int * threshold_permille as int <= u128::MAX) by (nonlinear_arith)
            requires
                total <= u64::MAX,
                threshold_permille <= u32::MAX,
        ;
    }
    let lhs: u128 = used as u128 * 1000;
    let rhs: u128 = total as u128 * threshold_permille as u128;
    lhs > rhs
}

/// The stage a per-file job is in.
#[derive(Clone, Copy, Debug, PartialEq, Eq, Hash)]
pub enum PipelineStage {
    /// The file is being mapped.
    FileMapping,
    /// The outermost layer is being cut.
    Layer0Parsing,
    /// The gzip payload is being decompressed.
    Decompression,
    /// The first 20-byte-header layer is being cut.
    Layer1Parsing,
    /// The next 20-byte-header layer is being cut.
    Layer2Parsing,
    /// Frames are being read.
    FinalLayerParsing,
    /// Rows are being written.
    Output,
}

/// One per-file job and what it has gathered so far.
#[derive(Debug)]
pub struct PipelineTask {
    /// Job identifier, `task_` and the creation time.
    pub id: Vec<u8>,
    /// Path of the file.
    pub file_path: Vec<u8>,
    /// The stage the job is in.
    pub stage: PipelineStage,
    /// Blocks cut so far.
    pub data_blocks: Vec<crate::layer_parser::DataBlock>,
    /// Layer results gathered so far.
    pub parse_results: Vec<crate::layer_parser::ParseResult>,
    /// Buffers the job holds.
    pub memory_blocks: Vec<crate::memory::MemoryBlock>,
    /// When the job was created, nanoseconds.
    pub created_at_nanos: u64,
}

/// The ASCII bytes of `task_`.
pub open spec fn task_prefix() -> Seq<u8> {
    seq![0x74u8, 0x61u8, 0x73u8, 0x6bu8, 0x5fu8]
}

/// Renders a count in decimal.
pub fn u64_to_dec(x: u64) -> (r: Vec<u8>)
    ensures
        r@ == crate::storage::spec_dec_bytes(x as nat),
    decreases x,
{
    if x < 10 {
        let mut r: Vec<u8> = Vec::new();
        r.push(48 + x as u8);
        proof {
            assert(r@ =~= crate::storage::spec_dec_bytes(x as nat));
        }
        r
    } else {
        let mut r = u64_to_dec(x / 10);
        r.push(48 + (x % 10) as u8);
        proof {
            assert(r@ =~= crate::storage::spec_dec_bytes((x / 10) as nat) + seq![
                (48 + x % 10) as u8,
            ]);
        }
        r
    }
}

impl PipelineTask {
    /// A fresh job for a file, at the mapping stage, named after its
    /// creation time.
    pub fn new(file_path: Vec<u8>, created_at_nanos: u64) -> (r: PipelineTask)
        ensures
            r.id@ == task_prefix() + crate::storage::spec_dec_bytes(created_at_nanos as nat),
            r.file_path@ == file_path@,
            r.stage == PipelineStage::FileMapping,
            r.data_blocks@.len() == 0,
            r.parse_results@.len() == 0,
            r.memory_blocks@.len() == 0,
            r.created_at_nanos == created_at_nanos,
    {
        let mut id: Vec<u8> = Vec::new();
        id.push(0x74);
        id.push(0x61);
        id.push(0x73);
        id.push(0x6b);
        id.push(0x5f);
        let ghost prefix = id@;
        proof {
            assert(prefix =~= task_prefix());
        }
        let digits = u64_to_dec(created_at_nanos);
        let mut k: usize = 0;
        while k < digits.len()
            invariant
                k <= digits@.len(),
                id@ == task_prefix() + digits@.subrange(0, k as int),
            decreases digits@.len() - k,
        {
            id.push(digits[k]);
            proof {
                assert(id@ =~= task_prefix() + digits@.subrange(0, k + 1));
            }
            k = k + 1;
        }
        proof {
            assert(digits@.subrange(0, digits@.len() as int) =~= digits@);
        }
        PipelineTask {
            id,
            file_path,
            stage: PipelineStage::FileMapping,
            data_blocks: Vec::new(),
            parse_results: Vec::new(),
            memory_blocks: Vec::new(),
            created_at_nanos,
        }
    }
}

/// The outcome of one file.
#[derive(Clone, Debug)]
pub struct FileProcessingResult {
    /// Path of the file.
    pub file_path: Vec<u8>,
    /// Whether processing succeeded.
    pub success: bool,
    /// The error kind on failure.
    pub error: Option<crate::data_layer::ParseError>,
    /// Wall time spent, milliseconds.
    pub processing_time_ms: u64,
    /// Decoded messages produced.
    pub parsed_messages: usize,
    /// Decoded signals produced.
    pub parsed_signals: usize,
    /// Size of the file in bytes.
    pub file_size: u64,
    /// Retries made before this outcome.
    pub retries_made: usize,
}

/// The outcome of one batch.
#[derive(Clone, Debug)]
pub struct BatchProcessingResult {
    /// Index of the batch.
    pub batch_id: usize,
    /// Per-file outcomes.
    pub file_results: Vec<FileProcessingResult>,
    /// Wall time of the batch, milliseconds.
    pub batch_time_ms: u64,
    /// Files that succeeded.
    pub successful_files: usize,
    /// Files that failed.
    pub failed_files: usize,
    /// Retries made over the batch's files.
    pub retried_files: usize,
}

/// How many results in a list report success.
pub open spec fn spec_success_count(results: Seq<SpecFileResult>) -> nat
    decreases results.len(),
{
    if results.len() == 0 {
        0
    } else {
        (if results[0].success {
            1nat
        } else {
            0nat
        }) + spec_success_count(results.drop_first())
    }
}

/// Aggregates per-file outcomes into a batch outcome: successes, failures
/// and retries are counted exactly, and successes plus failures sum to the
/// number of files.
pub fn aggregate_batch(batch_id: usize, file_results: Vec<FileProcessingResult>, batch_time_ms: u64)
    -> (r: BatchProcessingResult)
    ensures
        r.batch_id == batch_id,
        r.batch_time_ms == batch_time_ms,
        r.file_results@ == file_results@,
        r.successful_files == sat_add(0, spec_success_count(file_results.deep_view()) as int),
        r.retried_files == sat_add(0, spec_retry_count(file_results.deep_view()) as int),
        r.successful_files + r.failed_files == file_results@.len() || (r.successful_files
            + r.failed_files >= usize::MAX),
{
    let ghost all = file_results.deep_view();
    proof {
        assert(all.skip(0) =~= all);
    }
    let mut successful: usize = 0;
    let mut failed: usize = 0;
    let mut retried: usize = 0;
    let mut i: usize = 0;
    while i < file_results.len()
        invariant
            i <= file_results@.len(),
            all == file_results.deep_view(),
            all.len() == file_results@.len(),
            sat_add(successful as int, spec_success_count(all.skip(i as int)) as int) == sat_add(
                0,
                spec_success_count(all) as int,
            ),
            sat_add(retried as int, spec_retry_count(all.skip(i as int)) as int) == sat_add(
                0,
                spec_retry_count(all) as int,
            ),
            successful + failed == i || successful + failed >= usize::MAX,
            failed <= i,
            successful <= i,
        decreases file_results@.len() - i,
    {
        proof {
            assert(all.skip(i as int).drop_first() =~= all.skip(i + 1));
            assert(all.skip(i as int)[0] == all[i as int]);
            assert(all[i as int] == file_results@[i as int].deep_view());
        }
        let ghost s_before = successful as int;
        let ghost r_before = retried as int;
        if file_results[i].success {
            successful = usize_sat_add(successful, 1);
            proof {
                crate::parser::lemma_sat_add_assoc(
                    s_before,
                    1,
                    spec_success_count(all.skip(i + 1)) as int,
                );
            }
        } else {
            failed = usize_sat_add(failed, 1);
        }
        retried = usize_sat_add(retried, file_results[i].retries_made);
        proof {
            crate::parser::lemma_sat_add_assoc(
                r_before,
                all[i as int].retries as int,
                spec_retry_count(all.skip(i + 1)) as int,
            );
        }
        i = i + 1;
    }
    proof {
        assert(all.skip(all.len() as int) =~= Seq::<SpecFileResult>::empty());
    }
    BatchProcessingResult {
        batch_id,
        file_results,
        batch_time_ms,
        successful_files: successful,
        failed_files: failed,
        retried_files: retried,
    }
}

/// Image of a per-file outcome, for counting.
#[verifier::ext_equal]
pub ghost struct SpecFileResult {
    /// Whether processing succeeded.
    pub success: bool,
    /// Retries made.
    pub retries: usize,
}

impl DeepView for FileProcessingResult {
    type V = SpecFileResult;

    open spec fn deep_view(&self) -> SpecFileResult {
        SpecFileResult { success: self.success, retries: self.retries_made }
    }
}

/// Total retries over a list of per-file outcomes.
pub open spec fn spec_retry_count(results: Seq<SpecFileResult>) -> nat
    decreases results.len(),
{
    if results.len() == 0 {
        0
    } else {
        results[0].retries as nat + spec_retry_count(results.drop_first())
    }
}

/// Merged counters over the whole run.
#[derive(Clone, Copy, Debug, PartialEq, Eq)]
pub struct PipelineStats {
    /// Files given to the run.
    pub total_files: usize,
    /// Files that ended in success.
    pub successful_files: usize,
    /// Files that ended in failure.
    pub failed_files: usize,
    /// Files skipped.
    pub skipped_files: usize,
    /// Retries made.
    pub retried_files: usize,
    /// Wall time of the run, milliseconds.
    pub total_processing_time_ms: u64,
    /// Parser counters.
    pub data_parsing_stats: ParsingStats,
    /// Dictionary counters.
    pub dbc_parsing_stats: DbcParsingStats,
    /// Writer counters.
    pub storage_stats: StorageStats,
}

/// Total successes over a list of batch outcomes.
pub open spec fn spec_batches_successful(batches: Seq<BatchProcessingResult>) -> nat
    decreases batches.len(),
{
    if batches.len() == 0 {
        0
    } else {
        batches[0].successful_files as nat + spec_batches_successful(batches.drop_first())
    }
}

/// Total failures over a list of batch outcomes.
pub open spec fn spec_batches_failed(batches: Seq<BatchProcessingResult>) -> nat
    decreases batches.len(),
{
    if batches.len() == 0 {
        0
    } else {
        batches[0].failed_files as nat + spec_batches_failed(batches.drop_first())
    }
}

/// Total retries over a list of batch outcomes.
pub open spec fn spec_batches_retried(batches: Seq<BatchProcessingResult>) -> nat
    decreases batches.len(),
{
    if batches.len() == 0 {
        0
    } else {
        batches[0].retried_files as nat + spec_batches_retried(batches.drop_first())
    }
}

/// Merges a run's batch outcomes and subsystem counters into the final
/// statistics: successes, failures and retries are the exact sums over the
/// batches.
pub fn merge_run_stats(
    total_files: usize,
    total_processing_time_ms: u64,
    batches: &Vec<BatchProcessingResult>,
    data_parsing_stats: ParsingStats,
    dbc_parsing_stats: DbcParsingStats,
    storage_stats: StorageStats,
) -> (r: PipelineStats)
    ensures
        r.total_files == total_files,
        r.total_processing_time_ms == total_processing_time_ms,
        r.successful_files == sat_add(0, spec_batches_successful(batches@) as int),
        r.failed_files == sat_add(0, spec_batches_failed(batches@) as int),
        r.retried_files == sat_add(0, spec_batches_retried(batches@) as int),
        r.skipped_files == 0,
        r.data_parsing_stats == data_parsing_stats,
        r.dbc_parsing_stats == dbc_parsing_stats,
        r.storage_stats == storage_stats,
{
    let ghost all = batches@;
    proof {
        assert(all.skip(0) =~= all);
    }
    let mut successful: usize = 0;
    let mut failed: usize = 0;
    let mut retried: usize = 0;
    let mut i: usize = 0;
    while i < batches.len()
        invariant
            i <= all.len(),
            batches@ == all,
            sat_add(successful as int, spec_batches_successful(all.skip(i as int)) as int)
                == sat_add(0, spec_batches_successful(all) as int),
            sat_add(failed as int, spec_batches_failed(all.skip(i as int)) as int) == sat_add(
                0,
                spec_batches_failed(all) as int,
            ),
            sat_add(retried as int, spec_batches_retried(all.skip(i as int)) as int) == sat_add(
                0,
                spec_batches_retried(all) as int,
            ),
        decreases all.len() - i,
    {
        proof {
            assert(all.skip(i as int).drop_first() =~= all.skip(i + 1));
            assert(all.skip(i as int)[0] == all[i as int]);
        }
        let ghost s_before = successful as int;
        let ghost f_before = failed as int;
        let ghost r_before = retried as int;
        successful = usize_sat_add(successful, batches[i].successful_files);
        failed = usize_sat_add(failed, batches[i].failed_files);
        retried = usize_sat_add(retried, batches[i].retried_files);
        proof {
            crate::parser::lemma_sat_add_assoc(
                s_before,
                all[i as int].successful_files as int,
                spec_batches_successful(all.skip(i + 1)) as int,
            );
            crate::parser::lemma_sat_add_assoc(
                f_before,
                all[i as int].failed_files as int,
                spec_batches_failed(all.skip(i + 1)) as int,
            );
            crate::parser::lemma_sat_add_assoc(
                r_before,
                all[i as int].retried_files as int,
                spec_batches_retried(all.skip(i + 1)) as int,
            );
        }
        i = i + 1;
    }
    proof {
        assert(all.skip(all.len() as int) =~= Seq::<BatchProcessingResult>::empty());
    }
    PipelineStats {
        total_files,
        successful_files: successful,
        failed_files: failed,
        skipped_files: 0,
        retried_files: retried,
        total_processing_time_ms,
        data_parsing_stats,
        dbc_parsing_stats,
        storage_stats,
    }
}

/// The number of batches a file list is split into: full batches of
/// `batch_size` files and possibly one shorter final batch.
pub open spec fn spec_batch_count(n: nat, batch_size: nat) -> nat {
    if batch_size == 0 {
        0
    } else {
        ((n + batch_size - 1) as nat) / batch_size
    }
}

/// Splits `0..n` into batch spans of `batch_size`, returning the start of
/// batch `i` and its length; the spans tile the range in order.
pub fn batch_span(n: usize, batch_size: usize, i: usize) -> (r: (usize, usize))
    requires
        batch_size > 0,
        (i as nat) < spec_batch_count(n as nat, batch_size as nat),
    ensures
        r.0 == i * batch_size,
        r.0 < n,
        r.1 == if i * batch_size + batch_size <= n {
            batch_size as int
        } else {
            n - i * batch_size
        },
        r.0 + r.1 <= n,
        r.1 > 0,
{
    proof {
        assert(i * batch_size < n) by (nonlinear_arith)
            requires
                batch_size > 0,
                0 <= i,
                0 <= n,
                (i as nat) < (((n + batch_size - 1) as nat) / (batch_size as nat)),
        ;
    }
    let start = i * batch_size;
    let len = if n - start >= batch_size {
        batch_size
    } else {
        n - start
    };
    (start, len)
}

} // verus!
