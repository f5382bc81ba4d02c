//! Tests of the writer bookkeeping, the orchestration rules, the executor
//! rules, the memory rules, and the generator.

use canp::data_layer::FileHeader;
use canp::dbc::{DbcManager, DbcManagerConfig};
use canp::executor::{AdmissionState, Lane, Priority, TaskType};
use canp::layer_parser::{LayerParser, LayerParserConfig};
use canp::memory::{select_tier, BufferOrigin, BufferPool, MemoryBlock, MemoryPoolConfig, MemoryUsage};
use canp::parser::DataLayerParser;
use canp::pipeline::{aggregate_batch, backoff_ms, batch_span, is_memory_pressure, retry_attempts,
    should_retry, FileProcessingResult, PipelineConfig};
use canp::storage::{partition_key, ColumnarStorageConfig, ColumnarStorageWriter,
    PartitionStrategy};
use canp::testdata::{CanFrame, CanFrameType, TestDataConfig, TestDataGenerator, TestDataValidator};

fn parsed_file_data(timestamp: u64, file_index: u32, frames: &[(u64, u32, Vec<u8>)])
    -> canp::parser::ParsedFileData {
    let mut header = vec![0u8; 35];
    header[12..16].copy_from_slice(&file_index.to_be_bytes());
    header[16..24].copy_from_slice(&timestamp.to_be_bytes());
    let file_header = FileHeader::from_bytes(&header).unwrap();
    let mut body = Vec::new();
    for (ts, id, data) in frames {
        body.extend_from_slice(&ts.to_be_bytes());
        body.extend_from_slice(&id.to_be_bytes());
        body.push(data.len() as u8);
        body.extend_from_slice(&[0u8; 3]);
        let mut padded = data.clone();
        padded.resize(8, 0);
        body.extend_from_slice(&padded);
    }
    let mut seq = Vec::new();
    seq.extend_from_slice(&1u32.to_be_bytes());
    seq.extend_from_slice(&timestamp.to_be_bytes());
    seq.extend_from_slice(&(body.len() as u32).to_be_bytes());
    seq.extend_from_slice(&body);
    let mut chunk = Vec::new();
    chunk.extend_from_slice(b"FRAM");
    chunk.extend_from_slice(&1u32.to_be_bytes());
    chunk.extend_from_slice(&(frames.len() as u32).to_be_bytes());
    chunk.extend_from_slice(&file_index.to_be_bytes());
    chunk.extend_from_slice(&(seq.len() as u32).to_be_bytes());
    chunk.extend_from_slice(&seq);
    let dec_header = canp::data_layer::DecompressedHeader::from_bytes(&chunk).unwrap();
    let mut parser = DataLayerParser::new();
    let sequences = {
        let compressed = canp::parser::compress_payload(&chunk);
        let mut file = Vec::new();
        file.extend_from_slice(b"serial-0123456789A");
        file.extend_from_slice(&[0u8; 13]);
        file.extend_from_slice(&(compressed.len() as u32).to_be_bytes());
        file.extend_from_slice(&compressed);
        let mut all = parser.parse_file_all(&file).unwrap();
        all.remove(0).frame_sequences
    };
    canp::parser::ParsedFileData {
        serial: b"serial-0123456789A".to_vec(),
        file_header,
        decompressed_header: dec_header,
        frame_sequences: sequences,
    }
}

#[test]
fn test_layer_parser_creation() {
    let config = LayerParserConfig::default();
    let parser = LayerParser::new(config).unwrap();
    assert_eq!(parser.config().batch_size, 100);
}

#[test]
fn test_layer_0_blocks() {
    let config = LayerParserConfig::default();
    let parser = LayerParser::new(config).unwrap();
    let mut data = vec![0u8; 49];
    data[31..35].copy_from_slice(&10u32.to_be_bytes());
    let result = parser.parse_layer_0(&data).unwrap();
    assert_eq!(result.data_blocks.len(), 2);
    assert_eq!(result.data_blocks[0].ptr_and_len, (0, 35));
    assert_eq!(result.data_blocks[1].ptr_and_len, (35, 10));
    assert_eq!(result.stats.blocks_parsed, 2);
}

#[test]
fn test_layer_1_blocks() {
    let config = LayerParserConfig::default();
    let parser = LayerParser::new(config).unwrap();
    let mut data = vec![0u8; 29];
    data[16..20].copy_from_slice(&5u32.to_be_bytes());
    for (i, b) in data.iter_mut().enumerate().take(25).skip(20) {
        *b = i as u8;
    }
    let result = parser.parse_layer_1(&data).unwrap();
    assert_eq!(result.data_blocks.len(), 2);
    assert_eq!(result.data_blocks[0].ptr_and_len, (0, 20));
    assert_eq!(result.data_blocks[1].ptr_and_len, (20, 5));
    let result2 = parser.parse_layer_2(&data).unwrap();
    assert_eq!(result2.data_blocks.len(), 2);
    let final_result = parser.parse_final_layer(&data).unwrap();
    assert_eq!(final_result.data_blocks.len(), 1);
    assert_eq!(final_result.data_blocks[0].ptr_and_len, (0, 29));
}

#[test]
fn test_partition_keys() {
    let pfd = parsed_file_data(1_700_000_000, 9, &[(1, 0x100, vec![1]), (2, 0x200, vec![2])]);
    assert_eq!(
        partition_key(PartitionStrategy::NoPartition, &pfd),
        b"default".to_vec()
    );
    assert_eq!(
        partition_key(PartitionStrategy::ByCanId, &pfd),
        b"mixed_can_ids".to_vec()
    );
    assert_eq!(
        partition_key(PartitionStrategy::ByFile, &pfd),
        b"file=9".to_vec()
    );
    let single = parsed_file_data(1_700_000_000, 9, &[(1, 0x100, vec![1]), (2, 0x100, vec![2])]);
    assert_eq!(
        partition_key(PartitionStrategy::ByCanId, &single),
        b"can_id=00000100".to_vec()
    );
}

#[test]
fn test_hourly_partitions_for_spaced_timestamps() {
    let a = parsed_file_data(1_700_000_000, 0, &[(1, 0x100, vec![1])]);
    let b = parsed_file_data(1_700_003_600, 0, &[(1, 0x100, vec![1])]);
    let key_a = partition_key(PartitionStrategy::Hourly, &a);
    let key_b = partition_key(PartitionStrategy::Hourly, &b);
    assert_eq!(key_a, b"hour=2023111422".to_vec());
    assert_eq!(key_b, b"hour=2023111423".to_vec());
    assert_ne!(key_a, key_b, "one hour apart lands in two partitions");
    let day_a = partition_key(PartitionStrategy::Daily, &a);
    assert_eq!(day_a, b"day=20231114".to_vec());
}

#[test]
fn test_rows_per_message_equal_signals() {
    let content = b"BO_ 256 EngineData: 8 Engine\n SG_ A : 0|16@1+ (0.1,0) [0|0] \"\" E\n";
    let mut manager = DbcManager::new(DbcManagerConfig::default());
    manager
        .load_dbc_content(&b"one.dbc".to_vec(), content, 1, 1, 1, 0)
        .unwrap();
    let pfd = parsed_file_data(1_700_000_000, 1, &[(5, 0x100, vec![0x39, 0x30]), (6, 0x200, vec![1])]);
    let mut messages = Vec::new();
    for seq in &pfd.frame_sequences {
        for frame in &seq.frames {
            if let Some(m) = manager.parse_can_frame(frame).unwrap() {
                messages.push(m);
            }
        }
    }
    // the unknown identifier produced no message, hence no rows
    assert_eq!(messages.len(), 1);
    assert_eq!(messages[0].signals.len(), 1);
    assert_eq!(messages[0].signals[0].raw_value, 0x3039);

    let mut writer = ColumnarStorageWriter::new(ColumnarStorageConfig {
        partition_strategy: PartitionStrategy::ByCanId,
        ..ColumnarStorageConfig::default()
    });
    writer.write_parsed_data(&pfd, &messages, &b"input.bin".to_vec());
    let stats = writer.get_stats();
    assert_eq!(stats.rows_written, 1, "one row per decoded signal");
    assert_eq!(stats.files_processed, 1);
    assert_eq!(writer.partition_count(), 1);
    let rows = writer.take_pending(0);
    assert_eq!(rows.len(), 1);
    assert_eq!(rows[0].can_id, 0x100);
    assert_eq!(rows[0].signal_name, b"A".to_vec());
    assert_eq!(rows[0].signal_raw_value, 0x3039);
    assert_eq!(rows[0].source_file, b"input.bin".to_vec());
    writer.record_flush(0, 512);
    assert_eq!(writer.get_stats().bytes_written, 512);
}

#[test]
fn test_pipeline_task_creation() {
    let task = canp::pipeline::PipelineTask::new(b"input/file_0001.bin".to_vec(), 123456789);
    assert_eq!(task.id, b"task_123456789".to_vec());
    assert_eq!(task.stage, canp::pipeline::PipelineStage::FileMapping);
    assert!(task.data_blocks.is_empty());
    assert!(task.parse_results.is_empty());
    assert!(task.memory_blocks.is_empty());
}

#[test]
fn test_backoff_sequence_capped() {
    // indexed by retries already made: the first retry waits one second
    assert_eq!(backoff_ms(0), 1000);
    assert_eq!(backoff_ms(1), 2000);
    assert_eq!(backoff_ms(2), 4000);
    assert_eq!(backoff_ms(3), 8000);
    assert_eq!(backoff_ms(4), 10000);
    assert_eq!(backoff_ms(100), 10000);
}

#[test]
fn test_attempts_bounded_by_retries() {
    // every attempt fails: the file is tried max_retries + 1 times
    let all_fail = vec![true; 10];
    let (attempts, success) = retry_attempts(&all_fail, 3, true);
    assert_eq!(attempts, 4);
    assert!(!success);
    // recovery off: a single attempt
    let (attempts, success) = retry_attempts(&all_fail, 3, false);
    assert_eq!(attempts, 1);
    assert!(!success);
    // second attempt succeeds
    let (attempts, success) = retry_attempts(&vec![true, false], 3, true);
    assert_eq!(attempts, 2);
    assert!(success);
    assert!(should_retry(0, 3, true));
    assert!(!should_retry(3, 3, true));
    assert!(!should_retry(0, 3, false));
}

#[test]
fn test_batch_aggregation_counts() {
    let mut results = Vec::new();
    for k in 0..100 {
        results.push(FileProcessingResult {
            file_path: vec![k as u8],
            success: k != 17,
            error: if k == 17 {
                Some(canp::data_layer::ParseError::DecompressionFailed)
            } else {
                None
            },
            processing_time_ms: 1,
            parsed_messages: 0,
            parsed_signals: 0,
            file_size: 100,
            retries_made: if k == 17 { 3 } else { 0 },
        });
    }
    let batch = aggregate_batch(0, results, 5);
    assert_eq!(batch.successful_files, 99);
    assert_eq!(batch.failed_files, 1);
    assert_eq!(batch.retried_files, 3, "the failing file was retried three times");
    let config = PipelineConfig::default();
    assert!(config.max_concurrent_files >= 2);
    assert!(config.enable_error_recovery);
    assert_eq!(config.max_retries, 3);
}

#[test]
fn test_batch_spans_tile_the_input() {
    let n = 103usize;
    let batch = 8usize;
    let mut covered = 0usize;
    let mut i = 0usize;
    while covered < n {
        let (start, len) = batch_span(n, batch, i);
        assert_eq!(start, covered);
        assert!(len > 0 && len <= batch);
        covered += len;
        i += 1;
    }
    assert_eq!(covered, n);
    assert_eq!(i, 13);
}

#[test]
fn test_memory_pressure_permille() {
    assert!(is_memory_pressure(900, 1000, 800));
    assert!(!is_memory_pressure(700, 1000, 800));
    assert!(!is_memory_pressure(800, 1000, 800));
    assert!(!is_memory_pressure(1, 0, 800));
}

#[test]
fn test_executor_routing_and_deadlines() {
    assert_eq!(TaskType::HighPriority.suggested_timeout_secs(), 60);
    assert_eq!(TaskType::IoIntensive.suggested_timeout_secs(), 300);
    assert_eq!(TaskType::CpuIntensive.suggested_timeout_secs(), 600);
    assert_eq!(TaskType::Mixed.suggested_timeout_secs(), 450);
    assert_eq!(TaskType::Custom(7).suggested_timeout_secs(), 300);
    assert_eq!(TaskType::Custom(7).weight(), 7);
    assert_eq!(TaskType::HighPriority.suggested_pool(), Lane::PriorityLane);
    assert_eq!(TaskType::CpuIntensive.suggested_batch_size(), 15);
    assert_eq!(canp::executor::route_io_task(Priority::High), Lane::PriorityLane);
    assert_eq!(canp::executor::route_io_task(Priority::Normal), Lane::Io);
    assert_eq!(canp::executor::lane_capacity(1000, Lane::PriorityLane), 250);
    assert_eq!(canp::executor::lane_capacity(1000, Lane::Io), 1000);
}

#[test]
fn test_admission_backpressure() {
    let mut state = AdmissionState::new(2);
    assert!(
        !state.stats.is_complete(),
        "an executor with nothing submitted is not complete"
    );
    let a = state.try_admit(TaskType::IoIntensive, Priority::Normal);
    let b = state.try_admit(TaskType::CpuIntensive, Priority::Normal);
    assert_eq!(a, Some(1));
    assert_eq!(b, Some(2));
    let refused = state.try_admit(TaskType::IoIntensive, Priority::Normal);
    assert!(refused.is_none());
    assert_eq!(state.stats.queue_full_rejections, 1);
    assert_eq!(state.stats.io_tasks, 1);
    assert_eq!(state.stats.cpu_tasks, 1);
    state.finish(true, false);
    assert_eq!(state.stats.completed_tasks, 1);
    let c = state.try_admit(TaskType::HighPriority, Priority::Low);
    assert_eq!(c, Some(3));
    assert_eq!(state.stats.high_priority_tasks, 1);
    state.finish(false, true);
    assert_eq!(state.stats.failed_tasks, 1);
    assert_eq!(state.stats.timeout_tasks, 1);
    state.finish(true, false);
    assert!(state.stats.is_complete(), "all three admitted tasks finished");
}

#[test]
fn test_run_stats_merge_counts_retries() {
    let one = |success: bool, retries: usize| FileProcessingResult {
        file_path: b"f".to_vec(),
        success,
        error: None,
        processing_time_ms: 1,
        parsed_messages: 0,
        parsed_signals: 0,
        file_size: 1,
        retries_made: retries,
    };
    let batch_a = aggregate_batch(0, vec![one(true, 1), one(true, 0)], 2);
    let batch_b = aggregate_batch(1, vec![one(false, 2)], 3);
    let stats = canp::pipeline::merge_run_stats(
        3,
        7,
        &vec![batch_a, batch_b],
        canp::parser::ParsingStats::default(),
        canp::dbc::DbcParsingStats::zero(),
        canp::storage::StorageStats {
            files_processed: 0,
            rows_written: 0,
            bytes_written: 0,
            output_files: 0,
        },
    );
    assert_eq!(stats.total_files, 3);
    assert_eq!(stats.successful_files, 2);
    assert_eq!(stats.failed_files, 1);
    assert_eq!(stats.retried_files, 3);
    assert_eq!(stats.total_processing_time_ms, 7);
}

#[test]
fn test_caller_keyed_partition() {
    let pfd = parsed_file_data(1_700_000_000, 4, &[(1, 0x100, vec![1])]);
    let mut writer = ColumnarStorageWriter::new(ColumnarStorageConfig::default());
    let messages = Vec::new();
    writer.write_parsed_data_with_key(&pfd, &messages, &b"in.bin".to_vec(), b"lane=7".to_vec());
    writer.write_parsed_data_with_key(&pfd, &messages, &b"in.bin".to_vec(), b"lane=7".to_vec());
    assert_eq!(writer.partition_count(), 1, "equal keys share a partition");
    assert_eq!(writer.partitions[0].key, b"lane=7".to_vec());
    writer.write_parsed_data_with_key(&pfd, &messages, &b"in.bin".to_vec(), b"lane=8".to_vec());
    assert_eq!(writer.partition_count(), 2);
}

#[test]
fn test_buffer_pool_tiers_and_recycling() {
    let mut config = MemoryPoolConfig::default();
    config.prewarm_per_tier = 2;
    let mut pool = BufferPool::new(&config);
    assert_eq!(pool.tiers.len(), 4);
    assert_eq!(pool.tiers[0].free.len(), 2, "prewarmed slots are parked");

    let (buffer, origin) = pool.get_decompress_buffer(0x5000);
    assert!(buffer.is_empty(), "handed-out buffers are cleared");
    assert_eq!(origin, BufferOrigin::Pooled(1), "the smallest fitting tier serves");
    assert_eq!(pool.tiers[1].free.len(), 1);
    pool.recycle_decompress_buffer(origin, buffer);
    assert_eq!(pool.tiers[1].free.len(), 2, "recycling parks the buffer again");

    let (_huge, origin) = pool.get_decompress_buffer(usize::MAX);
    assert_eq!(origin, BufferOrigin::Pooled(3), "nothing fits: the largest tier serves");

    let empty_config = MemoryPoolConfig {
        decompress_buffer_sizes: Vec::new(),
        max_memory_usage: 0,
        prewarm_per_tier: 0,
    };
    let mut bare = BufferPool::new(&empty_config);
    let (owned, origin) = bare.get_decompress_buffer(128);
    assert!(owned.is_empty());
    assert_eq!(origin, BufferOrigin::Owned, "no tiers: an owned buffer is handed out");
    bare.recycle_decompress_buffer(origin, owned);
    assert!(bare.tiers.is_empty());
}

#[test]
fn test_memory_block_operations() {
    let data = vec![1, 2, 3, 4, 5];
    let block = MemoryBlock::new(data);

    assert_eq!(block.len(), 5);
    assert!(!block.is_empty());
    assert_eq!(block.as_slice(), &[1, 2, 3, 4, 5]);
}

#[test]
fn test_ptr_and_len_operations() {
    let data = vec![1, 2, 3, 4, 5];
    let block = MemoryBlock::new(data);

    let (view, len) = block.as_ptr_and_len();
    assert_eq!(len, 5);
    assert!(!view.is_empty());
    assert_eq!(view, &[1, 2, 3, 4, 5]);
}

#[test]
fn test_memory_block_mutation() {
    let mut block = MemoryBlock::new(vec![0, 0]);
    block.set(1, 9);
    assert_eq!(block.as_slice(), &[0, 9]);
    block.put_slice(&[7, 8]);
    assert_eq!(block.as_slice(), &[0, 9, 7, 8]);
    block.clear();
    assert!(block.is_empty());
}

#[test]
fn test_file_window_stays_in_mapping() {
    let whole = canp::memory::FileWindow::whole(100);
    assert_eq!(whole.len(), 100);
    let sub = whole.sub(40, 20).unwrap();
    assert_eq!(sub.offset, 40);
    assert_eq!(sub.length, 20);
    let nested = sub.sub(10, 10).unwrap();
    assert_eq!(nested.offset, 50);
    assert!(sub.sub(10, 11).is_none(), "slicing out of range is refused");
    assert!(whole.sub(100, 1).is_none());
    assert!(whole.sub(100, 0).unwrap().is_empty());
}

#[test]
fn test_tier_selection() {
    let config = MemoryPoolConfig::default();
    let tiers = &config.decompress_buffer_sizes;
    assert_eq!(select_tier(tiers, 1), Some(0));
    assert_eq!(select_tier(tiers, 0x4000), Some(0));
    assert_eq!(select_tier(tiers, 0x4001), Some(1));
    assert_eq!(select_tier(tiers, 0x100000), Some(3));
    // nothing fits: the largest tier serves the request
    assert_eq!(select_tier(tiers, 0x200000), Some(3));
    assert_eq!(select_tier(&Vec::new(), 5), None);
    assert_eq!(canp::memory::decompress_estimate(1000), 8192);
    assert_eq!(canp::memory::decompress_estimate(10_000), 40_000);
}

#[test]
fn test_memory_usage_soft_cap() {
    let mut usage = MemoryUsage::new(100);
    assert!(!usage.record_mapping(60));
    assert!(usage.record_mapping(60), "crossing the cap warns");
    usage.release(200);
    assert_eq!(usage.used, 0);
}

#[test]
fn test_can_frame_generation() {
    let frame = CanFrame::generate_realistic_vehicle_frame(12345, CanFrameType::Standard);
    assert!(frame.id > 0);
    assert!(frame.dlc <= 8);
    assert_eq!(frame.data.len(), frame.dlc as usize);
    assert!(!frame.is_remote);

    let bytes = frame.to_bytes();
    assert_eq!(bytes.len(), 16);

    let extended_frame = CanFrame::generate_realistic_vehicle_frame(12345, CanFrameType::Extended);
    assert!(extended_frame.id > 0x7FF);
    assert_eq!(extended_frame.frame_type, CanFrameType::Extended);
}

#[test]
fn test_generated_file_structure() {
    let generator = TestDataGenerator::new(TestDataConfig::default());
    let body = generator.generate_realistic_frame_sequence(1, 2, 5);
    assert_eq!(body.len(), 5 * 24);
    let seq_header = generator.generate_sequence_header(2, 77, body.len() as u32);
    let chunk_header = generator.generate_layer2_header(1, 5, (seq_header.len() + body.len()) as u32);
    let mut dec = chunk_header;
    dec.extend_from_slice(&seq_header);
    dec.extend_from_slice(&body);
    let compressed = canp::parser::compress_payload(&dec);
    let file_header = generator.generate_file_header(1, compressed.len());
    let mut file = file_header;
    file.extend_from_slice(&compressed);
    assert!(TestDataValidator::validate_file_bytes(&file));

    let mut parser = DataLayerParser::new();
    let out = parser.parse_file_all(&file).unwrap();
    assert_eq!(out.len(), 1);
    assert_eq!(out[0].frame_sequences.len(), 1);
    assert_eq!(out[0].frame_sequences[0].frames.len(), 5);

    // a corrupt file fails validation
    assert!(!TestDataValidator::validate_file_bytes(&file[..20]));
}

#[test]
fn test_whole_generated_file_parses() {
    let config = TestDataConfig {
        file_count: 1,
        target_file_size: 4096,
        frames_per_file: 40,
        ..TestDataConfig::default()
    };
    let generator = TestDataGenerator::new(config);
    let file = generator.generate_single_file_bytes(3).unwrap();
    assert!(file.len() >= 4096, "padded to the target size");
    assert!(TestDataValidator::validate_file_bytes(&file));
    let mut parser = DataLayerParser::new();
    let out = parser.parse_file_all(&file).unwrap();
    assert_eq!(out.len(), 1);
    assert_eq!(out[0].frame_sequences.len(), 20);
    assert_eq!(parser.get_stats().frames_parsed, 40);
    let frame = generator.generate_ecu_specific_frame(2, 77, 0);
    assert!(frame.dlc <= 8);
    assert_eq!(frame.timestamp, 77);
    let short_seq = generator.generate_single_frame_sequence(1, 1, 4);
    assert_eq!(short_seq.len(), 4 * 24);
}

#[test]
fn test_batch_of_files_with_one_corrupt() {
    let generator = TestDataGenerator::new(TestDataConfig::default());
    let mut files = Vec::new();
    for k in 0..10usize {
        let body = generator.generate_realistic_frame_sequence(k, 0, 3);
        let seq_header = generator.generate_sequence_header(0, k as u64, body.len() as u32);
        let chunk_header =
            generator.generate_layer2_header(k, 3, (seq_header.len() + body.len()) as u32);
        let mut dec = chunk_header;
        dec.extend_from_slice(&seq_header);
        dec.extend_from_slice(&body);
        let compressed = canp::parser::compress_payload(&dec);
        let mut file = generator.generate_file_header(k, compressed.len());
        file.extend_from_slice(&compressed);
        files.push(file);
    }
    // corrupt one payload
    let last = files[7].len() - 1;
    files[7][last] ^= 0xFF;
    files[7][40] ^= 0xFF;

    let mut successes = 0;
    let mut failures = 0;
    for file in &files {
        let mut parser = DataLayerParser::new();
        let out = parser.parse_file_all(file).unwrap();
        if out.len() == 1 && parser.get_stats().parse_errors == 0 {
            successes += 1;
        } else {
            failures += 1;
        }
    }
    assert_eq!(successes, 9);
    assert_eq!(failures, 1);
}
