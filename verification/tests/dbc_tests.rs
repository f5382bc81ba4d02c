//! Tests of the dictionary parser, the manager, and signal decoding.

use canp::data_layer::CanFrame;
use canp::dbc::{parse_dictionary, DbcManager, DbcManagerConfig};
use canp::bits::{extract_bits_be, extract_bits_le};

fn test_dbc_content() -> Vec<u8> {
    let text = "VERSION \"\"\n\
\n\
BS_:\n\
\n\
BU_:\n\
\n\
BO_ 256 EngineData: 8 Engine\n \
SG_ EngineSpeed : 0|16@1+ (0.125,0) [0|8031.875] \"rpm\" Engine\n \
SG_ EngineTemp : 16|8@1+ (1,-40) [-40|215] \"degC\" Engine\n \
SG_ FuelLevel : 24|8@1+ (0.392157,-100) [-100|0] \"%\" Engine\n\
\n\
BO_ 512 VehicleStatus: 6 Vehicle\n \
SG_ VehicleSpeed : 0|16@1+ (0.00390625,0) [0|255.99609375] \"km/h\" Vehicle\n \
SG_ BrakeStatus : 16|1@1+ (1,0) [0|1] \"\" Vehicle\n \
SG_ TurnSignal : 17|2@1+ (1,0) [0|3] \"\" Vehicle\n";
    text.as_bytes().to_vec()
}

fn frame(can_id: u32, data: Vec<u8>) -> CanFrame {
    let dlc = data.len() as u8;
    CanFrame {
        timestamp: 1640995200,
        can_id,
        dlc,
        reserved: vec![0, 0, 0],
        data,
    }
}

#[test]
fn test_dbc_manager_config() {
    let config = DbcManagerConfig::default();
    assert!(config.max_cached_files > 0);
    assert!(config.cache_expire_seconds > 0);
    assert!(config.max_load_threads > 0);

    let custom_config = DbcManagerConfig {
        max_cached_files: 50,
        cache_expire_seconds: 1800,
        auto_reload: true,
        reload_check_interval: 300,
        default_priority: 1,
        parallel_loading: true,
        max_load_threads: 4,
    };
    assert_eq!(custom_config.max_cached_files, 50);
    assert_eq!(custom_config.cache_expire_seconds, 1800);
}

#[test]
fn test_dictionary_parse_messages_and_signals() {
    let dict = parse_dictionary(&test_dbc_content()).unwrap();
    assert_eq!(dict.messages.len(), 2);
    let engine = &dict.messages[0];
    assert_eq!(engine.id, 256);
    assert_eq!(engine.name, b"EngineData".to_vec());
    assert_eq!(engine.size, 8);
    assert_eq!(engine.sender, b"Engine".to_vec());
    assert_eq!(engine.signals.len(), 3);
    let speed = &engine.signals[0];
    assert_eq!(speed.name, b"EngineSpeed".to_vec());
    assert_eq!(speed.start_bit, 0);
    assert_eq!(speed.bit_length, 16);
    assert!(speed.little_endian);
    assert!(!speed.signed);
    assert_eq!(speed.factor.int_part, 0);
    assert_eq!(speed.factor.frac_part, 125);
    assert_eq!(speed.factor.frac_len, 3);
    assert!(!speed.factor.neg);
    assert_eq!(speed.unit, b"rpm".to_vec());
    let temp = &engine.signals[1];
    assert!(temp.offset.neg);
    assert_eq!(temp.offset.int_part, 40);
    let vehicle = &dict.messages[1];
    assert_eq!(vehicle.id, 512);
    assert_eq!(vehicle.signals.len(), 3);
    assert_eq!(vehicle.signals[1].bit_length, 1);
}

#[test]
fn test_dictionary_rejects_empty_content() {
    assert!(parse_dictionary(b"invalid dbc content").is_err());
    assert!(parse_dictionary(b"").is_err());
}

#[test]
fn test_extended_id_masks_flag_bit() {
    let line = b"BO_ 2566853172 Detail: 8 Ecu\n SG_ A : 0|8@1+ (1,0) [0|255] \"\" Ecu\n";
    let dict = parse_dictionary(line).unwrap();
    // 2566853172 = 0x98FF1234; with bit 31 cleared: 0x18FF1234
    assert_eq!(dict.messages[0].id, 0x18FF1234);
}

#[test]
fn test_manager_load_and_decode() {
    let mut manager = DbcManager::new(DbcManagerConfig::default());
    let path = b"test.dbc".to_vec();
    let loaded = manager
        .load_dbc_content(&path, &test_dbc_content(), 100, 1000, 64, 0)
        .unwrap();
    assert!(loaded);
    let stats = manager.get_stats();
    assert_eq!(stats.loaded_dbc_files, 1);
    assert_eq!(stats.total_messages, 2);
    assert_eq!(stats.total_signals, 6);

    let msg = manager
        .parse_can_frame(&frame(256, vec![0x40, 0x1F, 0x00, 0x00, 0x50, 0x00, 0x00, 0x00]))
        .unwrap()
        .unwrap();
    assert_eq!(msg.message_id, 256);
    assert_eq!(msg.name, b"EngineData".to_vec());
    assert_eq!(msg.signals.len(), 3);
    let speed = &msg.signals[0];
    assert_eq!(speed.name, b"EngineSpeed".to_vec());
    // 0x40 0x1F little-endian over 16 bits: 0x1F40 = 8000 raw
    assert_eq!(speed.raw_value, 8000);
    // physical 8000 * 0.125 = 1000 rpm, computed from the exact scale parts
    let physical = speed.raw_value as f64
        * (speed.factor.int_part as f64
            + speed.factor.frac_part as f64 / 10f64.powi(speed.factor.frac_len as i32));
    assert_eq!(physical, 1000.0);
    assert_eq!(speed.unit, b"rpm".to_vec());

    let stats = manager.get_stats();
    assert_eq!(stats.parsed_frames, 1);
    assert_eq!(stats.successful_messages, 1);
    assert_eq!(stats.unknown_messages, 0);
}

#[test]
fn test_unknown_message_counted() {
    let mut manager = DbcManager::new(DbcManagerConfig::default());
    let path = b"test.dbc".to_vec();
    manager
        .load_dbc_content(&path, &test_dbc_content(), 100, 1000, 64, 0)
        .unwrap();
    let out = manager
        .parse_can_frame(&frame(999, vec![1, 2, 3, 4, 5, 6, 7, 8]))
        .unwrap();
    assert!(out.is_none());
    let stats = manager.get_stats();
    assert_eq!(stats.unknown_messages, 1);
    assert_eq!(stats.parsed_frames, 1);
    assert_eq!(stats.successful_messages, 0);
}

#[test]
fn test_reload_without_newer_mtime_is_noop() {
    let mut manager = DbcManager::new(DbcManagerConfig::default());
    let path = b"test.dbc".to_vec();
    assert!(manager
        .load_dbc_content(&path, &test_dbc_content(), 100, 1000, 64, 0)
        .unwrap());
    let stats_before = manager.get_stats();
    // same modification time: skipped
    let again = manager
        .load_dbc_content(&path, &test_dbc_content(), 100, 2000, 64, 0)
        .unwrap();
    assert!(!again);
    assert_eq!(manager.get_stats(), stats_before);
    // older modification time: also skipped
    let older = manager
        .load_dbc_content(&path, &test_dbc_content(), 50, 3000, 64, 0)
        .unwrap();
    assert!(!older);
    assert_eq!(manager.get_stats(), stats_before);
    // newer modification time: replaced, counts stay consistent
    let newer = manager
        .load_dbc_content(&path, &test_dbc_content(), 200, 4000, 64, 0)
        .unwrap();
    assert!(newer);
    assert_eq!(manager.get_stats().loaded_dbc_files, 1);
    assert_eq!(manager.get_stats().total_messages, 2);
}

#[test]
fn test_enable_disable_and_unload() {
    let mut manager = DbcManager::new(DbcManagerConfig::default());
    let path = b"test.dbc".to_vec();
    manager
        .load_dbc_content(&path, &test_dbc_content(), 100, 1000, 64, 0)
        .unwrap();
    manager.set_dbc_enabled(&path, false).unwrap();
    let out = manager
        .parse_can_frame(&frame(256, vec![0; 8]))
        .unwrap();
    assert!(out.is_none(), "a disabled dictionary takes no part in lookups");
    manager.set_dbc_enabled(&path, true).unwrap();
    assert!(manager.parse_can_frame(&frame(256, vec![0; 8])).unwrap().is_some());
    manager.unload(&path).unwrap();
    assert_eq!(manager.get_stats().loaded_dbc_files, 0);
    assert!(manager.unload(&path).is_err());
}

#[test]
fn test_priority_decides_lookup() {
    let low = b"BO_ 256 LowPriority: 8 A\n SG_ S : 0|8@1+ (1,0) [0|255] \"\" A\n";
    let high = b"BO_ 256 HighPriority: 8 B\n SG_ S : 0|8@1+ (1,0) [0|255] \"\" B\n";
    let mut manager = DbcManager::new(DbcManagerConfig::default());
    manager
        .load_dbc_content(&b"low.dbc".to_vec(), low, 1, 1, 1, 0)
        .unwrap();
    manager
        .load_dbc_content(&b"high.dbc".to_vec(), high, 1, 1, 1, 5)
        .unwrap();
    let msg = manager
        .parse_can_frame(&frame(256, vec![1, 0, 0, 0, 0, 0, 0, 0]))
        .unwrap()
        .unwrap();
    assert_eq!(msg.name, b"HighPriority".to_vec());
    assert_eq!(msg.source_dbc, b"high.dbc".to_vec());
}

#[test]
fn test_cache_cleanup_drops_expired() {
    let mut config = DbcManagerConfig::default();
    config.cache_expire_seconds = 100;
    let mut manager = DbcManager::new(config);
    manager
        .load_dbc_content(&b"old.dbc".to_vec(), &test_dbc_content(), 1, 1000, 1, 0)
        .unwrap();
    manager
        .load_dbc_content(&b"new.dbc".to_vec(), &test_dbc_content(), 1, 1960, 1, 0)
        .unwrap();
    manager.cleanup_expired_cache(2000);
    assert_eq!(manager.get_stats().loaded_dbc_files, 1);
    let kept = manager.get_loaded_dbc_files();
    assert_eq!(kept[0].file_path, b"new.dbc".to_vec());
}

#[test]
fn test_little_endian_extraction() {
    let data = [0x01u8, 0x02, 0x03, 0x04, 0x05, 0x06, 0x07, 0x08];
    assert_eq!(extract_bits_le(&data, 0, 16), 0x0201);
    assert_eq!(extract_bits_le(&data, 0, 8), 0x01);
    assert_eq!(extract_bits_le(&data, 0, 32), 0x04030201);
    assert_eq!(extract_bits_le(&data, 48, 16), 0x0807);
    // sub-byte start and end
    let one = [0xF0u8];
    assert_eq!(extract_bits_le(&one, 4, 4), 0x0F);
    assert_eq!(extract_bits_le(&one, 0, 4), 0x00);
}

#[test]
fn test_big_endian_extraction() {
    let data = [0x01u8, 0x02, 0x03, 0x04, 0x05, 0x06, 0x07, 0x08];
    assert_eq!(extract_bits_be(&data, 0, 16), 0x0102);
    assert_eq!(extract_bits_be(&data, 0, 8), 0x01);
    assert_eq!(extract_bits_be(&data, 0, 32), 0x01020304);
}

#[test]
fn test_extraction_below_window_bound() {
    let data = [0xFFu8; 8];
    for len in [1usize, 7, 8, 15, 33, 63] {
        let le = extract_bits_le(&data, 0, len);
        let be = extract_bits_be(&data, 0, len);
        if len < 64 {
            assert!(le < (1u64 << len));
            assert!(be < (1u64 << len));
        }
    }
    assert_eq!(extract_bits_le(&data, 0, 64), u64::MAX);
}

#[test]
fn test_adjacent_extractions_concatenate() {
    let data = [0x12u8, 0x34, 0x56, 0x78, 0x9A, 0xBC, 0xDE, 0xF0];
    // little-endian: the union equals low part plus high part shifted
    let lo = extract_bits_le(&data, 3, 11);
    let hi = extract_bits_le(&data, 14, 9);
    let all = extract_bits_le(&data, 3, 20);
    assert_eq!(all, lo + (hi << 11));
    // big-endian at a byte-aligned split: high part first
    let hi_be = extract_bits_be(&data, 0, 16);
    let lo_be = extract_bits_be(&data, 16, 8);
    let all_be = extract_bits_be(&data, 0, 24);
    assert_eq!(all_be, (hi_be << 8) + lo_be);
}

#[test]
fn test_signed_big_endian_signal() {
    // start 0, length 16, big-endian, signed; data FF F0 ...
    let content = b"BO_ 1 M: 8 E\n SG_ S : 0|16@0- (1,0) [-32768|32767] \"\" E\n";
    let mut manager = DbcManager::new(DbcManagerConfig::default());
    manager
        .load_dbc_content(&b"s.dbc".to_vec(), content, 1, 1, 1, 0)
        .unwrap();
    let msg = manager
        .parse_can_frame(&frame(1, vec![0xFF, 0xF0, 0, 0, 0, 0, 0, 0]))
        .unwrap()
        .unwrap();
    let s = &msg.signals[0];
    assert_eq!(s.raw_value, 0xFFFFFFFFFFFFFFF0);
    assert_eq!(s.raw_value as i64, -16);
    let physical = (s.raw_value as i64) as f64 * 1.0 + 0.0;
    assert_eq!(physical, -16.0);
}

#[test]
fn test_zero_width_signal_needs_a_data_byte() {
    // a zero-width signal decodes to raw zero when a data byte exists,
    // and is skipped on an empty-data frame
    let content = b"BO_ 1 M: 8 E\n SG_ Z : 0|0@1+ (1,0) [0|0] \"\" E\n";
    let mut manager = DbcManager::new(DbcManagerConfig::default());
    manager
        .load_dbc_content(&b"z.dbc".to_vec(), content, 1, 1, 1, 0)
        .unwrap();
    let with_data = manager
        .parse_can_frame(&frame(1, vec![0xFF]))
        .unwrap()
        .unwrap();
    assert_eq!(with_data.signals.len(), 1);
    assert_eq!(with_data.signals[0].raw_value, 0);
    let empty = manager.parse_can_frame(&frame(1, vec![])).unwrap().unwrap();
    assert!(empty.signals.is_empty());
    assert_eq!(manager.get_stats().signal_parse_failures, 1);
}

#[test]
fn test_signal_window_out_of_range_is_skipped() {
    // second signal extends past the frame data and is skipped, counted
    let content =
        b"BO_ 1 M: 8 E\n SG_ A : 0|8@1+ (1,0) [0|255] \"\" E\n SG_ B : 56|16@1+ (1,0) [0|0] \"\" E\n";
    let mut manager = DbcManager::new(DbcManagerConfig::default());
    manager
        .load_dbc_content(&b"w.dbc".to_vec(), content, 1, 1, 1, 0)
        .unwrap();
    let msg = manager
        .parse_can_frame(&frame(1, vec![0xAB; 8]))
        .unwrap()
        .unwrap();
    assert_eq!(msg.signals.len(), 1);
    assert_eq!(manager.get_stats().signal_parse_failures, 1);
}
