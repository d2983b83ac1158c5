use trie_storage::info::{
    awaiting_peers_line, body_sync_progress, epoch_sync_line, gas_used_per_sec, get_validator_epoch_stats, header_sync_progress,
    plural_suffix, pretty_bytes, pretty_bytes_per_sec, shard_sync_status_name, sort_by_shard_id,
    validator_info_log,
    CurrentEpochValidatorInfo, EpochValidatorInfo, PrettyNumber, ProcessedBlocks, ShardSyncStatus,
    ValidatorInfoHelper, ValidatorKickoutView, ValidatorProductionStats,
};
use trie_storage::rocksdb_metrics::{
    export_stats_as_metrics, get_metric_name_summary_count_gauge,
    get_metric_name_summary_sum_gauge, get_prometheus_metric_name, get_stats_summary_count_key,
    get_stats_summary_sum_key, parse_statistics, MetricUpdate, StatsParseError, StatsValue,
};
use trie_storage::text::{
    chars_of, format_decimal, is_float_text, pad_left, parse_i64, parse_u32, split_chars,
    string_of,
};

#[test]
fn metric_names_replace_dots() {
    assert_eq!(get_prometheus_metric_name("rocksdb.block.cache.miss"), "near_rocksdb_block_cache_miss");
    assert_eq!(get_prometheus_metric_name(""), "near_");
    assert_eq!(get_prometheus_metric_name("no_dots"), "near_no_dots");
    assert_eq!(
        get_metric_name_summary_count_gauge("rocksdb.db.get.micros"),
        "near_rocksdb_db_get_micros_count"
    );
    assert_eq!(
        get_metric_name_summary_sum_gauge("rocksdb.db.get.micros"),
        "near_rocksdb_db_get_micros_sum"
    );
}

#[test]
fn summary_keys_keep_dots() {
    assert_eq!(get_stats_summary_count_key("rocksdb.db.get.micros"), "rocksdb.db.get.micros.count");
    assert_eq!(get_stats_summary_sum_key("rocksdb.db.get.micros"), "rocksdb.db.get.micros.sum");
    assert_eq!(get_stats_summary_sum_key(""), ".sum");
}

#[test]
fn strings_and_characters_convert_both_ways() {
    assert_eq!(chars_of("a⬇b"), vec!['a', '⬇', 'b']);
    assert_eq!(string_of(&vec!['a', '⬇', 'b']), "a⬇b");
    assert_eq!(chars_of(""), Vec::<char>::new());
}

#[test]
fn splitting_keeps_empty_pieces() {
    let pieces = |text: &str, separator: char| -> Vec<String> {
        split_chars(&chars_of(text), separator).iter().map(string_of).collect()
    };
    assert_eq!(pieces("a b  c", ' '), vec!["a", "b", "", "c"]);
    assert_eq!(pieces("", ' '), vec![""]);
    assert_eq!(pieces("line\n", '\n'), vec!["line", ""]);
    assert_eq!(pieces(" ", ' '), vec!["", ""]);
    assert_eq!(pieces("one", ' '), vec!["one"]);
}

#[test]
fn signed_numbers_are_read_as_the_standard_library_reads_them() {
    let texts = [
        "0", "7", "-7", "+7", "-0", "+0", "007", "9223372036854775807", "9223372036854775808",
        "-9223372036854775808", "-9223372036854775809", "", "-", "+", "1 ", " 1", "1.0", "--1",
        "+-1", "12a", "99999999999999999999999999", "-99999999999999999999999999",
        "00000000000000000000000000000001",
    ];
    for text in texts {
        assert_eq!(parse_i64(&chars_of(text)), text.parse::<i64>().ok(), "{:?}", text);
    }
    assert_eq!(parse_i64(&chars_of("-9223372036854775808")), Some(i64::MIN));
    assert_eq!(parse_i64(&chars_of("9223372036854775807")), Some(i64::MAX));
}

#[test]
fn unsigned_numbers_are_read_as_the_standard_library_reads_them() {
    let texts = [
        "0", "50", "+50", "-50", "-0", "4294967295", "4294967296", "", "+", "-", "5x", "٣",
        "000000000000099",
    ];
    for text in texts {
        assert_eq!(parse_u32(&chars_of(text)), text.parse::<u32>().ok(), "{:?}", text);
    }
    assert_eq!(parse_u32(&chars_of("4294967295")), Some(u32::MAX));
}

#[test]
fn statistics_are_read_line_by_line() {
    let dump = "rocksdb.block.cache.miss COUNT : 12345\n\
                rocksdb.db.get.micros P50 : 0.650000 P95 : 1.900000 P99 : 2.000000 P100 : 3.000000 COUNT : 100 SUM : -75\n\
                \n\
                alone\n";
    let stats = parse_statistics(dump).unwrap();
    assert_eq!(
        stats,
        vec![
            ("rocksdb.block.cache.miss".to_string(), vec![StatsValue::Count(12345)]),
            (
                "rocksdb.db.get.micros".to_string(),
                vec![
                    StatsValue::Percentile(50, "0.650000".to_string()),
                    StatsValue::Percentile(95, "1.900000".to_string()),
                    StatsValue::Percentile(99, "2.000000".to_string()),
                    StatsValue::Percentile(100, "3.000000".to_string()),
                    StatsValue::Count(100),
                    StatsValue::Sum(-75),
                ]
            ),
        ]
    );
    assert_eq!(parse_statistics(""), Ok(vec![]));
    assert_eq!(
        parse_statistics("name "),
        Err(StatsParseError::UnsupportedValue("".to_string(), "name ".to_string()))
    );
}

#[test]
fn statistics_that_cannot_be_read_fail() {
    assert_eq!(
        parse_statistics("a.b COUNT : twelve"),
        Err(StatsParseError::InvalidInteger("twelve".to_string()))
    );
    assert_eq!(
        parse_statistics("a.b SUM : 99999999999999999999"),
        Err(StatsParseError::InvalidInteger("99999999999999999999".to_string()))
    );
    assert_eq!(
        parse_statistics("a.b Pfifty : 1.0"),
        Err(StatsParseError::InvalidPercentile("fifty".to_string()))
    );
    assert_eq!(
        parse_statistics("a.b P : 1.0"),
        Err(StatsParseError::InvalidPercentile("".to_string()))
    );
    assert_eq!(
        parse_statistics("ok COUNT : 1\na.b MEAN : 1.0"),
        Err(StatsParseError::UnsupportedValue("MEAN".to_string(), "a.b MEAN : 1.0".to_string()))
    );
    assert_eq!(
        parse_statistics("a.b COUNT :"),
        Err(StatsParseError::MissingValue("a.b COUNT :".to_string()))
    );
    assert_eq!(
        parse_statistics("a.b P50"),
        Err(StatsParseError::MissingValue("a.b P50".to_string()))
    );
    assert_eq!(
        parse_statistics("a.b COUNT : 1 SUM"),
        Err(StatsParseError::MissingValue("a.b COUNT : 1 SUM".to_string()))
    );
    assert_eq!(
        parse_statistics("a.b Px"),
        Err(StatsParseError::InvalidPercentile("x".to_string()))
    );
    assert_eq!(
        parse_statistics("a.b  COUNT : 1"),
        Err(StatsParseError::UnsupportedValue("".to_string(), "a.b  COUNT : 1".to_string()))
    );
}

#[test]
fn a_counter_sets_one_gauge() {
    let stats = vec![("rocksdb.block.cache.miss".to_string(), vec![StatsValue::Count(12345)])];
    assert_eq!(
        export_stats_as_metrics(&stats),
        vec![MetricUpdate::IntGauge {
            key: "rocksdb.block.cache.miss".to_string(),
            name: "near_rocksdb_block_cache_miss".to_string(),
            help: "rocksdb.block.cache.miss".to_string(),
            value: 12345,
        }]
    );
}

#[test]
fn a_single_value_that_is_no_count_is_left_out() {
    let stats = vec![
        ("a.sum".to_string(), vec![StatsValue::Sum(5)]),
        ("a.p".to_string(), vec![StatsValue::Percentile(50, "1.5".to_string())]),
        ("a.none".to_string(), vec![]),
    ];
    assert_eq!(export_stats_as_metrics(&stats), vec![]);
}

#[test]
fn a_summary_sets_a_gauge_for_each_value() {
    let stats = vec![(
        "rocksdb.db.get.micros".to_string(),
        vec![
            StatsValue::Percentile(50, "0.65".to_string()),
            StatsValue::Count(100),
            StatsValue::Sum(75),
        ],
    )];
    assert_eq!(
        export_stats_as_metrics(&stats),
        vec![
            MetricUpdate::Quantile {
                key: "rocksdb.db.get.micros".to_string(),
                name: "near_rocksdb_db_get_micros".to_string(),
                help: "rocksdb.db.get.micros".to_string(),
                percentile: 50,
                sample: "0.65".to_string(),
            },
            MetricUpdate::IntGauge {
                key: "rocksdb.db.get.micros.count".to_string(),
                name: "near_rocksdb_db_get_micros_count".to_string(),
                help: "rocksdb.db.get.micros".to_string(),
                value: 100,
            },
            MetricUpdate::IntGauge {
                key: "rocksdb.db.get.micros.sum".to_string(),
                name: "near_rocksdb_db_get_micros_sum".to_string(),
                help: "rocksdb.db.get.micros".to_string(),
                value: 75,
            },
        ]
    );
}

#[test]
fn kicked_out_validators_come_first_with_zeros() {
    let info = EpochValidatorInfo {
        current_validators: vec![CurrentEpochValidatorInfo {
            account_id: "alice.near".to_string(),
            num_produced_blocks: 9,
            num_expected_blocks: 10,
            num_produced_chunks: 38,
            num_expected_chunks: 40,
        }],
        prev_epoch_kickout: vec![ValidatorKickoutView { account_id: "bob.near".to_string() }],
    };
    let stats = get_validator_epoch_stats(info);
    assert_eq!(stats.len(), 2);
    assert_eq!(stats[0].account_id, "bob.near");
    assert_eq!(
        (
            stats[0].num_produced_blocks,
            stats[0].num_expected_blocks,
            stats[0].num_produced_chunks,
            stats[0].num_expected_chunks
        ),
        (0, 0, 0, 0)
    );
    assert_eq!(stats[1].account_id, "alice.near");
    assert_eq!(
        (
            stats[1].num_produced_blocks,
            stats[1].num_expected_blocks,
            stats[1].num_produced_chunks,
            stats[1].num_expected_chunks
        ),
        (9, 10, 38, 40)
    );
    let kicked = ValidatorProductionStats::kickout(ValidatorKickoutView {
        account_id: "carol.near".to_string(),
    });
    assert_eq!((kicked.account_id.as_str(), kicked.num_expected_chunks), ("carol.near", 0));
}

#[test]
fn processed_blocks_add_up() {
    let mut counts = ProcessedBlocks::new();
    assert!(counts.can_count(u64::MAX, u64::MAX));
    counts.block_processed(100, 4);
    counts.block_processed(250, 3);
    assert_eq!(
        (counts.num_blocks_processed, counts.num_chunks_in_blocks_processed, counts.gas_used),
        (2, 7, 350)
    );
    assert!(counts.can_count(u64::MAX - 350, u64::MAX - 7));
    assert!(!counts.can_count(u64::MAX - 349, 0));
    assert!(!counts.can_count(0, u64::MAX - 6));
    let helper = ValidatorInfoHelper { is_validator: true, num_validators: 100 };
    assert!(helper.is_validator);
    assert_eq!(helper.num_validators, 100);
}

#[test]
fn quantities_are_printed_in_the_largest_unit_they_reach() {
    let print = |num: u64, pretty: PrettyNumber| -> String {
        if pretty.decimals == 0 {
            format!("{}{}", num, pretty.unit)
        } else {
            format!("{:.*}{}", pretty.decimals as usize, num as f64 / pretty.divisor as f64, pretty.unit)
        }
    };
    assert_eq!(print(0, pretty_bytes_per_sec(0)), "0 B/s");
    assert_eq!(print(99, pretty_bytes_per_sec(99)), "99 B/s");
    assert_eq!(print(100, pretty_bytes_per_sec(100)), "0.1kiB/s");
    assert_eq!(print(1536, pretty_bytes_per_sec(1536)), "1.5kiB/s");
    assert_eq!(print(1024 * 1024 - 1, pretty_bytes_per_sec(1024 * 1024 - 1)), "1024.0kiB/s");
    assert_eq!(print(1024 * 1024, pretty_bytes_per_sec(1024 * 1024)), "1.0MiB/s");
    assert_eq!(print(u64::MAX, pretty_bytes_per_sec(u64::MAX)), "17592186044416.0MiB/s");
    assert_eq!(print(1023, pretty_bytes(1023)), "1023 B");
    assert_eq!(print(1024, pretty_bytes(1024)), "1.0 kiB");
    assert_eq!(print(5 * 1024 * 1024 / 2, pretty_bytes(5 * 1024 * 1024 / 2)), "2.5 MiB");
    assert_eq!(print(1024 * 1024 * 1024, pretty_bytes(1024 * 1024 * 1024)), "1.0 GiB");
    assert_eq!(print(1024 * 1024 * 1024 - 1, pretty_bytes(1024 * 1024 * 1024 - 1)), "1024.0 MiB");
    assert_eq!(print(999, gas_used_per_sec(999)), "999 gas/s");
    assert_eq!(print(1000, gas_used_per_sec(1000)), "1.00 Kgas/s");
    assert_eq!(print(1_500_000, gas_used_per_sec(1_500_000)), "1.50 Mgas/s");
    assert_eq!(print(999_999_999, gas_used_per_sec(999_999_999)), "1000.00 Mgas/s");
    assert_eq!(print(2_250_000_000, gas_used_per_sec(2_250_000_000)), "2.25 Ggas/s");
    assert_eq!(print(1_000_000_000_000, gas_used_per_sec(1_000_000_000_000)), "1.00 Tgas/s");
}

#[test]
fn the_progress_of_a_download_is_a_ratio_and_what_is_left() {
    let progress = header_sync_progress(150, 200, 100).unwrap();
    assert_eq!((progress.ratio, progress.left), (Some((5000, 100)), 50));
    let progress = body_sync_progress(150, 200, 100).unwrap();
    assert_eq!((progress.ratio, progress.left), (Some((5000, 100)), 50));
    let progress = header_sync_progress(200, 200, 100).unwrap();
    assert_eq!((progress.ratio, progress.left), (Some((10000, 100)), 0));
    let progress = header_sync_progress(5, 10, 10).unwrap();
    assert_eq!((progress.ratio, progress.left), (None, 5));
    let progress = body_sync_progress(5, 10, 20).unwrap();
    assert_eq!((progress.ratio, progress.left), (None, 5));
    assert!(header_sync_progress(201, 200, 100).is_none());
    assert!(body_sync_progress(201, 200, 100).is_none());
    assert!(header_sync_progress(50, 200, 100).is_none());
    assert!(body_sync_progress(50, 200, 100).is_none());
    assert!(header_sync_progress(u64::MAX / 100 + 1, u64::MAX, 0).is_none());
    let progress = body_sync_progress(u64::MAX / 100, u64::MAX, 0).unwrap();
    assert_eq!(progress.ratio, Some((u64::MAX / 100 * 100, u64::MAX)));
    assert_eq!(progress.left, u64::MAX - u64::MAX / 100);
}

#[test]
fn shards_are_listed_in_the_order_of_their_numbers() {
    let statuses = vec![
        (3, ShardSyncStatus::StateSyncDone),
        (0, ShardSyncStatus::StateDownloadHeader),
        (2, ShardSyncStatus::StateDownloadComplete),
        (1, ShardSyncStatus::StateSplitApplying),
    ];
    let sorted = sort_by_shard_id(&statuses);
    assert_eq!(
        sorted,
        vec![
            (0, ShardSyncStatus::StateDownloadHeader),
            (1, ShardSyncStatus::StateSplitApplying),
            (2, ShardSyncStatus::StateDownloadComplete),
            (3, ShardSyncStatus::StateSyncDone),
        ]
    );
    assert_eq!(sort_by_shard_id(&vec![]), vec![]);
    let names: Vec<&str> = [
        ShardSyncStatus::StateDownloadHeader,
        ShardSyncStatus::StateDownloadParts,
        ShardSyncStatus::StateDownloadScheduling,
        ShardSyncStatus::StateDownloadApplying,
        ShardSyncStatus::StateDownloadComplete,
        ShardSyncStatus::StateSplitScheduling,
        ShardSyncStatus::StateSplitApplying,
        ShardSyncStatus::StateSyncDone,
    ]
    .iter()
    .map(|status| shard_sync_status_name(*status))
    .collect();
    assert_eq!(
        names,
        vec![
            "header",
            "parts",
            "scheduling",
            "applying",
            "download complete",
            "split scheduling",
            "split applying",
            "done"
        ]
    );
}

#[test]
fn numbers_are_written_in_base_ten() {
    for n in [0u64, 1, 9, 10, 11, 99, 100, 101, 12345, 1_000_000, u64::MAX - 1, u64::MAX] {
        assert_eq!(string_of(&format_decimal(n)), n.to_string());
        assert_eq!(parse_i64(&format_decimal(n)), n.to_string().parse::<i64>().ok());
    }
    assert_eq!(format_decimal(0), vec!['0']);
    assert_eq!(format_decimal(407), vec!['4', '0', '7']);
}

#[test]
fn the_summary_counts_the_validators() {
    let log = |is_validator: bool, num_validators: usize| -> String {
        validator_info_log(&ValidatorInfoHelper { is_validator, num_validators })
    };
    assert_eq!(log(true, 100), " Validator | 100 validators");
    assert_eq!(log(false, 100), " 100 validators");
    assert_eq!(log(true, 1), " Validator | 1 validator");
    assert_eq!(log(false, 0), " 0 validators");
    assert_eq!(plural_suffix(1), "");
    assert_eq!(plural_suffix(0), "s");
    assert_eq!(plural_suffix(2), "s");
}

#[test]
fn the_lines_without_a_fraction_are_written_in_full() {
    assert_eq!(awaiting_peers_line(0), format!("#{:>8} Waiting for peers", 0));
    assert_eq!(awaiting_peers_line(12345), "#   12345 Waiting for peers");
    assert_eq!(awaiting_peers_line(12345678), "#12345678 Waiting for peers");
    assert_eq!(awaiting_peers_line(u64::MAX), format!("#{:>8} Waiting for peers", u64::MAX));
    assert_eq!(epoch_sync_line(7), "[EPOCH:     7] Getting to a recent epoch");
    assert_eq!(epoch_sync_line(99999), "[EPOCH: 99999] Getting to a recent epoch");
    assert_eq!(
        epoch_sync_line(123456),
        format!("[EPOCH: {:>5}] Getting to a recent epoch", 123456)
    );
    assert_eq!(string_of(&pad_left(&chars_of("ab"), 4)), "  ab");
    assert_eq!(string_of(&pad_left(&chars_of("abcd"), 4)), "abcd");
    assert_eq!(string_of(&pad_left(&chars_of("abcde"), 0)), "abcde");
    assert_eq!(string_of(&pad_left(&chars_of(""), 2)), "  ");
}

#[test]
fn floating_point_numbers_are_told_as_the_standard_library_tells_them() {
    let texts = [
        "0", "1", "3.14", "-3.14", "+3.14", "2.5E10", "2.5e10", "2.5E-10", "2.5e+10", "5.", ".5",
        "0.5", "-.5", "+.5", "-5.", "inf", "-inf", "+inf", "+infinity", "infinity", "-Infinity",
        "INF", "InFiNiTy", "NaN", "nan", "NAN", "-nan", "+NaN", "0.000000", "0.650000", "1e5",
        "1E5", "1e+5", "1e-5", "1.e5", ".1e5", "007", "1e007", "123456789012345678901234567890",
        "1e400", "1e-400", "0.0000000000000000000000000000000000001", "", ".", "+", "-", "+.",
        "-.", "e", "e5", ".e5", "+e5", "1e", "1e+", "1e-", "1E", "1.2.3", "1..2", "1e5.5", "1e5e5",
        "--1", "+-1", "++1", "1-", "1+", " 1", "1 ", "1 2", "1_000", "0x10", "1f", "1.0f32",
        "in", "infi", "infinit", "infinityy", "na", "nann", "i", "n", "inf.", ".inf", "1inf",
        "inf1", "nan0", "twelve", "1,5", "١", "1．5", "İnf", "ınf", "1e٣", "K", "∞",
    ];
    for text in texts {
        assert_eq!(is_float_text(&chars_of(text)), text.parse::<f64>().is_ok(), "{:?}", text);
    }
}

#[test]
fn a_sample_that_is_no_number_fails_where_it_stands() {
    assert_eq!(
        parse_statistics("a.b P50 : fast"),
        Err(StatsParseError::InvalidSample("fast".to_string()))
    );
    assert_eq!(
        parse_statistics("a.b P50 : 1.5 P95 : COUNT : x"),
        Err(StatsParseError::InvalidSample("COUNT".to_string()))
    );
    assert_eq!(
        parse_statistics("a.b P50 : 1.0.0 COUNT : x\nc.d COUNT : y"),
        Err(StatsParseError::InvalidSample("1.0.0".to_string()))
    );
    assert_eq!(
        parse_statistics("a.b COUNT : x P50 : 1.0.0"),
        Err(StatsParseError::InvalidInteger("x".to_string()))
    );
    assert_eq!(
        parse_statistics("a.b P50 : inf P95 : -NaN P99 : 1e3"),
        Ok(vec![(
            "a.b".to_string(),
            vec![
                StatsValue::Percentile(50, "inf".to_string()),
                StatsValue::Percentile(95, "-NaN".to_string()),
                StatsValue::Percentile(99, "1e3".to_string()),
            ]
        )])
    );
}
