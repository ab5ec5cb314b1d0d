use hexfetch::host::{latest_block_if_past, not_finalized_error, Calibrator, HistoricalLookup};
use hexfetch::host::{BlockSearch, SearchAction};
use hexfetch::assets::{
    asset_etag, asset_reply, compress_asset, get_compressed_assets, keep_if_smaller, serve_gzip,
    should_compress, Asset, AssetReply,
};
use hexfetch::daily::{DailyRecorder, RecordAction, RecordOutcome};
use hexfetch::dates::{date_text, parse_date, stake_dates, until_next_1am, validate_stake_dates};
use hexfetch::device;
use hexfetch::device::{
    batch_response_index, format_ipv4, format_log_line, log_enabled, resume_day, resync_check,
    time_is_synced, BackfillCheckpoint, ChunkBackfill, EventFlag, LogLevel, LogRing,
    SyncChange, WaitStep, WifiDiagnostics,
};
use hexfetch::host;
use hexfetch::host::{
    asset_path, calibration_day, calibration_step, derived_day_zero, is_network_error,
    live_retry_gives_up, next_probe_block, probe_block, target_timestamp_for_day,
    BackfillProgress, Calibration, Probe,
};
use std::io::Read;

#[test]
fn file_paths() {
    assert_eq!(host::hexjson_file_path(), "/opt/hexfetch/hexjson.json");
    assert_eq!(host::config_file_path(), "/opt/hexfetch/config.json");
    assert_eq!(host::miners_file_path(), "/opt/hexfetch/miners.json");
    assert_eq!(device::hexjson_file_path(), "/spiffs/hexjson.json");
    assert_eq!(device::config_file_path(), "/spiffs/config.json");
    assert_eq!(device::miners_file_path(), "/spiffs/miners.json");
    assert_eq!(device::checkpoint_file_path(), "/spiffs/backfill_cp.json");
}

#[test]
fn config_defaults_and_limits() {
    assert_eq!(device::default_backfill_delay(), 100);
    assert_eq!(device::default_backfill_save_interval(), 500);
    let c = device::sanitize_config(device::Config {
        live_data_frequency: 0,
        liquid_hex: 1.5,
        historical_start_day: 0,
        backfill_delay_ms: 9000,
        backfill_save_interval: 10,
    });
    assert_eq!(c.live_data_frequency, 1);
    assert_eq!(c.historical_start_day, 1);
    assert_eq!(c.backfill_delay_ms, 5000);
    assert_eq!(c.backfill_save_interval, 50);
    assert_eq!(c.liquid_hex, 1.5);
    let c = device::sanitize_config(device::Config {
        live_data_frequency: 5000,
        liquid_hex: 0.0,
        historical_start_day: 1260,
        backfill_delay_ms: 100,
        backfill_save_interval: 9000,
    });
    assert_eq!(c.live_data_frequency, 1440);
    assert_eq!(c.historical_start_day, 1260);
    assert_eq!(c.backfill_delay_ms, 100);
    assert_eq!(c.backfill_save_interval, 5000);
    let h = host::sanitize_config(host::Config {
        live_data_frequency: 15,
        liquid_hex: 2.0,
        historical_start_day: 0,
        wallet_addresses: "0xabc".to_string(),
    });
    assert_eq!(h.live_data_frequency, 15);
    assert_eq!(h.historical_start_day, 1);
    assert_eq!(h.wallet_addresses, "0xabc");
}

#[test]
fn asset_paths() {
    assert_eq!(asset_path("/"), Some("index.html".to_string()));
    assert_eq!(asset_path(""), Some("index.html".to_string()));
    assert_eq!(asset_path("//app.js"), Some("app.js".to_string()));
    assert_eq!(asset_path("/css/site.css"), Some("css/site.css".to_string()));
    assert_eq!(asset_path("/../etc/passwd"), None);
    assert_eq!(asset_path("/a..b"), None);
}

#[test]
fn network_errors_are_retried() {
    assert!(is_network_error("Connection refused"));
    assert!(is_network_error("DNS failure"));
    assert!(is_network_error("operation TIMEOUT"));
    assert!(is_network_error("All RPC endpoints failed. Last error: x"));
    assert!(!is_network_error("globals() too short (4 chars)"));
    assert!(live_retry_gives_up(false, 0, 120));
    assert!(!live_retry_gives_up(true, 120, 120));
    assert!(live_retry_gives_up(true, 121, 120));
}

#[test]
fn wifi_diagnostics_track_link() {
    assert_eq!(format_ipv4(0x0101a8c0), "192.168.1.1");
    assert_eq!(format_ipv4(0), "0.0.0.0");
    let mut d = WifiDiagnostics::new();
    assert!(!d.record_disconnected());
    assert_eq!(d.disconnect_count, 0);
    d.record_connected(0x0a00000a, "home", Some(-60));
    assert!(d.connected);
    assert_eq!(d.ip_addr, "10.0.0.10");
    assert_eq!(d.ssid, "home");
    assert_eq!(d.rssi, -60);
    d.record_connected(0x0a00000a, "home", None);
    assert_eq!(d.rssi, -60);
    assert!(d.record_disconnected());
    assert!(!d.connected);
    assert_eq!(d.disconnect_count, 1);
}

#[test]
fn log_lines_and_ring() {
    assert!(log_enabled(LogLevel::Error));
    assert!(log_enabled(LogLevel::Info));
    assert!(!log_enabled(LogLevel::Debug));
    assert_eq!(
        format_log_line(1234, LogLevel::Warn, "hello"),
        format!("[{:>8} ms] {:5} {}", 1234, "WARN", "hello")
    );
    assert_eq!(format_log_line(123456789, LogLevel::Error, "x"), "[123456789 ms] ERROR x");
    let long = "y".repeat(300);
    assert_eq!(format_log_line(5, LogLevel::Info, &long).chars().count(), 128);
    let mut ring = LogRing::new();
    for i in 0..105 {
        ring.push(format!("line {}", i));
    }
    assert_eq!(ring.len(), 100);
    let text = ring.render();
    assert!(text.starts_with("line 5\nline 6\n"));
    assert!(text.ends_with("line 104\n"));
    assert_eq!(LogRing::new().render(), "");
}

#[test]
fn event_flag_is_consumed_once() {
    let mut f = EventFlag::new();
    assert_eq!(f.wait_timeout(0, 100), WaitStep::Wait(100));
    assert_eq!(f.wait_timeout(100, 100), WaitStep::TimedOut);
    f.notify();
    assert_eq!(f.wait_timeout(500, 100), WaitStep::Fired);
    assert_eq!(f.wait_timeout(500, 100), WaitStep::TimedOut);
    f.notify();
    f.notify();
    assert_eq!(f.wait_timeout(0, 100), WaitStep::Fired);
    assert_eq!(f.wait_timeout(40, 100), WaitStep::Wait(60));
}

#[test]
fn clock_checks() {
    assert!(time_is_synced(1_700_000_001));
    assert!(!time_is_synced(1_700_000_000));
    assert!(!time_is_synced(0));
    assert_eq!(resync_check(true, 10), (false, SyncChange::Lost));
    assert_eq!(resync_check(false, 1_800_000_000), (true, SyncChange::Regained));
    assert_eq!(resync_check(true, 1_800_000_000), (true, SyncChange::Unchanged));
    assert_eq!(resync_check(false, 5), (false, SyncChange::Unchanged));
}

#[test]
fn chunked_backfill_progress() {
    assert_eq!(resume_day(None), 1);
    assert_eq!(
        resume_day(Some(BackfillCheckpoint { last_backfilled_day: 99, total_days_known: 200 })),
        100
    );
    let mut b = ChunkBackfill::new(50, 100, 50);
    assert_eq!(b.checkpoint_day, 99);
    let step = b.record_chunk(25, &vec![100, 104, 101]);
    assert!(!step.abort && !step.report_progress && !step.save);
    assert_eq!(b.checkpoint_day, 104);
    assert_eq!(b.fetched, 25);
    let step = b.record_chunk(25, &vec![]);
    assert!(!step.abort && step.report_progress && step.save);
    assert_eq!(b.empty_chunks, 1);
    assert_eq!(b.fetched, 50);
    let mut b = ChunkBackfill::new(1000, 1, 500);
    for _ in 0..9 {
        assert!(!b.record_chunk(25, &vec![]).abort);
    }
    let step = b.record_chunk(25, &vec![]);
    assert!(step.abort);
    assert_eq!(b.fetched, 225);
}

#[test]
fn batch_answers_by_id_then_position() {
    let ids = vec![Some(2), Some(1), None];
    assert_eq!(batch_response_index(&ids, 0), Some(1));
    assert_eq!(batch_response_index(&ids, 1), Some(0));
    assert_eq!(batch_response_index(&ids, 2), Some(2));
    assert_eq!(batch_response_index(&ids, 5), None);
}

#[test]
fn server_backfill_progress() {
    let mut p = BackfillProgress::new(3);
    let s = p.record(false);
    assert!(!s.abort && s.warn && !s.report_progress);
    assert_eq!(p.consecutive_errors, 1);
    let s = p.record(true);
    assert!(!s.warn && !s.report_progress);
    assert_eq!(p.consecutive_errors, 0);
    let s = p.record(true);
    assert!(s.report_progress && !s.save);
    assert_eq!(p.fetched, 3);
    let mut p = BackfillProgress::new(1000);
    let mut warned = 0;
    for _ in 0..49 {
        let s = p.record(false);
        assert!(!s.abort);
        if s.warn {
            warned += 1;
        }
    }
    assert_eq!(warned, 5);
    let s = p.record(false);
    assert!(s.abort);
    assert_eq!(p.fetched, 49);
}

#[test]
fn daily_recording_retries() {
    let mut r = DailyRecorder::new(true);
    assert_eq!(r.step(RecordOutcome::Failed), RecordAction::Retry(5));
    assert_eq!(r.step(RecordOutcome::Incomplete), RecordAction::Retry(10));
    assert_eq!(r.step(RecordOutcome::Valid), RecordAction::StoreValid);
    assert!(!r.store_fallback(true));
    assert!(r.store_fallback(false));
    let mut r = DailyRecorder::new(false);
    let mut waits = Vec::new();
    for _ in 0..10 {
        match r.step(RecordOutcome::Incomplete) {
            RecordAction::Retry(d) => waits.push(d),
            RecordAction::GiveUp(d) => waits.push(d + 1_000_000),
            RecordAction::StoreValid => panic!("not valid"),
        }
    }
    assert_eq!(waits, vec![5, 10, 20, 40, 80, 120, 120, 120, 120, 1_000_120]);
    assert!(!r.store_fallback(false));
}

#[test]
fn block_finder_arithmetic() {
    assert_eq!(target_timestamp_for_day(1_575_331_200, 0), 1_575_331_200 + 86_400 + 3_700);
    assert_eq!(target_timestamp_for_day(u64::MAX - 10, 5), u64::MAX);
    assert_eq!(derived_day_zero(1_575_331_200 + 2 * 86_400 + 500, 2), 1_575_331_200);
    assert_eq!(derived_day_zero(1000, 5), 0);
    assert_eq!(calibration_day(2), None);
    assert_eq!(calibration_day(10), Some(8));
    assert_eq!(calibration_step(1000, 8, 8), Calibration::Shift(1000 + 86_400));
    assert_eq!(calibration_step(100_000, 10, 8), Calibration::Shift(100_000 - 86_400));
    assert_eq!(calibration_step(10, 10, 8), Calibration::Shift(0));
    assert_eq!(calibration_step(1000, 9, 8), Calibration::Settled);
    assert_eq!(probe_block(100, 200), Probe::Early(100));
    assert_eq!(probe_block(231, 200), Probe::Late(31));
    assert_eq!(probe_block(230, 200), Probe::Found);
    assert_eq!(next_probe_block(10, Probe::Early(5), 0), 11);
    assert_eq!(next_probe_block(10, Probe::Late(5), 4), 6);
    assert_eq!(next_probe_block(10, Probe::Late(5), 40), 0);
    assert_eq!(next_probe_block(10, Probe::Found, 40), 10);
}

#[test]
fn assets_are_compressed_when_worth_it() {
    assert!(should_compress("app.js", 129));
    assert!(!should_compress("app.js", 128));
    assert!(!should_compress("logo.png", 10_000));
    assert_eq!(keep_if_smaller(10, Some(vec![1, 2, 3])), Some(vec![1, 2, 3]));
    assert_eq!(keep_if_smaller(3, Some(vec![1, 2, 3])), None);
    assert_eq!(keep_if_smaller(3, None), None);
    let data = "console.log('hexfetch');\n".repeat(40).into_bytes();
    let gz = compress_asset("app.js", &data).expect("compressible");
    assert!(gz.len() < data.len());
    let mut back = Vec::new();
    flate2::read::GzDecoder::new(&gz[..]).read_to_end(&mut back).unwrap();
    assert_eq!(back, data);
    assert_eq!(compress_asset("logo.png", &data), None);
    assert_eq!(compress_asset("tiny.js", &b"x".to_vec()), None);
    let assets = vec![
        Asset { name: "app.js".to_string(), data: data.clone() },
        Asset { name: "logo.png".to_string(), data: data.clone() },
    ];
    let out = get_compressed_assets(&assets);
    assert_eq!(out.len(), 1);
    assert_eq!(out[0].name, "app.js");
    assert_eq!(out[0].data, gz);
}

#[test]
fn asset_tags_and_encoding() {
    assert_eq!(asset_etag(b""), "\"14695981039346656037\"");
    assert_eq!(asset_etag(b"a"), "\"12638187200555641996\"");
    assert!(serve_gzip("gzip, deflate, br", true));
    assert!(!serve_gzip("gzip", false));
    assert!(!serve_gzip("br", true));
}

#[test]
fn dates_and_schedule() {
    assert_eq!(parse_date("03-12-2019"), Some((2019, 12, 3)));
    assert_eq!(parse_date("03-12-1999"), None);
    assert_eq!(parse_date("nonsense"), None);
    assert!(validate_stake_dates("01-01-2024", "02-01-2024"));
    assert!(!validate_stake_dates("02-01-2024", "01-01-2024"));
    assert_eq!(
        stake_dates(0, 1),
        ("03-12-2019".to_string(), "04-12-2019".to_string())
    );
    assert_eq!(date_text(1_575_331_200), "03-12-2019");
    assert_eq!(date_text(i64::MAX), "01-01-1970");
    assert_eq!(date_text(i64::MIN), "01-01-1970");
    assert_eq!(until_next_1am(0, 0), (3600, 0));
    assert_eq!(until_next_1am(3600, 0), (86_400, 0));
    assert_eq!(until_next_1am(3599, 500_000_000), (0, 500_000_000));
    assert_eq!(until_next_1am(86_400 + 7200, 0), (82_800, 0));
    assert_eq!(until_next_1am(-1, 0), (3601, 0));
    assert_eq!(until_next_1am(-86_400 + 3600, 0), (86_400, 0));
}

#[test]
fn next_1am_is_within_a_day() {
    let now = chrono::Utc::now();
    let (secs, nanos) = until_next_1am(now.timestamp(), now.timestamp_subsec_nanos());
    assert!(nanos < 1_000_000_000);
    assert!(secs <= 86_400);
    assert!(secs > 0 || nanos > 0);
    let target = now.timestamp() + secs as i64;
    assert!(target.rem_euclid(86_400) >= 3599 && target.rem_euclid(86_400) <= 3601);
}

#[test]
fn asset_requests_are_answered() {
    let tag = "\"12638187200555641996\"";
    assert_eq!(asset_reply(b"a", None, "gzip", true), (tag.to_string(), AssetReply::Gzip));
    assert_eq!(asset_reply(b"a", None, "gzip", false), (tag.to_string(), AssetReply::Plain));
    assert_eq!(asset_reply(b"a", None, "identity", true), (tag.to_string(), AssetReply::Plain));
    assert_eq!(
        asset_reply(b"a", Some(tag), "gzip", true),
        (tag.to_string(), AssetReply::NotModified)
    );
    assert_eq!(
        asset_reply(b"a", Some("12638187200555641996"), "", false),
        (tag.to_string(), AssetReply::NotModified)
    );
    assert_eq!(asset_reply(b"a", Some("\"1\""), "gzip", true), (tag.to_string(), AssetReply::Gzip));
}

#[test]
fn block_search_probes_then_walks() {
    let mut s = BlockSearch::new(100, 1000);
    assert_eq!(s.on_timestamp(900, 7), SearchAction::Read(107));
    assert_eq!(s.on_timestamp(1100, 3), SearchAction::Read(104));
    assert_eq!(s.on_timestamp(1020, 3), SearchAction::Found(104));
    let mut z = BlockSearch::new(0, 1000);
    assert_eq!(z.on_timestamp(2000, 9), SearchAction::Found(0));
    let mut w = BlockSearch::new(10, 1000);
    for _ in 0..6 {
        assert!(matches!(w.on_timestamp(0, 1), SearchAction::Read(_)));
    }
    assert_eq!(w.block, 16);
    for k in 0..20 {
        assert_eq!(w.on_timestamp(999, 1), SearchAction::Read(17 + k));
    }
    assert_eq!(w.on_timestamp(999, 1), SearchAction::Found(36));
    let mut d = BlockSearch::new(50, 1000);
    for _ in 0..6 {
        d.on_timestamp(0, 1);
    }
    assert_eq!(d.on_timestamp(1000, 1), SearchAction::Found(56));
}

#[test]
fn calibration_and_historical_tries() {
    let mut c = Calibrator::new(0, 1);
    let t = c.next_target(1_000_000).unwrap();
    assert_eq!(t, 2 * 86_400 + 3_700);
    c.on_count(Some(1));
    assert_eq!(c.day_zero, 86_400);
    assert!(c.next_target(1_000_000).is_some());
    c.on_count(Some(2));
    assert!(c.done);
    assert_eq!(c.next_target(1_000_000), None);
    let mut late = Calibrator::new(0, 1);
    assert_eq!(late.next_target(10), None);
    assert!(late.done);
    let mut three = Calibrator::new(0, 100);
    for _ in 0..3 {
        assert!(three.next_target(u64::MAX).is_some());
        three.on_count(Some(0));
    }
    assert_eq!(three.next_target(u64::MAX), None);
    let mut h = HistoricalLookup::for_day(5, 10, 0).unwrap();
    assert_eq!(h.next_target(), Some(522_100));
    assert!(!h.on_count(Some(5)));
    assert_eq!(h.next_target(), Some(525_700));
    assert!(!h.on_count(None));
    assert_eq!(h.next_target(), Some(529_300));
    assert!(h.on_count(Some(6)));
    assert_eq!(h.next_target(), None);
}

#[test]
fn historical_lookup_refuses_unfinished_days() {
    let refused = HistoricalLookup::for_day(10, 10, 1_575_331_200);
    assert_eq!(refused.err(), Some("Day 10 is not finalized yet".to_string()));
    assert!(HistoricalLookup::for_day(11, 10, 0).is_err());
    assert_eq!(not_finalized_error(0), "Day 0 is not finalized yet");
    let open = HistoricalLookup::for_day(9, 10, 1_575_331_200).unwrap();
    assert_eq!(open.day, 9);
    assert_eq!(open.tries, 0);
    assert_eq!(open.target, 1_575_331_200 + 10 * 86_400 + 3700);
    let saturated = HistoricalLookup::for_day(0, 1, u64::MAX - 10).unwrap();
    assert_eq!(saturated.target, u64::MAX);
}

#[test]
fn target_past_latest_block_answers_at_once() {
    assert_eq!(latest_block_if_past(100, 100, 7), Some(7));
    assert_eq!(latest_block_if_past(101, 100, 7), Some(7));
    assert_eq!(latest_block_if_past(99, 100, 7), None);
}
