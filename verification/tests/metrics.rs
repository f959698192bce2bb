use streaming_engine::metrics::latency::{FrameTimestamps, LatencyTracker};
use streaming_engine::metrics::memory::{rss_mb_from_status, MemoryMonitor, HOUR_US};
use streaming_engine::metrics::session_log::{chrono_timestamp, civil_from_days, session_file_name, timestamp_from_secs};

fn stamped(index: u32, present: u64, start: u64, end: u64, send: u64) -> FrameTimestamps {
    let mut ts = FrameTimestamps::new_at(index, present);
    ts.t_encode_start = Some(start);
    ts.t_encode_end = Some(end);
    ts.t_send = Some(send);
    ts
}

#[test]
fn test_frame_timestamps() {
    let ts = stamped(0, 10_000, 10_500, 11_500, 12_000);
    assert_eq!(ts.encode_latency_us(), Some(1000));
    assert_eq!(ts.pc_latency_us(), Some(2000));
    let fresh = FrameTimestamps::new_at(1, 5);
    assert_eq!(fresh.encode_latency_us(), None);
    assert_eq!(fresh.pc_latency_us(), None);
    // A clock that went backwards gives zero, not a wrapped value.
    let backwards = stamped(2, 100, 50, 40, 90);
    assert_eq!(backwards.encode_latency_us(), Some(0));
    assert_eq!(backwards.pc_latency_us(), Some(0));
}

#[test]
fn frame_timestamps_marks_from_clock() {
    let mut ts = FrameTimestamps::new(0);
    assert!(ts.pc_latency_us().is_none());
    ts.mark_encode_start();
    ts.mark_encode_end();
    assert!(ts.encode_latency_us().is_some());
    ts.mark_send();
    assert!(ts.pc_latency_us().is_some());
}

#[test]
fn test_latency_tracker() {
    let mut tracker = LatencyTracker::new(10);
    for i in 0..5 {
        let mut ts = FrameTimestamps::new(i);
        ts.mark_encode_start();
        ts.mark_encode_end();
        ts.mark_send();
        tracker.record(ts);
    }
    assert_eq!(tracker.frame_count(), 5);
    assert!(tracker.avg_pc_latency_us().is_some());
}

#[test]
fn latency_tracker_exact_means_and_history_bound() {
    let mut tracker = LatencyTracker::new(3);
    assert_eq!(tracker.avg_pc_latency_us(), None);
    tracker.record(stamped(0, 0, 0, 100, 1000));
    tracker.record(stamped(1, 0, 0, 200, 2000));
    assert_eq!(tracker.avg_pc_latency_us(), Some(1500));
    assert_eq!(tracker.avg_encode_latency_us(), Some(150));
    // A frame not yet sent counts for neither mean's missing value.
    tracker.record(FrameTimestamps::new_at(2, 0));
    assert_eq!(tracker.avg_pc_latency_us(), Some(1500));
    // The oldest frame leaves when the history is full.
    tracker.record(stamped(3, 0, 0, 600, 6000));
    assert_eq!(tracker.frame_count(), 3);
    assert_eq!(tracker.avg_pc_latency_us(), Some(4000));
    assert_eq!(tracker.avg_encode_latency_us(), Some(400));
    // Integer mean rounds down.
    let mut t2 = LatencyTracker::new(10);
    t2.record(stamped(0, 0, 0, 1, 1));
    t2.record(stamped(1, 0, 0, 2, 2));
    assert_eq!(t2.avg_pc_latency_us(), Some(1));
}

#[test]
fn test_memory_monitor_first_check_sets_baseline() {
    let mut mon = MemoryMonitor::new(0, 50);
    let rss = mon.check(123);
    assert_eq!(rss, Some(123));
    assert_eq!(mon.baseline_mb(), Some(123));
}

#[test]
fn test_memory_monitor_respects_interval() {
    let mut mon = MemoryMonitor::new(3600, 50);
    let rss = mon.check(100);
    let rss2 = mon.check(100);
    assert!(rss2.is_none());
    let _ = rss;
}

#[test]
fn test_threshold_detection_logic() {
    let mut mon = MemoryMonitor::new_at(0, 50, 1_000);
    assert_eq!(mon.check_at(1_000, 100), Some(100));
    assert_eq!(mon.growth_threshold_mb(), 50);
    assert_eq!(mon.baseline_mb(), Some(100));
}

#[test]
fn memory_monitor_polling_and_hourly_baseline() {
    let start = 1_000_000u64;
    let mut mon = MemoryMonitor::new_at(10, 50, start);
    assert_eq!(mon.check_at(start + 9_999_999, 100), None, "interval not yet elapsed");
    assert_eq!(mon.baseline_mb(), None);
    assert_eq!(mon.check_at(start + 10_000_000, 0), None, "a failed reading yields nothing");
    assert_eq!(mon.baseline_mb(), None);
    let t1 = start + 20_000_000;
    assert_eq!(mon.check_at(t1, 200), Some(200));
    assert_eq!(mon.baseline_mb(), Some(200));
    assert_eq!(mon.check_at(t1 + 10_000_000, 260), Some(260));
    assert_eq!(mon.baseline_mb(), Some(200), "baseline kept within the hour");
    assert_eq!(mon.check_at(t1 + HOUR_US, 300), Some(300));
    assert_eq!(mon.baseline_mb(), Some(300), "baseline renewed after an hour");
}

#[test]
fn test_chrono_timestamp_format() {
    let ts = chrono_timestamp();
    assert!(ts.contains('T'));
    assert!(ts.ends_with('Z'));
    assert_eq!(ts.len(), 20);
}

#[test]
fn timestamp_exact_values() {
    assert_eq!(timestamp_from_secs(0), "1970-01-01T00:00:00Z");
    assert_eq!(timestamp_from_secs(1_775_736_000), "2026-04-09T12:00:00Z");
    assert_eq!(timestamp_from_secs(951_782_400), "2000-02-29T00:00:00Z");
    assert_eq!(timestamp_from_secs(86_399), "1970-01-01T23:59:59Z");
    assert_eq!(timestamp_from_secs(1_704_067_199), "2023-12-31T23:59:59Z");
    assert_eq!(civil_from_days(0), (1970, 1, 1));
    assert_eq!(civil_from_days(365), (1971, 1, 1));
    assert_eq!(civil_from_days(59), (1970, 3, 1));
    assert_eq!(civil_from_days(789), (1972, 2, 29));
}

const STATUS_SAMPLE: &str = "Name:\tstreaming\nUmask:\t0022\nState:\tS (sleeping)\nVmPeak:\t  812344 kB\nVmSize:\t  812340 kB\nVmHWM:\t   90112 kB\nVmRSS:\t   88064 kB\nRssAnon:\t   40960 kB\nThreads:\t12\n";

#[test]
fn test_get_process_rss_mb_returns_value() {
    let rss = rss_mb_from_status(STATUS_SAMPLE);
    assert!(rss > 0, "RSS should be non-zero for a status text that reports it");
    assert_eq!(rss, 86);
}

#[test]
fn rss_parsing_edge_cases() {
    assert_eq!(rss_mb_from_status(""), 0);
    assert_eq!(rss_mb_from_status("VmRSS:\n"), 0, "no figure");
    assert_eq!(rss_mb_from_status("VmRSS: abc kB\nVmRSS: 2048 kB\n"), 2, "an unreadable line is skipped");
    assert_eq!(rss_mb_from_status("VmRSS: +4096 kB"), 4, "a leading plus sign reads");
    assert_eq!(rss_mb_from_status("VmRSS: -4096 kB"), 0);
    assert_eq!(rss_mb_from_status("VmRSS: 1023 kB"), 0, "whole megabytes, rounded down");
    assert_eq!(rss_mb_from_status("VmRSS: 99999999999999999999 kB"), 0, "overflow does not read");
    assert_eq!(rss_mb_from_status("VmRSS: 18446744073709551615 kB"), 18014398509481983);
    assert_eq!(rss_mb_from_status("  VmRSS: 2048 kB"), 0, "the line must start with the key");
    assert_eq!(rss_mb_from_status("VmRSS:2048 kB"), 0, "the figure is the second word");
    assert_eq!(rss_mb_from_status("VmRSS:\u{a0}3072\u{3000}kB\r\n"), 3, "Unicode white space separates words");
    assert_eq!(rss_mb_from_status("VmRSSx: 2048 kB\nVmRSS: 5120 kB"), 5);
}

#[test]
fn session_file_names_from_timestamps() {
    assert_eq!(session_file_name("2026-04-09T12:00:00Z"), "session_2026-04-09_12-00-00Z.jsonl");
    assert_eq!(session_file_name("2024-01-02T03:04:05.678Z"), "session_2024-01-02_03-04-05.jsonl");
    assert_eq!(session_file_name(""), "session_.jsonl");
    assert_eq!(session_file_name(".x"), "session_.jsonl");
    let name = session_file_name(&timestamp_from_secs(0));
    assert_eq!(name, "session_1970-01-01_00-00-00Z.jsonl");
}
