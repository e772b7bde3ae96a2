use gameperf::pss::{dump_pss, PssInfo};

fn parse(report: &str, counter: &mut u64) -> PssInfo {
    dump_pss(report, counter).unwrap()
}

#[test]
fn test_dump_pss() {
    let report = "** MEMINFO in pid 4242 [com.miHoYo.Yuanshen] **\n\
                  ------\n\
                  Native Heap   10240 kB\n\
                  App Summary\n\
                  Java Heap:   4096\n\
                  Objects\n";
    let mut counter: u64 = 0;
    let sample = parse(report, &mut counter);
    assert_eq!(sample.package_name, "com.miHoYo.Yuanshen");
    assert_eq!(sample.pid, "4242");
    assert_eq!(counter, 1);
}

#[test]
fn scenario_report_parses_to_expected_sample() {
    let report = "** MEMINFO in pid 1234 [com.example.app] **\n------\nNative Heap   5120 kB\nApp Summary\nJava Heap: 2048\nObjects";
    let mut counter: u64 = 7;
    let sample = parse(report, &mut counter);
    assert_eq!(sample.package_name, "com.example.app");
    assert_eq!(sample.pid, "1234");
    assert_eq!(sample.cursor, 7);
    assert_eq!(sample.pss_header, vec!["index".to_string(), "Native Heap".to_string()]);
    assert_eq!(sample.pss_values, vec![7, 5]);
    assert_eq!(sample.app_header, vec!["index".to_string(), "Java Heap".to_string()]);
    assert_eq!(sample.app_values, vec![7, 2]);
    assert_eq!(counter, 8);
}

#[test]
fn empty_report_yields_empty_sample() {
    let mut counter: u64 = 3;
    let sample = parse("", &mut counter);
    assert_eq!(sample.package_name, "");
    assert_eq!(sample.pid, "");
    assert_eq!(sample.pss_header, vec!["index".to_string()]);
    assert_eq!(sample.app_header, vec!["index".to_string()]);
    assert!(sample.pss_values.is_empty());
    assert!(sample.app_values.is_empty());
    assert_eq!(sample.cursor, 0);
    assert_eq!(counter, 3);
}

#[test]
fn identity_line_sets_identity_and_consumes_counter() {
    let mut counter: u64 = 41;
    let sample = parse("** MEMINFO in pid 99 [org.demo] **\n", &mut counter);
    assert_eq!(sample.pid, "99");
    assert_eq!(sample.package_name, "org.demo");
    assert_eq!(sample.cursor, 41);
    assert_eq!(sample.pss_values, vec![41]);
    assert_eq!(sample.app_values, vec![41]);
    assert_eq!(counter, 42);
}

#[test]
fn cursor_strictly_increases_across_parses() {
    let report = "** MEMINFO in pid 1 [a.b] **\n";
    let mut counter: u64 = 0;
    let first = parse(report, &mut counter);
    let second = parse(report, &mut counter);
    assert!(second.cursor > first.cursor);
    assert_eq!(first.cursor, 0);
    assert_eq!(second.cursor, 1);
}

#[test]
fn parsing_twice_is_idempotent_apart_from_cursor() {
    let report = "** MEMINFO in pid 10 [x.y] **\n------\nCode  2048 kB\nGraphics   3072 kB\nApp Summary\nStack:  1024\nObjects\nignored  4096 kB\n";
    let mut c1: u64 = 0;
    let mut c2: u64 = 100;
    let one = parse(report, &mut c1);
    let two = parse(report, &mut c2);
    assert_eq!(one.pss_header, two.pss_header);
    assert_eq!(one.app_header, two.app_header);
    assert_eq!(one.package_name, two.package_name);
    assert_eq!(one.pid, two.pid);
    assert_eq!(one.pss_values[1..], two.pss_values[1..]);
    assert_eq!(one.app_values[1..], two.app_values[1..]);
}

#[test]
fn round_trip_lengths_and_division() {
    let report = "** MEMINFO in pid 77 [com.rt] **\n\
                  ------\n\
                  Native Heap  10240 kB\n\
                  Dalvik Heap   2047 kB\n\
                  Code   1024 kB\n\
                  App Summary\n\
                  Java Heap:   6144\n\
                  Stack:    512\n\
                  Objects\n";
    let mut counter: u64 = 5;
    let sample = parse(report, &mut counter);
    assert_eq!(sample.pss_header.len(), 4);
    assert_eq!(sample.pss_values.len(), 4);
    assert_eq!(sample.app_header.len(), 3);
    assert_eq!(sample.app_values.len(), 3);
    assert_eq!(sample.pss_values, vec![5, 10, 1, 1]);
    assert_eq!(sample.app_values, vec![5, 6, 0]);
    assert_eq!(sample.pss_header[1], "Native Heap");
    assert_eq!(sample.pss_header[2], "Dalvik Heap");
    assert_eq!(sample.app_header[1], "Java Heap");
    assert_eq!(sample.app_header[2], "Stack");
}

#[test]
fn report_without_identity_keeps_series_partial() {
    let report = "------\nNative Heap  2048 kB\nApp Summary\nJava Heap: 1024\nObjects\n";
    let mut counter: u64 = 9;
    let sample = parse(report, &mut counter);
    assert_eq!(counter, 9);
    assert_eq!(sample.package_name, "");
    assert_eq!(sample.pid, "");
    assert_eq!(sample.pss_header, vec!["index".to_string(), "Native Heap".to_string()]);
    assert_eq!(sample.pss_values, vec![2]);
    assert_eq!(sample.app_header, vec!["index".to_string(), "Java Heap".to_string()]);
    assert_eq!(sample.app_values, vec![1]);
}

#[test]
fn unmatched_lines_are_skipped() {
    let report = "** MEMINFO in pid 5 [p.q] **\nnoise without digits\n------\n\
                  1234 leading digit run\nno trailing space after digits 77\nPss  1024 kB\n\
                  App Summary\nno colon 2048 \nLabel:   3072\nObjects\nIgnored:  4096\n";
    let mut counter: u64 = 0;
    let sample = parse(report, &mut counter);
    assert_eq!(sample.pss_header, vec!["index".to_string(), "Pss".to_string()]);
    assert_eq!(sample.pss_values, vec![0, 1]);
    assert_eq!(sample.app_header, vec!["index".to_string(), "Label".to_string()]);
    assert_eq!(sample.app_values, vec![0, 3]);
}

#[test]
fn oversized_digit_run_is_not_a_value() {
    let report = "------\nHuge  99999999999999999999999999 kB\nSmall  2048 kB\n";
    let mut counter: u64 = 0;
    let sample = parse(report, &mut counter);
    assert_eq!(sample.pss_header, vec!["index".to_string(), "Small".to_string()]);
    assert_eq!(sample.pss_values, vec![2]);
}

#[test]
fn remainder_after_objects_is_discarded() {
    let report = "** MEMINFO in pid 3 [m.n] **\n------\nApp Summary\nObjects\nViews:  2048\nLater  4096 kB\n";
    let mut counter: u64 = 0;
    let sample = parse(report, &mut counter);
    assert_eq!(sample.app_header, vec!["index".to_string()]);
    assert_eq!(sample.pss_header, vec!["index".to_string()]);
    assert_eq!(sample.app_values, vec![0]);
}

#[test]
fn new_sample_is_empty() {
    let sample = PssInfo::new();
    assert_eq!(sample.package_name, "");
    assert_eq!(sample.pid, "");
    assert_eq!(sample.pss_header, vec!["index".to_string()]);
    assert_eq!(sample.app_header, vec!["index".to_string()]);
    assert!(sample.pss_values.is_empty());
    assert!(sample.app_values.is_empty());
    assert_eq!(sample.cursor, 0);
}

#[test]
fn inc_index_records_and_advances_counter() {
    let mut sample = PssInfo::new();
    let mut counter: u64 = 11;
    sample.inc_index(&mut counter);
    assert_eq!(sample.cursor, 11);
    assert_eq!(counter, 12);
    assert_eq!(sample.pss_values, vec![11]);
    assert_eq!(sample.app_values, vec![11]);
}

#[test]
fn carriage_returns_are_stripped_from_lines() {
    let report = "** MEMINFO in pid 8 [c.r] **\r\n------\r\nHeap  1024 kB\r\n";
    let mut counter: u64 = 0;
    let sample = parse(report, &mut counter);
    assert_eq!(sample.pid, "8");
    assert_eq!(sample.pss_header, vec!["index".to_string(), "Heap".to_string()]);
    assert_eq!(sample.pss_values, vec![0, 1]);
}
