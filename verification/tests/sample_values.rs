use std::time::SystemTime;

use pprof::{
    empty_backtrace, record_frame, thread_name_from_buffer, ReportTiming, Sample, SampleType, SampleTypes, Unit,
    MAX_DEPTH,
};

fn timing(frequency: i32) -> ReportTiming {
    ReportTiming { frequency, start_time: SystemTime::UNIX_EPOCH, duration: std::time::Duration::ZERO }
}

#[test]
fn count_unit_keeps_the_count() {
    assert_eq!(Unit::Count.to_sample_value(7, &timing(99)), 7);
    assert_eq!(Unit::Count.to_sample_value(-4, &timing(0)), -4);
}

#[test]
fn nanoseconds_unit_scales_by_frequency() {
    assert_eq!(Unit::Nanoseconds.to_sample_value(3, &timing(99)), 30_303_030);
    assert_eq!(Unit::Nanoseconds.to_sample_value(100, &timing(100)), 1_000_000_000);
    assert_eq!(Unit::Nanoseconds.to_sample_value(0, &timing(99)), 0);
}

#[test]
fn nanoseconds_unit_rounds_toward_zero() {
    assert_eq!(Unit::Nanoseconds.to_sample_value(-3, &timing(99)), -30_303_030);
    assert_eq!(Unit::Nanoseconds.to_sample_value(3, &timing(-99)), -30_303_030);
    assert_eq!(Unit::Nanoseconds.to_sample_value(-3, &timing(-99)), 30_303_030);
    assert_eq!(Unit::Nanoseconds.to_sample_value(1, &timing(7)), 142_857_142);
}

#[test]
fn unit_names() {
    assert_eq!(Unit::Count.name(), "count");
    assert_eq!(Unit::Nanoseconds.name(), "nanoseconds");
    assert_eq!(String::from(&Unit::Count), "count");
    assert_eq!(String::from(&Unit::Nanoseconds), "nanoseconds");
}

#[test]
fn default_sample_types_describe_a_cpu_profile() {
    let types = SampleTypes::default();
    assert_eq!(types.descriptions.len(), 2);
    assert_eq!(types.descriptions[0].ty, "samples");
    assert_eq!(types.descriptions[0].unit, Unit::Count);
    assert_eq!(types.descriptions[1].ty, "cpu");
    assert_eq!(types.descriptions[1].unit, Unit::Nanoseconds);
}

#[test]
fn sample_types_keep_their_descriptions() {
    let t = SampleType::new("allocations".to_string(), Unit::Count);
    assert_eq!(t.ty, "allocations");
    assert_eq!(t.unit, Unit::Count);
    let types = SampleTypes::new(vec![t, SampleType::new("syscall".to_string(), Unit::Count)]);
    assert_eq!(types.descriptions.len(), 2);
    assert_eq!(types.descriptions[0].ty, "allocations");
    assert_eq!(types.descriptions[1].ty, "syscall");
}

#[test]
fn record_frame_stops_at_max_depth() {
    let mut bt = empty_backtrace();
    assert_eq!(bt.len(), 0);
    for i in 0..MAX_DEPTH {
        assert!(record_frame(&mut bt, (i, i + 1)));
    }
    assert_eq!(bt.len(), MAX_DEPTH);
    assert!(!record_frame(&mut bt, (1000, 1001)));
    assert_eq!(bt.len(), MAX_DEPTH);
    assert_eq!(bt.get(0), (0, 1));
    assert_eq!(bt.get(MAX_DEPTH - 1), (MAX_DEPTH - 1, MAX_DEPTH));
}

#[test]
fn thread_name_stops_at_nul() {
    assert_eq!(thread_name_from_buffer(b"main\0\0\0\0\0\0\0\0\0\0\0\0"), b"main".to_vec());
    assert_eq!(thread_name_from_buffer(b"worker-1\0junk\0\0\0"), b"worker-1".to_vec());
}

#[test]
fn thread_name_without_nul_takes_the_buffer() {
    assert_eq!(thread_name_from_buffer(b"abcdefghijklmnop"), b"abcdefghijklmnop".to_vec());
    assert_eq!(thread_name_from_buffer(b""), Vec::<u8>::new());
    assert_eq!(thread_name_from_buffer(b"\0abc"), Vec::<u8>::new());
}

#[test]
fn new_sample_counts_once() {
    let mut bt = empty_backtrace();
    record_frame(&mut bt, (10, 8));
    let s = Sample::new(bt, b"main".to_vec(), 42, SystemTime::UNIX_EPOCH);
    assert_eq!(s.count, 1);
    assert_eq!(s.thread_id, 42);
    assert_eq!(s.thread_name, b"main".to_vec());
    assert_eq!(s.backtrace.len(), 1);
    assert_eq!(s.timestamp, SystemTime::UNIX_EPOCH);
}
