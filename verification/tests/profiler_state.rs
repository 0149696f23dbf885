use std::time::SystemTime;

use nix::errno::Errno;
use pprof::{
    blocked_segments, empty_backtrace, record_frame, Collector, Error, LoadedLibrary, Profiler, ProfilerGuardBuilder,
    Sample, UnresolvedFrames,
};

fn sample_of(frames: &[(usize, usize)], thread_id: u64) -> Sample {
    let mut bt = empty_backtrace();
    for f in frames {
        record_frame(&mut bt, *f);
    }
    Sample::new(bt, b"t".to_vec(), thread_id, SystemTime::UNIX_EPOCH)
}

#[test]
fn new_profiler_is_idle_and_empty() {
    let p = Profiler::new().unwrap();
    assert!(!p.running());
    assert_eq!(p.sample_count(), 0);
    assert_eq!(p.data().len(), 0);
    assert!(!p.is_blocklisted(12345));
}

#[test]
fn start_then_stop() {
    let mut p = Profiler::new().unwrap();
    assert!(p.start().is_ok());
    assert!(p.started(Ok(())).is_ok());
    assert!(p.running());
    assert!(matches!(p.start(), Err(Error::Running)));
    p.sample(sample_of(&[(1, 1)], 7));
    assert_eq!(p.sample_count(), 1);
    assert!(p.stop().is_ok());
    assert!(p.stopped(Ok(())).is_ok());
    assert!(!p.running());
    assert_eq!(p.sample_count(), 0);
    assert_eq!(p.data().len(), 0);
    assert!(matches!(p.stop(), Err(Error::NotRunning)));
}

#[test]
fn failed_registration_leaves_profiler_stopped() {
    let mut p = Profiler::new().unwrap();
    assert!(p.start().is_ok());
    assert!(matches!(p.started(Err(Errno::EPERM)), Err(Error::NixError(Errno::EPERM))));
    assert!(!p.running());
    assert!(matches!(p.stop(), Err(Error::NotRunning)));
}

#[test]
fn failed_unregistration_keeps_profiler_running() {
    let mut p = Profiler::new().unwrap();
    p.started(Ok(())).unwrap();
    p.sample(sample_of(&[(1, 1)], 7));
    assert!(matches!(p.stopped(Err(Errno::EINVAL)), Err(Error::NixError(Errno::EINVAL))));
    assert!(p.running());
    assert_eq!(p.sample_count(), 1);
    assert_eq!(p.data().len(), 1);
}

#[test]
fn samples_of_one_stack_aggregate() {
    let mut p = Profiler::new().unwrap();
    p.sample(sample_of(&[(100, 96), (200, 192)], 1));
    // Same symbols and thread, other instruction pointers: the same stack.
    p.sample(sample_of(&[(101, 96), (205, 192)], 1));
    p.sample(sample_of(&[(100, 96)], 1));
    p.sample(sample_of(&[(100, 96), (200, 192)], 2));
    assert_eq!(p.sample_count(), 4);
    let data = p.data();
    assert_eq!(data.len(), 3);
    assert_eq!(data.entry(0).1, 2);
    assert_eq!(data.entry(1).1, 1);
    assert_eq!(data.entry(2).1, 1);
    assert_eq!(data.entry(0).0.thread_id, 1);
    assert_eq!(data.entry(2).0.thread_id, 2);
    assert_eq!(data.entry(0).0.frames.get(1), (200, 192));
}

#[test]
fn can_sample_guards_the_counters() {
    let p = Profiler::new().unwrap();
    let s = sample_of(&[(1, 1)], 1);
    assert!(p.can_sample(&s));
}

#[test]
fn collector_adds_counts_per_stack() {
    let mut c = Collector::new();
    let uf = |tid: u64, sym: usize| {
        let mut bt = empty_backtrace();
        record_frame(&mut bt, (sym + 3, sym));
        UnresolvedFrames::new(bt, b"x".to_vec(), tid, SystemTime::UNIX_EPOCH)
    };
    c.add(uf(1, 10), 5);
    c.add(uf(1, 10), -2);
    c.add(uf(1, 11), 4);
    assert_eq!(c.len(), 2);
    assert_eq!(c.entry(0).1, 3);
    assert_eq!(c.entry(1).1, 4);
    let mut pos_bt = empty_backtrace();
    record_frame(&mut pos_bt, (0, 11));
    assert_eq!(c.position(&pos_bt, 1), Some(1));
    assert_eq!(c.position(&pos_bt, 2), None);
}

fn lib(name: Option<&str>, segments: Vec<(usize, usize)>) -> LoadedLibrary {
    lib_at(name, 0, segments)
}

fn lib_at(name: Option<&str>, bias: usize, segments: Vec<(usize, usize)>) -> LoadedLibrary {
    LoadedLibrary { name: name.map(|n| n.to_string()), bias, segments }
}

#[test]
fn blocked_segments_of_matching_libraries() {
    let libs = vec![
        lib(Some("/usr/lib/libc.so.6"), vec![(0x1000, 0x100), (0x2000, 0x10)]),
        lib(Some("/usr/lib/libm.so.6"), vec![(0x3000, 0x100)]),
        lib(None, vec![(0x4000, 0x100)]),
        lib(Some("/opt/libcrypto.so"), vec![(0x5000, 0x20)]),
    ];
    assert_eq!(
        blocked_segments(&libs, &["libc"]),
        Some(vec![(0x1000, 0x1100), (0x2000, 0x2010), (0x5000, 0x5020)])
    );
    assert_eq!(blocked_segments(&libs, &["libm", "nothing"]), Some(vec![(0x3000, 0x3100)]));
    assert_eq!(blocked_segments(&libs, &[]), Some(vec![]));
    assert_eq!(blocked_segments(&libs, &["zzz"]), Some(vec![]));
}

#[test]
fn empty_blocked_name_matches_every_named_library() {
    let libs = vec![lib(Some(""), vec![(1, 2)]), lib(Some("a"), vec![(5, 5)]), lib(None, vec![(9, 1)])];
    assert_eq!(blocked_segments(&libs, &[""]), Some(vec![(1, 3), (5, 10)]));
}

#[test]
fn blocked_segments_refuse_ranges_past_the_address_space() {
    let libs = vec![lib(Some("libc"), vec![(usize::MAX - 1, 2)])];
    assert_eq!(blocked_segments(&libs, &["libc"]), None);
    assert_eq!(blocked_segments(&libs, &["other"]), Some(vec![]));
    let fits = vec![lib(Some("libc"), vec![(usize::MAX - 1, 1)])];
    assert_eq!(blocked_segments(&fits, &["libc"]), Some(vec![(usize::MAX - 1, usize::MAX)]));
}

#[test]
fn non_ascii_names_match_by_substring() {
    let libs = vec![lib(Some("/lib/bibliothèque.so"), vec![(10, 10)])];
    assert_eq!(blocked_segments(&libs, &["thèque"]), Some(vec![(10, 20)]));
    assert_eq!(blocked_segments(&libs, &["theque"]), Some(vec![]));
}

#[test]
fn builder_defaults_to_ninety_nine_hertz() {
    let mut slot = Profiler::new();
    assert_eq!(ProfilerGuardBuilder::default().prepare(&mut slot).unwrap(), 99);
    let mut slot = Profiler::new();
    assert_eq!(ProfilerGuardBuilder::default().frequency(1000).prepare(&mut slot).unwrap(), 1000);
}

#[test]
fn prepare_reports_creation_error_and_running() {
    let mut failed: Result<Profiler, Error> = Err(Error::CreatingError);
    assert!(matches!(ProfilerGuardBuilder::default().prepare(&mut failed), Err(Error::CreatingError)));
    let mut slot = Profiler::new();
    slot.as_mut().unwrap().started(Ok(())).unwrap();
    assert!(matches!(ProfilerGuardBuilder::default().prepare(&mut slot), Err(Error::Running)));
}

fn local_function() -> usize {
    7
}

#[test]
fn blocklist_of_loaded_libraries() {
    let addr = local_function as fn() -> usize as usize + 1;
    let mut slot = Profiler::new();
    ProfilerGuardBuilder::default().blocklist(&[""]).prepare(&mut slot).unwrap();
    assert!(slot.as_ref().unwrap().is_blocklisted(addr));
    let mut slot = Profiler::new();
    ProfilerGuardBuilder::default().blocklist(&["no-library-has-this-name"]).prepare(&mut slot).unwrap();
    assert!(!slot.as_ref().unwrap().is_blocklisted(addr));
}

#[test]
fn blocklist_leaves_outside_addresses_alone() {
    let mut slot = Profiler::new();
    ProfilerGuardBuilder::default().blocklist(&[""]).prepare(&mut slot).unwrap();
    let p = slot.as_ref().unwrap();
    assert!(!p.is_blocklisted(0));
    assert!(!p.is_blocklisted(usize::MAX));
}

#[test]
fn blocklist_last_call_wins() {
    let addr = local_function as fn() -> usize as usize + 1;
    let mut slot = Profiler::new();
    ProfilerGuardBuilder::default().blocklist(&[""]).blocklist(&["no-library-has-this-name"]).prepare(&mut slot).unwrap();
    assert!(!slot.as_ref().unwrap().is_blocklisted(addr));
    let mut slot = Profiler::new();
    ProfilerGuardBuilder::default().blocklist(&["no-library-has-this-name"]).blocklist(&[""]).prepare(&mut slot).unwrap();
    assert!(slot.as_ref().unwrap().is_blocklisted(addr));
    let mut slot = Profiler::new();
    ProfilerGuardBuilder::default().blocklist(&[""]).blocklist(&[""]).prepare(&mut slot).unwrap();
    assert!(slot.as_ref().unwrap().is_blocklisted(addr));
}

#[test]
fn more_blocked_names_only_add_ranges() {
    let libs = vec![
        lib(Some("liba.so"), vec![(0x100, 0x10)]),
        lib(Some("libb.so"), vec![(0x200, 0x10), (0x300, 0x10)]),
        lib(Some("libc.so"), vec![(0x400, 0x10)]),
    ];
    assert_eq!(blocked_segments(&libs, &["libc"]), Some(vec![(0x400, 0x410)]));
    assert_eq!(
        blocked_segments(&libs, &["libc", "liba"]),
        Some(vec![(0x100, 0x110), (0x400, 0x410)])
    );
    assert_eq!(
        blocked_segments(&libs, &["libc", "liba", "libb"]),
        Some(vec![(0x100, 0x110), (0x200, 0x210), (0x300, 0x310), (0x400, 0x410)])
    );
}

#[test]
fn blocked_segments_add_the_bias() {
    let libs = vec![
        lib_at(Some("libc.so.6"), 0x7f00_0000, vec![(0x1000, 0x100), (0x3000, 0x20)]),
        lib_at(Some("libm.so.6"), 0x6000_0000, vec![(0x0, 0x10)]),
    ];
    assert_eq!(
        blocked_segments(&libs, &["libc"]),
        Some(vec![(0x7f00_1000, 0x7f00_1100), (0x7f00_3000, 0x7f00_3020)])
    );
}

#[test]
fn blocked_segments_refuse_a_mapping_past_the_address_space() {
    // A bias that would wrap the stated address around the address space.
    let libs = vec![
        lib_at(Some("vdso"), usize::MAX - 0xff, vec![(0x1000, 0x10)]),
        lib_at(Some("libc"), 0x1000, vec![(0x10, 0x10)]),
    ];
    assert_eq!(blocked_segments(&libs, &["vdso"]), None);
    assert_eq!(blocked_segments(&libs, &["libc"]), Some(vec![(0x1010, 0x1020)]));
}

#[test]
fn blocklist_from_replaces_or_keeps_the_ranges() {
    let addr_in_libc = 0x1015;
    let libs = vec![lib_at(Some("libc"), 0x1000, vec![(0x10, 0x10)])];
    let mut slot = Profiler::new();
    ProfilerGuardBuilder::default().blocklist_from(&libs, &["libc"]).prepare(&mut slot).unwrap();
    assert!(slot.as_ref().unwrap().is_blocklisted(addr_in_libc));
    assert!(!slot.as_ref().unwrap().is_blocklisted(0x1010));

    let wrapping = vec![lib_at(Some("vdso"), usize::MAX, vec![(0x10, 0x10)])];
    let mut slot = Profiler::new();
    ProfilerGuardBuilder::default()
        .blocklist_from(&libs, &["libc"])
        .blocklist_from(&wrapping, &["vdso"])
        .prepare(&mut slot)
        .unwrap();
    assert!(slot.as_ref().unwrap().is_blocklisted(addr_in_libc));

    let mut slot = Profiler::new();
    ProfilerGuardBuilder::default()
        .blocklist_from(&libs, &["libc"])
        .blocklist_from(&libs, &["other"])
        .prepare(&mut slot)
        .unwrap();
    assert!(!slot.as_ref().unwrap().is_blocklisted(addr_in_libc));
}
