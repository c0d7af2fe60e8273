use chubby_bunny::{begin_frame, end_frame, take_last_frame, ProfileGuard, Profiler};

#[test]
fn scopes_outside_a_frame_are_not_recorded() {
    let mut p = Profiler::new();
    let g = ProfileGuard::new(&mut p, "idle", 5);
    g.finish(&mut p, 9);
    end_frame(&mut p, 10);
    assert!(take_last_frame(&mut p).is_none());
}

#[test]
fn frame_aggregates_scopes_by_name() {
    let mut p = Profiler::new();
    begin_frame(&mut p, "frame", 0);
    let a = ProfileGuard::new(&mut p, "a", 10);
    let b = ProfileGuard::new(&mut p, "b", 12);
    b.finish(&mut p, 15);
    a.finish(&mut p, 20);
    let a2 = ProfileGuard::new(&mut p, "a", 30);
    let b2 = ProfileGuard::new(&mut p, "b", 31);
    b2.finish(&mut p, 32);
    a2.finish(&mut p, 46);
    let c = ProfileGuard::new(&mut p, "c", 47);
    c.finish(&mut p, 40);
    end_frame(&mut p, 50);
    let frame = take_last_frame(&mut p).expect("a frame was profiled");
    assert!(take_last_frame(&mut p).is_none());
    assert_eq!(frame.name, "frame");
    assert_eq!(frame.call_count, 1);
    assert_eq!(frame.total_time_us, 50);
    assert_eq!(frame.avg_time_us, 50);
    assert_eq!(frame.children.len(), 2);
    let a = &frame.children[0];
    assert_eq!(a.name, "a");
    assert_eq!(a.call_count, 2);
    assert_eq!(a.total_time_us, 26);
    assert_eq!(a.min_time_us, 10);
    assert_eq!(a.max_time_us, 16);
    assert_eq!(a.avg_time_us, 13);
    assert_eq!(a.children.len(), 1);
    let b = &a.children[0];
    assert_eq!((b.call_count, b.total_time_us, b.min_time_us, b.max_time_us, b.avg_time_us), (2, 4, 1, 3, 2));
    let c = &frame.children[1];
    assert_eq!((c.name.as_str(), c.call_count, c.total_time_us), ("c", 1, 0));
}

#[test]
fn a_new_frame_drops_the_old_profile() {
    let mut p = Profiler::new();
    begin_frame(&mut p, "one", 0);
    end_frame(&mut p, 5);
    begin_frame(&mut p, "two", 6);
    assert!(take_last_frame(&mut p).is_none());
    end_frame(&mut p, 8);
    let frame = take_last_frame(&mut p).unwrap();
    assert_eq!(frame.name, "two");
    assert_eq!(frame.total_time_us, 2);
    assert!(frame.children.is_empty());
}
