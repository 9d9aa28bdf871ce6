use phoenix::time::{hz_to_fs, Duration, Hertz, Nanosecs, SystemTime, SystemTimeError, TimePart, TimeUnit};

#[test]
fn hertz_to_femtoseconds() {
    assert_eq!(hz_to_fs(Hertz(1_000_000_000)).0, 1_000_000);
    assert_eq!(hz_to_fs(Hertz(3)).0, 333_333_333_333_334);
    assert_eq!(hz_to_fs(Hertz(1)).0, 1_000_000_000_000_000);
}

#[test]
fn durations() {
    let d = Duration::new(3, 500_000_000);
    assert_eq!(d.as_secs(), 3);
    assert_eq!(d.subsec_nanos(), 500_000_000);
    assert_eq!(d.as_nanos(), 3_500_000_000);
    assert_eq!(d.as_millis(), 3_500);
    let d = Duration::from_nanos(1_000_000_123);
    assert_eq!(d.as_secs(), 1);
    assert_eq!(d.subsec_nanos(), 123);
}

#[test]
fn setting_the_time_then_reading_it() {
    let raw = 5_000;
    let offset = 100;
    let now = SystemTime::from_raw_nanosecs(raw, offset);
    assert_eq!(now.0 .0, 5_100);
    let target = SystemTime(Nanosecs(1_000_000));
    let new_offset = SystemTime::set_now(target, now, offset);
    assert_eq!(SystemTime::from_raw_nanosecs(raw, new_offset), target);
    let earlier = SystemTime(Nanosecs(7));
    let new_offset = SystemTime::set_now(earlier, now, offset);
    assert_eq!(SystemTime::from_raw_nanosecs(raw, new_offset), earlier);
}

#[test]
fn durations_between_times() {
    let t = SystemTime(Nanosecs(2_000_000_001));
    let e = SystemTime(Nanosecs(1));
    let d = t.duration_since(e).ok().unwrap();
    assert_eq!(d.as_nanos(), 2_000_000_000);
    let err = e.duration_since(t).err().unwrap();
    assert_eq!(err, SystemTimeError(Nanosecs(2_000_000_000)));
    assert_eq!(err.duration().as_nanos(), 2_000_000_000);
    assert_eq!(e.elapsed(t).ok().unwrap().as_nanos(), 2_000_000_000);
    assert_eq!(e.add_duration(d), t);
    assert_eq!(t.sub_duration(d), e);
}

#[test]
fn time_error_parts() {
    let err = SystemTimeError(Nanosecs(90_061_000_000_005));
    assert_eq!(err.parts(), vec![
        TimePart { value: 1, unit: TimeUnit::Days },
        TimePart { value: 1, unit: TimeUnit::Hours },
        TimePart { value: 1, unit: TimeUnit::Minutes },
        TimePart { value: 1, unit: TimeUnit::Seconds },
        TimePart { value: 5, unit: TimeUnit::Nanoseconds },
    ]);
    assert_eq!(SystemTimeError(Nanosecs(0)).parts(), vec![TimePart { value: 0, unit: TimeUnit::Nanoseconds }]);
    assert_eq!(SystemTimeError(Nanosecs(60_000_000_000)).parts(), vec![TimePart { value: 1, unit: TimeUnit::Minutes }]);
}

#[test]
fn registering_the_clock() {
    let mut slot = None;
    SystemTime::set_now_raw(&mut slot, 3);
    assert_eq!(slot, Some(3));
    SystemTime::set_now_raw(&mut slot, 3);
    assert_eq!(slot, Some(3));
}

#[test]
fn wrapping_arithmetic() {
    assert_eq!(Nanosecs(u64::MAX).wrapping_add(Nanosecs(2)), Nanosecs(1));
    assert_eq!(Hertz(0).wrapping_sub(Hertz(1)), Hertz(u32::MAX));
}
