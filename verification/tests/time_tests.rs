use compactor::{AmPm, Resolution, SixHour, Time};

#[test]
fn test_set_get() {
    let mut x = Time::default();
    for hour in 0..24 {
        let x = x.with_hour(hour);
        assert_eq!(x.hour(), hour);
    }
    x.set_hour(11);
    for minute in 0..60 {
        let x = x.with_minute(minute);
        assert_eq!(x.minute(), minute);
    }
    x.set_minute(43);
    for second in 0..60 {
        let x = x.with_second(second);
        assert_eq!(x.second(), second);
    }
    x.set_second(59);
    for millis in 0..1000 {
        let x = x.with_millis(millis);
        assert_eq!(x.millis(), millis);
    }
}

#[test]
fn time_test_fmt() {
    let mut x = Time::default();
    assert_eq!(x.to_string(), "whole day");
    x.set_hour(11);
    assert_eq!(x.to_string(), "11:00");
    x.set_minute(56);
    assert_eq!(x.to_string(), "11:56");
    x.set_second(24);
    assert_eq!(x.to_string(), "11:56:24");
    x.reduce_to(Resolution::FiveSecond);
    assert_eq!(x.to_string(), "11:56:20");
    x.reduce_to(Resolution::FifteenSecond);
    assert_eq!(x.to_string(), "11:56:15");
    x.reduce_to(Resolution::Minute);
    assert_eq!(x.to_string(), "11:56");
    x.reduce_to(Resolution::FiveMinute);
    assert_eq!(x.to_string(), "11:55");
    x.reduce_to(Resolution::FifteenMinute);
    assert_eq!(x.to_string(), "11:45");
    x.reduce_to(Resolution::Hour);
    assert_eq!(x.to_string(), "11:00");
    x.reduce_to(Resolution::Day);
    assert_eq!(x.to_string(), "whole day");
}

#[test]
fn test_am_pm() {
    let t = Time::new()
        .with_hour(0)
        .with_minute(0)
        .with_second(0)
        .with_millis(0);
    assert_eq!(t.am_pm(), Some(AmPm::AM));
    let t = Time::new()
        .with_hour(11)
        .with_minute(59)
        .with_second(59)
        .with_millis(999);
    assert_eq!(t.am_pm(), Some(AmPm::AM));
    let t = Time::new()
        .with_hour(12)
        .with_minute(0)
        .with_second(0)
        .with_millis(0);
    assert_eq!(t.am_pm(), Some(AmPm::PM));
    let t = Time::new()
        .with_hour(23)
        .with_minute(59)
        .with_second(59)
        .with_millis(999);
    assert_eq!(t.am_pm(), Some(AmPm::PM));
}

#[test]
fn test_time_of_day() {
    let t = Time::new().with_hour(0).with_minute(0);
    assert_eq!(t.time_of_day(), Some(SixHour::Night));
    let t = Time::new().with_hour(5).with_minute(59);
    assert_eq!(t.time_of_day(), Some(SixHour::Night));
    let t = Time::new().with_hour(6).with_minute(0);
    assert_eq!(t.time_of_day(), Some(SixHour::Morning));
    let t = Time::new().with_hour(11).with_minute(59);
    assert_eq!(t.time_of_day(), Some(SixHour::Morning));
    let t = Time::new().with_hour(12).with_minute(0);
    assert_eq!(t.time_of_day(), Some(SixHour::Afternoon));
    let t = Time::new().with_hour(17).with_minute(59);
    assert_eq!(t.time_of_day(), Some(SixHour::Afternoon));
    let t = Time::new().with_hour(18).with_minute(0);
    assert_eq!(t.time_of_day(), Some(SixHour::Evening));
    let t = Time::new().with_hour(23).with_minute(59);
    assert_eq!(t.time_of_day(), Some(SixHour::Evening));
}

#[test]
fn test_res_fmt() {
    let t = Time::new()
        .with_hour(15)
        .with_minute(7)
        .with_second(24)
        .with_millis(76);
    assert_eq!(t.to_string(), "15:07:24.076");
    for res in Resolution::all() {
        let actual = t.with_res(res).unwrap().to_string();
        let expected = match res {
            Resolution::Millisecond => "15:07:24.076",
            Resolution::FiveMilli => "15:07:24.075",
            Resolution::TenMilli => "15:07:24.07",
            Resolution::FiftyMilli => "15:07:24.05",
            Resolution::HundredMilli => "15:07:24.0",
            Resolution::FiveHundredMilli => "15:07:24.0",
            Resolution::Second => "15:07:24",
            Resolution::FiveSecond => "15:07:20",
            Resolution::FifteenSecond => "15:07:15",
            Resolution::ThirtySecond => "15:07:00",
            Resolution::Minute => "15:07",
            Resolution::FiveMinute => "15:05",
            Resolution::FifteenMinute => "15:00",
            Resolution::ThirtyMinute => "15:00",
            Resolution::Hour => "15:00",
            Resolution::ThreeHour => "15:00",
            Resolution::SixHour => "afternoon",
            Resolution::AmPm => "PM",
            Resolution::Day => "whole day",
        };
        assert_eq!(actual, expected);
    }
}

#[test]
fn test_named_intervals() {
    assert_eq!(Time::am(), Time::new().with_am_pm(AmPm::AM));
    assert_eq!(Time::pm(), Time::new().with_am_pm(AmPm::PM));
    assert_eq!(Time::night(), Time::new().with_time_of_day(SixHour::Night));
    assert_eq!(
        Time::morning(),
        Time::new().with_time_of_day(SixHour::Morning)
    );
    assert_eq!(
        Time::afternoon(),
        Time::new().with_time_of_day(SixHour::Afternoon)
    );
    assert_eq!(
        Time::evening(),
        Time::new().with_time_of_day(SixHour::Evening)
    );
    assert_eq!(Time::whole_day(), Time::default());
}

#[test]
fn test_try_setters_reject() {
    // Out-of-range components are rejected; the convenience setters then leave
    // the value unchanged.
    assert_eq!(Time::new().try_with_hour(24), None);
    assert_eq!(Time::new().with_hour(24), Time::new());
    assert_eq!(Time::from_hour(9).try_with_minute(60), None);
    assert_eq!(Time::from_hour(9).try_with_hour(3), None);
    assert_eq!(Time::new().try_with_minute(5), None);
    assert_eq!(Time::new().try_with_second(5), None);
    assert_eq!(Time::new().try_with_millis(5), None);
    let t = Time::from_hour(9);
    assert_eq!(t.with_minute(60), t);
    assert_eq!(t.with_second(30), t);
}

#[test]
fn test_resolution_reduce_identity() {
    // Reducing to a coarser resolution moves the resolution there exactly.
    let t = Time::new()
        .with_hour(15)
        .with_minute(7)
        .with_second(24)
        .with_millis(76);
    assert_eq!(t.resolution(), Resolution::Millisecond);
    for res in Resolution::all() {
        let mut x = t;
        x.reduce_to(res);
        assert_eq!(x.resolution(), res);
    }
    // On a value that is already coarser, reducing has no effect.
    let mut d = Time::default();
    d.reduce_to(Resolution::Hour);
    assert_eq!(d, Time::default());
    assert_eq!(d.resolution(), Resolution::Day);
}

#[test]
fn test_resolution_significant_for_eq() {
    let t1 = Time::new().with_hour(15).with_minute(27).with_second(17);
    let t2 = t1.with_millis(0);
    assert_ne!(t1, t2);
    assert_eq!(t1.partial_cmp(&t2), None);
    assert_eq!(t1.coarse_cmp(t2), std::cmp::Ordering::Equal);
}

#[test]
fn test_coarse_cmp() {
    let am = Time::am();
    let pm = Time::pm();
    let h9 = Time::from_hour(9);
    let h15 = Time::from_hour(15);
    assert_eq!(am.coarse_cmp(pm), std::cmp::Ordering::Less);
    assert_eq!(pm.coarse_cmp(am), std::cmp::Ordering::Greater);
    // A nine-o'clock hour is inside the AM half: containment compares equal.
    assert_eq!(h9.coarse_cmp(am), std::cmp::Ordering::Equal);
    assert_eq!(am.coarse_cmp(h9), std::cmp::Ordering::Equal);
    assert_eq!(h9.coarse_cmp(pm), std::cmp::Ordering::Less);
    assert_eq!(h15.coarse_cmp(am), std::cmp::Ordering::Greater);
    assert_eq!(h9.coarse_cmp(h15), std::cmp::Ordering::Less);
}

#[test]
fn test_coarse_readers() {
    // Readers on a coarse value return the most-coarse representative.
    let pm = Time::pm();
    assert_eq!(pm.hour(), 12);
    assert_eq!(pm.minute(), 0);
    assert_eq!(pm.second(), 0);
    assert_eq!(pm.millis(), 0);
    assert_eq!(Time::default().am_pm(), None);
    assert_eq!(Time::default().time_of_day(), None);
    assert_eq!(Time::evening().hour(), 18);
    assert_eq!(Time::evening().am_pm(), Some(AmPm::PM));
}
