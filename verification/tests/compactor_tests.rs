use compactor::{Compactor, Date, PushError, Resolution, Time};

fn time(h: u8, m: u8, s: u8) -> Time {
    Time::default().with_hour(h).with_minute(m).with_second(s)
}

fn date(year: i16, month: i8, day: i8) -> Date {
    Date { year, month, day }
}

fn entries(agg: &Compactor<Vec<u32>>) -> Vec<(Date, Time, Vec<u32>)> {
    agg.iter()
        .into_iter()
        .map(|(d, t, x)| (d, t, x.clone()))
        .collect()
}

#[test]
fn test_one_day() -> Result<(), PushError> {
    let mut agg = Compactor::new()
        .keep_for_days(1, Resolution::Day)
        .build()
        .unwrap();
    agg.push(date(2023, 1, 1), time(13, 1, 0), vec![1])?;
    agg.push(date(2023, 1, 1), time(13, 2, 0), vec![2])?;
    agg.push(date(2023, 1, 1), time(13, 3, 0), vec![3])?;
    assert_eq!(
        entries(&agg),
        vec![(date(2023, 1, 1), Time::whole_day(), vec![1, 2, 3])]
    );
    agg.push(date(2023, 1, 2), time(13, 1, 0), vec![1])?;
    agg.push(date(2023, 1, 2), time(13, 2, 0), vec![2])?;
    agg.push(date(2023, 1, 2), time(13, 3, 0), vec![3])?;
    assert_eq!(
        entries(&agg),
        vec![(date(2023, 1, 2), Time::whole_day(), vec![1, 2, 3])]
    );
    agg.push(date(2023, 1, 3), time(13, 1, 0), vec![1])?;
    agg.push(date(2023, 1, 3), time(13, 2, 0), vec![2])?;
    agg.push(date(2023, 1, 3), time(13, 3, 0), vec![3])?;
    assert_eq!(
        entries(&agg),
        vec![(date(2023, 1, 3), Time::whole_day(), vec![1, 2, 3])]
    );
    Ok(())
}

#[test]
fn test_two_days() -> Result<(), PushError> {
    let mut agg = Compactor::new()
        .keep_for_days(2, Resolution::Day)
        .build()
        .unwrap();
    agg.push(date(2023, 1, 1), time(13, 1, 0), vec![1])?;
    agg.push(date(2023, 1, 1), time(13, 2, 0), vec![2])?;
    agg.push(date(2023, 1, 1), time(13, 3, 0), vec![3])?;
    assert_eq!(
        entries(&agg),
        vec![(date(2023, 1, 1), Time::whole_day(), vec![1, 2, 3])]
    );
    agg.push(date(2023, 1, 2), time(13, 1, 0), vec![1])?;
    agg.push(date(2023, 1, 2), time(13, 2, 0), vec![2])?;
    agg.push(date(2023, 1, 2), time(13, 3, 0), vec![3])?;
    assert_eq!(
        entries(&agg),
        vec![
            (date(2023, 1, 1), Time::whole_day(), vec![1, 2, 3]),
            (date(2023, 1, 2), Time::whole_day(), vec![1, 2, 3])
        ]
    );
    agg.push(date(2023, 1, 3), time(13, 1, 0), vec![1])?;
    agg.push(date(2023, 1, 3), time(13, 2, 0), vec![2])?;
    agg.push(date(2023, 1, 3), time(13, 3, 0), vec![3])?;
    assert_eq!(
        entries(&agg),
        vec![
            (date(2023, 1, 2), Time::whole_day(), vec![1, 2, 3]),
            (date(2023, 1, 3), Time::whole_day(), vec![1, 2, 3])
        ]
    );
    Ok(())
}

#[test]
fn test_ampm() -> Result<(), PushError> {
    let mut agg = Compactor::new()
        .keep_for_days(1, Resolution::AmPm)
        .keep_for_days(2, Resolution::Day)
        .build()
        .unwrap();
    agg.push(date(2023, 1, 1), time(11, 0, 0), vec![1])?;
    agg.push(date(2023, 1, 1), time(13, 0, 0), vec![2])?;
    assert_eq!(
        entries(&agg),
        vec![
            (date(2023, 1, 1), Time::am(), vec![1]),
            (date(2023, 1, 1), Time::pm(), vec![2]),
        ]
    );
    agg.push(date(2023, 1, 2), time(11, 0, 0), vec![1])?;
    agg.push(date(2023, 1, 2), time(13, 0, 0), vec![2])?;
    assert_eq!(
        entries(&agg),
        vec![
            (date(2023, 1, 1), Time::whole_day(), vec![1, 2]),
            (date(2023, 1, 2), Time::am(), vec![1]),
            (date(2023, 1, 2), Time::pm(), vec![2]),
        ]
    );
    agg.push(date(2023, 1, 3), time(11, 0, 0), vec![1])?;
    agg.push(date(2023, 1, 3), time(13, 0, 0), vec![2])?;
    assert_eq!(
        entries(&agg),
        vec![
            (date(2023, 1, 2), Time::whole_day(), vec![1, 2]),
            (date(2023, 1, 3), Time::am(), vec![1]),
            (date(2023, 1, 3), Time::pm(), vec![2]),
        ]
    );
    Ok(())
}

#[test]
fn test_3_level() -> Result<(), PushError> {
    let mut agg = Compactor::new()
        .keep_for_days(2, Resolution::AmPm)
        .keep_for_days(3, Resolution::Day)
        .keep_for_days(1, Resolution::Hour)
        .build()
        .unwrap();
    agg.push(date(2023, 1, 1), time(11, 0, 0), vec![1])?;
    agg.push(date(2023, 1, 1), time(13, 0, 0), vec![2])?;
    assert_eq!(
        entries(&agg),
        vec![
            (date(2023, 1, 1), Time::from_hour(11), vec![1]),
            (date(2023, 1, 1), Time::from_hour(13), vec![2]),
        ]
    );
    agg.push(date(2023, 1, 2), time(11, 0, 0), vec![1])?;
    agg.push(date(2023, 1, 2), time(13, 0, 0), vec![2])?;
    assert_eq!(
        entries(&agg),
        vec![
            (date(2023, 1, 1), Time::am(), vec![1]),
            (date(2023, 1, 1), Time::pm(), vec![2]),
            (date(2023, 1, 2), Time::from_hour(11), vec![1]),
            (date(2023, 1, 2), Time::from_hour(13), vec![2]),
        ]
    );
    agg.push(date(2023, 1, 3), time(11, 0, 0), vec![1])?;
    agg.push(date(2023, 1, 3), time(13, 0, 0), vec![2])?;
    assert_eq!(
        entries(&agg),
        vec![
            (date(2023, 1, 1), Time::whole_day(), vec![1, 2]),
            (date(2023, 1, 2), Time::am(), vec![1]),
            (date(2023, 1, 2), Time::pm(), vec![2]),
            (date(2023, 1, 3), Time::from_hour(11), vec![1]),
            (date(2023, 1, 3), Time::from_hour(13), vec![2]),
        ]
    );
    agg.push(date(2023, 1, 4), time(11, 0, 0), vec![1])?;
    agg.push(date(2023, 1, 4), time(13, 0, 0), vec![2])?;
    assert_eq!(
        entries(&agg),
        vec![
            (date(2023, 1, 2), Time::whole_day(), vec![1, 2]),
            (date(2023, 1, 3), Time::am(), vec![1]),
            (date(2023, 1, 3), Time::pm(), vec![2]),
            (date(2023, 1, 4), Time::from_hour(11), vec![1]),
            (date(2023, 1, 4), Time::from_hour(13), vec![2]),
        ]
    );
    Ok(())
}

#[test]
fn compactor_test_agg() {
    let mut agg = Compactor::new()
        .keep_for_days(2, Resolution::Hour)
        .keep_for_days(4, Resolution::AmPm)
        .keep_for_days(6, Resolution::Day)
        .build()
        .unwrap();
    let mut simple = vec![];
    for d in 10..20 {
        let date = date(2023, 1, d);
        let t = Time::default();
        for h in 8..15 {
            let x = d as u32 * 100 + h as u32;
            agg.push(date, t.with_hour(h), vec![x]).unwrap();
            simple.push(x);
        }
    }
    assert_eq!(agg.iter().into_iter().flat_map(|x| x.2).count(), 7 * 6);
    for (x, y) in agg
        .iter()
        .into_iter()
        .flat_map(|x| x.2)
        .rev()
        .zip(simple.iter().rev())
    {
        assert_eq!(x, y);
    }
    for (d, time, _) in agg.iter() {
        if d >= date(2023, 1, 18) {
            assert_eq!(time.resolution(), Resolution::Hour, "{d:?}");
        } else if d >= date(2023, 1, 16) {
            assert_eq!(time.resolution(), Resolution::AmPm, "{d:?}");
        } else {
            assert_eq!(time.resolution(), Resolution::Day, "{d:?}");
        }
    }
    assert!(agg
        .iter()
        .into_iter()
        .flat_map(|x| x.2)
        .rev()
        .zip(simple.iter().rev())
        .all(|(x, y)| x == y));
    {
        let date = date(2023, 1, 21);
        let t = Time::default();
        for h in 8..15 {
            let x = 21 as u32 * 100 + h as u32;
            agg.push(date, t.with_hour(h), vec![x]).unwrap();
            simple.push(x);
        }
    }
}
