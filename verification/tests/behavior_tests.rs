use compactor::aggregate::{Candlestick, First, Last, Max, Min};
use compactor::{Aggregate, Compactor, Date, PushError, Resolution, Time};

fn time(h: u8, m: u8, s: u8) -> Time {
    Time::default().with_hour(h).with_minute(m).with_second(s)
}

fn date(year: i16, month: i8, day: i8) -> Date {
    Date { year, month, day }
}

fn keys(agg: &Compactor<Vec<u32>>) -> Vec<(Date, Time)> {
    agg.iter().into_iter().map(|(d, t, _)| (d, t)).collect()
}

#[test]
fn test_non_monotonic_push() {
    // An out-of-order push is rejected and the store is left unchanged.
    let mut agg = Compactor::new()
        .keep_for_days(7, Resolution::Minute)
        .build()
        .unwrap();
    agg.push(date(2023, 1, 3), time(14, 0, 0), vec![1]).unwrap();
    let before = keys(&agg);
    assert_eq!(
        agg.push(date(2023, 1, 3), time(13, 0, 0), vec![9]),
        Err(PushError::NonMonotonic)
    );
    assert_eq!(
        agg.push(date(2023, 1, 2), time(15, 0, 0), vec![9]),
        Err(PushError::NonMonotonic)
    );
    assert_eq!(keys(&agg), before);
    assert_eq!(agg.len(), 1);
}

#[test]
fn test_monotonic_iteration() {
    // Entries always come out in non-decreasing (date, coarse time) order.
    let mut agg = Compactor::new()
        .keep_for_days(2, Resolution::Hour)
        .keep_for_days(5, Resolution::Day)
        .build()
        .unwrap();
    for d in 1..9 {
        for h in [3u8, 9, 16, 22] {
            agg.push(date(2023, 2, d), Time::from_hour(h), vec![d as u32])
                .unwrap();
        }
    }
    let out = agg.iter();
    for w in out.windows(2) {
        let earlier = (w[0].0, w[0].1);
        let later = (w[1].0, w[1].1);
        assert!(
            earlier.0 < later.0
                || (earlier.0 == later.0
                    && earlier.1.coarse_cmp(later.1) == std::cmp::Ordering::Less)
        );
    }
}

#[test]
fn test_retention_and_compaction_ages() {
    // After any push, entries past each rule's age are at its resolution or
    // coarser, and nothing older than the maximum retention survives.
    let mut agg = Compactor::new()
        .keep_for_days(1, Resolution::Hour)
        .keep_for_days(2, Resolution::AmPm)
        .keep_for_days(3, Resolution::Day)
        .build()
        .unwrap();
    for d in 1..28 {
        agg.push(date(2023, 3, d), Time::from_hour(10), vec![d as u32])
            .unwrap();
        agg.push(date(2023, 3, d), Time::from_hour(15), vec![d as u32])
            .unwrap();
        for (ed, et, _) in agg.iter() {
            assert!(ed > date(2023, 3, d - 3));
            if ed <= date(2023, 3, d - 2) {
                assert!(et.resolution() <= Resolution::Day);
            } else if ed <= date(2023, 3, d - 1) {
                assert!(et.resolution() <= Resolution::AmPm);
            }
        }
    }
}

#[test]
fn test_update_date_forces_eviction() {
    let mut agg = Compactor::new()
        .keep_for_days(2, Resolution::Day)
        .build()
        .unwrap();
    agg.push(date(2023, 1, 1), time(9, 0, 0), vec![1]).unwrap();
    agg.push(date(2023, 1, 2), time(9, 0, 0), vec![2]).unwrap();
    assert_eq!(agg.len(), 2);
    agg.update_date(date(2023, 1, 3));
    assert_eq!(
        keys(&agg),
        vec![(date(2023, 1, 2), Time::whole_day())]
    );
    agg.update_date(date(2023, 1, 10));
    assert!(agg.is_empty());
    assert_eq!(agg.len(), 0);
}

#[test]
fn test_update_date_idempotent() {
    // Applying the same date twice changes nothing the second time.
    let mut agg = Compactor::new()
        .keep_for_days(1, Resolution::Hour)
        .keep_for_days(4, Resolution::Day)
        .build()
        .unwrap();
    for d in 1..5 {
        agg.push(date(2023, 5, d), Time::from_hour(8), vec![d as u32])
            .unwrap();
        agg.push(date(2023, 5, d), Time::from_hour(19), vec![d as u32])
            .unwrap();
    }
    agg.update_date(date(2023, 5, 6));
    let once = keys(&agg);
    let once_len = agg.len();
    agg.update_date(date(2023, 5, 6));
    assert_eq!(keys(&agg), once);
    assert_eq!(agg.len(), once_len);
    // An older date does nothing at all.
    agg.update_date(date(2023, 5, 1));
    assert_eq!(keys(&agg), once);
}

#[test]
fn test_iter_with_max_resolution() {
    let mut agg = Compactor::new()
        .keep_for_days(3, Resolution::Hour)
        .build()
        .unwrap();
    agg.push(date(2023, 1, 1), Time::from_hour(9), vec![1]).unwrap();
    agg.push(date(2023, 1, 1), Time::from_hour(10), vec![2]).unwrap();
    agg.push(date(2023, 1, 1), Time::from_hour(15), vec![3]).unwrap();
    agg.push(date(2023, 1, 2), Time::from_hour(8), vec![4]).unwrap();
    // Stored at hour resolution; viewed at AM/PM resolution the morning
    // samples merge.
    let coarse = agg.iter_with_max_resolution(Resolution::AmPm);
    let shape: Vec<(Date, Time, Vec<u32>)> = coarse;
    assert_eq!(
        shape,
        vec![
            (date(2023, 1, 1), Time::am(), vec![1, 2]),
            (date(2023, 1, 1), Time::pm(), vec![3]),
            (date(2023, 1, 2), Time::am(), vec![4]),
        ]
    );
    // The stored entries themselves are untouched.
    assert_eq!(agg.len(), 4);
    // Viewing at a finer resolution than stored changes nothing.
    let fine = agg.iter_with_max_resolution(Resolution::Minute);
    assert_eq!(fine.len(), 4);
}

#[test]
fn test_merge_combinators() {
    let mut v = vec![1, 2];
    v.merge(vec![3]);
    assert_eq!(v, vec![1, 2, 3]);

    let mut m = Min(5);
    m.merge(Min(3));
    assert_eq!(m.0, 3);
    m.merge(Min(7));
    assert_eq!(m.0, 3);

    let mut m = Max(5);
    m.merge(Max(3));
    assert_eq!(m.0, 5);
    m.merge(Max(7));
    assert_eq!(m.0, 7);

    let mut f = First(1);
    f.merge(First(2));
    assert_eq!(f.0, 1);

    let mut l = Last(1);
    l.merge(Last(2));
    assert_eq!(l.0, 2);

    let mut c = Candlestick::from(5);
    c.merge(Candlestick::from(2));
    c.merge(Candlestick::from(9));
    c.merge(Candlestick::from(4));
    assert_eq!(c.first.0, 5);
    assert_eq!(c.last.0, 4);
    assert_eq!(c.min.0, 2);
    assert_eq!(c.max.0, 9);

    let mut o: Option<Vec<u32>> = None;
    o.merge(Some(vec![1]));
    o.merge(None);
    o.merge(Some(vec![2]));
    assert_eq!(o, Some(vec![1, 2]));
}

#[test]
fn test_candlestick_compactor() {
    let mut agg: Compactor<Candlestick<i64>> = Compactor::new()
        .keep_for_days(2, Resolution::Day)
        .build()
        .unwrap();
    for (h, v) in [(9u8, 15i64), (11, 20), (13, 100), (14, 17), (15, 21)] {
        agg.push(date(2023, 6, 1), Time::from_hour(h), Candlestick::from(v))
            .unwrap();
    }
    let out = agg.iter();
    assert_eq!(out.len(), 1);
    let c = out[0].2;
    assert_eq!(c.first.0, 15);
    assert_eq!(c.last.0, 21);
    assert_eq!(c.min.0, 15);
    assert_eq!(c.max.0, 100);
}

#[test]
fn test_merge_coverage() {
    // While nothing has been discarded, the concatenation payloads preserve
    // every pushed contribution in order.
    let mut agg = Compactor::new()
        .keep_for_days(2, Resolution::Hour)
        .keep_for_days(40, Resolution::Day)
        .build()
        .unwrap();
    let mut simple = vec![];
    for d in 1..20 {
        for h in [7u8, 12, 18] {
            let x = d as u32 * 100 + h as u32;
            agg.push(date(2023, 7, d), Time::from_hour(h), vec![x])
                .unwrap();
            simple.push(x);
        }
    }
    let flat: Vec<u32> = agg
        .iter()
        .into_iter()
        .flat_map(|e| e.2.clone())
        .collect();
    assert_eq!(flat, simple);
}

#[test]
fn test_single_rule_folds_immediately() {
    // A policy whose finest resolution is Day folds every sample of a day into
    // one whole-day bucket at once.
    let mut agg = Compactor::new()
        .keep_for_days(30, Resolution::Day)
        .build()
        .unwrap();
    agg.push(date(2023, 8, 1), time(1, 2, 3), vec![1]).unwrap();
    agg.push(date(2023, 8, 1), time(22, 59, 59), vec![2]).unwrap();
    assert_eq!(
        keys(&agg),
        vec![(date(2023, 8, 1), Time::whole_day())]
    );
}

#[test]
fn test_month_and_year_boundaries() {
    // Retention arithmetic crosses month and year boundaries through the
    // civil calendar.
    let mut agg = Compactor::new()
        .keep_for_days(2, Resolution::Day)
        .build()
        .unwrap();
    agg.push(date(2022, 12, 30), time(9, 0, 0), vec![1]).unwrap();
    agg.push(date(2022, 12, 31), time(9, 0, 0), vec![2]).unwrap();
    agg.push(date(2023, 1, 1), time(9, 0, 0), vec![3]).unwrap();
    assert_eq!(
        keys(&agg),
        vec![
            (date(2022, 12, 31), Time::whole_day()),
            (date(2023, 1, 1), Time::whole_day()),
        ]
    );
}
