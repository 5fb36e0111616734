use compactor::Resolution;

#[test]
fn test_x_in_y() {
    assert_eq!(Resolution::Minute.div(Resolution::Second), 60);
    assert_eq!(Resolution::Hour.div(Resolution::Minute), 60);
    assert_eq!(Resolution::Day.div(Resolution::Hour), 24);
}

#[test]
fn test_enough_bits() {
    for res in Resolution::all() {
        let has = res.n_bits() as u32;
        let required = if res.subdivision() == 0 {
            0
        } else if res.subdivision().is_power_of_two() {
            res.subdivision().ilog2()
        } else {
            res.subdivision().ilog2() + 1
        };
        assert!(
            has == required,
            "{res:?}: {has} != log2({})={required}",
            res.subdivision()
        );
    }
}

#[test]
fn test_mask() {
    let mask =
        |res: Resolution| -> u32 { !(u32::MAX << res.n_bits()) << (res.trailing_zeros() + 1) };
    assert_eq!(mask(Resolution::Second), 0b1110_000000000000);
    assert_eq!(mask(Resolution::FiveSecond), 0b110000_000000000000);
    assert_eq!(mask(Resolution::FifteenSecond), 0b1000000_000000000000);
    assert_eq!(mask(Resolution::ThirtySecond), 0b10000000_000000000000);
}

#[test]
fn test_range() {
    assert_eq!(
        Resolution::range(Resolution::Second, Resolution::Minute),
        vec![
            Resolution::Second,
            Resolution::FiveSecond,
            Resolution::FifteenSecond,
            Resolution::ThirtySecond,
        ]
    );
}

#[test]
fn test_trailing_zeros() {
    for res in Resolution::all() {
        assert_eq!(Resolution::from_trailing_zeros(res.trailing_zeros()), res)
    }
}

#[test]
fn test_n_bits() {
    for res in Resolution::all() {
        let n_bits = res.coarser().map_or(31, |x| x.trailing_zeros()) - res.trailing_zeros();
        assert_eq!(res.n_bits(), n_bits, "{res:?}",)
    }
}

#[test]
fn test_width() {
    let all = Resolution::all();
    for (res1, res2) in all.iter().rev().zip(all.iter().rev().skip(1)) {
        assert_eq!(
            res1.width() * res1.subdivision() as u64,
            res2.width(),
            "{res1:?}"
        )
    }
}

#[test]
fn test_width_quotient() {
    // The integer ratio of bucket counts matches the ratio of widths exactly.
    let all = Resolution::all();
    for a in all.iter() {
        for b in all.iter() {
            if a.index() <= b.index() {
                let q = a.div(*b) as u64;
                assert_eq!(a.width() % b.width(), 0, "{a:?}/{b:?}");
                assert_eq!(a.width() / b.width(), q, "{a:?}/{b:?}");
            }
        }
    }
}

#[test]
fn test_coarser_finer_inverse() {
    for res in Resolution::all() {
        if let Some(c) = res.coarser() {
            assert_eq!(c.finer(), Some(res));
        }
        if let Some(f) = res.finer() {
            assert_eq!(f.coarser(), Some(res));
        }
    }
    assert_eq!(Resolution::Day.coarser(), None);
    assert_eq!(Resolution::Millisecond.finer(), None);
}
