use rsbtc::time::{Timestamp, MAX_SECONDS, MIN_SECONDS};

#[test]
fn instants_are_those_of_the_time_library() {
    let nanos = [0u32, 1, 999_999_999, 1_000_000_000, 1_999_999_999, 2_000_000_000, u32::MAX];
    for seconds in [
        i64::MIN,
        MIN_SECONDS - 1,
        MIN_SECONDS,
        MIN_SECONDS + 59,
        -61,
        -60,
        -1,
        0,
        1,
        58,
        59,
        60,
        119,
        MAX_SECONDS - 60,
        MAX_SECONDS,
        MAX_SECONDS + 1,
        i64::MAX,
    ] {
        for n in nanos {
            let ours = Timestamp::new(seconds, n);
            let theirs = chrono::DateTime::from_timestamp(seconds, n);
            assert_eq!(ours.is_some(), theirs.is_some(), "{} {}", seconds, n);
            if let (Some(a), Some(b)) = (ours, theirs) {
                assert_eq!(a.seconds(), b.timestamp());
                assert_eq!(a.nanos(), b.timestamp_subsec_nanos());
            }
        }
    }
}

#[test]
fn differences_are_those_of_the_time_library() {
    let instants = [
        (0i64, 0u32),
        (0, 1),
        (0, 999_999_999),
        (1, 0),
        (59, 0),
        (59, 1_000_000_000),
        (59, 1_999_999_999),
        (60, 0),
        (60, 500_000_000),
        (-1, 500_000_000),
        (119, 1_500_000_000),
        (3600, 0),
        (MIN_SECONDS, 0),
        (MAX_SECONDS, 999_999_999),
        (MAX_SECONDS, 1_999_999_999),
    ];
    for a in instants {
        for b in instants {
            let ours = Timestamp::new(a.0, a.1)
                .unwrap()
                .seconds_since(&Timestamp::new(b.0, b.1).unwrap());
            let x = chrono::DateTime::from_timestamp(a.0, a.1).unwrap();
            let y = chrono::DateTime::from_timestamp(b.0, b.1).unwrap();
            assert_eq!(ours, (x - y).num_seconds(), "{:?} {:?}", a, b);
            // What the contract says, in plain integers.
            assert_eq!(ours, expected_difference(a, b), "{:?} {:?}", a, b);
        }
    }
}

// The seconds between two instants, rounded towards zero, with a leap second
// that was under way at the instant that is earlier in the day.
fn expected_difference(a: (i64, u32), b: (i64, u32)) -> i64 {
    let mut total = (a.0 as i128 - b.0 as i128) * 1_000_000_000 + a.1 as i128 - b.1 as i128;
    let (day_a, day_b) = (a.0.rem_euclid(86_400), b.0.rem_euclid(86_400));
    if day_a > day_b && b.1 >= 1_000_000_000 {
        total += 1_000_000_000;
    } else if day_a < day_b && a.1 >= 1_000_000_000 {
        total -= 1_000_000_000;
    }
    (total / 1_000_000_000) as i64
}

#[test]
fn instants_are_ordered() {
    let t = |s: i64, n: u32| Timestamp::new(s, n).unwrap();
    assert!(t(1, 0).after(&t(0, 999_999_999)));
    assert!(t(1, 1).after(&t(1, 0)));
    assert!(!t(1, 0).after(&t(1, 0)));
    assert!(!t(0, 5).after(&t(1, 0)));
    let x = chrono::DateTime::from_timestamp(59, 1_500_000_000).unwrap();
    let y = chrono::DateTime::from_timestamp(60, 0).unwrap();
    assert_eq!(x > y, t(59, 1_500_000_000).after(&t(60, 0)));
}

#[test]
fn now_is_the_current_time() {
    let before = chrono::Utc::now().timestamp();
    let now = Timestamp::now();
    let after = chrono::Utc::now().timestamp();
    assert!(before <= now.seconds() && now.seconds() <= after);
    assert!(now.nanos() < 1_000_000_000);
}
