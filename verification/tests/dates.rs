use python_calamine::binary64::Binary64;
use python_calamine::calendar::{
    date_of, day_number_of, leap_year, month_length, FIRST_DAY, LAST_DAY,
};
use python_calamine::datetime::{
    DateSystem, DateTime, Serial, TimeOfDay, TimeSpan, MILLIS_PER_DAY,
};

fn time(hour: u8, minute: u8, second: u8, millisecond: u16) -> TimeOfDay {
    TimeOfDay { hour, minute, second, millisecond }
}

#[test]
fn leap_years_follow_the_gregorian_rule() {
    assert!(leap_year(2000));
    assert!(leap_year(2024));
    assert!(!leap_year(1900));
    assert!(!leap_year(2023));
    assert!(!leap_year(2100));
    assert!(leap_year(0));
    assert!(leap_year(-4));
    assert!(!leap_year(-100));
    assert!(leap_year(-400));
}

#[test]
fn months_have_their_lengths() {
    let lengths = [31u8, 28, 31, 30, 31, 30, 31, 31, 30, 31, 30, 31];
    let mut month = 1u8;
    while month <= 12 {
        assert_eq!(month_length(2023, month), lengths[(month - 1) as usize]);
        month += 1;
    }
    assert_eq!(month_length(2024, 2), 29);
    assert_eq!(month_length(1900, 2), 28);
    assert_eq!(month_length(2000, 2), 29);
}

#[test]
fn day_numbers_count_from_year_one() {
    assert_eq!(day_number_of(1, 1, 1), Some(0));
    assert_eq!(day_number_of(1, 1, 2), Some(1));
    assert_eq!(day_number_of(0, 12, 31), Some(-1));
    assert_eq!(day_number_of(1970, 1, 1), Some(719162));
    assert_eq!(day_number_of(2000, 2, 29), Some(730178));
    assert_eq!(day_number_of(1899, 12, 30), Some(693593));
    assert_eq!(day_number_of(1904, 1, 1), Some(695055));
    assert_eq!(day_number_of(9999, 12, 31), Some(3652058));
    assert_eq!(day_number_of(i32::MIN, 1, 1), Some(FIRST_DAY));
    assert_eq!(day_number_of(i32::MAX, 12, 31), Some(LAST_DAY));
}

#[test]
fn days_outside_the_calendar_have_no_number() {
    assert_eq!(day_number_of(1900, 2, 29), None);
    assert_eq!(day_number_of(2023, 2, 29), None);
    assert_eq!(day_number_of(2023, 4, 31), None);
    assert_eq!(day_number_of(2023, 0, 1), None);
    assert_eq!(day_number_of(2023, 13, 1), None);
    assert_eq!(day_number_of(2023, 1, 0), None);
    assert_eq!(day_number_of(2023, 1, 32), None);
}

#[test]
fn day_number_gives_its_date() {
    assert_eq!(date_of(0), Some((1, 1, 1)));
    assert_eq!(date_of(-1), Some((0, 12, 31)));
    assert_eq!(date_of(719162), Some((1970, 1, 1)));
    assert_eq!(date_of(730178), Some((2000, 2, 29)));
    assert_eq!(date_of(730179), Some((2000, 3, 1)));
    assert_eq!(date_of(693593), Some((1899, 12, 30)));
    assert_eq!(date_of(FIRST_DAY), Some((i32::MIN, 1, 1)));
    assert_eq!(date_of(LAST_DAY), Some((i32::MAX, 12, 31)));
    assert_eq!(date_of(738899), Some((2024, 1, 15)));
}

#[test]
fn day_number_outside_the_years_of_i32_has_no_date() {
    assert_eq!(date_of(FIRST_DAY - 1), None);
    assert_eq!(date_of(LAST_DAY + 1), None);
    assert_eq!(date_of(i64::MAX), None);
    assert_eq!(date_of(i64::MIN), None);
}

#[test]
fn date_and_day_number_round_trip() {
    let mut n: i64 = -800_000;
    while n <= 800_000 {
        let (year, month, day) = date_of(n).unwrap();
        assert_eq!(day_number_of(year, month, day), Some(n));
        n += 37;
    }
    let mut n: i64 = 730_000;
    let mut before = date_of(n - 1).unwrap();
    while n <= 731_500 {
        let here = date_of(n).unwrap();
        assert!(before < here);
        before = here;
        n += 1;
    }
}

#[test]
fn epochs_are_where_they_belong() {
    assert_eq!(DateSystem::Epoch1900.epoch_day(), 693593);
    assert_eq!(DateSystem::Epoch1904.epoch_day(), 695055);
    assert_eq!(
        Serial { millis: 0 }.to_datetime(DateSystem::Epoch1900),
        DateTime { year: 1899, month: 12, day: 30, time: None }
    );
    assert_eq!(
        Serial { millis: 0 }.to_datetime(DateSystem::Epoch1904),
        DateTime { year: 1904, month: 1, day: 1, time: None }
    );
    assert_eq!(
        Serial { millis: 61 * MILLIS_PER_DAY }.to_datetime(DateSystem::Epoch1900),
        DateTime { year: 1900, month: 3, day: 1, time: None }
    );
}

#[test]
fn serial_resolves_to_its_timestamp() {
    let noon = Serial { millis: 3_914_481_600_000 };
    assert_eq!(
        noon.to_datetime(DateSystem::Epoch1900),
        DateTime { year: 2024, month: 1, day: 15, time: Some(time(12, 0, 0, 0)) }
    );
    let same_day_1904 = Serial { millis: 3_788_121_600_000 };
    assert_eq!(
        same_day_1904.to_datetime(DateSystem::Epoch1904),
        DateTime { year: 2024, month: 1, day: 15, time: None }
    );
    assert_eq!(
        Serial { millis: -1 }.to_datetime(DateSystem::Epoch1900),
        DateTime { year: 1899, month: 12, day: 29, time: Some(time(23, 59, 59, 999)) }
    );
    assert_eq!(
        Serial { millis: 1 }.to_datetime(DateSystem::Epoch1904),
        DateTime { year: 1904, month: 1, day: 1, time: Some(time(0, 0, 0, 1)) }
    );
}

#[test]
fn timestamp_gives_its_serial() {
    let dt = DateTime { year: 2024, month: 1, day: 15, time: Some(time(12, 0, 0, 0)) };
    assert_eq!(dt.to_serial(DateSystem::Epoch1900), Some(Serial { millis: 3_914_481_600_000 }));
    assert_eq!(
        dt.to_serial(DateSystem::Epoch1904),
        Some(Serial { millis: 3_788_121_600_000 + 43_200_000 })
    );
    let date = DateTime { year: 1899, month: 12, day: 29, time: None };
    assert_eq!(date.to_serial(DateSystem::Epoch1900), Some(Serial { millis: -86_400_000 }));
}

#[test]
fn serial_round_trips_through_its_timestamp() {
    let samples = [
        0i64,
        1,
        -1,
        86_399_999,
        86_400_000,
        -86_400_000,
        -86_400_001,
        3_914_481_600_000,
        5_097_600_000,
        5_184_000_000,
        5_270_400_000,
        i64::MAX,
        i64::MIN,
        i64::MAX - 86_400_000,
        i64::MIN + 86_400_000,
    ];
    for system in [DateSystem::Epoch1900, DateSystem::Epoch1904] {
        for millis in samples {
            let serial = Serial { millis };
            let dt = serial.to_datetime(system);
            assert_eq!(dt.to_serial(system), Some(serial));
            assert_eq!(dt.is_date_only(), millis.rem_euclid(86_400_000) == 0);
        }
        let mut millis: i64 = -10_000_000_000_000;
        while millis < 10_000_000_000_000 {
            let serial = Serial { millis };
            assert_eq!(serial.to_datetime(system).to_serial(system), Some(serial));
            millis += 7_777_777_777;
        }
    }
}

#[test]
fn timestamp_round_trips_through_its_serial() {
    let stamps = [
        DateTime { year: 2024, month: 2, day: 29, time: Some(time(23, 59, 59, 999)) },
        DateTime { year: 1, month: 1, day: 1, time: None },
        DateTime { year: -500, month: 6, day: 30, time: Some(time(0, 0, 0, 1)) },
        DateTime { year: 9999, month: 12, day: 31, time: Some(time(12, 30, 15, 250)) },
    ];
    for system in [DateSystem::Epoch1900, DateSystem::Epoch1904] {
        for dt in stamps {
            let serial = dt.to_serial(system).unwrap();
            assert_eq!(serial.to_datetime(system), dt);
        }
    }
}

#[test]
fn timestamp_too_far_for_a_serial_gives_none() {
    let far = DateTime { year: i32::MAX, month: 12, day: 31, time: None };
    assert_eq!(far.to_serial(DateSystem::Epoch1900), None);
    let early = DateTime { year: i32::MIN, month: 1, day: 1, time: None };
    assert_eq!(early.to_serial(DateSystem::Epoch1904), None);
    let no_day = DateTime { year: 2023, month: 2, day: 30, time: None };
    assert_eq!(no_day.to_serial(DateSystem::Epoch1900), None);
    let no_time = DateTime { year: 2023, month: 2, day: 3, time: Some(time(0, 0, 61, 0)) };
    assert_eq!(no_time.to_serial(DateSystem::Epoch1900), None);
    let midnight = DateTime { year: 1899, month: 12, day: 31, time: Some(time(0, 0, 0, 0)) };
    assert_eq!(midnight.to_serial(DateSystem::Epoch1900), Some(Serial { millis: 86_400_000 }));
    let last = Serial { millis: i64::MAX }.to_datetime(DateSystem::Epoch1900);
    assert_eq!(last.year, 292_278_924);
}

#[test]
fn timestamps_are_checked_when_made() {
    assert_eq!(
        DateTime::new(2024, 2, 29, None),
        Some(DateTime { year: 2024, month: 2, day: 29, time: None })
    );
    assert_eq!(DateTime::new(2023, 2, 29, None), None);
    assert_eq!(DateTime::new(2023, 13, 1, None), None);
    assert_eq!(DateTime::new(2023, 1, 1, Some(time(24, 0, 0, 0))), None);
    assert_eq!(DateTime::new(2023, 1, 1, Some(time(0, 60, 0, 0))), None);
    assert_eq!(DateTime::new(2023, 1, 1, Some(time(0, 0, 60, 0))), None);
    assert_eq!(DateTime::new(2023, 1, 1, Some(time(0, 0, 0, 1000))), None);
    assert_eq!(
        DateTime::new(2023, 1, 1, Some(time(0, 0, 0, 0))),
        Some(DateTime { year: 2023, month: 1, day: 1, time: None })
    );
    let made = DateTime::new(2023, 1, 1, Some(time(8, 15, 0, 0))).unwrap();
    assert_eq!(made.time, Some(time(8, 15, 0, 0)));
    assert!(!made.is_date_only());
    assert!(DateTime::new(2023, 1, 1, None).unwrap().is_date_only());
}

#[test]
fn time_of_day_splits_milliseconds() {
    assert_eq!(TimeOfDay::from_millis(0), Some(time(0, 0, 0, 0)));
    assert_eq!(TimeOfDay::from_millis(86_399_999), Some(time(23, 59, 59, 999)));
    assert_eq!(TimeOfDay::from_millis(45_296_789), Some(time(12, 34, 56, 789)));
    assert_eq!(TimeOfDay::from_millis(86_400_000), None);
    assert_eq!(TimeOfDay::from_millis(u32::MAX), None);
    assert_eq!(time(12, 34, 56, 789).to_millis(), 45_296_789);
    assert_eq!(time(23, 59, 59, 999).to_millis(), 86_399_999);
    assert_eq!(time(255, 255, 255, 65535).to_millis(), 933_620_535);
    assert!(time(23, 59, 59, 999).is_valid());
    assert!(!time(23, 59, 59, 1000).is_valid());
    assert!(time(0, 0, 0, 0).is_midnight());
    assert!(!time(0, 0, 0, 1).is_midnight());
    assert_eq!(TimeOfDay::new(23, 59, 59, 999), Some(time(23, 59, 59, 999)));
    assert_eq!(TimeOfDay::new(24, 0, 0, 0), None);
    assert_eq!(TimeOfDay::new(0, 60, 0, 0), None);
    assert_eq!(TimeOfDay::new(0, 0, 60, 0), None);
    assert_eq!(TimeOfDay::new(0, 0, 0, 1000), None);
}

#[test]
fn time_of_day_round_trips() {
    let mut millis: u32 = 0;
    while millis < 86_400_000 {
        assert_eq!(TimeOfDay::from_millis(millis).unwrap().to_millis(), millis);
        millis += 9_973;
    }
}

#[test]
fn length_of_time_splits_into_days_and_rest() {
    assert_eq!(
        Serial { millis: 0 }.to_time_span(),
        TimeSpan { days: 0, rest: time(0, 0, 0, 0) }
    );
    assert_eq!(
        Serial { millis: 129_600_000 }.to_time_span(),
        TimeSpan { days: 1, rest: time(12, 0, 0, 0) }
    );
    assert_eq!(
        Serial { millis: -1 }.to_time_span(),
        TimeSpan { days: -1, rest: time(23, 59, 59, 999) }
    );
    assert_eq!(
        Serial { millis: i64::MIN }.to_time_span().days,
        -106_751_991_168
    );
}

#[test]
fn length_of_time_round_trips() {
    for millis in [0i64, 1, -1, 86_400_000, -86_400_000, 123_456_789_012, i64::MAX, i64::MIN] {
        let serial = Serial { millis };
        assert_eq!(serial.to_time_span().to_serial(), Some(serial));
    }
    let long = TimeSpan { days: i64::MAX, rest: time(0, 0, 0, 0) };
    assert_eq!(long.to_serial(), None);
    let odd = TimeSpan { days: 0, rest: time(24, 0, 0, 0) };
    assert_eq!(odd.to_serial(), None);
    let span = TimeSpan { days: 2, rest: time(1, 2, 3, 4) };
    assert_eq!(span.to_serial(), Some(Serial { millis: 176_523_004 }));
}

#[test]
fn days_become_a_serial() {
    let days = |x: f64| Binary64::from_bits(x.to_bits());
    assert_eq!(Serial::from_days(days(45306.5)), Some(Serial { millis: 3_914_481_600_000 }));
    assert_eq!(Serial::from_days(days(0.0)), Some(Serial { millis: 0 }));
    assert_eq!(Serial::from_days(days(-0.25)), Some(Serial { millis: -21_600_000 }));
    assert_eq!(Serial::from_days(days(1.0 / 86_400_000.0)), Some(Serial { millis: 1 }));
    assert_eq!(Serial::from_days(days(f64::NAN)), None);
    assert_eq!(Serial::from_days(days(f64::INFINITY)), None);
    assert_eq!(Serial::from_days(days(1e12)), None);
}
