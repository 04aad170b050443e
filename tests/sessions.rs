use devlog::calendar::{is_valid_date, CivilDate, TimeOfDay, UtcStamp};
use devlog::clock::is_clocked_in;
use devlog::codec::{decode_record, encode_record};
use devlog::store::{ClockState, SessionRecord, Store, StoreError};
use devlog::text::{format_count, format_date, format_hms, format_time, parse_count, parse_date, parse_time};

fn stamp(year: u16, month: u8, day: u8, hour: u8, minute: u8, second: u8) -> UtcStamp {
    UtcStamp {
        date: CivilDate { year, month, day },
        time: TimeOfDay { hour, minute, second },
    }
}

fn closed(date: CivilDate, clock_in: TimeOfDay, clock_out: TimeOfDay, elapsed: u64) -> SessionRecord {
    SessionRecord {
        date,
        clock_in_time: clock_in,
        clock_out_time: Some(clock_out),
        elapsed_seconds: Some(elapsed),
    }
}

fn row(fields: &[&str]) -> Vec<Vec<u8>> {
    fields.iter().map(|f| f.as_bytes().to_vec()).collect()
}

fn header() -> Vec<Vec<u8>> {
    row(&["date", "clock_in_time", "clock_out_time", "elapsed_seconds"])
}

#[test]
fn clock_in_then_out_stores_elapsed_seconds() {
    let mut store = Store::new();
    assert_eq!(store.clock_in(stamp(2024, 1, 1, 8, 0, 0)), Ok(()));
    assert_eq!(store.clock_out(stamp(2024, 1, 1, 9, 30, 0)), Ok(5400));
    let last = store.last().unwrap();
    assert_eq!(last.elapsed_seconds, Some(5400));
    assert_eq!(last.clock_out_time, Some(TimeOfDay { hour: 9, minute: 30, second: 0 }));
    let total = store.query_total_time(stamp(2024, 1, 1, 10, 0, 0)).unwrap();
    assert_eq!(total, 5400);
    assert_eq!(format_hms(total), b"01:30:00".to_vec());
}

#[test]
fn second_clock_in_is_refused() {
    let mut store = Store::new();
    assert_eq!(store.clock_in(stamp(2024, 1, 1, 8, 0, 0)), Ok(()));
    assert_eq!(
        store.clock_in(stamp(2024, 1, 1, 8, 5, 0)),
        Err(StoreError::AlreadyClockedIn)
    );
    assert_eq!(store.len(), 1);
    let last = store.last().unwrap();
    assert!(last.is_open());
    assert_eq!(last.clock_in_time, TimeOfDay { hour: 8, minute: 0, second: 0 });
    assert_eq!(store.state(), ClockState::ClockedIn);
}

#[test]
fn clock_out_without_clock_in_is_refused() {
    let mut store = Store::new();
    assert_eq!(
        store.clock_out(stamp(2024, 1, 1, 9, 0, 0)),
        Err(StoreError::NotClockedIn)
    );
    assert_eq!(store.len(), 0);
    assert!(!is_clocked_in(&store));
}

#[test]
fn clock_out_after_closed_session_is_refused() {
    let mut store = Store::new();
    store.clock_in(stamp(2024, 1, 1, 8, 0, 0)).unwrap();
    store.clock_out(stamp(2024, 1, 1, 9, 0, 0)).unwrap();
    assert_eq!(
        store.clock_out(stamp(2024, 1, 1, 10, 0, 0)),
        Err(StoreError::NotClockedIn)
    );
    assert_eq!(store.last().unwrap().elapsed_seconds, Some(3600));
}

#[test]
fn two_sessions_sum_to_ninety_minutes() {
    let mut store = Store::new();
    let d = CivilDate { year: 2024, month: 1, day: 2 };
    let t = |h: u8, m: u8| TimeOfDay { hour: h, minute: m, second: 0 };
    assert_eq!(store.append(closed(d, t(8, 0), t(9, 0), 3600)), Ok(()));
    assert_eq!(store.append(closed(d, t(10, 0), t(10, 30), 1800)), Ok(()));
    assert_eq!(store.total_elapsed_seconds(), 5400);
    let total = store.query_total_time(stamp(2024, 1, 2, 11, 0, 0)).unwrap();
    assert_eq!(total, 5400);
    assert_eq!(format_hms(total), b"01:30:00".to_vec());
}

#[test]
fn empty_store_totals_zero() {
    let store = Store::new();
    let total = store.query_total_time(stamp(2024, 1, 1, 0, 0, 0)).unwrap();
    assert_eq!(total, 0);
    assert_eq!(format_hms(total), b"00:00:00".to_vec());
    assert_eq!(store.last(), None);
    assert_eq!(store.last_clock_in_time(), None);
}

#[test]
fn append_closed_then_last_returns_it() {
    let mut store = Store::new();
    let rec = closed(
        CivilDate { year: 2023, month: 11, day: 1 },
        TimeOfDay { hour: 8, minute: 0, second: 0 },
        TimeOfDay { hour: 12, minute: 30, second: 15 },
        16215,
    );
    assert_eq!(store.append(rec), Ok(()));
    assert_eq!(store.last(), Some(rec));
    assert_eq!(store.record(0), rec);
    assert_eq!(store.state(), ClockState::ClockedOut);
}

#[test]
fn append_while_open_is_refused() {
    let mut store = Store::new();
    store.clock_in(stamp(2024, 1, 1, 8, 0, 0)).unwrap();
    let rec = closed(
        CivilDate { year: 2024, month: 1, day: 1 },
        TimeOfDay { hour: 6, minute: 0, second: 0 },
        TimeOfDay { hour: 7, minute: 0, second: 0 },
        3600,
    );
    assert_eq!(store.append(rec), Err(StoreError::AlreadyClockedIn));
    assert_eq!(store.len(), 1);
}

#[test]
fn close_last_rewrites_only_the_open_record() {
    let mut store = Store::new();
    assert_eq!(
        store.close_last(TimeOfDay { hour: 9, minute: 0, second: 0 }, 60),
        Err(StoreError::NotClockedIn)
    );
    store.clock_in(stamp(2024, 3, 1, 8, 0, 0)).unwrap();
    assert_eq!(store.close_last(TimeOfDay { hour: 9, minute: 0, second: 0 }, 3600), Ok(()));
    let last = store.last().unwrap();
    assert_eq!(last.date, CivilDate { year: 2024, month: 3, day: 1 });
    assert_eq!(last.clock_in_time, TimeOfDay { hour: 8, minute: 0, second: 0 });
    assert_eq!(last.elapsed_seconds, Some(3600));
}

#[test]
fn total_grows_while_clocked_in() {
    let mut store = Store::new();
    store.clock_in(stamp(2024, 1, 1, 8, 0, 0)).unwrap();
    let a = store.query_total_time(stamp(2024, 1, 1, 8, 10, 0)).unwrap();
    let b = store.query_total_time(stamp(2024, 1, 1, 9, 0, 0)).unwrap();
    assert_eq!(a, 600);
    assert_eq!(b, 3600);
    assert!(a <= b);
    assert!(is_clocked_in(&store));
}

#[test]
fn sessions_across_midnight_and_year_end() {
    let mut store = Store::new();
    store.clock_in(stamp(2024, 2, 28, 23, 0, 0)).unwrap();
    assert_eq!(store.clock_out(stamp(2024, 2, 29, 1, 0, 0)), Ok(7200));
    let mut other = Store::new();
    other.clock_in(stamp(2023, 12, 31, 23, 59, 59)).unwrap();
    assert_eq!(other.clock_out(stamp(2024, 1, 1, 0, 0, 1)), Ok(2));
    let mut leap = Store::new();
    leap.clock_in(stamp(2024, 2, 28, 12, 0, 0)).unwrap();
    assert_eq!(leap.clock_out(stamp(2024, 3, 1, 12, 0, 0)), Ok(2 * 86400));
}

#[test]
fn clock_out_before_clock_in_is_invalid() {
    let mut store = Store::new();
    store.clock_in(stamp(2024, 1, 2, 8, 0, 0)).unwrap();
    assert_eq!(
        store.clock_out(stamp(2024, 1, 1, 9, 0, 0)),
        Err(StoreError::InvalidTimestamp)
    );
    assert_eq!(
        store.query_total_time(stamp(2024, 1, 2, 7, 59, 59)),
        Err(StoreError::InvalidTimestamp)
    );
    assert!(store.last().unwrap().is_open());
    assert_eq!(
        store.last_clock_in_time(),
        Some(stamp(2024, 1, 2, 8, 0, 0))
    );
}

#[test]
fn hours_do_not_wrap_at_a_day() {
    assert_eq!(format_hms(90061), b"25:01:01".to_vec());
    assert_eq!(format_hms(360000), b"100:00:00".to_vec());
    assert_eq!(format_hms(59), b"00:00:59".to_vec());
}

#[test]
fn fields_are_read_and_written() {
    assert_eq!(parse_date(&b"2024-02-29".to_vec()), Some(CivilDate { year: 2024, month: 2, day: 29 }));
    assert_eq!(parse_date(&b"2023-02-29".to_vec()), None);
    assert_eq!(parse_date(&b"2023-13-01".to_vec()), None);
    assert_eq!(parse_date(&b"2023/01/01".to_vec()), None);
    assert_eq!(parse_date(&b"20x3-01-01".to_vec()), None);
    assert_eq!(parse_time(&b"12:30:15".to_vec()), Some(TimeOfDay { hour: 12, minute: 30, second: 15 }));
    assert_eq!(parse_time(&b"24:00:00".to_vec()), None);
    assert_eq!(parse_time(&b"12:60:00".to_vec()), None);
    assert_eq!(parse_count(&b"0".to_vec()), Some(0));
    assert_eq!(parse_count(&b"16215".to_vec()), Some(16215));
    assert_eq!(parse_count(&b"007".to_vec()), None);
    assert_eq!(parse_count(&b"".to_vec()), None);
    assert_eq!(parse_count(&b"-5".to_vec()), None);
    assert_eq!(parse_count(&b"18446744073709551615".to_vec()), Some(u64::MAX));
    assert_eq!(parse_count(&b"18446744073709551616".to_vec()), None);
    assert_eq!(format_date(&CivilDate { year: 987, month: 3, day: 4 }), b"0987-03-04".to_vec());
    assert_eq!(format_time(&TimeOfDay { hour: 7, minute: 5, second: 9 }), b"07:05:09".to_vec());
    assert_eq!(format_count(16215), b"16215".to_vec());
    assert_eq!(format_count(0), b"0".to_vec());
}

#[test]
fn calendar_validity() {
    assert!(is_valid_date(2000, 2, 29));
    assert!(!is_valid_date(1900, 2, 29));
    assert!(is_valid_date(2023, 4, 30));
    assert!(!is_valid_date(2023, 4, 31));
    assert!(!is_valid_date(2023, 0, 1));
}

#[test]
fn records_become_rows_and_back() {
    let open = SessionRecord {
        date: CivilDate { year: 2023, month: 11, day: 2 },
        clock_in_time: TimeOfDay { hour: 9, minute: 0, second: 0 },
        clock_out_time: None,
        elapsed_seconds: None,
    };
    assert_eq!(encode_record(&open), row(&["2023-11-02", "09:00:00", "", ""]));
    assert_eq!(decode_record(&row(&["2023-11-02", "09:00:00", "", ""])), Ok(open));
    let done = closed(
        CivilDate { year: 2023, month: 11, day: 1 },
        TimeOfDay { hour: 8, minute: 0, second: 0 },
        TimeOfDay { hour: 12, minute: 30, second: 15 },
        16215,
    );
    assert_eq!(encode_record(&done), row(&["2023-11-01", "08:00:00", "12:30:15", "16215"]));
    assert_eq!(decode_record(&row(&["2023-11-01", "08:00:00", "12:30:15", "16215"])), Ok(done));
}

#[test]
fn stored_rows_are_read() {
    let rows = vec![
        header(),
        row(&["2023-11-01", "08:00:00", "12:30:15", "16215"]),
        row(&["2023-11-02", "09:00:00", "", ""]),
    ];
    let store = Store::from_rows(&rows).unwrap();
    assert_eq!(store.len(), 2);
    assert_eq!(store.total_elapsed_seconds(), 16215);
    assert!(is_clocked_in(&store));
    assert_eq!(store.to_rows(), rows);
    let total = store.query_total_time(stamp(2023, 11, 2, 9, 0, 45)).unwrap();
    assert_eq!(total, 16260);
}

#[test]
fn empty_rows_make_an_empty_store() {
    let store = Store::from_rows(&Vec::new()).unwrap();
    assert_eq!(store.len(), 0);
    let header_only = Store::from_rows(&vec![header()]).unwrap();
    assert_eq!(header_only.len(), 0);
    assert_eq!(Store::new().to_rows(), vec![header()]);
}

#[test]
fn malformed_rows_are_corrupt() {
    let bad = |rows: Vec<Vec<Vec<u8>>>| Store::from_rows(&rows).err();
    assert_eq!(
        bad(vec![row(&["date", "in_time_utc", "out_time_utc", "delta_time_utc"])]),
        Some(StoreError::CorruptStore)
    );
    assert_eq!(
        bad(vec![header(), row(&["2023-11-01", "08:00:00", "12:30:15"])]),
        Some(StoreError::CorruptStore)
    );
    assert_eq!(
        bad(vec![
            header(),
            row(&["2023-11-02", "09:00:00", "", ""]),
            row(&["2023-11-03", "09:00:00", "", ""]),
        ]),
        Some(StoreError::CorruptStore)
    );
    assert_eq!(
        bad(vec![header(), row(&["2023-11-01", "08:00:00", "12:30:15", ""])]),
        Some(StoreError::CorruptStore)
    );
    assert_eq!(
        bad(vec![header(), row(&["2023-11-01", "08:00:00", "12:30:15", "0100"])]),
        Some(StoreError::CorruptStore)
    );
    assert_eq!(
        decode_record(&row(&["2023-11-01", "08:00:00", "", "", ""])),
        Err(StoreError::CorruptStore)
    );
}

#[test]
fn unreadable_stored_times_are_invalid_timestamps() {
    assert_eq!(
        decode_record(&row(&["2024-13-45", "08:00:00", "", ""])),
        Err(StoreError::InvalidTimestamp)
    );
    assert_eq!(
        decode_record(&row(&["2023-11-31", "08:00:00", "", ""])),
        Err(StoreError::InvalidTimestamp)
    );
    assert_eq!(
        decode_record(&row(&["2023-11-01", "8:00", "", ""])),
        Err(StoreError::InvalidTimestamp)
    );
    assert_eq!(
        decode_record(&row(&["2023-11-01", "08:00:00", "25:00:00", "60"])),
        Err(StoreError::InvalidTimestamp)
    );
    let bad = |rows: Vec<Vec<Vec<u8>>>| Store::from_rows(&rows).err();
    assert_eq!(
        bad(vec![header(), row(&["2024-13-45", "08:00:00", "", ""])]),
        Some(StoreError::InvalidTimestamp)
    );
    assert_eq!(
        bad(vec![
            header(),
            row(&["2023-11-01", "08:00:00", "12:30:15", "0100"]),
            row(&["2024-13-45", "08:00:00", "", ""]),
        ]),
        Some(StoreError::CorruptStore)
    );
    assert_eq!(
        bad(vec![
            header(),
            row(&["2023-11-01", "08:00:00", "12:30:15", "60"]),
            row(&["2024-13-45", "08:00:00", "", ""]),
        ]),
        Some(StoreError::InvalidTimestamp)
    );
}

#[test]
fn session_across_month_end_midnight() {
    let mut store = Store::new();
    store.clock_in(stamp(2024, 1, 31, 23, 30, 0)).unwrap();
    assert_eq!(store.clock_out(stamp(2024, 2, 1, 0, 30, 0)), Ok(3600));
}

#[test]
fn commands_keep_one_open_session() {
    let mut store = Store::new();
    store.clock_in(stamp(2024, 5, 1, 8, 0, 0)).unwrap();
    let _ = store.clock_in(stamp(2024, 5, 1, 8, 1, 0));
    store.clock_out(stamp(2024, 5, 1, 9, 0, 0)).unwrap();
    let _ = store.clock_out(stamp(2024, 5, 1, 9, 1, 0));
    store.clock_in(stamp(2024, 5, 1, 10, 0, 0)).unwrap();
    let open = (0..store.len()).filter(|&i| store.record(i).is_open()).count();
    assert_eq!(open, 1);
    assert_eq!(store.len(), 2);
    assert!(Store::from_rows(&store.to_rows()).is_ok());
}
