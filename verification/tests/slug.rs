use chrono::{Datelike, TimeZone};
use updown::monitor::MarketMonitor;
use updown::slug::{
    read_hourly_slug, slug_1h_human_readable, write_hour, write_hour_slug, write_minute_slug,
    write_month,
};

#[test]
fn timestamps_of_slugs() {
    assert_eq!(MarketMonitor::extract_timestamp_from_slug("btc-updown-5m-1770091200"), 1770091200);
    assert_eq!(MarketMonitor::extract_timestamp_from_slug("btc-updown-5m-"), 0);
    assert_eq!(MarketMonitor::extract_timestamp_from_slug("btc"), 0);
    assert_eq!(MarketMonitor::extract_timestamp_from_slug("-7"), 7);
    assert_eq!(
        MarketMonitor::extract_timestamp_from_slug("bitcoin-up-or-down-february-2-11pm-et"),
        0
    );
}

#[test]
fn durations_of_slugs() {
    assert_eq!(MarketMonitor::extract_duration_from_slug("btc-updown-5m-1770091200"), 300);
    assert_eq!(MarketMonitor::extract_duration_from_slug("btc-updown-15m-1770091200"), 900);
    assert_eq!(MarketMonitor::extract_duration_from_slug("btc-updown-1h-1770091200"), 3600);
    assert_eq!(
        MarketMonitor::extract_duration_from_slug("bitcoin-up-or-down-february-2-11pm-et"),
        3600
    );
    assert_eq!(MarketMonitor::extract_duration_from_slug("bitcoin-up-or-down-february-2-11pm"), 300);
    assert_eq!(MarketMonitor::extract_duration_from_slug("anything"), 300);
}

#[test]
fn minute_slugs_tell_what_they_were_made_of() {
    let s: String = write_minute_slug("btc", "5m", 1770091200);
    assert_eq!(s, "btc-updown-5m-1770091200");
    assert_eq!(MarketMonitor::extract_timestamp_from_slug(&s), 1770091200);
    assert_eq!(MarketMonitor::extract_duration_from_slug(&s), 300);
    let t: String = write_minute_slug("btc", "15m", 900);
    assert_eq!(MarketMonitor::extract_timestamp_from_slug(&t), 900);
    assert_eq!(MarketMonitor::extract_duration_from_slug(&t), 900);
}

#[test]
fn hours_are_written_on_a_clock_of_twelve() {
    assert_eq!(write_hour(0), "12am");
    assert_eq!(write_hour(1), "1am");
    assert_eq!(write_hour(11), "11am");
    assert_eq!(write_hour(12), "12pm");
    assert_eq!(write_hour(13), "1pm");
    assert_eq!(write_hour(23), "11pm");
    assert_eq!(write_month(1), "january");
    assert_eq!(write_month(9), "september");
    assert_eq!(write_month(12), "december");
    assert_eq!(write_month(0), "january");
}

#[test]
fn hourly_slugs_show_the_clock_of_new_york() {
    // 2026-02-03 04:00 UTC is 11 pm of the day before, in winter time.
    assert_eq!(
        slug_1h_human_readable(1770091200, "btc"),
        "bitcoin-up-or-down-february-2-11pm-et"
    );
    // 2026-07-04 16:00 UTC is noon, in summer time.
    assert_eq!(slug_1h_human_readable(1783180800, "eth"), "ethereum-up-or-down-july-4-12pm-et");
    assert_eq!(slug_1h_human_readable(1783180800, "sol"), "sol-up-or-down-july-4-12pm-et");
}

#[test]
fn hourly_slugs_are_read_back() {
    for month in 1u32..13 {
        for day in [1u32, 9, 28, 31] {
            for hour in 0u32..24 {
                let s: String = write_hour_slug("btc", month, day, hour);
                assert_eq!(read_hourly_slug(&s), Some((month, day, hour as u64)), "{}", s);
                assert_eq!(MarketMonitor::extract_duration_from_slug(&s), 3600);
                assert_eq!(MarketMonitor::extract_timestamp_from_slug(&s), 0);
            }
        }
    }
}

#[test]
fn hourly_slugs_end_an_hour_after_they_begin() {
    let s: &str = "bitcoin-up-or-down-february-2-11pm-et";
    assert_eq!(MarketMonitor::period_end_in_year(s, 2026), Some(1770091200 + 3600));
    // Every hour of a year, made into a slug and read back, but for the hour that
    // the clock shows twice.
    let mut twice: u32 = 0;
    let first: u64 = 1767243600; // the first hour of 2026 in New York
    for i in 0..8760u64 {
        let start: u64 = first + i * 3600;
        let slug: String = slug_1h_human_readable(start, "btc");
        match MarketMonitor::period_end_in_year(&slug, 2026) {
            Some(end) => assert_eq!(end, start + 3600, "{}", slug),
            None => twice += 1,
        }
    }
    assert_eq!(twice, 2);
}

#[test]
fn slugs_that_are_not_hourly_have_no_end() {
    for s in [
        "btc-updown-5m-1770091200",
        "bitcoin-up-or-down-february-2-11pm",
        "bitcoin-up-or-down-et",
        "bitcoin-up-or-down-february-2-et",
        "bitcoin-up-or-down-winter-2-11pm-et",
        "bitcoin-up-or-down-february-x-11pm-et",
        "bitcoin-up-or-down-february-2-11-et",
        "bitcoin-up-or-down-february-2-xam-et",
        "bitcoin-up-or-down-february-2-13pm-et",
        "bitcoin-up-or-down-february-30-11pm-et",
        // The clock skips this hour.
        "bitcoin-up-or-down-march-8-2am-et",
        // The clock shows this hour twice.
        "bitcoin-up-or-down-november-1-1am-et",
    ] {
        assert_eq!(MarketMonitor::period_end_in_year(s, 2026), None, "{}", s);
    }
    assert!(MarketMonitor::period_end_in_year("x-up-or-down-March-8-3AM-et", 2026).is_some());
    assert_eq!(MarketMonitor::period_end_from_1h_slug("btc-updown-5m-1770091200"), None);
}

#[test]
fn the_present_year_is_read() {
    let slug: &str = "bitcoin-up-or-down-june-15-3pm-et";
    let before: i32 = chrono::Utc::now().year();
    let end: u64 = MarketMonitor::period_end_from_1h_slug(slug).unwrap();
    let after: i32 = chrono::Utc::now().year();
    let expected = |year: i32| {
        let start = chrono_tz::America::New_York
            .with_ymd_and_hms(year, 6, 15, 15, 0, 0)
            .unwrap();
        start.timestamp() as u64 + 3600
    };
    assert!(end == expected(before) || end == expected(after));
}

#[test]
fn instants_are_read_from_rfc_3339() {
    assert_eq!(MarketMonitor::parse_iso_to_unix("2026-02-03T04:00:00Z"), Some(1770091200));
    assert_eq!(MarketMonitor::parse_iso_to_unix("2026-02-02T23:00:00-05:00"), Some(1770091200));
    assert_eq!(MarketMonitor::parse_iso_to_unix("1969-12-31T23:59:59Z"), None);
    assert_eq!(MarketMonitor::parse_iso_to_unix("2026-02-03"), None);
    assert_eq!(MarketMonitor::parse_iso_to_unix(""), None);
}

#[test]
fn names_with_dashes_are_read_back() {
    let s: String = slug_1h_human_readable(1770091200, "my-own-coin");
    assert_eq!(s, "my-own-coin-up-or-down-february-2-11pm-et");
    assert_eq!(MarketMonitor::period_end_in_year(&s, 2026), Some(1770091200 + 3600));
    assert_eq!(MarketMonitor::extract_duration_from_slug(&s), 3600);
    // A name that itself ends in the words before the month is not.
    let t: String = slug_1h_human_readable(1770091200, "x-up-or-down");
    assert_eq!(MarketMonitor::period_end_in_year(&t, 2026), None);
}
