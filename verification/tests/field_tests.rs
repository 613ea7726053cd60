use gtfs_structures::date::Date;
use gtfs_structures::fields::{parse_date, parse_time};
use gtfs_structures::text::{parse_bool, parse_u16, parse_u32};
use gtfs_structures::types::{PickupDropOffType, RouteType, Transfers};

#[test]
fn boolean_decode_is_exactly_one() {
    assert!(parse_bool("1"));
    assert!(!parse_bool("0"));
    assert!(!parse_bool(""));
    assert!(!parse_bool("true"));
    assert!(!parse_bool("01"));
    assert!(!parse_bool(" 1"));
}

#[test]
fn time_decode() {
    assert_eq!(3723, parse_time("1:02:03").unwrap());
    assert_eq!(0, parse_time("0:00:00").unwrap());
    // Hours are unbounded: trips may run past midnight.
    assert_eq!(26 * 3600 + 150, parse_time("26:02:30").unwrap());
    // Components beyond the third are ignored.
    assert_eq!(3723, parse_time("1:02:03:59").unwrap());
    assert!(parse_time("12:34").is_err());
    assert!(parse_time("ab:cd:ef").is_err());
    assert!(parse_time("").is_err());
    assert!(parse_time("1:2:").is_err());
}

#[test]
fn date_decode() {
    assert_eq!(Some(Date::from_ymd(2017, 1, 1)), parse_date("20170101"));
    assert_eq!(Some(Date::from_ymd(2016, 2, 29)), parse_date("20160229"));
    assert_eq!(None, parse_date("20170229"));
    assert_eq!(None, parse_date("2017011"));
    assert_eq!(None, parse_date("2017-1-1"));
    assert_eq!(None, parse_date("20171301"));
    assert_eq!(None, parse_date("20170100"));
}

#[test]
fn weekday_arithmetic() {
    // The first day of 2017 was a Sunday; index 6 in a Monday-first week.
    assert_eq!(6, Date::from_ymd(2017, 1, 1).weekday_index());
    assert_eq!(0, Date::from_ymd(2017, 1, 2).weekday_index());
    assert_eq!(5, Date::from_ymd(2017, 1, 7).weekday_index());
}

#[test]
fn day_number_counts_days() {
    let a = Date::from_ymd(2017, 1, 1).day_number();
    let b = Date::from_ymd(2017, 1, 15).day_number();
    assert_eq!(14, b - a);
    let c = Date::from_ymd(2016, 12, 31).day_number();
    assert_eq!(1, a - c);
    // Across a leap day.
    let d = Date::from_ymd(2016, 2, 28).day_number();
    let e = Date::from_ymd(2016, 3, 1).day_number();
    assert_eq!(2, e - d);
}

#[test]
fn unsigned_decode() {
    assert_eq!(Some(42), parse_u16("42"));
    assert_eq!(Some(0), parse_u16("0"));
    assert_eq!(None, parse_u16("65536"));
    assert_eq!(Some(65535), parse_u16("65535"));
    assert_eq!(None, parse_u16(""));
    assert_eq!(None, parse_u16("-1"));
    assert_eq!(None, parse_u16("1.5"));
    assert_eq!(Some(4294967295), parse_u32("4294967295"));
    assert_eq!(None, parse_u32("4294967296"));
    assert_eq!(Some(1), parse_u32("0000000000001"));
}

#[test]
fn route_type_fallback() {
    assert_eq!(RouteType::Tramway, RouteType::from_code(0));
    assert_eq!(RouteType::Bus, RouteType::from_code(3));
    assert_eq!(RouteType::Funicular, RouteType::from_code(7));
    assert_eq!(RouteType::Other(8), RouteType::from_code(8));
    assert_eq!(RouteType::Other(42), RouteType::from_code(42));
}

#[test]
fn transfers_fallback() {
    assert_eq!(Transfers::Unlimited, Transfers::from_code(None));
    assert_eq!(Transfers::NoTransfer, Transfers::from_code(Some(0)));
    assert_eq!(Transfers::UniqueTransfer, Transfers::from_code(Some(1)));
    assert_eq!(Transfers::TwoTransfers, Transfers::from_code(Some(2)));
    assert_eq!(Transfers::Other(9), Transfers::from_code(Some(9)));
}

#[test]
fn defaults() {
    assert_eq!(RouteType::Bus, RouteType::default());
    assert_eq!(Transfers::Unlimited, Transfers::default());
    assert_eq!(PickupDropOffType::Regular, PickupDropOffType::default());
}
