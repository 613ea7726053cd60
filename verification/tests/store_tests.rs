use gtfs_structures::date::Date;
use gtfs_structures::store::Gtfs;
use gtfs_structures::types::{LocationType, PaymentMethod, PickupDropOffType, RouteType, Transfers};

const CALENDAR: &str = "service_id,monday,tuesday,wednesday,thursday,friday,saturday,sunday,start_date,end_date\n\
service1,0,0,0,0,0,1,1,20161231,20170115\n";

const CALENDAR_DATES: &str = "service_id,date,exception_type\n\
service1,20170101,2\n\
service1,20170102,2\n\
service2,20170101,1\n";

const STOPS: &str = "stop_id,stop_name,stop_desc,location_type,parent_station,stop_lat,stop_lon\n\
stop1,Stop Area,,1,,48.796058,2.449386\n\
stop2,Stop Point,,0,,48.796058,2.449386\n\
stop3,Stop Child,,0,1,48.796058,2.449386\n\
stop4,Fourth Stop,,0,,48.796058,2.449386\n\
stop5,Fifth Stop,,0,,48.796058,2.449386\n";

const ROUTES: &str = "route_id,route_short_name,route_long_name,route_type\n\
1,1,Route 1,3\n\
invalid_type,IV,Invalid type,42\n";

const TRIPS: &str = "trip_id,service_id,route_id\ntrip1,service1,1\n";

const STOP_TIMES: &str = "trip_id,arrival_time,departure_time,stop_id,stop_sequence,pickup_type,drop_off_type\n\
trip1,06:00:00,06:00:30,stop1,1,0,1\n\
trip1,06:05:00,06:05:30,stop2,2,2,\n";

const AGENCY: &str = "agency_id,agency_name,agency_url,agency_timezone\n\
1,BIBUS,http://www.bibus.fr,Europe/Paris\n";

const SHAPES: &str = "shape_id,shape_pt_lat,shape_pt_lon,shape_pt_sequence\n\
A_shp,37.61956,-122.48161,1\n\
A_shp,37.64430,-122.41070,2\n";

const FARES: &str = "fare_id,price,currency_type,payment_method,transfers,agency_id,transfer_duration\n\
50,1.50,EUR,0,,1,3600\n";

#[test]
fn read_calendar() {
    let mut gtfs = Gtfs::default();
    gtfs.read_calendars(CALENDAR.as_bytes()).unwrap();
    assert_eq!(1, gtfs.calendar.len());
    assert!(!gtfs.get_calendar("service1").unwrap().monday);
    assert!(gtfs.get_calendar("service1").unwrap().saturday);
}

#[test]
fn read_calendar_dates() {
    let mut gtfs = Gtfs::default();
    gtfs.read_calendar_dates(CALENDAR_DATES.as_bytes()).unwrap();
    assert_eq!(2, gtfs.calendar_dates.len());
    assert_eq!(2, gtfs.get_calendar_date("service1").unwrap().len());
    assert_eq!(2, gtfs.get_calendar_date("service1").unwrap()[0].exception_type);
    assert_eq!(1, gtfs.get_calendar_date("service2").unwrap()[0].exception_type);
}

#[test]
fn read_stop() {
    let mut gtfs = Gtfs::default();
    gtfs.read_stops(STOPS.as_bytes()).unwrap();
    assert_eq!(5, gtfs.stops.len());
    assert_eq!(
        LocationType::StopArea,
        gtfs.get_stop("stop1").unwrap().location_type
    );
    assert_eq!(
        LocationType::StopPoint,
        gtfs.get_stop("stop2").unwrap().location_type
    );
    assert_eq!(
        Some("1".to_owned()),
        gtfs.get_stop("stop3").unwrap().parent_station
    );
}

#[test]
fn read_routes() {
    let mut gtfs = Gtfs::default();
    gtfs.read_routes(ROUTES.as_bytes()).unwrap();
    assert_eq!(2, gtfs.routes.len());
    assert_eq!(RouteType::Bus, gtfs.get_route("1").unwrap().route_type);
    assert_eq!(
        RouteType::Other(42),
        gtfs.get_route("invalid_type").unwrap().route_type
    );
}

#[test]
fn read_trips() {
    let mut gtfs = Gtfs::default();
    gtfs.read_trips(TRIPS.as_bytes()).unwrap();
    assert_eq!(1, gtfs.trips.len());
}

#[test]
fn read_stop_times() {
    let mut gtfs = Gtfs::default();
    gtfs.read_trips(TRIPS.as_bytes()).unwrap();
    gtfs.read_stops(STOPS.as_bytes()).unwrap();
    gtfs.read_stop_times(STOP_TIMES.as_bytes()).unwrap();
    let trip = gtfs.get_trip("trip1").unwrap();
    let stop_times = &trip.stop_times;
    assert_eq!(2, stop_times.len());
    assert_eq!(
        PickupDropOffType::Regular,
        stop_times[0].pickup_type.unwrap()
    );
    assert_eq!(
        PickupDropOffType::NotAvailable,
        stop_times[0].drop_off_type.unwrap()
    );
    assert_eq!(
        PickupDropOffType::ArrangeByPhone,
        stop_times[1].pickup_type.unwrap()
    );
    assert_eq!(None, stop_times[1].drop_off_type);
}

#[test]
fn read_agencies() {
    let mut gtfs = Gtfs::default();
    gtfs.read_agencies(AGENCY.as_bytes()).unwrap();
    let agencies = &gtfs.agencies;
    assert_eq!("BIBUS", agencies[0].name);
    assert_eq!("http://www.bibus.fr", agencies[0].url);
    assert_eq!("Europe/Paris", agencies[0].timezone);
}

#[test]
fn read_shapes() {
    let mut gtfs = Gtfs::default();
    gtfs.read_shapes(SHAPES.as_bytes()).unwrap();
    let shape = gtfs.get_shape("A_shp").unwrap();
    assert_eq!(37.61956, shape[0].latitude.parse::<f64>().unwrap());
    assert_eq!(-122.48161, shape[0].longitude.parse::<f64>().unwrap());
}

#[test]
fn read_fare_attributes() {
    let mut gtfs = Gtfs::default();
    gtfs.read_fare_attributes(FARES.as_bytes()).unwrap();
    assert_eq!(1, gtfs.fare_attributes.len());
    assert_eq!("1.50", gtfs.get_fare_attributes("50").unwrap().price);
    assert_eq!("EUR", gtfs.get_fare_attributes("50").unwrap().currency);
    assert_eq!(
        PaymentMethod::Aboard,
        gtfs.get_fare_attributes("50").unwrap().payment_method
    );
    assert_eq!(
        Transfers::Unlimited,
        gtfs.get_fare_attributes("50").unwrap().transfers
    );
    assert_eq!(
        Some("1".to_string()),
        gtfs.get_fare_attributes("50").unwrap().agency_id
    );
    assert_eq!(
        Some(3600),
        gtfs.get_fare_attributes("50").unwrap().transfer_duration
    );
}

fn full_fixture_sources() -> Vec<(String, Vec<u8>)> {
    vec![
        ("agency.txt".to_owned(), AGENCY.as_bytes().to_vec()),
        ("stops.txt".to_owned(), STOPS.as_bytes().to_vec()),
        ("routes.txt".to_owned(), ROUTES.as_bytes().to_vec()),
        ("trips.txt".to_owned(), TRIPS.as_bytes().to_vec()),
        ("calendar.txt".to_owned(), CALENDAR.as_bytes().to_vec()),
        ("calendar_dates.txt".to_owned(), CALENDAR_DATES.as_bytes().to_vec()),
        ("stop_times.txt".to_owned(), STOP_TIMES.as_bytes().to_vec()),
        ("shapes.txt".to_owned(), SHAPES.as_bytes().to_vec()),
        ("fare_attributes.txt".to_owned(), FARES.as_bytes().to_vec()),
    ]
}

#[test]
fn trip_days() {
    let gtfs = Gtfs::from_named_sources(&full_fixture_sources()).unwrap();
    let days = gtfs.trip_days("service1", Date::from_ymd(2017, 1, 1));
    assert_eq!(vec![6, 7, 13, 14], days);

    let days2 = gtfs.trip_days("service2", Date::from_ymd(2017, 1, 1));
    assert_eq!(vec![0], days2);
}

#[test]
fn added_exception_on_pattern_day_appears_twice() {
    // A date that is both a type-1 addition and a pattern day is not
    // deduplicated: the addition comes first, then the pattern day.
    let calendar = "service_id,monday,tuesday,wednesday,thursday,friday,saturday,sunday,start_date,end_date\n\
service3,0,0,0,0,0,1,1,20161231,20170108\n";
    let dates = "service_id,date,exception_type\nservice3,20170101,1\n";
    let mut gtfs = Gtfs::default();
    gtfs.read_calendars(calendar.as_bytes()).unwrap();
    gtfs.read_calendar_dates(dates.as_bytes()).unwrap();
    let days = gtfs.trip_days("service3", Date::from_ymd(2017, 1, 1));
    assert_eq!(vec![0, 0, 6, 7], days);
}

#[test]
fn read_from_named_sources() {
    let gtfs = Gtfs::from_named_sources(&full_fixture_sources()).unwrap();
    assert_eq!(1, gtfs.calendar.len());
    assert_eq!(2, gtfs.calendar_dates.len());
    assert_eq!(5, gtfs.stops.len());
    assert_eq!(2, gtfs.routes.len());
    assert_eq!(1, gtfs.trips.len());
    assert_eq!(1, gtfs.shapes.len());
    assert_eq!(1, gtfs.fare_attributes.len());
    assert_eq!(2, gtfs.get_trip("trip1").unwrap().stop_times.len());

    assert!(gtfs.get_calendar("service1").is_ok());
    assert!(gtfs.get_calendar_date("service1").is_ok());
    assert!(gtfs.get_stop("stop1").is_ok());
    assert!(gtfs.get_route("1").is_ok());
    assert!(gtfs.get_trip("trip1").is_ok());
    assert!(gtfs.get_fare_attributes("50").is_ok());

    assert_eq!("Utopia", gtfs.get_stop("Utopia").unwrap_err().id);
}

#[test]
fn read_from_subdirectory() {
    // One enclosing directory level inside a bundle is tolerated: names
    // match by suffix.
    let sources: Vec<(String, Vec<u8>)> = full_fixture_sources()
        .into_iter()
        .map(|(name, bytes)| (format!("gtfs/{}", name), bytes))
        .collect();
    let gtfs = Gtfs::from_named_sources(&sources).unwrap();
    assert_eq!(1, gtfs.calendar.len());
    assert_eq!(2, gtfs.calendar_dates.len());
    assert_eq!(5, gtfs.stops.len());
    assert_eq!(2, gtfs.routes.len());
    assert_eq!(1, gtfs.trips.len());
    assert_eq!(1, gtfs.shapes.len());
    assert_eq!(1, gtfs.fare_attributes.len());
    assert_eq!(2, gtfs.get_trip("trip1").unwrap().stop_times.len());
}

#[test]
fn missing_optional_files_tolerated() {
    // Omitting the shapes and fare files yields empty collections and a
    // successful load.
    let sources: Vec<(String, Vec<u8>)> = full_fixture_sources()
        .into_iter()
        .filter(|(name, _)| name != "shapes.txt" && name != "fare_attributes.txt")
        .collect();
    let gtfs = Gtfs::from_named_sources(&sources).unwrap();
    assert_eq!(0, gtfs.shapes.len());
    assert_eq!(0, gtfs.fare_attributes.len());
    assert_eq!(1, gtfs.trips.len());
}

#[test]
fn missing_stop_times_is_fatal() {
    let sources: Vec<(String, Vec<u8>)> = full_fixture_sources()
        .into_iter()
        .filter(|(name, _)| name != "stop_times.txt")
        .collect();
    let err = Gtfs::from_named_sources(&sources).unwrap_err();
    assert!(matches!(
        err,
        gtfs_structures::error::LoadError::MissingStopTimes
    ));
}

#[test]
fn unknown_trip_reference_fails() {
    let mut gtfs = Gtfs::default();
    gtfs.read_trips(TRIPS.as_bytes()).unwrap();
    gtfs.read_stops(STOPS.as_bytes()).unwrap();
    let bad = "trip_id,arrival_time,departure_time,stop_id,stop_sequence\n\
ghost_trip,06:00:00,06:00:30,stop1,1\n";
    let err = gtfs.read_stop_times(bad.as_bytes()).unwrap_err();
    assert_eq!(Some("ghost_trip"), err.reference_id().map(|s| s.as_str()));
}

#[test]
fn unknown_stop_reference_fails() {
    let mut gtfs = Gtfs::default();
    gtfs.read_trips(TRIPS.as_bytes()).unwrap();
    gtfs.read_stops(STOPS.as_bytes()).unwrap();
    let bad = "trip_id,arrival_time,departure_time,stop_id,stop_sequence\n\
trip1,06:00:00,06:00:30,nowhere,1\n";
    let err = gtfs.read_stop_times(bad.as_bytes()).unwrap_err();
    assert_eq!(Some("nowhere"), err.reference_id().map(|s| s.as_str()));
}

#[test]
fn visits_sorted_by_sequence() {
    // Rows arrive out of order; after the load, sequence numbers never
    // decrease along a trip's visits.
    let mut gtfs = Gtfs::default();
    gtfs.read_trips(TRIPS.as_bytes()).unwrap();
    gtfs.read_stops(STOPS.as_bytes()).unwrap();
    let scrambled = "trip_id,arrival_time,departure_time,stop_id,stop_sequence\n\
trip1,06:10:00,06:10:30,stop3,7\n\
trip1,06:00:00,06:00:30,stop1,2\n\
trip1,06:05:00,06:05:30,stop2,5\n";
    gtfs.read_stop_times(scrambled.as_bytes()).unwrap();
    let visits = &gtfs.get_trip("trip1").unwrap().stop_times;
    assert_eq!(vec![2, 5, 7], visits.iter().map(|v| v.stop_sequence).collect::<Vec<u16>>());
    assert_eq!("Stop Area", visits[0].stop.name);
}

#[test]
fn stable_sort_keeps_file_order_on_ties() {
    let mut gtfs = Gtfs::default();
    gtfs.read_trips(TRIPS.as_bytes()).unwrap();
    gtfs.read_stops(STOPS.as_bytes()).unwrap();
    let tied = "trip_id,arrival_time,departure_time,stop_id,stop_sequence\n\
trip1,06:00:00,06:00:30,stop1,1\n\
trip1,06:05:00,06:05:30,stop2,1\n";
    gtfs.read_stop_times(tied.as_bytes()).unwrap();
    let visits = &gtfs.get_trip("trip1").unwrap().stop_times;
    assert_eq!("stop1", visits[0].stop.id);
    assert_eq!("stop2", visits[1].stop.id);
}

#[test]
fn load_twice_identical() {
    let a = Gtfs::from_named_sources(&full_fixture_sources()).unwrap();
    let b = Gtfs::from_named_sources(&full_fixture_sources()).unwrap();
    assert_eq!(a.calendar.len(), b.calendar.len());
    assert_eq!(a.stops.len(), b.stops.len());
    assert_eq!(a.trips.len(), b.trips.len());
    let ta = a.get_trip("trip1").unwrap();
    let tb = b.get_trip("trip1").unwrap();
    assert_eq!(ta.stop_times.len(), tb.stop_times.len());
    for (va, vb) in ta.stop_times.iter().zip(tb.stop_times.iter()) {
        assert_eq!(va.stop_sequence, vb.stop_sequence);
        assert_eq!(va.arrival_time, vb.arrival_time);
        assert_eq!(va.stop.id, vb.stop.id);
    }
    assert_eq!(
        a.get_stop("stop3").unwrap().parent_station,
        b.get_stop("stop3").unwrap().parent_station
    );
}

#[test]
fn entity_counts_match_row_counts() {
    let gtfs = Gtfs::from_named_sources(&full_fixture_sources()).unwrap();
    assert_eq!(1, gtfs.calendar.len());
    assert_eq!(5, gtfs.stops.len());
    assert_eq!(2, gtfs.routes.len());
    assert_eq!(1, gtfs.trips.len());
    assert_eq!(1, gtfs.agencies.len());
    assert_eq!(1, gtfs.fare_attributes.len());
    // Grouped collections count by group: three exception rows over two
    // services, two shape points over one shape.
    assert_eq!(2, gtfs.calendar_dates.len());
    assert_eq!(3, gtfs.get_calendar_date("service1").unwrap().len()
        + gtfs.get_calendar_date("service2").unwrap().len());
    assert_eq!(1, gtfs.shapes.len());
    assert_eq!(2, gtfs.get_shape("A_shp").unwrap().len());
}

#[test]
fn display() {
    let stop = gtfs_structures::types::Stop {
        name: "Sorano".to_owned(),
        ..Default::default()
    };
    assert_eq!("Sorano".to_owned(), stop.display());

    let route = gtfs_structures::types::Route {
        long_name: "Long route name".to_owned(),
        ..Default::default()
    };
    assert_eq!("Long route name".to_owned(), route.display());

    let route2 = gtfs_structures::types::Route {
        short_name: "Short route name".to_owned(),
        ..Default::default()
    };
    assert_eq!("Short route name".to_owned(), route2.display());
}

#[test]
fn bad_date_fails_calendar_decode() {
    let mut gtfs = Gtfs::default();
    let bad = "service_id,monday,tuesday,wednesday,thursday,friday,saturday,sunday,start_date,end_date\n\
service1,0,0,0,0,0,1,1,2016-12-31,20170115\n";
    let err = gtfs.read_calendars(bad.as_bytes()).unwrap_err();
    assert!(matches!(
        err,
        gtfs_structures::error::LoadError::Value(ref v) if v == "2016-12-31"
    ));
}

#[test]
fn missing_column_fails_decode() {
    let mut gtfs = Gtfs::default();
    let bad = "service_id,monday\nservice1,0\n";
    let err = gtfs.read_calendars(bad.as_bytes()).unwrap_err();
    assert!(matches!(
        err,
        gtfs_structures::error::LoadError::MissingColumn(ref c) if c == "tuesday"
    ));
}

#[test]
fn malformed_table_fails() {
    let mut gtfs = Gtfs::default();
    // An unclosed quote breaks the table's shape.
    let bad = b"service_id,date,exception_type\n\"service1,20170101,1\nx,20170102,2\n";
    let err = gtfs.read_calendar_dates(bad).unwrap_err();
    assert!(matches!(err, gtfs_structures::error::LoadError::Table));
}

#[test]
fn empty_file_reads_empty() {
    let mut gtfs = Gtfs::default();
    gtfs.read_calendars(b"").unwrap();
    assert_eq!(0, gtfs.calendar.len());
}
