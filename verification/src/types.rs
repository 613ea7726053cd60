//! The entity records of the bundle and their mathematical views.
//!
//! Every record type `X` has a ghost mirror `XView` over character
//! sequences, and the contracts of the decoders and of the store speak of
//! those views.

use vstd::prelude::*;
use vstd::string::{StrSliceExecFns, StringExecFns};
use crate::date::Date;
use std::sync::Arc;

verus! {

/// Which collection an entity belongs to.
#[derive(Debug, Copy, Clone, PartialEq, Eq, Structural)]
pub enum ObjectType {
    Agency,
    Stop,
    Route,
    Trip,
    Calendar,
    Shape,
    Fare,
}

/// Identified entities hand out their id.
pub trait Id {
    spec fn spec_id(&self) -> Seq<char>;

    fn id(&self) -> (r: &str)
        ensures
            r@ == self.spec_id(),
    ;
}

/// Typed entities say which collection they belong to.
pub trait Type {
    spec fn spec_object_type(&self) -> ObjectType;

    fn object_type(&self) -> (r: ObjectType)
        ensures
            r == self.spec_object_type(),
    ;
}

/// What kind of place a stop record describes.
#[derive(Debug, Copy, Clone, PartialEq, Eq, Structural)]
pub enum LocationType {
    StopPoint,
    StopArea,
    StationEntrance,
}

impl Default for LocationType {
    fn default() -> (r: LocationType)
        ensures
            r == LocationType::StopPoint,
    {
        LocationType::StopPoint
    }
}

/// A transport-mode code. The format defines eight named codes; any other
/// integer is preserved losslessly in the fallback variant rather than
/// rejected, because real-world data frequently carries non-conformant
/// codes and the system's job is to keep them for inspection.
#[derive(Debug, Copy, Clone, PartialEq, Eq, Hash, Structural)]
pub enum RouteType {
    Tramway,
    Subway,
    Rail,
    Bus,
    Ferry,
    CableCar,
    Gondola,
    Funicular,
    Other(u16),
}

impl RouteType {
    pub open spec fn spec_from_code(code: u16) -> RouteType {
        if code == 0 {
            RouteType::Tramway
        } else if code == 1 {
            RouteType::Subway
        } else if code == 2 {
            RouteType::Rail
        } else if code == 3 {
            RouteType::Bus
        } else if code == 4 {
            RouteType::Ferry
        } else if code == 5 {
            RouteType::CableCar
        } else if code == 6 {
            RouteType::Gondola
        } else if code == 7 {
            RouteType::Funicular
        } else {
            RouteType::Other(code)
        }
    }

    /// Every defined code maps to its named variant; any other code is
    /// kept in `Other`, never an error.
    pub fn from_code(code: u16) -> (r: RouteType)
        ensures
            r == RouteType::spec_from_code(code),
    {
        match code {
            0u16 => RouteType::Tramway,
            1u16 => RouteType::Subway,
            2u16 => RouteType::Rail,
            3u16 => RouteType::Bus,
            4u16 => RouteType::Ferry,
            5u16 => RouteType::CableCar,
            6u16 => RouteType::Gondola,
            7u16 => RouteType::Funicular,
            _ => RouteType::Other(code),
        }
    }
}

impl Default for RouteType {
    fn default() -> (r: RouteType)
        ensures
            r == RouteType::Bus,
    {
        RouteType::Bus
    }
}

/// How a stop visit may be boarded or left.
#[derive(Debug, Copy, Clone, PartialEq, Eq, Structural)]
pub enum PickupDropOffType {
    Regular,
    NotAvailable,
    ArrangeByPhone,
    CoordinateWithDriver,
}

impl Default for PickupDropOffType {
    fn default() -> (r: PickupDropOffType)
        ensures
            r == PickupDropOffType::Regular,
    {
        PickupDropOffType::Regular
    }
}

/// Whether a service is available, such as wheelchair boarding.
#[derive(Debug, Copy, Clone, PartialEq, Eq, Hash, Structural)]
pub enum Availability {
    InformationNotAvailable,
    Available,
    NotAvailable,
}

impl Default for Availability {
    fn default() -> (r: Availability)
        ensures
            r == Availability::InformationNotAvailable,
    {
        Availability::InformationNotAvailable
    }
}

/// How a fare is paid.
#[derive(Debug, Copy, Clone, PartialEq, Eq, Structural)]
pub enum PaymentMethod {
    Aboard,
    PreBoarding,
}

/// How many transfers a fare allows. An open enumeration like the route
/// type: out-of-range counts are preserved in `Other`.
#[derive(Debug, Copy, Clone, PartialEq, Eq, Structural)]
pub enum Transfers {
    Unlimited,
    NoTransfer,
    UniqueTransfer,
    TwoTransfers,
    Other(u16),
}

impl Transfers {
    pub open spec fn spec_from_code(code: Option<u16>) -> Transfers {
        match code {
            Some(c) => if c == 0 {
                Transfers::NoTransfer
            } else if c == 1 {
                Transfers::UniqueTransfer
            } else if c == 2 {
                Transfers::TwoTransfers
            } else {
                Transfers::Other(c)
            },
            None => Transfers::Unlimited,
        }
    }

    /// An absent count means unlimited transfers; a defined count maps to
    /// its variant; anything else is kept in `Other`, never an error.
    pub fn from_code(code: Option<u16>) -> (r: Transfers)
        ensures
            r == Transfers::spec_from_code(code),
    {
        match code {
            Some(0u16) => Transfers::NoTransfer,
            Some(1u16) => Transfers::UniqueTransfer,
            Some(2u16) => Transfers::TwoTransfers,
            Some(c) => Transfers::Other(c),
            None => Transfers::Unlimited,
        }
    }
}

impl Default for Transfers {
    fn default() -> (r: Transfers)
        ensures
            r == Transfers::Unlimited,
    {
        Transfers::Unlimited
    }
}

/// An operator of routes. Several agencies may share an absent id; the
/// empty string stands for "no id".
#[derive(Debug)]
pub struct Agency {
    pub id: Option<String>,
    pub name: String,
    pub url: String,
    pub timezone: String,
    pub lang: Option<String>,
    pub phone: Option<String>,
    pub fare_url: Option<String>,
    pub email: Option<String>,
}

pub struct AgencyView {
    pub id: Option<Seq<char>>,
    pub name: Seq<char>,
    pub url: Seq<char>,
    pub timezone: Seq<char>,
    pub lang: Option<Seq<char>>,
    pub phone: Option<Seq<char>>,
    pub fare_url: Option<Seq<char>>,
    pub email: Option<Seq<char>>,
}

impl View for Agency {
    type V = AgencyView;

    open spec fn view(&self) -> AgencyView {
        AgencyView {
            id: self.id.deep_view(),
            name: self.name@,
            url: self.url@,
            timezone: self.timezone@,
            lang: self.lang.deep_view(),
            phone: self.phone.deep_view(),
            fare_url: self.fare_url.deep_view(),
            email: self.email.deep_view(),
        }
    }
}

impl DeepView for Agency {
    type V = AgencyView;

    open spec fn deep_view(&self) -> AgencyView {
        self.view()
    }
}

impl Id for Agency {
    open spec fn spec_id(&self) -> Seq<char> {
        match self.id {
            Some(s) => s@,
            None => Seq::<char>::empty(),
        }
    }

    /// Agencies without an id answer with the empty string.
    fn id(&self) -> (r: &str) {
        match &self.id {
            None => {
                let r = "";
                proof {
                    reveal_strlit("");
                    assert(r@ =~= Seq::<char>::empty());
                }
                r
            },
            Some(id) => id.as_str(),
        }
    }
}

impl Type for Agency {
    open spec fn spec_object_type(&self) -> ObjectType {
        ObjectType::Agency
    }

    fn object_type(&self) -> ObjectType {
        ObjectType::Agency
    }
}

impl Agency {
    /// The agency's display text: its name.
    pub fn display(&self) -> (r: String)
        ensures
            r@ == self.name@,
    {
        self.name.clone()
    }
}

impl Default for Agency {
    fn default() -> (r: Agency)
        ensures
            r@ == (AgencyView {
                id: None,
                name: Seq::<char>::empty(),
                url: Seq::<char>::empty(),
                timezone: Seq::<char>::empty(),
                lang: None,
                phone: None,
                fare_url: None,
                email: None,
            }),
    {
        Agency {
            id: None,
            name: String::new(),
            url: String::new(),
            timezone: String::new(),
            lang: None,
            phone: None,
            fare_url: None,
            email: None,
        }
    }
}

/// A place where vehicles stop. Shared by reference: many stop visits
/// across many trips point at the same record.
#[derive(Debug)]
pub struct Stop {
    pub id: String,
    pub code: Option<String>,
    pub name: String,
    pub description: String,
    pub location_type: LocationType,
    pub parent_station: Option<String>,
    /// Longitude as validated numeric text; "0" when absent or blank.
    pub longitude: String,
    /// Latitude as validated numeric text; "0" when absent or blank.
    pub latitude: String,
    pub timezone: Option<String>,
    pub wheelchair_boarding: Availability,
}

pub struct StopView {
    pub id: Seq<char>,
    pub code: Option<Seq<char>>,
    pub name: Seq<char>,
    pub description: Seq<char>,
    pub location_type: LocationType,
    pub parent_station: Option<Seq<char>>,
    pub longitude: Seq<char>,
    pub latitude: Seq<char>,
    pub timezone: Option<Seq<char>>,
    pub wheelchair_boarding: Availability,
}

impl View for Stop {
    type V = StopView;

    open spec fn view(&self) -> StopView {
        StopView {
            id: self.id@,
            code: self.code.deep_view(),
            name: self.name@,
            description: self.description@,
            location_type: self.location_type,
            parent_station: self.parent_station.deep_view(),
            longitude: self.longitude@,
            latitude: self.latitude@,
            timezone: self.timezone.deep_view(),
            wheelchair_boarding: self.wheelchair_boarding,
        }
    }
}

impl DeepView for Stop {
    type V = StopView;

    open spec fn deep_view(&self) -> StopView {
        self.view()
    }
}

impl Id for Stop {
    open spec fn spec_id(&self) -> Seq<char> {
        self.id@
    }

    fn id(&self) -> (r: &str) {
        self.id.as_str()
    }
}

impl Type for Stop {
    open spec fn spec_object_type(&self) -> ObjectType {
        ObjectType::Stop
    }

    fn object_type(&self) -> ObjectType {
        ObjectType::Stop
    }
}

impl Stop {
    /// The stop's display text: its name.
    pub fn display(&self) -> (r: String)
        ensures
            r@ == self.name@,
    {
        self.name.clone()
    }
}

impl Default for Stop {
    fn default() -> (r: Stop)
        ensures
            r@ == (StopView {
                id: Seq::<char>::empty(),
                code: None,
                name: Seq::<char>::empty(),
                description: Seq::<char>::empty(),
                location_type: LocationType::StopPoint,
                parent_station: None,
                longitude: seq!['0'],
                latitude: seq!['0'],
                timezone: None,
                wheelchair_boarding: Availability::InformationNotAvailable,
            }),
    {
        let zero = "0";
        proof {
            reveal_strlit("0");
            assert(zero@ =~= seq!['0']);
        }
        Stop {
            id: String::new(),
            code: None,
            name: String::new(),
            description: String::new(),
            location_type: LocationType::StopPoint,
            parent_station: None,
            longitude: zero.to_owned(),
            latitude: zero.to_owned(),
            timezone: None,
            wheelchair_boarding: Availability::InformationNotAvailable,
        }
    }
}

/// One scheduled stop by one trip. Holds a shared handle on its stop, so
/// the stop's payload is never copied per visit.
#[derive(Debug)]
pub struct StopTime {
    /// Seconds since midnight of the service day; may exceed 86400 for
    /// trips crossing midnight.
    pub arrival_time: u32,
    pub stop: Arc<Stop>,
    pub departure_time: u32,
    pub pickup_type: Option<PickupDropOffType>,
    pub drop_off_type: Option<PickupDropOffType>,
    pub stop_sequence: u16,
}

pub struct StopTimeView {
    pub arrival_time: u32,
    pub stop: StopView,
    pub departure_time: u32,
    pub pickup_type: Option<PickupDropOffType>,
    pub drop_off_type: Option<PickupDropOffType>,
    pub stop_sequence: u16,
}

impl View for StopTime {
    type V = StopTimeView;

    open spec fn view(&self) -> StopTimeView {
        StopTimeView {
            arrival_time: self.arrival_time,
            stop: self.stop@,
            departure_time: self.departure_time,
            pickup_type: self.pickup_type,
            drop_off_type: self.drop_off_type,
            stop_sequence: self.stop_sequence,
        }
    }
}

impl DeepView for StopTime {
    type V = StopTimeView;

    open spec fn deep_view(&self) -> StopTimeView {
        self.view()
    }
}

/// The staging record a stop-visit row decodes to, before the ids are
/// resolved against the loaded trips and stops.
#[derive(Debug)]
pub struct StopTimeGtfs {
    pub trip_id: String,
    pub arrival_time: u32,
    pub departure_time: u32,
    pub stop_id: String,
    pub stop_sequence: u16,
    pub pickup_type: Option<PickupDropOffType>,
    pub drop_off_type: Option<PickupDropOffType>,
}

pub struct StopTimeGtfsView {
    pub trip_id: Seq<char>,
    pub arrival_time: u32,
    pub departure_time: u32,
    pub stop_id: Seq<char>,
    pub stop_sequence: u16,
    pub pickup_type: Option<PickupDropOffType>,
    pub drop_off_type: Option<PickupDropOffType>,
}

impl View for StopTimeGtfs {
    type V = StopTimeGtfsView;

    open spec fn view(&self) -> StopTimeGtfsView {
        StopTimeGtfsView {
            trip_id: self.trip_id@,
            arrival_time: self.arrival_time,
            departure_time: self.departure_time,
            stop_id: self.stop_id@,
            stop_sequence: self.stop_sequence,
            pickup_type: self.pickup_type,
            drop_off_type: self.drop_off_type,
        }
    }
}

impl DeepView for StopTimeGtfs {
    type V = StopTimeGtfsView;

    open spec fn deep_view(&self) -> StopTimeGtfsView {
        self.view()
    }
}

impl StopTime {
    /// What a staging record resolves to, once its stop is at hand.
    pub open spec fn spec_from(rec: StopTimeGtfsView, stop: StopView) -> StopTimeView {
        StopTimeView {
            arrival_time: rec.arrival_time,
            stop: stop,
            departure_time: rec.departure_time,
            pickup_type: rec.pickup_type,
            drop_off_type: rec.drop_off_type,
            stop_sequence: rec.stop_sequence,
        }
    }

    /// Builds the visit from its staging record and the shared handle on
    /// its stop.
    pub fn from(rec: &StopTimeGtfs, stop: Arc<Stop>) -> (r: StopTime)
        ensures
            r@ == StopTime::spec_from(rec@, stop@),
    {
        StopTime {
            arrival_time: rec.arrival_time,
            departure_time: rec.departure_time,
            stop,
            pickup_type: rec.pickup_type,
            drop_off_type: rec.drop_off_type,
            stop_sequence: rec.stop_sequence,
        }
    }
}

/// A line riders see, such as a bus line.
#[derive(Debug)]
pub struct Route {
    pub id: String,
    pub short_name: String,
    pub long_name: String,
    pub route_type: RouteType,
    pub agency_id: Option<String>,
    pub route_order: Option<u32>,
}

pub struct RouteView {
    pub id: Seq<char>,
    pub short_name: Seq<char>,
    pub long_name: Seq<char>,
    pub route_type: RouteType,
    pub agency_id: Option<Seq<char>>,
    pub route_order: Option<u32>,
}

impl View for Route {
    type V = RouteView;

    open spec fn view(&self) -> RouteView {
        RouteView {
            id: self.id@,
            short_name: self.short_name@,
            long_name: self.long_name@,
            route_type: self.route_type,
            agency_id: self.agency_id.deep_view(),
            route_order: self.route_order,
        }
    }
}

impl DeepView for Route {
    type V = RouteView;

    open spec fn deep_view(&self) -> RouteView {
        self.view()
    }
}

impl Id for Route {
    open spec fn spec_id(&self) -> Seq<char> {
        self.id@
    }

    fn id(&self) -> (r: &str) {
        self.id.as_str()
    }
}

impl Type for Route {
    open spec fn spec_object_type(&self) -> ObjectType {
        ObjectType::Route
    }

    fn object_type(&self) -> ObjectType {
        ObjectType::Route
    }
}

impl Route {
    /// The route's display text: the long name when there is one, else
    /// the short name.
    pub fn display(&self) -> (r: String)
        ensures
            r@ == if self.long_name@.len() != 0 {
                self.long_name@
            } else {
                self.short_name@
            },
    {
        if self.long_name.as_str().unicode_len() != 0 {
            self.long_name.clone()
        } else {
            self.short_name.clone()
        }
    }
}

impl Default for Route {
    fn default() -> (r: Route)
        ensures
            r@ == (RouteView {
                id: Seq::<char>::empty(),
                short_name: Seq::<char>::empty(),
                long_name: Seq::<char>::empty(),
                route_type: RouteType::Bus,
                agency_id: None,
                route_order: None,
            }),
    {
        Route {
            id: String::new(),
            short_name: String::new(),
            long_name: String::new(),
            route_type: RouteType::Bus,
            agency_id: None,
            route_order: None,
        }
    }
}

/// One run of a vehicle along a route under a service. Its visit list is
/// empty until the resolver attaches the decoded stop visits.
#[derive(Debug)]
pub struct Trip {
    pub id: String,
    pub service_id: String,
    pub route_id: String,
    pub stop_times: Vec<StopTime>,
}

pub struct TripView {
    pub id: Seq<char>,
    pub service_id: Seq<char>,
    pub route_id: Seq<char>,
    pub stop_times: Seq<StopTimeView>,
}

impl View for Trip {
    type V = TripView;

    open spec fn view(&self) -> TripView {
        TripView {
            id: self.id@,
            service_id: self.service_id@,
            route_id: self.route_id@,
            stop_times: self.stop_times.deep_view(),
        }
    }
}

impl DeepView for Trip {
    type V = TripView;

    open spec fn deep_view(&self) -> TripView {
        self.view()
    }
}

impl Id for Trip {
    open spec fn spec_id(&self) -> Seq<char> {
        self.id@
    }

    fn id(&self) -> (r: &str) {
        self.id.as_str()
    }
}

impl Type for Trip {
    open spec fn spec_object_type(&self) -> ObjectType {
        ObjectType::Trip
    }

    fn object_type(&self) -> ObjectType {
        ObjectType::Trip
    }
}

impl Trip {
    /// The trip's display text: its route and service ids.
    pub fn display(&self) -> (r: String)
        ensures
            r@ == "route id: "@ + self.route_id@ + ", service id: "@ + self.service_id@,
    {
        let mut out: String = "route id: ".to_owned();
        out.append(self.route_id.as_str());
        out.append(", service id: ");
        out.append(self.service_id.as_str());
        out
    }
}

impl Default for Trip {
    fn default() -> (r: Trip)
        ensures
            r@ == (TripView {
                id: Seq::<char>::empty(),
                service_id: Seq::<char>::empty(),
                route_id: Seq::<char>::empty(),
                stop_times: Seq::<StopTimeView>::empty(),
            }),
    {
        let r = Trip {
            id: String::new(),
            service_id: String::new(),
            route_id: String::new(),
            stop_times: Vec::new(),
        };
        proof {
            assert(r.stop_times.deep_view() =~= Seq::<StopTimeView>::empty());
        }
        r
    }
}

/// A service's repeating weekly pattern, bounded by an inclusive date
/// range.
#[derive(Debug)]
pub struct Calendar {
    pub id: String,
    pub monday: bool,
    pub tuesday: bool,
    pub wednesday: bool,
    pub thursday: bool,
    pub friday: bool,
    pub saturday: bool,
    pub sunday: bool,
    pub start_date: Date,
    pub end_date: Date,
}

pub struct CalendarView {
    pub id: Seq<char>,
    pub monday: bool,
    pub tuesday: bool,
    pub wednesday: bool,
    pub thursday: bool,
    pub friday: bool,
    pub saturday: bool,
    pub sunday: bool,
    pub start_date: Date,
    pub end_date: Date,
}

impl View for Calendar {
    type V = CalendarView;

    open spec fn view(&self) -> CalendarView {
        CalendarView {
            id: self.id@,
            monday: self.monday,
            tuesday: self.tuesday,
            wednesday: self.wednesday,
            thursday: self.thursday,
            friday: self.friday,
            saturday: self.saturday,
            sunday: self.sunday,
            start_date: self.start_date,
            end_date: self.end_date,
        }
    }
}

impl DeepView for Calendar {
    type V = CalendarView;

    open spec fn deep_view(&self) -> CalendarView {
        self.view()
    }
}

impl Id for Calendar {
    open spec fn spec_id(&self) -> Seq<char> {
        self.id@
    }

    fn id(&self) -> (r: &str) {
        self.id.as_str()
    }
}

impl Type for Calendar {
    open spec fn spec_object_type(&self) -> ObjectType {
        ObjectType::Calendar
    }

    fn object_type(&self) -> ObjectType {
        ObjectType::Calendar
    }
}

impl CalendarView {
    /// The pattern flag for a weekday index: 0 is Monday, ..., 6 is
    /// Sunday.
    pub open spec fn spec_weekday_flag(self, w: int) -> bool {
        if w == 0 {
            self.monday
        } else if w == 1 {
            self.tuesday
        } else if w == 2 {
            self.wednesday
        } else if w == 3 {
            self.thursday
        } else if w == 4 {
            self.friday
        } else if w == 5 {
            self.saturday
        } else {
            self.sunday
        }
    }
}

impl Calendar {
    /// Reads the pattern flag for a weekday index: 0 is Monday, ..., 6 is
    /// Sunday.
    pub fn weekday_flag(&self, w: u8) -> (r: bool)
        requires
            w < 7,
        ensures
            r == self@.spec_weekday_flag(w as int),
    {
        match w {
            0u8 => self.monday,
            1u8 => self.tuesday,
            2u8 => self.wednesday,
            3u8 => self.thursday,
            4u8 => self.friday,
            5u8 => self.saturday,
            _ => self.sunday,
        }
    }

    /// Whether the pattern includes the given date's weekday.
    pub fn valid_weekday(&self, date: Date) -> (r: bool)
        requires
            date.valid(),
        ensures
            r == self@.spec_weekday_flag(
                crate::date::spec_weekday_index(crate::date::spec_day_number(date)),
            ),
    {
        self.weekday_flag(date.weekday_index())
    }
}

/// One date-level exception to a service's weekly pattern.
#[derive(Debug)]
pub struct CalendarDate {
    pub service_id: String,
    pub date: Date,
    /// 1 adds service on this date; 2 removes it.
    pub exception_type: u8,
}

pub struct CalendarDateView {
    pub service_id: Seq<char>,
    pub date: Date,
    pub exception_type: u8,
}

impl View for CalendarDate {
    type V = CalendarDateView;

    open spec fn view(&self) -> CalendarDateView {
        CalendarDateView {
            service_id: self.service_id@,
            date: self.date,
            exception_type: self.exception_type,
        }
    }
}

impl DeepView for CalendarDate {
    type V = CalendarDateView;

    open spec fn deep_view(&self) -> CalendarDateView {
        self.view()
    }
}

/// One geographic point of a trip's path. Points sharing an id form a
/// shape, kept in file order.
#[derive(Debug)]
pub struct Shape {
    pub id: String,
    /// Latitude as validated numeric text; "0" when absent or blank.
    pub latitude: String,
    /// Longitude as validated numeric text; "0" when absent or blank.
    pub longitude: String,
    pub sequence: u16,
    /// Cumulative distance traveled, as validated numeric text.
    pub dist_traveled: Option<String>,
}

pub struct ShapeView {
    pub id: Seq<char>,
    pub latitude: Seq<char>,
    pub longitude: Seq<char>,
    pub sequence: u16,
    pub dist_traveled: Option<Seq<char>>,
}

impl View for Shape {
    type V = ShapeView;

    open spec fn view(&self) -> ShapeView {
        ShapeView {
            id: self.id@,
            latitude: self.latitude@,
            longitude: self.longitude@,
            sequence: self.sequence,
            dist_traveled: self.dist_traveled.deep_view(),
        }
    }
}

impl DeepView for Shape {
    type V = ShapeView;

    open spec fn deep_view(&self) -> ShapeView {
        self.view()
    }
}

impl Id for Shape {
    open spec fn spec_id(&self) -> Seq<char> {
        self.id@
    }

    fn id(&self) -> (r: &str) {
        self.id.as_str()
    }
}

impl Type for Shape {
    open spec fn spec_object_type(&self) -> ObjectType {
        ObjectType::Shape
    }

    fn object_type(&self) -> ObjectType {
        ObjectType::Shape
    }
}

/// The price and conditions of one fare.
#[derive(Debug)]
pub struct FareAttribute {
    pub id: String,
    /// The price as its decimal text: currency rounding is format-defined
    /// and left opaque, so the text is not parsed to a number.
    pub price: String,
    pub currency: String,
    pub payment_method: PaymentMethod,
    pub transfers: Transfers,
    pub agency_id: Option<String>,
    /// Transfer duration in seconds.
    pub transfer_duration: Option<u32>,
}

pub struct FareAttributeView {
    pub id: Seq<char>,
    pub price: Seq<char>,
    pub currency: Seq<char>,
    pub payment_method: PaymentMethod,
    pub transfers: Transfers,
    pub agency_id: Option<Seq<char>>,
    pub transfer_duration: Option<u32>,
}

impl View for FareAttribute {
    type V = FareAttributeView;

    open spec fn view(&self) -> FareAttributeView {
        FareAttributeView {
            id: self.id@,
            price: self.price@,
            currency: self.currency@,
            payment_method: self.payment_method,
            transfers: self.transfers,
            agency_id: self.agency_id.deep_view(),
            transfer_duration: self.transfer_duration,
        }
    }
}

impl DeepView for FareAttribute {
    type V = FareAttributeView;

    open spec fn deep_view(&self) -> FareAttributeView {
        self.view()
    }
}

impl Id for FareAttribute {
    open spec fn spec_id(&self) -> Seq<char> {
        self.id@
    }

    fn id(&self) -> (r: &str) {
        self.id.as_str()
    }
}

impl Type for FareAttribute {
    open spec fn spec_object_type(&self) -> ObjectType {
        ObjectType::Fare
    }

    fn object_type(&self) -> ObjectType {
        ObjectType::Fare
    }
}

} // verus!
