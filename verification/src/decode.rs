//! One decoder per tabular file: header-named columns to typed records,
//! with the shared field decoders and language-default handling for
//! missing optional columns. One malformed record fails the whole file.

use vstd::prelude::*;
use vstd::string::StrSliceExecFns;
use crate::date::Date;
use crate::error::{LoadError, LoadErrorV};
use crate::fields::{
    is_float_text, parse_date, parse_time, spec_is_float_text, spec_parse_date, spec_parse_time,
};
use crate::table::{cell, opt_cell, spec_cell, spec_opt_cell};
use crate::text::{
    parse_bool, parse_u16, parse_u32, parse_u8, spec_parse_bool, spec_parse_u16, spec_parse_u32,
    spec_parse_u8, spec_trim, trim,
};
use crate::types::{
    Agency, AgencyView, Availability, Calendar, CalendarDate, CalendarDateView, CalendarView,
    FareAttribute, FareAttributeView, LocationType, PaymentMethod, PickupDropOffType, Route,
    RouteType, RouteView, Shape, ShapeView, Stop, StopTimeGtfs, StopTimeGtfsView, StopView,
    Transfers, Trip, TripView,
};

verus! {

/// Whether the text is the one-character text holding `c`.
pub fn is_char_text(s: &str, c: char) -> (r: bool)
    ensures
        r == (s@ == seq![c]),
{
    if s.unicode_len() == 1 && s.get_char(0) == c {
        proof {
            assert(s@ =~= seq![c]);
        }
        true
    } else {
        proof {
            if s@ == seq![c] {
                assert(s@.len() == 1);
                assert(s@[0] == c);
            }
        }
        false
    }
}

fn zero_string() -> (r: String)
    ensures
        r@ == seq!['0'],
{
    let z = "0";
    proof {
        reveal_strlit("0");
        assert(z@ =~= seq!['0']);
    }
    z.to_owned()
}

/// A required text column: the cell's text, or a missing-column error.
fn req_string(headers: &Vec<String>, row: &Vec<String>, name: &str) -> (r: Result<
    String,
    LoadError,
>)
    ensures
        match r {
            Ok(v) => spec_cell(headers.deep_view(), row.deep_view(), name@) == Some(v@),
            Err(e) => spec_cell(headers.deep_view(), row.deep_view(), name@) is None && e@
                == LoadErrorV::MissingColumn(name@),
        },
{
    match cell(headers, row, name) {
        Some(v) => Ok(v.clone()),
        None => Err(LoadError::MissingColumn(name.to_owned())),
    }
}

/// An optional text column: absent or empty decodes to `None`.
fn opt_string(headers: &Vec<String>, row: &Vec<String>, name: &str) -> (r: Option<String>)
    ensures
        r.deep_view() == spec_opt_cell(headers.deep_view(), row.deep_view(), name@),
{
    match opt_cell(headers, row, name) {
        Some(v) => Some(v.clone()),
        None => None,
    }
}

/// A column of text read with the default when the column is absent: the
/// language-default handling of optional text with a default value.
fn dfl_string(headers: &Vec<String>, row: &Vec<String>, name: &str) -> (r: String)
    ensures
        r@ == match spec_cell(headers.deep_view(), row.deep_view(), name@) {
            Some(s) => s,
            None => Seq::<char>::empty(),
        },
{
    match cell(headers, row, name) {
        Some(v) => v.clone(),
        None => String::new(),
    }
}

/// What a coordinate cell decodes to after whitespace stripping: absent
/// or blank means zero; otherwise the trimmed text must be numeric.
pub open spec fn spec_coord_trimmed(
    h: Seq<Seq<char>>,
    row: Seq<Seq<char>>,
    name: Seq<char>,
) -> Result<Seq<char>, LoadErrorV> {
    match spec_cell(h, row, name) {
        None => Ok(seq!['0']),
        Some(s) => {
            let t = spec_trim(s);
            if t.len() == 0 {
                Ok(seq!['0'])
            } else if spec_is_float_text(t) {
                Ok(t)
            } else {
                Err(LoadErrorV::Value(s))
            }
        },
    }
}

fn decode_coord_trimmed(headers: &Vec<String>, row: &Vec<String>, name: &str) -> (r: Result<
    String,
    LoadError,
>)
    ensures
        match r {
            Ok(v) => spec_coord_trimmed(headers.deep_view(), row.deep_view(), name@) == Ok::<
                Seq<char>,
                LoadErrorV,
            >(v@),
            Err(e) => spec_coord_trimmed(headers.deep_view(), row.deep_view(), name@) == Err::<
                Seq<char>,
                LoadErrorV,
            >(e@),
        },
{
    match cell(headers, row, name) {
        None => Ok(zero_string()),
        Some(s) => {
            let t = trim(s.as_str());
            if t.unicode_len() == 0 {
                Ok(zero_string())
            } else if is_float_text(t) {
                Ok(t.to_owned())
            } else {
                Err(LoadError::Value(s.clone()))
            }
        },
    }
}

/// What a coordinate cell decodes to without stripping: absent or empty
/// means zero; otherwise the text itself must be numeric.
pub open spec fn spec_coord_raw(
    h: Seq<Seq<char>>,
    row: Seq<Seq<char>>,
    name: Seq<char>,
) -> Result<Seq<char>, LoadErrorV> {
    match spec_cell(h, row, name) {
        None => Ok(seq!['0']),
        Some(s) => {
            if s.len() == 0 {
                Ok(seq!['0'])
            } else if spec_is_float_text(s) {
                Ok(s)
            } else {
                Err(LoadErrorV::Value(s))
            }
        },
    }
}

fn decode_coord_raw(headers: &Vec<String>, row: &Vec<String>, name: &str) -> (r: Result<
    String,
    LoadError,
>)
    ensures
        match r {
            Ok(v) => spec_coord_raw(headers.deep_view(), row.deep_view(), name@) == Ok::<
                Seq<char>,
                LoadErrorV,
            >(v@),
            Err(e) => spec_coord_raw(headers.deep_view(), row.deep_view(), name@) == Err::<
                Seq<char>,
                LoadErrorV,
            >(e@),
        },
{
    match cell(headers, row, name) {
        None => Ok(zero_string()),
        Some(s) => {
            if s.as_str().unicode_len() == 0 {
                Ok(zero_string())
            } else if is_float_text(s.as_str()) {
                Ok(s.clone())
            } else {
                Err(LoadError::Value(s.clone()))
            }
        },
    }
}

/// An optional numeric-text column: absent or empty decodes to `None`.
pub open spec fn spec_opt_float_text(
    h: Seq<Seq<char>>,
    row: Seq<Seq<char>>,
    name: Seq<char>,
) -> Result<Option<Seq<char>>, LoadErrorV> {
    match spec_opt_cell(h, row, name) {
        None => Ok(None),
        Some(s) => if spec_is_float_text(s) {
            Ok(Some(s))
        } else {
            Err(LoadErrorV::Value(s))
        },
    }
}

fn decode_opt_float_text(headers: &Vec<String>, row: &Vec<String>, name: &str) -> (r: Result<
    Option<String>,
    LoadError,
>)
    ensures
        match r {
            Ok(v) => spec_opt_float_text(headers.deep_view(), row.deep_view(), name@) == Ok::<
                Option<Seq<char>>,
                LoadErrorV,
            >(v.deep_view()),
            Err(e) => spec_opt_float_text(headers.deep_view(), row.deep_view(), name@) == Err::<
                Option<Seq<char>>,
                LoadErrorV,
            >(e@),
        },
{
    match opt_cell(headers, row, name) {
        None => Ok(None),
        Some(s) => if is_float_text(s.as_str()) {
            Ok(Some(s.clone()))
        } else {
            Err(LoadError::Value(s.clone()))
        },
    }
}

/// What an availability cell decodes to: absent or empty means
/// information-not-available; the three defined codes map to their
/// variants; anything else is a decode failure.
pub open spec fn spec_avail(
    h: Seq<Seq<char>>,
    row: Seq<Seq<char>>,
    name: Seq<char>,
) -> Result<Availability, LoadErrorV> {
    match spec_opt_cell(h, row, name) {
        None => Ok(Availability::InformationNotAvailable),
        Some(s) => if s == seq!['0'] {
            Ok(Availability::InformationNotAvailable)
        } else if s == seq!['1'] {
            Ok(Availability::Available)
        } else if s == seq!['2'] {
            Ok(Availability::NotAvailable)
        } else {
            Err(LoadErrorV::Value(s))
        },
    }
}

fn decode_avail(headers: &Vec<String>, row: &Vec<String>, name: &str) -> (r: Result<
    Availability,
    LoadError,
>)
    ensures
        match r {
            Ok(v) => spec_avail(headers.deep_view(), row.deep_view(), name@) == Ok::<
                Availability,
                LoadErrorV,
            >(v),
            Err(e) => spec_avail(headers.deep_view(), row.deep_view(), name@) == Err::<
                Availability,
                LoadErrorV,
            >(e@),
        },
{
    match opt_cell(headers, row, name) {
        None => Ok(Availability::InformationNotAvailable),
        Some(s) => if is_char_text(s.as_str(), '0') {
            Ok(Availability::InformationNotAvailable)
        } else if is_char_text(s.as_str(), '1') {
            Ok(Availability::Available)
        } else if is_char_text(s.as_str(), '2') {
            Ok(Availability::NotAvailable)
        } else {
            Err(LoadError::Value(s.clone()))
        },
    }
}

/// What the location-type cell decodes to: the two named codes, else the
/// default stop-point — never a failure.
pub open spec fn spec_location_type(
    h: Seq<Seq<char>>,
    row: Seq<Seq<char>>,
    name: Seq<char>,
) -> LocationType {
    match spec_cell(h, row, name) {
        None => LocationType::StopPoint,
        Some(s) => if s == seq!['1'] {
            LocationType::StopArea
        } else if s == seq!['2'] {
            LocationType::StationEntrance
        } else {
            LocationType::StopPoint
        },
    }
}

fn decode_location_type(headers: &Vec<String>, row: &Vec<String>, name: &str) -> (r: LocationType)
    ensures
        r == spec_location_type(headers.deep_view(), row.deep_view(), name@),
{
    match cell(headers, row, name) {
        None => LocationType::StopPoint,
        Some(s) => if is_char_text(s.as_str(), '1') {
            LocationType::StopArea
        } else if is_char_text(s.as_str(), '2') {
            LocationType::StationEntrance
        } else {
            LocationType::StopPoint
        },
    }
}

/// What an optional pickup or drop-off policy cell decodes to: absent or
/// empty means none recorded; the four defined codes map to their
/// variants; anything else is a decode failure.
pub open spec fn spec_pickup_dropoff(
    h: Seq<Seq<char>>,
    row: Seq<Seq<char>>,
    name: Seq<char>,
) -> Result<Option<PickupDropOffType>, LoadErrorV> {
    match spec_opt_cell(h, row, name) {
        None => Ok(None),
        Some(s) => if s == seq!['0'] {
            Ok(Some(PickupDropOffType::Regular))
        } else if s == seq!['1'] {
            Ok(Some(PickupDropOffType::NotAvailable))
        } else if s == seq!['2'] {
            Ok(Some(PickupDropOffType::ArrangeByPhone))
        } else if s == seq!['3'] {
            Ok(Some(PickupDropOffType::CoordinateWithDriver))
        } else {
            Err(LoadErrorV::Value(s))
        },
    }
}

fn decode_pickup_dropoff(headers: &Vec<String>, row: &Vec<String>, name: &str) -> (r: Result<
    Option<PickupDropOffType>,
    LoadError,
>)
    ensures
        match r {
            Ok(v) => spec_pickup_dropoff(headers.deep_view(), row.deep_view(), name@) == Ok::<
                Option<PickupDropOffType>,
                LoadErrorV,
            >(v),
            Err(e) => spec_pickup_dropoff(headers.deep_view(), row.deep_view(), name@) == Err::<
                Option<PickupDropOffType>,
                LoadErrorV,
            >(e@),
        },
{
    match opt_cell(headers, row, name) {
        None => Ok(None),
        Some(s) => if is_char_text(s.as_str(), '0') {
            Ok(Some(PickupDropOffType::Regular))
        } else if is_char_text(s.as_str(), '1') {
            Ok(Some(PickupDropOffType::NotAvailable))
        } else if is_char_text(s.as_str(), '2') {
            Ok(Some(PickupDropOffType::ArrangeByPhone))
        } else if is_char_text(s.as_str(), '3') {
            Ok(Some(PickupDropOffType::CoordinateWithDriver))
        } else {
            Err(LoadError::Value(s.clone()))
        },
    }
}

/// What the required payment-method cell decodes to: its two codes, else
/// a failure.
pub open spec fn spec_payment(
    h: Seq<Seq<char>>,
    row: Seq<Seq<char>>,
    name: Seq<char>,
) -> Result<PaymentMethod, LoadErrorV> {
    match spec_cell(h, row, name) {
        None => Err(LoadErrorV::MissingColumn(name)),
        Some(s) => if s == seq!['0'] {
            Ok(PaymentMethod::Aboard)
        } else if s == seq!['1'] {
            Ok(PaymentMethod::PreBoarding)
        } else {
            Err(LoadErrorV::Value(s))
        },
    }
}

fn decode_payment(headers: &Vec<String>, row: &Vec<String>, name: &str) -> (r: Result<
    PaymentMethod,
    LoadError,
>)
    ensures
        match r {
            Ok(v) => spec_payment(headers.deep_view(), row.deep_view(), name@) == Ok::<
                PaymentMethod,
                LoadErrorV,
            >(v),
            Err(e) => spec_payment(headers.deep_view(), row.deep_view(), name@) == Err::<
                PaymentMethod,
                LoadErrorV,
            >(e@),
        },
{
    match cell(headers, row, name) {
        None => Err(LoadError::MissingColumn(name.to_owned())),
        Some(s) => if is_char_text(s.as_str(), '0') {
            Ok(PaymentMethod::Aboard)
        } else if is_char_text(s.as_str(), '1') {
            Ok(PaymentMethod::PreBoarding)
        } else {
            Err(LoadError::Value(s.clone()))
        },
    }
}

/// What the transfers cell decodes to: absent or empty means unlimited;
/// a count maps through the open enumeration; non-numeric text fails.
pub open spec fn spec_transfers(
    h: Seq<Seq<char>>,
    row: Seq<Seq<char>>,
    name: Seq<char>,
) -> Result<Transfers, LoadErrorV> {
    match spec_opt_cell(h, row, name) {
        None => Ok(Transfers::Unlimited),
        Some(s) => match spec_parse_u16(s) {
            Some(c) => Ok(Transfers::spec_from_code(Some(c))),
            None => Err(LoadErrorV::Value(s)),
        },
    }
}

fn decode_transfers(headers: &Vec<String>, row: &Vec<String>, name: &str) -> (r: Result<
    Transfers,
    LoadError,
>)
    ensures
        match r {
            Ok(v) => spec_transfers(headers.deep_view(), row.deep_view(), name@) == Ok::<
                Transfers,
                LoadErrorV,
            >(v),
            Err(e) => spec_transfers(headers.deep_view(), row.deep_view(), name@) == Err::<
                Transfers,
                LoadErrorV,
            >(e@),
        },
{
    match opt_cell(headers, row, name) {
        None => Ok(Transfers::Unlimited),
        Some(s) => match parse_u16(s.as_str()) {
            Some(c) => Ok(Transfers::from_code(Some(c))),
            None => Err(LoadError::Value(s.clone())),
        },
    }
}

/// A required weekday-flag column, decoded by the boolean rule.
pub open spec fn spec_bool_col(
    h: Seq<Seq<char>>,
    row: Seq<Seq<char>>,
    name: Seq<char>,
) -> Result<bool, LoadErrorV> {
    match spec_cell(h, row, name) {
        None => Err(LoadErrorV::MissingColumn(name)),
        Some(s) => Ok(spec_parse_bool(s)),
    }
}

fn decode_bool_col(headers: &Vec<String>, row: &Vec<String>, name: &str) -> (r: Result<
    bool,
    LoadError,
>)
    ensures
        match r {
            Ok(v) => spec_bool_col(headers.deep_view(), row.deep_view(), name@) == Ok::<
                bool,
                LoadErrorV,
            >(v),
            Err(e) => spec_bool_col(headers.deep_view(), row.deep_view(), name@) == Err::<
                bool,
                LoadErrorV,
            >(e@),
        },
{
    match cell(headers, row, name) {
        None => Err(LoadError::MissingColumn(name.to_owned())),
        Some(s) => Ok(parse_bool(s.as_str())),
    }
}

/// A required eight-digit date column.
pub open spec fn spec_date_col(
    h: Seq<Seq<char>>,
    row: Seq<Seq<char>>,
    name: Seq<char>,
) -> Result<Date, LoadErrorV> {
    match spec_cell(h, row, name) {
        None => Err(LoadErrorV::MissingColumn(name)),
        Some(s) => match spec_parse_date(s) {
            Some(d) => Ok(d),
            None => Err(LoadErrorV::Value(s)),
        },
    }
}

fn decode_date_col(headers: &Vec<String>, row: &Vec<String>, name: &str) -> (r: Result<
    Date,
    LoadError,
>)
    ensures
        match r {
            Ok(v) => spec_date_col(headers.deep_view(), row.deep_view(), name@) == Ok::<
                Date,
                LoadErrorV,
            >(v),
            Err(e) => spec_date_col(headers.deep_view(), row.deep_view(), name@) == Err::<
                Date,
                LoadErrorV,
            >(e@),
        },
{
    match cell(headers, row, name) {
        None => Err(LoadError::MissingColumn(name.to_owned())),
        Some(s) => match parse_date(s.as_str()) {
            Some(d) => Ok(d),
            None => Err(LoadError::Value(s.clone())),
        },
    }
}

/// A required clock-time column.
pub open spec fn spec_time_col(
    h: Seq<Seq<char>>,
    row: Seq<Seq<char>>,
    name: Seq<char>,
) -> Result<u32, LoadErrorV> {
    match spec_cell(h, row, name) {
        None => Err(LoadErrorV::MissingColumn(name)),
        Some(s) => match spec_parse_time(s) {
            Some(t) => Ok(t),
            None => Err(LoadErrorV::Value(s)),
        },
    }
}

fn decode_time_col(headers: &Vec<String>, row: &Vec<String>, name: &str) -> (r: Result<
    u32,
    LoadError,
>)
    ensures
        match r {
            Ok(v) => spec_time_col(headers.deep_view(), row.deep_view(), name@) == Ok::<
                u32,
                LoadErrorV,
            >(v),
            Err(e) => spec_time_col(headers.deep_view(), row.deep_view(), name@) == Err::<
                u32,
                LoadErrorV,
            >(e@),
        },
{
    match cell(headers, row, name) {
        None => Err(LoadError::MissingColumn(name.to_owned())),
        Some(s) => match parse_time(s.as_str()) {
            Ok(t) => Ok(t),
            Err(e) => Err(e),
        },
    }
}

/// A required unsigned 16-bit column.
pub open spec fn spec_u16_col(
    h: Seq<Seq<char>>,
    row: Seq<Seq<char>>,
    name: Seq<char>,
) -> Result<u16, LoadErrorV> {
    match spec_cell(h, row, name) {
        None => Err(LoadErrorV::MissingColumn(name)),
        Some(s) => match spec_parse_u16(s) {
            Some(v) => Ok(v),
            None => Err(LoadErrorV::Value(s)),
        },
    }
}

fn decode_u16_col(headers: &Vec<String>, row: &Vec<String>, name: &str) -> (r: Result<
    u16,
    LoadError,
>)
    ensures
        match r {
            Ok(v) => spec_u16_col(headers.deep_view(), row.deep_view(), name@) == Ok::<
                u16,
                LoadErrorV,
            >(v),
            Err(e) => spec_u16_col(headers.deep_view(), row.deep_view(), name@) == Err::<
                u16,
                LoadErrorV,
            >(e@),
        },
{
    match cell(headers, row, name) {
        None => Err(LoadError::MissingColumn(name.to_owned())),
        Some(s) => match parse_u16(s.as_str()) {
            Some(v) => Ok(v),
            None => Err(LoadError::Value(s.clone())),
        },
    }
}

/// A required unsigned 8-bit column.
pub open spec fn spec_u8_col(
    h: Seq<Seq<char>>,
    row: Seq<Seq<char>>,
    name: Seq<char>,
) -> Result<u8, LoadErrorV> {
    match spec_cell(h, row, name) {
        None => Err(LoadErrorV::MissingColumn(name)),
        Some(s) => match spec_parse_u8(s) {
            Some(v) => Ok(v),
            None => Err(LoadErrorV::Value(s)),
        },
    }
}

fn decode_u8_col(headers: &Vec<String>, row: &Vec<String>, name: &str) -> (r: Result<
    u8,
    LoadError,
>)
    ensures
        match r {
            Ok(v) => spec_u8_col(headers.deep_view(), row.deep_view(), name@) == Ok::<
                u8,
                LoadErrorV,
            >(v),
            Err(e) => spec_u8_col(headers.deep_view(), row.deep_view(), name@) == Err::<
                u8,
                LoadErrorV,
            >(e@),
        },
{
    match cell(headers, row, name) {
        None => Err(LoadError::MissingColumn(name.to_owned())),
        Some(s) => match parse_u8(s.as_str()) {
            Some(v) => Ok(v),
            None => Err(LoadError::Value(s.clone())),
        },
    }
}

/// An optional unsigned 32-bit column: absent or empty decodes to `None`.
pub open spec fn spec_opt_u32_col(
    h: Seq<Seq<char>>,
    row: Seq<Seq<char>>,
    name: Seq<char>,
) -> Result<Option<u32>, LoadErrorV> {
    match spec_opt_cell(h, row, name) {
        None => Ok(None),
        Some(s) => match spec_parse_u32(s) {
            Some(v) => Ok(Some(v)),
            None => Err(LoadErrorV::Value(s)),
        },
    }
}

fn decode_opt_u32_col(headers: &Vec<String>, row: &Vec<String>, name: &str) -> (r: Result<
    Option<u32>,
    LoadError,
>)
    ensures
        match r {
            Ok(v) => spec_opt_u32_col(headers.deep_view(), row.deep_view(), name@) == Ok::<
                Option<u32>,
                LoadErrorV,
            >(v),
            Err(e) => spec_opt_u32_col(headers.deep_view(), row.deep_view(), name@) == Err::<
                Option<u32>,
                LoadErrorV,
            >(e@),
        },
{
    match opt_cell(headers, row, name) {
        None => Ok(None),
        Some(s) => match parse_u32(s.as_str()) {
            Some(v) => Ok(Some(v)),
            None => Err(LoadError::Value(s.clone())),
        },
    }
}

/// A record type that one row of its file decodes to.
pub trait RowDecode: Sized + DeepView {
    /// What the row denotes under the header: the record's view, or the
    /// first failure in the record's field order.
    spec fn spec_row(h: Seq<Seq<char>>, row: Seq<Seq<char>>) -> Result<
        <Self as DeepView>::V,
        LoadErrorV,
    >;

    fn decode_row(headers: &Vec<String>, row: &Vec<String>) -> (r: Result<Self, LoadError>)
        ensures
            match r {
                Ok(v) => Self::spec_row(headers.deep_view(), row.deep_view()) == Ok::<
                    <Self as DeepView>::V,
                    LoadErrorV,
                >(v.deep_view()),
                Err(e) => Self::spec_row(headers.deep_view(), row.deep_view()) == Err::<
                    <Self as DeepView>::V,
                    LoadErrorV,
                >(e@),
            },
    ;
}

impl RowDecode for Agency {
    open spec fn spec_row(h: Seq<Seq<char>>, row: Seq<Seq<char>>) -> Result<
        AgencyView,
        LoadErrorV,
    > {
        if spec_cell(h, row, "agency_name"@) is None {
            Err(LoadErrorV::MissingColumn("agency_name"@))
        } else if spec_cell(h, row, "agency_url"@) is None {
            Err(LoadErrorV::MissingColumn("agency_url"@))
        } else if spec_cell(h, row, "agency_timezone"@) is None {
            Err(LoadErrorV::MissingColumn("agency_timezone"@))
        } else {
            Ok(
                AgencyView {
                    id: spec_opt_cell(h, row, "agency_id"@),
                    name: spec_cell(h, row, "agency_name"@)->Some_0,
                    url: spec_cell(h, row, "agency_url"@)->Some_0,
                    timezone: spec_cell(h, row, "agency_timezone"@)->Some_0,
                    lang: spec_opt_cell(h, row, "agency_lang"@),
                    phone: spec_opt_cell(h, row, "agency_phone"@),
                    fare_url: spec_opt_cell(h, row, "agency_fare_url"@),
                    email: spec_opt_cell(h, row, "agency_email"@),
                },
            )
        }
    }

    fn decode_row(headers: &Vec<String>, row: &Vec<String>) -> Result<Agency, LoadError> {
        let name = match req_string(headers, row, "agency_name") {
            Ok(v) => v,
            Err(e) => {
                return Err(e);
            },
        };
        let url = match req_string(headers, row, "agency_url") {
            Ok(v) => v,
            Err(e) => {
                return Err(e);
            },
        };
        let timezone = match req_string(headers, row, "agency_timezone") {
            Ok(v) => v,
            Err(e) => {
                return Err(e);
            },
        };
        Ok(
            Agency {
                id: opt_string(headers, row, "agency_id"),
                name,
                url,
                timezone,
                lang: opt_string(headers, row, "agency_lang"),
                phone: opt_string(headers, row, "agency_phone"),
                fare_url: opt_string(headers, row, "agency_fare_url"),
                email: opt_string(headers, row, "agency_email"),
            },
        )
    }
}

impl RowDecode for Stop {
    open spec fn spec_row(h: Seq<Seq<char>>, row: Seq<Seq<char>>) -> Result<StopView, LoadErrorV> {
        if spec_cell(h, row, "stop_id"@) is None {
            Err(LoadErrorV::MissingColumn("stop_id"@))
        } else if spec_cell(h, row, "stop_name"@) is None {
            Err(LoadErrorV::MissingColumn("stop_name"@))
        } else if spec_coord_trimmed(h, row, "stop_lon"@) is Err {
            Err(spec_coord_trimmed(h, row, "stop_lon"@)->Err_0)
        } else if spec_coord_trimmed(h, row, "stop_lat"@) is Err {
            Err(spec_coord_trimmed(h, row, "stop_lat"@)->Err_0)
        } else if spec_avail(h, row, "wheelchair_boarding"@) is Err {
            Err(spec_avail(h, row, "wheelchair_boarding"@)->Err_0)
        } else {
            Ok(
                StopView {
                    id: spec_cell(h, row, "stop_id"@)->Some_0,
                    code: spec_opt_cell(h, row, "stop_code"@),
                    name: spec_cell(h, row, "stop_name"@)->Some_0,
                    description: match spec_cell(h, row, "stop_desc"@) {
                        Some(s) => s,
                        None => Seq::<char>::empty(),
                    },
                    location_type: spec_location_type(h, row, "location_type"@),
                    parent_station: spec_opt_cell(h, row, "parent_station"@),
                    longitude: spec_coord_trimmed(h, row, "stop_lon"@)->Ok_0,
                    latitude: spec_coord_trimmed(h, row, "stop_lat"@)->Ok_0,
                    timezone: spec_opt_cell(h, row, "stop_timezone"@),
                    wheelchair_boarding: spec_avail(h, row, "wheelchair_boarding"@)->Ok_0,
                },
            )
        }
    }

    fn decode_row(headers: &Vec<String>, row: &Vec<String>) -> Result<Stop, LoadError> {
        let id = match req_string(headers, row, "stop_id") {
            Ok(v) => v,
            Err(e) => {
                return Err(e);
            },
        };
        let name = match req_string(headers, row, "stop_name") {
            Ok(v) => v,
            Err(e) => {
                return Err(e);
            },
        };
        let longitude = match decode_coord_trimmed(headers, row, "stop_lon") {
            Ok(v) => v,
            Err(e) => {
                return Err(e);
            },
        };
        let latitude = match decode_coord_trimmed(headers, row, "stop_lat") {
            Ok(v) => v,
            Err(e) => {
                return Err(e);
            },
        };
        let wheelchair_boarding = match decode_avail(headers, row, "wheelchair_boarding") {
            Ok(v) => v,
            Err(e) => {
                return Err(e);
            },
        };
        Ok(
            Stop {
                id,
                code: opt_string(headers, row, "stop_code"),
                name,
                description: dfl_string(headers, row, "stop_desc"),
                location_type: decode_location_type(headers, row, "location_type"),
                parent_station: opt_string(headers, row, "parent_station"),
                longitude,
                latitude,
                timezone: opt_string(headers, row, "stop_timezone"),
                wheelchair_boarding,
            },
        )
    }
}

impl RowDecode for Route {
    open spec fn spec_row(h: Seq<Seq<char>>, row: Seq<Seq<char>>) -> Result<
        RouteView,
        LoadErrorV,
    > {
        if spec_cell(h, row, "route_id"@) is None {
            Err(LoadErrorV::MissingColumn("route_id"@))
        } else if spec_cell(h, row, "route_short_name"@) is None {
            Err(LoadErrorV::MissingColumn("route_short_name"@))
        } else if spec_cell(h, row, "route_long_name"@) is None {
            Err(LoadErrorV::MissingColumn("route_long_name"@))
        } else if spec_u16_col(h, row, "route_type"@) is Err {
            Err(spec_u16_col(h, row, "route_type"@)->Err_0)
        } else if spec_opt_u32_col(h, row, "route_order"@) is Err {
            Err(spec_opt_u32_col(h, row, "route_order"@)->Err_0)
        } else {
            Ok(
                RouteView {
                    id: spec_cell(h, row, "route_id"@)->Some_0,
                    short_name: spec_cell(h, row, "route_short_name"@)->Some_0,
                    long_name: spec_cell(h, row, "route_long_name"@)->Some_0,
                    route_type: RouteType::spec_from_code(spec_u16_col(h, row, "route_type"@)->Ok_0),
                    agency_id: spec_opt_cell(h, row, "agency_id"@),
                    route_order: spec_opt_u32_col(h, row, "route_order"@)->Ok_0,
                },
            )
        }
    }

    fn decode_row(headers: &Vec<String>, row: &Vec<String>) -> Result<Route, LoadError> {
        let id = match req_string(headers, row, "route_id") {
            Ok(v) => v,
            Err(e) => {
                return Err(e);
            },
        };
        let short_name = match req_string(headers, row, "route_short_name") {
            Ok(v) => v,
            Err(e) => {
                return Err(e);
            },
        };
        let long_name = match req_string(headers, row, "route_long_name") {
            Ok(v) => v,
            Err(e) => {
                return Err(e);
            },
        };
        let code = match decode_u16_col(headers, row, "route_type") {
            Ok(v) => v,
            Err(e) => {
                return Err(e);
            },
        };
        let route_order = match decode_opt_u32_col(headers, row, "route_order") {
            Ok(v) => v,
            Err(e) => {
                return Err(e);
            },
        };
        Ok(
            Route {
                id,
                short_name,
                long_name,
                route_type: RouteType::from_code(code),
                agency_id: opt_string(headers, row, "agency_id"),
                route_order,
            },
        )
    }
}

impl RowDecode for Trip {
    open spec fn spec_row(h: Seq<Seq<char>>, row: Seq<Seq<char>>) -> Result<TripView, LoadErrorV> {
        if spec_cell(h, row, "trip_id"@) is None {
            Err(LoadErrorV::MissingColumn("trip_id"@))
        } else if spec_cell(h, row, "service_id"@) is None {
            Err(LoadErrorV::MissingColumn("service_id"@))
        } else if spec_cell(h, row, "route_id"@) is None {
            Err(LoadErrorV::MissingColumn("route_id"@))
        } else {
            Ok(
                TripView {
                    id: spec_cell(h, row, "trip_id"@)->Some_0,
                    service_id: spec_cell(h, row, "service_id"@)->Some_0,
                    route_id: spec_cell(h, row, "route_id"@)->Some_0,
                    stop_times: Seq::<crate::types::StopTimeView>::empty(),
                },
            )
        }
    }

    fn decode_row(headers: &Vec<String>, row: &Vec<String>) -> Result<Trip, LoadError> {
        let id = match req_string(headers, row, "trip_id") {
            Ok(v) => v,
            Err(e) => {
                return Err(e);
            },
        };
        let service_id = match req_string(headers, row, "service_id") {
            Ok(v) => v,
            Err(e) => {
                return Err(e);
            },
        };
        let route_id = match req_string(headers, row, "route_id") {
            Ok(v) => v,
            Err(e) => {
                return Err(e);
            },
        };
        let r = Trip { id, service_id, route_id, stop_times: Vec::new() };
        proof {
            assert(r.stop_times.deep_view() =~= Seq::<crate::types::StopTimeView>::empty());
        }
        Ok(r)
    }
}

impl RowDecode for Calendar {
    open spec fn spec_row(h: Seq<Seq<char>>, row: Seq<Seq<char>>) -> Result<
        CalendarView,
        LoadErrorV,
    > {
        if spec_cell(h, row, "service_id"@) is None {
            Err(LoadErrorV::MissingColumn("service_id"@))
        } else if spec_bool_col(h, row, "monday"@) is Err {
            Err(spec_bool_col(h, row, "monday"@)->Err_0)
        } else if spec_bool_col(h, row, "tuesday"@) is Err {
            Err(spec_bool_col(h, row, "tuesday"@)->Err_0)
        } else if spec_bool_col(h, row, "wednesday"@) is Err {
            Err(spec_bool_col(h, row, "wednesday"@)->Err_0)
        } else if spec_bool_col(h, row, "thursday"@) is Err {
            Err(spec_bool_col(h, row, "thursday"@)->Err_0)
        } else if spec_bool_col(h, row, "friday"@) is Err {
            Err(spec_bool_col(h, row, "friday"@)->Err_0)
        } else if spec_bool_col(h, row, "saturday"@) is Err {
            Err(spec_bool_col(h, row, "saturday"@)->Err_0)
        } else if spec_bool_col(h, row, "sunday"@) is Err {
            Err(spec_bool_col(h, row, "sunday"@)->Err_0)
        } else if spec_date_col(h, row, "start_date"@) is Err {
            Err(spec_date_col(h, row, "start_date"@)->Err_0)
        } else if spec_date_col(h, row, "end_date"@) is Err {
            Err(spec_date_col(h, row, "end_date"@)->Err_0)
        } else {
            Ok(
                CalendarView {
                    id: spec_cell(h, row, "service_id"@)->Some_0,
                    monday: spec_bool_col(h, row, "monday"@)->Ok_0,
                    tuesday: spec_bool_col(h, row, "tuesday"@)->Ok_0,
                    wednesday: spec_bool_col(h, row, "wednesday"@)->Ok_0,
                    thursday: spec_bool_col(h, row, "thursday"@)->Ok_0,
                    friday: spec_bool_col(h, row, "friday"@)->Ok_0,
                    saturday: spec_bool_col(h, row, "saturday"@)->Ok_0,
                    sunday: spec_bool_col(h, row, "sunday"@)->Ok_0,
                    start_date: spec_date_col(h, row, "start_date"@)->Ok_0,
                    end_date: spec_date_col(h, row, "end_date"@)->Ok_0,
                },
            )
        }
    }

    fn decode_row(headers: &Vec<String>, row: &Vec<String>) -> Result<Calendar, LoadError> {
        let id = match req_string(headers, row, "service_id") {
            Ok(v) => v,
            Err(e) => {
                return Err(e);
            },
        };
        let monday = match decode_bool_col(headers, row, "monday") {
            Ok(v) => v,
            Err(e) => {
                return Err(e);
            },
        };
        let tuesday = match decode_bool_col(headers, row, "tuesday") {
            Ok(v) => v,
            Err(e) => {
                return Err(e);
            },
        };
        let wednesday = match decode_bool_col(headers, row, "wednesday") {
            Ok(v) => v,
            Err(e) => {
                return Err(e);
            },
        };
        let thursday = match decode_bool_col(headers, row, "thursday") {
            Ok(v) => v,
            Err(e) => {
                return Err(e);
            },
        };
        let friday = match decode_bool_col(headers, row, "friday") {
            Ok(v) => v,
            Err(e) => {
                return Err(e);
            },
        };
        let saturday = match decode_bool_col(headers, row, "saturday") {
            Ok(v) => v,
            Err(e) => {
                return Err(e);
            },
        };
        let sunday = match decode_bool_col(headers, row, "sunday") {
            Ok(v) => v,
            Err(e) => {
                return Err(e);
            },
        };
        let start_date = match decode_date_col(headers, row, "start_date") {
            Ok(v) => v,
            Err(e) => {
                return Err(e);
            },
        };
        let end_date = match decode_date_col(headers, row, "end_date") {
            Ok(v) => v,
            Err(e) => {
                return Err(e);
            },
        };
        Ok(
            Calendar {
                id,
                monday,
                tuesday,
                wednesday,
                thursday,
                friday,
                saturday,
                sunday,
                start_date,
                end_date,
            },
        )
    }
}

impl RowDecode for CalendarDate {
    open spec fn spec_row(h: Seq<Seq<char>>, row: Seq<Seq<char>>) -> Result<
        CalendarDateView,
        LoadErrorV,
    > {
        if spec_cell(h, row, "service_id"@) is None {
            Err(LoadErrorV::MissingColumn("service_id"@))
        } else if spec_date_col(h, row, "date"@) is Err {
            Err(spec_date_col(h, row, "date"@)->Err_0)
        } else if spec_u8_col(h, row, "exception_type"@) is Err {
            Err(spec_u8_col(h, row, "exception_type"@)->Err_0)
        } else {
            Ok(
                CalendarDateView {
                    service_id: spec_cell(h, row, "service_id"@)->Some_0,
                    date: spec_date_col(h, row, "date"@)->Ok_0,
                    exception_type: spec_u8_col(h, row, "exception_type"@)->Ok_0,
                },
            )
        }
    }

    fn decode_row(headers: &Vec<String>, row: &Vec<String>) -> Result<CalendarDate, LoadError> {
        let service_id = match req_string(headers, row, "service_id") {
            Ok(v) => v,
            Err(e) => {
                return Err(e);
            },
        };
        let date = match decode_date_col(headers, row, "date") {
            Ok(v) => v,
            Err(e) => {
                return Err(e);
            },
        };
        let exception_type = match decode_u8_col(headers, row, "exception_type") {
            Ok(v) => v,
            Err(e) => {
                return Err(e);
            },
        };
        Ok(CalendarDate { service_id, date, exception_type })
    }
}

impl RowDecode for Shape {
    open spec fn spec_row(h: Seq<Seq<char>>, row: Seq<Seq<char>>) -> Result<
        ShapeView,
        LoadErrorV,
    > {
        if spec_cell(h, row, "shape_id"@) is None {
            Err(LoadErrorV::MissingColumn("shape_id"@))
        } else if spec_coord_raw(h, row, "shape_pt_lat"@) is Err {
            Err(spec_coord_raw(h, row, "shape_pt_lat"@)->Err_0)
        } else if spec_coord_raw(h, row, "shape_pt_lon"@) is Err {
            Err(spec_coord_raw(h, row, "shape_pt_lon"@)->Err_0)
        } else if spec_u16_col(h, row, "shape_pt_sequence"@) is Err {
            Err(spec_u16_col(h, row, "shape_pt_sequence"@)->Err_0)
        } else if spec_opt_float_text(h, row, "shape_dist_traveled"@) is Err {
            Err(spec_opt_float_text(h, row, "shape_dist_traveled"@)->Err_0)
        } else {
            Ok(
                ShapeView {
                    id: spec_cell(h, row, "shape_id"@)->Some_0,
                    latitude: spec_coord_raw(h, row, "shape_pt_lat"@)->Ok_0,
                    longitude: spec_coord_raw(h, row, "shape_pt_lon"@)->Ok_0,
                    sequence: spec_u16_col(h, row, "shape_pt_sequence"@)->Ok_0,
                    dist_traveled: spec_opt_float_text(h, row, "shape_dist_traveled"@)->Ok_0,
                },
            )
        }
    }

    fn decode_row(headers: &Vec<String>, row: &Vec<String>) -> Result<Shape, LoadError> {
        let id = match req_string(headers, row, "shape_id") {
            Ok(v) => v,
            Err(e) => {
                return Err(e);
            },
        };
        let latitude = match decode_coord_raw(headers, row, "shape_pt_lat") {
            Ok(v) => v,
            Err(e) => {
                return Err(e);
            },
        };
        let longitude = match decode_coord_raw(headers, row, "shape_pt_lon") {
            Ok(v) => v,
            Err(e) => {
                return Err(e);
            },
        };
        let sequence = match decode_u16_col(headers, row, "shape_pt_sequence") {
            Ok(v) => v,
            Err(e) => {
                return Err(e);
            },
        };
        let dist_traveled = match decode_opt_float_text(headers, row, "shape_dist_traveled") {
            Ok(v) => v,
            Err(e) => {
                return Err(e);
            },
        };
        Ok(Shape { id, latitude, longitude, sequence, dist_traveled })
    }
}

impl RowDecode for FareAttribute {
    open spec fn spec_row(h: Seq<Seq<char>>, row: Seq<Seq<char>>) -> Result<
        FareAttributeView,
        LoadErrorV,
    > {
        if spec_cell(h, row, "fare_id"@) is None {
            Err(LoadErrorV::MissingColumn("fare_id"@))
        } else if spec_cell(h, row, "price"@) is None {
            Err(LoadErrorV::MissingColumn("price"@))
        } else if spec_cell(h, row, "currency_type"@) is None {
            Err(LoadErrorV::MissingColumn("currency_type"@))
        } else if spec_payment(h, row, "payment_method"@) is Err {
            Err(spec_payment(h, row, "payment_method"@)->Err_0)
        } else if spec_transfers(h, row, "transfers"@) is Err {
            Err(spec_transfers(h, row, "transfers"@)->Err_0)
        } else if spec_opt_u32_col(h, row, "transfer_duration"@) is Err {
            Err(spec_opt_u32_col(h, row, "transfer_duration"@)->Err_0)
        } else {
            Ok(
                FareAttributeView {
                    id: spec_cell(h, row, "fare_id"@)->Some_0,
                    price: spec_cell(h, row, "price"@)->Some_0,
                    currency: spec_cell(h, row, "currency_type"@)->Some_0,
                    payment_method: spec_payment(h, row, "payment_method"@)->Ok_0,
                    transfers: spec_transfers(h, row, "transfers"@)->Ok_0,
                    agency_id: spec_opt_cell(h, row, "agency_id"@),
                    transfer_duration: spec_opt_u32_col(h, row, "transfer_duration"@)->Ok_0,
                },
            )
        }
    }

    fn decode_row(headers: &Vec<String>, row: &Vec<String>) -> Result<FareAttribute, LoadError> {
        let id = match req_string(headers, row, "fare_id") {
            Ok(v) => v,
            Err(e) => {
                return Err(e);
            },
        };
        let price = match req_string(headers, row, "price") {
            Ok(v) => v,
            Err(e) => {
                return Err(e);
            },
        };
        let currency = match req_string(headers, row, "currency_type") {
            Ok(v) => v,
            Err(e) => {
                return Err(e);
            },
        };
        let payment_method = match decode_payment(headers, row, "payment_method") {
            Ok(v) => v,
            Err(e) => {
                return Err(e);
            },
        };
        let transfers = match decode_transfers(headers, row, "transfers") {
            Ok(v) => v,
            Err(e) => {
                return Err(e);
            },
        };
        let transfer_duration = match decode_opt_u32_col(headers, row, "transfer_duration") {
            Ok(v) => v,
            Err(e) => {
                return Err(e);
            },
        };
        Ok(
            FareAttribute {
                id,
                price,
                currency,
                payment_method,
                transfers,
                agency_id: opt_string(headers, row, "agency_id"),
                transfer_duration,
            },
        )
    }
}

impl RowDecode for StopTimeGtfs {
    open spec fn spec_row(h: Seq<Seq<char>>, row: Seq<Seq<char>>) -> Result<
        StopTimeGtfsView,
        LoadErrorV,
    > {
        if spec_cell(h, row, "trip_id"@) is None {
            Err(LoadErrorV::MissingColumn("trip_id"@))
        } else if spec_time_col(h, row, "arrival_time"@) is Err {
            Err(spec_time_col(h, row, "arrival_time"@)->Err_0)
        } else if spec_time_col(h, row, "departure_time"@) is Err {
            Err(spec_time_col(h, row, "departure_time"@)->Err_0)
        } else if spec_cell(h, row, "stop_id"@) is None {
            Err(LoadErrorV::MissingColumn("stop_id"@))
        } else if spec_u16_col(h, row, "stop_sequence"@) is Err {
            Err(spec_u16_col(h, row, "stop_sequence"@)->Err_0)
        } else if spec_pickup_dropoff(h, row, "pickup_type"@) is Err {
            Err(spec_pickup_dropoff(h, row, "pickup_type"@)->Err_0)
        } else if spec_pickup_dropoff(h, row, "drop_off_type"@) is Err {
            Err(spec_pickup_dropoff(h, row, "drop_off_type"@)->Err_0)
        } else {
            Ok(
                StopTimeGtfsView {
                    trip_id: spec_cell(h, row, "trip_id"@)->Some_0,
                    arrival_time: spec_time_col(h, row, "arrival_time"@)->Ok_0,
                    departure_time: spec_time_col(h, row, "departure_time"@)->Ok_0,
                    stop_id: spec_cell(h, row, "stop_id"@)->Some_0,
                    stop_sequence: spec_u16_col(h, row, "stop_sequence"@)->Ok_0,
                    pickup_type: spec_pickup_dropoff(h, row, "pickup_type"@)->Ok_0,
                    drop_off_type: spec_pickup_dropoff(h, row, "drop_off_type"@)->Ok_0,
                },
            )
        }
    }

    fn decode_row(headers: &Vec<String>, row: &Vec<String>) -> Result<StopTimeGtfs, LoadError> {
        let trip_id = match req_string(headers, row, "trip_id") {
            Ok(v) => v,
            Err(e) => {
                return Err(e);
            },
        };
        let arrival_time = match decode_time_col(headers, row, "arrival_time") {
            Ok(v) => v,
            Err(e) => {
                return Err(e);
            },
        };
        let departure_time = match decode_time_col(headers, row, "departure_time") {
            Ok(v) => v,
            Err(e) => {
                return Err(e);
            },
        };
        let stop_id = match req_string(headers, row, "stop_id") {
            Ok(v) => v,
            Err(e) => {
                return Err(e);
            },
        };
        let stop_sequence = match decode_u16_col(headers, row, "stop_sequence") {
            Ok(v) => v,
            Err(e) => {
                return Err(e);
            },
        };
        let pickup_type = match decode_pickup_dropoff(headers, row, "pickup_type") {
            Ok(v) => v,
            Err(e) => {
                return Err(e);
            },
        };
        let drop_off_type = match decode_pickup_dropoff(headers, row, "drop_off_type") {
            Ok(v) => v,
            Err(e) => {
                return Err(e);
            },
        };
        Ok(
            StopTimeGtfs {
                trip_id,
                arrival_time,
                departure_time,
                stop_id,
                stop_sequence,
                pickup_type,
                drop_off_type,
            },
        )
    }
}

/// The header row of a parsed table.
pub open spec fn spec_headers(t: Seq<Seq<Seq<char>>>) -> Seq<Seq<char>> {
    if t.len() > 0 {
        t[0]
    } else {
        Seq::<Seq<char>>::empty()
    }
}

/// The record rows of a parsed table.
pub open spec fn spec_records(t: Seq<Seq<Seq<char>>>) -> Seq<Seq<Seq<char>>> {
    if t.len() > 0 {
        t.skip(1)
    } else {
        Seq::<Seq<Seq<char>>>::empty()
    }
}

/// What a sequence of record rows decodes to: all the records in order,
/// or the first row's failure.
pub open spec fn spec_rows<T: RowDecode>(h: Seq<Seq<char>>, rows: Seq<Seq<Seq<char>>>) -> Result<
    Seq<<T as DeepView>::V>,
    LoadErrorV,
>
    decreases rows.len(),
{
    if rows.len() == 0 {
        Ok(Seq::<<T as DeepView>::V>::empty())
    } else {
        match spec_rows::<T>(h, rows.drop_last()) {
            Err(e) => Err(e),
            Ok(s) => match T::spec_row(h, rows.last()) {
                Ok(v) => Ok(s.push(v)),
                Err(e) => Err(e),
            },
        }
    }
}

/// A failure in a prefix of the rows is the failure of the whole.
pub proof fn lemma_rows_prefix_err<T: RowDecode>(h: Seq<Seq<char>>, rows: Seq<Seq<Seq<char>>>, i: int)
    requires
        0 <= i <= rows.len(),
        spec_rows::<T>(h, rows.take(i)) is Err,
    ensures
        spec_rows::<T>(h, rows) == spec_rows::<T>(h, rows.take(i)),
    decreases rows.len() - i,
{
    if i == rows.len() {
        assert(rows.take(i) =~= rows);
    } else {
        assert(rows.take(i + 1).drop_last() =~= rows.take(i));
        lemma_rows_prefix_err::<T>(h, rows, i + 1);
    }
}

/// What a whole table decodes to: its record rows under its header.
pub open spec fn spec_decode_table<T: RowDecode>(t: Seq<Seq<Seq<char>>>) -> Result<
    Seq<<T as DeepView>::V>,
    LoadErrorV,
> {
    spec_rows::<T>(spec_headers(t), spec_records(t))
}

/// Decodes every record row of the table, in order, failing on the first
/// malformed row.
pub fn decode_table<T: RowDecode>(table: &Vec<Vec<String>>) -> (r: Result<Vec<T>, LoadError>)
    ensures
        match r {
            Ok(v) => spec_decode_table::<T>(table.deep_view()) == Ok::<
                Seq<<T as DeepView>::V>,
                LoadErrorV,
            >(v.deep_view()),
            Err(e) => spec_decode_table::<T>(table.deep_view()) == Err::<
                Seq<<T as DeepView>::V>,
                LoadErrorV,
            >(e@),
        },
{
    let ghost tv = table.deep_view();
    let ghost hv = spec_headers(tv);
    let ghost rowsv = spec_records(tv);
    let mut out: Vec<T> = Vec::new();
    let n = table.len();
    if n == 0 {
        proof {
            assert(out.deep_view() =~= Seq::<<T as DeepView>::V>::empty());
        }
        return Ok(out);
    }
    let headers = &table[0];
    proof {
        assert(headers.deep_view() == tv[0]);
        assert(rowsv.take(0) =~= Seq::<Seq<Seq<char>>>::empty());
        assert(out.deep_view() =~= Seq::<<T as DeepView>::V>::empty());
    }
    let mut i: usize = 1;
    while i < n
        invariant
            tv == table.deep_view(),
            hv == spec_headers(tv),
            rowsv == spec_records(tv),
            n == table@.len(),
            n >= 1,
            1 <= i <= n,
            headers.deep_view() == hv,
            spec_rows::<T>(hv, rowsv.take(i - 1)) == Ok::<
                Seq<<T as DeepView>::V>,
                LoadErrorV,
            >(out.deep_view()),
        decreases n - i,
    {
        proof {
            assert(table.deep_view()[i as int] == table@[i as int].deep_view());
            assert(rowsv[i - 1] == tv[i as int]);
        }
        match T::decode_row(headers, &table[i]) {
            Ok(v) => {
                let ghost prev = out.deep_view();
                out.push(v);
                proof {
                    assert(out.deep_view() =~= prev.push(v.deep_view()));
                    assert(rowsv.take(i as int).drop_last() =~= rowsv.take(i - 1));
                    assert(rowsv.take(i as int).last() == rowsv[i - 1]);
                }
            },
            Err(e) => {
                proof {
                    assert(rowsv.take(i as int).drop_last() =~= rowsv.take(i - 1));
                    assert(rowsv.take(i as int).last() == rowsv[i - 1]);
                    assert(spec_rows::<T>(hv, rowsv.take(i as int)) is Err);
                    lemma_rows_prefix_err::<T>(hv, rowsv, i as int);
                }
                return Err(e);
            },
        }
        i = i + 1;
    }
    proof {
        assert(rowsv.take(n - 1) =~= rowsv);
    }
    Ok(out)
}

} // verus!
