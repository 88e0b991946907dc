//! The reference tables of the format: what the short codes of a file mean.
//!
//! A code is looked up by the byte that writes it, a flag or a reason by its
//! number. A code that the tables do not hold has no meaning.

use crate::nem12::equality::{bytes_eq_ignoring_case, same_ignoring_case};
use vstd::prelude::*;
use vstd::string::StringSliceAdditionalSpecFns;

verus! {

/// The meaning of the transaction code of an exchange record, the letter
/// `code`.
pub open spec fn transaction_code_of(code: u8) -> Option<&'static str> {
    match code {
        65 => Some("Alteration"),
        67 => Some("Meter Reconfiguration"),
        71 => Some("Re-energisation"),
        68 => Some("De-energisation"),
        69 => Some("Forward Estimate"),
        78 => Some("Normal Read"),
        79 => Some("Other"),
        83 => Some("Special Read"),
        82 => Some("Removal of Meter"),
        _ => None,
    }
}

/// Looks up the meaning of a transaction code, the letter `code`.
pub fn transaction_code(code: u8) -> (meaning: Option<&'static str>)
    ensures
        meaning == transaction_code_of(code),
{
    match code {
        65 => Some("Alteration"),
        67 => Some("Meter Reconfiguration"),
        71 => Some("Re-energisation"),
        68 => Some("De-energisation"),
        69 => Some("Forward Estimate"),
        78 => Some("Normal Read"),
        79 => Some("Other"),
        83 => Some("Special Read"),
        82 => Some("Removal of Meter"),
        _ => None,
    }
}

/// The meaning of the quality flag that the letter `code` writes, the first
/// letter of a quality method.
pub open spec fn quality_of(code: u8) -> Option<&'static str> {
    match code {
        65 => Some("Actual Data"),
        69 => Some("Forward Estimated Data"),
        70 => Some("Final Substituted Data"),
        78 => Some("Null Data"),
        83 => Some("Substituted Data"),
        86 => Some("Variable Data"),
        _ => None,
    }
}

/// Looks up the meaning of a quality flag, the first letter of a quality
/// method.
pub fn quality(code: u8) -> (meaning: Option<&'static str>)
    ensures
        meaning == quality_of(code),
{
    match code {
        65 => Some("Actual Data"),
        69 => Some("Forward Estimated Data"),
        70 => Some("Final Substituted Data"),
        78 => Some("Null Data"),
        83 => Some("Substituted Data"),
        86 => Some("Variable Data"),
        _ => None,
    }
}

/// The meaning of the reason code with the number `code`.
pub open spec fn reason_of(code: u8) -> Option<&'static str> {
    match code {
        0 => Some("Free Text Description"),
        1 => Some("Meter/Equipment Changed"),
        2 => Some("Extreme Weather/Wet"),
        3 => Some("Quarantine"),
        4 => Some("Savage Dog"),
        5 => Some("Meter/Equipment Changed"),
        6 => Some("Extreme Weather/Wet"),
        7 => Some("Unable To Locate Meter"),
        8 => Some("Vacant Premise"),
        9 => Some("Meter/Equipment Changed"),
        10 => Some("Lock Damaged/Seized"),
        11 => Some("In Wrong Walk"),
        12 => Some("Locked Premises"),
        13 => Some("Locked Gate"),
        14 => Some("Locked Meter Box"),
        15 => Some("Access - Overgrown"),
        16 => Some("Noxious Weeds"),
        17 => Some("Unsafe Equipment/Location"),
        18 => Some("Read Below Previous"),
        19 => Some("Consumer Wanted"),
        20 => Some("Damaged Equipment/Panel"),
        21 => Some("Switched Off"),
        22 => Some("Meter/Equipment Seals Missing"),
        23 => Some("Meter/Equipment Seals Missing"),
        24 => Some("Meter/Equipment Seals Missing"),
        25 => Some("Meter/Equipment Seals Missing"),
        26 => Some("Meter/Equipment Seals Missing"),
        27 => Some("Meter/Equipment Seals Missing"),
        28 => Some("Damaged Equipment/Panel"),
        29 => Some("Relay Faulty/Damaged"),
        30 => Some("Meter Stop Switch On"),
        31 => Some("Meter/Equipment Seals Missing"),
        32 => Some("Damaged Equipment/Panel"),
        33 => Some("Relay Faulty/Damaged"),
        34 => Some("Meter Not In Handheld"),
        35 => Some("Timeswitch Faulty/Reset Required"),
        36 => Some("Meter High/Ladder Required"),
        37 => Some("Meter High/Ladder Required"),
        38 => Some("Unsafe Equipment/Location"),
        39 => Some("Reverse Energy Observed"),
        40 => Some("Timeswitch Faulty/Reset Required"),
        41 => Some("Faulty Equipment Display/Dials"),
        42 => Some("Faulty Equipment Display/Dials"),
        43 => Some("Power Outage"),
        44 => Some("Unsafe Equipment/Location"),
        45 => Some("Readings Failed To Validate"),
        46 => Some("Extreme Weather/Hot"),
        47 => Some("Refused Access"),
        48 => Some("Timeswitch Faulty/Reset Required"),
        49 => Some("Wet Paint"),
        50 => Some("Wrong Tariff"),
        51 => Some("Installation Demolished"),
        52 => Some("Access - Blocked"),
        53 => Some("Bees/Wasp In Meter Box"),
        54 => Some("Meter Box Damaged/Faulty"),
        55 => Some("Faulty Equipment Display/Dials"),
        56 => Some("Meter Box Damaged/Faulty"),
        57 => Some("Timeswitch Faulty/Reset Required"),
        58 => Some("Meter Ok - Supply Failure"),
        59 => Some("Faulty Equipment Display/Dials"),
        60 => Some("Illegal Connection/Equipment Tampered"),
        61 => Some("Meter Box Damaged/Faulty"),
        62 => Some("Damaged Equipment/Panel"),
        63 => Some("Illegal Connection/Equipment Tampered"),
        64 => Some("Key Required"),
        65 => Some("Wrong Key Provided"),
        66 => Some("Lock Damaged/Seized"),
        67 => Some("Extreme Weather/Wet"),
        68 => Some("Zero Consumption"),
        69 => Some("Reading Exceeds Estimate"),
        70 => Some("Probe Reports Tampering"),
        71 => Some("Probe Read Error"),
        72 => Some("Meter/Equipment Changed"),
        73 => Some("Low Consumption"),
        74 => Some("High Consumption"),
        75 => Some("Customer Read"),
        76 => Some("Communications Fault"),
        77 => Some("Estimation Forecast"),
        78 => Some("Null Data"),
        79 => Some("Power Outage Alarm"),
        80 => Some("Short Interval Alarm"),
        81 => Some("Long Interval Alarm"),
        82 => Some("CRC Error"),
        83 => Some("RAM Checksum Error"),
        84 => Some("ROM Checksum Error"),
        85 => Some("Data Missing Alarm"),
        86 => Some("Clock Error Alarm"),
        87 => Some("Reset Occurred"),
        88 => Some("Watchdog Timeout Alarm"),
        89 => Some("Time Reset Occurred"),
        90 => Some("Test pub mode"),
        91 => Some("Load Control"),
        92 => Some("Added Interval (Data Correction)"),
        93 => Some("Replaced Interval (Data Correction)"),
        94 => Some("Estimated Interval (Data Correction)"),
        95 => Some("Pulse Overflow Alarm"),
        96 => Some("Data Out Of Limits"),
        97 => Some("Excluded Data"),
        98 => Some("Parity Error"),
        99 => Some("Energy Type (Register Changed)"),
        _ => None,
    }
}

/// Looks up the meaning of the reason code with the number `code`.
pub fn reason(code: u8) -> (meaning: Option<&'static str>)
    ensures
        meaning == reason_of(code),
{
    match code {
        0 => Some("Free Text Description"),
        1 => Some("Meter/Equipment Changed"),
        2 => Some("Extreme Weather/Wet"),
        3 => Some("Quarantine"),
        4 => Some("Savage Dog"),
        5 => Some("Meter/Equipment Changed"),
        6 => Some("Extreme Weather/Wet"),
        7 => Some("Unable To Locate Meter"),
        8 => Some("Vacant Premise"),
        9 => Some("Meter/Equipment Changed"),
        10 => Some("Lock Damaged/Seized"),
        11 => Some("In Wrong Walk"),
        12 => Some("Locked Premises"),
        13 => Some("Locked Gate"),
        14 => Some("Locked Meter Box"),
        15 => Some("Access - Overgrown"),
        16 => Some("Noxious Weeds"),
        17 => Some("Unsafe Equipment/Location"),
        18 => Some("Read Below Previous"),
        19 => Some("Consumer Wanted"),
        20 => Some("Damaged Equipment/Panel"),
        21 => Some("Switched Off"),
        22 => Some("Meter/Equipment Seals Missing"),
        23 => Some("Meter/Equipment Seals Missing"),
        24 => Some("Meter/Equipment Seals Missing"),
        25 => Some("Meter/Equipment Seals Missing"),
        26 => Some("Meter/Equipment Seals Missing"),
        27 => Some("Meter/Equipment Seals Missing"),
        28 => Some("Damaged Equipment/Panel"),
        29 => Some("Relay Faulty/Damaged"),
        30 => Some("Meter Stop Switch On"),
        31 => Some("Meter/Equipment Seals Missing"),
        32 => Some("Damaged Equipment/Panel"),
        33 => Some("Relay Faulty/Damaged"),
        34 => Some("Meter Not In Handheld"),
        35 => Some("Timeswitch Faulty/Reset Required"),
        36 => Some("Meter High/Ladder Required"),
        37 => Some("Meter High/Ladder Required"),
        38 => Some("Unsafe Equipment/Location"),
        39 => Some("Reverse Energy Observed"),
        40 => Some("Timeswitch Faulty/Reset Required"),
        41 => Some("Faulty Equipment Display/Dials"),
        42 => Some("Faulty Equipment Display/Dials"),
        43 => Some("Power Outage"),
        44 => Some("Unsafe Equipment/Location"),
        45 => Some("Readings Failed To Validate"),
        46 => Some("Extreme Weather/Hot"),
        47 => Some("Refused Access"),
        48 => Some("Timeswitch Faulty/Reset Required"),
        49 => Some("Wet Paint"),
        50 => Some("Wrong Tariff"),
        51 => Some("Installation Demolished"),
        52 => Some("Access - Blocked"),
        53 => Some("Bees/Wasp In Meter Box"),
        54 => Some("Meter Box Damaged/Faulty"),
        55 => Some("Faulty Equipment Display/Dials"),
        56 => Some("Meter Box Damaged/Faulty"),
        57 => Some("Timeswitch Faulty/Reset Required"),
        58 => Some("Meter Ok - Supply Failure"),
        59 => Some("Faulty Equipment Display/Dials"),
        60 => Some("Illegal Connection/Equipment Tampered"),
        61 => Some("Meter Box Damaged/Faulty"),
        62 => Some("Damaged Equipment/Panel"),
        63 => Some("Illegal Connection/Equipment Tampered"),
        64 => Some("Key Required"),
        65 => Some("Wrong Key Provided"),
        66 => Some("Lock Damaged/Seized"),
        67 => Some("Extreme Weather/Wet"),
        68 => Some("Zero Consumption"),
        69 => Some("Reading Exceeds Estimate"),
        70 => Some("Probe Reports Tampering"),
        71 => Some("Probe Read Error"),
        72 => Some("Meter/Equipment Changed"),
        73 => Some("Low Consumption"),
        74 => Some("High Consumption"),
        75 => Some("Customer Read"),
        76 => Some("Communications Fault"),
        77 => Some("Estimation Forecast"),
        78 => Some("Null Data"),
        79 => Some("Power Outage Alarm"),
        80 => Some("Short Interval Alarm"),
        81 => Some("Long Interval Alarm"),
        82 => Some("CRC Error"),
        83 => Some("RAM Checksum Error"),
        84 => Some("ROM Checksum Error"),
        85 => Some("Data Missing Alarm"),
        86 => Some("Clock Error Alarm"),
        87 => Some("Reset Occurred"),
        88 => Some("Watchdog Timeout Alarm"),
        89 => Some("Time Reset Occurred"),
        90 => Some("Test pub mode"),
        91 => Some("Load Control"),
        92 => Some("Added Interval (Data Correction)"),
        93 => Some("Replaced Interval (Data Correction)"),
        94 => Some("Estimated Interval (Data Correction)"),
        95 => Some("Pulse Overflow Alarm"),
        96 => Some("Data Out Of Limits"),
        97 => Some("Excluded Data"),
        98 => Some("Parity Error"),
        99 => Some("Energy Type (Register Changed)"),
        _ => None,
    }
}

/// What is known of a method flag, the two digits behind the quality flag:
/// whether the method estimates, whether it substitutes, the range of
/// installation types it applies to, and its name.
#[derive(Clone, Copy, Debug, PartialEq, Eq)]
pub struct MethodMeta {
    pub estimate: bool,
    pub substitute: bool,
    pub first_installation_type: u8,
    pub last_installation_type: u8,
    pub short_descriptor: &'static str,
    pub description: &'static str,
}

/// What is known of a method with the name `name`, which estimates and
/// substitutes as said, for the installation types from `first` to `last`.
pub open spec fn method_meta(
    estimate: bool,
    substitute: bool,
    first: u8,
    last: u8,
    name: &'static str,
) -> MethodMeta {
    MethodMeta {
        estimate,
        substitute,
        first_installation_type: first,
        last_installation_type: last,
        short_descriptor: name,
        description: "",
    }
}

/// What is known of the method flag with the number `flag`.
pub open spec fn method_of(flag: u8) -> Option<MethodMeta> {
    match flag {
        11 => Some(method_meta(false, true, 1, 4, "Check")),
        12 => Some(method_meta(false, true, 1, 4, "Calculated")),
        13 => Some(method_meta(false, true, 1, 4, "SCADA")),
        14 => Some(method_meta(false, true, 1, 4, "Like Day")),
        15 => Some(method_meta(false, true, 1, 4, "Average Like Day")),
        16 => Some(method_meta(false, true, 1, 4, "Agreed")),
        17 => Some(method_meta(false, true, 1, 4, "Linear")),
        18 => Some(method_meta(false, true, 1, 4, "Alternate")),
        19 => Some(method_meta(false, true, 1, 4, "Zero")),
        51 => Some(method_meta(true, true, 5, 5, "Previous Year")),
        52 => Some(method_meta(true, true, 5, 5, "Previous Read")),
        53 => Some(method_meta(false, true, 5, 5, "Revision")),
        54 => Some(method_meta(false, true, 5, 5, "Linear")),
        55 => Some(method_meta(false, true, 5, 5, "Agreed")),
        56 => Some(method_meta(true, true, 5, 5, "Prior to First Read - Agreed")),
        57 => Some(method_meta(true, true, 5, 5, "Customer Class")),
        58 => Some(method_meta(true, true, 5, 5, "Zero")),
        61 => Some(method_meta(true, true, 6, 6, "Previous Year")),
        62 => Some(method_meta(true, true, 6, 6, "Previous Read")),
        63 => Some(method_meta(true, true, 6, 6, "Customer Class")),
        64 => Some(method_meta(false, true, 6, 6, "Agreed")),
        65 => Some(method_meta(true, false, 6, 6, "ADL")),
        66 => Some(method_meta(false, true, 6, 6, "Revision")),
        67 => Some(method_meta(false, true, 6, 6, "Customer Read")),
        68 => Some(method_meta(true, true, 6, 6, "Zero")),
        71 => Some(method_meta(false, true, 7, 7, "Recalculation")),
        72 => Some(method_meta(false, true, 7, 7, "Revised Table")),
        73 => Some(method_meta(false, true, 7, 7, "Revised Algorithm")),
        74 => Some(method_meta(false, true, 7, 7, "Agreed")),
        75 => Some(method_meta(true, false, 7, 7, "Existing Table")),
        _ => None,
    }
}

fn describe(estimate: bool, substitute: bool, first: u8, last: u8, name: &'static str) -> (meta:
    MethodMeta)
    ensures
        meta == method_meta(estimate, substitute, first, last, name),
{
    MethodMeta {
        estimate,
        substitute,
        first_installation_type: first,
        last_installation_type: last,
        short_descriptor: name,
        description: "",
    }
}

/// Looks up what is known of the method flag with the number `flag`.
pub fn method(flag: u8) -> (meta: Option<MethodMeta>)
    ensures
        meta == method_of(flag),
{
    match flag {
        11 => Some(describe(false, true, 1, 4, "Check")),
        12 => Some(describe(false, true, 1, 4, "Calculated")),
        13 => Some(describe(false, true, 1, 4, "SCADA")),
        14 => Some(describe(false, true, 1, 4, "Like Day")),
        15 => Some(describe(false, true, 1, 4, "Average Like Day")),
        16 => Some(describe(false, true, 1, 4, "Agreed")),
        17 => Some(describe(false, true, 1, 4, "Linear")),
        18 => Some(describe(false, true, 1, 4, "Alternate")),
        19 => Some(describe(false, true, 1, 4, "Zero")),
        51 => Some(describe(true, true, 5, 5, "Previous Year")),
        52 => Some(describe(true, true, 5, 5, "Previous Read")),
        53 => Some(describe(false, true, 5, 5, "Revision")),
        54 => Some(describe(false, true, 5, 5, "Linear")),
        55 => Some(describe(false, true, 5, 5, "Agreed")),
        56 => Some(describe(true, true, 5, 5, "Prior to First Read - Agreed")),
        57 => Some(describe(true, true, 5, 5, "Customer Class")),
        58 => Some(describe(true, true, 5, 5, "Zero")),
        61 => Some(describe(true, true, 6, 6, "Previous Year")),
        62 => Some(describe(true, true, 6, 6, "Previous Read")),
        63 => Some(describe(true, true, 6, 6, "Customer Class")),
        64 => Some(describe(false, true, 6, 6, "Agreed")),
        65 => Some(describe(true, false, 6, 6, "ADL")),
        66 => Some(describe(false, true, 6, 6, "Revision")),
        67 => Some(describe(false, true, 6, 6, "Customer Read")),
        68 => Some(describe(true, true, 6, 6, "Zero")),
        71 => Some(describe(false, true, 7, 7, "Recalculation")),
        72 => Some(describe(false, true, 7, 7, "Revised Table")),
        73 => Some(describe(false, true, 7, 7, "Revised Algorithm")),
        74 => Some(describe(false, true, 7, 7, "Agreed")),
        75 => Some(describe(true, false, 7, 7, "Existing Table")),
        _ => None,
    }
}

/// What is known of a data stream suffix: the kind of stream, the direction
/// of the flow or the quantity, and the unit.
#[derive(Clone, Copy, Debug, PartialEq, Eq)]
pub struct DataStreamSuffix {
    pub stream: &'static str,
    pub description: &'static str,
    pub units: &'static str,
}

/// A data stream of the kind `stream` for the quantity `description`,
/// measured in `units`.
pub open spec fn stream_meta(
    stream: &'static str,
    description: &'static str,
    units: &'static str,
) -> DataStreamSuffix {
    DataStreamSuffix { stream, description, units }
}

/// What is known of the data stream suffix that the letter `code` writes.
pub open spec fn data_stream_suffix_of(code: u8) -> Option<DataStreamSuffix> {
    match code {
        65 => Some(stream_meta("Average", "Import", "kWh")),
        68 => Some(stream_meta("Average", "Export", "kWh")),
        74 => Some(stream_meta("Average", "Import", "kVArh")),
        80 => Some(stream_meta("Average", "Export", "kVArh")),
        83 => Some(stream_meta("Average", "", "kVAh")),
        66 => Some(stream_meta("Master", "Import", "kWh")),
        69 => Some(stream_meta("Master", "Export", "kWh")),
        75 => Some(stream_meta("Master", "Import", "kVArh")),
        81 => Some(stream_meta("Master", "Export", "kVArh")),
        84 => Some(stream_meta("Master", "", "kVAh")),
        71 => Some(stream_meta("Master", "Power Factor", "PF")),
        72 => Some(stream_meta("Master", "Q Metering", "Qh")),
        77 => Some(stream_meta("Master", "Par Metering", "parh")),
        86 => Some(stream_meta("Master", "Volts or V2h or Amps or A2h", "")),
        67 => Some(stream_meta("Check", "Import", "kWh")),
        70 => Some(stream_meta("Check", "Export", "kWh")),
        76 => Some(stream_meta("Check", "Import", "kVArh")),
        82 => Some(stream_meta("Check", "Export", "kVArh")),
        85 => Some(stream_meta("Check", "", "kVAh")),
        89 => Some(stream_meta("Check", "Q Metering", "Qh")),
        87 => Some(stream_meta("Check", "Par Metering Path", "")),
        90 => Some(stream_meta("Check", "Volts or V2h or Amps or A2h", "")),
        _ => None,
    }
}

fn describe_stream(stream: &'static str, description: &'static str, units: &'static str) -> (meta:
    DataStreamSuffix)
    ensures
        meta == stream_meta(stream, description, units),
{
    DataStreamSuffix { stream, description, units }
}

/// Looks up what is known of the data stream suffix that the letter `code`
/// writes.
pub fn data_stream_suffix(code: u8) -> (meta: Option<DataStreamSuffix>)
    ensures
        meta == data_stream_suffix_of(code),
{
    match code {
        65 => Some(describe_stream("Average", "Import", "kWh")),
        68 => Some(describe_stream("Average", "Export", "kWh")),
        74 => Some(describe_stream("Average", "Import", "kVArh")),
        80 => Some(describe_stream("Average", "Export", "kVArh")),
        83 => Some(describe_stream("Average", "", "kVAh")),
        66 => Some(describe_stream("Master", "Import", "kWh")),
        69 => Some(describe_stream("Master", "Export", "kWh")),
        75 => Some(describe_stream("Master", "Import", "kVArh")),
        81 => Some(describe_stream("Master", "Export", "kVArh")),
        84 => Some(describe_stream("Master", "", "kVAh")),
        71 => Some(describe_stream("Master", "Power Factor", "PF")),
        72 => Some(describe_stream("Master", "Q Metering", "Qh")),
        77 => Some(describe_stream("Master", "Par Metering", "parh")),
        86 => Some(describe_stream("Master", "Volts or V2h or Amps or A2h", "")),
        67 => Some(describe_stream("Check", "Import", "kWh")),
        70 => Some(describe_stream("Check", "Export", "kWh")),
        76 => Some(describe_stream("Check", "Import", "kVArh")),
        82 => Some(describe_stream("Check", "Export", "kVArh")),
        85 => Some(describe_stream("Check", "", "kVAh")),
        89 => Some(describe_stream("Check", "Q Metering", "Qh")),
        87 => Some(describe_stream("Check", "Par Metering Path", "")),
        90 => Some(describe_stream("Check", "Volts or V2h or Amps or A2h", "")),
        _ => None,
    }
}

/// What is known of a unit of measure: its name, and how many of the base
/// unit one of it is.
#[derive(Clone, Copy, Debug, PartialEq, Eq)]
pub struct UomMeta {
    pub name: &'static str,
    pub multiplier: u32,
}

/// What is known of the unit of measure that `unit` writes. The case of the
/// letters does not count.
pub open spec fn uom_of(unit: Seq<u8>) -> Option<UomMeta> {
    if same_ignoring_case(unit, "MWh".spec_bytes()) {
        Some(UomMeta { name: "Megawatt Hour", multiplier: 1000000 })
    } else if same_ignoring_case(unit, "kWh".spec_bytes()) {
        Some(UomMeta { name: "Kilowatt Hour", multiplier: 1000 })
    } else if same_ignoring_case(unit, "Wh".spec_bytes()) {
        Some(UomMeta { name: "Watt Hour", multiplier: 1 })
    } else if same_ignoring_case(unit, "MW".spec_bytes()) {
        Some(UomMeta { name: "Megawatt", multiplier: 1000000 })
    } else if same_ignoring_case(unit, "kW".spec_bytes()) {
        Some(UomMeta { name: "Kilowatt", multiplier: 1000 })
    } else if same_ignoring_case(unit, "W".spec_bytes()) {
        Some(UomMeta { name: "Watt", multiplier: 1 })
    } else if same_ignoring_case(unit, "MVArh".spec_bytes()) {
        Some(UomMeta { name: "Megavolt Ampere Reactive Hour", multiplier: 1000000 })
    } else if same_ignoring_case(unit, "kVArh".spec_bytes()) {
        Some(UomMeta { name: "Kilovolt Ampere Reactive Hour", multiplier: 1000 })
    } else if same_ignoring_case(unit, "VArh".spec_bytes()) {
        Some(UomMeta { name: "Volt Ampere Reactive Hour", multiplier: 1 })
    } else if same_ignoring_case(unit, "MVAr".spec_bytes()) {
        Some(UomMeta { name: "Megavolt Ampere Reactive", multiplier: 1000000 })
    } else if same_ignoring_case(unit, "kVAr".spec_bytes()) {
        Some(UomMeta { name: "Kilovolt Ampere Reactive", multiplier: 1000 })
    } else if same_ignoring_case(unit, "VAr".spec_bytes()) {
        Some(UomMeta { name: "Volt Ampere Reactive", multiplier: 1 })
    } else if same_ignoring_case(unit, "MVAh".spec_bytes()) {
        Some(UomMeta { name: "Megavolt Ampere Hour", multiplier: 1000000 })
    } else if same_ignoring_case(unit, "kVAh".spec_bytes()) {
        Some(UomMeta { name: "Kilovolt Ampere Hour", multiplier: 1000 })
    } else if same_ignoring_case(unit, "VAh".spec_bytes()) {
        Some(UomMeta { name: "Volt Ampere Hour", multiplier: 1 })
    } else if same_ignoring_case(unit, "MVA".spec_bytes()) {
        Some(UomMeta { name: "Megavolt Ampere", multiplier: 1000000 })
    } else if same_ignoring_case(unit, "kVA".spec_bytes()) {
        Some(UomMeta { name: "Kilovolt Ampere", multiplier: 1000 })
    } else if same_ignoring_case(unit, "VA".spec_bytes()) {
        Some(UomMeta { name: "Volt Ampere", multiplier: 1 })
    } else if same_ignoring_case(unit, "kV".spec_bytes()) {
        Some(UomMeta { name: "Kilovolt", multiplier: 1000 })
    } else if same_ignoring_case(unit, "V".spec_bytes()) {
        Some(UomMeta { name: "Volt", multiplier: 1 })
    } else if same_ignoring_case(unit, "kA".spec_bytes()) {
        Some(UomMeta { name: "Kiloampere", multiplier: 1000 })
    } else if same_ignoring_case(unit, "A".spec_bytes()) {
        Some(UomMeta { name: "Ampere", multiplier: 1 })
    } else if same_ignoring_case(unit, "pf".spec_bytes()) {
        Some(UomMeta { name: "Power Factor", multiplier: 1 })
    } else {
        None
    }
}

/// Looks up what is known of the unit of measure that `unit` writes.
pub fn uom(unit: &[u8]) -> (meta: Option<UomMeta>)
    ensures
        meta == uom_of(unit@),
{
    if bytes_eq_ignoring_case(unit, "MWh".as_bytes()) {
        Some(UomMeta { name: "Megawatt Hour", multiplier: 1000000 })
    } else if bytes_eq_ignoring_case(unit, "kWh".as_bytes()) {
        Some(UomMeta { name: "Kilowatt Hour", multiplier: 1000 })
    } else if bytes_eq_ignoring_case(unit, "Wh".as_bytes()) {
        Some(UomMeta { name: "Watt Hour", multiplier: 1 })
    } else if bytes_eq_ignoring_case(unit, "MW".as_bytes()) {
        Some(UomMeta { name: "Megawatt", multiplier: 1000000 })
    } else if bytes_eq_ignoring_case(unit, "kW".as_bytes()) {
        Some(UomMeta { name: "Kilowatt", multiplier: 1000 })
    } else if bytes_eq_ignoring_case(unit, "W".as_bytes()) {
        Some(UomMeta { name: "Watt", multiplier: 1 })
    } else if bytes_eq_ignoring_case(unit, "MVArh".as_bytes()) {
        Some(UomMeta { name: "Megavolt Ampere Reactive Hour", multiplier: 1000000 })
    } else if bytes_eq_ignoring_case(unit, "kVArh".as_bytes()) {
        Some(UomMeta { name: "Kilovolt Ampere Reactive Hour", multiplier: 1000 })
    } else if bytes_eq_ignoring_case(unit, "VArh".as_bytes()) {
        Some(UomMeta { name: "Volt Ampere Reactive Hour", multiplier: 1 })
    } else if bytes_eq_ignoring_case(unit, "MVAr".as_bytes()) {
        Some(UomMeta { name: "Megavolt Ampere Reactive", multiplier: 1000000 })
    } else if bytes_eq_ignoring_case(unit, "kVAr".as_bytes()) {
        Some(UomMeta { name: "Kilovolt Ampere Reactive", multiplier: 1000 })
    } else if bytes_eq_ignoring_case(unit, "VAr".as_bytes()) {
        Some(UomMeta { name: "Volt Ampere Reactive", multiplier: 1 })
    } else if bytes_eq_ignoring_case(unit, "MVAh".as_bytes()) {
        Some(UomMeta { name: "Megavolt Ampere Hour", multiplier: 1000000 })
    } else if bytes_eq_ignoring_case(unit, "kVAh".as_bytes()) {
        Some(UomMeta { name: "Kilovolt Ampere Hour", multiplier: 1000 })
    } else if bytes_eq_ignoring_case(unit, "VAh".as_bytes()) {
        Some(UomMeta { name: "Volt Ampere Hour", multiplier: 1 })
    } else if bytes_eq_ignoring_case(unit, "MVA".as_bytes()) {
        Some(UomMeta { name: "Megavolt Ampere", multiplier: 1000000 })
    } else if bytes_eq_ignoring_case(unit, "kVA".as_bytes()) {
        Some(UomMeta { name: "Kilovolt Ampere", multiplier: 1000 })
    } else if bytes_eq_ignoring_case(unit, "VA".as_bytes()) {
        Some(UomMeta { name: "Volt Ampere", multiplier: 1 })
    } else if bytes_eq_ignoring_case(unit, "kV".as_bytes()) {
        Some(UomMeta { name: "Kilovolt", multiplier: 1000 })
    } else if bytes_eq_ignoring_case(unit, "V".as_bytes()) {
        Some(UomMeta { name: "Volt", multiplier: 1 })
    } else if bytes_eq_ignoring_case(unit, "kA".as_bytes()) {
        Some(UomMeta { name: "Kiloampere", multiplier: 1000 })
    } else if bytes_eq_ignoring_case(unit, "A".as_bytes()) {
        Some(UomMeta { name: "Ampere", multiplier: 1 })
    } else if bytes_eq_ignoring_case(unit, "pf".as_bytes()) {
        Some(UomMeta { name: "Power Factor", multiplier: 1 })
    } else {
        None
    }
}

} // verus!
