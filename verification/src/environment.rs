//! What the machine says of itself before benchmarks run: the frequency
//! governor of the benchmark core, its frequencies, and the temperatures of
//! the first thermal zones.

use crate::cpu_monitor::{reading_value, temperature_value, CpuMonitor};
use crate::text::{parse_i32, text_eq, trim, trimmed};
use vstd::prelude::*;
use vstd::string::*;

verus! {

/// Number of thermal zones whose temperature is reported.
pub const REPORTED_ZONES: usize = 3;

/// The contents of the files that describe the machine; `None` where a file
/// could not be read.
#[derive(Debug, Clone)]
pub struct EnvironmentReadings {
    /// Content of the governor file of the benchmark core.
    pub governor: Option<String>,
    /// Content of the file with the core's lowest frequency.
    pub min_frequency: Option<String>,
    /// Content of the file with the core's highest frequency.
    pub max_frequency: Option<String>,
    /// Content of the file with the core's current frequency.
    pub frequency: Option<String>,
    /// The thermal zones that exist, in ascending order.
    pub zones: Vec<usize>,
    /// Contents of the temperature files of the first zones, in the order
    /// of `zones`.
    pub zone_temperatures: Vec<Option<String>>,
}

/// The governor of the benchmark core.
#[derive(Debug, Clone)]
pub struct GovernorReport {
    /// Name of the governor.
    pub name: String,
    /// Whether it is the `performance` governor. Any other deserves a
    /// warning.
    pub is_performance: bool,
}

/// Temperature of a thermal zone.
#[derive(Debug, Clone, Copy, PartialEq, Eq, Structural)]
pub struct ZoneReport {
    /// Index of the zone.
    pub zone: usize,
    /// Temperature in whole degrees Celsius, rounded towards zero.
    pub celsius: i32,
}

/// What is reported of the machine.
#[derive(Debug, Clone)]
pub struct EnvironmentReport {
    /// The governor, where it could be read.
    pub governor: Option<GovernorReport>,
    /// Lowest and highest frequency in whole megahertz, where both could be
    /// read.
    pub frequency_range_mhz: Option<(u64, u64)>,
    /// Current frequency in whole megahertz, where it could be read.
    pub frequency_mhz: Option<u64>,
    /// Number of thermal zones found.
    pub zone_count: usize,
    /// Temperatures of the first zones that could be read.
    pub zone_reports: Vec<ZoneReport>,
}

/// The text of an optional string.
pub open spec fn text_of(content: Option<String>) -> Option<Seq<char>> {
    match content {
        Some(text) => Some(text@),
        None => None,
    }
}

/// Whole degrees of a temperature in millidegrees, rounded towards zero.
pub open spec fn whole_degrees(millic: int) -> int {
    if millic >= 0 {
        millic / 1000
    } else {
        -((-millic) / 1000)
    }
}

/// Whole megahertz of a reading in kilohertz.
pub open spec fn whole_mhz(reading: Option<u64>) -> Option<u64> {
    match reading {
        Some(khz) => Some(khz / 1000),
        None => None,
    }
}

/// The content read for the zone at position `at`, `None` where none was
/// handed in.
pub open spec fn zone_content(contents: Seq<Option<String>>, at: int) -> Option<Seq<char>> {
    if 0 <= at < contents.len() {
        text_of(contents[at])
    } else {
        None
    }
}

/// The reports of the first `upto` zones: one for each zone whose content
/// holds a temperature.
pub open spec fn zone_reports_of(zones: Seq<usize>, contents: Seq<Option<String>>, upto: int) -> Seq<
    ZoneReport,
>
    recommends
        upto <= zones.len(),
    decreases upto,
{
    if upto <= 0 {
        Seq::empty()
    } else {
        let earlier = zone_reports_of(zones, contents, upto - 1);
        match temperature_value(zone_content(contents, upto - 1)) {
            Some(millic) => earlier.push(
                ZoneReport { zone: zones[upto - 1], celsius: whole_degrees(millic as int) as i32 },
            ),
            None => earlier,
        }
    }
}

/// Number of zones whose temperature is reported among `count` zones.
pub open spec fn reported_zones(count: int) -> int {
    if count < REPORTED_ZONES {
        count
    } else {
        REPORTED_ZONES as int
    }
}

/// Whether the report says of the readings what they hold.
pub open spec fn is_report_of(report: EnvironmentReport, readings: EnvironmentReadings) -> bool {
    &&& report.governor is Some <==> readings.governor is Some
    &&& report.governor is Some ==> {
        &&& report.governor->Some_0.name@ == trimmed(readings.governor->Some_0@)
        &&& report.governor->Some_0.is_performance == (trimmed(readings.governor->Some_0@)
            == "performance"@)
    }
    &&& report.frequency_range_mhz == match (
        reading_value(text_of(readings.min_frequency)),
        reading_value(text_of(readings.max_frequency)),
    ) {
        (Some(min), Some(max)) => Some(((min / 1000) as u64, (max / 1000) as u64)),
        _ => None,
    }
    &&& report.frequency_mhz == whole_mhz(reading_value(text_of(readings.frequency)))
    &&& report.zone_count == readings.zones@.len()
    &&& report.zone_reports@ == zone_reports_of(
        readings.zones@,
        readings.zone_temperatures@,
        reported_zones(readings.zones@.len() as int),
    )
}

/// The content as a borrowed text.
fn borrowed(content: &Option<String>) -> (text: Option<&str>)
    ensures
        text is Some <==> content is Some,
        text is Some ==> text->Some_0@ == content->Some_0@,
{
    match content {
        Some(text) => Some(text.as_str()),
        None => None,
    }
}

/// Whole degrees of a temperature in millidegrees, rounded towards zero.
pub fn millic_to_celsius(millic: i32) -> (celsius: i32)
    ensures
        celsius == whole_degrees(millic as int),
{
    if millic >= 0 {
        millic / 1000
    } else {
        let magnitude: i64 = 0 - (millic as i64);
        let whole: i64 = magnitude / 1000;
        (0 - whole) as i32
    }
}

/// Reports the governor, the frequencies and the temperatures that the
/// readings hold.
pub fn verify_benchmark_environment(monitor: &CpuMonitor, readings: &EnvironmentReadings) -> (report:
    EnvironmentReport)
    ensures
        is_report_of(report, *readings),
{
    let governor = match monitor.read_governor(borrowed(&readings.governor)) {
        Some(name) => {
            let is_performance = text_eq(name.as_str(), "performance");
            Some(GovernorReport { name, is_performance })
        },
        None => None,
    };
    let frequency_range_mhz = match monitor.read_frequency_range(
        borrowed(&readings.min_frequency),
        borrowed(&readings.max_frequency),
    ) {
        Some((min_khz, max_khz)) => Some((min_khz / 1000, max_khz / 1000)),
        None => None,
    };
    let frequency_mhz = match monitor.read_frequency(borrowed(&readings.frequency)) {
        Some(khz) => Some(khz / 1000),
        None => None,
    };
    let zone_count = readings.zones.len();
    let shown: usize = if zone_count < REPORTED_ZONES {
        zone_count
    } else {
        REPORTED_ZONES
    };
    let mut zone_reports: Vec<ZoneReport> = Vec::new();
    let mut i: usize = 0;
    while i < shown
        invariant
            i <= shown <= readings.zones@.len(),
            zone_reports@ == zone_reports_of(
                readings.zones@,
                readings.zone_temperatures@,
                i as int,
            ),
        decreases shown - i,
    {
        if i < readings.zone_temperatures.len() {
            match &readings.zone_temperatures[i] {
                Some(text) => {
                    let body = trim(text.as_str());
                    match parse_i32(body.as_str()) {
                        Some(millic) => {
                            zone_reports.push(
                                ZoneReport {
                                    zone: readings.zones[i],
                                    celsius: millic_to_celsius(millic),
                                },
                            );
                        },
                        None => {},
                    }
                },
                None => {},
            }
        }
        i += 1;
    }
    EnvironmentReport { governor, frequency_range_mhz, frequency_mhz, zone_count, zone_reports }
}

} // verus!
