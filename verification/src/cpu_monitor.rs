//! Per-core readings of clock frequency and temperature.
//!
//! The operating system exposes the readings as small text files. This
//! module names the files and turns their contents into values; a file that
//! is missing or holds anything but a number gives no value, never an error.

use crate::clock::now;
use crate::text::{
    concat3, decimal, decimal_string, parse_i32, parse_u64, signed_within, trim, trimmed,
    unsigned_within,
};
use std::time::Instant;
use vstd::prelude::*;
use vstd::string::*;

verus! {

/// Number of thermal zone indices that discovery probes, starting at zero.
pub const THERMAL_ZONE_PROBES: usize = 20;

/// Monitor for one CPU core.
pub struct CpuMonitor {
    cpu_core: usize,
    thermal_zone: Option<usize>,
}

/// The state of a core at one moment.
#[derive(Debug, Clone, Copy)]
pub struct CpuSnapshot {
    /// When the snapshot was taken.
    pub timestamp: Instant,
    /// Clock frequency in kilohertz, where it could be read.
    pub frequency_khz: Option<u64>,
    /// Temperature in millidegrees Celsius, where it could be read.
    pub temperature_millic: Option<i32>,
}

impl Default for CpuSnapshot {
    fn default() -> (snapshot: Self)
        ensures
            snapshot.frequency_khz is None,
            snapshot.temperature_millic is None,
    {
        CpuSnapshot { timestamp: now(), frequency_khz: None, temperature_millic: None }
    }
}

/// The text `"/sys/devices/system/cpu/cpu"`, the decimal core number, and
/// `tail`.
pub open spec fn cpu_file(cpu_core: usize, tail: Seq<char>) -> Seq<char> {
    "/sys/devices/system/cpu/cpu"@ + decimal(cpu_core as nat) + tail
}

/// The file that holds the temperature of thermal zone `zone`.
pub open spec fn thermal_zone_file(zone: usize) -> Seq<char> {
    "/sys/class/thermal/thermal_zone"@ + decimal(zone as nat) + "/temp"@
}

/// The number that a reading holds: the unsigned decimal that its text
/// writes once surrounding white space is removed, if it fits in 64 bits.
pub open spec fn reading_value(content: Option<Seq<char>>) -> Option<u64> {
    match content {
        Some(text) => match unsigned_within(trimmed(text), u64::MAX as nat) {
            Some(v) => Some(v as u64),
            None => None,
        },
        None => None,
    }
}

/// The temperature that a reading holds: the signed decimal that its text
/// writes once surrounding white space is removed, if it fits in 32 bits.
pub open spec fn temperature_value(content: Option<Seq<char>>) -> Option<i32> {
    match content {
        Some(text) => match signed_within(trimmed(text), i32::MIN as int, i32::MAX as int) {
            Some(v) => Some(v as i32),
            None => None,
        },
        None => None,
    }
}

/// The indices at which `probes` holds `true`, in ascending order.
pub open spec fn present_zones(probes: Seq<bool>) -> Seq<usize>
    decreases probes.len(),
{
    if probes.len() == 0 {
        Seq::empty()
    } else if probes.last() {
        present_zones(probes.drop_last()).push((probes.len() - 1) as usize)
    } else {
        present_zones(probes.drop_last())
    }
}

/// Reads a file's content as an unsigned number.
fn parse_reading(content: Option<&str>) -> (r: Option<u64>)
    ensures
        r == reading_value(
            match content {
                Some(text) => Some(text@),
                None => None,
            },
        ),
{
    match content {
        Some(text) => {
            let body = trim(text);
            parse_u64(body.as_str())
        },
        None => None,
    }
}

impl CpuMonitor {
    /// The core that is monitored.
    pub closed spec fn monitored_core(&self) -> usize {
        self.cpu_core
    }

    /// The thermal zone that is read, if one was found.
    pub closed spec fn monitored_zone(&self) -> Option<usize> {
        self.thermal_zone
    }

    /// A monitor for `cpu_core` that reads the first of the discovered
    /// thermal zones.
    pub fn new(cpu_core: usize, thermal_zones: &Vec<usize>) -> (monitor: Self)
        ensures
            monitor.monitored_core() == cpu_core,
            monitor.monitored_zone() == if thermal_zones@.len() > 0 {
                Some(thermal_zones@[0])
            } else {
                None
            },
    {
        let thermal_zone = if thermal_zones.len() > 0 {
            Some(thermal_zones[0])
        } else {
            None
        };
        CpuMonitor { cpu_core, thermal_zone }
    }

    /// The core that is monitored.
    pub fn cpu_core(&self) -> (core: usize)
        ensures
            core == self.monitored_core(),
    {
        self.cpu_core
    }

    /// The thermal zone that is read, if one was found.
    pub fn thermal_zone(&self) -> (zone: Option<usize>)
        ensures
            zone == self.monitored_zone(),
    {
        self.thermal_zone
    }

    /// The file that holds the core's current frequency.
    pub fn frequency_path(&self) -> (path: String)
        ensures
            path@ == cpu_file(self.monitored_core(), "/cpufreq/scaling_cur_freq"@),
    {
        let number = decimal_string(self.cpu_core as u64);
        concat3("/sys/devices/system/cpu/cpu", number.as_str(), "/cpufreq/scaling_cur_freq")
    }

    /// The file that holds the core's frequency governor.
    pub fn governor_path(&self) -> (path: String)
        ensures
            path@ == cpu_file(self.monitored_core(), "/cpufreq/scaling_governor"@),
    {
        let number = decimal_string(self.cpu_core as u64);
        concat3("/sys/devices/system/cpu/cpu", number.as_str(), "/cpufreq/scaling_governor")
    }

    /// The file that holds the core's lowest frequency.
    pub fn min_frequency_path(&self) -> (path: String)
        ensures
            path@ == cpu_file(self.monitored_core(), "/cpufreq/cpuinfo_min_freq"@),
    {
        let number = decimal_string(self.cpu_core as u64);
        concat3("/sys/devices/system/cpu/cpu", number.as_str(), "/cpufreq/cpuinfo_min_freq")
    }

    /// The file that holds the core's highest frequency.
    pub fn max_frequency_path(&self) -> (path: String)
        ensures
            path@ == cpu_file(self.monitored_core(), "/cpufreq/cpuinfo_max_freq"@),
    {
        let number = decimal_string(self.cpu_core as u64);
        concat3("/sys/devices/system/cpu/cpu", number.as_str(), "/cpufreq/cpuinfo_max_freq")
    }

    /// The file that holds the temperature of thermal zone `zone`.
    pub fn thermal_zone_path(zone: usize) -> (path: String)
        ensures
            path@ == thermal_zone_file(zone),
    {
        let number = decimal_string(zone as u64);
        concat3("/sys/class/thermal/thermal_zone", number.as_str(), "/temp")
    }

    /// The file that holds the monitored temperature, if a thermal zone was
    /// found.
    pub fn temperature_path(&self) -> (path: Option<String>)
        ensures
            path is Some <==> self.monitored_zone() is Some,
            path is Some ==> path->Some_0@ == thermal_zone_file(self.monitored_zone()->Some_0),
    {
        match self.thermal_zone {
            Some(zone) => Some(Self::thermal_zone_path(zone)),
            None => None,
        }
    }

    /// Current frequency in kilohertz from the content of the frequency
    /// file; `None` where the file could not be read or holds no number.
    pub fn read_frequency(&self, content: Option<&str>) -> (khz: Option<u64>)
        ensures
            khz == reading_value(
                match content {
                    Some(text) => Some(text@),
                    None => None,
                },
            ),
    {
        parse_reading(content)
    }

    /// The governor's name from the content of the governor file, without
    /// surrounding white space.
    pub fn read_governor(&self, content: Option<&str>) -> (governor: Option<String>)
        ensures
            governor is Some <==> content is Some,
            governor is Some ==> governor->Some_0@ == trimmed(content->Some_0@),
    {
        match content {
            Some(text) => Some(trim(text)),
            None => None,
        }
    }

    /// Lowest and highest frequency in kilohertz from the contents of the
    /// two files; `None` unless both hold a number.
    pub fn read_frequency_range(&self, min_content: Option<&str>, max_content: Option<&str>) -> (range:
        Option<(u64, u64)>)
        ensures
            range == match (
                reading_value(
                    match min_content {
                        Some(text) => Some(text@),
                        None => None,
                    },
                ),
                reading_value(
                    match max_content {
                        Some(text) => Some(text@),
                        None => None,
                    },
                ),
            ) {
                (Some(min), Some(max)) => Some((min, max)),
                _ => None,
            },
    {
        let min = parse_reading(min_content);
        let max = parse_reading(max_content);
        match (min, max) {
            (Some(min), Some(max)) => Some((min, max)),
            _ => None,
        }
    }

    /// Current temperature in millidegrees Celsius from the content of the
    /// monitored zone's file; `None` where no zone was found, the file could
    /// not be read or holds no number.
    pub fn read_temperature(&self, content: Option<&str>) -> (millic: Option<i32>)
        ensures
            millic == if self.monitored_zone() is Some {
                temperature_value(
                    match content {
                        Some(text) => Some(text@),
                        None => None,
                    },
                )
            } else {
                None
            },
    {
        if self.thermal_zone.is_none() {
            return None;
        }
        match content {
            Some(text) => {
                let body = trim(text);
                parse_i32(body.as_str())
            },
            None => None,
        }
    }

    /// The thermal zones that exist, given for each probed index whether its
    /// file was found.
    pub fn discover_thermal_zones(probes: &Vec<bool>) -> (zones: Vec<usize>)
        ensures
            zones@ == present_zones(probes@),
    {
        let mut zones: Vec<usize> = Vec::new();
        let mut i: usize = 0;
        while i < probes.len()
            invariant
                i <= probes@.len(),
                zones@ == present_zones(probes@.take(i as int)),
            decreases probes@.len() - i,
        {
            proof {
                assert(probes@.take(i + 1).drop_last() =~= probes@.take(i as int));
            }
            if probes[i] {
                zones.push(i);
            }
            i += 1;
        }
        proof {
            assert(probes@.take(i as int) =~= probes@);
        }
        zones
    }
}

} // verus!
