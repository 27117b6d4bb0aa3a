//! The capture of sound: the choice of a device, the cap on a recording, and
//! when there is enough to look at.
use vstd::prelude::*;
use crate::text;

verus! {

/// The longest recording, in seconds. What comes later is dropped.
pub const MAX_RECORDING_SECS: u32 = 600;

#[derive(Debug, Clone)]
pub struct MicDevice {
    pub name: String,
    pub is_default: bool,
}

/// The devices with the given names, the default one marked. Where the host
/// names no default, none is.
pub fn mic_devices(names: &[String], default_name: &str) -> (r: Vec<MicDevice>)
    ensures
        r.len() == names@.len(),
        forall|i: int|
            0 <= i < r.len() ==> (#[trigger] r[i]).name@ == names@[i]@ && r[i].is_default == (
            default_name@.len() > 0 && names@[i]@ == default_name@),
{
    let mut out: Vec<MicDevice> = Vec::new();
    let mut i: usize = 0;
    while i < names.len()
        invariant
            i <= names@.len(),
            out.len() == i,
            forall|j: int|
                0 <= j < i ==> (#[trigger] out[j]).name@ == names@[j]@ && out[j].is_default == (
                default_name@.len() > 0 && names@[j]@ == default_name@),
        decreases names@.len() - i,
    {
        let is_default = !default_name.is_empty() && text::same_text(
            names[i].as_str(),
            default_name,
        );
        out.push(MicDevice { name: names[i].clone(), is_default });
        i += 1;
    }
    out
}

/// The device that is opened: the host's default, or one of its devices by
/// position.
#[derive(Debug, Clone, Copy, PartialEq, Eq, Structural)]
pub enum DeviceChoice {
    Default,
    Device(usize),
}

/// The first of the devices that has a name, some of which have none.
pub open spec fn first_named(devices: Seq<Option<String>>, name: Seq<char>, i: int) -> Option<int>
    decreases devices.len() - i,
{
    if i < 0 || i >= devices.len() {
        None
    } else if devices[i] matches Some(n) && n@ == name {
        Some(i)
    } else {
        first_named(devices, name, i + 1)
    }
}

/// The message of a device that is not there.
pub open spec fn not_found(name: Seq<char>) -> Seq<char> {
    "Microphone '"@ + name + "' not found"@
}

/// The device to open for a setting. `default` is the host's default device;
/// any other is the first device of that name. The list of devices may itself
/// be an error.
pub fn choose_device(
    mic_name: &str,
    has_default: bool,
    devices: Result<Vec<Option<String>>, String>,
) -> (r: Result<DeviceChoice, String>)
    ensures
        mic_name@ == "default"@ ==> match r {
            Ok(c) => has_default && c == DeviceChoice::Default,
            Err(e) => !has_default && e@ == "No default input device found"@,
        },
        mic_name@ != "default"@ ==> match devices {
            Err(e) => r == Err::<DeviceChoice, String>(e),
            Ok(ds) => match r {
                Ok(c) => first_named(ds@, mic_name@, 0) matches Some(i) && c
                    == DeviceChoice::Device(i as usize) && i <= usize::MAX,
                Err(e) => first_named(ds@, mic_name@, 0) is None && e@ == not_found(mic_name@),
            },
        },
{
    if text::same_text(mic_name, "default") {
        if has_default {
            return Ok(DeviceChoice::Default);
        }
        return Err("No default input device found".to_owned());
    }
    let ds = match devices {
        Ok(ds) => ds,
        Err(e) => {
            return Err(e);
        },
    };
    let mut i: usize = 0;
    while i < ds.len()
        invariant
            i <= ds.len(),
            mic_name@ != "default"@,
            devices == Ok::<Vec<Option<String>>, String>(ds),
            first_named(ds@, mic_name@, 0) == first_named(ds@, mic_name@, i as int),
        decreases ds.len() - i,
    {
        if let Some(n) = &ds[i] {
            if text::same_text(n.as_str(), mic_name) {
                return Ok(DeviceChoice::Device(i));
            }
        }
        i += 1;
    }
    let head = text::concat("Microphone '", mic_name);
    Err(text::concat(head.as_str(), "' not found"))
}

/// The most samples that one recording holds.
pub open spec fn cap(sample_rate: u32, channels: u16) -> int {
    sample_rate * channels * 600
}

/// The most samples that one recording holds.
pub fn max_samples(sample_rate: u32, channels: u16) -> (r: u64)
    ensures
        r == cap(sample_rate, channels),
{
    assert(sample_rate * channels <= 0xffff_ffff * 0xffff) by (nonlinear_arith)
        requires
            sample_rate <= 0xffff_ffff,
            channels <= 0xffff,
    ;
    let per_second: u64 = sample_rate as u64 * channels as u64;
    let secs: u64 = MAX_RECORDING_SECS as u64;
    assert(per_second * secs == per_second * 600 && per_second * 600 <= u64::MAX) by (
    nonlinear_arith)
        requires
            secs == 600,
            per_second <= 0xffff_ffff * 0xffff,
    ;
    per_second * secs
}

/// How many of the samples that come in are taken, and whether the cap was
/// reached.
pub open spec fn admitted(held: int, incoming: int, max: int) -> (int, bool) {
    if held >= max {
        (0, true)
    } else if held + incoming > max {
        (max - held, true)
    } else {
        (incoming, false)
    }
}

/// How many of the samples that come in are taken into a buffer that holds
/// some already, and whether the cap was reached.
pub fn take_in(held: u64, incoming: u64, max: u64) -> (r: (u64, bool))
    ensures
        r.0 == admitted(held as int, incoming as int, max as int).0,
        r.1 == admitted(held as int, incoming as int, max as int).1,
{
    if held >= max {
        return (0, true);
    }
    let remaining: u64 = max - held;
    if incoming > remaining {
        (remaining, true)
    } else {
        (incoming, false)
    }
}

/// A buffer never grows beyond the cap, nothing is taken that did not come,
/// and what is dropped is told.
pub proof fn law_cap_holds(held: int, incoming: int, max: int)
    requires
        0 <= held <= max,
        0 <= incoming,
    ensures
        held + admitted(held, incoming, max).0 <= max,
        0 <= admitted(held, incoming, max).0 <= incoming,
        admitted(held, incoming, max).0 < incoming ==> admitted(held, incoming, max).1,
{
}

/// The fewest samples that are worth a look: half a second.
pub open spec fn half_second(sample_rate: u32, channels: u16) -> int {
    (sample_rate / 2) * channels
}

/// Whether a recording under way holds enough to be looked at.
pub fn can_peek(held: u64, sample_rate: u32, channels: u16) -> (r: bool)
    ensures
        r == (held >= half_second(sample_rate, channels)),
{
    assert((sample_rate / 2) * channels <= 0xffff_ffff * 0xffff) by (nonlinear_arith)
        requires
            sample_rate / 2 <= 0xffff_ffff,
            channels <= 0xffff,
    ;
    held >= (sample_rate / 2) as u64 * channels as u64
}

/// The length of what was captured, in milliseconds; 0 where the format is not
/// known.
pub fn buffer_ms(held: u64, sample_rate: u32, channels: u16) -> (r: u64)
    requires
        held * 1000 <= u64::MAX,
    ensures
        r == (if sample_rate * channels == 0 {
            0
        } else {
            held as int * 1000 / (sample_rate * channels)
        }),
{
    assert(sample_rate * channels <= 0xffff_ffff * 0xffff) by (nonlinear_arith)
        requires
            sample_rate <= 0xffff_ffff,
            channels <= 0xffff,
    ;
    let per_second: u64 = sample_rate as u64 * channels as u64;
    if per_second == 0 {
        0
    } else {
        held * 1000 / per_second
    }
}

/// A capture: whether it runs, in what format, and whether it reached the cap.
#[verifier::ext_equal]
pub struct Capturing {
    pub running: bool,
    pub sample_rate: u32,
    pub channels: u16,
    pub hit_cap: bool,
}

pub struct CaptureState {
    running: bool,
    sample_rate: u32,
    channels: u16,
    hit_cap: bool,
}

impl View for CaptureState {
    type V = Capturing;

    closed spec fn view(&self) -> Capturing {
        Capturing {
            running: self.running,
            sample_rate: self.sample_rate,
            channels: self.channels,
            hit_cap: self.hit_cap,
        }
    }
}

impl CaptureState {
    pub fn new() -> (r: Self)
        ensures
            r@ == (Capturing { running: false, sample_rate: 48000, channels: 1, hit_cap: false }),
    {
        CaptureState { running: false, sample_rate: 48000, channels: 1, hit_cap: false }
    }

    pub fn format(&self) -> (r: (u32, u16))
        ensures
            r.0 == self@.sample_rate,
            r.1 == self@.channels,
    {
        (self.sample_rate, self.channels)
    }

    /// Whether a capture may start.
    pub fn may_start(&self) -> (r: Result<(), String>)
        ensures
            match r {
                Ok(()) => !self@.running,
                Err(e) => self@.running && e@ == "Recorder is already running"@,
            },
    {
        if self.running {
            Err("Recorder is already running".to_owned())
        } else {
            Ok(())
        }
    }

    /// Starts a capture, given the format that the device reported or its
    /// error.
    pub fn start(&mut self, device: Result<(u32, u16), String>) -> (r: Result<(), String>)
        ensures
            match r {
                Ok(()) => {
                    &&& !old(self)@.running
                    &&& device is Ok
                    &&& final(self)@ == (Capturing {
                        running: true,
                        sample_rate: device->Ok_0.0,
                        channels: device->Ok_0.1,
                        hit_cap: false,
                    })
                },
                Err(e) => if old(self)@.running {
                    e@ == "Recorder is already running"@ && final(self)@ == old(self)@
                } else {
                    device == Err::<(u32, u16), String>(e) && final(self)@ == (Capturing {
                        hit_cap: false,
                        ..old(self)@
                    })
                },
            },
    {
        if self.running {
            return Err("Recorder is already running".to_owned());
        }
        self.hit_cap = false;
        match device {
            Ok((rate, channels)) => {
                self.running = true;
                self.sample_rate = rate;
                self.channels = channels;
                Ok(())
            },
            Err(e) => Err(e),
        }
    }

    /// Notes that samples were dropped.
    pub fn reached_cap(&mut self)
        ensures
            final(self)@ == (Capturing { hit_cap: true, ..old(self)@ }),
    {
        self.hit_cap = true;
    }

    /// Ends a capture that has left `held` samples, and tells whether it
    /// reached the cap. One without samples is an error.
    pub fn stop(&mut self, held: u64) -> (r: Result<bool, String>)
        ensures
            match r {
                Ok(hit) => old(self)@.running && held > 0 && hit == old(self)@.hit_cap
                    && final(self)@ == (Capturing { running: false, hit_cap: false, ..old(self)@ }),
                Err(e) => if !old(self)@.running {
                    e@ == "Recorder is not running"@ && final(self)@ == old(self)@
                } else {
                    held == 0 && e@ == "No audio captured"@ && final(self)@ == (Capturing {
                        running: false,
                        ..old(self)@
                    })
                },
            },
    {
        if !self.running {
            return Err("Recorder is not running".to_owned());
        }
        self.running = false;
        if held == 0 {
            return Err("No audio captured".to_owned());
        }
        let hit = self.hit_cap;
        self.hit_cap = false;
        Ok(hit)
    }
}

/// How samples come to the recogniser's rate: as they are, or in chunks of
/// 1024 and what is left over.
#[derive(Debug, Clone, Copy, PartialEq, Eq, Structural)]
pub enum Resampling {
    AsIs,
    Chunks { full: usize, rest: usize },
}

/// How samples at a given rate come to the recogniser's.
pub fn resampling(samples: usize, from_rate: u32, to_rate: u32) -> (r: Resampling)
    ensures
        r == (if from_rate == to_rate {
            Resampling::AsIs
        } else {
            Resampling::Chunks { full: samples / 1024, rest: samples % 1024 }
        }),
{
    if from_rate == to_rate {
        Resampling::AsIs
    } else {
        Resampling::Chunks { full: samples / 1024, rest: samples % 1024 }
    }
}

} // verus!
