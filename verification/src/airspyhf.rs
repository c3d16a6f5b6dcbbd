//! Airspy HF+ / HF+ Discovery (USB 03eb:800c).

use crate::demod::fm;
use crate::demod::fm::{
    centered_iq_settings_with_rates, DemodConfig, RadioConfig, MPX_SAMPLE_RATE,
};
use crate::text;
use vstd::prelude::*;
use vstd::string::*;

verus! {

pub const VID: u16 = 0x03eb;

pub const PID: u16 = 0x800c;

/// Vendor and product of a USB device.
#[derive(Clone, Copy, Debug, PartialEq, Eq, Structural)]
pub struct UsbId {
    pub vendor: u16,
    pub product: u16,
}

/// The device is an HF+.
pub open spec fn is_hf(id: UsbId) -> bool {
    id.vendor == VID && id.product == PID
}

/// The number of HF+ among the devices.
pub open spec fn hf_count(devices: Seq<UsbId>) -> int {
    devices.filter(|id: UsbId| is_hf(id)).len() as int
}

/// Counts the HF+ among the devices on the bus.
pub fn usb_count(devices: &Vec<UsbId>) -> (n: usize)
    ensures
        n == hf_count(devices@),
{
    let mut n: usize = 0;
    let mut i: usize = 0;
    let ghost keep = |id: UsbId| is_hf(id);
    assert(devices@.take(0).filter(keep).len() == 0) by {
        reveal(Seq::filter);
    }
    while i < devices.len()
        invariant
            i <= devices@.len(),
            keep == (|id: UsbId| is_hf(id)),
            n == devices@.take(i as int).filter(keep).len(),
            n <= i,
        decreases devices@.len() - i,
    {
        proof {
            reveal(Seq::filter);
            assert(devices@.take(i + 1).drop_last() =~= devices@.take(i as int));
        }
        if devices[i].vendor == VID && devices[i].product == PID {
            n = n + 1;
        }
        i = i + 1;
    }
    assert(devices@.take(i as int) =~= devices@);
    n
}

/// The number of HF+: what the driver reports, or what the bus shows where the
/// driver reports none.
pub fn list_devices(driver_count: i32, usb: usize) -> (n: usize)
    ensures
        n == (if driver_count > 0 {
            driver_count as int
        } else {
            usb as int
        }),
{
    if driver_count > 0 {
        driver_count as usize
    } else {
        usb
    }
}

/// The rate and the downsampling factor closest to the multiplex rate of the
/// demodulator.
pub fn hf_settings_for_mpx(freq_hz: u32, supported: &[u32]) -> (r: (RadioConfig, DemodConfig))
    requires
        supported@.len() == 0 ==> fm::settings_fit(freq_hz as int, MPX_SAMPLE_RATE as int),
    ensures
        fm::is_closest(freq_hz, MPX_SAMPLE_RATE, supported@, r),
{
    centered_iq_settings_with_rates(freq_hz, MPX_SAMPLE_RATE, supported)
}

/// The largest attenuator setting.
pub const MAX_ATTENUATION: i32 = 48;

/// The attenuator setting for a gain; a negative gain leaves it to the
/// hardware.
pub fn attenuation(gain_db: i32) -> (r: Option<u8>)
    ensures
        gain_db < 0 ==> r == None::<u8>,
        gain_db >= 0 ==> (r matches Some(att) && att == (if gain_db / 6 < MAX_ATTENUATION {
            gain_db / 6
        } else {
            MAX_ATTENUATION as int
        })),
{
    if gain_db < 0 {
        None
    } else if gain_db / 6 < MAX_ATTENUATION {
        Some((gain_db / 6) as u8)
    } else {
        Some(48)
    }
}

/// What a return code of the driver means.
pub open spec fn hf_error_text(rc: int) -> Seq<char> {
    if rc == 0 {
        "success"@
    } else if rc == -1 {
        "Airspy HF+ I/O error (device busy or unplugged?)"@
    } else {
        "Airspy HF+ error ("@ + text::signed_decimal(rc) + ")"@
    }
}

/// Describes a return code of the driver.
pub fn format_hf_error(rc: i32) -> (r: String)
    ensures
        r@ == hf_error_text(rc as int),
{
    if rc == 0 {
        "success".to_owned()
    } else if rc == -1 {
        "Airspy HF+ I/O error (device busy or unplugged?)".to_owned()
    } else {
        let mut out: String = "Airspy HF+ error (".to_owned();
        text::push_signed(&mut out, rc);
        out.append(")");
        out
    }
}

/// What is said where the driver is missing.
pub open spec fn missing_lib_text() -> Seq<char> {
    "Airspy HF+ detected but libairspyhf is not available.\nmacOS: brew install airspyhf\nLinux: sudo apt install libairspyhf-dev"@
}

/// What to say where the driver is missing.
pub fn missing_lib_message() -> (r: &'static str)
    ensures
        r@ == missing_lib_text(),
{
    "Airspy HF+ detected but libairspyhf is not available.\nmacOS: brew install airspyhf\nLinux: sudo apt install libairspyhf-dev"
}

/// Each device adds one to the count if it has both numbers of an HF+, and nothing
/// otherwise.
pub proof fn lemma_count_one_more(devices: Seq<UsbId>, id: UsbId)
    ensures
        hf_count(seq![]) == 0,
        id.vendor == 0x03eb && id.product == 0x800c ==> hf_count(devices.push(id)) == hf_count(
            devices,
        ) + 1,
        !(id.vendor == 0x03eb && id.product == 0x800c) ==> hf_count(devices.push(id)) == hf_count(
            devices,
        ),
{
    reveal(Seq::filter);
    assert(devices.push(id).drop_last() =~= devices);
}

/// What is said of the codes of the driver: two of them have texts of their own,
/// the others are named.
pub proof fn lemma_hf_errors(rc: int)
    ensures
        hf_error_text(0) == "success"@,
        hf_error_text(-1) == "Airspy HF+ I/O error (device busy or unplugged?)"@,
        rc != 0 && rc != -1 ==> hf_error_text(rc) == "Airspy HF+ error ("@ + text::signed_decimal(
            rc,
        ) + ")"@,
{
}

/// The attenuator goes up to 48.
pub proof fn lemma_attenuator()
    ensures
        MAX_ATTENUATION == 48,
{
}

/// Each step of the attenuator stands for six units of gain, rounded down, up to the
/// last step. It is left to the hardware exactly for a negative gain.
pub proof fn lemma_attenuation(gain_db: i32, r: Option<u8>)
    requires
        call_ensures(attenuation, (gain_db,), r),
    ensures
        r is None <==> gain_db < 0,
        r matches Some(att) ==> {
            &&& att <= 48
            &&& 6 * att <= gain_db
            &&& att < 48 ==> gain_db < 6 * att + 6
        },
{
}

/// What the driver reports goes before what the bus shows, unless it reports none.
pub proof fn lemma_listed(driver_count: i32, usb: usize, n: usize)
    requires
        call_ensures(list_devices, (driver_count, usb), n),
    ensures
        driver_count >= 1 ==> n == driver_count,
        driver_count <= 0 ==> n == usb,
{
}

} // verus!
