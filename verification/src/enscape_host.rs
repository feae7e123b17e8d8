//! Why a hosted Enscape walkthrough may not start on this computer.
//!
//! A machine that cannot run the file (not Windows, a cloud-only copy, a
//! rotated card, an executable built for a different Windows system) gets one
//! fixed sentence naming the reason. The sentences are the contract.

use vstd::prelude::*;
use crate::text::{utf16_of, encode_utf16_nul};

verus! {

pub const NOT_WINDOWS: &'static str =
    "Enscape standalones only run on Windows. This computer can't open this walkthrough.";
pub const MISSING: &'static str = "This Enscape file is missing on this computer.";
pub const CLOUD: &'static str =
    "This Enscape file is online-only. Make it available on this computer, then try again.";
pub const ROTATED: &'static str = "This card is rotated. Enscape can only run inside an upright card.";
pub const BUSY: &'static str = "An Enscape walkthrough is already open. Close it before opening another.";
pub const WRONG_MACHINE: &'static str = "This Enscape standalone can't run on this computer. It was built for a different Windows system.";
pub const NO_WINDOW: &'static str =
    "Enscape started, but no window appeared. It may be incompatible with this computer.";
pub const NO_HOST: &'static str = "Enscape can't attach to this window on this computer.";
pub const OPENING: &'static str = "Opening Enscape…";

/// Seconds a started walkthrough may take to show its window.
pub const OPEN_TIMEOUT_SECS: u64 = 20;

/// Facts known before any process is created.
pub struct OpenFacts {
    pub windows: bool,
    pub exists: bool,
    pub cloud_only: bool,
    pub rotated: bool,
    pub already_open: bool,
}

/// The refusal the facts call for, checked in a fixed order: platform, then
/// presence, then cloud placeholder, then rotation, then an open walkthrough.
pub open spec fn refusal_spec(facts: OpenFacts) -> Option<&'static str> {
    if !facts.windows {
        Some(NOT_WINDOWS)
    } else if !facts.exists {
        Some(MISSING)
    } else if facts.cloud_only {
        Some(CLOUD)
    } else if facts.rotated {
        Some(ROTATED)
    } else if facts.already_open {
        Some(BUSY)
    } else {
        None
    }
}

/// The refusal names the first check that fails, in the order platform,
/// presence, cloud placeholder, rotation, open walkthrough; with every check
/// passed there is none.
pub proof fn the_first_failed_check_is_named(facts: OpenFacts)
    ensures
        !facts.windows ==> refusal_spec(facts) == Some(NOT_WINDOWS),
        facts.windows && !facts.exists ==> refusal_spec(facts) == Some(MISSING),
        facts.windows && facts.exists && facts.cloud_only ==> refusal_spec(facts) == Some(CLOUD),
        facts.windows && facts.exists && !facts.cloud_only && facts.rotated ==> refusal_spec(facts)
            == Some(ROTATED),
        facts.windows && facts.exists && !facts.cloud_only && !facts.rotated && facts.already_open
            ==> refusal_spec(facts) == Some(BUSY),
        facts.windows && facts.exists && !facts.cloud_only && !facts.rotated && !facts.already_open
            ==> refusal_spec(facts) is None,
{
}

/// Why this computer will not start the walkthrough. `None` means launch may proceed.
pub fn refusal(facts: OpenFacts) -> (r: Option<&'static str>)
    ensures
        r == refusal_spec(facts),
        r is None <==> (facts.windows && facts.exists && !facts.cloud_only && !facts.rotated
            && !facts.already_open),
{
    if !facts.windows {
        return Some(NOT_WINDOWS);
    }
    if !facts.exists {
        return Some(MISSING);
    }
    if facts.cloud_only {
        return Some(CLOUD);
    }
    if facts.rotated {
        return Some(ROTATED);
    }
    if facts.already_open {
        return Some(BUSY);
    }
    None
}

/// Win32 codes that mean the executable is not for this machine:
/// 193 is `ERROR_BAD_EXE_FORMAT`, 216 is `ERROR_EXE_MACHINE_TYPE_MISMATCH`.
pub fn machine_mismatch_message(win32_code: u32) -> (r: Option<&'static str>)
    ensures
        (win32_code == 193 || win32_code == 216) ==> r == Some(WRONG_MACHINE),
        !(win32_code == 193 || win32_code == 216) ==> r is None,
{
    if win32_code == 193 || win32_code == 216 {
        Some(WRONG_MACHINE)
    } else {
        None
    }
}

/// The 32 bits of an HRESULT, read as unsigned.
pub open spec fn hresult_bits(hresult: i32) -> u32 {
    if hresult >= 0 {
        hresult as u32
    } else {
        (hresult + 0x1_0000_0000int) as u32
    }
}

/// An HRESULT in the Win32 facility (`0x8007xxxx`) carries a Win32 code in
/// its low sixteen bits; any other value is passed through as it stands.
pub open spec fn win32_from_hresult_spec(hresult: i32) -> u32 {
    let code = hresult_bits(hresult);
    if code / 0x1_0000 == 0x8007 {
        code % 0x1_0000
    } else {
        code
    }
}

pub fn win32_from_hresult(hresult: i32) -> (r: u32)
    ensures
        r == win32_from_hresult_spec(hresult),
{
    let code: u32 = if hresult >= 0 {
        hresult as u32
    } else {
        (hresult as i64 + 0x1_0000_0000i64) as u32
    };
    assert(code & 0xFFFF_0000u32 == 0x8007_0000u32 <==> code / 0x1_0000u32 == 0x8007u32)
        by (bit_vector);
    assert(code & 0xFFFFu32 == code % 0x1_0000u32) by (bit_vector);
    if code & 0xFFFF_0000 == 0x8007_0000 {
        code & 0xFFFF
    } else {
        code
    }
}

/// Why a launch failed: an executable for a different machine, or anything
/// else with the system's own words.
pub enum LaunchError {
    WrongMachine,
    Other(String),
}

/// The error a failed process creation reports, from its HRESULT and the
/// system's message for it.
pub fn launch_error_for(hresult: i32, message: String) -> (e: LaunchError)
    ensures
        (win32_from_hresult_spec(hresult) == 193 || win32_from_hresult_spec(hresult) == 216)
            ==> e is WrongMachine,
        !(win32_from_hresult_spec(hresult) == 193 || win32_from_hresult_spec(hresult) == 216)
            ==> e == LaunchError::Other(message),
{
    let code = win32_from_hresult(hresult);
    if machine_mismatch_message(code).is_some() {
        LaunchError::WrongMachine
    } else {
        LaunchError::Other(message)
    }
}

/// Whether a walkthrough started `elapsed_secs` ago has outlived its chance
/// to show a window.
pub fn timed_out(elapsed_secs: u64, elapsed_subsec_nanos: u32) -> (r: bool)
    ensures
        r == (elapsed_secs > OPEN_TIMEOUT_SECS || (elapsed_secs == OPEN_TIMEOUT_SECS
            && elapsed_subsec_nanos > 0)),
{
    elapsed_secs > OPEN_TIMEOUT_SECS || (elapsed_secs == OPEN_TIMEOUT_SECS && elapsed_subsec_nanos
        > 0)
}

/// A NUL-terminated UTF-16 string for the Win32 wide-character APIs.
pub fn wide(value: &str) -> (w: Vec<u16>)
    ensures
        w@ == utf16_of(value@).push(0u16),
{
    encode_utf16_nul(value)
}

/// The wide form of a path, written as the path displays.
pub fn wide_path(path: &str) -> (w: Vec<u16>)
    ensures
        w@ == utf16_of(path@).push(0u16),
{
    wide(path)
}

} // verus!
