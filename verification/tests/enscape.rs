use slate::civil_date::{civil_from_days, date_stamp};
use slate::enscape_host::{
    launch_error_for, machine_mismatch_message, refusal, timed_out, wide, wide_path,
    win32_from_hresult, LaunchError, OpenFacts, WRONG_MACHINE,
};

fn facts(windows: bool) -> OpenFacts {
    OpenFacts { windows, exists: true, cloud_only: false, rotated: false, already_open: false }
}

#[test]
fn other_systems_are_told_windows_is_required() {
    let msg = refusal(facts(false)).unwrap();
    assert!(msg.contains("only run on Windows"));
    assert!(msg.contains("can't open"));
}

#[test]
fn a_missing_cloud_rotated_or_busy_file_names_the_reason() {
    let mut f = facts(true);
    f.exists = false;
    assert!(refusal(f).unwrap().contains("missing"));
    let mut f = facts(true);
    f.cloud_only = true;
    assert!(refusal(f).unwrap().contains("online-only"));
    let mut f = facts(true);
    f.rotated = true;
    assert!(refusal(f).unwrap().contains("rotated"));
    let mut f = facts(true);
    f.already_open = true;
    assert!(refusal(f).unwrap().contains("already open"));
    assert!(refusal(facts(true)).is_none());
}

#[test]
fn a_foreign_executable_is_called_out_as_the_wrong_system() {
    assert!(machine_mismatch_message(193).unwrap().contains("different Windows system"));
    assert!(machine_mismatch_message(216).unwrap().contains("different Windows system"));
    assert!(machine_mismatch_message(2).is_none());
    assert_eq!(win32_from_hresult(0x8007_00C1u32 as i32), 193);
}

#[test]
fn the_platform_is_named_before_any_other_reason() {
    let f = OpenFacts { windows: false, exists: false, cloud_only: true, rotated: true, already_open: true };
    assert!(refusal(f).unwrap().contains("only run on Windows"));
    assert_eq!(machine_mismatch_message(216), Some(WRONG_MACHINE));
}

#[test]
fn hresults_outside_the_win32_facility_pass_through() {
    assert_eq!(win32_from_hresult(0x8004_0005u32 as i32), 0x8004_0005);
    assert_eq!(win32_from_hresult(5), 5);
    assert!(matches!(launch_error_for(0x8007_00D8u32 as i32, "x".to_string()), LaunchError::WrongMachine));
    match launch_error_for(0x8007_0002u32 as i32, "not found".to_string()) {
        LaunchError::Other(m) => assert_eq!(m, "not found"),
        LaunchError::WrongMachine => panic!("a missing file is not a machine mismatch"),
    }
}

#[test]
fn a_walkthrough_times_out_after_twenty_seconds() {
    assert!(!timed_out(19, 999_999_999));
    assert!(!timed_out(20, 0));
    assert!(timed_out(20, 1));
    assert!(timed_out(21, 0));
}

#[test]
fn wide_paths_are_nul_terminated_utf16() {
    assert_eq!(wide("C:\\x"), vec![67, 58, 92, 120, 0]);
    assert_eq!(wide_path("é"), vec![0xE9, 0]);
}

#[test]
fn days_since_the_epoch_become_calendar_dates() {
    assert_eq!(civil_from_days(0), (1970, 1, 1));
    assert_eq!(civil_from_days(59), (1970, 3, 1));
    assert_eq!(civil_from_days(11_016), (2000, 2, 29));
    assert_eq!(civil_from_days(19_723), (2024, 1, 1));
    assert_eq!(civil_from_days(-1), (1969, 12, 31));
    assert_eq!(date_stamp(0), "1970-01-01");
    assert_eq!(date_stamp(1_709_164_800), "2024-02-29");
}
