use vm_inventory::execute::{get_euid, get_permission_valid, CommandResult, NO_STATUS};

fn result(stdout: &str, stderr: &str, status: i32) -> CommandResult {
    CommandResult { stdout: stdout.to_string(), stderr: stderr.to_string(), status }
}

#[test]
fn from_output_decodes_both_streams() {
    let r = CommandResult::from_output(b"out\n", b"err\n", Some(3));
    assert_eq!(r, result("out\n", "err\n", 3));
}

#[test]
fn from_output_replaces_bytes_that_are_not_utf8() {
    let r = CommandResult::from_output(&[0x66, 0xff, 0x6f], &[0xc3, 0xa9, 0x80], Some(0));
    assert_eq!(r.stdout, "f\u{fffd}o");
    assert_eq!(r.stderr, "\u{e9}\u{fffd}");
    assert_eq!(r.status, 0);
}

#[test]
fn from_output_without_a_code_reports_minus_one() {
    let r = CommandResult::from_output(b"", b"", None);
    assert_eq!(r.status, -1);
    assert_eq!(NO_STATUS, -1);
    assert_eq!(r.stdout, "");
    assert_eq!(r.stderr, "");
}

#[test]
fn empty_result_has_no_output_and_status_zero() {
    assert_eq!(CommandResult::empty(), result("", "", 0));
}

#[test]
fn complaint_quotes_the_error_stream() {
    assert_eq!(result("x", "", 1).complaint(), None);
    assert_eq!(
        result("", "error: failed to get domain 'x'\n", 1).complaint(),
        Some("Error: error: failed to get domain 'x'\n".to_string())
    );
    assert_eq!(result("x", "warn", 0).complaint(), Some("Error: warn".to_string()));
}

#[test]
fn get_euid_reads_the_number() {
    assert_eq!(get_euid(&result("0\n", "", 0)), Some(0));
    assert_eq!(get_euid(&result("1000\n", "", 0)), Some(1000));
    assert_eq!(get_euid(&result("  42  ", "", 0)), Some(42));
    assert_eq!(get_euid(&result("4294967295", "", 0)), Some(u32::MAX));
}

#[test]
fn get_euid_of_a_failed_or_unreadable_probe_is_none() {
    assert_eq!(get_euid(&result("0\n", "", 1)), None);
    assert_eq!(get_euid(&result("0\n", "", -1)), None);
    assert_eq!(get_euid(&result("root\n", "", 0)), None);
    assert_eq!(get_euid(&result("", "", 0)), None);
    assert_eq!(get_euid(&result("-1", "", 0)), None);
    assert_eq!(get_euid(&result("4294967296", "", 0)), None);
    assert_eq!(get_euid(&result("0 0", "", 0)), None);
}

#[test]
fn permission_is_valid_for_the_superuser_only() {
    assert!(get_permission_valid(&result("0\n", "", 0)));
    assert!(get_permission_valid(&result("0", "ignored", 0)));
    assert!(!get_permission_valid(&result("1000\n", "", 0)));
    assert!(!get_permission_valid(&result("1\n", "", 0)));
}

#[test]
fn permission_is_refused_for_a_nonzero_status() {
    assert!(!get_permission_valid(&result("0\n", "", 1)));
    assert!(!get_permission_valid(&result("0\n", "", 127)));
    assert!(!get_permission_valid(&result("0\n", "", -1)));
}

#[test]
fn permission_is_refused_for_an_unparsable_probe() {
    assert!(!get_permission_valid(&result("root\n", "", 0)));
    assert!(!get_permission_valid(&result("", "", 0)));
    assert!(!get_permission_valid(&result("zero", "", 0)));
    assert!(!get_permission_valid(&result("0x0", "", 0)));
}
