use textutils::cat::{cat_output, Config};
use textutils::errors::{OpenCause, UtilError};
use textutils::head::read_lines;

fn lines(items: &[&str]) -> Vec<String> {
    items.iter().map(|s| s.to_string()).collect()
}

#[test]
fn number_all_lines_in_order() {
    let (out, next) = cat_output(&lines(&["x", "y", "z"]), true, false, 1);
    assert_eq!(out, vec!["     1\tx", "     2\ty", "     3\tz"]);
    assert_eq!(next, 4);
}

#[test]
fn number_nonblank_skips_blank_lines() {
    let input = read_lines(&b"a\n\nb\n".to_vec());
    let (out, next) = cat_output(&input, false, true, 1);
    assert_eq!(out, vec!["     1\ta", "", "     2\tb"]);
    assert_eq!(next, 3);
}

#[test]
fn number_all_numbers_blank_lines_too() {
    let (out, next) = cat_output(&lines(&["a", "", "b"]), true, false, 1);
    assert_eq!(out, vec!["     1\ta", "     2\t", "     3\tb"]);
    assert_eq!(next, 4);
}

#[test]
fn no_numbering_passes_lines_through() {
    let input = lines(&["plain", "", "text"]);
    let (out, next) = cat_output(&input, false, false, 1);
    assert_eq!(out, input);
    assert_eq!(next, 1);
}

#[test]
fn numbering_continues_across_inputs() {
    let (first, next) = cat_output(&lines(&["a", "b"]), true, false, 1);
    let (second, after) = cat_output(&lines(&["c"]), true, false, next);
    assert_eq!(first, vec!["     1\ta", "     2\tb"]);
    assert_eq!(second, vec!["     3\tc"]);
    assert_eq!(after, 4);
}

#[test]
fn numbering_config_carries_modes() {
    let c = Config {
        files: vec!["-".to_string()],
        number_lines: true,
        number_nonblank_lines: false,
    };
    assert!(c.number_lines);
    assert!(!c.number_nonblank_lines);
}

#[test]
fn open_failure_message_names_the_input() {
    let e = UtilError::Open { name: "missing.txt".to_string(), cause: OpenCause::NotFound };
    assert_eq!(e.message(), "missing.txt: No such file or directory");
    let e = UtilError::Open { name: "secret".to_string(), cause: OpenCause::PermissionDenied };
    assert_eq!(e.message(), "secret: Permission denied");
    let e = UtilError::Open { name: "d".to_string(), cause: OpenCause::IsDirectory };
    assert_eq!(e.message(), "d: Is a directory");
    let e = UtilError::Open { name: "odd".to_string(), cause: OpenCause::Other };
    assert_eq!(e.message(), "odd: cannot be opened");
}

#[test]
fn read_failure_message_names_the_input() {
    let e = UtilError::Io { name: "flaky".to_string() };
    assert_eq!(e.message(), "flaky: read failed");
    assert_eq!(UtilError::Config.message(), "invalid configuration");
}
