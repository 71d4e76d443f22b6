use dsd_util::actions::{
    any_reports_update, confirms, count_updated, deploy_settled, image_name, inspect_args, logs_args, pull_reports_update, stats_args,
    INSPECT_FORMAT, STATS_FORMAT,
};
use dsd_util::printer::{color_println_fmt, Color};
use dsd_util::utils::get_timestamp;

#[test]
fn pull_update_marker_is_found() {
    assert!(pull_reports_update("Status: Downloaded newer image for nginx:latest"));
    assert!(!pull_reports_update("Status: Image is up to date for nginx:latest"));
    assert!(!pull_reports_update(""));
}

#[test]
fn deploy_settles_only_after_first_line() {
    assert!(!deploy_settled(0, "Already up to date."));
    assert!(deploy_settled(3, "git: Already up to date."));
    assert!(!deploy_settled(3, "Pulling"));
}

#[test]
fn confirmation_answers() {
    assert!(confirms("y\n"));
    assert!(confirms("  YES "));
    assert!(confirms("Yes"));
    assert!(!confirms("no"));
    assert!(!confirms(""));
    assert!(!confirms("yess"));
}

#[test]
fn image_name_is_trimmed() {
    assert_eq!(image_name("nginx:latest\n"), "nginx:latest");
}

#[test]
fn logs_args_hold_tail_in_decimal() {
    assert_eq!(logs_args("web", 100), vec!["logs", "web", "--tail", "100", "--follow"]);
    assert_eq!(logs_args("web", 0)[3], "0");
    assert_eq!(logs_args("web", 4294967295)[3], "4294967295");
}

#[test]
fn stats_args_end_with_targets() {
    let a = stats_args(&vec!["a".to_string(), "b".to_string()]);
    assert_eq!(a, vec!["stats", "--no-stream", "--format", STATS_FORMAT, "a", "b"]);
}

#[test]
fn inspect_args_put_format_last() {
    let a = inspect_args(&vec!["a".to_string()]);
    assert_eq!(a, vec!["inspect", "a", "--format", INSPECT_FORMAT]);
    assert!(INSPECT_FORMAT.starts_with("{{.Name}},{{.State.Status}},"));
}

#[test]
fn color_codes_wrap_text() {
    assert_eq!(color_println_fmt(Color::Red, "x"), "\x1b[1;31mx\x1b[0m");
    assert_eq!(color_println_fmt(Color::Green, ""), "\x1b[1;32m\x1b[0m");
    assert_eq!(Color::Blue.code(), "\x1b[1;34m");
    assert_eq!(Color::Yellow.code(), "\x1b[1;33m");
    assert_eq!(Color::Magenta.code(), "\x1b[1;35m");
    assert_eq!(Color::Cyan.code(), "\x1b[1;36m");
    assert_eq!(Color::White.code(), "\x1b[1;37m");
}

#[test]
fn timestamp_has_date_and_time_shape() {
    let t = get_timestamp();
    let b = t.as_bytes();
    assert_eq!(t.len(), 19);
    assert_eq!(b[4], b'-');
    assert_eq!(b[7], b'-');
    assert_eq!(b[10], b' ');
    assert_eq!(b[13], b':');
    assert_eq!(b[16], b':');
}

#[test]
fn any_pull_line_reporting_update() {
    let lines = vec!["Pulling from library/nginx".to_string(), "Status: Downloaded newer image for nginx".to_string()];
    assert!(any_reports_update(&lines));
    assert!(!any_reports_update(&vec!["Status: Image is up to date".to_string()]));
    assert!(!any_reports_update(&Vec::new()));
}

#[test]
fn updated_pulls_are_counted() {
    assert_eq!(count_updated(&vec![true, false, true]), 2);
    assert_eq!(count_updated(&vec![false, false]), 0);
    assert_eq!(count_updated(&Vec::new()), 0);
}
