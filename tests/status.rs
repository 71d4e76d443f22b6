use dsd_util::status::{
    correlate, correlate_snapshots, parse_inspect_data, parse_stats_data, ContainerStats,
    InspectData, StatsData, StatusError,
};
use dsd_util::table::render_header;

fn usage(name: &str, cpu: &str, memory: &str) -> StatsData {
    StatsData { container_name: name.to_string(), cpu: cpu.to_string(), memory: memory.to_string() }
}

fn inspect(name: &str, status: &str) -> InspectData {
    InspectData {
        container_name: name.to_string(),
        status: status.to_string(),
        restart_policy: "no".to_string(),
        health: "N/A".to_string(),
        uptime: "2024-01-01T00:00:00Z".to_string(),
        ports: "N/A".to_string(),
    }
}

#[test]
fn usage_line_parses_three_fields() {
    let d = parse_stats_data("web  12.3%  45.6%").ok().unwrap();
    assert_eq!(d.container_name, "web");
    assert_eq!(d.cpu, "12.3%");
    assert_eq!(d.memory, "45.6%");
}

#[test]
fn usage_line_strips_leading_slash() {
    let d = parse_stats_data("/db\t0.50%\t1.25%").ok().unwrap();
    assert_eq!(d.container_name, "db");
    assert_eq!(d.cpu, "0.50%");
    assert_eq!(d.memory, "1.25%");
}

#[test]
fn usage_line_with_missing_field_is_rejected() {
    let r = parse_stats_data("web 12.3%");
    assert!(matches!(r, Err(StatusError::MalformedUsage(ref l)) if l == "web 12.3%"));
}

#[test]
fn usage_line_with_extra_field_is_rejected() {
    assert!(matches!(parse_stats_data("web 1% 2% 3%"), Err(StatusError::MalformedUsage(_))));
}

#[test]
fn inspect_line_parses_six_fields() {
    let d = parse_inspect_data("/web,running,always,healthy,2024-01-01T00:00:00Z,80/tcp:8080 ")
        .ok()
        .unwrap();
    assert_eq!(d.container_name, "web");
    assert_eq!(d.status, "running");
    assert_eq!(d.restart_policy, "always");
    assert_eq!(d.health, "healthy");
    assert_eq!(d.uptime, "2024-01-01T00:00:00Z");
    assert_eq!(d.ports, "80/tcp:8080");
}

#[test]
fn inspect_line_keeps_spaces_inside_ports() {
    let d = parse_inspect_data("web,running,no,N/A,t,443/tcp:443 80/tcp:80 ").ok().unwrap();
    assert_eq!(d.ports, "443/tcp:443 80/tcp:80");
}

#[test]
fn inspect_line_with_five_fields_is_rejected() {
    let r = parse_inspect_data("web,running,no,N/A,t");
    assert!(matches!(r, Err(StatusError::MalformedInspect(ref l)) if l == "web,running,no,N/A,t"));
}

#[test]
fn inspect_line_with_empty_name_is_rejected() {
    assert!(matches!(parse_inspect_data("/,running,no,N/A,t,N/A"), Err(StatusError::MalformedInspect(_))));
}

#[test]
fn end_to_end_single_container() {
    let us = vec![parse_stats_data("web  12.3%  45.6%").ok().unwrap()];
    let is = vec![parse_inspect_data("web,running,always,healthy,2024-01-01T00:00:00Z,80/tcp:8080 ")
        .ok()
        .unwrap()];
    let rows = correlate(&us, &is).ok().unwrap();
    assert_eq!(rows.len(), 1);
    let r = &rows[0];
    assert_eq!(r.name, "web");
    assert_eq!(r.cpu_usage, "12.3%");
    assert_eq!(r.memory_usage, "45.6%");
    assert_eq!(r.status, "running");
    assert_eq!(r.restart_policy, "always");
    assert_eq!(r.health, "healthy");
    assert_eq!(r.uptime, "2024-01-01T00:00:00Z");
    assert_eq!(r.ports, "80/tcp:8080");
}

#[test]
fn snapshots_with_header_correlate() {
    let usage_text = "NAME CPU % MEM %\nweb  12.3%  45.6%\n";
    let inspect_text = "/web,running,always,healthy,2024-01-01T00:00:00Z,80/tcp:8080 \n";
    let rows = correlate_snapshots(usage_text, inspect_text).ok().unwrap();
    assert_eq!(rows.len(), 1);
    assert_eq!(rows[0].name, "web");
    assert_eq!(rows[0].ports, "80/tcp:8080");
}

#[test]
fn equal_key_sets_give_one_row_each() {
    let us = vec![usage("a", "1%", "2%"), usage("b", "3%", "4%"), usage("c", "5%", "6%")];
    let is = vec![inspect("c", "exited"), inspect("a", "running"), inspect("b", "paused")];
    let rows = correlate(&us, &is).ok().unwrap();
    assert_eq!(rows.len(), 3);
    let names: Vec<&str> = rows.iter().map(|r| r.name.as_str()).collect();
    assert_eq!(names, vec!["a", "b", "c"]);
    assert_eq!(rows[1].status, "paused");
    assert_eq!(rows[1].cpu_usage, "3%");
    assert_eq!(rows[2].status, "exited");
    assert_eq!(rows[2].memory_usage, "6%");
}

#[test]
fn differing_key_sets_fail() {
    let us = vec![usage("a", "1%", "2%"), usage("b", "3%", "4%"), usage("c", "5%", "6%")];
    let is = vec![inspect("a", "running"), inspect("b", "running")];
    assert!(matches!(correlate(&us, &is), Err(StatusError::Inconsistent)));
}

#[test]
fn same_size_but_different_names_fail() {
    let us = vec![usage("a", "1%", "2%"), usage("b", "3%", "4%")];
    let is = vec![inspect("a", "running"), inspect("x", "running")];
    assert!(matches!(correlate(&us, &is), Err(StatusError::Inconsistent)));
}

#[test]
fn differing_snapshots_fail_from_text() {
    let usage_text = "NAME CPU MEM\na 1% 2%\nb 3% 4%\nc 5% 6%\n";
    let inspect_text = "a,running,no,N/A,t,N/A\nb,running,no,N/A,t,N/A\n";
    assert!(matches!(correlate_snapshots(usage_text, inspect_text), Err(StatusError::Inconsistent)));
}

#[test]
fn empty_snapshots_give_no_rows() {
    let rows = correlate_snapshots("NAME CPU MEM\n", "").ok().unwrap();
    assert_eq!(rows.len(), 0);
}

#[test]
fn malformed_usage_is_reported_before_inspect() {
    let r = correlate_snapshots("H\nweb 1%\n", "broken");
    assert!(matches!(r, Err(StatusError::MalformedUsage(ref l)) if l == "web 1%"));
}

#[test]
fn malformed_inspect_line_is_reported() {
    let r = correlate_snapshots("H\nweb 1% 2%\n", "web,running\n");
    assert!(matches!(r, Err(StatusError::MalformedInspect(ref l)) if l == "web,running"));
}

#[test]
fn later_duplicate_record_wins() {
    let us = vec![usage("a", "1%", "2%"), usage("a", "9%", "8%")];
    let is = vec![inspect("a", "running")];
    let rows = correlate(&us, &is).ok().unwrap();
    assert_eq!(rows.len(), 1);
    assert_eq!(rows[0].cpu_usage, "9%");
}

fn row() -> ContainerStats {
    ContainerStats {
        name: "web".to_string(),
        status: "Running".to_string(),
        health: "weird".to_string(),
        restart_policy: "always".to_string(),
        uptime: "t".to_string(),
        cpu_usage: "1%".to_string(),
        memory_usage: "2%".to_string(),
        ports: "80/tcp".to_string(),
    }
}

#[test]
fn plain_row_is_padded_to_columns() {
    let line = row().render(false);
    let expected = format!(
        "{:<35} {:<20} {:<16} {:<20} {:<18} {:<8} {:<8} {:<20}",
        "web", "Running", "always", "weird", "t", "1%", "2%", "80/tcp"
    );
    assert_eq!(line, expected);
}

#[test]
fn colored_row_uses_status_and_neutral_health_colors() {
    let line = row().render(true);
    let expected = format!(
        "{:<35} {:<20} {:<16} {:<20} {:<18} {:<8} {:<8} {:<20}",
        "\x1b[1;36mweb\x1b[0m",
        "\x1b[1;32mRunning\x1b[0m",
        "always",
        "\x1b[1;37mweird\x1b[0m",
        "t",
        "1%",
        "2%",
        "80/tcp"
    );
    assert_eq!(line, expected);
}

#[test]
fn plain_header_names_the_columns() {
    let expected = format!(
        "{:<35} {:<20} {:<16} {:<20} {:<18} {:<8} {:<8} {:<20}",
        "NAME", "STATUS", "RESTART", "HEALTH", "UPTIME", "CPU %", "MEM %", "PORTS"
    );
    assert_eq!(render_header(false), expected);
}

#[test]
fn usage_line_split_at_unicode_space() {
    let d = parse_stats_data("web\u{a0}1%\u{2002}2%").ok().unwrap();
    assert_eq!(d.container_name, "web");
    assert_eq!(d.memory, "2%");
}
