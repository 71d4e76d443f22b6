use dsd_util::targets::{
    join_members, parse_id_list, select_targets, stack_filter, stack_members, TargetSelection,
    UsageError,
};

#[test]
fn all_takes_precedence() {
    let r = select_targets(Some(vec!["web".to_string()]), None, true);
    assert!(matches!(r, Ok(TargetSelection::All)));
    assert!(r.ok().unwrap().targets_are_ids());
}

#[test]
fn containers_before_stacks() {
    let r = select_targets(Some(vec!["web".to_string()]), Some(vec!["s".to_string()]), false);
    match r {
        Ok(TargetSelection::Containers(v)) => assert_eq!(v, vec!["web".to_string()]),
        _ => panic!("expected containers"),
    }
}

#[test]
fn stacks_when_no_containers() {
    let r = select_targets(None, Some(vec!["media".to_string()]), false);
    match r {
        Ok(TargetSelection::Stacks(v)) => assert_eq!(v, vec!["media".to_string()]),
        _ => panic!("expected stacks"),
    }
}

#[test]
fn nothing_selected_is_a_usage_error() {
    assert!(matches!(select_targets(None, None, false), Err(UsageError::NoTargets)));
}

#[test]
fn id_list_is_split_on_whitespace() {
    assert_eq!(parse_id_list("abc123\ndef456\n"), vec!["abc123".to_string(), "def456".to_string()]);
    assert!(parse_id_list("").is_empty());
}

#[test]
fn stack_filter_uses_project_label() {
    assert_eq!(stack_filter("media"), "label=com.docker.compose.project=media");
}

#[test]
fn group_members_are_the_labelled_running_containers() {
    // What a runtime would print for the label-filtered list, then for each id's name.
    let ids = parse_id_list("aaa\nbbb\nccc\n");
    let lookups = vec![
        Some("/sonarr\n".to_string()),
        Some("/lidarr\n".to_string()),
        Some("/radarr\n".to_string()),
    ];
    assert_eq!(stack_members(&ids, &lookups), vec!["sonarr", "lidarr", "radarr"]);
}

#[test]
fn failed_lookup_keeps_the_id() {
    let ids = parse_id_list("aaa bbb ccc");
    let lookups = vec![Some("/sonarr\n".to_string()), None, Some("\n".to_string())];
    assert_eq!(stack_members(&ids, &lookups), vec!["sonarr", "bbb", "ccc"]);
}

#[test]
fn id_list_splits_at_unicode_whitespace() {
    assert_eq!(parse_id_list("a\u{a0}b\u{3000}c"), vec!["a", "b", "c"]);
}

#[test]
fn member_lists_join_in_order() {
    let lists = vec![vec!["a".to_string(), "b".to_string()], vec![], vec!["c".to_string()]];
    assert_eq!(join_members(&lists), vec!["a", "b", "c"]);
    assert!(join_members(&Vec::new()).is_empty());
}
