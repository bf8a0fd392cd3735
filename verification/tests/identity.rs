use liteclaw::identity::skill_id;

#[test]
fn prefers_slug() {
    assert_eq!(skill_id(Some("code"), Some("Code"), "code-1.0.4"), "code");
}

#[test]
fn falls_back_to_name_when_no_slug() {
    assert_eq!(
        skill_id(None, Some("a-stock-analysis"), "a-stock-analysis-1.0.0"),
        "a-stock-analysis"
    );
}

#[test]
fn falls_back_to_dirname_when_no_slug_no_name() {
    assert_eq!(skill_id(None, None, "clawdefender-1"), "clawdefender");
}

#[test]
fn strips_semver_suffix_from_dirname() {
    assert_eq!(skill_id(None, None, "memory-1.0.2"), "memory");
    assert_eq!(skill_id(None, None, "memory-1.2.7"), "memory");
}

#[test]
fn does_not_strip_non_version_dash() {
    assert_eq!(skill_id(None, None, "a-stock-analysis"), "a-stock-analysis");
}

#[test]
fn normalizes_name_with_spaces_to_dashes() {
    assert_eq!(
        skill_id(None, Some("Social Media Scheduler"), "social-media-scheduler-1.0.0"),
        "social-media-scheduler"
    );
}

#[test]
fn handles_human_title_name() {
    assert_eq!(
        skill_id(None, Some("Market Research"), "market-research-1.0.0"),
        "market-research"
    );
}

#[test]
fn empty_slug_and_name_fall_through() {
    assert_eq!(skill_id(Some("  "), Some(""), "Tool-2"), "tool");
    assert_eq!(skill_id(None, Some("  Big   Gap\tName "), "x"), "big-gap-name");
    assert_eq!(skill_id(None, None, "thing-1.x"), "thing-1.x");
    assert_eq!(skill_id(None, None, "a-1-2"), "a-1");
}
