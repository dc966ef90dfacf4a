use emd::version::VersionMatcher;

fn matcher(target: &str) -> VersionMatcher {
    VersionMatcher::new(target).expect("valid target version")
}

#[test]
fn three_part_target_matches_containing_strings() {
    let m = matcher("1.20.1");
    assert!(m.matches("1.20.1"));
    assert!(m.matches("fabric-1.20.1-0.4.2"));
    assert!(m.matches("mc1.20.x"));
    assert!(m.matches("1.20.10"));
}

#[test]
fn three_part_target_rejects_other_patch() {
    let m = matcher("1.20.1");
    assert!(!m.matches("1.20.2"));
    assert!(!m.matches("1.20.0"));
    assert!(!m.matches("1.19.1"));
    assert!(!m.matches("release"));
    assert!(!m.matches(""));
}

#[test]
fn three_part_target_with_two_digit_patch() {
    let m = matcher("1.19.10");
    assert!(m.matches("v1.19.10"));
    assert!(m.matches("1.19.x"));
    assert!(!m.matches("1.19.1"));
    assert!(!m.matches("1.19.0"));
}

#[test]
fn two_part_target_matches_minor_and_patches() {
    let m = matcher("1.20");
    assert!(m.matches("1.20"));
    assert!(m.matches("1.20.1"));
    assert!(m.matches("1.20.x"));
    assert!(m.matches("Sodium 1.20"));
    assert!(m.matches("1.20-5"));
}

#[test]
fn two_part_target_rejects_other_minor() {
    let m = matcher("1.20");
    assert!(!m.matches("1.201"));
    assert!(!m.matches("1.21"));
    assert!(!m.matches("1.2"));
    assert!(!m.matches("1.20-pre"));
    assert!(!m.matches("1.20."));
    let short = matcher("1.2");
    assert!(!short.matches("1.20"));
    assert!(!short.matches("1.21"));
    assert!(short.matches("1.2.5"));
    assert!(!short.matches("1.3"));
}

#[test]
fn target_version_shapes() {
    assert!(VersionMatcher::new("1.20").is_some());
    assert!(VersionMatcher::new("1.8").is_some());
    assert!(VersionMatcher::new("1.20.1").is_some());
    assert!(VersionMatcher::new("1.8.10").is_some());
    assert!(VersionMatcher::new("2.0").is_none());
    assert!(VersionMatcher::new("1").is_none());
    assert!(VersionMatcher::new("1.").is_none());
    assert!(VersionMatcher::new("1.123").is_none());
    assert!(VersionMatcher::new("1.20.").is_none());
    assert!(VersionMatcher::new("1.20.123").is_none());
    assert!(VersionMatcher::new("1.20.1.1").is_none());
    assert!(VersionMatcher::new("1x20").is_none());
    assert!(VersionMatcher::new("1.a").is_none());
    assert!(VersionMatcher::new("").is_none());
}
