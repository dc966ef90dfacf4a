use emd::config::{Config, ConfigError};
use emd::emd_state::{dedup_key, EmdState, InitError};
use emd::sources::ModSource;

fn names(list: &[&str]) -> Option<Vec<String>> {
    Some(list.iter().map(|s| s.to_string()).collect())
}

fn config(modrinth: &[&str], github: &[&str]) -> Config {
    Config {
        mc_version: Some("1.20.1".to_string()),
        concurrency: Some(3),
        loader: Some("fabric".to_string()),
        destination: None,
        modrinth: names(modrinth),
        github: names(github),
    }
}

#[test]
fn valid_config_passes() {
    assert_eq!(config(&["sodium"], &[]).validate(), Ok(()));
    assert_eq!(config(&[], &["owner/repo"]).validate(), Ok(()));
}

#[test]
fn config_errors_in_order() {
    let mut c = config(&["sodium"], &[]);
    c.mc_version = None;
    c.loader = None;
    assert_eq!(c.validate(), Err(ConfigError::MissingVersion));

    let mut c = config(&["sodium"], &[]);
    c.loader = None;
    c.mc_version = Some("nope".to_string());
    assert_eq!(c.validate(), Err(ConfigError::MissingLoader));

    let mut c = config(&[], &[]);
    c.mc_version = Some("nope".to_string());
    assert_eq!(c.validate(), Err(ConfigError::NoMods));

    let mut c = config(&["a"], &[]);
    c.github = None;
    c.modrinth = None;
    assert_eq!(c.validate(), Err(ConfigError::NoMods));

    let mut c = config(&["sodium"], &[]);
    c.mc_version = Some("1.20.1.1".to_string());
    assert_eq!(c.validate(), Err(ConfigError::InvalidVersion));
}

#[test]
fn destination_defaults_to_working_directory() {
    let mut c = config(&["sodium"], &[]);
    assert_eq!(c.destination_dir(), ".");
    c.destination = Some("mods".to_string());
    assert_eq!(c.destination_dir(), "mods");
}

#[test]
fn init_builds_job_in_configured_order() {
    let state = EmdState::init(config(&["sodium", "lithium"], &["owner/repo"]), true)
        .ok()
        .expect("job");
    let list: Vec<(String, ModSource)> =
        state.mod_list().iter().map(|m| (m.mod_name.clone(), m.source())).collect();
    assert_eq!(
        list,
        vec![
            ("sodium".to_string(), ModSource::Modrinth),
            ("lithium".to_string(), ModSource::Modrinth),
            ("owner/repo".to_string(), ModSource::Github),
        ]
    );
    assert_eq!(state.concurrency(), 3);
    assert_eq!(state.mod_loader(), "fabric");
    assert_eq!(state.destination(), ".");
    assert!(state.version().matches("1.20.1"));
    assert!(!state.version().matches("1.20.2"));
}

#[test]
fn init_without_concurrency_uses_machine_tier() {
    let mut c = config(&["sodium"], &[]);
    c.concurrency = None;
    let state = EmdState::init(c, true).ok().expect("job");
    let n = state.concurrency();
    assert!(n == 1 || n == 2 || n == 4 || n == 6);
}

#[test]
fn init_errors() {
    let mut c = config(&["sodium"], &[]);
    c.loader = None;
    assert!(matches!(
        EmdState::init(c, true),
        Err(InitError::Config(ConfigError::MissingLoader))
    ));

    let mut c = config(&["sodium"], &[]);
    c.concurrency = Some(0);
    assert!(matches!(EmdState::init(c, true), Err(InitError::ZeroConcurrency)));

    let c = config(&["sodium"], &[]);
    assert!(matches!(EmdState::init(c, false), Err(InitError::MissingDestination)));
}

#[test]
fn duplicates_dropped_with_one_warning() {
    let mut state = EmdState::init(config(&["Foo", "owner/foo", "Bar"], &[]), true)
        .ok()
        .expect("job");
    let dropped = state.check_duplicates();
    let kept: Vec<String> = state.mod_list().iter().map(|m| m.mod_name.clone()).collect();
    assert_eq!(kept, vec!["Foo".to_string(), "Bar".to_string()]);
    assert_eq!(dropped.len(), 1);
    assert_eq!(dropped[0].mod_name, "owner/foo");
}

#[test]
fn duplicates_across_registries_collide() {
    let mut state = EmdState::init(config(&["sodium", "iris"], &["CaffeineMC/Sodium"]), true)
        .ok()
        .expect("job");
    let dropped = state.check_duplicates();
    let kept: Vec<String> = state.mod_list().iter().map(|m| m.mod_name.clone()).collect();
    assert_eq!(kept, vec!["sodium".to_string(), "iris".to_string()]);
    assert_eq!(dropped.len(), 1);
    assert_eq!(dropped[0].mod_name, "CaffeineMC/Sodium");
    assert_eq!(dropped[0].source(), ModSource::Github);
}

#[test]
fn no_duplicates_keeps_everything() {
    let mut state = EmdState::init(config(&["a", "b"], &["x/c"]), true).ok().expect("job");
    let dropped = state.check_duplicates();
    assert!(dropped.is_empty());
    assert_eq!(state.mod_list().len(), 3);
}

#[test]
fn dedup_key_strips_owner_and_lowercases() {
    assert_eq!(dedup_key("Owner/FooBar"), "foobar");
    assert_eq!(dedup_key("FOO"), "foo");
    assert_eq!(dedup_key("a/b/C"), "b/c");
    assert_eq!(dedup_key("trailing/"), "");
}
