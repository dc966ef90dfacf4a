use emd::config::Config;
use emd::emd_state::EmdState;
use emd::sources::DownloadableMod;
use emd::worker::{Event, Report, SliceTask, Step};

fn job(mods: &[&str]) -> EmdState {
    let config = Config {
        mc_version: Some("1.20.1".to_string()),
        concurrency: Some(2),
        loader: Some("fabric".to_string()),
        destination: None,
        modrinth: Some(mods.iter().map(|s| s.to_string()).collect()),
        github: None,
    };
    EmdState::init(config, true).ok().expect("job")
}

fn artifact(name: &str) -> DownloadableMod {
    DownloadableMod::new(name.to_string(), format!("https://cdn.example/{}", name))
}

#[test]
fn failure_of_one_mod_does_not_stop_the_slice() {
    let state = job(&["good", "bad"]);
    let mut task = SliceTask::new(&state, 0..2);
    assert_eq!(task.next_step(), Step::Resolve(0));
    assert!(task.handle(Event::Resolved(Ok(artifact("good.jar")))).is_none());
    assert_eq!(task.next_step(), Step::CheckExists);
    assert_eq!(task.pending().unwrap().filename, "good.jar");
    assert!(task.handle(Event::Exists(false)).is_none());
    assert_eq!(task.next_step(), Step::Download);
    match task.handle(Event::DownloadDone(Ok(()))) {
        Some(Report::Downloaded(name)) => assert_eq!(name, "good"),
        _ => panic!("expected a download report"),
    }
    assert_eq!(task.next_step(), Step::Resolve(1));
    match task.handle(Event::Resolved(Err("no matching version".to_string()))) {
        Some(Report::Failed(name, why)) => {
            assert_eq!(name, "bad");
            assert_eq!(why, "no matching version");
        }
        _ => panic!("expected a failure report"),
    }
    assert_eq!(task.next_step(), Step::Finished);
}

#[test]
fn failure_first_then_success() {
    let state = job(&["bad", "good"]);
    let mut task = SliceTask::new(&state, 0..2);
    assert!(matches!(
        task.handle(Event::Resolved(Err("offline".to_string()))),
        Some(Report::Failed(_, _))
    ));
    assert_eq!(task.next_step(), Step::Resolve(1));
    task.handle(Event::Resolved(Ok(artifact("good.jar"))));
    task.handle(Event::Exists(false));
    assert!(matches!(
        task.handle(Event::DownloadDone(Err("disk full".to_string()))),
        Some(Report::Failed(name, _)) if name == "good"
    ));
    assert_eq!(task.next_step(), Step::Finished);
}

#[test]
fn second_run_reports_already_exists() {
    let state = job(&["sodium"]);
    let mut first = SliceTask::new(&state, 0..1);
    first.handle(Event::Resolved(Ok(artifact("sodium.jar"))));
    assert_eq!(first.next_step(), Step::CheckExists);
    first.handle(Event::Exists(false));
    assert!(matches!(first.handle(Event::DownloadDone(Ok(()))), Some(Report::Downloaded(_))));

    let mut second = SliceTask::new(&state, 0..1);
    second.handle(Event::Resolved(Ok(artifact("sodium.jar"))));
    assert_eq!(second.next_step(), Step::CheckExists);
    match second.handle(Event::Exists(true)) {
        Some(Report::AlreadyExists(a)) => assert_eq!(a.filename, "sodium.jar"),
        _ => panic!("expected an already-exists report"),
    }
    assert_eq!(second.next_step(), Step::Finished);
}

#[test]
fn slice_in_the_middle_of_the_list() {
    let state = job(&["a", "b", "c", "d"]);
    let mut task = SliceTask::new(&state, 2..4);
    assert_eq!(task.next_step(), Step::Resolve(2));
    task.handle(Event::Resolved(Err("x".to_string())));
    assert_eq!(task.next_step(), Step::Resolve(3));
    let empty = SliceTask::new(&state, 4..4);
    assert_eq!(empty.next_step(), Step::Finished);
}

#[test]
fn events_out_of_turn_change_nothing() {
    let state = job(&["a"]);
    let mut task = SliceTask::new(&state, 0..1);
    assert!(task.handle(Event::Exists(true)).is_none());
    assert!(task.handle(Event::DownloadDone(Ok(()))).is_none());
    assert_eq!(task.next_step(), Step::Resolve(0));
    task.handle(Event::Resolved(Ok(artifact("a.jar"))));
    assert!(task.handle(Event::DownloadDone(Ok(()))).is_none());
    assert_eq!(task.next_step(), Step::CheckExists);
    task.handle(Event::Exists(true));
    assert!(task.handle(Event::Resolved(Err("late".to_string()))).is_none());
    assert_eq!(task.next_step(), Step::Finished);
}
