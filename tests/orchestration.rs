use migration_batch::job::{job_signal, video_file_name, Settings, VideoCodec};
use migration_batch::orchestrator::MigrationApp;
use migration_batch::registry::{Signal, Ticket};
use migration_batch::state::{item_state, AppState, ItemState};

type App = MigrationApp<String, String>;

fn valid(name: &str) -> Result<String, String> {
    Ok(format!("config of {}", name))
}

fn invalid(message: &str) -> Result<String, String> {
    Err(message.to_string())
}

fn tick(app: &mut App, signals: Vec<Signal<String>>) {
    app.poll(signals);
    app.update_state();
}

fn ticket_for(app: &App, path: &str) -> Ticket {
    let item = app
        .dropped_files()
        .items()
        .iter()
        .find(|item| item.path == path)
        .expect("path is registered");
    Ticket { path: item.path.clone(), generation: item.generation }
}

fn outcome_of(app: &App, path: &str) -> Option<Result<(), String>> {
    app.dropped_files()
        .items()
        .iter()
        .find(|item| item.path == path)
        .expect("path is registered")
        .outcome
        .clone()
}

fn three_paths() -> App {
    let mut app = App::default();
    app.register("a.toml".to_string(), valid("a"));
    app.register("b.toml".to_string(), invalid("missing camera"));
    app.register("c.toml".to_string(), valid("c"));
    app.update_state();
    app
}

#[test]
fn default_app_is_empty_and_initial() {
    let app = App::default();
    assert_eq!(app.state, AppState::Init);
    assert!(app.dropped_files().is_empty());
    assert!(!app.settings.is_forest_green_enabled);
    assert!(!app.settings.is_video_enabled);
    assert_eq!(app.settings.video_codec, VideoCodec::Unset);
    assert_eq!(app.settings.ffmpeg_path, None);
    assert_eq!(app.settings.video_output_path, None);
    assert_eq!(app.settings.frame_rate, 4);
}

#[test]
fn classification_follows_priority_order() {
    let ok: Result<String, String> = valid("x");
    let err: Result<String, String> = invalid("bad");
    let none: Option<Result<(), String>> = None;
    let done: Option<Result<(), String>> = Some(Ok(()));
    let failed: Option<Result<(), String>> = Some(Err("boom".to_string()));
    assert_eq!(item_state(&AppState::Processing, &ok, &done), ItemState::ProcessingDone);
    assert_eq!(item_state(&AppState::Processing, &ok, &failed), ItemState::ProcessingError);
    assert_eq!(item_state(&AppState::Processing, &ok, &none), ItemState::Processing);
    assert_eq!(item_state(&AppState::ValidConfigs, &ok, &none), ItemState::ValidConfig);
    assert_eq!(item_state(&AppState::ProcessingDone, &ok, &none), ItemState::ValidConfig);
    assert_eq!(item_state(&AppState::Processing, &err, &none), ItemState::InvalidConfig);
    assert_eq!(item_state(&AppState::Init, &err, &none), ItemState::InvalidConfig);
}

#[test]
fn classification_never_unknown() {
    let configs: Vec<Result<String, String>> = vec![valid("x"), invalid("bad")];
    let outcomes: Vec<Option<Result<(), String>>> =
        vec![None, Some(Ok(())), Some(Err("boom".to_string()))];
    let states = [
        AppState::Init,
        AppState::InvalidConfigs,
        AppState::ValidConfigs,
        AppState::Processing,
        AppState::ProcessingDone,
        AppState::ProcessingErrors,
    ];
    for s in states.iter() {
        for c in configs.iter() {
            for o in outcomes.iter() {
                assert_ne!(item_state(s, c, o), ItemState::Unknown);
            }
        }
    }
}

#[test]
fn no_items_stays_initial() {
    let mut app = App::default();
    app.update_state();
    assert_eq!(app.state, AppState::Init);
    tick(&mut app, Vec::new());
    assert_eq!(app.state, AppState::Init);
}

#[test]
fn one_invalid_item_gives_invalid_configs() {
    let mut app = App::default();
    app.register("bad.toml".to_string(), invalid("unreadable"));
    app.update_state();
    assert_eq!(app.state, AppState::InvalidConfigs);
}

#[test]
fn only_valid_items_give_valid_configs() {
    let mut app = App::default();
    app.register("a.toml".to_string(), valid("a"));
    app.register("b.toml".to_string(), valid("b"));
    app.update_state();
    assert_eq!(app.state, AppState::ValidConfigs);
    assert_eq!(app.item_states(), vec![ItemState::ValidConfig, ItemState::ValidConfig]);
}

#[test]
fn all_jobs_succeeding_ends_clean() {
    let mut app = App::default();
    app.register("a.toml".to_string(), valid("a"));
    app.register("b.toml".to_string(), valid("b"));
    app.register("c.toml".to_string(), valid("c"));
    app.update_state();
    let jobs = app.start_processing();
    assert_eq!(jobs.len(), 3);
    tick(&mut app, Vec::new());
    assert_eq!(app.state, AppState::Processing);
    assert_eq!(app.item_states(), vec![ItemState::Processing; 3]);
    let signals: Vec<Signal<String>> = jobs.into_iter().map(|j| job_signal(j.ticket, Ok(()))).collect();
    tick(&mut app, signals);
    assert_eq!(app.state, AppState::ProcessingDone);
    assert_eq!(app.item_states(), vec![ItemState::ProcessingDone; 3]);
}

#[test]
fn failure_while_another_job_runs_gives_errors() {
    let mut app = App::default();
    app.register("a.toml".to_string(), valid("a"));
    app.register("b.toml".to_string(), valid("b"));
    app.update_state();
    let jobs = app.start_processing();
    assert_eq!(jobs.len(), 2);
    let failure = job_signal(ticket_for(&app, "b.toml"), Err("disk full".to_string()));
    tick(&mut app, vec![failure]);
    assert_eq!(app.state, AppState::ProcessingErrors);
}

#[test]
fn failure_drained_with_the_last_success_ends_with_errors() {
    let mut app = App::default();
    app.register("a.toml".to_string(), valid("a"));
    app.register("b.toml".to_string(), valid("b"));
    app.update_state();
    app.start_processing();
    let signals = vec![
        job_signal(ticket_for(&app, "a.toml"), Ok(())),
        job_signal(ticket_for(&app, "b.toml"), Err("disk full".to_string())),
    ];
    tick(&mut app, signals);
    assert_eq!(app.state, AppState::ProcessingErrors);
    assert_eq!(app.item_states(), vec![ItemState::ProcessingDone, ItemState::ProcessingError]);
}

#[test]
fn three_paths_after_registration() {
    let app = three_paths();
    assert_eq!(app.state, AppState::InvalidConfigs);
    assert_eq!(
        app.item_states(),
        vec![ItemState::ValidConfig, ItemState::InvalidConfig, ItemState::ValidConfig]
    );
}

#[test]
fn three_paths_after_processing() {
    let mut app = three_paths();
    let jobs = app.start_processing();
    let paths: Vec<String> = jobs.iter().map(|j| j.ticket.path.clone()).collect();
    assert_eq!(paths, vec!["a.toml".to_string(), "c.toml".to_string()]);
    assert_eq!(jobs[0].config, "config of a");
    assert_eq!(jobs[1].config, "config of c");
    tick(&mut app, Vec::new());
    assert_eq!(app.state, AppState::Processing);
    assert_eq!(
        app.item_states(),
        vec![ItemState::Processing, ItemState::InvalidConfig, ItemState::Processing]
    );
    let signals = vec![
        job_signal(ticket_for(&app, "a.toml"), Ok(())),
        job_signal(ticket_for(&app, "c.toml"), Err("migration failed".to_string())),
    ];
    tick(&mut app, signals);
    assert_eq!(app.state, AppState::ProcessingErrors);
    assert_eq!(
        app.item_states(),
        vec![ItemState::ProcessingDone, ItemState::InvalidConfig, ItemState::ProcessingError]
    );
    assert_eq!(outcome_of(&app, "b.toml"), None);
    assert_eq!(outcome_of(&app, "c.toml"), Some(Err("migration failed".to_string())));
}

#[test]
fn failure_while_others_run_then_they_finish() {
    let mut app = App::default();
    app.register("a.toml".to_string(), valid("a"));
    app.register("c.toml".to_string(), valid("c"));
    app.update_state();
    app.start_processing();
    let c_failure = job_signal(ticket_for(&app, "c.toml"), Err("migration failed".to_string()));
    tick(&mut app, vec![c_failure]);
    assert_eq!(app.state, AppState::ProcessingErrors);
    let a_success = job_signal(ticket_for(&app, "a.toml"), Ok(()));
    tick(&mut app, vec![a_success]);
    assert_eq!(app.item_states(), vec![ItemState::ProcessingDone, ItemState::ProcessingError]);
}

#[test]
fn signal_for_invalid_item_is_ignored() {
    let mut app = three_paths();
    let ticket = ticket_for(&app, "b.toml");
    app.receive(job_signal(ticket, Ok(())));
    assert_eq!(outcome_of(&app, "b.toml"), None);
    app.update_state();
    assert_eq!(app.state, AppState::InvalidConfigs);
    assert_eq!(
        app.item_states(),
        vec![ItemState::ValidConfig, ItemState::InvalidConfig, ItemState::ValidConfig]
    );
}

#[test]
fn stale_signal_after_clear_and_reregister_is_dropped() {
    let mut app = App::default();
    app.register("p.toml".to_string(), valid("p"));
    app.update_state();
    let jobs = app.start_processing();
    let old_ticket = Ticket { path: jobs[0].ticket.path.clone(), generation: jobs[0].ticket.generation };
    app.clear();
    app.update_state();
    assert_eq!(app.state, AppState::Init);
    app.register("p.toml".to_string(), valid("p again"));
    app.update_state();
    tick(&mut app, vec![job_signal(old_ticket, Err("late".to_string()))]);
    assert_eq!(outcome_of(&app, "p.toml"), None);
    assert_eq!(app.item_states(), vec![ItemState::ValidConfig]);
    assert_eq!(app.state, AppState::ValidConfigs);
}

#[test]
fn signal_for_cleared_path_is_ignored() {
    let mut app = App::default();
    app.register("gone.toml".to_string(), valid("gone"));
    let ticket = ticket_for(&app, "gone.toml");
    app.clear();
    app.receive(job_signal(ticket, Ok(())));
    assert!(app.dropped_files().is_empty());
    let unknown = Ticket { path: "never.toml".to_string(), generation: 0 };
    app.receive(Signal::Error(unknown, "x".to_string()));
    assert!(app.dropped_files().is_empty());
}

#[test]
fn second_signal_for_an_item_is_ignored() {
    let mut app = App::default();
    app.register("a.toml".to_string(), valid("a"));
    let ticket = ticket_for(&app, "a.toml");
    let again = Ticket { path: ticket.path.clone(), generation: ticket.generation };
    app.receive(job_signal(ticket, Ok(())));
    app.receive(job_signal(again, Err("late".to_string())));
    assert_eq!(outcome_of(&app, "a.toml"), Some(Ok(())));
    let items = app.dropped_files().items();
    assert_eq!(items[0].config, valid("a"));
}

#[test]
fn reregistering_replaces_entry_and_outcome() {
    let mut app = App::default();
    app.register("a.toml".to_string(), valid("a"));
    app.register("b.toml".to_string(), valid("b"));
    let ticket = ticket_for(&app, "a.toml");
    app.receive(job_signal(ticket, Ok(())));
    app.register("a.toml".to_string(), invalid("now broken"));
    let items = app.dropped_files().items();
    assert_eq!(items.len(), 2);
    assert_eq!(items[0].path, "a.toml");
    assert_eq!(items[0].config, invalid("now broken"));
    assert_eq!(items[0].outcome, None);
    assert_eq!(items[0].generation, 2);
    assert_eq!(items[1].config, valid("b"));
}

#[test]
fn dispatch_skips_finished_and_invalid_items() {
    let mut app = three_paths();
    let ticket = ticket_for(&app, "a.toml");
    app.receive(job_signal(ticket, Ok(())));
    let jobs = app.process();
    assert_eq!(jobs.len(), 1);
    assert_eq!(jobs[0].ticket.path, "c.toml");
    assert_eq!(jobs[0].ticket.generation, 2);
}

#[test]
fn video_file_name_joins_parts() {
    assert_eq!(
        video_file_name("forest", "cam1", "2023-01-01", "2023-02-01"),
        "forest-cam1-2023-01-01-2023-02-01.mov"
    );
    assert_eq!(video_file_name("", "", "", ""), "---.mov");
}

#[test]
fn video_step_needs_flag_codec_and_encoder() {
    let mut settings = Settings::new();
    assert!(!settings.wants_video());
    settings.is_video_enabled = true;
    assert!(!settings.wants_video());
    settings.video_codec = VideoCodec::H264;
    assert!(!settings.wants_video());
    settings.ffmpeg_path = Some("/usr/bin/ffmpeg".to_string());
    assert!(settings.wants_video());
    settings.is_video_enabled = false;
    assert!(!settings.wants_video());
}

#[test]
fn job_signal_follows_migration_result() {
    let t = Ticket { path: "a.toml".to_string(), generation: 7 };
    match job_signal::<String>(t, Ok(())) {
        Signal::Success(t) => {
            assert_eq!(t.path, "a.toml");
            assert_eq!(t.generation, 7);
        }
        Signal::Error(..) => panic!("expected success"),
    }
    let t = Ticket { path: "b.toml".to_string(), generation: 3 };
    match job_signal(t, Err("no space".to_string())) {
        Signal::Error(t, e) => {
            assert_eq!(t.path, "b.toml");
            assert_eq!(e, "no space");
        }
        Signal::Success(_) => panic!("expected failure"),
    }
}
