use billkeeper::args::{App, KeySource};
use billkeeper::cli::{Args, DEFAULT_BIND};
use billkeeper::key::{DICT, KEY_LEN};
use billkeeper::state::{AppState, VlmChoice};

#[test]
fn the_default_settings() {
    let app = App::default();
    assert_eq!(app.auth_key, "");
    assert!(!app.large_model);
    assert_eq!(app.max_concurrency, 4);
    assert_eq!(app.max_memory_size, 468_000);
    assert_eq!(app.model_timeout_millis, 300_000);
    assert!(!app.offline);
    let copy = app.clone();
    assert_eq!(copy.max_memory_size, 468_000);
}

#[test]
fn the_key_comes_from_the_command_line_first() {
    assert_eq!(
        App::resolve_auth_key(Some("cli".to_string()), Some("env".to_string())),
        ("cli".to_string(), KeySource::CommandLine)
    );
    assert_eq!(
        App::resolve_auth_key(Some(String::new()), None),
        (String::new(), KeySource::CommandLine)
    );
    assert_eq!(
        App::resolve_auth_key(None, Some("env".to_string())),
        ("env".to_string(), KeySource::Environment)
    );
    let (key, source) = App::resolve_auth_key(None, None);
    assert_eq!(source, KeySource::Generated);
    assert_eq!(key.chars().count(), KEY_LEN);
    assert!(key.chars().all(|c| DICT.contains(c)));
}

#[test]
fn the_default_arguments() {
    let args = Args::default();
    assert_eq!(args.bind, "127.0.0.1:3100");
    assert_eq!(DEFAULT_BIND, "127.0.0.1:3100");
    assert_eq!(args.auth_key, None);
    assert_eq!(
        args.categories,
        vec!["Gorceries", "Transport", "Rent", "Entertainment", "Shopping", "Drink", "Food", "Drink"]
    );
    assert_eq!(Args::default_categories(), args.categories);
}

#[test]
fn the_model_follows_the_flags() {
    let mut app = App::default();
    assert_eq!(VlmChoice::from_args(&app), VlmChoice::Default);
    app.large_model = true;
    assert_eq!(VlmChoice::from_args(&app), VlmChoice::Large);
    app.offline = true;
    assert_eq!(VlmChoice::from_args(&app), VlmChoice::OfflineLarge);
    app.large_model = false;
    assert_eq!(VlmChoice::from_args(&app), VlmChoice::Offline);
}

#[test]
fn the_state_holds_the_key_and_a_scheduler() {
    let mut app = App::default();
    app.auth_key = "secret".to_string();
    app.max_concurrency = 2;
    app.max_memory_size = 3;
    let state: AppState<u8> = AppState::new(&app);
    assert_eq!(state.auth_key(), "secret");
    assert_eq!(state.scheduler().max_concurrency(), 2);
    assert_eq!(state.scheduler().max_memory_size(), 3);
    assert_eq!(state.scheduler().active_len(), 0);
    let mut scheduler = state.into_scheduler();
    assert_eq!(scheduler.submit("a".to_string(), 1).launches.len(), 1);
}
