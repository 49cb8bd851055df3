use workmux::gemini::{
    check, detect, has_workmux_hooks, hooks_of, install, load_hooks, SettingsFile, SetupError,
    StatusCheck, HOOKS_JSON,
};
use workmux::json::{parse, Json};
use workmux::merge::{merge_event, merge_events, merge_groups, merge_hooks, MergeError};

fn value(text: &str) -> Json {
    parse(text).unwrap()
}

fn entries(json: Json) -> Vec<(String, Json)> {
    match json {
        Json::Object(entries) => entries,
        other => panic!("no object: {:?}", other),
    }
}

fn items(json: Json) -> Vec<Json> {
    match json {
        Json::Array(items) => items,
        other => panic!("no array: {:?}", other),
    }
}

fn item_count(json: &Json) -> usize {
    match json {
        Json::Array(items) => items.len(),
        other => panic!("no array: {:?}", other),
    }
}

fn entry_count(json: &Json) -> usize {
    match json {
        Json::Object(entries) => entries.len(),
        other => panic!("no object: {:?}", other),
    }
}

const DONE: &str = r#"{"hooks": {"AfterAgent": [{"hooks": [
    {"type": "command", "command": "workmux set-window-status done"}]}]}}"#;

const OTHER: &str = r#"{"hooks": {"AfterAgent": [{"hooks": [
    {"type": "command", "command": "python3 my-stop-hook.py"}]}]}}"#;

#[test]
fn test_hooks_json_is_valid() {
    let parsed = parse(HOOKS_JSON).expect("embedded hooks config is valid JSON");
    let hooks = parsed.get("hooks").unwrap();
    assert!(hooks.get("SessionStart").is_some());
    assert!(hooks.get("BeforeAgent").is_some());
    assert!(hooks.get("AfterTool").is_some());
    assert!(hooks.get("AfterAgent").is_some());
    assert!(hooks.get("Notification").is_some());
}

#[test]
fn test_hooks_json_contains_workmux_command() {
    assert!(HOOKS_JSON.contains("workmux set-window-status"));
}

#[test]
fn test_has_workmux_hooks_empty() {
    let config = value("{}");
    assert!(!has_workmux_hooks(&config));
}

#[test]
fn test_has_workmux_hooks_present() {
    let config = value(
        r#"{
            "hooks": {
                "AfterAgent": [{
                    "hooks": [{
                        "type": "command",
                        "command": "workmux set-window-status done"
                    }]
                }]
            }
        }"#,
    );
    assert!(has_workmux_hooks(&config));
}

#[test]
fn test_has_workmux_hooks_other_hooks_only() {
    let config = value(
        r#"{
            "hooks": {
                "AfterAgent": [{
                    "hooks": [{
                        "type": "command",
                        "command": "python3 my-script.py"
                    }]
                }]
            }
        }"#,
    );
    assert!(!has_workmux_hooks(&config));
}

#[test]
fn test_load_hooks() {
    let hooks = load_hooks().unwrap();
    assert!(matches!(hooks, Json::Object(_)));
    assert!(hooks.get("SessionStart").is_some());
    assert!(hooks.get("BeforeAgent").is_some());
    assert!(hooks.get("AfterTool").is_some());
    assert!(hooks.get("AfterAgent").is_some());
    assert!(hooks.get("Notification").is_some());
}

#[test]
fn test_merge_into_empty_config() {
    let config = value(r#"{"hooks": {}}"#);
    let config = merge_hooks(config, load_hooks().unwrap()).unwrap();
    let hooks = config.get("hooks").unwrap();
    assert_eq!(entry_count(hooks), 5);
}

#[test]
fn test_merge_deduplicates() {
    let config = value(
        r#"{
            "hooks": {
                "AfterAgent": [{
                    "hooks": [{
                        "type": "command",
                        "command": "workmux set-window-status done"
                    }]
                }]
            }
        }"#,
    );
    let config = merge_hooks(config, load_hooks().unwrap()).unwrap();
    let stop = config.get("hooks").unwrap().get("AfterAgent").unwrap();
    assert_eq!(item_count(stop), 1);
}

#[test]
fn test_merge_preserves_existing_hooks() {
    let config = value(
        r#"{
            "hooks": {
                "AfterAgent": [{
                    "hooks": [{
                        "type": "command",
                        "command": "python3 my-stop-hook.py"
                    }]
                }]
            }
        }"#,
    );
    let config = merge_hooks(config, load_hooks().unwrap()).unwrap();
    let hooks = config.get("hooks").unwrap();
    assert_eq!(item_count(hooks.get("AfterAgent").unwrap()), 2);
    assert_eq!(entry_count(hooks), 5);
}

#[test]
fn detect_reports_the_directory() {
    assert_eq!(detect(Some(true)), Some("found ~/.gemini/"));
    assert_eq!(detect(Some(false)), None);
    assert_eq!(detect(None), None);
}

#[test]
fn has_workmux_hooks_passes_over_other_shapes() {
    assert!(!has_workmux_hooks(&value("[]")));
    assert!(!has_workmux_hooks(&value(r#"{"hooks": []}"#)));
    assert!(!has_workmux_hooks(&value(r#"{"hooks": {"A": {}}}"#)));
    assert!(!has_workmux_hooks(&value(r#"{"hooks": {"A": [1, {"hooks": {}}]}}"#)));
    assert!(!has_workmux_hooks(&value(
        r#"{"hooks": {"A": [{"hooks": [{"command": ["workmux set-window-status"]}]}]}}"#
    )));
    assert!(has_workmux_hooks(&value(
        r#"{"hooks": {"A": 1, "B": [2, {"hooks": [3, {"command": "x; workmux set-window-status y"}]}]}}"#
    )));
}

#[test]
fn check_without_a_file() {
    assert_eq!(check(&SettingsFile::NoHome).unwrap(), StatusCheck::NotInstalled);
    assert_eq!(check(&SettingsFile::Missing).unwrap(), StatusCheck::NotInstalled);
}

#[test]
fn check_reads_the_file() {
    assert_eq!(check(&SettingsFile::Present(DONE.to_string())).unwrap(), StatusCheck::Installed);
    assert_eq!(check(&SettingsFile::Present(OTHER.to_string())).unwrap(), StatusCheck::NotInstalled);
}

#[test]
fn check_refuses_what_is_not_json() {
    let error = check(&SettingsFile::Present("{".to_string())).unwrap_err();
    assert!(matches!(error, SetupError::InvalidSettings(_)));
    assert_eq!(error.message(), "~/.gemini/settings.json is not valid JSON");
    match error {
        SetupError::InvalidSettings(cause) => {
            assert_eq!(cause.to_string(), "EOF while parsing an object at line 1 column 1");
        }
        other => panic!("{:?}", other),
    }
}

#[test]
fn hooks_of_takes_the_member() {
    assert_eq!(hooks_of(value(r#"{"a": 1, "hooks": [2]}"#)).unwrap(), value("[2]"));
    let error = hooks_of(value(r#"{"a": 1}"#)).unwrap_err();
    assert!(matches!(error, SetupError::MissingHooks));
    assert_eq!(error.message(), "hooks config missing hooks key");
}

#[test]
fn install_without_a_home() {
    let error = install(&SettingsFile::NoHome).unwrap_err();
    assert!(matches!(error, SetupError::NoHome));
    assert_eq!(error.message(), "Could not determine home directory");
}

#[test]
fn install_refuses_what_is_not_json() {
    let error = install(&SettingsFile::Present("nonsense".to_string())).unwrap_err();
    assert!(matches!(error, SetupError::InvalidSettings(_)));
}

#[test]
fn install_refuses_other_shapes() {
    let error = install(&SettingsFile::Present("[]".to_string())).unwrap_err();
    assert_eq!(error.message(), "settings.json root is not an object");
    let error = install(&SettingsFile::Present(r#"{"hooks": 1}"#.to_string())).unwrap_err();
    assert_eq!(error.message(), "settings.json hooks is not an object");
    let error = install(&SettingsFile::Present(r#"{"hooks": {"AfterTool": {}}}"#.to_string()))
        .unwrap_err();
    assert_eq!(error.message(), "hooks.AfterTool is not an array");
}

#[test]
fn install_starts_fresh() {
    let done = install(&SettingsFile::Missing).unwrap();
    assert_eq!(done.message, "Installed hooks to ~/.gemini/settings.json");
    assert_eq!(done.contents, format!("{}\n", HOOKS_JSON));
    assert_eq!(value(&done.contents), value(HOOKS_JSON));
}

#[test]
fn install_is_found_by_check() {
    let done = install(&SettingsFile::Present(OTHER.to_string())).unwrap();
    assert_eq!(check(&SettingsFile::Present(done.contents)).unwrap(), StatusCheck::Installed);
}

#[test]
fn install_is_found_by_check_beside_the_largest_numbers() {
    let settings = r#"{"a": 1.7976931348623157e308, "b": -1.7976931348623157e308, "c": 5e-324}"#;
    let done = install(&SettingsFile::Present(settings.to_string())).unwrap();
    assert_eq!(check(&SettingsFile::Present(done.contents)).unwrap(), StatusCheck::Installed);
}

#[test]
fn install_again_changes_nothing() {
    let once = install(&SettingsFile::Present(r#"{"theme": "dark"}"#.to_string())).unwrap();
    let twice = install(&SettingsFile::Present(once.contents.clone())).unwrap();
    assert_eq!(once, twice);
}

#[test]
fn install_keeps_other_settings() {
    let done = install(&SettingsFile::Present(
        r#"{"theme": "dark", "sizes": [1, 2.5, -3], "hooks": {"Custom": 7}}"#.to_string(),
    ))
    .unwrap();
    let after = value(&done.contents);
    assert_eq!(after.get("theme"), Some(&Json::Text("dark".to_string())));
    assert_eq!(after.get("sizes"), Some(&value("[1, 2.5, -3]")));
    assert_eq!(after.get("hooks").unwrap().get("Custom"), Some(&value("7")));
    assert_eq!(entry_count(after.get("hooks").unwrap()), 6);
}

#[test]
fn merge_groups_appends_what_is_new() {
    let after = merge_groups(items(value("[1, 1, 2]")), items(value("[2, 3, 3, 1, 4]")));
    assert_eq!(after, items(value("[1, 1, 2, 3, 4]")));
}

#[test]
fn merge_event_takes_a_new_event_whole() {
    let after = merge_event(entries(value("{}")), "B".to_string(), value("[1, 1]")).unwrap();
    assert_eq!(Json::Object(after), value(r#"{"B": [1, 1]}"#));
}

#[test]
fn merge_event_passes_over_what_is_no_list() {
    let after = merge_event(entries(value(r#"{"A": 5}"#)), "A".to_string(), value("6")).unwrap();
    assert_eq!(Json::Object(after), value(r#"{"A": 5}"#));
}

#[test]
fn merge_event_refuses_an_event_that_is_no_list() {
    let error =
        merge_event(entries(value(r#"{"A": 5}"#)), "A".to_string(), value("[6]")).unwrap_err();
    assert_eq!(error, MergeError::EventNotArray("A".to_string()));
}

#[test]
fn merge_events_stops_at_the_first_fault() {
    let error = merge_events(
        entries(value(r#"{"B": 1, "C": 2}"#)),
        entries(value(r#"{"A": [1], "B": [1], "C": [1]}"#)),
    )
    .unwrap_err();
    assert_eq!(error, MergeError::EventNotArray("B".to_string()));
}

#[test]
fn merge_hooks_refuses_other_shapes() {
    assert_eq!(merge_hooks(value("3"), value("{}")).unwrap_err(), MergeError::RootNotObject);
    assert_eq!(
        merge_hooks(value(r#"{"hooks": []}"#), value("{}")).unwrap_err(),
        MergeError::HooksNotObject
    );
}

#[test]
fn merge_hooks_makes_room_for_hooks() {
    let after = merge_hooks(value(r#"{"a": 1, "z": 2}"#), value("{}")).unwrap();
    assert_eq!(after, value(r#"{"a": 1, "hooks": {}, "z": 2}"#));
}

#[test]
fn merge_hooks_twice_is_merge_hooks_once() {
    let once = merge_hooks(value(OTHER), load_hooks().unwrap()).unwrap();
    let again = merge_hooks(
        merge_hooks(value(OTHER), load_hooks().unwrap()).unwrap(),
        load_hooks().unwrap(),
    )
    .unwrap();
    assert_eq!(once, again);
}
