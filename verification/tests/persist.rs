use ip_registry::config::{config_path, state_file_place, MAX_PROXY_REQUEST_BODY_BYTES};
use ip_registry::persist::{first_save_step, next_save_step, temp_file_name, SaveStep};

fn steps(json_has_dir: bool, db_has_dir: bool) -> Vec<SaveStep> {
    let mut step = first_save_step(json_has_dir, db_has_dir);
    let mut all = vec![step];
    while step != SaveStep::Saved {
        step = next_save_step(step, db_has_dir, true);
        all.push(step);
    }
    all
}

#[test]
fn whitelist_is_written_before_the_state() {
    assert_eq!(
        steps(true, true),
        vec![
            SaveStep::MakeJsonDir,
            SaveStep::MakeDbDir,
            SaveStep::WriteJson,
            SaveStep::RenameJson,
            SaveStep::WriteDb,
            SaveStep::RenameDb,
            SaveStep::Saved,
        ]
    );
}

#[test]
fn directories_are_made_only_where_named() {
    assert_eq!(steps(false, false)[0], SaveStep::WriteJson);
    assert_eq!(steps(false, true)[0], SaveStep::MakeDbDir);
    assert_eq!(steps(true, false)[1], SaveStep::WriteJson);
    assert_eq!(steps(false, false).len(), 5);
}

#[test]
fn failure_ends_the_write() {
    for step in steps(true, true) {
        if step != SaveStep::Saved {
            assert_eq!(next_save_step(step, true, false), SaveStep::Failed);
        }
    }
    assert_eq!(next_save_step(SaveStep::Failed, true, true), SaveStep::Failed);
    assert_eq!(next_save_step(SaveStep::Saved, true, false), SaveStep::Saved);
}

#[test]
fn temporary_file_is_named_after_file_and_process() {
    assert_eq!(temp_file_name(Some("rules.json"), 4711), "rules.json.tmp.4711");
    assert_eq!(temp_file_name(None, 0), "ip_whitelist.tmp.0");
    assert_eq!(temp_file_name(Some(""), u32::MAX), ".tmp.4294967295");
}

fn args(list: &[&str]) -> Vec<String> {
    list.iter().map(|arg| arg.to_string()).collect()
}

#[test]
fn configuration_has_a_usual_place() {
    assert_eq!(config_path(&args(&[])), "config.toml");
    assert_eq!(config_path(&args(&["prog"])), "config.toml");
    assert_eq!(config_path(&args(&["prog", "-c"])), "config.toml");
    assert_eq!(config_path(&args(&["-c", "x"])), "config.toml");
}

#[test]
fn first_flag_names_the_configuration() {
    assert_eq!(config_path(&args(&["prog", "-c", "a.toml"])), "a.toml");
    assert_eq!(config_path(&args(&["prog", "--config", "b.toml"])), "b.toml");
    assert_eq!(config_path(&args(&["prog", "x", "-c", "a", "--config", "b"])), "a");
    assert_eq!(config_path(&args(&["prog", "-c", "-c", "a"])), "-c");
}

#[test]
fn state_file_stands_next_to_the_configuration() {
    let place = |dir: &str, name: &str| (dir.to_string(), name.to_string());
    assert_eq!(state_file_place(Some("/etc/x")), place("/etc/x", "ip_whitelist.json.db"));
    assert_eq!(state_file_place(Some("")), place("", "ip_whitelist.json.db"));
    assert_eq!(state_file_place(None), place(".", "ip_whitelist.json.db"));
}

#[test]
fn bodies_of_a_mebibyte_are_sent_on() {
    assert_eq!(MAX_PROXY_REQUEST_BODY_BYTES, 1048576);
}
