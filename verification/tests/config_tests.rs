use shell_config::config_file::{ConfigError, EnvVariable, ShellConfig};
use shell_config::overlay::{file_content, merge};

fn strings(parts: &[&str]) -> Vec<String> {
    parts.iter().map(|s| s.to_string()).collect()
}

fn env(key: &str, value: &[&str]) -> EnvVariable {
    EnvVariable { key: key.to_string(), value: strings(value) }
}

fn loaded(lines: &[&str]) -> ShellConfig {
    let mut config = ShellConfig::new("/home/u/.zshrc");
    assert!(config.load(Ok(strings(lines))).is_ok());
    config
}

fn at(config: &ShellConfig, index: u64) -> Option<(String, Vec<String>)> {
    config.get(index).map(|e| (e.key.clone(), e.value.clone()))
}

fn sorted_entries(config: &ShellConfig) -> Vec<(u64, String, Vec<String>)> {
    let mut all: Vec<(u64, String, Vec<String>)> =
        config.entries().into_iter().map(|(p, e)| (p, e.key, e.value)).collect();
    all.sort();
    all
}

fn kind(e: &ConfigError) -> &'static str {
    match e {
        ConfigError::NotFound => "not found",
        ConfigError::AlreadyExists => "already exists",
        ConfigError::NoActiveSession => "no session",
        ConfigError::Io(_) => "io",
    }
}

#[test]
fn new_config_is_empty() {
    let config = ShellConfig::new("/home/u/.zshrc");
    assert_eq!(config.path(), "/home/u/.zshrc");
    assert_eq!(config.len(), 0);
    assert_eq!(config.all_lines(), 0);
    assert_eq!(config.path_line(), 0);
    assert!(config.entries().is_empty());
}

#[test]
fn load_stores_each_declaration_under_its_line() {
    let config = loaded(&["# comment", "export FOO=\"bar\"", "", "export PATH=\"/bin:/usr/bin\""]);
    assert_eq!(config.all_lines(), 4);
    assert_eq!(config.len(), 2);
    assert_eq!(config.path_line(), 4);
    assert_eq!(at(&config, 2), Some(("FOO".to_string(), strings(&["bar"]))));
    assert_eq!(at(&config, 4), Some(("PATH".to_string(), strings(&["/bin", "/usr/bin"]))));
    assert_eq!(at(&config, 1), None);
    assert_eq!(at(&config, 3), None);
    assert_eq!(
        sorted_entries(&config),
        vec![
            (2, "FOO".to_string(), strings(&["bar"])),
            (4, "PATH".to_string(), strings(&["/bin", "/usr/bin"])),
        ]
    );
}

#[test]
fn load_remembers_the_last_path_line() {
    let config = loaded(&["export PATH=/a", "export X=1", "export PATH=/b", "x"]);
    assert_eq!(config.path_line(), 3);
    let none = loaded(&["export X=1"]);
    assert_eq!(none.path_line(), 0);
}

#[test]
fn load_starts_anew() {
    let mut config = loaded(&["export PATH=/a", "export X=1", "export Y=2"]);
    assert!(config.add_env(&env("Z", &["3"])).is_ok());
    assert!(config.load(Ok(strings(&["export W=9"]))).is_ok());
    assert_eq!(config.all_lines(), 1);
    assert_eq!(config.path_line(), 0);
    assert_eq!(sorted_entries(&config), vec![(1, "W".to_string(), strings(&["9"]))]);
    assert_eq!(config.path(), "/home/u/.zshrc");
}

#[test]
fn load_failure_changes_nothing() {
    let mut config = loaded(&["export X=1"]);
    let r = config.load(Err("No such file or directory (os error 2)".to_string()));
    match r {
        Err(ConfigError::Io(text)) => assert_eq!(text, "No such file or directory (os error 2)"),
        _ => panic!("expected an I/O failure"),
    }
    assert_eq!(config.all_lines(), 1);
    assert_eq!(sorted_entries(&config), vec![(1, "X".to_string(), strings(&["1"]))]);
}

#[test]
fn load_of_an_empty_file() {
    let config = loaded(&[]);
    assert_eq!(config.all_lines(), 0);
    assert_eq!(config.len(), 0);
}

#[test]
fn update_replaces_or_creates() {
    let mut config = loaded(&["export FOO=bar", "x"]);
    assert!(config.update_env(&1, &env("FOO", &["baz"])).is_ok());
    assert_eq!(at(&config, 1), Some(("FOO".to_string(), strings(&["baz"]))));
    assert!(config.update_env(&7, &env("NEW", &["v"])).is_ok());
    assert_eq!(at(&config, 7), Some(("NEW".to_string(), strings(&["v"]))));
    assert_eq!(config.len(), 2);
    assert_eq!(config.all_lines(), 2);
}

#[test]
fn update_does_not_check_keys() {
    let mut config = loaded(&["export FOO=bar", "export BAR=1"]);
    assert!(config.update_env(&2, &env("FOO", &["x"])).is_ok());
    assert_eq!(at(&config, 1), Some(("FOO".to_string(), strings(&["bar"]))));
    assert_eq!(at(&config, 2), Some(("FOO".to_string(), strings(&["x"]))));
}

#[test]
fn update_at_any_position_succeeds() {
    let mut config = loaded(&["export FOO=bar"]);
    assert!(config.positions_start_at_one());
    assert!(config.update_env(&0, &env("Z", &["1"])).is_ok());
    assert_eq!(at(&config, 0), Some(("Z".to_string(), strings(&["1"]))));
    assert_eq!(at(&config, 1), Some(("FOO".to_string(), strings(&["bar"]))));
    assert_eq!(config.len(), 2);
    assert_eq!(config.all_lines(), 1);
    assert_eq!(config.path_line(), 0);
    assert!(!config.positions_start_at_one());
    assert!(config.update_env(&u64::MAX, &env("FOO", &["far"])).is_ok());
    assert_eq!(at(&config, u64::MAX), Some(("FOO".to_string(), strings(&["far"]))));
    assert_eq!(config.len(), 3);
    assert!(config.remove_env(&0).is_ok());
    assert!(config.positions_start_at_one());
}

#[test]
fn the_number_of_declarations_follows_each_change() {
    let mut config = loaded(&["export FOO=bar", "export X=1"]);
    assert_eq!(config.len(), 2);
    assert!(config.update_env(&1, &env("FOO", &["baz"])).is_ok());
    assert_eq!(config.len(), 2);
    assert!(config.update_env(&9, &env("NINE", &["9"])).is_ok());
    assert_eq!(config.len(), 3);
    assert!(config.add_env(&env("NEW", &["n"])).is_ok());
    assert_eq!(config.len(), 4);
    assert!(config.remove_env(&2).is_ok());
    assert_eq!(config.len(), 3);
    assert!(config.remove_env(&2).is_err());
    assert_eq!(config.len(), 3);
    assert!(config.add_env(&env("NEW", &["again"])).is_err());
    assert_eq!(config.len(), 3);
}

#[test]
fn add_writes_over_what_update_put_on_the_next_line() {
    let mut config = loaded(&["export FOO=bar"]);
    assert!(config.update_env(&2, &env("TWO", &["2"])).is_ok());
    assert!(config.add_env(&env("NEW", &["n"])).is_ok());
    assert_eq!(config.len(), 2);
    assert_eq!(at(&config, 2), Some(("NEW".to_string(), strings(&["n"]))));
}

#[test]
fn add_with_a_key_that_is_there_fails() {
    let mut config = loaded(&["export FOO=bar", "export PATH=/bin"]);
    let before = sorted_entries(&config);
    let r = config.add_env(&env("FOO", &["other"]));
    assert_eq!(kind(&r.unwrap_err()), "already exists");
    assert_eq!(config.len(), 2);
    assert_eq!(config.all_lines(), 2);
    assert_eq!(sorted_entries(&config), before);
}

#[test]
fn add_counts_on_from_the_lines_loaded() {
    let lines: Vec<String> = (0..10).map(|i| format!("export V{}=x", ["a", "b", "c", "d", "e", "f", "g", "h", "i", "j"][i])).collect();
    let mut config = ShellConfig::new("f");
    assert!(config.load(Ok(lines)).is_ok());
    assert_eq!(config.all_lines(), 10);
    assert!(config.remove_env(&4).is_ok());
    assert!(config.add_env(&env("NEW_ONE", &["1"])).is_ok());
    assert_eq!(config.all_lines(), 11);
    assert_eq!(at(&config, 11), Some(("NEW_ONE".to_string(), strings(&["1"]))));
    assert!(config.remove_env(&11).is_ok());
    assert!(config.add_env(&env("NEW_TWO", &["2"])).is_ok());
    assert_eq!(config.all_lines(), 12);
    assert_eq!(at(&config, 12), Some(("NEW_TWO".to_string(), strings(&["2"]))));
    assert_eq!(at(&config, 11), None);
}

#[test]
fn add_to_a_new_config_starts_at_one() {
    let mut config = ShellConfig::new("f");
    assert!(config.add_env(&env("A", &["1"])).is_ok());
    assert!(config.add_env(&env("B", &["2"])).is_ok());
    assert_eq!(
        sorted_entries(&config),
        vec![(1, "A".to_string(), strings(&["1"])), (2, "B".to_string(), strings(&["2"]))]
    );
}

#[test]
fn remove_of_an_absent_position_fails() {
    let mut config = loaded(&["export FOO=bar", "export PATH=/bin"]);
    let before = sorted_entries(&config);
    let r = config.remove_env(&3);
    assert_eq!(kind(&r.unwrap_err()), "not found");
    assert_eq!(kind(&config.remove_env(&0).unwrap_err()), "not found");
    assert_eq!(sorted_entries(&config), before);
    assert_eq!(config.all_lines(), 2);
}

#[test]
fn remove_deletes_exactly_one_entry() {
    let mut config = loaded(&["export FOO=bar", "export PATH=/bin", "export X=1"]);
    assert!(config.remove_env(&2).is_ok());
    assert_eq!(
        sorted_entries(&config),
        vec![(1, "FOO".to_string(), strings(&["bar"])), (3, "X".to_string(), strings(&["1"]))]
    );
    assert_eq!(config.all_lines(), 3);
    assert_eq!(config.path_line(), 2);
}

#[test]
fn has_key_looks_at_every_entry() {
    let config = loaded(&["export FOO=bar", "export PATH=/bin"]);
    assert!(config.has_key(&"FOO".to_string()));
    assert!(config.has_key(&"PATH".to_string()));
    assert!(!config.has_key(&"foo".to_string()));
}

#[test]
fn parse_line_stores_and_remembers_path() {
    let mut config = ShellConfig::new("f");
    config.parse_line(5, "export PATH=/a:/b");
    config.parse_line(6, "not a declaration");
    config.parse_line(7, "export X=1");
    assert_eq!(config.path_line(), 5);
    assert_eq!(config.all_lines(), 0);
    assert_eq!(
        sorted_entries(&config),
        vec![(5, "PATH".to_string(), strings(&["/a", "/b"])), (7, "X".to_string(), strings(&["1"]))]
    );
}

#[test]
fn save_rewrites_an_updated_line_and_keeps_the_rest() {
    let lines = ["# comment", "export FOO=\"bar\"", "export PATH=\"/bin\""];
    let mut config = loaded(&lines);
    assert!(config.update_env(&2, &env("FOO", &["baz"])).is_ok());
    let text = config.save(Ok(strings(&lines))).unwrap();
    assert_eq!(text, "# comment\nexport FOO=\"baz\"\nexport PATH=\"/bin\"\n");
}

#[test]
fn save_appends_an_added_declaration() {
    let lines = ["# rc", "export FOO=bar"];
    let mut config = loaded(&lines);
    assert!(config.add_env(&env("NEW", &["a", "b"])).is_ok());
    assert_eq!(at(&config, 3), Some(("NEW".to_string(), strings(&["a", "b"]))));
    let text = config.save(Ok(strings(&lines))).unwrap();
    assert_eq!(text, "# rc\nexport FOO=\"bar\"\nexport NEW=\"a:b\"\n");
    assert_eq!(text.lines().count(), 3);
}

#[test]
fn save_leaves_the_line_of_a_removed_declaration() {
    let lines = ["export FOO='bar'", "export X=1"];
    let mut config = loaded(&lines);
    assert!(config.remove_env(&1).is_ok());
    let text = config.save(Ok(strings(&lines))).unwrap();
    assert_eq!(text, "export FOO='bar'\nexport X=\"1\"\n");
}

#[test]
fn save_reads_the_file_anew() {
    let mut config = loaded(&["export FOO=bar", "x", "y"]);
    assert!(config.update_env(&3, &env("Z", &["1"])).is_ok());
    let text = config.save(Ok(strings(&["only one line"]))).unwrap();
    let got: Vec<&str> = text.lines().collect();
    assert_eq!(got[0], "export FOO=\"bar\"");
    assert!(got.len() == 2);
    assert_eq!(got[1], "export Z=\"1\"");
}

#[test]
fn save_failure_is_handed_on() {
    let config = loaded(&["export FOO=bar"]);
    match config.save(Err("Permission denied (os error 13)".to_string())) {
        Err(ConfigError::Io(text)) => assert_eq!(text, "Permission denied (os error 13)"),
        _ => panic!("expected an I/O failure"),
    }
}

#[test]
fn save_of_an_empty_config_keeps_the_file() {
    let config = ShellConfig::new("f");
    assert_eq!(config.save(Ok(strings(&["a", "b"]))).unwrap(), "a\nb\n");
    assert_eq!(config.save(Ok(vec![])).unwrap(), "\n");
}

#[test]
fn merge_follows_the_order_of_the_entries() {
    let lines = strings(&["l1", "l2"]);
    let up = vec![(3, env("A", &["1"])), (4, env("B", &["2"]))];
    assert_eq!(
        merge(lines.clone(), &up),
        strings(&["l1", "l2", "export A=\"1\"", "export B=\"2\""])
    );
    let down = vec![(4, env("B", &["2"])), (3, env("A", &["1"]))];
    assert_eq!(merge(lines.clone(), &down), strings(&["l1", "l2", "export A=\"1\""]));
    let far = vec![(9, env("C", &[]))];
    assert_eq!(merge(lines.clone(), &far), strings(&["l1", "l2", "export C=\"\""]));
    let within = vec![(1, env("D", &["x", "y"]))];
    assert_eq!(merge(lines, &within), strings(&["export D=\"x:y\"", "l2"]));
}

#[test]
fn file_content_ends_every_line() {
    assert_eq!(file_content(&strings(&["a", "", "b"])), "a\n\nb\n");
    assert_eq!(file_content(&strings(&[])), "\n");
    assert_eq!(file_content(&strings(&[""])), "\n");
}

#[test]
fn error_messages() {
    assert_eq!(ConfigError::NotFound.message(), "Environment variable not found");
    assert_eq!(ConfigError::AlreadyExists.message(), "Environment variable already exists");
    assert_eq!(ConfigError::NoActiveSession.message(), "No configuration file is loaded");
    assert_eq!(ConfigError::Io("disk".to_string()).message(), "disk");
}

#[test]
fn copy_is_equal() {
    let e = env("K", &["a", "b"]);
    let c = e.copy();
    assert_eq!(c.key, "K");
    assert_eq!(c.value, strings(&["a", "b"]));
}
