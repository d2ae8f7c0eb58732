use minigrep::{Config, ConfigError};

#[test]
fn config_new_without_query_and_filename() {
    let args: Vec<String> = vec![String::from("main")];
    if let Err(error) = Config::new(&args, false) {
        assert_eq!(error.as_str(), "not enough arguments");
    }
}

#[test]
fn config_new_without_filename() {
    let args: Vec<String> = vec![String::from("main"), String::from("test")];
    if let Err(error) = Config::new(&args, false) {
        assert_eq!(error.as_str(), "not enough arguments");
    }
}

#[test]
fn config_new_succeeds() {
    let args: Vec<String> = vec![String::from("main"), String::from("test"), String::from("test.txt")];
    let config = Config::new(&args, false).expect("引数が不正");
    assert_eq!(config.query, args[1]);
    assert_eq!(config.filename, args[2]);
}

#[test]
fn program_name_alone_is_not_enough() {
    let args = vec![String::from("prog")];
    assert!(matches!(Config::new(&args, false), Err(ConfigError::NotEnoughArguments)));
}

#[test]
fn query_without_filename_is_not_enough() {
    let args = vec![String::from("prog"), String::from("foo")];
    assert!(matches!(Config::new(&args, true), Err(ConfigError::NotEnoughArguments)));
}

#[test]
fn no_arguments_at_all_is_not_enough() {
    let args: Vec<String> = Vec::new();
    assert_eq!(Config::new(&args, false).err(), Some(ConfigError::NotEnoughArguments));
}

#[test]
fn three_arguments_give_query_and_filename() {
    let args = vec![String::from("prog"), String::from("foo"), String::from("bar.txt")];
    let config = Config::new(&args, false).expect("three arguments are enough");
    assert_eq!(config.query, "foo");
    assert_eq!(config.filename, "bar.txt");
    assert!(config.case_sensitive);
}

#[test]
fn extra_arguments_are_ignored() {
    let args = vec![
        String::from("prog"),
        String::from("needle"),
        String::from("hay.txt"),
        String::from("more"),
    ];
    let config = Config::new(&args, false).expect("four arguments are enough");
    assert_eq!(config.query, "needle");
    assert_eq!(config.filename, "hay.txt");
}

#[test]
fn case_insensitive_flag_turns_off_case_sensitivity() {
    let args = vec![String::from("prog"), String::from("foo"), String::from("bar.txt")];
    let config = Config::new(&args, true).expect("three arguments are enough");
    assert!(!config.case_sensitive);
}

#[test]
fn find_matches_follows_case_setting() {
    let contents = "Rust:\nsafe, fast, productive.\nPick three.\nTrust me.";
    let sensitive = Config::new(
        &[String::from("prog"), String::from("rUsT"), String::from("f")],
        false,
    )
    .expect("three arguments are enough");
    assert_eq!(sensitive.find_matches(contents), Vec::<&str>::new());
    let insensitive = Config::new(
        &[String::from("prog"), String::from("rUsT"), String::from("f")],
        true,
    )
    .expect("three arguments are enough");
    assert_eq!(insensitive.find_matches(contents), vec!["Rust:", "Trust me."]);
}
