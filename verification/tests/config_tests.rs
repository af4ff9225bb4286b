use minigrep::{Config, ConfigError, Param};

#[test]
fn no_arguments_misses_needle() {
    let err = Config::new(vec![], false).unwrap_err();
    assert_eq!(err, ConfigError::MissingArgument(Param::Needle));
    assert_eq!(err.message(), "missing required parameter `needle`");
}

#[test]
fn one_argument_misses_haystack() {
    let err = Config::new(vec!["onlyone".to_string()], false).unwrap_err();
    assert_eq!(err, ConfigError::MissingArgument(Param::Haystack));
    assert_eq!(err.message(), "missing required parameter `haystack`");
}

#[test]
fn three_arguments_are_too_many() {
    let args = vec!["a".to_string(), "b".to_string(), "c".to_string()];
    let err = Config::new(args, false).unwrap_err();
    assert_eq!(err, ConfigError::TooManyArguments);
    assert_eq!(err.message(), "too many arguments");
}

#[test]
fn two_arguments_build_a_sensitive_config() {
    let args = vec!["duct".to_string(), "poem.txt".to_string()];
    let config = Config::new(args, false).unwrap();
    assert_eq!(config.needle, "duct");
    assert_eq!(config.haystack, "poem.txt");
    assert!(config.case_sensitive);
}

#[test]
fn the_toggle_makes_matching_insensitive() {
    let args = vec!["duct".to_string(), "poem.txt".to_string()];
    let config = Config::new(args, true).unwrap();
    assert!(!config.case_sensitive);
}
