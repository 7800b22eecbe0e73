use lib::args::{canonical_key, optional_bool, parse_args, parse_bool, split_assignment, usage};

fn strings(items: &[&str]) -> Vec<String> {
    items.iter().map(|s| s.to_string()).collect()
}

#[test]
fn split_assignment_splits_at_first_equals_and_trims_dashes() {
    assert_eq!(split_assignment("--Deem=75"), Some(("Deem", "75")));
    assert_eq!(split_assignment("OutputDir=a=b"), Some(("OutputDir", "a=b")));
    assert_eq!(split_assignment("-x="), Some(("x", "")));
    assert_eq!(split_assignment("--Deem"), None);
}

#[test]
fn split_assignment_rejoins_to_the_argument() {
    for arg in ["--OnlyJSON=true", "OutputName=repo", "---a=b=c", "=v"] {
        let (key, value) = split_assignment(arg).unwrap();
        let dashes = arg.len() - arg.trim_start_matches('-').len();
        assert_eq!(format!("{}{}={}", "-".repeat(dashes), key, value), arg);
        assert!(!key.contains('='));
    }
}

#[test]
fn canonical_key_drops_dashes_case_and_separators() {
    assert_eq!(canonical_key("--Only_JSON"), "onlyjson");
    assert_eq!(canonical_key("output-files"), "outputfiles");
    assert_eq!(canonical_key("--no-output-files"), "nooutputfiles");
    assert_eq!(canonical_key("ResultOnly"), "resultonly");
}

#[test]
fn canonical_key_is_a_fixed_point() {
    for key in ["--Only_JSON", "Deem", "-_-X-y_Z", ""] {
        let once = canonical_key(key);
        assert_eq!(canonical_key(&once), once);
    }
}

#[test]
fn parse_bool_reads_the_documented_words() {
    for word in ["true", "T", "1", "YES", "y", "On"] {
        assert_eq!(parse_bool(word), Ok(true));
    }
    for word in ["false", "F", "0", "No", "n", "OFF"] {
        assert_eq!(parse_bool(word), Ok(false));
    }
    assert_eq!(parse_bool("maybe"), Err("invalid boolean value: maybe".to_string()));
}

#[test]
fn printed_booleans_read_back() {
    assert_eq!(parse_bool(&true.to_string()), Ok(true));
    assert_eq!(parse_bool(&false.to_string()), Ok(false));
}

#[test]
fn optional_bool_takes_a_following_boolean_only() {
    let raw = strings(&["--OnlyJSON", "false", "--x", "a=b", "maybe"]);
    assert_eq!(optional_bool(&raw, 1), Ok((Some(false), 1)));
    assert_eq!(optional_bool(&raw, 2), Ok((None, 0)));
    assert_eq!(optional_bool(&raw, 3), Ok((None, 0)));
    assert_eq!(optional_bool(&raw, 4), Ok((None, 0)));
    assert_eq!(optional_bool(&raw, 9), Ok((None, 0)));
}

#[test]
fn usage_lists_every_option() {
    assert_eq!(
        usage(),
        "ai-code-detector <target> [--Deem <0-100>] [--OnlyJSON <true|false>] [--OutputFiles <true|false>] [--ResultOnly <true|false>] [--OutputDir <path>] [--OutputName <name>]"
    );
}

#[test]
fn parse_args_defaults() {
    let scan = parse_args(&strings(&["repo"]));
    assert!(scan.deem_values.is_empty());
    let args = scan.outcome.unwrap();
    assert_eq!(args.target, "repo");
    assert_eq!(args.deem, None);
    assert!(!args.only_json);
    assert!(args.output_files);
    assert!(!args.result_only);
    assert_eq!(args.output_dir, ".");
    assert_eq!(args.output_name, "ai_detection_report");
}

#[test]
fn parse_args_reads_the_documented_forms() {
    let scan = parse_args(&strings(&[
        "repo", "--Deem", "75", "--OnlyJSON", "true", "--OutputFiles", "false", "--OutputDir", "./scan-results",
        "--OutputName", "repo",
    ]));
    assert_eq!(scan.deem_values, vec!["75".to_string()]);
    let args = scan.outcome.unwrap();
    assert_eq!(args.deem, Some("75".to_string()));
    assert!(args.only_json);
    assert!(!args.output_files);
    assert_eq!(args.output_dir, "./scan-results");
    assert_eq!(args.output_name, "repo");

    let args = parse_args(&strings(&["OnlyJSON=true", "OutputFiles=false", "ResultOnly=true", "repo", "deem=10"]))
        .outcome
        .unwrap();
    assert!(args.only_json && !args.output_files && args.result_only);
    assert_eq!(args.deem, Some("10".to_string()));

    let args = parse_args(&strings(&["--only-json", "--no-output-files", "--result-only", "repo"])).outcome.unwrap();
    assert!(args.only_json && !args.output_files && args.result_only);

    let args = parse_args(&strings(&["repo", "--ResultOnly", "true"])).outcome.unwrap();
    assert!(args.result_only);
}

#[test]
fn parse_args_errors() {
    assert_eq!(parse_args(&strings(&["repo", "-h"])).outcome.err(), Some(String::new()));
    assert_eq!(parse_args(&strings(&[])).outcome.err(), Some("missing target path".to_string()));
    assert_eq!(
        parse_args(&strings(&["repo", "--bogus"])).outcome.err(),
        Some("unknown argument: --bogus".to_string())
    );
    assert_eq!(
        parse_args(&strings(&["repo", "Bogus=1"])).outcome.err(),
        Some("unknown argument: Bogus=1".to_string())
    );
    assert_eq!(
        parse_args(&strings(&["a", "b"])).outcome.err(),
        Some("unexpected positional argument: b".to_string())
    );
    assert_eq!(
        parse_args(&strings(&["repo", "--Deem"])).outcome.err(),
        Some("--Deem requires a value".to_string())
    );
    assert_eq!(
        parse_args(&strings(&["repo", "--OutputDir"])).outcome.err(),
        Some("--OutputDir requires a value".to_string())
    );
    assert_eq!(
        parse_args(&strings(&["repo", "--OutputName"])).outcome.err(),
        Some("--OutputName requires a value".to_string())
    );
    assert_eq!(
        parse_args(&strings(&["repo", "OnlyJSON=perhaps"])).outcome.err(),
        Some("invalid boolean value: perhaps".to_string())
    );
}

#[test]
fn parse_args_keeps_thresholds_seen_before_an_error() {
    let scan = parse_args(&strings(&["repo", "--Deem", "abc", "--bogus", "--Deem", "5"]));
    assert_eq!(scan.deem_values, vec!["abc".to_string()]);
    assert_eq!(scan.outcome.err(), Some("unknown argument: --bogus".to_string()));
}

#[test]
fn boolean_flag_without_value_means_true() {
    let args = parse_args(&strings(&["--OnlyJSON", "repo"])).outcome.unwrap();
    assert!(args.only_json);
    assert_eq!(args.target, "repo");
}

#[test]
fn canonical_key_has_no_separators_or_capitals() {
    assert_eq!(canonical_key("--Output_Files"), "outputfiles");
    assert_eq!(canonical_key("No-Output-Files"), "nooutputfiles");
    for key in ["--Output_Files", "A-b_C", "--ÄB"] {
        let c = canonical_key(key);
        assert!(!c.contains('-') && !c.contains('_') && !c.chars().any(|ch| ch.is_ascii_uppercase()));
    }
}
