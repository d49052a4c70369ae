use oclean::is_passthrough_mode;

#[test]
fn passthrough_detects_version_and_help_flags() {
    assert!(is_passthrough_mode(&vec![String::from("--version")]));
    assert!(is_passthrough_mode(&vec![String::from("-v")]));
    assert!(is_passthrough_mode(&vec![String::from("--help")]));
    assert!(is_passthrough_mode(&vec![String::from("-h")]));
}

#[test]
fn passthrough_ignores_regular_commands() {
    assert!(!is_passthrough_mode(&vec![]));
    assert!(!is_passthrough_mode(&vec![String::from("run")]));
    assert!(!is_passthrough_mode(&vec![
        String::from("--model"),
        String::from("foo/bar"),
    ]));
}

#[test]
fn passthrough_flag_found_among_other_arguments() {
    assert!(is_passthrough_mode(&vec![
        String::from("run"),
        String::from("--version"),
        String::from("extra"),
    ]));
    assert!(!is_passthrough_mode(&vec![
        String::from("--versions"),
        String::from("-vv"),
    ]));
}
