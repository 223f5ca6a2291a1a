use myfind::option::Options;

fn options(tokens: &[&str]) -> Options {
    Options::new(tokens.iter().map(|t| t.to_string()).collect())
}

fn flags(verbose: bool, help: bool, version: bool, recursive: bool) -> Options {
    Options { verbose, help, version, recursive }
}

#[test]
fn no_token_turns_nothing_on() {
    assert_eq!(options(&[]), flags(false, false, false, false));
}

#[test]
fn short_switches() {
    assert_eq!(options(&["-v"]), flags(true, false, false, false));
    assert_eq!(options(&["-V"]), flags(false, false, true, false));
    assert_eq!(options(&["-r"]), flags(false, false, false, true));
}

#[test]
fn long_switches() {
    assert_eq!(options(&["--verbose"]), flags(true, false, false, false));
    assert_eq!(options(&["--version"]), flags(false, false, true, false));
    assert_eq!(options(&["--recursive"]), flags(false, false, false, true));
}

#[test]
fn help_switches_turn_help_on() {
    assert_eq!(options(&["-h"]), flags(false, true, false, false));
    assert_eq!(options(&["--help"]), flags(false, true, false, false));
}

#[test]
fn unknown_switch_turns_help_on() {
    assert_eq!(options(&["-x"]), flags(false, true, false, false));
    assert_eq!(options(&["--verbos"]), flags(false, true, false, false));
    assert_eq!(options(&["-"]), flags(false, true, false, false));
    assert_eq!(options(&["-vr"]), flags(false, true, false, false));
}

#[test]
fn case_matters() {
    assert_eq!(options(&["-R"]), flags(false, true, false, false));
    assert_eq!(options(&["--Verbose"]), flags(false, true, false, false));
}

#[test]
fn switches_combine() {
    assert_eq!(options(&["-v", "-r"]), flags(true, false, false, true));
    assert_eq!(options(&["-r", "--version", "-v", "-q"]), flags(true, true, true, true));
}

#[test]
fn repeated_switch_changes_nothing() {
    assert_eq!(options(&["-r", "-r", "--recursive"]), flags(false, false, false, true));
}

#[test]
fn unknown_switch_keeps_the_others() {
    assert_eq!(options(&["-v", "--nope", "-V"]), flags(true, true, true, false));
}

#[test]
fn a_token_without_dash_counts_as_unknown() {
    assert_eq!(options(&["verbose"]), flags(false, true, false, false));
    assert_eq!(options(&[""]), flags(false, true, false, false));
}
