use voicecore::cli::{cli_command, parse_options, unknown_command_message, CliCommand};

fn args(a: &[&str]) -> Vec<String> {
    a.iter().map(|s| s.to_string()).collect()
}

#[test]
fn commands_are_recognised() {
    assert_eq!(cli_command(None), CliCommand::Usage);
    assert_eq!(cli_command(Some("enroll")), CliCommand::Enroll);
    assert_eq!(cli_command(Some("process")), CliCommand::Process);
    assert_eq!(cli_command(Some("bench")), CliCommand::Bench);
    assert_eq!(cli_command(Some("live")), CliCommand::Live);
    assert_eq!(cli_command(Some("--help")), CliCommand::Usage);
    assert_eq!(cli_command(Some("-h")), CliCommand::Usage);
    assert_eq!(cli_command(Some("help")), CliCommand::Usage);
    assert_eq!(cli_command(Some("serve")), CliCommand::Unknown("serve".to_string()));
    assert_eq!(unknown_command_message("serve"), "unknown command: serve");
}

#[test]
fn options_take_the_next_argument() {
    let o = parse_options(&args(&["--profile", "me.bin", "--denoise", "0.5", "junk", "--agent-id", "a1"]));
    assert_eq!(o.profile, Some(Some("me.bin".to_string())));
    assert_eq!(o.denoise, Some(Some("0.5".to_string())));
    assert_eq!(o.agent_id, Some(Some("a1".to_string())));
    assert_eq!(o.focus, None);
    assert_eq!(o.input_rate, None);
}

#[test]
fn last_occurrence_wins_and_values_are_not_flags() {
    let o = parse_options(&args(&["--focus", "0.1", "--focus", "--proximity", "--input-rate"]));
    assert_eq!(o.focus, Some(Some("--proximity".to_string())));
    assert_eq!(o.proximity, None);
    assert_eq!(o.input_rate, Some(None));
    let o = parse_options(&args(&["--deepfilter"]));
    assert_eq!(o.deepfilter, Some(None));
}
