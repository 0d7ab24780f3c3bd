use lpm::parser::{signal_for, Command, CommandParser, KillSignal};

#[test]
fn test_parse_list_command() {
    let parser = CommandParser::new();
    let result = parser.parse("ps -a -u root --sort cpu");

    if let Command::ListProcesses { all, user, sort_by } = result.command {
        assert!(all);
        assert_eq!(user, Some("root".to_string()));
        assert_eq!(sort_by, Some("cpu".to_string()));
    } else {
        panic!("Expected ListProcesses command");
    }
}

#[test]
fn test_parse_kill_command() {
    let parser = CommandParser::new();
    let result = parser.parse("kill 1234 SIGTERM");

    if let Command::KillProcess { pid, signal } = result.command {
        assert_eq!(pid, 1234);
        assert_eq!(signal, Some("SIGTERM".to_string()));
    } else {
        panic!("Expected KillProcess command");
    }
}

#[test]
fn test_parse_help() {
    let parser = CommandParser::new();
    let result = parser.parse("help");
    assert!(matches!(result.command, Command::Help));
}

#[test]
fn empty_line_asks_for_help() {
    let parser = CommandParser::new();
    let result = parser.parse("");
    assert_eq!(result.command, Command::Help);
    assert_eq!(result.raw_input, "");
    let result = parser.parse(" \t \n");
    assert_eq!(result.command, Command::Help);
    assert_eq!(result.raw_input, "");
}

#[test]
fn verb_is_matched_in_lower_case() {
    let parser = CommandParser::new();
    assert_eq!(parser.parse("HELP").command, Command::Help);
    assert_eq!(parser.parse("Quit").command, Command::Exit);
    assert_eq!(
        parser.parse("PS -a").command,
        Command::ListProcesses { all: true, user: None, sort_by: None }
    );
    // The Kelvin sign has the small Latin k as its lower case.
    assert_eq!(
        parser.parse("\u{212A}ILL 5").command,
        Command::KillProcess { pid: 5, signal: None }
    );
}

#[test]
fn arguments_keep_their_case() {
    let parser = CommandParser::new();
    assert_eq!(
        parser.parse("list -U root").command,
        Command::ListProcesses { all: false, user: None, sort_by: None }
    );
    assert_eq!(
        parser.parse("find Bash -E").command,
        Command::SearchProcess { name: "Bash".to_string(), exact: false }
    );
}

#[test]
fn raw_input_of_a_command_with_arguments_is_the_arguments_joined() {
    let parser = CommandParser::new();
    let result = parser.parse("  ps   -a \t -u   root  ");
    assert_eq!(result.raw_input, "-a -u root");
    let result = parser.parse("kill");
    assert_eq!(result.raw_input, "");
    let result = parser.parse("info 12");
    assert_eq!(result.raw_input, "12");
}

#[test]
fn raw_input_of_other_commands_is_the_trimmed_line() {
    let parser = CommandParser::new();
    let result = parser.parse("  monitor   7  ");
    assert_eq!(result.command, Command::Monitor { interval: 7 });
    assert_eq!(result.raw_input, "monitor   7");
    let result = parser.parse("\texit\n");
    assert_eq!(result.command, Command::Exit);
    assert_eq!(result.raw_input, "exit");
    let result = parser.parse(" frobnicate  now ");
    assert_eq!(result.command, Command::Unknown("frobnicate  now".to_string()));
    assert_eq!(result.raw_input, "frobnicate  now");
}

#[test]
fn list_flags() {
    let parser = CommandParser::new();
    assert_eq!(
        parser.parse("list").command,
        Command::ListProcesses { all: false, user: None, sort_by: None }
    );
    assert_eq!(
        parser.parse("list --all --user alice -s mem").command,
        Command::ListProcesses {
            all: true,
            user: Some("alice".to_string()),
            sort_by: Some("mem".to_string())
        }
    );
    // A flag that wants a value and stands last is passed over.
    assert_eq!(
        parser.parse("ps -a -u").command,
        Command::ListProcesses { all: true, user: None, sort_by: None }
    );
    // A value is taken as it stands, even where it looks like a flag.
    assert_eq!(
        parser.parse("ps -u -a").command,
        Command::ListProcesses { all: false, user: Some("-a".to_string()), sort_by: None }
    );
    // The later value replaces the earlier one.
    assert_eq!(
        parser.parse("ps -u alice --user bob junk").command,
        Command::ListProcesses { all: false, user: Some("bob".to_string()), sort_by: None }
    );
}

#[test]
fn kill_without_or_with_bad_pid() {
    let parser = CommandParser::new();
    assert_eq!(
        parser.parse("kill").command,
        Command::Unknown("kill: missing PID".to_string())
    );
    assert_eq!(
        parser.parse("kill abc").command,
        Command::Unknown("kill: invalid PID 'abc'".to_string())
    );
    assert_eq!(
        parser.parse("kill -1").command,
        Command::Unknown("kill: invalid PID '-1'".to_string())
    );
    assert_eq!(
        parser.parse("kill 4294967296").command,
        Command::Unknown("kill: invalid PID '4294967296'".to_string())
    );
    assert_eq!(
        parser.parse("kill 4294967295").command,
        Command::KillProcess { pid: 4294967295, signal: None }
    );
    assert_eq!(
        parser.parse("kill +42 SIGKILL extra").command,
        Command::KillProcess { pid: 42, signal: Some("SIGKILL".to_string()) }
    );
    assert_eq!(
        parser.parse("kill 007").command,
        Command::KillProcess { pid: 7, signal: None }
    );
}

#[test]
fn info_command() {
    let parser = CommandParser::new();
    assert_eq!(
        parser.parse("info").command,
        Command::Unknown("info: missing PID".to_string())
    );
    assert_eq!(
        parser.parse("show x1").command,
        Command::Unknown("info: invalid PID 'x1'".to_string())
    );
    assert_eq!(
        parser.parse("info 10").command,
        Command::ProcessInfo { pid: 10, detailed: false }
    );
    assert_eq!(
        parser.parse("show 10 -d").command,
        Command::ProcessInfo { pid: 10, detailed: true }
    );
    assert_eq!(
        parser.parse("info 10 x --detailed").command,
        Command::ProcessInfo { pid: 10, detailed: true }
    );
}

#[test]
fn stats_command() {
    let parser = CommandParser::new();
    assert_eq!(
        parser.parse("stats").command,
        Command::SystemStats { refresh_interval: None }
    );
    assert_eq!(
        parser.parse("stats --refresh=5").command,
        Command::SystemStats { refresh_interval: Some(5) }
    );
    assert_eq!(
        parser.parse("status --refresh 7").command,
        Command::SystemStats { refresh_interval: Some(7) }
    );
    assert_eq!(
        parser.parse("stats --refresh").command,
        Command::SystemStats { refresh_interval: None }
    );
    assert_eq!(
        parser.parse("stats --refresh=abc").command,
        Command::SystemStats { refresh_interval: None }
    );
    assert_eq!(
        parser.parse("stats --refresh=").command,
        Command::SystemStats { refresh_interval: None }
    );
    // A later flag that sets nothing leaves the earlier value.
    assert_eq!(
        parser.parse("stats --refresh=3 --refresh x").command,
        Command::SystemStats { refresh_interval: Some(3) }
    );
    // The last one that sets a value wins.
    assert_eq!(
        parser.parse("stats --refresh 3 --refresh=9").command,
        Command::SystemStats { refresh_interval: Some(9) }
    );
    assert_eq!(
        parser.parse("stats --refresh=18446744073709551615").command,
        Command::SystemStats { refresh_interval: Some(u64::MAX) }
    );
    assert_eq!(
        parser.parse("stats --refresh=18446744073709551616").command,
        Command::SystemStats { refresh_interval: None }
    );
}

#[test]
fn search_command() {
    let parser = CommandParser::new();
    assert_eq!(
        parser.parse("search").command,
        Command::Unknown("search: missing process name".to_string())
    );
    assert_eq!(
        parser.parse("search bash").command,
        Command::SearchProcess { name: "bash".to_string(), exact: false }
    );
    assert_eq!(
        parser.parse("find bash --exact").command,
        Command::SearchProcess { name: "bash".to_string(), exact: true }
    );
    // The name itself counts where it is the flag.
    assert_eq!(
        parser.parse("find -e").command,
        Command::SearchProcess { name: "-e".to_string(), exact: true }
    );
}

#[test]
fn monitor_interval() {
    let parser = CommandParser::new();
    assert_eq!(parser.parse("monitor").command, Command::Monitor { interval: 2 });
    assert_eq!(parser.parse("monitor 10").command, Command::Monitor { interval: 10 });
    assert_eq!(parser.parse("monitor soon").command, Command::Monitor { interval: 2 });
    assert_eq!(parser.parse("Monitor 0").command, Command::Monitor { interval: 0 });
}

#[test]
fn words_are_split_at_any_unicode_whitespace() {
    let parser = CommandParser::new();
    let result = parser.parse("\u{3000}kill\u{00A0}12\u{2003}SIGKILL\u{0085}");
    assert_eq!(
        result.command,
        Command::KillProcess { pid: 12, signal: Some("SIGKILL".to_string()) }
    );
    assert_eq!(result.raw_input, "12 SIGKILL");
    // A zero-width space is no whitespace.
    let result = parser.parse("help\u{200B}");
    assert_eq!(result.command, Command::Unknown("help\u{200B}".to_string()));
}

#[test]
fn dispatch_takes_the_verb_as_given() {
    let parser = CommandParser::new();
    let result = parser.dispatch("kill", &["9"], "kill 9");
    assert_eq!(result.command, Command::KillProcess { pid: 9, signal: None });
    let result = parser.dispatch("KILL", &["9"], "KILL 9");
    assert_eq!(result.command, Command::Unknown("KILL 9".to_string()));
}

#[test]
fn argument_readers_can_be_called_directly() {
    let parser = CommandParser::new();
    let result = parser.parse_list_command(&["-s", "cpu", "-a"]);
    assert_eq!(
        result.command,
        Command::ListProcesses { all: true, user: None, sort_by: Some("cpu".to_string()) }
    );
    assert_eq!(result.raw_input, "-s cpu -a");
    assert_eq!(
        parser.parse_kill_command(&["77"]).command,
        Command::KillProcess { pid: 77, signal: None }
    );
    assert_eq!(
        parser.parse_info_command(&["77", "-d"]).command,
        Command::ProcessInfo { pid: 77, detailed: true }
    );
    assert_eq!(
        parser.parse_stats_command(&["--refresh", "4"]).command,
        Command::SystemStats { refresh_interval: Some(4) }
    );
    assert_eq!(
        parser.parse_search_command(&["init", "-e"]).command,
        Command::SearchProcess { name: "init".to_string(), exact: true }
    );
}

#[test]
fn signal_names() {
    assert_eq!(signal_for(&Some("SIGKILL".to_string())), KillSignal::Kill);
    assert_eq!(signal_for(&Some("SIGTERM".to_string())), KillSignal::Terminate);
    assert_eq!(signal_for(&Some("sigkill".to_string())), KillSignal::Terminate);
    assert_eq!(signal_for(&Some("SIGHUP".to_string())), KillSignal::Terminate);
    assert_eq!(signal_for(&None), KillSignal::Terminate);
}
