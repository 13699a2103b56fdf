use lice::config::{parse_args, parse_usize, Command, Config};

fn args(v: &[&str]) -> Vec<String> {
    v.iter().map(|s| s.to_string()).collect()
}

#[test]
fn full_command_line() {
    let r = parse_args(&args(&["-f", "HEADER.txt", "-e", "vendor", "--exclude", "build", "-j", "3", "src", "include"]));
    assert_eq!(
        r,
        Ok(Command::Run(Config {
            license_file: Some("HEADER.txt".to_string()),
            excludes: args(&["vendor", "build"]),
            targets: args(&["src", "include"]),
            jobs: Some(3),
        }))
    );
}

#[test]
fn empty_arguments_ask_for_help() {
    assert_eq!(parse_args(&Vec::new()), Ok(Command::Help));
    assert_eq!(parse_args(&args(&["-f", "H", "--help", "-x"])), Ok(Command::Help));
    assert_eq!(parse_args(&args(&["-h"])), Ok(Command::Help));
}

#[test]
fn missing_file_flag() {
    assert_eq!(
        parse_args(&args(&["src"])),
        Err("Missing required argument: -f/--file".to_string())
    );
}

#[test]
fn missing_targets() {
    assert_eq!(
        parse_args(&args(&["--file", "H"])),
        Err("No target paths specified. Use '.' for current directory.".to_string())
    );
}

#[test]
fn flags_without_values() {
    assert_eq!(parse_args(&args(&["-f"])), Err("-f/--file requires an argument".to_string()));
    assert_eq!(parse_args(&args(&["-f", "H", "-e"])), Err("-e/--exclude requires an argument".to_string()));
    assert_eq!(parse_args(&args(&["-f", "H", "--jobs"])), Err("-j requires an argument".to_string()));
}

#[test]
fn unknown_option() {
    assert_eq!(parse_args(&args(&["-f", "H", "--verbose", "."])), Err("Unknown option: --verbose".to_string()));
}

#[test]
fn bad_worker_count() {
    assert_eq!(parse_args(&args(&["-f", "H", "-j", "x", "."])), Err("Invalid number for -j".to_string()));
    assert_eq!(parse_args(&args(&["-f", "H", "-j", "-2", "."])), Err("Invalid number for -j".to_string()));
    assert_eq!(parse_args(&args(&["-f", "H", "-j", "0", "."])), Err("Invalid number for -j".to_string()));
}

#[test]
fn later_file_flag_wins() {
    match parse_args(&args(&["-f", "A", ".", "-f", "B"])) {
        Ok(Command::Run(c)) => {
            assert_eq!(c.license_file, Some("B".to_string()));
            assert_eq!(c.targets, args(&["."]));
            assert_eq!(c.jobs, None);
        }
        other => panic!("unexpected {:?}", other),
    }
}

#[test]
fn validate_checks_file_then_targets() {
    let c = Config { license_file: None, excludes: Vec::new(), targets: Vec::new(), jobs: None };
    assert_eq!(c.validate(), Err("Missing required argument: -f/--file".to_string()));
    let ok = Config { license_file: Some("H".to_string()), excludes: Vec::new(), targets: args(&["."]), jobs: Some(2) };
    assert_eq!(ok.clone().validate(), Ok(ok));
}

#[test]
fn decimal_numbers() {
    assert_eq!(parse_usize("0"), Some(0));
    assert_eq!(parse_usize("42"), Some(42));
    assert_eq!(parse_usize("+7"), Some(7));
    assert_eq!(parse_usize("007"), Some(7));
    assert_eq!(parse_usize(""), None);
    assert_eq!(parse_usize("+"), None);
    assert_eq!(parse_usize("-1"), None);
    assert_eq!(parse_usize("1 "), None);
    assert_eq!(parse_usize("١"), None);
    assert_eq!(parse_usize(&usize::MAX.to_string()), Some(usize::MAX));
    assert_eq!(parse_usize("99999999999999999999999"), None);
}
