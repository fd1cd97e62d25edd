use jrn::cfg::Config;
use jrn::cfg::join_path;
use jrn::cfg::ssh_key_path;
use jrn::cmd::Command;
use jrn::date::DayDate;
use jrn::date::date_file_name;
use jrn::date::format_date;
use jrn::stage::commit_message;
use jrn::digits::to_decimal;
use jrn::digits::to_hex;

#[test]
fn config_debug_returns_the_flag() {
    let c = Config { debug: true, namespace: "default".to_string(), cmd: None };
    assert!(c.debug());
    let c2 = Config { debug: false, namespace: "default".to_string(), cmd: None };
    assert!(!c2.debug());
}

#[test]
fn config_command_returns_the_given_command() {
    let c = Config {
        debug: false,
        namespace: "default".to_string(),
        cmd: Some(Command::Search { terms: vec!["tea".to_string()], limit: 10 }),
    };
    match c.command() {
        Command::Search { terms, limit } => {
            assert_eq!(terms, vec!["tea".to_string()]);
            assert_eq!(limit, 10);
        },
        _ => panic!("expected the search command"),
    }
}

#[test]
fn config_command_defaults_to_a_freshly_named_edit() {
    let c = Config { debug: false, namespace: "default".to_string(), cmd: None };
    match c.command() {
        Command::Edit { entry } => {
            let id = entry.expect("the default edit always names its entry");
            assert!(!id.is_empty());
            assert!(id.chars().all(|ch| ch.is_ascii_hexdigit() && !ch.is_ascii_uppercase()));
        },
        _ => panic!("expected the edit command"),
    }
}

#[test]
fn gen_id_yields_a_nonempty_hex_name() {
    let id = jrn::cmd::gen_id();
    assert!(!id.is_empty());
    assert!(id.chars().all(|ch| ch.is_ascii_hexdigit() && !ch.is_ascii_uppercase()));
}

#[test]
fn to_hex_renders_exact_digits() {
    assert_eq!(to_hex(0), "0");
    assert_eq!(to_hex(10), "a");
    assert_eq!(to_hex(255), "ff");
    assert_eq!(to_hex(4096), "1000");
    assert_eq!(to_hex(0xdead_beef), "deadbeef");
}

#[test]
fn join_path_uses_one_separator() {
    assert_eq!(join_path("/data", "jrn"), "/data/jrn");
}

#[test]
fn ssh_key_path_is_under_the_home_directory() {
    assert_eq!(ssh_key_path("/home/u"), "/home/u/.ssh/id_rsa");
}

#[test]
fn config_dir_ends_with_the_namespace() {
    let c = Config { debug: false, namespace: "work".to_string(), cmd: None };
    if let Some(d) = c.dir() {
        assert!(d.ends_with("/work"));
        assert!(d.contains("/jrn/"));
    }
}

#[test]
fn config_file_names_the_dated_entry() {
    let c = Config { debug: false, namespace: "work".to_string(), cmd: None };
    let d = DayDate { year: 2021, month: 3, day: 7 };
    if let Some(f) = c.file(&d) {
        assert!(f.ends_with("/work/2021-03-07.md"));
    }
}

#[test]
fn format_date_pads_every_field() {
    let d = DayDate { year: 987, month: 3, day: 7 };
    assert_eq!(format_date(&d), "0987-03-07");
    let d2 = DayDate { year: 2021, month: 12, day: 31 };
    assert_eq!(format_date(&d2), "2021-12-31");
}

#[test]
fn date_file_name_appends_the_suffix() {
    let d = DayDate { year: 2021, month: 3, day: 7 };
    assert_eq!(date_file_name(&d), "2021-03-07.md");
}

#[test]
fn to_decimal_renders_exact_digits() {
    assert_eq!(to_decimal(0), "0");
    assert_eq!(to_decimal(7), "7");
    assert_eq!(to_decimal(42), "42");
    assert_eq!(to_decimal(1000), "1000");
}

#[test]
fn commit_message_counts_the_files() {
    assert_eq!(commit_message(1), "Add/update 1 files");
    assert_eq!(commit_message(23), "Add/update 23 files");
}
