use companion::config::{
    backup_name, count_enabled, is_backup_file, sort_newest_first, timestamp_of, validate_config, version_of,
    Channels, ConfigFacts, ConfigHistoryVersion, ConfigIssue, DefaultModel, Providers,
    KEPT_BACKUPS,
};
use companion::names::{bytes_le, name_order};
use companion::netdev::{
    count_line, first_number, get_network_stats_impl, netstat_counters, split_fields,
};
use companion::numbers::{parse_i64, parse_u64};
use companion::paths::{
    config_history_dir_in, config_path_in, get_log_path, get_theme_config_path, join, log_path_in,
    theme_path_in, workspace_path_in, ConfigurationError,
};
use companion::recency::{beyond_kept, newest_first};
use companion::session::{
    ends_at, file_name_with, is_session_file, length_without, renamed_file, session_name_len,
};
use companion::network::{NetworkMonitor, NetworkStats};
use companion::theme::{
    get_theme, is_valid_theme, load_theme, next_theme, pick_theme, set_theme, toggle_theme,
    ThemeState,
};

#[test]
fn speeds_are_the_growth_of_the_counters() {
    let mut m = NetworkMonitor::new(1_000, 500);
    let stats = m.get_stats(1_800, 650);
    assert_eq!(
        stats,
        NetworkStats { upload_speed: 150, download_speed: 800, total_upload: 650, total_download: 1_800 }
    );
    let idle = m.get_stats(1_800, 650);
    assert_eq!(idle.upload_speed, 0);
    assert_eq!(idle.download_speed, 0);
    assert_eq!(idle.total_download, 1_800);
}

#[test]
fn a_counter_that_falls_gives_no_speed() {
    let mut m = NetworkMonitor::new(u64::MAX, 10);
    let stats = m.get_stats(5, 3);
    assert_eq!(stats.download_speed, 0);
    assert_eq!(stats.upload_speed, 0);
    assert_eq!(stats.total_download, 5);
    assert_eq!(stats.total_upload, 3);
    let next = m.get_stats(u64::MAX, 4);
    assert_eq!(next.download_speed, u64::MAX - 5);
    assert_eq!(next.upload_speed, 1);
}

#[test]
fn theme_names() {
    assert!(is_valid_theme(&"light".to_string()));
    assert!(is_valid_theme(&"dark".to_string()));
    assert!(!is_valid_theme(&"Dark".to_string()));
    assert!(!is_valid_theme(&"".to_string()));
    assert!(!is_valid_theme(&"blue".to_string()));
}

#[test]
fn saved_theme_is_read_from_the_document() {
    assert_eq!(load_theme(Some("{\"theme\": \"dark\"}")), "dark");
    assert_eq!(load_theme(Some("{\"theme\": \"light\"}")), "light");
    assert_eq!(load_theme(Some("{\"other\": 1, \"theme\": \"dark\"}")), "dark");
}

#[test]
fn anything_else_gives_the_light_theme() {
    assert_eq!(load_theme(None), "light");
    assert_eq!(load_theme(Some("")), "light");
    assert_eq!(load_theme(Some("dark")), "light");
    assert_eq!(load_theme(Some("{\"theme\": \"blue\"}")), "light");
    assert_eq!(load_theme(Some("{\"theme\": 3}")), "light");
    assert_eq!(load_theme(Some("{\"colour\": \"dark\"}")), "light");
    assert_eq!(load_theme(Some("{\"theme\": \"dark\"")), "light");
    assert_eq!(pick_theme(None), "light");
    assert_eq!(pick_theme(Some("dark".to_string())), "dark");
    assert_eq!(pick_theme(Some("darker".to_string())), "light");
}

#[test]
fn theme_state_starts_from_what_is_saved() {
    assert_eq!(get_theme(&ThemeState::new(None)), "light");
    assert_eq!(get_theme(&ThemeState::new(Some("{\"theme\":\"dark\"}"))), "dark");
}

#[test]
fn set_theme_refuses_other_names() {
    let mut state = ThemeState::new(None);
    assert_eq!(set_theme("dark".to_string(), &mut state), Ok("dark".to_string()));
    assert_eq!(get_theme(&state), "dark");
    assert_eq!(
        set_theme("blue".to_string(), &mut state),
        Err("Invalid theme value. Must be 'light' or 'dark'".to_string())
    );
    assert_eq!(get_theme(&state), "dark");
    assert_eq!(set_theme("light".to_string(), &mut state), Ok("light".to_string()));
    assert_eq!(get_theme(&state), "light");
}

#[test]
fn toggle_goes_back_and_forth() {
    let mut state = ThemeState::new(None);
    assert_eq!(next_theme(&state), "dark");
    assert_eq!(get_theme(&state), "light");
    assert_eq!(toggle_theme(&mut state), "dark");
    assert_eq!(get_theme(&state), "dark");
    assert_eq!(toggle_theme(&mut state), "light");
    assert_eq!(get_theme(&state), "light");
}

fn version(name: &str, timestamp: i64) -> ConfigHistoryVersion {
    ConfigHistoryVersion { filename: name.to_string(), timestamp, size: 1 }
}

#[test]
fn history_is_sorted_newest_first() {
    let sorted = sort_newest_first(vec![
        version("a", 10),
        version("b", 30),
        version("c", 0),
        version("d", 30),
        version("e", 20),
    ]);
    let names: Vec<&str> = sorted.iter().map(|v| v.filename.as_str()).collect();
    assert_eq!(names, vec!["b", "d", "e", "a", "c"]);
    assert!(sort_newest_first(Vec::new()).is_empty());
}

#[test]
fn cleanup_removes_what_is_beyond_the_kept_backups() {
    assert_eq!(KEPT_BACKUPS, 10);
    let times: Vec<i128> = vec![5, 9, 1, 9, 7];
    let order = newest_first(&times);
    assert_eq!(order, vec![1, 3, 4, 0, 2]);
    assert_eq!(beyond_kept(order.clone(), 2), vec![4, 0, 2]);
    assert_eq!(beyond_kept(order.clone(), 5), Vec::<usize>::new());
    assert_eq!(beyond_kept(order.clone(), 9), Vec::<usize>::new());
    assert_eq!(beyond_kept(order, 0), vec![1, 3, 4, 0, 2]);
    let many: Vec<i128> = (0..13).collect();
    assert_eq!(beyond_kept(newest_first(&many), KEPT_BACKUPS), vec![2, 1, 0]);
    assert!(newest_first(&Vec::new()).is_empty());
}

#[test]
fn backup_names_give_their_time() {
    assert_eq!(timestamp_of("config_1700000000.json"), 1_700_000_000);
    assert_eq!(timestamp_of("config_-42.json"), -42);
    assert_eq!(timestamp_of("config_+7.json"), 7);
    assert_eq!(timestamp_of("config_007.json"), 7);
    assert_eq!(timestamp_of("config_.json"), 0);
    assert_eq!(timestamp_of("config_12a.json"), 0);
    assert_eq!(timestamp_of("config_12.txt"), 0);
    assert_eq!(timestamp_of("backup_12.json"), 0);
    assert_eq!(timestamp_of("config_99999999999999999999.json"), 0);
    assert_eq!(timestamp_of(""), 0);
    let v = version_of("config_15.json".to_string(), 321);
    assert_eq!(v.filename, "config_15.json");
    assert_eq!(v.timestamp, 15);
    assert_eq!(v.size, 321);
}

#[test]
fn backups_are_the_json_files() {
    assert!(is_backup_file("config_1.json"));
    assert!(is_backup_file("a.json"));
    assert!(!is_backup_file(".json"));
    assert!(!is_backup_file("config_1.json.bak"));
    assert!(!is_backup_file("json"));
    assert!(!is_backup_file(""));
}

#[test]
fn numbers_are_read_as_the_standard_library_reads_them() {
    for text in ["0", "7", "+7", "0042", "18446744073709551615", "18446744073709551616", "", "+",
        "-1", "1 ", " 1", "12x", "++1", "99999999999999999999999"] {
        assert_eq!(parse_u64(text.as_bytes()), text.parse::<u64>().ok(), "{:?}", text);
    }
    for text in ["0", "-0", "7", "+7", "-7", "9223372036854775807", "9223372036854775808",
        "-9223372036854775808", "-9223372036854775809", "", "+", "-", "--1", "+-1", "1-", "12x"] {
        assert_eq!(parse_i64(text.as_bytes()), text.parse::<i64>().ok(), "{:?}", text);
    }
}

#[test]
fn a_configuration_without_providers_is_invalid() {
    let v = validate_config(ConfigFacts {
        providers: Providers::Missing,
        default_model: DefaultModel::Missing,
        channels: Channels::NotAnObject,
    });
    assert!(!v.valid);
    assert_eq!(v.errors, vec![ConfigIssue::ProvidersMissing]);
    assert!(v.warnings.is_empty());
}

#[test]
fn an_empty_default_model_is_an_error() {
    for model in [DefaultModel::Text(0), DefaultModel::NotText] {
        let v = validate_config(ConfigFacts {
            providers: Providers::Missing,
            default_model: model,
            channels: Channels::Object(0),
        });
        assert!(!v.valid);
        assert_eq!(v.errors, vec![ConfigIssue::ProvidersMissing, ConfigIssue::DefaultModelEmpty]);
        assert_eq!(v.warnings, vec![ConfigIssue::NoChannelEnabled]);
    }
}

#[test]
fn warnings_leave_a_configuration_valid() {
    let v = validate_config(ConfigFacts {
        providers: Providers::Object(0),
        default_model: DefaultModel::Text(5),
        channels: Channels::Object(0),
    });
    assert!(v.valid);
    assert!(v.errors.is_empty());
    assert_eq!(v.warnings, vec![ConfigIssue::NoProvider, ConfigIssue::NoChannelEnabled]);
    let fine = validate_config(ConfigFacts {
        providers: Providers::Object(2),
        default_model: DefaultModel::Text(5),
        channels: Channels::Object(1),
    });
    assert!(fine.valid);
    assert!(fine.errors.is_empty());
    assert!(fine.warnings.is_empty());
    let odd = validate_config(ConfigFacts {
        providers: Providers::NotAnObject,
        default_model: DefaultModel::Missing,
        channels: Channels::NotAnObject,
    });
    assert!(odd.valid);
    assert!(odd.warnings.is_empty());
}

#[test]
fn enabled_channels_are_counted() {
    assert_eq!(count_enabled(&vec![true, false, true, true]), 3);
    assert_eq!(count_enabled(&vec![false, false]), 0);
    assert_eq!(count_enabled(&Vec::new()), 0);
}

#[test]
fn sessions_are_the_md_and_json_files() {
    assert!(is_session_file("chat.md"));
    assert!(is_session_file("chat.json"));
    assert!(is_session_file(".md"));
    assert!(!is_session_file("chat.txt"));
    assert!(!is_session_file("md"));
    assert!(!is_session_file("chat.md.bak"));
}

#[test]
fn session_names_lose_their_endings() {
    assert_eq!(session_name_len("chat.md"), 4);
    assert_eq!(session_name_len("chat.json"), 4);
    assert_eq!(session_name_len("chat.md.md"), 4);
    assert_eq!(session_name_len("chat.json.md"), 4);
    assert_eq!(session_name_len("chat.md.json"), 7);
    assert_eq!(session_name_len("chat"), 4);
    assert_eq!(session_name_len(".md"), 0);
    assert_eq!(session_name_len(""), 0);
    for name in ["chat.md", "a.json.json.md.md", "x.md.json", "plain", "caf\u{e9}.md"] {
        let expected = name.trim_end_matches(".md").trim_end_matches(".json");
        assert_eq!(&name[..session_name_len(name)], expected);
    }
}

#[test]
fn endings_are_found_in_a_prefix() {
    assert!(ends_at(b"abcdef", 3, b"bc"));
    assert!(!ends_at(b"abcdef", 3, b"ef"));
    assert!(ends_at(b"abcdef", 6, b""));
    assert!(!ends_at(b"ab", 1, b"ab"));
    assert_eq!(length_without(b"xababab", 7, b"ab"), 1);
    assert_eq!(length_without(b"xababab", 6, b"ab"), 6);
    assert_eq!(length_without(b"abab", 4, b""), 4);
    assert_eq!(length_without(b"abab", 4, b"ab"), 0);
}

#[test]
fn paths_lie_under_the_home_directory() {
    assert_eq!(
        log_path_in(Some("/home/u".to_string()), "app"),
        Ok("/home/u/.appdata/logs/app.log".to_string())
    );
    assert_eq!(log_path_in(None, "app"), Err(ConfigurationError::NoHomeDirectory));
    assert_eq!(
        config_path_in(Some("/home/u".to_string())),
        Ok("/home/u/.nanobot/config.json".to_string())
    );
    assert_eq!(config_path_in(None), Err(ConfigurationError::NoHomeDirectory));
    assert_eq!(
        config_history_dir_in(Some("/home/u".to_string())),
        Ok("/home/u/.nanobot/config_history".to_string())
    );
    assert_eq!(config_history_dir_in(None), Err(ConfigurationError::NoHomeDirectory));
    assert_eq!(
        workspace_path_in(Some("/home/u".to_string())),
        Ok("/home/u/.nanobot/workspace".to_string())
    );
    assert_eq!(workspace_path_in(None), Err(ConfigurationError::NoHomeDirectory));
    assert_eq!(theme_path_in(Some("/home/u".to_string())), "/home/u/.nanobot/theme.json");
    assert_eq!(theme_path_in(None), "./.nanobot/theme.json");
    assert_eq!(join("a".to_string(), "b"), "a/b");
}

#[test]
fn paths_of_the_user_end_as_they_should() {
    if let Ok(path) = get_log_path("app") {
        assert!(path.ends_with("/.appdata/logs/app.log"));
        assert!(path.len() > "/.appdata/logs/app.log".len());
    }
    assert!(get_theme_config_path().ends_with("/.nanobot/theme.json"));
}

#[test]
fn lines_are_split_into_fields() {
    assert_eq!(
        split_fields(b"  eth0: 10\t20  x "),
        vec![b"eth0:".to_vec(), b"10".to_vec(), b"20".to_vec(), b"x".to_vec()]
    );
    assert!(split_fields(b"").is_empty());
    assert!(split_fields(b" \t ").is_empty());
    assert_eq!(split_fields(b"one"), vec![b"one".to_vec()]);
}

#[test]
fn interface_lines_count_their_second_and_tenth_field() {
    assert_eq!(count_line(b"eth0: 100 1 0 0 0 0 0 0 200 2 0 0 0 0 0 0"), (100, 200));
    assert_eq!(count_line(b"lo: 100 1 0 0 0 0 0 0 200 2 0 0 0 0 0 0"), (0, 0));
    assert_eq!(count_line(b"eth0: 100 1 0 0 0 0 0 0"), (0, 0));
    assert_eq!(count_line(b"eth0: x 1 0 0 0 0 0 0 200"), (0, 200));
    assert_eq!(count_line(b"eth0: 5 1 0 0 0 0 0 0 y"), (5, 0));
    assert_eq!(count_line(b""), (0, 0));
}

#[test]
fn interface_table_is_summed_without_the_loopback() {
    let table = b"Inter-|   Receive                                                |  Transmit\n face |bytes    packets errs drop fifo frame compressed multicast|bytes    packets errs drop fifo colls carrier compressed\n    lo: 1000 10 0 0 0 0 0 0 1000 10 0 0 0 0 0 0\n  eth0: 5000 50 0 0 0 0 0 0 7000 70 0 0 0 0 0 0\n wlan0: 300 3 0 0 0 0 0 0 40 4 0 0 0 0 0 0\n";
    assert_eq!(get_network_stats_impl(table), (5300, 7040));
    assert_eq!(get_network_stats_impl(b""), (0, 0));
    assert_eq!(get_network_stats_impl(b"a\nb\n"), (0, 0));
    assert_eq!(
        get_network_stats_impl(b"eth0: 1 1 0 0 0 0 0 0 1 1\neth0: 1 1 0 0 0 0 0 0 1 1\n"),
        (0, 0)
    );
    assert_eq!(
        get_network_stats_impl(
            b"h\nh\ne: 18446744073709551615 0 0 0 0 0 0 0 1\nf: 2 0 0 0 0 0 0 0 3\n"
        ),
        (1, 4)
    );
}

#[test]
fn names_compare_as_strings_do() {
    let names = ["", "a", "ab", "b", "B", "a\u{e9}", "abc", "ab", "z"];
    for a in names {
        for b in names {
            assert_eq!(bytes_le(a.as_bytes(), b.as_bytes()), a <= b, "{:?} {:?}", a, b);
        }
    }
}

#[test]
fn names_are_put_in_rising_order() {
    let names: Vec<Vec<u8>> = ["notes.md", "a.txt", "notes", "a.txt", "Zeta", ""]
        .iter()
        .map(|n| n.as_bytes().to_vec())
        .collect();
    assert_eq!(name_order(&names), vec![5, 4, 1, 3, 2, 0]);
    assert!(name_order(&Vec::new()).is_empty());
}

#[test]
fn backups_are_named_after_their_time() {
    assert_eq!(backup_name(1_700_000_000), "config_1700000000.json");
    assert_eq!(backup_name(0), "config_0.json");
    assert_eq!(backup_name(7), "config_7.json");
    assert_eq!(backup_name(10), "config_10.json");
    assert_eq!(backup_name(-305), "config_-305.json");
    assert_eq!(backup_name(i64::MAX), "config_9223372036854775807.json");
    assert_eq!(backup_name(i64::MIN), "config_-9223372036854775808.json");
}

#[test]
fn the_name_of_a_backup_gives_its_time_back() {
    for t in [0, 1, 9, 10, 99, 100, 1_700_000_000, -1, -10, i64::MAX, i64::MIN, i64::MIN + 1] {
        assert_eq!(timestamp_of(&backup_name(t)), t);
        assert!(is_backup_file(&backup_name(t)));
    }
}

#[test]
fn a_renamed_session_keeps_its_extension() {
    assert_eq!(renamed_file("  plans \t", Some("json")), "plans.json");
    assert_eq!(renamed_file("plans", None), "plans.md");
    assert_eq!(renamed_file(" two words ", Some("md")), "two words.md");
    assert_eq!(renamed_file("\u{a0}x\u{3000}", Some("")), "x.");
    assert_eq!(renamed_file("   ", None), ".md");
    assert_eq!(file_name_with(" kept ".to_string(), Some("txt")), " kept .txt");
    assert_eq!(file_name_with("a".to_string(), None), "a.md");
}

#[test]
fn netstat_report_gives_its_seventh_and_tenth_field() {
    let report = b"Name  Mtu   Network       Address            Ipkts Ierrs     Ibytes    Opkts Oerrs     Obytes  Coll\nen0   1500  <Link#4>    a4:83:e7:00:00:00 1000     0     123456     900     0      65432     0\nen0   1500  10.0.0/24   10.0.0.5          1000     -     1     900     -      2     -\n";
    assert_eq!(netstat_counters(report), Some((123456, 65432)));
    assert_eq!(netstat_counters(b""), None);
    assert_eq!(netstat_counters(b"only a heading\n"), None);
    assert_eq!(netstat_counters(b"heading\n1 2 3 4 5 6 7 8 9\n"), None);
    assert_eq!(netstat_counters(b"heading\n0 1 2 3 4 5 x 7 8 9\n"), Some((0, 9)));
    assert_eq!(netstat_counters(b"heading\n0 1 2 3 4 5 6 7 8 -\n"), Some((6, 0)));
}

#[test]
fn the_first_line_that_is_a_number_is_taken() {
    assert_eq!(first_number(b"\nBytesReceived\n-------------\n   4211  \n77\n"), Some(4211));
    assert_eq!(first_number(b"12 13\n  +5\r\n"), Some(5));
    assert_eq!(first_number(b"a\n\n \n"), None);
    assert_eq!(first_number(b""), None);
    assert_eq!(first_number(b"99999999999999999999\n3"), Some(3));
}
