use sift::config::{expand_home, expand_home_path, Config};
use sift::display::{decimal_string, format_size, format_timestamp, truncate};
use std::path::PathBuf;

fn reference_size(bytes: u64) -> String {
    const KB: u64 = 1024;
    const MB: u64 = KB * 1024;
    const GB: u64 = MB * 1024;
    if bytes >= GB {
        format!("{:.1} GB", bytes as f64 / GB as f64)
    } else if bytes >= MB {
        format!("{:.1} MB", bytes as f64 / MB as f64)
    } else if bytes >= KB {
        format!("{:.1} KB", bytes as f64 / KB as f64)
    } else {
        format!("{} B", bytes)
    }
}

#[test]
fn sizes_in_each_unit() {
    assert_eq!(format_size(0), "0 B");
    assert_eq!(format_size(1023), "1023 B");
    assert_eq!(format_size(1024), "1.0 KB");
    assert_eq!(format_size(1536), "1.5 KB");
    assert_eq!(format_size(1024 * 1024), "1.0 MB");
    assert_eq!(format_size(5 * 1024 * 1024 * 1024), "5.0 GB");
}

#[test]
fn sizes_round_half_to_even_like_format() {
    // 1.25 KB and 1.75 KB are exact ties
    assert_eq!(format_size(1280), "1.2 KB");
    assert_eq!(format_size(1792), "1.8 KB");
    assert_eq!(format_size(1280), reference_size(1280));
}

#[test]
fn sizes_agree_with_float_formatting() {
    let mut samples: Vec<u64> = vec![
        1, 999, 1024, 1075, 1076, 1126, 10 * 1024 - 1, 1024 * 1024 - 1, 1024 * 1024 + 52428,
        (1u64 << 30) - 1, 1u64 << 30, (1u64 << 40) + 12345, u64::MAX, u64::MAX - 1,
        (1u64 << 53) + 1, (1u64 << 60) + (1u64 << 7),
    ];
    let mut x: u64 = 0x9E37_79B9_7F4A_7C15;
    for _ in 0..2000 {
        x ^= x << 13;
        x ^= x >> 7;
        x ^= x << 17;
        samples.push(x >> (x % 64));
    }
    for b in samples {
        assert_eq!(format_size(b), reference_size(b), "bytes = {}", b);
    }
}

#[test]
fn truncation_by_bytes() {
    assert_eq!(truncate("short", 10), "short");
    assert_eq!(truncate("exactly10!", 10), "exactly10!");
    assert_eq!(truncate("a longer string", 8), "a lon...");
    assert_eq!(truncate("abcdef", 2), "...");
}

#[test]
fn timestamps_show_date_and_minutes() {
    assert_eq!(format_timestamp("2024-01-01T09:30:15Z"), "2024-01-01 09:30");
    assert_eq!(format_timestamp("2024-03-05T23:59:60.5+02:00"), "2024-03-05 23:59");
    assert_eq!(format_timestamp("2025-12-31 08:07:00-05:00"), "2025-12-31 08:07");
    assert_eq!(format_timestamp("not a time"), "not a time");
    assert_eq!(format_timestamp("2024-02-30T00:00:00Z"), "2024-02-30T00:00:00Z");
}

#[test]
fn decimals() {
    assert_eq!(decimal_string(0), "0");
    assert_eq!(decimal_string(1234567890), "1234567890");
}

#[test]
fn home_expansion_matches_pathbuf_join() {
    for (path, home) in [
        ("~/notes", "/home/me"),
        ("~/notes", "/home/me/"),
        ("~//abs", "/home/me"),
        ("~/", "/home/me"),
        ("~/x/y", ""),
    ] {
        let expected = PathBuf::from(home).join(path.strip_prefix("~/").unwrap());
        assert_eq!(expand_home(path, Some(home)), expected.to_str().unwrap(), "{} {}", path, home);
    }
    assert_eq!(expand_home("~/notes", None), "~/notes");
    assert_eq!(expand_home("/etc/sift", Some("/home/me")), "/etc/sift");
    assert_eq!(expand_home("~notes", Some("/home/me")), "~notes");
}

#[test]
fn home_expansion_of_path_bytes() {
    assert_eq!(expand_home_path(b"~/db", Some("/h")), b"/h/db".to_vec());
    let odd = vec![b'~', b'/', 0xff];
    assert_eq!(expand_home_path(&odd, Some("/h")), odd);
}

#[test]
fn default_config_lives_under_local_share() {
    let c = Config::defaults(Some("/home/me"));
    assert_eq!(c.db_path, b"/home/me/.local/share/sift/index.db".to_vec());
    assert_eq!(c.model_cache, b"/home/me/.local/share/sift/models".to_vec());
    let c = Config::defaults(None);
    assert_eq!(c.db_path, b"~/.local/share/sift/index.db".to_vec());
}

#[test]
fn config_resolution_order() {
    let file = Config { db_path: b"~/file.db".to_vec(), model_cache: b"~/m".to_vec() };
    let c = Config::resolve(Some(file), None, None, Some("/h"));
    assert_eq!(c.db_path, b"/h/file.db".to_vec());
    assert_eq!(c.model_cache, b"/h/m".to_vec());

    let file = Config { db_path: b"~/file.db".to_vec(), model_cache: b"~/m".to_vec() };
    let c = Config::resolve(
        Some(file),
        Some(b"~/cli.db".to_vec()),
        Some(b"~/env-models".to_vec()),
        Some("/h"),
    );
    assert_eq!(c.db_path, b"/h/cli.db".to_vec());
    assert_eq!(c.model_cache, b"/h/env-models".to_vec());

    let c = Config::resolve(None, None, None, Some("/h"));
    assert_eq!(c.db_path, b"/h/.local/share/sift/index.db".to_vec());
}
