use toptui::clock::split_millis;
use toptui::meminfo::{read_meminfo, MemoryData};
use toptui::status::{choose_status, Status};
use toptui::text::{
    chars_of, key_and_value, nth_field, nth_token, parse_u32, parse_u64, split_lines, trim_chars,
};
use toptui::users::{choose_user, uids_table_from};

fn s(cs: &[char]) -> String {
    cs.iter().collect()
}

#[test]
fn lines_follow_str_lines() {
    let text = chars_of("a\r\nb\n\nc\r");
    let ls: Vec<String> = split_lines(&text).iter().map(|l| s(l)).collect();
    assert_eq!(ls, vec!["a", "b", "", "c\r"]);
    assert!(split_lines(&chars_of("")).is_empty());
    let ls: Vec<String> = split_lines(&chars_of("x\n")).iter().map(|l| s(l)).collect();
    assert_eq!(ls, vec!["x"]);
}

#[test]
fn tokens_follow_split_whitespace() {
    let text = chars_of("  Name:\t bash \u{a0} x ");
    assert_eq!(s(&nth_token(&text, 0).unwrap()), "Name:");
    assert_eq!(s(&nth_token(&text, 1).unwrap()), "bash");
    assert_eq!(s(&nth_token(&text, 2).unwrap()), "x");
    assert!(nth_token(&text, 3).is_none());
    assert!(nth_token(&chars_of("   "), 0).is_none());
}

#[test]
fn fields_follow_split() {
    let text = chars_of("root:x:0:");
    assert_eq!(s(&nth_field(&text, ':', 0).unwrap()), "root");
    assert_eq!(s(&nth_field(&text, ':', 2).unwrap()), "0");
    assert_eq!(s(&nth_field(&text, ':', 3).unwrap()), "");
    assert!(nth_field(&text, ':', 4).is_none());
    assert_eq!(s(&nth_field(&chars_of(""), ':', 0).unwrap()), "");
}

#[test]
fn trim_and_key_value() {
    assert_eq!(s(&trim_chars(&chars_of(" \t ab c \n"))), "ab c");
    assert_eq!(s(&trim_chars(&chars_of("   "))), "");
    let (k, v) = key_and_value(&chars_of("VmRSS:\t  1234 kB"));
    assert_eq!(s(&k), "VmRSS");
    assert_eq!(s(&v.unwrap()), "1234");
    let (k, v) = key_and_value(&chars_of("  Lonely  "));
    assert_eq!(s(&k), "Lonely");
    assert!(v.is_none());
}

#[test]
fn numbers_follow_str_parse() {
    for t in ["0", "42", "+7", "007", "18446744073709551615", "18446744073709551616", "", "+", "-1", "1 ", "1a", "++1"] {
        assert_eq!(parse_u64(&chars_of(t)), t.parse::<u64>().ok(), "{t:?}");
        assert_eq!(parse_u32(&chars_of(t)), t.parse::<u32>().ok(), "{t:?}");
    }
    assert_eq!(parse_u32(&chars_of("4294967295")), Some(u32::MAX));
    assert_eq!(parse_u32(&chars_of("4294967296")), None);
}

#[test]
fn status_codes() {
    assert_eq!(choose_status("R"), Status::Running);
    assert_eq!(choose_status("S"), Status::Sleeping);
    assert_eq!(choose_status("T"), Status::Stopped);
    assert_eq!(choose_status("Z"), Status::Zombie);
    assert_eq!(choose_status("D"), Status::DiskSleep);
    assert_eq!(choose_status("I"), Status::Idle);
    assert_eq!(choose_status("X"), Status::Unknown);
    assert_eq!(choose_status("RS"), Status::Unknown);
    assert_eq!(choose_status(""), Status::Unknown);
    assert_eq!(Status::default(), Status::Unknown);
}

#[test]
fn status_labels() {
    assert_eq!(Status::Running.label(), "Running");
    assert_eq!(Status::DiskSleep.label(), "Disk Sleep");
    assert_eq!(Status::Unknown.label(), "Unknown");
    assert_eq!(choose_status("Z").label(), "Zombie");
}

#[test]
fn user_lookup_takes_first_match() {
    let table = vec![(0, "root".to_string()), (1000, "ana".to_string()), (1000, "bob".to_string())];
    assert_eq!(choose_user(1000, &table), Some("ana".to_string()));
    assert_eq!(choose_user(0, &table), Some("root".to_string()));
    assert_eq!(choose_user(7, &table), None);
    assert_eq!(choose_user(0, &[]), None);
}

#[test]
fn passwd_table() {
    let passwd = "root:x:0:0:root:/root:/bin/bash\r\n# comment\nbad:x:nope:1\nana:x:1000:1000::/home/ana:/bin/sh\nshort:x\n";
    let table = uids_table_from(passwd);
    assert_eq!(table, vec![(0, "root".to_string()), (1000, "ana".to_string())]);
    assert!(uids_table_from("").is_empty());
}

#[test]
fn meminfo_totals() {
    let text = "MemTotal:       16318480 kB\nMemFree:         1000 kB\nMemAvailable:   9000000 kB\nSwapTotal:       2097148 kB\nSwapFree:        2097000 kB\nOther\n";
    assert_eq!(
        read_meminfo(text),
        Ok(MemoryData { mem_total: 16318480, mem_available: 9000000, swap_total: 2097148, swap_free: 2097000 })
    );
    assert_eq!(
        read_meminfo("MemTotal: 5\nMemTotal: 6\n"),
        Ok(MemoryData { mem_total: 6, mem_available: 0, swap_total: 0, swap_free: 0 })
    );
    assert_eq!(read_meminfo("SwapFree: lots kB\n"), Err(()));
    assert_eq!(read_meminfo("MemTotal:\n"), Ok(MemoryData { mem_total: 0, mem_available: 0, swap_total: 0, swap_free: 0 }));
    assert_eq!(read_meminfo("Cached: x\n"), Ok(MemoryData { mem_total: 0, mem_available: 0, swap_total: 0, swap_free: 0 }));
}

#[test]
fn millis_to_clock() {
    assert_eq!(split_millis(0), (0, 0, 0, 0));
    assert_eq!(split_millis(3_723_004), (1, 2, 3, 4));
    assert_eq!(split_millis(90_061_001), (25, 1, 1, 1));
    let (h, m, s, ms) = split_millis(u64::MAX);
    assert_eq!(h * 3_600_000 + m * 60_000 + s * 1000 + ms, u64::MAX);
}
