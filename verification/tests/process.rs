use std::collections::HashMap;

use toptui::process::{ProcFiles, Process};
use toptui::status::Status;
use toptui::system::{get_pids, refresh_one};

const STATUS: &str = "Name:\tbash\nUmask:\t0022\nState:\tS (sleeping)\nUid:\t1000\t1000\t1000\t1000\nVmSize:\t   10000 kB\nVmRSS:\t    5000 kB\nRssShmem:\t    300 kB\nThreads:\t1\n";

fn stat(utime: u64, stime: u64) -> String {
    format!("1234 (bash) S 1 1234 1234 34816 1234 4194304 100 0 0 0 {utime} {stime} 0 0 20 0 1 0 5000 10000 1250 18446744073709551615")
}

fn users() -> Vec<(u32, String)> {
    vec![(0, "root".to_string()), (1000, "ana".to_string())]
}

fn files(stat_text: Option<String>, elapsed_ms: Option<u64>) -> ProcFiles {
    ProcFiles {
        status: Some(STATUS.to_string()),
        cmdline: Some("/bin/bash\0-l\0".to_string()),
        stat: stat_text,
        elapsed_ms,
    }
}

#[test]
fn new_process_reads_all_files() {
    let p = Process::new(1234, &files(Some(stat(30, 12)), Some(3_723_004)), &users()).unwrap();
    assert_eq!(p.pid, 1234);
    assert_eq!(p.name, "bash");
    assert_eq!(p.state, Status::Sleeping);
    assert_eq!(p.user, "ana");
    assert_eq!(p.virt_kb, 10000);
    assert_eq!(p.memory_kb, 5000);
    assert_eq!(p.shr_kb, 300);
    assert_eq!(p.threads, 1);
    assert_eq!(p.command, "/bin/bash -l ");
    assert_eq!((p.utime, p.stime, p.prev_utime, p.prev_stime), (30, 12, 30, 12));
    assert_eq!(p.cpu_ticks, 0);
    assert_eq!(p.time, (1, 2, 3, 4));
}

#[test]
fn new_process_errors() {
    let mut f = files(Some(stat(1, 1)), Some(0));
    f.status = None;
    assert!(Process::new(1, &f, &users()).is_err());
    let mut f = files(Some(stat(1, 1)), Some(0));
    f.cmdline = None;
    assert!(Process::new(1, &f, &users()).is_err());
    assert!(Process::new(1, &files(None, Some(0)), &users()).is_err());
    assert!(Process::new(1, &files(Some(stat(1, 1)), None), &users()).is_err());
    assert!(Process::new(1, &files(Some("1 (x) S".to_string()), Some(0)), &users()).is_err());
    // a uid that no user has
    assert!(Process::new(1, &files(Some(stat(1, 1)), Some(0)), &[(0, "root".to_string())]).is_err());
    let mut f = files(Some(stat(1, 1)), Some(0));
    f.status = Some("VmRSS:\tmany kB\n".to_string());
    assert!(Process::new(1, &f, &users()).is_err());
    let mut f = files(Some(stat(1, 1)), Some(0));
    f.status = Some("Threads:\t4294967296\n".to_string());
    assert!(Process::new(1, &f, &users()).is_err());
}

#[test]
fn read_status_stops_at_first_error() {
    let mut p = Process::new(1, &files(Some(stat(1, 1)), Some(0)), &users()).unwrap();
    let r = p.read_status("Name:\tzsh\nVmRSS:\tbad kB\nThreads:\t9\n", &users());
    assert!(r.is_err());
    assert_eq!(p.name, "zsh");
    assert_eq!(p.threads, 1);
}

#[test]
fn read_stat_counts_ticks_since_last_reading() {
    let mut p = Process::new(7, &files(Some(stat(100, 50)), Some(1000)), &users()).unwrap();
    assert_eq!(p.cpu_ticks, 0);
    assert!(p.read_stat(&stat(130, 60), Some(2000)).is_ok());
    assert_eq!(p.cpu_ticks, 40);
    assert_eq!((p.prev_utime, p.prev_stime), (130, 60));
    assert_eq!(p.time, (0, 0, 2, 0));
    // the same reading again: nothing ran since
    assert!(p.read_stat(&stat(130, 60), Some(2000)).is_ok());
    assert_eq!(p.cpu_ticks, 0);
    // ticks are kept even when the running time is unknown
    assert!(p.read_stat(&stat(140, 60), None).is_err());
    assert_eq!(p.cpu_ticks, 10);
    assert_eq!(p.utime, 140);
    // a stat without the tick fields changes nothing
    assert!(p.read_stat("1 (x) S", Some(5)).is_err());
    assert_eq!(p.utime, 140);
}

#[test]
fn read_stat_keeps_user_ticks_when_kernel_ticks_are_bad() {
    let mut p = Process::new(7, &files(Some(stat(100, 50)), Some(1000)), &users()).unwrap();
    let truncated = "1 (x) S 1 1 1 0 1 0 0 0 0 0 120";
    assert!(p.read_stat(truncated, Some(5)).is_err());
    assert_eq!(p.utime, 120);
    assert_eq!((p.stime, p.prev_utime, p.prev_stime, p.cpu_ticks), (50, 100, 50, 0));
    let bad = "1 (x) S 1 1 1 0 1 0 0 0 0 0 130 oops";
    assert!(p.read_stat(bad, Some(5)).is_err());
    assert_eq!(p.utime, 130);
    assert_eq!(p.stime, 50);
    let bad_user = "1 (x) S 1 1 1 0 1 0 0 0 0 0 nope 99";
    assert!(p.read_stat(bad_user, Some(5)).is_err());
    assert_eq!((p.utime, p.stime), (130, 50));
}

#[test]
fn first_reading_with_zero_user_time_counts_nothing() {
    let mut p = Process::new(7, &files(Some(stat(0, 50)), Some(1000)), &users()).unwrap();
    assert!(p.read_stat(&stat(10, 60), Some(1000)).is_ok());
    assert_eq!(p.cpu_ticks, 0);
    assert!(p.read_stat(&stat(15, 61), Some(1000)).is_ok());
    assert_eq!(p.cpu_ticks, 6);
}

#[test]
fn refresh_adds_and_updates() {
    let mut map: HashMap<u32, Process> = HashMap::new();
    assert!(refresh_one(&mut map, 5, &files(Some(stat(10, 10)), Some(0)), &users()).is_ok());
    assert_eq!(map.len(), 1);
    assert_eq!(map[&5].utime, 10);
    // a process that cannot be built is left out, and the refresh goes on
    assert!(refresh_one(&mut map, 6, &files(None, Some(0)), &users()).is_ok());
    assert_eq!(map.len(), 1);
    assert!(refresh_one(&mut map, 5, &files(Some(stat(20, 15)), Some(0)), &users()).is_ok());
    assert_eq!(map[&5].cpu_ticks, 15);
    // a failed reading of a known process stops the refresh
    assert!(refresh_one(&mut map, 5, &files(None, Some(0)), &users()).is_err());
    assert_eq!(map.len(), 1);
}

#[test]
fn pids_from_proc_entries() {
    let names: Vec<String> = ["1", "self", "42", "-3", "sys", "4294967296", "007"].iter().map(|s| s.to_string()).collect();
    assert_eq!(get_pids(&names), vec![1, 42, 7]);
    assert!(get_pids(&[]).is_empty());
}

#[test]
fn describe_lists_every_field() {
    let mut p = Process::new(1234, &files(Some(stat(30, 12)), Some(3_723_004)), &users()).unwrap();
    p.cpu_ticks = 3;
    let cpu = 1.5f64;
    let expected = format!(
        "PID:     {}\nUser:    {}\nName:    {}\nState:   {}\nMemory:  {} KB\nVirt:    {} KB\nShr:     {} KB\nThreads: {}\nCommand: {}\nUtime:   {}\nStime:   {}\nTime:    {}:{}:{}.{}\nCPU:     {} %",
        p.pid, p.user, p.name, "Sleeping", p.memory_kb, p.virt_kb, p.shr_kb, p.threads, p.command,
        p.utime, p.stime, p.time.0, p.time.1, p.time.2, p.time.3, cpu
    );
    assert_eq!(p.describe(&cpu.to_string()), expected);
    assert!(p.describe("0").starts_with("PID:     1234\nUser:    ana\nName:    bash\nState:   Sleeping\nMemory:  5000 KB\n"));
    p.pid = 0;
    p.utime = u64::MAX;
    assert!(p.describe("0").contains("PID:     0\n"));
    assert!(p.describe("0").contains("Utime:   18446744073709551615\n"));
    assert!(p.describe("2.5").ends_with("Time:    1:2:3.4\nCPU:     2.5 %"));
}
