//! One process as the monitor knows it, and how it is read from the text of
//! `/proc/<pid>/status`, `/proc/<pid>/cmdline` and `/proc/<pid>/stat`.

use vstd::prelude::*;

use crate::clock::{split_millis, time_parts};
use crate::status::{status_from, status_of_chars, Status};
use crate::text::{
    chars_equal, chars_of, key_and_value, line_key, lines, nth_token, parse_u32, parse_u64,
    parse_unsigned, split_lines, string_from_chars, tokens, decimal_text, push_decimal, push_str,
};
use crate::status::label_of;
use crate::users::{choose_user, law_lookup_finds_first_entry, lookup_user, users_view};

verus! {

/// One process. Sizes are in KiB; `utime` and `stime` are the clock ticks spent in user and
/// kernel mode; `cpu_ticks` is the number of ticks the process ran between the last two
/// readings of its `stat` (the CPU share is that over the refresh interval); `time` is
/// its running time as `(hours, minutes, seconds, milliseconds)`.
#[derive(Debug)]
pub struct Process {
    pub pid: u32,
    pub name: String,
    pub state: Status,
    pub memory_kb: u64,
    pub virt_kb: u64,
    pub shr_kb: u64,
    pub threads: u32,
    pub user: String,
    pub command: String,
    pub utime: u64,
    pub stime: u64,
    pub prev_utime: u64,
    pub prev_stime: u64,
    pub cpu_ticks: u64,
    pub time: (u64, u64, u64, u64),
}

/// A process with its texts taken by their characters.
pub struct ProcessView {
    pub pid: u32,
    pub name: Seq<char>,
    pub state: Status,
    pub memory_kb: u64,
    pub virt_kb: u64,
    pub shr_kb: u64,
    pub threads: u32,
    pub user: Seq<char>,
    pub command: Seq<char>,
    pub utime: u64,
    pub stime: u64,
    pub prev_utime: u64,
    pub prev_stime: u64,
    pub cpu_ticks: u64,
    pub time: (u64, u64, u64, u64),
}

impl View for Process {
    type V = ProcessView;

    open spec fn view(&self) -> ProcessView {
        ProcessView {
            pid: self.pid,
            name: self.name@,
            state: self.state,
            memory_kb: self.memory_kb,
            virt_kb: self.virt_kb,
            shr_kb: self.shr_kb,
            threads: self.threads,
            user: self.user@,
            command: self.command@,
            utime: self.utime,
            stime: self.stime,
            prev_utime: self.prev_utime,
            prev_stime: self.prev_stime,
            cpu_ticks: self.cpu_ticks,
            time: self.time,
        }
    }
}

/// The files of one process that the monitor reads, each `None` when it could not be read,
/// and the running time in milliseconds that the start time in field 22 of `stat`
/// gives (`None` when that field is missing or not a number).
pub struct ProcFiles {
    pub status: Option<String>,
    pub cmdline: Option<String>,
    pub stat: Option<String>,
    pub elapsed_ms: Option<u64>,
}

pub open spec fn text_view(t: Option<String>) -> Option<Seq<char>> {
    match t {
        Some(s) => Some(s@),
        None => None,
    }
}

/// A process of which nothing but the pid is known yet.
pub open spec fn blank_process(pid: u32) -> ProcessView {
    ProcessView {
        pid,
        name: Seq::empty(),
        state: Status::Unknown,
        memory_kb: 0,
        virt_kb: 0,
        shr_kb: 0,
        threads: 0,
        user: Seq::empty(),
        command: Seq::empty(),
        utime: 0,
        stime: 0,
        prev_utime: 0,
        prev_stime: 0,
        cpu_ticks: 0,
        time: (0, 0, 0, 0),
    }
}

/// What one line of `status` does to a process: `Name` and `State` set the name and the
/// state; `VmSize`, `VmRSS`, `RssShmem` and `Threads` set the virtual, resident and shared
/// sizes and the thread count, and are an error when the value is not a number; `Uid` sets
/// the user that `users` names for it, and is an error when the value is not a uid or no
/// user has it. The flag is `false` for an error, and the process is then as it was.
pub open spec fn status_step(p: ProcessView, line: Seq<char>, users: Seq<(u32, Seq<char>)>) -> (
    ProcessView,
    bool,
) {
    let key = line_key(line);
    let t = tokens(line);
    if t.len() <= 1 {
        (p, true)
    } else {
        let v = t[1];
        if key == "Name"@ {
            (ProcessView { name: v, ..p }, true)
        } else if key == "State"@ {
            (ProcessView { state: status_from(v), ..p }, true)
        } else if key == "VmSize"@ {
            match parse_unsigned(v, u64::MAX as nat) {
                Some(n) => (ProcessView { virt_kb: n as u64, ..p }, true),
                None => (p, false),
            }
        } else if key == "VmRSS"@ {
            match parse_unsigned(v, u64::MAX as nat) {
                Some(n) => (ProcessView { memory_kb: n as u64, ..p }, true),
                None => (p, false),
            }
        } else if key == "RssShmem"@ {
            match parse_unsigned(v, u64::MAX as nat) {
                Some(n) => (ProcessView { shr_kb: n as u64, ..p }, true),
                None => (p, false),
            }
        } else if key == "Threads"@ {
            match parse_unsigned(v, u32::MAX as nat) {
                Some(n) => (ProcessView { threads: n as u32, ..p }, true),
                None => (p, false),
            }
        } else if key == "Uid"@ {
            match parse_unsigned(v, u32::MAX as nat) {
                Some(uid) => match lookup_user(users, uid as u32) {
                    Some(name) => (ProcessView { user: name, ..p }, true),
                    None => (p, false),
                },
                None => (p, false),
            }
        } else {
            (p, true)
        }
    }
}

/// The process after the lines `ls` of `status`, one after the other, stopping at the first
/// error (flag `false`).
pub open spec fn status_scan(p: ProcessView, ls: Seq<Seq<char>>, users: Seq<(u32, Seq<char>)>) -> (
    ProcessView,
    bool,
)
    decreases ls.len(),
{
    if ls.len() == 0 {
        (p, true)
    } else {
        let (q, ok) = status_step(p, ls[0], users);
        if ok {
            status_scan(q, ls.drop_first(), users)
        } else {
            (q, false)
        }
    }
}

/// A `Uid` line sets the user to the name of the first entry of `users` with that uid, and
/// is an error (changing nothing) when no entry has it.
pub proof fn law_uid_line_sets_first_user(
    p: ProcessView,
    line: Seq<char>,
    users: Seq<(u32, Seq<char>)>,
    uid: u32,
    i: int,
)
    requires
        line_key(line) == "Uid"@,
        tokens(line).len() > 1,
        parse_unsigned(tokens(line)[1], u32::MAX as nat) == Some(uid as nat),
    ensures
        0 <= i < users.len() && users[i].0 == uid && (forall|j: int|
            0 <= j < i ==> #[trigger] users[j].0 != uid) ==> status_step(p, line, users) == (
            ProcessView { user: users[i].1, ..p },
            true,
        ),
        (forall|j: int| 0 <= j < users.len() ==> #[trigger] users[j].0 != uid) ==> status_step(
            p,
            line,
            users,
        ) == (p, false),
{
    reveal_strlit("Uid");
    reveal_strlit("Name");
    reveal_strlit("State");
    reveal_strlit("VmSize");
    reveal_strlit("VmRSS");
    reveal_strlit("RssShmem");
    reveal_strlit("Threads");
    assert("Uid"@.len() == 3);
    assert("Uid"@ != "Name"@ && "Uid"@ != "State"@ && "Uid"@ != "VmSize"@ && "Uid"@ != "VmRSS"@
        && "Uid"@ != "RssShmem"@ && "Uid"@ != "Threads"@) by {
        assert("Name"@.len() == 4 && "State"@.len() == 5 && "VmSize"@.len() == 6);
        assert("VmRSS"@.len() == 5 && "RssShmem"@.len() == 8 && "Threads"@.len() == 7);
    }
    law_lookup_finds_first_entry(users, uid, i);
}

/// Each kind of `status` line sets its own field and nothing else: `Name` the name, `State`
/// the state its code names, `VmSize`, `VmRSS` and `RssShmem` the virtual, resident and
/// shared sizes, `Threads` the thread count (each an error, changing nothing, when its value
/// is not a number of the field's type); a line of any other key, or with no value, changes
/// nothing and is no error.
pub proof fn law_status_lines_set_their_fields(
    p: ProcessView,
    line: Seq<char>,
    users: Seq<(u32, Seq<char>)>,
)
    ensures
        tokens(line).len() <= 1 ==> status_step(p, line, users) == (p, true),
        tokens(line).len() > 1 ==> {
            let v = tokens(line)[1];
            let key = line_key(line);
            let r = status_step(p, line, users);
            let big = parse_unsigned(v, u64::MAX as nat);
            let small = parse_unsigned(v, u32::MAX as nat);
            &&& key == "Name"@ ==> r == (ProcessView { name: v, ..p }, true)
            &&& key == "State"@ ==> r == (ProcessView { state: status_from(v), ..p }, true)
            &&& key == "VmSize"@ ==> r == if big is Some {
                (ProcessView { virt_kb: big.unwrap() as u64, ..p }, true)
            } else {
                (p, false)
            }
            &&& key == "VmRSS"@ ==> r == if big is Some {
                (ProcessView { memory_kb: big.unwrap() as u64, ..p }, true)
            } else {
                (p, false)
            }
            &&& key == "RssShmem"@ ==> r == if big is Some {
                (ProcessView { shr_kb: big.unwrap() as u64, ..p }, true)
            } else {
                (p, false)
            }
            &&& key == "Threads"@ ==> r == if small is Some {
                (ProcessView { threads: small.unwrap() as u32, ..p }, true)
            } else {
                (p, false)
            }
            &&& (key != "Name"@ && key != "State"@ && key != "VmSize"@ && key != "VmRSS"@ && key
                != "RssShmem"@ && key != "Threads"@ && key != "Uid"@) ==> r == (p, true)
        },
{
    reveal_strlit("Uid");
    reveal_strlit("Name");
    reveal_strlit("State");
    reveal_strlit("VmSize");
    reveal_strlit("VmRSS");
    reveal_strlit("RssShmem");
    reveal_strlit("Threads");
    assert("Name"@.len() == 4 && "State"@.len() == 5 && "VmSize"@.len() == 6);
    assert("VmRSS"@.len() == 5 && "RssShmem"@.len() == 8 && "Threads"@.len() == 7);
    assert("Uid"@.len() == 3);
    assert("State"@ != "VmRSS"@) by {
        assert("State"@[0] != "VmRSS"@[0]);
    }
}

/// The command keeps the command line character for character, with each NUL shown as a
/// space.
pub proof fn law_command_keeps_cmdline(cmdline: Seq<char>)
    ensures
        command_text(cmdline).len() == cmdline.len(),
        forall|i: int|
            0 <= i < cmdline.len() ==> #[trigger] command_text(cmdline)[i] == (if cmdline[i]
                == '\0' {
                ' '
            } else {
                cmdline[i]
            }),
{
}

/// A reading of `stat` takes the user ticks from its 14th whitespace-separated field
/// (token 13) and the kernel ticks from its 15th (token 14).
pub proof fn law_stat_ticks_come_from_fields_14_and_15(
    p: ProcessView,
    stat: Seq<char>,
    elapsed_ms: Option<u64>,
)
    requires
        tokens(stat).len() > 14,
        parse_unsigned(tokens(stat)[13], u64::MAX as nat) is Some,
        parse_unsigned(tokens(stat)[14], u64::MAX as nat) is Some,
    ensures
        stat_apply(p, stat, elapsed_ms).0.utime == parse_unsigned(
            tokens(stat)[13],
            u64::MAX as nat,
        ).unwrap(),
        stat_apply(p, stat, elapsed_ms).0.stime == parse_unsigned(
            tokens(stat)[14],
            u64::MAX as nat,
        ).unwrap(),
        stat_apply(p, stat, elapsed_ms).1 == (elapsed_ms is Some),
{
}

/// The command line with its NUL separators shown as spaces.
pub open spec fn command_text(cmdline: Seq<char>) -> Seq<char> {
    cmdline.map_values(|c: char| if c == '\0' { ' ' } else { c })
}

/// The user and kernel ticks in fields 14 and 15 (tokens 13 and 14) of `stat`, if both are
/// there and are numbers.
pub open spec fn stat_ticks(stat: Seq<char>) -> Option<(u64, u64)> {
    let t = tokens(stat);
    if t.len() > 14 {
        match (parse_unsigned(t[13], u64::MAX as nat), parse_unsigned(t[14], u64::MAX as nat)) {
            (Some(u), Some(s)) => Some((u as u64, s as u64)),
            _ => None,
        }
    } else {
        None
    }
}

/// The ticks that ran since the last reading do not overflow: the new total is not below the
/// last one and fits in a `u64`. Only asked where there was a last reading.
pub open spec fn cpu_delta_fits(p: ProcessView, stat: Seq<char>) -> bool {
    match stat_ticks(stat) {
        Some((u, s)) => p.prev_utime != 0 ==> (u + s <= u64::MAX && u + s >= p.prev_utime
            + p.prev_stime),
        None => true,
    }
}

/// Token `i` of `stat` as a `u64`, if it is there and is a number.
pub open spec fn stat_number(stat: Seq<char>, i: int) -> Option<u64> {
    let t = tokens(stat);
    if i < t.len() {
        match parse_unsigned(t[i], u64::MAX as nat) {
            Some(n) => Some(n as u64),
            None => None,
        }
    } else {
        None
    }
}

/// What a reading of `stat` does to a process: the user ticks (token 13) are stored, then
/// the kernel ticks (token 14); a missing or non-numeric one is an error that stops the
/// reading there. With both stored, the ticks run since the last reading are stored where
/// there was a last reading (a nonzero last user time), this reading becomes the last one,
/// and then the running time is set if it is known, and is an error if not.
pub open spec fn stat_apply(p: ProcessView, stat: Seq<char>, elapsed_ms: Option<u64>) -> (
    ProcessView,
    bool,
) {
    match stat_number(stat, 13) {
        None => (p, false),
        Some(u) => match stat_number(stat, 14) {
            None => (ProcessView { utime: u, ..p }, false),
            Some(s) => {
                let cpu = if p.prev_utime != 0 {
                    (u + s - p.prev_utime - p.prev_stime) as u64
                } else {
                    p.cpu_ticks
                };
                let q = ProcessView {
                    utime: u,
                    stime: s,
                    cpu_ticks: cpu,
                    prev_utime: u,
                    prev_stime: s,
                    ..p
                };
                match elapsed_ms {
                    Some(ms) => (ProcessView { time: time_parts(ms), ..q }, true),
                    None => (q, false),
                }
            },
        },
    }
}

/// The process that its files give: `status` read into a blank process, then the command
/// line, then `stat`; `None` if a file is missing or any of the three readings is an error.
pub open spec fn new_process(
    pid: u32,
    status: Option<Seq<char>>,
    cmdline: Option<Seq<char>>,
    stat: Option<Seq<char>>,
    elapsed_ms: Option<u64>,
    users: Seq<(u32, Seq<char>)>,
) -> Option<ProcessView> {
    match status {
        None => None,
        Some(st) => {
            let (p1, ok1) = status_scan(blank_process(pid), lines(st), users);
            if !ok1 {
                None
            } else {
                match cmdline {
                    None => None,
                    Some(c) => {
                        let p2 = ProcessView { command: command_text(c), ..p1 };
                        match stat {
                            None => None,
                            Some(sx) => {
                                let (p3, ok3) = stat_apply(p2, sx, elapsed_ms);
                                if ok3 {
                                    Some(p3)
                                } else {
                                    None
                                }
                            },
                        }
                    },
                }
            }
        },
    }
}

proof fn lemma_status_scan_keeps_ticks(
    p: ProcessView,
    ls: Seq<Seq<char>>,
    users: Seq<(u32, Seq<char>)>,
)
    ensures
        status_scan(p, ls, users).0.pid == p.pid,
        status_scan(p, ls, users).0.prev_utime == p.prev_utime,
    decreases ls.len(),
{
    if ls.len() > 0 {
        let (q, ok) = status_step(p, ls[0], users);
        if ok {
            lemma_status_scan_keeps_ticks(q, ls.drop_first(), users);
        }
    }
}

/// The command text of a `cmdline` file.
pub fn command_from(cmdline: &str) -> (res: String)
    ensures
        res@ == command_text(cmdline@),
{
    let cs = chars_of(cmdline);
    let mut out: Vec<char> = Vec::new();
    let mut i: usize = 0;
    while i < cs.len()
        invariant
            i <= cs@.len(),
            cs@ == cmdline@,
            out@ == command_text(cs@.take(i as int)),
        decreases cs@.len() - i,
    {
        let c = cs[i];
        out.push(if c == '\0' { ' ' } else { c });
        i = i + 1;
        assert(out@ =~= command_text(cs@.take(i as int)));
    }
    assert(cs@.take(i as int) =~= cs@);
    string_from_chars(out.as_slice())
}

/// Token `i` of a `stat` text as a `u64`, if it is there and is a number.
pub fn read_stat_number(stat: &[char], i: usize) -> (res: Option<u64>)
    ensures
        res == stat_number(stat@, i as int),
{
    match nth_token(stat, i) {
        Some(t) => parse_u64(t.as_slice()),
        None => None,
    }
}

/// The tick counts of a `stat` text, if both are there and are numbers.
pub fn read_stat_ticks(stat: &[char]) -> (res: Option<(u64, u64)>)
    ensures
        res == stat_ticks(stat@),
{
    let t13 = nth_token(stat, 13);
    let t14 = nth_token(stat, 14);
    match (t13, t14) {
        (Some(a), Some(b)) => {
            let u = parse_u64(a.as_slice());
            let s = parse_u64(b.as_slice());
            match (u, s) {
                (Some(u), Some(s)) => Some((u, s)),
                _ => None,
            }
        },
        _ => None,
    }
}

/// A successful reading of `stat` makes it the last reading: reading the same `stat` again
/// finds no ticks run since (where the process has run at all, so that the last user time
/// is nonzero), and leaves the tick counts as they are. The second reading cannot overflow
/// where the two counts of `stat` add up within a `u64`.
pub proof fn law_stat_reading_is_baseline(
    p: ProcessView,
    stat: Seq<char>,
    first_ms: Option<u64>,
    second_ms: Option<u64>,
)
    requires
        stat_ticks(stat) is Some,
        stat_ticks(stat).unwrap().0 != 0,
        stat_ticks(stat).unwrap().0 + stat_ticks(stat).unwrap().1 <= u64::MAX,
    ensures
        cpu_delta_fits(stat_apply(p, stat, first_ms).0, stat),
        stat_apply(stat_apply(p, stat, first_ms).0, stat, second_ms).0.cpu_ticks == 0,
        stat_apply(stat_apply(p, stat, first_ms).0, stat, second_ms).0.utime == stat_ticks(
            stat,
        ).unwrap().0,
        stat_apply(stat_apply(p, stat, first_ms).0, stat, second_ms).0.stime == stat_ticks(
            stat,
        ).unwrap().1,
{
}

/// Two readings of `stat` count the ticks run between them: after a reading with ticks
/// `(u1, s1)` (where the process has run, `u1 != 0`) and then one with `(u2, s2)` whose
/// total is not below the first, the process has `(u2, s2)` as its ticks and as its last
/// reading, and `(u2 + s2) - (u1 + s1)` CPU ticks. Neither reading overflows where the
/// totals fit in a `u64`.
pub proof fn law_stat_readings_count_ticks_between(
    p: ProcessView,
    first: Seq<char>,
    second: Seq<char>,
    first_ms: Option<u64>,
    second_ms: Option<u64>,
)
    requires
        stat_ticks(first) is Some,
        stat_ticks(second) is Some,
        stat_ticks(first).unwrap().0 != 0,
        stat_ticks(first).unwrap().0 + stat_ticks(first).unwrap().1 <= u64::MAX,
        stat_ticks(second).unwrap().0 + stat_ticks(second).unwrap().1 <= u64::MAX,
        stat_ticks(second).unwrap().0 + stat_ticks(second).unwrap().1 >= stat_ticks(first).unwrap().0
            + stat_ticks(first).unwrap().1,
    ensures
        ({
            let (u1, s1) = stat_ticks(first).unwrap();
            let (u2, s2) = stat_ticks(second).unwrap();
            let q = stat_apply(p, first, first_ms).0;
            let r = stat_apply(q, second, second_ms).0;
            &&& cpu_delta_fits(q, second)
            &&& r.utime == u2 && r.prev_utime == u2
            &&& r.stime == s2 && r.prev_stime == s2
            &&& r.cpu_ticks == (u2 + s2) - (u1 + s1)
        }),
{
}

/// A process that has just been built from its files has no CPU ticks yet: the first
/// reading of `stat` only sets the baseline that later readings count from.
pub proof fn law_new_process_starts_at_zero(
    pid: u32,
    status: Option<Seq<char>>,
    cmdline: Option<Seq<char>>,
    stat: Option<Seq<char>>,
    elapsed_ms: Option<u64>,
    users: Seq<(u32, Seq<char>)>,
)
    requires
        new_process(pid, status, cmdline, stat, elapsed_ms, users) is Some,
    ensures
        ({
            let p = new_process(pid, status, cmdline, stat, elapsed_ms, users).unwrap();
            &&& p.pid == pid
            &&& p.cpu_ticks == 0
            &&& p.prev_utime == p.utime
            &&& p.prev_stime == p.stime
            &&& Some((p.utime, p.stime)) == stat_ticks(stat.unwrap())
            &&& p.time == time_parts(elapsed_ms.unwrap())
        }),
{
    lemma_status_scan_keeps_ticks(blank_process(pid), lines(status.unwrap()), users);
    lemma_status_scan_keeps_cpu(blank_process(pid), lines(status.unwrap()), users);
}

proof fn lemma_status_scan_keeps_cpu(p: ProcessView, ls: Seq<Seq<char>>, users: Seq<(u32, Seq<char>)>)
    ensures
        status_scan(p, ls, users).0.cpu_ticks == p.cpu_ticks,
    decreases ls.len(),
{
    if ls.len() > 0 {
        let (q, ok) = status_step(p, ls[0], users);
        if ok {
            lemma_status_scan_keeps_cpu(q, ls.drop_first(), users);
        }
    }
}

/// The text of a process, one labelled field per line, with the CPU share written as
/// `cpu` (no line break after the last line).
pub open spec fn process_text(p: ProcessView, cpu: Seq<char>) -> Seq<char> {
    "PID:     "@ + decimal_text(p.pid as nat) + "\n"@
    + "User:    "@ + p.user + "\n"@
    + "Name:    "@ + p.name + "\n"@
    + "State:   "@ + label_of(p.state) + "\n"@
    + "Memory:  "@ + decimal_text(p.memory_kb as nat) + " KB\n"@
    + "Virt:    "@ + decimal_text(p.virt_kb as nat) + " KB\n"@
    + "Shr:     "@ + decimal_text(p.shr_kb as nat) + " KB\n"@
    + "Threads: "@ + decimal_text(p.threads as nat) + "\n"@
    + "Command: "@ + p.command + "\n"@
    + "Utime:   "@ + decimal_text(p.utime as nat) + "\n"@
    + "Stime:   "@ + decimal_text(p.stime as nat) + "\n"@
    + "Time:    "@ + decimal_text(p.time.0 as nat) + ":"@ + decimal_text(p.time.1 as nat) + ":"@
        + decimal_text(p.time.2 as nat) + "."@ + decimal_text(p.time.3 as nat) + "\n"@
    + "CPU:     "@ + cpu + " %"@
}

impl Process {
    /// The text of this process, one labelled field per line, with the CPU share given as
    /// the text `cpu`.
    pub fn describe(&self, cpu: &str) -> (res: String)
        ensures
            res@ == process_text(self@, cpu@),
    {
        let mut out: Vec<char> = Vec::new();
        push_str(&mut out, "PID:     ");
        push_decimal(&mut out, self.pid as u64);
        push_str(&mut out, "\n");
        push_str(&mut out, "User:    ");
        push_str(&mut out, self.user.as_str());
        push_str(&mut out, "\n");
        push_str(&mut out, "Name:    ");
        push_str(&mut out, self.name.as_str());
        push_str(&mut out, "\n");
        push_str(&mut out, "State:   ");
        let label = self.state.label();
        push_str(&mut out, label.as_str());
        push_str(&mut out, "\n");
        push_str(&mut out, "Memory:  ");
        push_decimal(&mut out, self.memory_kb);
        push_str(&mut out, " KB\n");
        push_str(&mut out, "Virt:    ");
        push_decimal(&mut out, self.virt_kb);
        push_str(&mut out, " KB\n");
        push_str(&mut out, "Shr:     ");
        push_decimal(&mut out, self.shr_kb);
        push_str(&mut out, " KB\n");
        push_str(&mut out, "Threads: ");
        push_decimal(&mut out, self.threads as u64);
        push_str(&mut out, "\n");
        push_str(&mut out, "Command: ");
        push_str(&mut out, self.command.as_str());
        push_str(&mut out, "\n");
        push_str(&mut out, "Utime:   ");
        push_decimal(&mut out, self.utime);
        push_str(&mut out, "\n");
        push_str(&mut out, "Stime:   ");
        push_decimal(&mut out, self.stime);
        push_str(&mut out, "\n");
        push_str(&mut out, "Time:    ");
        push_decimal(&mut out, self.time.0);
        push_str(&mut out, ":");
        push_decimal(&mut out, self.time.1);
        push_str(&mut out, ":");
        push_decimal(&mut out, self.time.2);
        push_str(&mut out, ".");
        push_decimal(&mut out, self.time.3);
        push_str(&mut out, "\n");
        push_str(&mut out, "CPU:     ");
        push_str(&mut out, cpu);
        push_str(&mut out, " %");
        assert(out@ =~= process_text(self@, cpu@));
        string_from_chars(out.as_slice())
    }

    /// Reads the `status` text into this process (see `status_step`), stopping at the first
    /// line that is an error.
    pub fn read_status(&mut self, status: &str, uids_table: &[(u32, String)]) -> (res: Result<
        (),
        (),
    >)
        ensures
            final(self)@ == status_scan(old(self)@, lines(status@), users_view(uids_table@)).0,
            res is Ok <==> status_scan(old(self)@, lines(status@), users_view(uids_table@)).1,
    {
        let text = chars_of(status);
        let ls = split_lines(text.as_slice());
        let ghost all = lines(status@);
        let ghost users = users_view(uids_table@);
        let ghost start = self@;
        let mut i: usize = 0;
        assert(all.skip(0) =~= all);
        while i < ls.len()
            invariant
                i <= ls@.len() == all.len(),
                all == lines(status@),
                users == users_view(uids_table@),
                start == old(self)@,
                forall|j: int| 0 <= j < ls@.len() ==> (#[trigger] ls@[j])@ == all[j],
                status_scan(self@, all.skip(i as int), users) == status_scan(start, all, users),
            decreases ls@.len() - i,
        {
            let ghost rest = all.skip(i as int);
            assert(rest[0] == ls@[i as int]@);
            assert(rest.drop_first() =~= all.skip(i + 1));
            let (key, value) = key_and_value(ls[i].as_slice());
            if let Some(v) = value {
                let v = v.as_slice();
                if chars_equal(key.as_slice(), "Name") {
                    self.name = string_from_chars(v);
                } else if chars_equal(key.as_slice(), "State") {
                    self.state = status_of_chars(v);
                } else if chars_equal(key.as_slice(), "VmSize") {
                    match parse_u64(v) {
                        Some(n) => self.virt_kb = n,
                        None => return Err(()),
                    }
                } else if chars_equal(key.as_slice(), "VmRSS") {
                    match parse_u64(v) {
                        Some(n) => self.memory_kb = n,
                        None => return Err(()),
                    }
                } else if chars_equal(key.as_slice(), "RssShmem") {
                    match parse_u64(v) {
                        Some(n) => self.shr_kb = n,
                        None => return Err(()),
                    }
                } else if chars_equal(key.as_slice(), "Threads") {
                    match parse_u32(v) {
                        Some(n) => self.threads = n,
                        None => return Err(()),
                    }
                } else if chars_equal(key.as_slice(), "Uid") {
                    match parse_u32(v) {
                        Some(uid) => match choose_user(uid, uids_table) {
                            Some(name) => self.user = name,
                            None => return Err(()),
                        },
                        None => return Err(()),
                    }
                }
            }
            i = i + 1;
        }
        assert(all.skip(i as int) =~= Seq::<Seq<char>>::empty());
        Ok(())
    }

    /// Sets the command of this process from its `cmdline` text.
    pub fn read_cmdline(&mut self, cmdline: &str)
        ensures
            final(self)@ == (ProcessView { command: command_text(cmdline@), ..old(self)@ }),
    {
        self.command = command_from(cmdline);
    }

    /// Reads a `stat` text into this process, with the running time that its start time
    /// gives (see `stat_apply`).
    pub fn read_stat(&mut self, stat: &str, elapsed_ms: Option<u64>) -> (res: Result<(), ()>)
        requires
            cpu_delta_fits(old(self)@, stat@),
        ensures
            final(self)@ == stat_apply(old(self)@, stat@, elapsed_ms).0,
            res is Ok <==> stat_apply(old(self)@, stat@, elapsed_ms).1,
    {
        let text = chars_of(stat);
        self.utime = match read_stat_number(text.as_slice(), 13) {
            Some(u) => u,
            None => return Err(()),
        };
        self.stime = match read_stat_number(text.as_slice(), 14) {
            Some(s) => s,
            None => return Err(()),
        };
        if self.prev_utime != 0 {
            self.cpu_ticks = self.utime + self.stime - self.prev_utime - self.prev_stime;
        }
        self.prev_utime = self.utime;
        self.prev_stime = self.stime;
        match elapsed_ms {
            Some(ms) => {
                self.time = split_millis(ms);
                Ok(())
            },
            None => Err(()),
        }
    }

    /// The process that the files of `pid` give (see `new_process`).
    pub fn new(pid: u32, files: &ProcFiles, uids_table: &[(u32, String)]) -> (res: Result<
        Process,
        (),
    >)
        ensures
            match res {
                Ok(p) => new_process(
                    pid,
                    text_view(files.status),
                    text_view(files.cmdline),
                    text_view(files.stat),
                    files.elapsed_ms,
                    users_view(uids_table@),
                ) == Some(p@),
                Err(_) => new_process(
                    pid,
                    text_view(files.status),
                    text_view(files.cmdline),
                    text_view(files.stat),
                    files.elapsed_ms,
                    users_view(uids_table@),
                ) is None,
            },
    {
        let mut process = Process {
            pid,
            name: String::new(),
            state: Status::Unknown,
            memory_kb: 0,
            virt_kb: 0,
            shr_kb: 0,
            threads: 0,
            user: String::new(),
            command: String::new(),
            utime: 0,
            stime: 0,
            prev_utime: 0,
            prev_stime: 0,
            cpu_ticks: 0,
            time: (0, 0, 0, 0),
        };
        assert(process@ == blank_process(pid));
        let status = match &files.status {
            Some(s) => s,
            None => return Err(()),
        };
        proof {
            lemma_status_scan_keeps_ticks(
                blank_process(pid),
                lines(status@),
                users_view(uids_table@),
            );
        }
        process.read_status(status.as_str(), uids_table)?;
        let cmdline = match &files.cmdline {
            Some(c) => c,
            None => return Err(()),
        };
        process.read_cmdline(cmdline.as_str());
        let stat = match &files.stat {
            Some(s) => s,
            None => return Err(()),
        };
        process.read_stat(stat.as_str(), files.elapsed_ms)?;
        Ok(process)
    }
}

} // verus!
