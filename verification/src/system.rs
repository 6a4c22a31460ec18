//! The table of known processes and how one refresh step updates it.

use std::collections::HashMap;

use vstd::prelude::*;

use crate::process::{
    cpu_delta_fits, law_new_process_starts_at_zero, new_process, stat_apply, text_view,
    ProcFiles, Process,
};
use crate::text::{chars_of, decimal_text, lemma_decimal_text_parses, parse_u32, parse_unsigned};
use crate::users::users_view;

verus! {

broadcast use vstd::std_specs::hash::group_hash_axioms;

/// The pids that the entry names of `/proc` give: the names that are a `u32`, in order.
pub open spec fn pids_of(names: Seq<Seq<char>>) -> Seq<u32>
    decreases names.len(),
{
    if names.len() == 0 {
        Seq::empty()
    } else {
        match parse_unsigned(names[0], u32::MAX as nat) {
            Some(pid) => seq![pid as u32] + pids_of(names.drop_first()),
            None => pids_of(names.drop_first()),
        }
    }
}

pub open spec fn names_view(names: Seq<String>) -> Seq<Seq<char>> {
    names.map_values(|n: String| n@)
}

/// The pids among the entry names of `/proc`: every name that parses as a `u32`, in the
/// order of the names.
pub fn get_pids(entry_names: &[String]) -> (res: Vec<u32>)
    ensures
        res@ == pids_of(names_view(entry_names@)),
{
    let ghost all = names_view(entry_names@);
    let mut res: Vec<u32> = Vec::new();
    let mut i: usize = 0;
    assert(all.skip(0) =~= all);
    while i < entry_names.len()
        invariant
            i <= entry_names@.len(),
            all == names_view(entry_names@),
            res@ + pids_of(all.skip(i as int)) == pids_of(all),
        decreases entry_names@.len() - i,
    {
        let ghost rest = all.skip(i as int);
        assert(rest[0] == entry_names@[i as int]@);
        assert(rest.drop_first() =~= all.skip(i + 1));
        let ghost before = res@;
        let name = chars_of(entry_names[i].as_str());
        if let Some(pid) = parse_u32(name.as_slice()) {
            res.push(pid);
            assert(res@ =~= before + seq![pid]);
        }
        i = i + 1;
    }
    assert(all.skip(i as int) =~= Seq::<Seq<char>>::empty());
    assert(res@ + Seq::<u32>::empty() =~= res@);
    res
}

/// Every entry name that is a `u32` adds that pid, after the pids of the names before it;
/// every other name adds nothing.
pub proof fn law_numeric_name_adds_its_pid(names: Seq<Seq<char>>, name: Seq<char>)
    ensures
        pids_of(names.push(name)) == match parse_unsigned(name, u32::MAX as nat) {
            Some(v) => pids_of(names).push(v as u32),
            None => pids_of(names),
        },
    decreases names.len(),
{
    if names.len() == 0 {
        assert(names.push(name).drop_first() =~= Seq::<Seq<char>>::empty());
        assert(names.push(name)[0] == name);
        assert(pids_of(Seq::<Seq<char>>::empty()) =~= Seq::<u32>::empty());
        if let Some(v) = parse_unsigned(name, u32::MAX as nat) {
            assert(seq![v as u32] + Seq::<u32>::empty() =~= Seq::<u32>::empty().push(v as u32));
        }
    } else {
        assert(names.push(name)[0] == names[0]);
        assert(names.push(name).drop_first() =~= names.drop_first().push(name));
        law_numeric_name_adds_its_pid(names.drop_first(), name);
        if let Some(v) = parse_unsigned(name, u32::MAX as nat) {
            if let Some(p0) = parse_unsigned(names[0], u32::MAX as nat) {
                assert(seq![p0 as u32] + pids_of(names.drop_first()).push(v as u32) =~= (seq![
                    p0 as u32,
                ] + pids_of(names.drop_first())).push(v as u32));
            }
        }
    }
}

/// The directory of every process is found: the entry name that writes a pid in decimal
/// gives that pid, for every `u32`.
pub proof fn law_every_pid_name_is_found(names: Seq<Seq<char>>, pid: u32)
    ensures
        pids_of(names.push(decimal_text(pid as nat))) == pids_of(names).push(pid),
{
    lemma_decimal_text_parses(pid as nat, u32::MAX as nat);
    law_numeric_name_adds_its_pid(names, decimal_text(pid as nat));
}

/// A refresh of `pid` cannot overflow the tick count of a process already in the table.
pub open spec fn refresh_fits(map: Map<u32, Process>, pid: u32, files: ProcFiles) -> bool {
    map.contains_key(pid) ==> match files.stat {
        Some(st) => cpu_delta_fits(map[pid]@, st@),
        None => true,
    }
}

/// What one refresh step for `pid` does: the table `old` becomes `new`, and `ok` says
/// whether the step succeeded (see `refresh_one`).
pub open spec fn refresh_result(
    old: Map<u32, Process>,
    new: Map<u32, Process>,
    pid: u32,
    files: ProcFiles,
    users: Seq<(u32, Seq<char>)>,
    ok: bool,
) -> bool {
    &&& old.contains_key(pid) ==> match text_view(files.stat) {
        None => new == old && !ok,
        Some(st) => {
            let (p, stat_ok) = stat_apply(old[pid]@, st, files.elapsed_ms);
            &&& new.contains_key(pid)
            &&& new[pid]@ == p
            &&& new.remove(pid) == old.remove(pid)
            &&& (ok <==> stat_ok)
        },
    }
    &&& !old.contains_key(pid) ==> ok && match new_process(
        pid,
        text_view(files.status),
        text_view(files.cmdline),
        text_view(files.stat),
        files.elapsed_ms,
        users,
    ) {
        Some(p) => {
            &&& new.contains_key(pid)
            &&& new[pid]@ == p
            &&& new.remove(pid) == old.remove(pid)
        },
        None => new == old,
    }
}

/// Every process in the table is filed under its own pid.
pub open spec fn filed_by_pid(map: Map<u32, Process>) -> bool {
    forall|k: u32| #[trigger] map.contains_key(k) ==> map[k].pid == k
}

/// A refresh step removes no process from the table, and keeps every process filed under
/// its own pid: a new entry is built for the pid it is filed under, and reading `stat`
/// leaves the pid as it is.
pub proof fn law_refresh_step_keeps_table(
    old: Map<u32, Process>,
    new: Map<u32, Process>,
    pid: u32,
    files: ProcFiles,
    users: Seq<(u32, Seq<char>)>,
    ok: bool,
)
    requires
        refresh_result(old, new, pid, files, users, ok),
    ensures
        forall|k: u32| old.contains_key(k) ==> #[trigger] new.contains_key(k),
        filed_by_pid(old) ==> filed_by_pid(new),
{
    assert forall|k: u32| old.contains_key(k) implies #[trigger] new.contains_key(k) by {
        if k != pid {
            assert(old.remove(pid).contains_key(k));
        }
    }
    if filed_by_pid(old) {
        if !old.contains_key(pid) {
            if let Some(p) = new_process(
                pid,
                text_view(files.status),
                text_view(files.cmdline),
                text_view(files.stat),
                files.elapsed_ms,
                users,
            ) {
                law_new_process_starts_at_zero(
                    pid,
                    text_view(files.status),
                    text_view(files.cmdline),
                    text_view(files.stat),
                    files.elapsed_ms,
                    users,
                );
            }
        }
        assert forall|k: u32| #[trigger] new.contains_key(k) implies new[k].pid == k by {
            if k != pid {
                assert(new.remove(pid).contains_key(k));
                assert(new.remove(pid)[k] == new[k]);
                if new != old {
                    assert(old.remove(pid)[k] == old[k]);
                }
            }
        }
    }
}

/// A whole refresh, step after step, removes no process from the table and keeps every
/// process filed under its own pid. `tables[i + 1]` is the table after step `i`, for the
/// pid `pids[i]` with files `files[i]`; this holds whether each step succeeded or not.
pub proof fn law_refresh_keeps_table(
    tables: Seq<Map<u32, Process>>,
    pids: Seq<u32>,
    files: Seq<ProcFiles>,
    oks: Seq<bool>,
    users: Seq<(u32, Seq<char>)>,
)
    requires
        tables.len() == pids.len() + 1,
        files.len() == pids.len(),
        oks.len() == pids.len(),
        forall|i: int|
            0 <= i < pids.len() ==> refresh_result(
                #[trigger] tables[i],
                tables[i + 1],
                pids[i],
                files[i],
                users,
                oks[i],
            ),
    ensures
        forall|k: u32| tables[0].contains_key(k) ==> #[trigger] tables.last().contains_key(k),
        filed_by_pid(tables[0]) ==> filed_by_pid(tables.last()),
    decreases pids.len(),
{
    if pids.len() > 0 {
        let n = pids.len() - 1;
        law_refresh_keeps_table(
            tables.drop_last(),
            pids.drop_last(),
            files.drop_last(),
            oks.drop_last(),
            users,
        );
        assert(refresh_result(tables[n], tables[n + 1], pids[n], files[n], users, oks[n]));
        law_refresh_step_keeps_table(tables[n], tables[n + 1], pids[n], files[n], users, oks[n]);
        assert(tables.drop_last().last() == tables[n]);
    }
}

/// One step of a refresh, for the process `pid` whose files are `files`.
///
/// A process already in the table has its `stat` read again (`stat_apply`); a missing
/// `stat` or a failed reading is an error, which the whole refresh stops at, with the
/// process kept as far as it was read. A process not yet in the table is built from its
/// files (`new_process`) and added if that succeeds; if it does not, the table stays as it
/// was and the step still succeeds. No step removes a process from the table.
pub fn refresh_one(
    map: &mut HashMap<u32, Process>,
    pid: u32,
    files: &ProcFiles,
    uids_table: &[(u32, String)],
) -> (res: Result<(), ()>)
    requires
        refresh_fits(old(map)@, pid, *files),
    ensures
        refresh_result(old(map)@, final(map)@, pid, *files, users_view(uids_table@), res is Ok),
        forall|k: u32| old(map)@.contains_key(k) ==> #[trigger] final(map)@.contains_key(k),
{
    if map.contains_key(&pid) {
        let stat = match &files.stat {
            Some(s) => s,
            None => return Err(()),
        };
        let mut process = match map.remove(&pid) {
            Some(p) => p,
            None => return Err(()),
        };
        let ghost removed = map@;
        let res = process.read_stat(stat.as_str(), files.elapsed_ms);
        map.insert(pid, process);
        assert(map@.remove(pid) =~= removed);
        assert(old(map)@.remove(pid) =~= removed);
        res
    } else {
        match Process::new(pid, files, uids_table) {
            Ok(process) => {
                map.insert(pid, process);
                assert(map@.remove(pid) =~= old(map)@.remove(pid));
            },
            Err(()) => {},
        }
        Ok(())
    }
}

} // verus!
