//! The table from user ids to user names, as `/etc/passwd` lists them.

use vstd::prelude::*;

use crate::text::{
    chars_of, lemma_split_nonempty, lines, nth_field, parse_u32, parse_unsigned, split_at_char,
    split_lines, string_from_chars,
};

verus! {

/// A table of `(uid, name)` pairs with each name taken by its characters.
pub open spec fn users_view(table: Seq<(u32, String)>) -> Seq<(u32, Seq<char>)> {
    table.map_values(|e: (u32, String)| (e.0, e.1@))
}

/// The name of the first entry of `table` whose id is `uid`.
pub open spec fn lookup_user(table: Seq<(u32, Seq<char>)>, uid: u32) -> Option<Seq<char>>
    decreases table.len(),
{
    if table.len() == 0 {
        None
    } else if table[0].0 == uid {
        Some(table[0].1)
    } else {
        lookup_user(table.drop_first(), uid)
    }
}

/// The lookup finds the first entry with the id: where entry `i` has id `uid` and no entry
/// before it has, the name is that of entry `i`; where no entry has id `uid`, there is none.
pub proof fn law_lookup_finds_first_entry(table: Seq<(u32, Seq<char>)>, uid: u32, i: int)
    ensures
        0 <= i < table.len() && table[i].0 == uid && (forall|j: int|
            0 <= j < i ==> #[trigger] table[j].0 != uid) ==> lookup_user(table, uid) == Some(
            table[i].1,
        ),
        (forall|j: int| 0 <= j < table.len() ==> #[trigger] table[j].0 != uid) ==> lookup_user(
            table,
            uid,
        ) is None,
    decreases table.len(),
{
    if table.len() > 0 {
        law_lookup_finds_first_entry(table.drop_first(), uid, i - 1);
        if 0 < i < table.len() && table[i].0 == uid && (forall|j: int|
            0 <= j < i ==> #[trigger] table[j].0 != uid) {
            assert(table[0].0 != uid);
            assert(table.drop_first()[i - 1] == table[i]);
            assert(forall|j: int|
                0 <= j < i - 1 ==> #[trigger] table.drop_first()[j] == table[j + 1]);
        }
        if forall|j: int| 0 <= j < table.len() ==> #[trigger] table[j].0 != uid {
            assert(table[0].0 != uid);
            assert(forall|j: int|
                0 <= j < table.len() - 1 ==> #[trigger] table.drop_first()[j] == table[j + 1]);
        }
    }
}

/// The user name that the first entry with id `uid` gives, if any entry has that id.
pub fn choose_user(uid: u32, uids_table: &[(u32, String)]) -> (res: Option<String>)
    ensures
        match res {
            Some(name) => lookup_user(users_view(uids_table@), uid) == Some(name@),
            None => lookup_user(users_view(uids_table@), uid) is None,
        },
{
    let ghost all = users_view(uids_table@);
    let mut i: usize = 0;
    assert(all.skip(0) =~= all);
    while i < uids_table.len()
        invariant
            i <= uids_table@.len(),
            all == users_view(uids_table@),
            lookup_user(all.skip(i as int), uid) == lookup_user(all, uid),
        decreases uids_table@.len() - i,
    {
        assert(all.skip(i as int)[0] == (uids_table@[i as int].0, uids_table@[i as int].1@));
        if uids_table[i].0 == uid {
            return Some(uids_table[i].1.clone());
        }
        assert(all.skip(i as int).drop_first() =~= all.skip(i + 1));
        i = i + 1;
    }
    assert(all.skip(i as int).len() == 0);
    None
}

/// The entry that one line of `/etc/passwd` gives: the uid in its third `:`-separated field,
/// if that field is a `u32`, with the name in its first field.
pub open spec fn passwd_entry(line: Seq<char>) -> Option<(u32, Seq<char>)> {
    let f = split_at_char(line, ':');
    if f.len() > 2 {
        match parse_unsigned(f[2], u32::MAX as nat) {
            Some(uid) => Some((uid as u32, f[0])),
            None => None,
        }
    } else {
        None
    }
}

/// The entries that the lines `ls` give, in order; lines without a numeric uid give none.
pub open spec fn passwd_entries(ls: Seq<Seq<char>>) -> Seq<(u32, Seq<char>)>
    decreases ls.len(),
{
    if ls.len() == 0 {
        Seq::empty()
    } else {
        match passwd_entry(ls[0]) {
            Some(e) => seq![e] + passwd_entries(ls.drop_first()),
            None => passwd_entries(ls.drop_first()),
        }
    }
}

/// Every line whose third `:`-separated field is a `u32` adds its uid and its first field
/// to the table, after the entries of the lines before it; every other line adds nothing.
pub proof fn law_passwd_line_adds_its_user(ls: Seq<Seq<char>>, line: Seq<char>)
    ensures
        ({
            let f = split_at_char(line, ':');
            passwd_entries(ls.push(line)) == if f.len() > 2 && parse_unsigned(
                f[2],
                u32::MAX as nat,
            ) is Some {
                passwd_entries(ls).push(
                    (parse_unsigned(f[2], u32::MAX as nat).unwrap() as u32, f[0]),
                )
            } else {
                passwd_entries(ls)
            }
        }),
    decreases ls.len(),
{
    if ls.len() == 0 {
        assert(ls.push(line).drop_first() =~= Seq::<Seq<char>>::empty());
        assert(ls.push(line)[0] == line);
        assert(passwd_entries(Seq::<Seq<char>>::empty()) =~= Seq::<(u32, Seq<char>)>::empty());
        let f = split_at_char(line, ':');
        if f.len() > 2 && parse_unsigned(f[2], u32::MAX as nat) is Some {
            let e = (parse_unsigned(f[2], u32::MAX as nat).unwrap() as u32, f[0]);
            assert(passwd_entries(ls.push(line)) =~= seq![e] + Seq::<(u32, Seq<char>)>::empty());
            assert(Seq::<(u32, Seq<char>)>::empty().push(e) =~= seq![e]);
        }
    } else {
        assert(ls.push(line)[0] == ls[0]);
        assert(ls.push(line).drop_first() =~= ls.drop_first().push(line));
        law_passwd_line_adds_its_user(ls.drop_first(), line);
        let f = split_at_char(line, ':');
        let rest = passwd_entries(ls.drop_first());
        match passwd_entry(ls[0]) {
            Some(e0) => {
                if f.len() > 2 && parse_unsigned(f[2], u32::MAX as nat) is Some {
                    let e = (parse_unsigned(f[2], u32::MAX as nat).unwrap() as u32, f[0]);
                    assert(seq![e0] + rest.push(e) =~= (seq![e0] + rest).push(e));
                }
            },
            None => {},
        }
    }
}

/// The uid table of the text of `/etc/passwd`: one entry per line whose third field is a
/// user id, in the order of the lines.
pub fn uids_table_from(passwd: &str) -> (res: Vec<(u32, String)>)
    ensures
        users_view(res@) == passwd_entries(lines(passwd@)),
{
    let text = chars_of(passwd);
    let ls = split_lines(text.as_slice());
    let ghost all = lines(passwd@);
    let mut res: Vec<(u32, String)> = Vec::new();
    let mut i: usize = 0;
    assert(all.skip(0) =~= all);
    while i < ls.len()
        invariant
            i <= ls@.len() == all.len(),
            all == lines(passwd@),
            forall|j: int| 0 <= j < ls@.len() ==> (#[trigger] ls@[j])@ == all[j],
            users_view(res@) + passwd_entries(all.skip(i as int)) == passwd_entries(all),
        decreases ls@.len() - i,
    {
        let line = &ls[i];
        let ghost rest = all.skip(i as int);
        assert(rest[0] == line@);
        assert(rest.drop_first() =~= all.skip(i + 1));
        let ghost before = res@;
        match nth_field(line.as_slice(), ':', 2) {
            Some(f2) => match parse_u32(f2.as_slice()) {
                Some(uid) => {
                    let f0 = nth_field(line.as_slice(), ':', 0);
                    proof {
                        lemma_split_nonempty(line@, ':');
                    }
                    let name = match f0 {
                        Some(f) => string_from_chars(f.as_slice()),
                        None => String::new(),
                    };
                    res.push((uid, name));
                    assert(users_view(res@) =~= users_view(before) + seq![(uid, name@)]);
                },
                None => {},
            },
            None => {},
        }
        i = i + 1;
    }
    assert(all.skip(i as int) =~= Seq::<Seq<char>>::empty());
    assert(users_view(res@) + Seq::<(u32, Seq<char>)>::empty() =~= users_view(res@));
    res
}

} // verus!
