//! The memory totals of `/proc/meminfo`.

use vstd::prelude::*;

use crate::text::{
    chars_equal, chars_of, key_and_value, lemma_line_key_strip_cr, lemma_lines_append, line_key,
    lines, parse_u64, parse_unsigned, split_lines, strip_cr, tokens,
};

verus! {

/// Memory and swap sizes in KiB.
#[derive(Debug, Clone, Copy, PartialEq, Eq, Structural)]
pub struct MemoryData {
    pub mem_total: u64,
    pub mem_available: u64,
    pub swap_total: u64,
    pub swap_free: u64,
}

impl MemoryData {
    /// All sizes zero.
    pub open spec fn zero() -> MemoryData {
        MemoryData { mem_total: 0, mem_available: 0, swap_total: 0, swap_free: 0 }
    }
}

/// What one line of `/proc/meminfo` does to the totals read so far: a `MemTotal`,
/// `MemAvailable`, `SwapTotal` or `SwapFree` line with a value sets that total, and is an
/// error (`None`) if the value is not a `u64`; other lines and lines without a value change
/// nothing.
pub open spec fn meminfo_step(m: MemoryData, line: Seq<char>) -> Option<MemoryData> {
    let key = line_key(line);
    let t = tokens(line);
    if t.len() <= 1 {
        Some(m)
    } else {
        let v = parse_unsigned(t[1], u64::MAX as nat);
        if key == "MemTotal"@ {
            match v {
                Some(n) => Some(MemoryData { mem_total: n as u64, ..m }),
                None => None,
            }
        } else if key == "MemAvailable"@ {
            match v {
                Some(n) => Some(MemoryData { mem_available: n as u64, ..m }),
                None => None,
            }
        } else if key == "SwapTotal"@ {
            match v {
                Some(n) => Some(MemoryData { swap_total: n as u64, ..m }),
                None => None,
            }
        } else if key == "SwapFree"@ {
            match v {
                Some(n) => Some(MemoryData { swap_free: n as u64, ..m }),
                None => None,
            }
        } else {
            Some(m)
        }
    }
}

/// The totals after the lines `ls`, one after the other, starting from `m`; `None` at the
/// first line that is an error.
pub open spec fn meminfo_scan(m: MemoryData, ls: Seq<Seq<char>>) -> Option<MemoryData>
    decreases ls.len(),
{
    if ls.len() == 0 {
        Some(m)
    } else {
        match meminfo_step(m, ls[0]) {
            Some(n) => meminfo_scan(n, ls.drop_first()),
            None => None,
        }
    }
}

/// The totals that the text of `/proc/meminfo` gives, starting from all zero; `Err` when a
/// line of one of the four totals has a value that is not a `u64`.
pub fn read_meminfo(meminfo: &str) -> (res: Result<MemoryData, ()>)
    ensures
        res == (match meminfo_scan(MemoryData::zero(), lines(meminfo@)) {
            Some(m) => Ok::<MemoryData, ()>(m),
            None => Err(()),
        }),
{
    let text = chars_of(meminfo);
    let ls = split_lines(text.as_slice());
    let ghost all = lines(meminfo@);
    let mut data = MemoryData { mem_total: 0, mem_available: 0, swap_total: 0, swap_free: 0 };
    let mut i: usize = 0;
    assert(all.skip(0) =~= all);
    while i < ls.len()
        invariant
            i <= ls@.len() == all.len(),
            all == lines(meminfo@),
            forall|j: int| 0 <= j < ls@.len() ==> (#[trigger] ls@[j])@ == all[j],
            meminfo_scan(data, all.skip(i as int)) == meminfo_scan(MemoryData::zero(), all),
        decreases ls@.len() - i,
    {
        let ghost rest = all.skip(i as int);
        assert(rest[0] == ls@[i as int]@);
        assert(rest.drop_first() =~= all.skip(i + 1));
        let (key, value) = key_and_value(ls[i].as_slice());
        if let Some(v) = value {
            let parsed = parse_u64(v.as_slice());
            if chars_equal(key.as_slice(), "MemTotal") {
                match parsed {
                    Some(n) => data.mem_total = n,
                    None => return Err(()),
                }
            } else if chars_equal(key.as_slice(), "MemAvailable") {
                match parsed {
                    Some(n) => data.mem_available = n,
                    None => return Err(()),
                }
            } else if chars_equal(key.as_slice(), "SwapTotal") {
                match parsed {
                    Some(n) => data.swap_total = n,
                    None => return Err(()),
                }
            } else if chars_equal(key.as_slice(), "SwapFree") {
                match parsed {
                    Some(n) => data.swap_free = n,
                    None => return Err(()),
                }
            }
        }
        i = i + 1;
    }
    assert(all.skip(i as int) =~= Seq::<Seq<char>>::empty());
    Ok(data)
}


/// Each of the four total lines sets its own total and nothing else, and is an error when
/// its value is not a `u64`; a line of any other key, or with no value, changes nothing.
pub proof fn law_meminfo_lines_set_their_totals(m: MemoryData, line: Seq<char>)
    ensures
        tokens(line).len() <= 1 ==> meminfo_step(m, line) == Some(m),
        tokens(line).len() > 1 ==> {
            let v = parse_unsigned(tokens(line)[1], u64::MAX as nat);
            let key = line_key(line);
            let r = meminfo_step(m, line);
            &&& v is None && (key == "MemTotal"@ || key == "MemAvailable"@ || key == "SwapTotal"@
                || key == "SwapFree"@) ==> r is None
            &&& v is Some && key == "MemTotal"@ ==> r == Some(
                MemoryData { mem_total: v.unwrap() as u64, ..m },
            )
            &&& v is Some && key == "MemAvailable"@ ==> r == Some(
                MemoryData { mem_available: v.unwrap() as u64, ..m },
            )
            &&& v is Some && key == "SwapTotal"@ ==> r == Some(
                MemoryData { swap_total: v.unwrap() as u64, ..m },
            )
            &&& v is Some && key == "SwapFree"@ ==> r == Some(
                MemoryData { swap_free: v.unwrap() as u64, ..m },
            )
            &&& (key != "MemTotal"@ && key != "MemAvailable"@ && key != "SwapTotal"@ && key
                != "SwapFree"@) ==> r == Some(m)
        },
{
    reveal_strlit("MemTotal");
    reveal_strlit("MemAvailable");
    reveal_strlit("SwapTotal");
    reveal_strlit("SwapFree");
    assert("MemTotal"@.len() == 8 && "MemAvailable"@.len() == 12);
    assert("SwapTotal"@.len() == 9 && "SwapFree"@.len() == 8);
    assert("MemTotal"@ != "SwapFree"@) by {
        assert("MemTotal"@[0] != "SwapFree"@[0]);
    }
}

proof fn lemma_meminfo_scan_push(m: MemoryData, ls: Seq<Seq<char>>, x: Seq<char>)
    ensures
        meminfo_scan(m, ls.push(x)) == match meminfo_scan(m, ls) {
            Some(n) => meminfo_step(n, x),
            None => None,
        },
    decreases ls.len(),
{
    if ls.len() == 0 {
        assert(ls.push(x).drop_first() =~= Seq::<Seq<char>>::empty());
        assert(ls.push(x)[0] == x);
        if let Some(n) = meminfo_step(m, x) {
            assert(meminfo_scan(n, Seq::<Seq<char>>::empty()) == Some(n));
        }
    } else {
        assert(ls.push(x)[0] == ls[0]);
        assert(ls.push(x).drop_first() =~= ls.drop_first().push(x));
        if let Some(n) = meminfo_step(m, ls[0]) {
            lemma_meminfo_scan_push(n, ls.drop_first(), x);
        }
    }
}

/// A line whose key is none of the four totals changes nothing: appending it to a text that
/// is empty or ends in `'\n'` gives the same result as the text without it.
pub proof fn law_meminfo_other_line_changes_nothing(s: Seq<char>, l: Seq<char>)
    requires
        s.len() == 0 || s.last() == '\n',
        forall|i: int| 0 <= i < l.len() ==> #[trigger] l[i] != '\n',
        line_key(l) != "MemTotal"@,
        line_key(l) != "MemAvailable"@,
        line_key(l) != "SwapTotal"@,
        line_key(l) != "SwapFree"@,
    ensures
        meminfo_scan(MemoryData::zero(), lines(s + l + seq!['\n'])) == meminfo_scan(
            MemoryData::zero(),
            lines(s),
        ),
{
    lemma_lines_append(s, l);
    lemma_meminfo_scan_push(MemoryData::zero(), lines(s), strip_cr(l));
    lemma_line_key_strip_cr(l);
}

} // verus!
