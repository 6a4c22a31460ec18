//! Character-level text scanning: the line, field and token splitting that the
//! `/proc` and `/etc/passwd` formats are read with, and unsigned decimal numbers.

use vstd::prelude::*;

verus! {

/// Rust's `char::is_whitespace`: the characters with the Unicode `White_Space` property.
pub open spec fn is_space(c: char) -> bool {
    let u = c as u32;
    ||| u == 0x20
    ||| 0x09 <= u <= 0x0d
    ||| u == 0x85
    ||| u == 0xa0
    ||| u == 0x1680
    ||| 0x2000 <= u <= 0x200a
    ||| u == 0x2028
    ||| u == 0x2029
    ||| u == 0x202f
    ||| u == 0x205f
    ||| u == 0x3000
}

/// Decides `is_space`.
pub fn char_is_space(c: char) -> (b: bool)
    ensures
        b == is_space(c),
{
    let u = c as u32;
    u == 0x20 || (0x09 <= u && u <= 0x0d) || u == 0x85 || u == 0xa0 || u == 0x1680 || (0x2000 <= u
        && u <= 0x200a) || u == 0x2028 || u == 0x2029 || u == 0x202f || u == 0x205f || u == 0x3000
}

/// The characters of a string, in order.
pub fn chars_of(s: &str) -> (res: Vec<char>)
    ensures
        res@ == s@,
{
    let mut res: Vec<char> = Vec::new();
    for c in it: s.chars()
        invariant
            res@ == it.seq().take(it.index()),
    {
        res.push(c);
    }
    res
}


/// Number of leading characters of `s` that are not whitespace.
pub open spec fn word_len(s: Seq<char>) -> nat
    decreases s.len(),
{
    if s.len() > 0 && !is_space(s[0]) {
        1 + word_len(s.drop_first())
    } else {
        0
    }
}

/// Number of leading characters of `s` that differ from `c`.
pub open spec fn run_len(s: Seq<char>, c: char) -> nat
    decreases s.len(),
{
    if s.len() > 0 && s[0] != c {
        1 + run_len(s.drop_first(), c)
    } else {
        0
    }
}

/// `str::trim_start`: `s` without its leading whitespace.
pub open spec fn trim_start(s: Seq<char>) -> Seq<char>
    decreases s.len(),
{
    if s.len() > 0 && is_space(s[0]) {
        trim_start(s.drop_first())
    } else {
        s
    }
}

/// `str::trim_end`: `s` without its trailing whitespace.
pub open spec fn trim_end(s: Seq<char>) -> Seq<char>
    decreases s.len(),
{
    if s.len() > 0 && is_space(s.last()) {
        trim_end(s.drop_last())
    } else {
        s
    }
}

/// `str::trim`: `s` without leading and trailing whitespace.
pub open spec fn trim(s: Seq<char>) -> Seq<char> {
    trim_end(trim_start(s))
}

pub proof fn lemma_trim_start_suffix(s: Seq<char>)
    ensures
        trim_start(s).len() <= s.len(),
        trim_start(s) == s.skip(s.len() - trim_start(s).len()),
        trim_start(s).len() > 0 ==> !is_space(trim_start(s)[0]),
    decreases s.len(),
{
    if s.len() > 0 && is_space(s[0]) {
        lemma_trim_start_suffix(s.drop_first());
        assert(s.drop_first().skip(s.drop_first().len() - trim_start(s).len()) =~= s.skip(
            s.len() - trim_start(s).len(),
        ));
    } else {
        assert(s.skip(0) =~= s);
    }
}

pub proof fn lemma_word_len_bound(s: Seq<char>)
    ensures
        word_len(s) <= s.len(),
        s.len() > 0 && !is_space(s[0]) ==> word_len(s) >= 1,
    decreases s.len(),
{
    if s.len() > 0 && !is_space(s[0]) {
        lemma_word_len_bound(s.drop_first());
    }
}

pub proof fn lemma_run_len_bound(s: Seq<char>, c: char)
    ensures
        run_len(s, c) <= s.len(),
    decreases s.len(),
{
    if s.len() > 0 && s[0] != c {
        lemma_run_len_bound(s.drop_first(), c);
    }
}

/// `str::split_whitespace`: the maximal runs of non-whitespace characters, in order.
pub open spec fn tokens(s: Seq<char>) -> Seq<Seq<char>>
    decreases s.len(),
{
    let t = trim_start(s);
    if t.len() == 0 {
        Seq::empty()
    } else {
        let n = word_len(t);
        proof {
            lemma_trim_start_suffix(s);
            lemma_word_len_bound(t);
        }
        seq![t.take(n as int)] + tokens(t.skip(n as int))
    }
}

/// `str::split(c)`: the pieces of `s` between occurrences of `c`.
pub open spec fn split_at_char(s: Seq<char>, c: char) -> Seq<Seq<char>>
    decreases s.len(),
{
    let n = run_len(s, c);
    proof {
        lemma_run_len_bound(s, c);
    }
    if n >= s.len() {
        seq![s]
    } else {
        seq![s.take(n as int)] + split_at_char(s.skip(n as int + 1), c)
    }
}

/// The part of `s` before the first `c`: `s.split(c).nth(0)`.
pub open spec fn before_char(s: Seq<char>, c: char) -> Seq<char> {
    s.take(run_len(s, c) as int)
}

/// A line without the `'\r'` of a `"\r\n"` ending.
pub open spec fn strip_cr(l: Seq<char>) -> Seq<char> {
    if l.len() > 0 && l.last() == '\r' {
        l.drop_last()
    } else {
        l
    }
}

/// A line ending in `"\r"` loses that `'\r'`; any other line stays as it is.
pub proof fn law_strip_cr_drops_one_carriage_return(l: Seq<char>)
    ensures
        strip_cr(l.push('\r')) == l,
        (l.len() == 0 || l.last() != '\r') ==> strip_cr(l) == l,
{
    assert(l.push('\r').drop_last() =~= l);
}

/// `str::lines`: the text split at `'\n'`, a `'\r'` before a `'\n'` dropped, and no
/// empty line after a final `'\n'`.
pub open spec fn lines(s: Seq<char>) -> Seq<Seq<char>>
    decreases s.len(),
{
    if s.len() == 0 {
        Seq::empty()
    } else {
        let n = run_len(s, '\n');
        proof {
            lemma_run_len_bound(s, '\n');
        }
        if n >= s.len() {
            seq![s]
        } else {
            seq![strip_cr(s.take(n as int))] + lines(s.skip(n as int + 1))
        }
    }
}


proof fn lemma_skip_spaces(s: Seq<char>, p: int, q: int)
    requires
        0 <= p <= q <= s.len(),
        forall|k: int| p <= k < q ==> is_space(#[trigger] s[k]),
        q == s.len() || !is_space(s[q]),
    ensures
        trim_start(s.skip(p)) == s.skip(q),
    decreases q - p,
{
    if p < q {
        assert(s.skip(p).drop_first() =~= s.skip(p + 1));
        lemma_skip_spaces(s, p + 1, q);
    }
}

proof fn lemma_word_run(s: Seq<char>, p: int, q: int)
    requires
        0 <= p <= q <= s.len(),
        forall|k: int| p <= k < q ==> !is_space(#[trigger] s[k]),
        q == s.len() || is_space(s[q]),
    ensures
        word_len(s.skip(p)) == q - p,
    decreases q - p,
{
    if p < q {
        assert(s.skip(p).drop_first() =~= s.skip(p + 1));
        lemma_word_run(s, p + 1, q);
    }
}

proof fn lemma_char_run(s: Seq<char>, c: char, p: int, q: int)
    requires
        0 <= p <= q <= s.len(),
        forall|k: int| p <= k < q ==> #[trigger] s[k] != c,
        q == s.len() || s[q] == c,
    ensures
        run_len(s.skip(p), c) == q - p,
    decreases q - p,
{
    if p < q {
        assert(s.skip(p).drop_first() =~= s.skip(p + 1));
        lemma_char_run(s, c, p + 1, q);
    }
}

/// Index of the first character at or after `p` that equals `c`, or `s.len()`.
fn find_char(s: &[char], c: char, p: usize) -> (q: usize)
    requires
        p <= s@.len(),
    ensures
        p <= q <= s@.len(),
        forall|k: int| p <= k < q ==> #[trigger] s@[k] != c,
        q == s@.len() || s@[q as int] == c,
{
    let mut q = p;
    while q < s.len() && s[q] != c
        invariant
            p <= q <= s@.len(),
            forall|k: int| p <= k < q ==> #[trigger] s@[k] != c,
        decreases s@.len() - q,
    {
        q = q + 1;
    }
    q
}

/// The characters `s[from..to]` as a new vector.
pub fn copy_range(s: &[char], from: usize, to: usize) -> (res: Vec<char>)
    requires
        from <= to <= s@.len(),
    ensures
        res@ == s@.subrange(from as int, to as int),
{
    let mut res: Vec<char> = Vec::new();
    let mut i = from;
    while i < to
        invariant
            from <= i <= to <= s@.len(),
            res@ == s@.subrange(from as int, i as int),
        decreases to - i,
    {
        res.push(s[i]);
        i = i + 1;
        assert(res@ =~= s@.subrange(from as int, i as int));
    }
    res
}

/// The `n`-th whitespace-separated token of `s` (counting from 0), if there is one:
/// `s.split_whitespace().nth(n)`.
pub fn nth_token(s: &[char], n: usize) -> (res: Option<Vec<char>>)
    ensures
        match res {
            Some(t) => n < tokens(s@).len() && t@ == tokens(s@)[n as int],
            None => n >= tokens(s@).len(),
        },
{
    let len = s.len();
    let mut p: usize = 0;
    let mut k: usize = 0;
    assert(s@.skip(0) =~= s@);
    while p < len
        invariant
            len == s@.len(),
            p <= len,
            k <= n,
            k <= tokens(s@).len(),
            tokens(s@.skip(p as int)) == tokens(s@).skip(k as int),
        decreases len - p,
    {
        let mut q = p;
        while q < len && char_is_space(s[q])
            invariant
                p <= q <= len,
                len == s@.len(),
                forall|j: int| p <= j < q ==> is_space(#[trigger] s@[j]),
            decreases len - q,
        {
            q = q + 1;
        }
        proof {
            lemma_skip_spaces(s@, p as int, q as int);
        }
        if q == len {
            assert(tokens(s@.skip(p as int)) =~= Seq::<Seq<char>>::empty());
            assert(tokens(s@).len() == k);
            return None;
        }
        let mut r = q;
        while r < len && !char_is_space(s[r])
            invariant
                q <= r <= len,
                len == s@.len(),
                forall|j: int| q <= j < r ==> !is_space(#[trigger] s@[j]),
            decreases len - r,
        {
            r = r + 1;
        }
        proof {
            lemma_word_run(s@, q as int, r as int);
            let t = s@.skip(q as int);
            assert(t.take(r - q) =~= s@.subrange(q as int, r as int));
            assert(t.skip(r - q) =~= s@.skip(r as int));
            assert(tokens(s@.skip(p as int)) == seq![s@.subrange(q as int, r as int)] + tokens(
                s@.skip(r as int),
            ));
            assert(tokens(s@).skip(k as int)[0] == s@.subrange(q as int, r as int));
            assert(tokens(s@).skip(k as int + 1) =~= tokens(s@).skip(k as int).drop_first());
        }
        if k == n {
            return Some(copy_range(s, q, r));
        }
        k = k + 1;
        p = r;
    }
    assert(tokens(s@.skip(p as int)) =~= Seq::<Seq<char>>::empty());
    None
}


/// The lines of `s`, as `str::lines` gives them.
pub fn split_lines(s: &[char]) -> (res: Vec<Vec<char>>)
    ensures
        res@.len() == lines(s@).len(),
        forall|i: int| 0 <= i < res@.len() ==> (#[trigger] res@[i])@ == lines(s@)[i],
{
    let len = s.len();
    let mut res: Vec<Vec<char>> = Vec::new();
    let mut p: usize = 0;
    assert(s@.skip(0) =~= s@);
    while p < len
        invariant
            len == s@.len(),
            p <= len,
            res@.len() <= lines(s@).len(),
            forall|i: int| 0 <= i < res@.len() ==> (#[trigger] res@[i])@ == lines(s@)[i],
            lines(s@.skip(p as int)) == lines(s@).skip(res@.len() as int),
        decreases len - p,
    {
        let q = find_char(s, '\n', p);
        proof {
            lemma_char_run(s@, '\n', p as int, q as int);
        }
        let ghost t = s@.skip(p as int);
        let ghost before = res@;
        if q == len {
            assert(t.take(q - p) =~= t);
            assert(lines(t) == seq![t]);
            res.push(copy_range(s, p, q));
            assert(res@[before.len() as int]@ == s@.subrange(p as int, q as int));
            assert(s@.subrange(p as int, q as int) =~= t);
            assert(lines(s@).skip(before.len() as int)[0] == t);
            assert(lines(s@).skip(before.len() as int).len() == 1);
            assert(lines(s@.skip(len as int)) =~= Seq::<Seq<char>>::empty());
            p = len;
        } else {
            let mut end = q;
            if q > p && s[q - 1] == '\r' {
                end = q - 1;
            }
            assert(t.take(q - p) =~= s@.subrange(p as int, q as int));
            assert(t.skip(q - p + 1) =~= s@.skip(q + 1));
            assert(strip_cr(s@.subrange(p as int, q as int)) =~= s@.subrange(p as int, end as int));
            assert(lines(t) == seq![s@.subrange(p as int, end as int)] + lines(s@.skip(q + 1)));
            res.push(copy_range(s, p, end));
            assert(lines(s@).skip(before.len() as int)[0] == s@.subrange(p as int, end as int));
            assert(lines(s@).skip(res@.len() as int) =~= lines(s@).skip(
                before.len() as int,
            ).drop_first());
            p = q + 1;
        }
    }
    assert(lines(s@.skip(p as int)) =~= Seq::<Seq<char>>::empty());
    res
}

/// The `n`-th piece of `s` split at `c` (counting from 0), if there is one:
/// `s.split(c).nth(n)`.
pub fn nth_field(s: &[char], c: char, n: usize) -> (res: Option<Vec<char>>)
    ensures
        match res {
            Some(f) => n < split_at_char(s@, c).len() && f@ == split_at_char(s@, c)[n as int],
            None => n >= split_at_char(s@, c).len(),
        },
{
    let len = s.len();
    let mut p: usize = 0;
    let mut k: usize = 0;
    assert(s@.skip(0) =~= s@);
    loop
        invariant
            len == s@.len(),
            p <= len,
            k <= n,
            k < split_at_char(s@, c).len(),
            split_at_char(s@.skip(p as int), c) == split_at_char(s@, c).skip(k as int),
        decreases len - p,
    {
        let q = find_char(s, c, p);
        let ghost t = s@.skip(p as int);
        proof {
            lemma_char_run(s@, c, p as int, q as int);
            assert(t.take(q - p) =~= s@.subrange(p as int, q as int));
        }
        if q == len {
            assert(t =~= s@.subrange(p as int, q as int));
            assert(split_at_char(t, c) == seq![t]);
            assert(split_at_char(s@, c).skip(k as int)[0] == t);
            if k == n {
                return Some(copy_range(s, p, q));
            }
            assert(split_at_char(s@, c).skip(k as int).len() == 1);
            return None;
        }
        assert(t.skip(q - p + 1) =~= s@.skip(q + 1));
        assert(split_at_char(t, c) == seq![s@.subrange(p as int, q as int)] + split_at_char(
            s@.skip(q + 1),
            c,
        ));
        if k == n {
            assert(split_at_char(s@, c).skip(k as int)[0] == s@.subrange(p as int, q as int));
            return Some(copy_range(s, p, q));
        }
        proof {
            lemma_split_nonempty(s@.skip(q + 1), c);
            assert(split_at_char(s@, c).skip(k as int + 1) =~= split_at_char(s@, c).skip(
                k as int,
            ).drop_first());
        }
        k = k + 1;
        p = q + 1;
    }
}

/// Splitting at a character always gives at least one piece.
pub proof fn lemma_split_nonempty(s: Seq<char>, c: char)
    ensures
        split_at_char(s, c).len() >= 1,
    decreases s.len(),
{
    lemma_run_len_bound(s, c);
}


/// `s` without leading and trailing whitespace: `str::trim`.
pub fn trim_chars(s: &[char]) -> (res: Vec<char>)
    ensures
        res@ == trim(s@),
{
    let len = s.len();
    let mut i: usize = 0;
    while i < len && char_is_space(s[i])
        invariant
            i <= len == s@.len(),
            forall|j: int| 0 <= j < i ==> is_space(#[trigger] s@[j]),
        decreases len - i,
    {
        i = i + 1;
    }
    proof {
        lemma_skip_spaces(s@, 0, i as int);
        assert(s@.skip(0) =~= s@);
    }
    let mut j: usize = len;
    while j > i && char_is_space(s[j - 1])
        invariant
            i <= j <= len == s@.len(),
            forall|m: int| j <= m < len ==> is_space(#[trigger] s@[m]),
        decreases j,
    {
        j = j - 1;
    }
    proof {
        lemma_trim_end_at(s@.skip(i as int), (j - i) as int);
        assert(s@.skip(i as int).take(j - i) =~= s@.subrange(i as int, j as int));
    }
    copy_range(s, i, j)
}

proof fn lemma_trim_end_at(s: Seq<char>, q: int)
    requires
        0 <= q <= s.len(),
        forall|m: int| q <= m < s.len() ==> is_space(#[trigger] s[m]),
        q == 0 || !is_space(s[q - 1]),
    ensures
        trim_end(s) == s.take(q),
    decreases s.len() - q,
{
    if q < s.len() {
        assert(s.drop_last().len() < s.len());
        lemma_trim_end_at(s.drop_last(), q);
        assert(s.drop_last().take(q) =~= s.take(q));
    } else {
        assert(s.take(q) =~= s);
    }
}


/// Whether `s` holds exactly the characters of `w`.
pub fn chars_equal(s: &[char], w: &str) -> (b: bool)
    ensures
        b == (s@ == w@),
{
    let wc = chars_of(w);
    if s.len() != wc.len() {
        return false;
    }
    let mut i: usize = 0;
    while i < s.len()
        invariant
            i <= s@.len() == wc@.len(),
            wc@ == w@,
            forall|j: int| 0 <= j < i ==> s@[j] == wc@[j],
        decreases s@.len() - i,
    {
        if s[i] != wc[i] {
            assert(s@[i as int] != wc@[i as int]);
            return false;
        }
        i = i + 1;
    }
    assert(s@ =~= wc@);
    true
}

/// A String holding the characters of `cs`.
///
/// Trusted: calls std's `FromIterator<char>` for `String` (`collect`), which builds the
/// string of exactly the collected characters, in order.
#[verifier::external_body]
pub(crate) fn string_from_chars(cs: &[char]) -> (res: String)
    ensures
        res@ == cs@,
{
    cs.iter().collect()
}

/// An ASCII decimal digit.
pub open spec fn is_digit(c: char) -> bool {
    '0' <= c <= '9'
}

pub open spec fn digit_value(c: char) -> nat {
    (c as u32 - '0' as u32) as nat
}

/// The number written by the decimal digits `s` (0 for no digits).
pub open spec fn decimal_value(s: Seq<char>) -> nat
    decreases s.len(),
{
    if s.len() == 0 {
        0
    } else {
        decimal_value(s.drop_last()) * 10 + digit_value(s.last())
    }
}

/// The digits of an unsigned number: the text after an optional leading `'+'`.
pub open spec fn unsigned_digits(s: Seq<char>) -> Seq<char> {
    if s.len() > 0 && s[0] == '+' {
        s.drop_first()
    } else {
        s
    }
}

/// `str::parse` for an unsigned integer type whose largest value is `max`: an optional `'+'`,
/// then one or more ASCII digits, whose value must not exceed `max`.
pub open spec fn parse_unsigned(s: Seq<char>, max: nat) -> Option<nat> {
    let d = unsigned_digits(s);
    if d.len() > 0 && (forall|i: int| 0 <= i < d.len() ==> is_digit(#[trigger] d[i]))
        && decimal_value(d) <= max {
        Some(decimal_value(d))
    } else {
        None
    }
}

proof fn lemma_decimal_prefix_le(d: Seq<char>, i: int)
    requires
        0 <= i <= d.len(),
    ensures
        decimal_value(d.take(i)) <= decimal_value(d),
    decreases d.len() - i,
{
    if i < d.len() {
        lemma_decimal_prefix_le(d, i + 1);
        assert(d.take(i + 1).drop_last() =~= d.take(i));
    } else {
        assert(d.take(i) =~= d);
    }
}

/// `s.parse::<u64>()`, with `None` for every error.
pub fn parse_u64(s: &[char]) -> (res: Option<u64>)
    ensures
        match res {
            Some(v) => parse_unsigned(s@, u64::MAX as nat) == Some(v as nat),
            None => parse_unsigned(s@, u64::MAX as nat) is None,
        },
{
    let ghost d = unsigned_digits(s@);
    let start: usize = if s.len() > 0 && s[0] == '+' {
        1
    } else {
        0
    };
    assert(d =~= s@.skip(start as int));
    if start >= s.len() {
        return None;
    }
    let mut v: u64 = 0;
    let mut i: usize = start;
    assert(d.take(0) =~= Seq::<char>::empty());
    while i < s.len()
        invariant
            start <= i <= s@.len(),
            d == s@.skip(start as int),
            d == unsigned_digits(s@),
            forall|j: int| 0 <= j < i - start ==> is_digit(#[trigger] d[j]),
            v as nat == decimal_value(d.take(i - start)),
        decreases s@.len() - i,
    {
        let c = s[i];
        if !('0' <= c && c <= '9') {
            assert(d[i - start] == c);
            assert(!is_digit(d[i - start]));
            return None;
        }
        let dv = (c as u32 - '0' as u32) as u64;
        assert(d.take(i - start + 1).drop_last() =~= d.take(i - start));
        assert(d.take(i - start + 1).last() == c);
        assert(dv as nat == digit_value(c));
        assert(decimal_value(d.take(i - start + 1)) == v as nat * 10 + dv as nat);
        let next = match v.checked_mul(10) {
            Some(m) => m.checked_add(dv),
            None => None,
        };
        match next {
            Some(nv) => {
                v = nv;
                i = i + 1;
            },
            None => {
                proof {
                    assert(v as nat * 10 + dv as nat > u64::MAX as nat);
                    lemma_decimal_prefix_le(d, i - start + 1);
                }
                return None;
            },
        }
    }
    assert(d.take(i - start) =~= d);
    Some(v)
}

/// `s.parse::<u32>()`, with `None` for every error.
pub fn parse_u32(s: &[char]) -> (res: Option<u32>)
    ensures
        match res {
            Some(v) => parse_unsigned(s@, u32::MAX as nat) == Some(v as nat),
            None => parse_unsigned(s@, u32::MAX as nat) is None,
        },
{
    match parse_u64(s) {
        Some(v) => if v <= u32::MAX as u64 {
            Some(v as u32)
        } else {
            None
        },
        None => None,
    }
}


/// The key of a `Key: value` line: the text before the first `':'`, trimmed.
pub open spec fn line_key(line: Seq<char>) -> Seq<char> {
    trim(before_char(line, ':'))
}

/// The key of a `Key: value` line and, if the line has one, its second
/// whitespace-separated token (the value).
pub fn key_and_value(line: &[char]) -> (res: (Vec<char>, Option<Vec<char>>))
    ensures
        res.0@ == line_key(line@),
        match res.1 {
            Some(v) => tokens(line@).len() > 1 && v@ == tokens(line@)[1],
            None => tokens(line@).len() <= 1,
        },
{
    let q = find_char(line, ':', 0);
    proof {
        lemma_char_run(line@, ':', 0, q as int);
        assert(line@.skip(0) =~= line@);
    }
    let head = copy_range(line, 0, q);
    let key = trim_chars(head.as_slice());
    (key, nth_token(line, 1))
}


/// A piece before the first `c` stays the same when more text follows.
pub proof fn lemma_run_len_extend(s: Seq<char>, x: Seq<char>, c: char)
    requires
        run_len(s, c) < s.len(),
    ensures
        run_len(s + x, c) == run_len(s, c),
    decreases s.len(),
{
    if s[0] != c {
        assert((s + x).drop_first() =~= s.drop_first() + x);
        lemma_run_len_extend(s.drop_first(), x, c);
    }
}

/// A text that holds `c` has its first `c` inside it.
pub proof fn lemma_run_len_found(s: Seq<char>, c: char, i: int)
    requires
        0 <= i < s.len(),
        s[i] == c,
    ensures
        run_len(s, c) <= i,
    decreases s.len(),
{
    if s[0] != c {
        lemma_run_len_found(s.drop_first(), c, i - 1);
    }
}

/// Appending one more `'\n'`-terminated line `l` to a text that is empty or ends in
/// `'\n'` appends that line (without a `'\r'` before the `'\n'`) to its lines.
pub proof fn lemma_lines_append(s: Seq<char>, l: Seq<char>)
    requires
        s.len() == 0 || s.last() == '\n',
        forall|i: int| 0 <= i < l.len() ==> #[trigger] l[i] != '\n',
    ensures
        lines(s + l + seq!['\n']) == lines(s).push(strip_cr(l)),
    decreases s.len(),
{
    let t = s + l + seq!['\n'];
    if s.len() == 0 {
        assert(t =~= l + seq!['\n']);
        assert(t.skip(0) =~= t);
        lemma_char_run(t, '\n', 0, l.len() as int);
        assert(t.take(l.len() as int) =~= l);
        assert(t.skip(l.len() as int + 1) =~= Seq::<char>::empty());
        assert(run_len(t, '\n') == l.len());
        assert(lines(Seq::<char>::empty()) =~= Seq::<Seq<char>>::empty());
        assert(lines(t) == seq![strip_cr(t.take(l.len() as int))] + lines(
            t.skip(l.len() as int + 1),
        ));
        assert(lines(t) =~= seq![strip_cr(l)]);
        assert(lines(s) =~= Seq::<Seq<char>>::empty());
        assert(lines(s).push(strip_cr(l)) =~= seq![strip_cr(l)]);
    } else {
        lemma_run_len_found(s, '\n', s.len() - 1);
        let n = run_len(s, '\n');
        lemma_run_len_extend(s, l + seq!['\n'], '\n');
        assert(t =~= s + (l + seq!['\n']));
        let rest = s.skip(n as int + 1);
        assert(t.take(n as int) =~= s.take(n as int));
        assert(t.skip(n as int + 1) =~= rest + l + seq!['\n']);
        assert(rest.len() == 0 || rest.last() == '\n');
        lemma_lines_append(rest, l);
        assert(lines(t) == seq![strip_cr(s.take(n as int))] + lines(rest + l + seq!['\n']));
        assert(lines(s) == seq![strip_cr(s.take(n as int))] + lines(rest));
        assert(lines(t) =~= lines(s).push(strip_cr(l)));
    }
}

proof fn lemma_trim_start_push_space(s: Seq<char>, c: char)
    requires
        is_space(c),
    ensures
        trim_start(s.push(c)) == (if trim_start(s).len() == 0 {
            Seq::<char>::empty()
        } else {
            trim_start(s).push(c)
        }),
    decreases s.len(),
{
    if s.len() == 0 {
        assert(s.push(c).drop_first() =~= Seq::<char>::empty());
        assert(trim_start(Seq::<char>::empty()) =~= Seq::<char>::empty());
    } else if is_space(s[0]) {
        assert(s.push(c).drop_first() =~= s.drop_first().push(c));
        lemma_trim_start_push_space(s.drop_first(), c);
    }
}

/// Whitespace at the end does not change what `trim` gives.
pub proof fn lemma_trim_push_space(s: Seq<char>, c: char)
    requires
        is_space(c),
    ensures
        trim(s.push(c)) == trim(s),
{
    lemma_trim_start_push_space(s, c);
    let t = trim_start(s);
    if t.len() > 0 {
        assert(t.push(c).drop_last() =~= t);
    } else {
        assert(trim_end(Seq::<char>::empty()) =~= Seq::<char>::empty());
    }
}

/// A `'\r'` at the end of a line does not change its key.
pub proof fn lemma_line_key_strip_cr(l: Seq<char>)
    ensures
        line_key(strip_cr(l)) == line_key(l),
{
    if l.len() > 0 && l.last() == '\r' {
        let d = l.drop_last();
        assert(l =~= d.push('\r'));
        if run_len(d, ':') < d.len() {
            lemma_run_len_extend(d, seq!['\r'], ':');
            assert(d + seq!['\r'] =~= l);
            assert(l.take(run_len(d, ':') as int) =~= d.take(run_len(d, ':') as int));
        } else {
            lemma_run_len_bound(d, ':');
            assert(d.skip(0) =~= d);
            assert(forall|k: int| 0 <= k < d.len() ==> #[trigger] d[k] != ':') by {
                assert forall|k: int| 0 <= k < d.len() implies #[trigger] d[k] != ':' by {
                    if d[k] == ':' {
                        lemma_run_len_found(d, ':', k);
                    }
                }
            }
            assert(l.skip(0) =~= l);
            lemma_char_run(l, ':', 0, l.len() as int);
            assert(l.take(l.len() as int) =~= l);
            assert(d.take(d.len() as int) =~= d);
            lemma_trim_push_space(d, '\r');
        }
    }
}


/// The decimal digit for `d` (below 10).
pub open spec fn digit_char(d: nat) -> char {
    if d == 0 {
        '0'
    } else if d == 1 {
        '1'
    } else if d == 2 {
        '2'
    } else if d == 3 {
        '3'
    } else if d == 4 {
        '4'
    } else if d == 5 {
        '5'
    } else if d == 6 {
        '6'
    } else if d == 7 {
        '7'
    } else if d == 8 {
        '8'
    } else {
        '9'
    }
}

/// `n` written in decimal, as `Display` writes an unsigned integer: no leading zeros, and
/// `0` for zero.
pub open spec fn decimal_text(n: nat) -> Seq<char>
    decreases n,
{
    if n < 10 {
        seq![digit_char(n)]
    } else {
        decimal_text(n / 10).push(digit_char(n % 10))
    }
}

fn digit(d: u64) -> (c: char)
    requires
        d < 10,
    ensures
        c == digit_char(d as nat),
{
    match d {
        0 => '0',
        1 => '1',
        2 => '2',
        3 => '3',
        4 => '4',
        5 => '5',
        6 => '6',
        7 => '7',
        8 => '8',
        _ => '9',
    }
}

proof fn lemma_decimal_text_digits(n: nat)
    ensures
        decimal_text(n).len() > 0,
        forall|i: int| 0 <= i < decimal_text(n).len() ==> is_digit(#[trigger] decimal_text(n)[i]),
        decimal_value(decimal_text(n)) == n,
    decreases n,
{
    if n >= 10 {
        lemma_decimal_text_digits(n / 10);
        let t = decimal_text(n);
        assert(t.drop_last() =~= decimal_text(n / 10));
        assert(forall|i: int| 0 <= i < t.len() - 1 ==> t[i] == decimal_text(n / 10)[i]);
        assert(n == (n / 10) * 10 + n % 10) by (nonlinear_arith);
        assert(digit_value(digit_char(n % 10)) == n % 10);
        assert(t.last() == digit_char(n % 10));
        assert(decimal_value(t) == decimal_value(t.drop_last()) * 10 + digit_value(t.last()));
    } else {
        let t = decimal_text(n);
        assert(t.drop_last() =~= Seq::<char>::empty());
        assert(decimal_value(Seq::<char>::empty()) == 0);
        assert(digit_value(digit_char(n)) == n);
        assert(decimal_value(t) == decimal_value(t.drop_last()) * 10 + digit_value(t.last()));
    }
}

/// Decimal text reads back: parsing the decimal text of a number up to `max` gives that
/// number.
pub proof fn lemma_decimal_text_parses(n: nat, max: nat)
    requires
        n <= max,
    ensures
        parse_unsigned(decimal_text(n), max) == Some(n),
{
    lemma_decimal_text_digits(n);
    let t = decimal_text(n);
    assert(is_digit(t[0]));
    assert(unsigned_digits(t) == t);
}

/// Appends `n` written in decimal to `out`.
pub fn push_decimal(out: &mut Vec<char>, n: u64)
    ensures
        final(out)@ == old(out)@ + decimal_text(n as nat),
    decreases n,
{
    if n < 10 {
        out.push(digit(n));
        assert(decimal_text(n as nat) == seq![digit_char(n as nat)]);
    } else {
        push_decimal(out, n / 10);
        out.push(digit(n % 10));
        assert(decimal_text(n as nat) == decimal_text((n / 10) as nat).push(digit_char((n % 10) as nat)));
        assert(out@ =~= old(out)@ + decimal_text(n as nat));
    }
}

/// Appends the characters of `s` to `out`.
pub fn push_str(out: &mut Vec<char>, s: &str)
    ensures
        final(out)@ == old(out)@ + s@,
{
    let mut cs = chars_of(s);
    out.append(&mut cs);
}

} // verus!
