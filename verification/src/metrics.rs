//! Host metrics an agent reads from `/proc`: the parsing of those files and
//! the bookkeeping between two CPU samples.

use vstd::prelude::*;

use crate::text::{char_is_whitespace, is_ws, str_starts_with, starts_with_seq, trim_start_seq};

verus! {

/// Number of leading characters of `s` that are not whitespace.
pub open spec fn token_len(s: Seq<char>) -> nat
    decreases s.len(),
{
    if s.len() == 0 || is_ws(s[0]) {
        0
    } else {
        1 + token_len(s.drop_first())
    }
}

pub proof fn lemma_trim_start_shorter(s: Seq<char>)
    ensures
        trim_start_seq(s).len() <= s.len(),
        trim_start_seq(s).len() > 0 ==> !is_ws(trim_start_seq(s)[0]),
        trim_start_seq(s) == s.skip(s.len() - trim_start_seq(s).len()),
    decreases s.len(),
{
    if s.len() > 0 && is_ws(s[0]) {
        lemma_trim_start_shorter(s.drop_first());
        assert(s.drop_first().skip(s.drop_first().len() - trim_start_seq(s.drop_first()).len()) =~= s.skip(
            s.len() - trim_start_seq(s).len(),
        ));
    } else {
        assert(s.skip(0) =~= s);
    }
}

pub proof fn lemma_token_len(s: Seq<char>)
    ensures
        token_len(s) <= s.len(),
        forall|i: int| 0 <= i < token_len(s) ==> !is_ws(#[trigger] s[i]),
        token_len(s) < s.len() ==> is_ws(s[token_len(s) as int]),
    decreases s.len(),
{
    if s.len() > 0 && !is_ws(s[0]) {
        lemma_token_len(s.drop_first());
        assert forall|i: int| 0 <= i < token_len(s) implies !is_ws(#[trigger] s[i]) by {
            if i > 0 {
                assert(s[i] == s.drop_first()[i - 1]);
            }
        }
    }
}

/// The whitespace-separated fields of `s`, as `str::split_whitespace`
/// yields them.
pub open spec fn fields(s: Seq<char>) -> Seq<Seq<char>>
    decreases s.len(),
{
    let t = trim_start_seq(s);
    if t.len() == 0 {
        Seq::empty()
    } else {
        proof {
            lemma_trim_start_shorter(s);
            lemma_token_len(t);
        }
        seq![t.take(token_len(t) as int)] + fields(t.skip(token_len(t) as int))
    }
}

/// The value of a run of decimal digits.
pub open spec fn digits_value(s: Seq<char>) -> nat
    decreases s.len(),
{
    if s.len() == 0 {
        0
    } else {
        digits_value(s.drop_last()) * 10 + ((s.last() as u32) - 48) as nat
    }
}

/// Every character is a decimal digit.
pub open spec fn all_digits(s: Seq<char>) -> bool {
    forall|i: int| 0 <= i < s.len() ==> '0' <= #[trigger] s[i] && s[i] <= '9'
}

/// What `str::parse::<u64>` makes of `s`: an optional `+`, then at least
/// one decimal digit, and a value that fits.
pub open spec fn parse_u64_spec(s: Seq<char>) -> Option<u64> {
    let d = if s.len() > 0 && s[0] == '+' {
        s.drop_first()
    } else {
        s
    };
    if d.len() > 0 && all_digits(d) && digits_value(d) <= u64::MAX {
        Some(digits_value(d) as u64)
    } else {
        None
    }
}

/// Parse an unsigned decimal number, as `str::parse::<u64>`.
pub fn parse_u64(s: &str) -> (r: Option<u64>)
    ensures
        r == parse_u64_spec(s@),
{
    let n = s.unicode_len();
    let start: usize = if n > 0 && s.get_char(0) == '+' {
        1
    } else {
        0
    };
    let ghost d = if s@.len() > 0 && s@[0] == '+' {
        s@.drop_first()
    } else {
        s@
    };
    assert(d =~= s@.skip(start as int));
    if n == start {
        return None;
    }
    let mut value: u64 = 0;
    let mut i: usize = start;
    assert(d.take(0) =~= Seq::<char>::empty());
    while i < n
        invariant
            start <= i <= n,
            n == s@.len(),
            d == s@.skip(start as int),
            d == (if s@.len() > 0 && s@[0] == '+' {
                s@.drop_first()
            } else {
                s@
            }),
            all_digits(d.take(i - start)),
            value == digits_value(d.take(i - start)),
        decreases n - i,
    {
        let c = s.get_char(i);
        assert(d.take(i - start + 1).drop_last() =~= d.take(i - start));
        assert(d.take(i - start + 1).last() == c);
        if c < '0' || c > '9' {
            assert(!all_digits(d)) by {
                assert(d[i - start] == c);
            }
            return None;
        }
        let digit = (c as u32 - 48) as u64;
        match value.checked_mul(10) {
            Some(v10) => match v10.checked_add(digit) {
                Some(v) => {
                    value = v;
                },
                None => {
                    proof {
                        lemma_digits_value_prefix(d, i - start + 1);
                    }
                    return None;
                },
            },
            None => {
                proof {
                    lemma_digits_value_prefix(d, i - start + 1);
                }
                return None;
            },
        }
        assert(all_digits(d.take(i - start + 1))) by {
            assert forall|q: int| 0 <= q < i - start + 1 implies '0' <= #[trigger] d.take(i - start + 1)[q]
                && d.take(i - start + 1)[q] <= '9' by {
                if q < i - start {
                    assert(d.take(i - start + 1)[q] == d.take(i - start)[q]);
                }
            }
        }
        i = i + 1;
    }
    assert(d.take(n - start) =~= d);
    Some(value)
}

/// A longer run of digits is worth at least as much as its prefix.
proof fn lemma_digits_value_prefix(d: Seq<char>, k: int)
    requires
        0 <= k <= d.len(),
        all_digits(d.take(k)),
    ensures
        digits_value(d.take(k)) <= digits_value(d) || !all_digits(d),
    decreases d.len() - k,
{
    if k < d.len() && all_digits(d) {
        assert(all_digits(d.take(k + 1))) by {
            assert forall|q: int| 0 <= q < k + 1 implies '0' <= #[trigger] d.take(k + 1)[q] && d.take(k + 1)[q] <= '9' by {
                assert(d.take(k + 1)[q] == d[q]);
            }
        }
        lemma_digits_value_prefix(d, k + 1);
        assert(d.take(k + 1).drop_last() =~= d.take(k));
    } else if k == d.len() {
        assert(d.take(k) =~= d);
    }
}

/// The `n`-th (from 0) whitespace-separated field of `s`.
pub fn nth_field(s: &str, n: usize) -> (r: Option<&str>)
    ensures
        match r {
            Some(f) => n < fields(s@).len() && f@ == fields(s@)[n as int],
            None => n >= fields(s@).len(),
        },
{
    let len = s.unicode_len();
    let mut i: usize = 0;
    let mut k: usize = 0;
    assert(s@.skip(0) =~= s@);
    while k <= n
        invariant
            i <= len,
            len == s@.len(),
            k <= n,
            fields(s@).len() >= k,
            fields(s@).skip(k as int) == fields(s@.skip(i as int)),
        decreases len - i,
    {
        let ghost rest = s@.skip(i as int);
        while i < len && char_is_whitespace(s.get_char(i))
            invariant
                i <= len,
                len == s@.len(),
                trim_start_seq(rest) == trim_start_seq(s@.skip(i as int)),
                rest.len() >= s@.skip(i as int).len(),
            decreases len - i,
        {
            assert(s@.skip(i as int).drop_first() =~= s@.skip(i + 1));
            i = i + 1;
        }
        proof {
            if i < len {
                assert(s@.skip(i as int)[0] == s@[i as int]);
            }
            assert(trim_start_seq(s@.skip(i as int)) == s@.skip(i as int));
        }
        if i == len {
            assert(s@.skip(len as int) =~= Seq::<char>::empty());
            return None;
        }
        let start = i;
        while i < len && !char_is_whitespace(s.get_char(i))
            invariant
                start <= i <= len,
                len == s@.len(),
                forall|q: int| start <= q < i ==> !is_ws(#[trigger] s@[q]),
            decreases len - i,
        {
            i = i + 1;
        }
        let ghost t = s@.skip(start as int);
        proof {
            lemma_token_len(t);
            assert(token_len(t) == i - start) by {
                lemma_token_len_is(t, (i - start) as nat);
            }
            assert(fields(s@).skip(k as int) == fields(t));
            assert(fields(t) == seq![t.take(token_len(t) as int)] + fields(t.skip(token_len(t) as int)));
            assert(t.skip((i - start) as int) =~= s@.skip(i as int));
            assert(fields(s@).skip(k + 1) =~= fields(s@).skip(k as int).drop_first());
        }
        if k == n {
            let f = s.substring_char(start, i);
            assert(f@ =~= t.take((i - start) as int));
            assert(fields(s@)[k as int] == fields(s@).skip(k as int)[0]);
            return Some(f);
        }
        k = k + 1;
    }
    None
}

/// `token_len` is the length of the leading run of non-whitespace.
proof fn lemma_token_len_is(t: Seq<char>, k: nat)
    requires
        k <= t.len(),
        forall|q: int| 0 <= q < k ==> !is_ws(#[trigger] t[q]),
        k < t.len() ==> is_ws(t[k as int]),
    ensures
        token_len(t) == k,
    decreases k,
{
    if k > 0 {
        assert forall|q: int| 0 <= q < k - 1 implies !is_ws(#[trigger] t.drop_first()[q]) by {
            assert(t.drop_first()[q] == t[q + 1]);
        }
        if k < t.len() {
            assert(t.drop_first()[k - 1] == t[k as int]);
        }
        lemma_token_len_is(t.drop_first(), (k - 1) as nat);
    }
}

/// The number of a `/proc/meminfo` line (`Key:   1234 kB`): its second
/// field as a number, 0 when there is none.
pub fn parse_kb(line: &str) -> (r: u64)
    ensures
        r == match if 1 < fields(line@).len() {
            parse_u64_spec(fields(line@)[1])
        } else {
            None
        } {
            Some(v) => v,
            None => 0,
        },
{
    match nth_field(line, 1) {
        Some(f) => match parse_u64(f) {
            Some(v) => v,
            None => 0,
        },
        None => 0,
    }
}

/// CPU time bookkeeping between two samples.
#[derive(Debug, Clone, Default)]
pub struct Probe {
    prev_idle: u64,
    prev_total: u64,
}

impl Probe {
    /// The previous sample: (idle, total) ticks, (0, 0) before the first.
    pub closed spec fn prev(&self) -> (u64, u64) {
        (self.prev_idle, self.prev_total)
    }

    /// Take a new sample of (idle, total) CPU ticks. When a previous sample
    /// exists and the total has grown, the result is the growth of idle
    /// ticks (never below 0) and of total ticks since then.
    pub fn advance(&mut self, idle: u64, total: u64) -> (r: Option<(u64, u64)>)
        ensures
            final(self).prev() == (idle, total),
            match r {
                Some((di, dt)) => old(self).prev().1 > 0 && total > old(self).prev().1
                    && dt == total - old(self).prev().1
                    && di == if idle >= old(self).prev().0 {
                    idle - old(self).prev().0
                } else {
                    0
                },
                None => !(old(self).prev().1 > 0 && total > old(self).prev().1),
            },
    {
        let r = if self.prev_total > 0 && total > self.prev_total {
            let di = if idle >= self.prev_idle {
                idle - self.prev_idle
            } else {
                0
            };
            Some((di, total - self.prev_total))
        } else {
            None
        };
        self.prev_idle = idle;
        self.prev_total = total;
        r
    }
}

/// The last back-off doubled, up to a cap of 30.
pub open spec fn backoff_step(secs: int) -> int {
    if 2 * secs < 30 {
        2 * secs
    } else {
        30
    }
}

/// The back-off before the next reconnection attempt, in seconds: the last
/// one doubled, up to a cap of 30.
pub fn next_backoff_secs(secs: u64) -> (r: u64)
    ensures
        r == backoff_step(secs as int),
{
    if secs < 15 {
        secs * 2
    } else {
        30
    }
}


/// The lines of `s` as `str::lines` yields them: split at each `\n`, a `\r`
/// just before a `\n` dropped, and no empty last line after a final `\n`.
pub open spec fn lines_of(s: Seq<char>) -> Seq<Seq<char>> {
    let p = split_nl(s);
    let ended = p.drop_last().map_values(|l: Seq<char>| strip_cr(l));
    if p.last().len() == 0 {
        ended
    } else {
        ended.push(p.last())
    }
}

/// The pieces of `s` between `\n`s (one more than there are `\n`s).
pub open spec fn split_nl(s: Seq<char>) -> Seq<Seq<char>>
    decreases s.len(),
{
    if s.len() == 0 {
        seq![Seq::empty()]
    } else {
        let p = split_nl(s.drop_last());
        if s.last() == '\n' {
            p.push(Seq::empty())
        } else {
            p.update(p.len() - 1, p.last().push(s.last()))
        }
    }
}

proof fn lemma_split_nl_nonempty(s: Seq<char>)
    ensures
        split_nl(s).len() >= 1,
    decreases s.len(),
{
    if s.len() > 0 {
        lemma_split_nl_nonempty(s.drop_last());
    }
}

/// `l` without one trailing `\r`.
pub open spec fn strip_cr(l: Seq<char>) -> Seq<char> {
    if l.len() > 0 && l.last() == '\r' {
        l.drop_last()
    } else {
        l
    }
}

fn strip_cr_str(l: &str) -> (r: &str)
    ensures
        r@ == strip_cr(l@),
{
    let n = l.unicode_len();
    if n > 0 && l.get_char(n - 1) == '\r' {
        let r = l.substring_char(0, n - 1);
        assert(r@ =~= l@.drop_last());
        r
    } else {
        l
    }
}

/// The lines of `s`, as `str::lines`.
pub fn lines(s: &str) -> (r: Vec<&str>)
    ensures
        r@.len() == lines_of(s@).len(),
        forall|i: int| 0 <= i < r@.len() ==> (#[trigger] r@[i])@ == lines_of(s@)[i],
{
    let n = s.unicode_len();
    let mut out: Vec<&str> = Vec::new();
    let mut start: usize = 0;
    let mut i: usize = 0;
    assert(s@.take(0) =~= Seq::<char>::empty());
    while i < n
        invariant
            start <= i <= n,
            n == s@.len(),
            split_nl(s@.take(i as int)).len() == out@.len() + 1,
            forall|q: int|
                0 <= q < out@.len() ==> (#[trigger] out@[q])@ == strip_cr(
                    split_nl(s@.take(i as int))[q],
                ),
            split_nl(s@.take(i as int)).last() == s@.subrange(start as int, i as int),
        decreases n - i,
    {
        assert(s@.take(i + 1).drop_last() =~= s@.take(i as int));
        proof {
            lemma_split_nl_nonempty(s@.take(i as int));
        }
        if s.get_char(i) == '\n' {
            let piece = s.substring_char(start, i);
            out.push(strip_cr_str(piece));
            start = i + 1;
            assert(s@.subrange(start as int, i + 1) =~= Seq::<char>::empty());
        } else {
            assert(s@.subrange(start as int, i + 1) =~= s@.subrange(start as int, i as int).push(
                s@[i as int],
            ));
        }
        i = i + 1;
    }
    assert(s@.take(n as int) =~= s@);
    let last = s.substring_char(start, n);
    if last.unicode_len() > 0 {
        out.push(last);
    }
    out
}

/// The sum of `s`.
pub open spec fn sum_of(s: Seq<u64>) -> int
    decreases s.len(),
{
    if s.len() == 0 {
        0
    } else {
        sum_of(s.drop_last()) + s.last()
    }
}

/// The numbers among the fields of `s` after the first (fields that do not
/// parse are left out).
pub open spec fn numbers_after_first(f: Seq<Seq<char>>) -> Seq<u64>
    decreases f.len(),
{
    if f.len() <= 1 {
        Seq::empty()
    } else {
        match parse_u64_spec(f.last()) {
            Some(v) => numbers_after_first(f.drop_last()).push(v),
            None => numbers_after_first(f.drop_last()),
        }
    }
}

/// The CPU tick counters on the first line of `/proc/stat`.
pub open spec fn stat_numbers(stat: Seq<char>) -> Seq<u64> {
    if lines_of(stat).len() == 0 {
        Seq::empty()
    } else {
        numbers_after_first(fields(lines_of(stat)[0]))
    }
}

/// (idle, total) CPU ticks from `/proc/stat`: idle and iowait, and all
/// counters of the first line; (0, 0) when it has fewer than four.
pub open spec fn cpu_ticks_spec(stat: Seq<char>) -> (u64, u64) {
    let f = stat_numbers(stat);
    if f.len() < 4 {
        (0, 0)
    } else {
        (
            (f[3] + if f.len() > 4 {
                f[4]
            } else {
                0
            }) as u64,
            sum_of(f) as u64,
        )
    }
}

/// (idle, total) CPU ticks from the text of `/proc/stat`. The counters
/// must add up within 64 bits.
pub fn cpu_ticks_from(stat: &str) -> (r: (u64, u64))
    requires
        stat_numbers(stat@).len() >= 4 ==> sum_of(stat_numbers(stat@)) <= u64::MAX,
    ensures
        r == cpu_ticks_spec(stat@),
{
    let ls = lines(stat);
    if ls.len() == 0 {
        return (0, 0);
    }
    let first = ls[0];
    let mut nums: Vec<u64> = Vec::new();
    let ghost f = fields(first@);
    proof {
        lemma_fields_len(first@);
    }
    if nth_field(first, 0).is_none() {
        assert(nums@ =~= stat_numbers(stat@));
        return (0, 0);
    }
    let flen = first.unicode_len();
    let mut k: usize = 1;
    loop
        invariant
            1 <= k <= f.len(),
            f.len() <= first@.len(),
            flen == first@.len(),
            f == fields(first@),
            first@ == lines_of(stat@)[0],
            lines_of(stat@).len() > 0,
            nums@ == numbers_after_first(f.take(k as int)),
        ensures
            nums@ == numbers_after_first(f),
            f == fields(first@),
            first@ == lines_of(stat@)[0],
            lines_of(stat@).len() > 0,
        decreases f.len() - k,
    {
        match nth_field(first, k) {
            Some(field) => {
                assert(f.take(k + 1).drop_last() =~= f.take(k as int));
                assert(f.take(k + 1).last() == field@);
                match parse_u64(field) {
                    Some(v) => {
                        nums.push(v);
                    },
                    None => {},
                }
                k = k + 1;
            },
            None => {
                assert(f.take(k as int) =~= f);
                break;
            },
        }
    }
    assert(nums@ == stat_numbers(stat@));
    if nums.len() < 4 {
        return (0, 0);
    }
    proof {
        lemma_sum_bounds(nums@);
    }
    let idle = nums[3] + if nums.len() > 4 {
        nums[4]
    } else {
        0
    };
    let mut total: u64 = 0;
    let mut j: usize = 0;
    while j < nums.len()
        invariant
            j <= nums@.len(),
            nums@ == stat_numbers(stat@),
            sum_of(nums@) <= u64::MAX,
            total == sum_of(nums@.take(j as int)),
        decreases nums@.len() - j,
    {
        assert(nums@.take(j + 1).drop_last() =~= nums@.take(j as int));
        proof {
            lemma_sum_take(nums@, j + 1);
        }
        total = total + nums[j];
        j = j + 1;
    }
    assert(nums@.take(nums@.len() as int) =~= nums@);
    (idle, total)
}

/// A prefix sums to at most the whole.
proof fn lemma_sum_take(s: Seq<u64>, k: int)
    requires
        0 <= k <= s.len(),
    ensures
        sum_of(s.take(k)) <= sum_of(s),
    decreases s.len(),
{
    if k == s.len() {
        assert(s.take(k) =~= s);
    } else {
        lemma_sum_take(s.drop_last(), k);
        assert(s.drop_last().take(k) =~= s.take(k));
    }
}

/// The counters read for idle time are within the total.
proof fn lemma_sum_bounds(s: Seq<u64>)
    requires
        s.len() >= 4,
    ensures
        s[3] <= sum_of(s),
        s.len() > 4 ==> s[3] + s[4] <= sum_of(s),
{
    if s.len() > 4 {
        lemma_sum_take(s, 5);
        let t = s.take(5);
        assert(t.drop_last().drop_last().drop_last().drop_last().drop_last() =~= Seq::<u64>::empty());
        reveal_with_fuel(sum_of, 6);
        assert(sum_of(t) == s[0] + s[1] + s[2] + s[3] + s[4]);
    } else {
        lemma_sum_take(s, 4);
        let t = s.take(4);
        assert(t.drop_last().drop_last().drop_last().drop_last() =~= Seq::<u64>::empty());
        reveal_with_fuel(sum_of, 5);
        assert(sum_of(t) == s[0] + s[1] + s[2] + s[3]);
    }
}

/// No more fields than characters.
proof fn lemma_fields_len(s: Seq<char>)
    ensures
        fields(s).len() <= s.len(),
    decreases s.len(),
{
    let t = trim_start_seq(s);
    lemma_trim_start_shorter(s);
    if t.len() > 0 {
        lemma_token_len(t);
        lemma_fields_len(t.skip(token_len(t) as int));
    }
}

/// Memory in use from the text of `/proc/meminfo`: `MemTotal` less
/// `MemAvailable` (never below 0), each from the last line naming it.
pub open spec fn mem_used_spec(meminfo: Seq<char>) -> u64 {
    let (t, a) = mem_fields(lines_of(meminfo));
    if t >= a {
        (t - a) as u64
    } else {
        0
    }
}

/// (total, available) from the lines of `/proc/meminfo`.
pub open spec fn mem_fields(ls: Seq<Seq<char>>) -> (u64, u64)
    decreases ls.len(),
{
    if ls.len() == 0 {
        (0, 0)
    } else {
        let (t, a) = mem_fields(ls.drop_last());
        let l = ls.last();
        if starts_with_seq(l, "MemTotal:"@) {
            (kb_of(l), a)
        } else if starts_with_seq(l, "MemAvailable:"@) {
            (t, kb_of(l))
        } else {
            (t, a)
        }
    }
}

/// The number `parse_kb` reads from a line.
pub open spec fn kb_of(line: Seq<char>) -> u64 {
    match if 1 < fields(line).len() {
        parse_u64_spec(fields(line)[1])
    } else {
        None
    } {
        Some(v) => v,
        None => 0,
    }
}

/// Memory in use, in kB, from the text of `/proc/meminfo`.
pub fn mem_used_kb_from(meminfo: &str) -> (r: u64)
    ensures
        r == mem_used_spec(meminfo@),
{
    let ls = lines(meminfo);
    let ghost lm = lines_of(meminfo@);
    let mut total: u64 = 0;
    let mut available: u64 = 0;
    let mut i: usize = 0;
    assert(lm.take(0) =~= Seq::<Seq<char>>::empty());
    while i < ls.len()
        invariant
            i <= ls@.len(),
            ls@.len() == lm.len(),
            lm == lines_of(meminfo@),
            forall|q: int| 0 <= q < ls@.len() ==> (#[trigger] ls@[q])@ == lm[q],
            (total, available) == mem_fields(lm.take(i as int)),
        decreases ls@.len() - i,
    {
        let line = ls[i];
        assert(line@ == lm[i as int]);
        assert(lm.take(i + 1).drop_last() =~= lm.take(i as int));
        if str_starts_with(line, "MemTotal:") {
            total = parse_kb(line);
        } else if str_starts_with(line, "MemAvailable:") {
            available = parse_kb(line);
        }
        i = i + 1;
    }
    assert(lm.take(lm.len() as int) =~= lm);
    if total >= available {
        total - available
    } else {
        0
    }
}

} // verus!
