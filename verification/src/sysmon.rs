//! CPU and memory load, read from the texts of `/proc`.

use vstd::prelude::*;

use crate::text::chars::{after_prefix, same, strip_prefix};
use crate::text::lines::{lines, lines_of, words, words_of};
use crate::text::number::{parse_unsigned, read_unsigned};

verus! {

/// The numbers among words.
pub open spec fn numbers(all: Seq<Seq<char>>) -> Seq<int>
    decreases all.len(),
{
    if all.len() == 0 {
        seq![]
    } else {
        match read_unsigned(all.last(), 10, u64::MAX as int) {
            Some(n) => numbers(all.drop_last()).push(n),
            None => numbers(all.drop_last()),
        }
    }
}

/// The sum of numbers.
pub open spec fn sum(all: Seq<int>) -> int
    decreases all.len(),
{
    if all.len() == 0 {
        0
    } else {
        sum(all.drop_last()) + all.last()
    }
}

/// The fields of the aggregate `cpu` line: user, nice, system, idle, iowait, irq,
/// softirq, steal, ...
pub open spec fn cpu_fields(stat: Seq<char>) -> Option<Seq<int>> {
    let all = lines(stat);
    if all.len() == 0 {
        None
    } else {
        let w = words(all[0]);
        if w.len() > 0 && w[0] == "cpu"@ {
            Some(numbers(w.drop_first()))
        } else {
            None
        }
    }
}

/// The idle and the total jiffies: idle ones are those of idle and iowait.
pub open spec fn cpu_times(stat: Seq<char>) -> Option<(int, int)> {
    match cpu_fields(stat) {
        Some(f) => if f.len() < 4 {
            None
        } else {
            Some(
                (
                    f[3] + if f.len() > 4 {
                        f[4]
                    } else {
                        0
                    },
                    sum(f),
                ),
            )
        },
        None => None,
    }
}

/// The numbers among words, all of them.
fn numbers_of(all: &Vec<&str>, from: usize) -> (r: Vec<u64>)
    requires
        from <= all.len(),
    ensures
        r.len() == numbers(Seq::new((all.len() - from) as nat, |i: int| all@[from + i]@)).len(),
        forall|i: int|
            0 <= i < r.len() ==> (#[trigger] r@[i]) == numbers(
                Seq::new((all.len() - from) as nat, |k: int| all@[from + k]@),
            )[i],
{
    let ghost rest = Seq::new((all.len() - from) as nat, |i: int| all@[from + i]@);
    let mut out: Vec<u64> = Vec::new();
    for i in from..all.len()
        invariant
            from <= all.len(),
            rest == Seq::new((all.len() - from) as nat, |i: int| all@[from + i]@),
            out.len() == numbers(rest.take(i - from)).len(),
            forall|k: int|
                0 <= k < out.len() ==> (#[trigger] out@[k]) == numbers(rest.take(i - from))[k],
    {
        proof {
            assert(rest.take(i - from + 1).drop_last() =~= rest.take(i - from));
            assert(rest.take(i - from + 1).last() == all@[i as int]@);
        }
        if let Some(n) = parse_unsigned(all[i], 10, u64::MAX) {
            out.push(n);
        }
    }
    assert(rest.take(rest.len() as int) =~= rest);
    out
}

/// The sum of numbers.
fn total_of(fields: &Vec<u64>) -> (r: u128)
    ensures
        r == sum(Seq::new(fields@.len(), |i: int| fields@[i] as int)),
{
    let ghost all = Seq::new(fields@.len(), |i: int| fields@[i] as int);
    let mut total: u128 = 0;
    for i in 0..fields.len()
        invariant
            all == Seq::new(fields@.len(), |i: int| fields@[i] as int),
            total == sum(all.take(i as int)),
            total <= i * 0xffff_ffff_ffff_ffff,
    {
        proof {
            assert(all.take(i + 1).drop_last() =~= all.take(i as int));
            assert(i * 0xffff_ffff_ffff_ffff + 0xffff_ffff_ffff_ffff == (i + 1)
                * 0xffff_ffff_ffff_ffff) by (nonlinear_arith);
            assert((i + 1) * 0xffff_ffff_ffff_ffff
                <= 0xffff_ffff_ffff_ffff * 0xffff_ffff_ffff_ffff) by (nonlinear_arith)
                requires
                    i + 1 <= 0xffff_ffff_ffff_ffff,
            ;
        }
        total = total + fields[i] as u128;
    }
    assert(all.take(all.len() as int) =~= all);
    total
}

/// `(idle_jiffies, total_jiffies)` from the aggregate `cpu` line of `/proc/stat`.
pub fn read_cpu_times(stat: &str) -> (r: Option<(u128, u128)>)
    ensures
        match r {
            Some((idle, total)) => cpu_times(stat@) == Some((idle as int, total as int)),
            None => cpu_times(stat@) is None,
        },
{
    let all = lines_of(stat);
    if all.len() == 0 {
        return None;
    }
    let w = words_of(all[0]);
    let ghost seqs = words(lines(stat@)[0]);
    if w.len() == 0 || !same(w[0], "cpu") {
        return None;
    }
    let fields = numbers_of(&w, 1);
    let ghost nums = numbers(seqs.drop_first());
    proof {
        assert(Seq::new((w.len() - 1) as nat, |i: int| w@[1 + i]@) =~= seqs.drop_first());
    }
    if fields.len() < 4 {
        return None;
    }
    let idle: u128 = fields[3] as u128 + if fields.len() > 4 {
        fields[4] as u128
    } else {
        0
    };
    let total = total_of(&fields);
    assert(Seq::new(fields@.len(), |i: int| fields@[i] as int) =~= nums);
    Some((idle, total))
}

/// The share of the CPU time between two samples that was not idle, as busy and
/// all jiffies; none where no time has passed.
pub fn cpu_load(prev: Option<(u128, u128)>, cur: Option<(u128, u128)>) -> (r: Option<(u128, u128)>)
    ensures
        match (prev, cur) {
            (Some((pi, pt)), Some((ci, ct))) => if ct > pt {
                r matches Some((busy, all)) && {
                    let idle = if ci > pi {
                        ci - pi
                    } else {
                        0
                    };
                    &&& all == ct - pt
                    &&& busy == if all > idle {
                        all - idle
                    } else {
                        0
                    }
                    &&& busy <= all
                }
            } else {
                r is None
            },
            _ => r is None,
        },
{
    match (prev, cur) {
        (Some((pi, pt)), Some((ci, ct))) => {
            if ct > pt {
                let all: u128 = ct - pt;
                let idle: u128 = ci.saturating_sub(pi);
                Some((all.saturating_sub(idle), all))
            } else {
                None
            }
        },
        _ => None,
    }
}

/// What the lines of `/proc/meminfo` said so far: total and available memory.
pub enum Memory {
    Read(int, int),
    /// A number could not be read.
    Bad,
}

/// The number that follows a name on a line.
pub open spec fn memory_value(rest: Seq<char>) -> Option<int> {
    let w = words(rest);
    if w.len() > 0 {
        read_unsigned(w[0], 10, u64::MAX as int)
    } else {
        None
    }
}

/// What is known after one more line.
pub open spec fn memory_line(m: Memory, line: Seq<char>) -> Memory {
    match m {
        Memory::Bad => Memory::Bad,
        Memory::Read(total, available) => match after_prefix(line, "MemTotal:"@) {
            Some(rest) => match memory_value(rest) {
                Some(n) => Memory::Read(n, available),
                None => Memory::Bad,
            },
            None => match after_prefix(line, "MemAvailable:"@) {
                Some(rest) => match memory_value(rest) {
                    Some(n) => Memory::Read(total, n),
                    None => Memory::Bad,
                },
                None => m,
            },
        },
    }
}

/// What is known after lines.
pub open spec fn memory_lines(all: Seq<Seq<char>>) -> Memory
    decreases all.len(),
{
    if all.len() == 0 {
        Memory::Read(0, 0)
    } else {
        memory_line(memory_lines(all.drop_last()), all.last())
    }
}

/// The available and the total memory, if there is any.
pub open spec fn memory(info: Seq<char>) -> Option<(int, int)> {
    match memory_lines(lines(info)) {
        Memory::Read(total, available) => if total == 0 {
            None
        } else {
            Some((available, total))
        },
        Memory::Bad => None,
    }
}

/// The number that follows a name on a line.
fn value_of(rest: &str) -> (r: Option<u64>)
    ensures
        match r {
            Some(n) => memory_value(rest@) == Some(n as int),
            None => memory_value(rest@) is None,
        },
{
    let w = words_of(rest);
    if w.len() > 0 {
        parse_unsigned(w[0], 10, u64::MAX)
    } else {
        None
    }
}

/// A number that could not be read stays so.
proof fn lemma_bad_stays(all: Seq<Seq<char>>, n: int)
    requires
        0 <= n <= all.len(),
        memory_lines(all.take(n)) is Bad,
    ensures
        memory_lines(all) is Bad,
    decreases all.len() - n,
{
    if n < all.len() {
        assert(all.take(n + 1).drop_last() =~= all.take(n));
        lemma_bad_stays(all, n + 1);
    } else {
        assert(all.take(n) =~= all);
    }
}

/// `MemAvailable` and `MemTotal` from the text of `/proc/meminfo`. The fraction of
/// RAM in use is what the first leaves of the second.
pub fn read_mem(info: &str) -> (r: Option<(u64, u64)>)
    ensures
        match r {
            Some((available, total)) => memory(info@) == Some((available as int, total as int)),
            None => memory(info@) is None,
        },
{
    let all = lines_of(info);
    let ghost seqs = lines(info@);
    let mut total: u64 = 0;
    let mut available: u64 = 0;
    for i in 0..all.len()
        invariant
            all.len() == seqs.len(),
            seqs == lines(info@),
            forall|k: int| 0 <= k < all.len() ==> (#[trigger] all@[k])@ == seqs[k],
            memory_lines(seqs.take(i as int)) == Memory::Read(total as int, available as int),
    {
        proof {
            assert(seqs.take(i + 1).drop_last() =~= seqs.take(i as int));
            assert(seqs.take(i + 1).last() == seqs[i as int]);
        }
        if let Some(v) = strip_prefix(all[i], "MemTotal:") {
            match value_of(v) {
                Some(n) => {
                    total = n;
                },
                None => {
                    proof {
                        lemma_bad_stays(seqs, i + 1);
                    }
                    return None;
                },
            }
        } else if let Some(v) = strip_prefix(all[i], "MemAvailable:") {
            match value_of(v) {
                Some(n) => {
                    available = n;
                },
                None => {
                    proof {
                        lemma_bad_stays(seqs, i + 1);
                    }
                    return None;
                },
            }
        }
    }
    assert(seqs.take(seqs.len() as int) =~= seqs);
    if total == 0 {
        return None;
    }
    Some((available, total))
}

// ---------------------------------------------------------------------------
// Laws

/// The fourth number of the `cpu` line is the idle time; that of waiting for I/O,
/// the fifth, counts as idle too where it is given. All numbers count to the total.
pub proof fn law_idle_time_is_idle_and_waiting(stat: Seq<char>)
    ensures
        cpu_fields(stat) matches Some(f) ==> {
            &&& f.len() < 4 ==> cpu_times(stat) is None
            &&& f.len() == 4 ==> cpu_times(stat) == Some((f[3], f[0] + f[1] + f[2] + f[3]))
            &&& f.len() == 5 ==> cpu_times(stat) == Some(
                (f[3] + f[4], f[0] + f[1] + f[2] + f[3] + f[4]),
            )
            &&& f.len() > 5 ==> cpu_times(stat) == Some((f[3] + f[4], sum(f)))
        },
        cpu_fields(stat) is None ==> cpu_times(stat) is None,
{
    if let Some(f) = cpu_fields(stat) {
        if f.len() == 4 || f.len() == 5 {
            reveal_with_fuel(sum, 6);
        }
    }
}

/// The order of the numbers counts for nothing in their sum: it is that of any
/// part and the rest.
pub proof fn law_sums_add_up(a: Seq<int>, b: Seq<int>)
    ensures
        sum(a + b) == sum(a) + sum(b),
        a.len() == 1 ==> sum(a) == a[0],
    decreases b.len(),
{
    reveal_with_fuel(sum, 2);
    if b.len() == 0 {
        assert(a + b =~= a);
    } else {
        assert((a + b).drop_last() =~= a + b.drop_last());
        law_sums_add_up(a, b.drop_last());
    }
}

/// The memory is read from the lines that begin with `MemTotal:` and with
/// `MemAvailable:`, whichever comes first; other lines count for nothing. It is not
/// read if a number cannot be, or if there is no memory.
pub proof fn law_memory_is_read_from_its_lines(
    before: Seq<Seq<char>>,
    total: Seq<char>,
    available: Seq<char>,
)
    requires
        memory_value(total) is Some,
        memory_value(available) is Some,
        memory_lines(before) is Read,
    ensures
        ({
            let a = "MemTotal:"@ + total;
            let b = "MemAvailable:"@ + available;
            let read = Memory::Read(memory_value(total).unwrap(), memory_value(available).unwrap());
            &&& memory_lines(before.push(a).push(b)) == read
            &&& memory_lines(before.push(b).push(a)) == read
        }),
        forall|other: Seq<char>|
            after_prefix(other, "MemTotal:"@) is None && after_prefix(other, "MemAvailable:"@)
                is None ==> #[trigger] memory_lines(before.push(other)) == memory_lines(before),
{
    let a = "MemTotal:"@ + total;
    let b = "MemAvailable:"@ + available;
    reveal_strlit("MemTotal:");
    reveal_strlit("MemAvailable:");
    let (p, q) = ("MemTotal:"@, "MemAvailable:"@);
    assert(a.take(p.len() as int) =~= p && a.skip(p.len() as int) =~= total);
    assert(b.take(q.len() as int) =~= q && b.skip(q.len() as int) =~= available);
    assert(after_prefix(a, p) == Some(total));
    assert(after_prefix(b, q) == Some(available));
    assert(after_prefix(b, p) is None) by {
        assert(b[3] == 'A' && p[3] == 'T');
        if b.take(p.len() as int) == p {
            assert(b.take(p.len() as int)[3] == b[3]);
        }
    }
    assert(before.push(a).drop_last() =~= before);
    assert(before.push(b).drop_last() =~= before);
    assert(before.push(a).push(b).drop_last() =~= before.push(a));
    assert(before.push(b).push(a).drop_last() =~= before.push(b));
    assert(memory_lines(before.push(a)) == memory_line(memory_lines(before), a));
    assert(memory_lines(before.push(b)) == memory_line(memory_lines(before), b));
    assert(memory_lines(before.push(a).push(b)) == memory_line(memory_lines(before.push(a)), b));
    assert(memory_lines(before.push(b).push(a)) == memory_line(memory_lines(before.push(b)), a));
    assert forall|other: Seq<char>|
        after_prefix(other, "MemTotal:"@) is None && after_prefix(other, "MemAvailable:"@)
            is None implies #[trigger] memory_lines(before.push(other)) == memory_lines(
        before,
    ) by {
        assert(before.push(other).drop_last() =~= before);
    }
}

/// The load is the time that was not idle of all the time between two samples; it
/// is none where a sample is missing or no time has passed.
pub proof fn law_load_is_what_is_not_idle(
    prev: Option<(u128, u128)>,
    cur: Option<(u128, u128)>,
    r: Option<(u128, u128)>,
)
    requires
        call_ensures(cpu_load, (prev, cur), r),
    ensures
        prev is None || cur is None ==> r is None,
        (prev matches Some(p) && cur matches Some(c) && c.1 <= p.1) ==> r is None,
        (prev matches Some(p) && cur matches Some(c) && c.1 > p.1 && c.0 >= p.0 && c.0 - p.0 <= c.1
            - p.1) ==> (r matches Some((busy, all)) && all == cur.unwrap().1 - prev.unwrap().1
            && busy + (cur.unwrap().0 - prev.unwrap().0) == all),
{
}

} // verus!
