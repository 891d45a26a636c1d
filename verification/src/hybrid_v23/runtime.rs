//! How busy the machine is, from the texts of the proc file system.
//!
//! Loads are counted in millionths. The amounts of memory and the limit of open files may be
//! written with a sign, a decimal point and an exponent, and may be infinite. A load that is
//! not a number is not reported.

use crate::bytes::same;
use crate::decimal::{
    amount, contents, lines, parse_amount, parse_unsigned, split_lines, split_words, starts_with,
    unsigned_value, words, Amount,
};
use vstd::prelude::*;
use vstd::utf8::encode_utf8;

verus! {

/// A full load.
pub const FULL_LOAD: u32 = 1_000_000;

/// "cpu"
pub const WORD_CPU: [u8; 3] = [0x63, 0x70, 0x75];

/// "MemTotal:"
pub const LABEL_MEM_TOTAL: [u8; 9] = [0x4d, 0x65, 0x6d, 0x54, 0x6f, 0x74, 0x61, 0x6c, 0x3a];

/// "MemAvailable:"
pub const LABEL_MEM_AVAILABLE: [u8; 13] = [
    0x4d, 0x65, 0x6d, 0x41, 0x76, 0x61, 0x69, 0x6c, 0x61, 0x62, 0x6c, 0x65, 0x3a,
];

/// "Max open files"
pub const LABEL_MAX_OPEN_FILES: [u8; 14] = [
    0x4d, 0x61, 0x78, 0x20, 0x6f, 0x70, 0x65, 0x6e, 0x20, 0x66, 0x69, 0x6c, 0x65, 0x73,
];

/// Processor time so far: idle and altogether.
#[derive(Clone, Copy, Debug, PartialEq, Eq)]
pub struct CpuSnapshot {
    pub idle: u64,
    pub total: u64,
}

/// What could be read about the machine: the texts of `/proc/stat`, `/proc/meminfo` and
/// `/proc/self/limits`, and the number of open files.
pub struct RuntimeReading {
    pub stat: Option<String>,
    pub meminfo: Option<String>,
    pub open_files: Option<usize>,
    pub limits: Option<String>,
}

/// The number that a word writes.
pub open spec fn word_value(word: Seq<u8>) -> Option<nat> {
    unsigned_value(word, u64::MAX as nat)
}

/// The numbers among the words.
pub open spec fn numbers(ws: Seq<Seq<u8>>) -> Seq<nat>
    decreases ws.len(),
{
    if ws.len() == 0 {
        Seq::empty()
    } else {
        match word_value(ws.last()) {
            Some(n) => numbers(ws.drop_last()).push(n),
            None => numbers(ws.drop_last()),
        }
    }
}

pub open spec fn sum(s: Seq<nat>) -> nat
    decreases s.len(),
{
    if s.len() == 0 {
        0
    } else {
        sum(s.drop_last()) + s.last()
    }
}

proof fn lemma_sum_grows(s: Seq<nat>, n: int)
    requires
        0 <= n <= s.len(),
    ensures
        sum(s.take(n)) <= sum(s),
    decreases s.len(),
{
    if n < s.len() {
        lemma_sum_grows(s.drop_last(), n);
        assert(s.drop_last().take(n) =~= s.take(n));
    } else {
        assert(s.take(n) =~= s);
    }
}

/// The processor times in the first line of a text: it names the processor and at least
/// four times; the fourth and the fifth are idle times. Times that do not fit are not
/// reported.
pub open spec fn cpu_snapshot(text: Seq<u8>) -> Option<CpuSnapshot> {
    let ls = lines(text);
    if ls.len() == 0 || words(ls[0]).len() == 0 || words(ls[0])[0] != WORD_CPU@ {
        None
    } else {
        let values = numbers(words(ls[0]).skip(1));
        let idle = values[3] + (if values.len() > 4 {
            values[4]
        } else {
            0
        });
        if values.len() >= 4 && sum(values) <= u64::MAX {
            Some(CpuSnapshot { idle: idle as u64, total: sum(values) as u64 })
        } else {
            None
        }
    }
}

proof fn lemma_idle_bound(values: Seq<nat>)
    requires
        values.len() >= 4,
    ensures
        values[3] + (if values.len() > 4 {
            values[4]
        } else {
            0
        }) <= sum(values),
{
    if values.len() > 4 {
        let head = values.take(5);
        lemma_sum_grows(values, 5);
        assert(head.drop_last() =~= values.take(4));
        let front = values.take(4);
        assert(sum(front) >= front.last());
    } else {
        let front = values.take(4);
        assert(front =~= values);
    }
}

/// Reads the processor times.
pub fn linux_cpu_snapshot(text: &[u8]) -> (r: Option<CpuSnapshot>)
    ensures
        r == cpu_snapshot(text@),
{
    let ls = split_lines(text);
    proof {
        assert(contents(ls@).len() == ls@.len());
    }
    if ls.len() == 0 {
        return None;
    }
    assert(contents(ls@)[0] == ls@[0]@);
    let ws = split_words(&ls[0]);
    let ghost all = words(ls@[0]@);
    assert(contents(ws@).len() == ws@.len());
    if ws.len() == 0 {
        return None;
    }
    assert(contents(ws@)[0] == ws@[0]@);
    if !same(&ws[0], &WORD_CPU) {
        return None;
    }
    let ghost rest = all.skip(1);
    let ghost values = numbers(rest);
    let mut i: usize = 1;
    let mut count: usize = 0;
    let mut fourth: u64 = 0;
    let mut fifth: u64 = 0;
    let mut total: u64 = 0;
    let mut fits = true;
    assert(rest.take(0) =~= Seq::empty());
    while i < ws.len()
        invariant
            1 <= i <= ws.len(),
            contents(ws@) == all,
            rest == all.skip(1),
            count <= i,
            count == numbers(rest.take(i - 1)).len(),
            fits == (sum(numbers(rest.take(i - 1))) <= u64::MAX),
            fits ==> total == sum(numbers(rest.take(i - 1))),
            count >= 4 ==> fourth == numbers(rest.take(i - 1))[3],
            count >= 5 ==> fifth == numbers(rest.take(i - 1))[4],
            count < 5 ==> fifth == 0,
        decreases ws.len() - i,
    {
        proof {
            let next = rest.take(i as int);
            assert(next.drop_last() =~= rest.take(i - 1));
            assert(next.last() == ws@[i as int]@) by {
                assert(all[i as int] == contents(ws@)[i as int]);
            }
        }
        let ghost so_far = numbers(rest.take(i - 1));
        match parse_unsigned(&ws[i], 0xffff_ffff_ffff_ffff) {
            Some(n) => {
                assert(so_far.push(n as nat).drop_last() =~= so_far);
                if count == 3 {
                    fourth = n;
                } else if count == 4 {
                    fifth = n;
                }
                if fits {
                    match total.checked_add(n) {
                        Some(t) => total = t,
                        None => fits = false,
                    }
                }
                count += 1;
            },
            None => {},
        }
        i += 1;
    }
    assert(rest.take(i - 1) =~= rest);
    if count < 4 || !fits {
        return None;
    }
    proof {
        lemma_idle_bound(values);
    }
    Some(CpuSnapshot { idle: fourth + fifth, total })
}

/// The share of `total` that is not `free`, in millionths: none if more is free than there
/// is, and all of it if less than nothing is free.
pub open spec fn used_share(free: int, total: int) -> u32 {
    if free >= total {
        0
    } else if free <= 0 {
        FULL_LOAD
    } else {
        ((total - free) * FULL_LOAD / total) as u32
    }
}

proof fn lemma_share_bound(part: int, total: int)
    by (nonlinear_arith)
    requires
        0 <= part <= total,
        0 < total,
    ensures
        0 <= part * 1_000_000 / total <= 1_000_000,
        0 <= part * 1_000_000 <= total * 1_000_000,
{
}

fn share_used(free: i128, total: i128) -> (r: u32)
    requires
        0 < total < 10_000_000_000_000_000_000_000_000_000_000,
    ensures
        r == used_share(free as int, total as int),
        r <= FULL_LOAD,
{
    if free >= total {
        return 0;
    }
    if free <= 0 {
        return FULL_LOAD;
    }
    proof {
        lemma_share_bound(total - free, total as int);
    }
    let part: u128 = (total - free) as u128;
    (part * 1_000_000 / (total as u128)) as u32
}

/// The load of the processor between two snapshots.
pub open spec fn cpu_load(previous: CpuSnapshot, current: CpuSnapshot) -> Option<u32> {
    if current.total <= previous.total {
        None
    } else {
        let idle = if current.idle >= previous.idle {
            current.idle - previous.idle
        } else {
            0
        };
        Some(used_share(idle, current.total - previous.total))
    }
}

/// The load of the processor since the previous snapshot, which the current one replaces.
pub fn linux_cpu_usage(previous: &mut Option<CpuSnapshot>, stat: &Option<String>) -> (r: Option<
    u32,
>)
    ensures
        ({
            let current = match stat {
                Some(text) => cpu_snapshot(encode_utf8(text@)),
                None => None,
            };
            match current {
                Some(now) => *final(previous) == Some(now) && r == (match *old(previous) {
                    Some(before) => cpu_load(before, now),
                    None => None,
                }),
                None => *final(previous) == *old(previous) && r is None,
            }
        }),
        r matches Some(load) ==> load <= FULL_LOAD,
{
    let text = match stat {
        Some(text) => text,
        None => return None,
    };
    let current = match linux_cpu_snapshot(text.as_str().as_bytes()) {
        Some(current) => current,
        None => return None,
    };
    let usage = match previous {
        Some(before) => {
            let total_delta: u64 = current.total.saturating_sub(before.total);
            if total_delta == 0 {
                None
            } else {
                let idle_delta: u64 = current.idle.saturating_sub(before.idle);
                Some(share_used(idle_delta as i128, total_delta as i128))
            }
        },
        None => None,
    };
    *previous = Some(current);
    usage
}

/// Ten to the power of `n`.
pub open spec fn ten_to(n: int) -> int
    decreases n,
{
    if n <= 0 {
        1
    } else {
        10 * ten_to(n - 1)
    }
}

proof fn lemma_ten_to(m: int, n: int)
    requires
        0 <= m <= n,
    ensures
        1 <= ten_to(m) <= ten_to(n),
    decreases n,
{
    if m < n {
        lemma_ten_to(m, n - 1);
    } else if n > 0 {
        lemma_ten_to(n - 1, n - 1);
    }
}

proof fn lemma_ten_to_values()
    ensures
        ten_to(1) == 10,
        ten_to(13) == 10_000_000_000_000,
        ten_to(18) == 1_000_000_000_000_000_000,
        ten_to(19) == 10_000_000_000_000_000_000,
        ten_to(26) == 100_000_000_000_000_000_000_000_000,
        ten_to(27) == 1_000_000_000_000_000_000_000_000_000,
{
    reveal_with_fuel(ten_to, 10);
    assert(ten_to(9) == 1_000_000_000);
    assert(ten_to(18) == 1_000_000_000 * ten_to(9));
    assert(ten_to(27) == 1_000_000_000 * ten_to(18));
}

/// Ten to the power of `n`.
fn power_of_ten(n: u32) -> (r: u128)
    requires
        n <= 26,
    ensures
        r == ten_to(n as int),
{
    let mut r: u128 = 1;
    let mut i: u32 = 0;
    proof {
        lemma_ten_to_values();
    }
    while i < n
        invariant
            i <= n <= 26,
            r == ten_to(i as int),
            ten_to(26) == 100_000_000_000_000_000_000_000_000,
        decreases n - i,
    {
        proof {
            lemma_ten_to(i + 1, 26);
        }
        r = r * 10;
        i += 1;
    }
    r
}

/// A finite amount, counted in units of ten to the power of `unit`.
pub open spec fn in_units(a: Amount, unit: int) -> int {
    match a {
        Amount::Finite { negative, lead, scale } => if negative {
            -(lead * ten_to(scale - unit))
        } else {
            lead * ten_to(scale - unit)
        },
        Amount::Infinite { .. } => 0,
    }
}

/// Is it a number above zero?
pub open spec fn is_positive(a: Amount) -> bool {
    a matches Amount::Finite { negative, lead, .. } && !negative && lead > 0
}

/// The share of `total` that is not `free`, in millionths.
pub open spec fn amount_used(free: Amount, total: Amount) -> u32 {
    match free {
        Amount::Infinite { negative } => if negative {
            FULL_LOAD
        } else {
            0
        },
        Amount::Finite { scale, .. } => {
            let unit = if scale < total->scale {
                scale
            } else {
                total->scale
            };
            used_share(in_units(free, unit as int), in_units(total, unit as int))
        },
    }
}

/// Where next to nothing is free, next to all is used.
proof fn lemma_nearly_all(free: int, total: int)
    by (nonlinear_arith)
    requires
        0 < free,
        free * 1_000_000 < total,
    ensures
        (total - free) * 1_000_000 / total == 999_999,
{
    assert((total - free) * 1_000_000 == 999_999 * total + (total - free * 1_000_000));
}

/// A product is at least that of lower factors.
proof fn lemma_product(lead: int, power: int, least: int, low: int)
    by (nonlinear_arith)
    requires
        0 <= least <= lead,
        0 <= low <= power,
    ensures
        0 <= least * low <= lead * power,
{
}

/// The share of `total` that is not `free`, in millionths.
fn share_of(free: Amount, total: Amount) -> (r: u32)
    requires
        free.wf(),
        total.wf(),
        is_positive(total),
    ensures
        r == amount_used(free, total),
        r <= FULL_LOAD,
{
    proof {
        lemma_ten_to_values();
    }
    match (free, total) {
        (
            Amount::Finite { negative, lead: free_lead, scale: free_scale },
            Amount::Finite { lead, scale, .. },
        ) => {
            let ghost unit: int = if free_scale < scale {
                free_scale as int
            } else {
                scale as int
            };
            let ghost f: int = in_units(free, unit);
            let ghost t: int = in_units(total, unit);
            proof {
                lemma_ten_to(0, scale - unit);
                lemma_ten_to(0, free_scale - unit);
                lemma_product(lead as int, ten_to(scale - unit), lead as int, 1);
                lemma_product(free_lead as int, ten_to(free_scale - unit), free_lead as int, 1);
            }
            if negative || free_lead == 0 {
                assert(f <= 0) by {
                    if free_lead == 0 {
                        assert(0 * ten_to(free_scale - unit) == 0);
                    }
                }
                return FULL_LOAD;
            }
            if free_scale > scale {
                proof {
                    lemma_ten_to(1, free_scale - unit);
                    lemma_product(
                        free_lead as int,
                        ten_to(free_scale - unit),
                        100_000_000_000,
                        10,
                    );
                    assert(t == lead);
                }
                return 0;
            }
            let gap: u32 = (scale - free_scale) as u32;
            assert(free_scale - unit == 0 && ten_to(0) == 1);
            assert(f == free_lead * 1);
            if gap > 18 {
                proof {
                    lemma_ten_to(19, gap as int);
                    lemma_product(
                        lead as int,
                        ten_to(gap as int),
                        100_000_000_000,
                        10_000_000_000_000_000_000,
                    );
                    lemma_nearly_all(f, t);
                }
                return 999_999;
            }
            let power: u128 = power_of_ten(gap);
            proof {
                lemma_ten_to(gap as int, 18);
                lemma_product(
                    1_000_000_000_000,
                    1_000_000_000_000_000_000,
                    lead as int,
                    power as int,
                );
            }
            share_used(free_lead as i128, (lead as u128 * power) as i128)
        },
        (Amount::Infinite { negative }, _) => if negative {
            FULL_LOAD
        } else {
            0
        },
        _ => 0,
    }
}

/// The amount that the word at `n` of a line writes.
pub open spec fn field(line: Seq<u8>, n: int) -> Option<Amount> {
    if n < words(line).len() {
        amount(words(line)[n])
    } else {
        None
    }
}

fn read_field(line: &[u8], n: usize) -> (r: Option<Amount>)
    ensures
        r == field(line@, n as int),
        r matches Some(a) ==> a.wf(),
{
    let ws = split_words(line);
    assert(contents(ws@).len() == ws@.len());
    if n < ws.len() {
        assert(contents(ws@)[n as int] == ws@[n as int]@);
        parse_amount(&ws[n])
    } else {
        None
    }
}

/// The second word of the last line that starts with a label.
pub open spec fn last_field(ls: Seq<Seq<u8>>, label: Seq<u8>) -> Option<Amount>
    decreases ls.len(),
{
    if ls.len() == 0 {
        None
    } else if label.is_prefix_of(ls.last()) {
        field(ls.last(), 1)
    } else {
        last_field(ls.drop_last(), label)
    }
}

/// The share of the memory that is in use, if the text tells how much there is and how much
/// is available.
pub open spec fn memory_load(text: Seq<u8>) -> Option<u32> {
    match (
        last_field(lines(text), LABEL_MEM_TOTAL@),
        last_field(lines(text), LABEL_MEM_AVAILABLE@),
    ) {
        (Some(total), Some(available)) => if is_positive(total) {
            Some(amount_used(available, total))
        } else {
            None
        },
        _ => None,
    }
}

/// Reads the share of the memory that is in use.
pub fn linux_memory_usage(meminfo: &Option<String>) -> (r: Option<u32>)
    ensures
        r == (match meminfo {
            Some(text) => memory_load(encode_utf8(text@)),
            None => None,
        }),
        r matches Some(load) ==> load <= FULL_LOAD,
{
    let text = match meminfo {
        Some(text) => text.as_str().as_bytes(),
        None => return None,
    };
    let ls = split_lines(text);
    let ghost all = lines(text@);
    let mut total_kb: Option<Amount> = None;
    let mut available_kb: Option<Amount> = None;
    let mut i: usize = 0;
    assert(contents(ls@).len() == ls@.len());
    assert(all.take(0) =~= Seq::empty());
    while i < ls.len()
        invariant
            i <= ls.len(),
            contents(ls@) == all,
            all.len() == ls@.len(),
            total_kb == last_field(all.take(i as int), LABEL_MEM_TOTAL@),
            available_kb == last_field(all.take(i as int), LABEL_MEM_AVAILABLE@),
            total_kb matches Some(a) ==> a.wf(),
            available_kb matches Some(a) ==> a.wf(),
        decreases ls.len() - i,
    {
        proof {
            let next = all.take(i + 1);
            assert(next.drop_last() =~= all.take(i as int));
            assert(next.last() == ls@[i as int]@) by {
                assert(all[i as int] == contents(ls@)[i as int]);
            }
        }
        let line = &ls[i];
        if starts_with(line, &LABEL_MEM_TOTAL) {
            proof {
                assert(line@.subrange(0, 9)[3] == 0x54);
                if LABEL_MEM_AVAILABLE@.is_prefix_of(line@) {
                    assert(line@.subrange(0, 13)[3] == 0x41);
                    assert(line@[3] == 0x54 && line@[3] == 0x41);
                }
            }
            total_kb = read_field(line, 1);
        } else if starts_with(line, &LABEL_MEM_AVAILABLE) {
            available_kb = read_field(line, 1);
        }
        i += 1;
    }
    assert(all.take(i as int) =~= all);
    match (total_kb, available_kb) {
        (Some(total), Some(available)) => match total {
            Amount::Finite { negative: false, lead, .. } if lead > 0 => Some(
                share_of(available, total),
            ),
            _ => None,
        },
        _ => None,
    }
}

/// The fourth word of the first line that starts with a label.
pub open spec fn first_limit(ls: Seq<Seq<u8>>, label: Seq<u8>) -> Option<Amount>
    decreases ls.len(),
{
    if ls.len() == 0 {
        None
    } else if label.is_prefix_of(ls[0]) {
        field(ls[0], 3)
    } else {
        first_limit(ls.drop_first(), label)
    }
}

/// The share of a limit that is used, in millionths, if the limit is above zero.
pub open spec fn limit_used(used: nat, limit: Amount) -> Option<u32> {
    match limit {
        Amount::Infinite { negative } => if negative {
            None
        } else {
            Some(0)
        },
        Amount::Finite { scale, .. } => {
            let unit: int = if scale < 0 {
                scale as int
            } else {
                0
            };
            let count = used * ten_to(-unit);
            let most = in_units(limit, unit);
            if most <= 0 {
                None
            } else if count >= most {
                Some(FULL_LOAD)
            } else {
                Some((count * FULL_LOAD / most) as u32)
            }
        },
    }
}

/// A part that is too small to be counted.
proof fn lemma_nothing(part: int, total: int)
    by (nonlinear_arith)
    requires
        0 <= part,
        part * 1_000_000 < total,
    ensures
        part * 1_000_000 / total == 0,
{
}

/// The share of a limit that is used, in millionths.
fn share_of_limit(used: u64, limit: Amount) -> (r: Option<u32>)
    requires
        limit.wf(),
    ensures
        r == limit_used(used as nat, limit),
        r matches Some(load) ==> load <= FULL_LOAD,
{
    proof {
        lemma_ten_to_values();
    }
    match limit {
        Amount::Infinite { negative } => if negative {
            None
        } else {
            Some(0)
        },
        Amount::Finite { negative, lead, scale } => {
            let ghost unit: int = if scale < 0 {
                scale as int
            } else {
                0
            };
            let ghost most: int = in_units(limit, unit);
            proof {
                lemma_ten_to(0, scale - unit);
                lemma_ten_to(0, -unit);
                lemma_product(lead as int, ten_to(scale - unit), lead as int, 1);
                lemma_product(used as int, ten_to(-unit), used as int, 1);
                if lead == 0 {
                    assert(0 * ten_to(scale - unit) == 0);
                }
            }
            if negative || lead == 0 {
                return None;
            }
            if scale >= 0 {
                if scale > 26 {
                    proof {
                        lemma_ten_to(27, scale as int);
                        lemma_product(
                            lead as int,
                            ten_to(scale as int),
                            100_000_000_000,
                            1_000_000_000_000_000_000_000_000_000,
                        );
                        lemma_nothing(used as int, most);
                    }
                    return Some(0);
                }
                let power: u128 = power_of_ten(scale as u32);
                proof {
                    lemma_ten_to(scale as int, 26);
                    lemma_product(
                        1_000_000_000_000,
                        100_000_000_000_000_000_000_000_000,
                        lead as int,
                        power as int,
                    );
                }
                let most: u128 = lead as u128 * power;
                if used as u128 >= most {
                    return Some(FULL_LOAD);
                }
                proof {
                    lemma_share_bound(used as int, most as int);
                }
                return Some((used as u128 * 1_000_000 / most) as u32);
            }
            if used == 0 {
                assert(0 * ten_to(-unit) == 0);
                proof {
                    lemma_nothing(0, most);
                }
                return Some(0);
            }
            if scale < -12 {
                proof {
                    lemma_ten_to(13, -scale);
                    lemma_product(used as int, ten_to(-scale), 1, 10_000_000_000_000);
                }
                return Some(FULL_LOAD);
            }
            let power: u128 = power_of_ten((-scale) as u32);
            proof {
                lemma_ten_to(-scale, 13);
                lemma_product(0xffff_ffff_ffff_ffff, 10_000_000_000_000, used as int, power as int);
            }
            let count: u128 = used as u128 * power;
            if count >= lead as u128 {
                return Some(FULL_LOAD);
            }
            proof {
                lemma_share_bound(count as int, lead as int);
            }
            Some((count * 1_000_000 / (lead as u128)) as u32)
        },
    }
}

/// The share of the file descriptors that are in use, if the text tells the limit.
pub open spec fn fd_load(used: nat, text: Seq<u8>) -> Option<u32> {
    match first_limit(lines(text), LABEL_MAX_OPEN_FILES@) {
        Some(limit) => limit_used(used, limit),
        None => None,
    }
}

/// Reads the share of the file descriptors that are in use.
pub fn linux_fd_usage(open_files: Option<usize>, limits: &Option<String>) -> (r: Option<u32>)
    ensures
        r == (match (open_files, limits) {
            (Some(used), Some(text)) => fd_load(used as nat, encode_utf8(text@)),
            _ => None,
        }),
        r matches Some(load) ==> load <= FULL_LOAD,
{
    let used: u64 = match open_files {
        Some(used) => used as u64,
        None => return None,
    };
    let text = match limits {
        Some(text) => text.as_str().as_bytes(),
        None => return None,
    };
    let ls = split_lines(text);
    let ghost all = lines(text@);
    let mut i: usize = 0;
    assert(contents(ls@).len() == ls@.len());
    assert(all.skip(0) =~= all);
    while i < ls.len()
        invariant
            i <= ls.len(),
            contents(ls@) == all,
            all == lines(text@),
            all.len() == ls@.len(),
            open_files == Some(used as usize),
            used <= usize::MAX,
            limits matches Some(t) && text@ == encode_utf8(t@),
            first_limit(all.skip(i as int), LABEL_MAX_OPEN_FILES@) == first_limit(
                all,
                LABEL_MAX_OPEN_FILES@,
            ),
        decreases ls.len() - i,
    {
        proof {
            let rest = all.skip(i as int);
            assert(rest.drop_first() =~= all.skip(i + 1));
            assert(rest[0] == ls@[i as int]@) by {
                assert(all[i as int] == contents(ls@)[i as int]);
            }
        }
        if starts_with(&ls[i], &LABEL_MAX_OPEN_FILES) {
            let limit = match read_field(&ls[i], 3) {
                Some(limit) => limit,
                None => return None,
            };
            return share_of_limit(used, limit);
        }
        i += 1;
    }
    None
}

} // verus!
