//! What the loads of the machine mean.

use crate::decimal::{
    amount, decimal, law_decimal_round_trip, law_whole_amounts, lines, unsigned_value, words,
    Amount,
};
use crate::hybrid_v23::dos::{reading_due, DosView};
use crate::hybrid_v23::runtime::{
    amount_used, cpu_load, cpu_snapshot, fd_load, first_limit, in_units, is_positive, last_field,
    limit_used, memory_load, numbers, sum, ten_to, used_share, CpuSnapshot, RuntimeReading,
    LABEL_MAX_OPEN_FILES, LABEL_MEM_AVAILABLE, LABEL_MEM_TOTAL, WORD_CPU,
};
use vstd::arithmetic::div_mod::{lemma_div_denominator, lemma_div_multiples_vanish};
use vstd::prelude::*;
use vstd::utf8::encode_utf8;

verus! {

/// A load is the used part in millionths, rounded down: all of it where nothing is free, and
/// none where everything is.
pub proof fn law_load_is_the_used_part(free: int, total: int)
    requires
        0 <= free <= total,
        0 < total,
    ensures
        used_share(free, total) <= 1_000_000,
        used_share(free, total) * total <= (total - free) * 1_000_000,
        (total - free) * 1_000_000 < (used_share(free, total) + 1) * total,
        free == 0 ==> used_share(free, total) == 1_000_000,
        free == total ==> used_share(free, total) == 0,
{
    let used = total - free;
    let q = used * 1_000_000 / total;
    vstd::arithmetic::div_mod::lemma_fundamental_div_mod(used * 1_000_000, total);
    vstd::arithmetic::div_mod::lemma_mod_bound(used * 1_000_000, total);
    assert(q * total == total * q) by (nonlinear_arith);
    assert((q + 1) * total == q * total + total) by (nonlinear_arith);
    assert(0 <= q <= 1_000_000) by (nonlinear_arith)
        requires
            0 <= used <= total,
            0 < total,
            q == used * 1_000_000 / total,
    ;
    assert(1_000_000 * total == total * 1_000_000) by (nonlinear_arith);
    assert(1_000_001 * total == total * 1_000_000 + total) by (nonlinear_arith);
}

/// The load of the processor is the part of the time between two snapshots in which it was not
/// idle. There is none if no time has passed.
pub proof fn law_processor_load(a: CpuSnapshot, b: CpuSnapshot)
    requires
        a.idle <= b.idle,
        b.idle - a.idle <= b.total - a.total,
    ensures
        cpu_load(a, b) is Some <==> b.total > a.total,
        cpu_load(a, b) matches Some(load) ==> {
            let time = b.total - a.total;
            let busy = time - (b.idle - a.idle);
            &&& load <= 1_000_000
            &&& load * time <= busy * 1_000_000 < (load + 1) * time
        },
{
    if b.total > a.total {
        law_load_is_the_used_part(b.idle - a.idle, b.total - a.total);
    }
}

proof fn lemma_numbers(ns: Seq<nat>)
    requires
        forall|i: int| 0 <= i < ns.len() ==> #[trigger] ns[i] <= u64::MAX,
    ensures
        numbers(written(ns)) == ns,
    decreases ns.len(),
{
    let ws = written(ns);
    if ns.len() > 0 {
        let front = ns.drop_last();
        assert forall|i: int| 0 <= i < front.len() implies #[trigger] front[i] <= u64::MAX by {
            assert(front[i] == ns[i]);
        }
        lemma_numbers(front);
        assert(ws.drop_last() =~= written(front));
        assert(ns[ns.len() - 1] <= u64::MAX);
        law_decimal_round_trip(ns.last(), u64::MAX as nat);
        assert(front.push(ns.last()) =~= ns);
    } else {
        assert(numbers(ws) =~= ns);
    }
}

/// Numbers as words.
pub open spec fn written(ns: Seq<nat>) -> Seq<Seq<u8>> {
    Seq::new(ns.len(), |i: int| decimal(ns[i]))
}

/// The first line of the statistics names the processor and the time that it spent on each
/// thing; the fourth and the fifth are idle, and the whole is the sum of all. With fewer
/// than four numbers, another name or no line at all there is no snapshot; further lines do
/// not matter.
pub proof fn law_processor_times(text: Seq<u8>, name: Seq<u8>, ns: Seq<nat>)
    requires
        lines(text).len() > 0,
        words(lines(text)[0]) == seq![name] + written(ns),
        forall|i: int| 0 <= i < ns.len() ==> #[trigger] ns[i] <= u64::MAX,
    ensures
        name == WORD_CPU@ && ns.len() == 4 && sum(ns) <= u64::MAX ==> cpu_snapshot(text) == Some(
            CpuSnapshot { idle: ns[3] as u64, total: sum(ns) as u64 },
        ),
        name == WORD_CPU@ && ns.len() > 4 && sum(ns) <= u64::MAX ==> cpu_snapshot(text) == Some(
            CpuSnapshot { idle: (ns[3] + ns[4]) as u64, total: sum(ns) as u64 },
        ),
        name != WORD_CPU@ || ns.len() < 4 || sum(ns) > u64::MAX ==> cpu_snapshot(text) is None,
{
    let ws = words(lines(text)[0]);
    lemma_numbers(ns);
    assert(ws.skip(1) =~= written(ns));
    assert(ws[0] == name);
}

/// A sum grows by what is added.
pub proof fn law_sums(s: Seq<nat>, n: nat)
    ensures
        sum(s.push(n)) == sum(s) + n,
        sum(Seq::<nat>::empty()) == 0,
{
    assert(s.push(n).drop_last() =~= s);
}

proof fn lemma_ten_to_adds(a: int, b: int)
    requires
        0 <= a,
        0 <= b,
    ensures
        ten_to(a) * ten_to(b) == ten_to(a + b),
        ten_to(a) >= 1,
    decreases a,
{
    if a > 0 {
        lemma_ten_to_adds(a - 1, b);
        let (x, y) = (ten_to(a - 1), ten_to(b));
        assert((10 * x) * y == 10 * (x * y)) by (nonlinear_arith);
    } else {
        assert(1 * ten_to(b) == ten_to(b));
    }
}

proof fn lemma_in_units(n: nat, scale: i32, lead: u64, unit: int)
    requires
        unit <= scale <= 0,
        lead == n * ten_to(-scale),
    ensures
        in_units(Amount::Finite { negative: false, lead, scale }, unit) == n * ten_to(-unit),
{
    lemma_ten_to_adds(-scale as int, scale - unit);
    let (x, y) = (ten_to(-scale as int), ten_to(scale - unit));
    assert((n * x) * y == n * (x * y)) by (nonlinear_arith);
}

proof fn lemma_share_scales(free: int, total: int, c: int)
    requires
        0 <= free,
        0 < total,
        0 < c,
    ensures
        used_share(free * c, total * c) == used_share(free, total),
{
    assert(free >= total ==> free * c >= total * c) by (nonlinear_arith)
        requires
            0 < c,
    ;
    assert(free < total ==> free * c < total * c) by (nonlinear_arith)
        requires
            0 < c,
    ;
    assert(free == 0 ==> free * c == 0) by (nonlinear_arith);
    assert(free > 0 ==> free * c > 0) by (nonlinear_arith)
        requires
            0 < c,
    ;
    let used = (total - free) * 1_000_000;
    assert((total * c - free * c) * 1_000_000 == c * used) by (nonlinear_arith)
        requires
            used == (total - free) * 1_000_000,
    ;
    assert(total * c == c * total) by (nonlinear_arith);
    if 0 < free < total {
        assert(0 <= c * used) by (nonlinear_arith)
            requires
                0 < c,
                0 <= used,
        ;
        lemma_div_denominator(c * used, c, total);
        lemma_div_multiples_vanish(used, c);
    }
}

/// The load of the memory is the part of the total that is not available, where both are whole
/// numbers below a million millions.
pub proof fn law_memory_load(text: Seq<u8>, total: nat, available: nat)
    requires
        0 < total < 1_000_000_000_000,
        available < 1_000_000_000_000,
        last_field(lines(text), LABEL_MEM_TOTAL@) == amount(decimal(total)),
        last_field(lines(text), LABEL_MEM_AVAILABLE@) == amount(decimal(available)),
    ensures
        memory_load(text) == Some(used_share(available as int, total as int)),
        available <= total ==> {
            let load = memory_load(text)->0;
            &&& load <= 1_000_000
            &&& load * total <= (total - available) * 1_000_000 < (load + 1) * total
        },
{
    law_whole_amounts(total);
    law_whole_amounts(available);
    let t = amount(decimal(total))->0;
    let a = amount(decimal(available))->0;
    let (ts, av) = (t->scale, a->scale);
    let unit = if av < ts {
        av
    } else {
        ts
    };
    lemma_in_units(total, ts, t->lead, unit as int);
    lemma_in_units(available, av, a->lead, unit as int);
    lemma_ten_to_adds(-unit as int, 0);
    lemma_ten_to_adds(-ts as int, 0);
    assert(total * ten_to(-ts as int) > 0) by (nonlinear_arith)
        requires
            total > 0,
            ten_to(-ts as int) >= 1,
    ;
    lemma_share_scales(available as int, total as int, ten_to(-unit as int));
    if available <= total {
        law_load_is_the_used_part(available as int, total as int);
    }
}

/// Of several lines with a label the last one counts, and in it the second word; other lines do
/// not matter.
pub proof fn law_last_line_counts(ls: Seq<Seq<u8>>, line: Seq<u8>, label: Seq<u8>)
    ensures
        label.is_prefix_of(line) && words(line).len() > 1 ==> last_field(ls.push(line), label)
            == amount(words(line)[1]),
        label.is_prefix_of(line) && words(line).len() <= 1 ==> last_field(ls.push(line), label)
            is None,
        !label.is_prefix_of(line) ==> last_field(ls.push(line), label) == last_field(ls, label),
        last_field(Seq::empty(), label) is None,
{
    assert(ls.push(line).drop_last() =~= ls);
}

/// Of the lines with a limit the first one counts, and in it the fourth word.
pub proof fn law_first_limit_counts(ls: Seq<Seq<u8>>, line: Seq<u8>, label: Seq<u8>)
    ensures
        label.is_prefix_of(line) && words(line).len() > 3 ==> first_limit(seq![line] + ls, label)
            == amount(words(line)[3]),
        label.is_prefix_of(line) && words(line).len() <= 3 ==> first_limit(seq![line] + ls, label)
            is None,
        !label.is_prefix_of(line) ==> first_limit(seq![line] + ls, label) == first_limit(ls, label),
        first_limit(Seq::empty(), label) is None,
{
    assert((seq![line] + ls).drop_first() =~= ls);
    assert((seq![line] + ls)[0] == line);
}

/// The load of the file descriptors is the used part of the limit, and all of it where the
/// limit is reached.
pub proof fn law_descriptor_load(used: nat, text: Seq<u8>, limit: nat)
    requires
        0 < limit < 1_000_000_000_000,
        first_limit(lines(text), LABEL_MAX_OPEN_FILES@) == amount(decimal(limit)),
    ensures
        fd_load(used, text) is Some,
        used >= limit ==> fd_load(used, text) == Some(1_000_000u32),
        used < limit ==> {
            let load = fd_load(used, text)->0;
            &&& load <= 1_000_000
            &&& load * limit <= used * 1_000_000 < (load + 1) * limit
        },
{
    law_whole_amounts(limit);
    let l = amount(decimal(limit))->0;
    let scale = l->scale;
    lemma_in_units(limit, scale, l->lead, scale as int);
    lemma_ten_to_adds(-scale as int, 0);
    let c = ten_to(-scale as int);
    let (u, m) = (used as int, limit as int);
    assert(m * c > 0) by (nonlinear_arith)
        requires
            m > 0,
            c >= 1,
    ;
    assert(u >= m ==> u * c >= m * c) by (nonlinear_arith)
        requires
            c >= 1,
    ;
    assert(u < m ==> u * c < m * c) by (nonlinear_arith)
        requires
            c >= 1,
    ;
    if used < limit {
        let part = u * 1_000_000;
        assert((u * c) * 1_000_000 == c * part) by (nonlinear_arith)
            requires
                part == u * 1_000_000,
        ;
        assert(m * c == c * m) by (nonlinear_arith);
        assert(0 <= c * part) by (nonlinear_arith)
            requires
                c >= 1,
                part >= 0,
        ;
        lemma_div_denominator(c * part, c, m);
        lemma_div_multiples_vanish(part, c);
        law_load_is_the_used_part(m - u, m);
        assert(part / m == (m - (m - u)) * 1_000_000 / m);
        if u == 0 {
            assert(0int / m == 0) by (nonlinear_arith)
                requires
                    m > 0,
            ;
        }
    }
}

/// The machine is read once a second. What could be read replaces what was known, and the
/// gradient is in force; where nothing could be read, only the hard limits are, and what was
/// known stays.
pub proof fn law_readings(dos: DosView, reading: RuntimeReading, now: u64)
    ensures
        dos.last_sample matches Some(t) && now < t + 1_000_000_000 ==> dos.read(reading, now)
            == dos,
        dos.last_sample is None || now >= dos.last_sample->0 + 1_000_000_000 ==> {
            let after = dos.read(reading, now);
            &&& after.last_sample == Some(now)
            &&& after.states == dos.states
            &&& after.half_open == dos.half_open
            &&& after.last_reap == dos.last_reap
        },
        reading_due(dos.last_sample, now) && reading.stat is None && reading.meminfo is None && (
        reading.open_files is None || reading.limits is None) ==> {
            let after = dos.read(reading, now);
            &&& after.rollback
            &&& after.metrics == dos.metrics
            &&& after.samples == dos.samples
            &&& after.last_cpu == dos.last_cpu
        },
        reading_due(dos.last_sample, now) ==> {
            let after = dos.read(reading, now);
            let mem = match reading.meminfo {
                Some(text) => memory_load(encode_utf8(text@)),
                None => None,
            };
            let now_cpu = match reading.stat {
                Some(text) => cpu_snapshot(encode_utf8(text@)),
                None => None,
            };
            &&& mem matches Some(load) ==> !after.rollback && after.metrics.mem == load
            &&& mem is None ==> after.metrics.mem == dos.metrics.mem
            &&& now_cpu matches Some(c) ==> after.last_cpu == Some(c)
            &&& now_cpu is None ==> after.last_cpu == dos.last_cpu && after.metrics.cpu
                == dos.metrics.cpu
        },
{
}

/// Words that are no numbers are passed over, and the order of the others stays.
pub proof fn law_other_words_are_passed_over(ws: Seq<Seq<u8>>, w: Seq<u8>, n: nat)
    ensures
        unsigned_value(w, u64::MAX as nat) is None ==> numbers(ws.push(w)) == numbers(ws),
        unsigned_value(w, u64::MAX as nat) == Some(n) ==> numbers(ws.push(w)) == numbers(ws).push(
            n,
        ),
{
    assert(ws.push(w).drop_last() =~= ws);
}

/// A limit that is not a number, or below zero, gives no load; one without bounds gives none of
/// it used; and memory that is available without bounds, none of it either.
pub proof fn law_unbounded_amounts(used: nat, total: Amount)
    ensures
        limit_used(used, Amount::Infinite { negative: false }) == Some(0u32),
        limit_used(used, Amount::Infinite { negative: true }) is None,
        amount_used(Amount::Infinite { negative: false }, total) == 0,
        amount_used(Amount::Infinite { negative: true }, total) == 1_000_000,
        !is_positive(Amount::Infinite { negative: false }),
{
}

} // verus!
