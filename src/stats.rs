use vstd::prelude::*;

verus! {

/// Sum of a list of numbers.
pub open spec fn sum_of(s: Seq<u32>) -> nat
    decreases s.len(),
{
    if s.len() == 0 { 0 } else { sum_of(s.drop_last()) + s.last() as nat }
}

/// Sum of the first or second members of a list of pairs.
pub open spec fn sum_first(s: Seq<(u64, u64)>) -> nat
    decreases s.len(),
{
    if s.len() == 0 { 0 } else { sum_first(s.drop_last()) + s.last().0 as nat }
}

pub open spec fn sum_second(s: Seq<(u64, u64)>) -> nat
    decreases s.len(),
{
    if s.len() == 0 { 0 } else { sum_second(s.drop_last()) + s.last().1 as nat }
}

/// The largest value of a list, 0 for an empty one.
pub open spec fn max_of(s: Seq<u64>) -> nat
    decreases s.len(),
{
    if s.len() == 0 {
        0
    } else {
        let m = max_of(s.drop_last());
        if s.last() > m { s.last() as nat } else { m }
    }
}

/// Mean usage over the cores (hundredths of a percent), rounded down; 0 without cores.
pub fn calculate_avg_cpu(per_core: &Vec<u32>) -> (r: u32)
    ensures
        per_core@.len() == 0 ==> r == 0,
        per_core@.len() > 0 ==> r as nat == sum_of(per_core@) / per_core@.len(),
{
    let mut total: u128 = 0;
    let mut i: usize = 0;
    while i < per_core.len()
        invariant
            i <= per_core@.len(),
            total as nat == sum_of(per_core@.subrange(0, i as int)),
            total <= i as nat * 0xffff_ffff,
        decreases per_core@.len() - i,
    {
        assert(per_core@.subrange(0, i + 1).drop_last() =~= per_core@.subrange(0, i as int));
        total = total + per_core[i] as u128;
        i = i + 1;
    }
    assert(per_core@.subrange(0, i as int) =~= per_core@);
    if per_core.len() == 0 {
        return 0;
    }
    let n = per_core.len() as u128;
    let avg = total / n;
    assert(avg <= 0xffff_ffff) by (nonlinear_arith)
        requires avg == total / n, total <= n * 0xffff_ffff, n > 0;
    avg as u32
}

/// Share of used memory in whole percent, rounded down; 0 when the total is 0.
pub fn calculate_memory(used: u64, total: u64) -> (r: u16)
    ensures
        total == 0 ==> r == 0,
        total > 0 ==> r as nat == if used as nat * 100 / total as nat > 65535 { 65535 } else { used as nat * 100 / total as nat },
{
    if total == 0 {
        return 0;
    }
    let p = (used as u128) * 100 / (total as u128);
    if p > 65535 { 65535 } else { p as u16 }
}

/// Received and transmitted bytes over all interfaces, each stopping at `u64::MAX`.
pub fn calculate_network_totals(per_interface: &Vec<(u64, u64)>) -> (r: (u64, u64))
    ensures
        r.0 as nat == if sum_first(per_interface@) > u64::MAX { u64::MAX as nat } else { sum_first(per_interface@) },
        r.1 as nat == if sum_second(per_interface@) > u64::MAX { u64::MAX as nat } else { sum_second(per_interface@) },
{
    let mut rx: u128 = 0;
    let mut tx: u128 = 0;
    let mut i: usize = 0;
    while i < per_interface.len()
        invariant
            i <= per_interface@.len(),
            rx as nat == if sum_first(per_interface@.subrange(0, i as int)) > u64::MAX { u64::MAX as nat + 1 } else { sum_first(per_interface@.subrange(0, i as int)) },
            tx as nat == if sum_second(per_interface@.subrange(0, i as int)) > u64::MAX { u64::MAX as nat + 1 } else { sum_second(per_interface@.subrange(0, i as int)) },
        decreases per_interface@.len() - i,
    {
        assert(per_interface@.subrange(0, i + 1).drop_last() =~= per_interface@.subrange(0, i as int));
        let (r, t) = per_interface[i];
        rx = rx + r as u128;
        if rx > u64::MAX as u128 {
            rx = u64::MAX as u128 + 1;
        }
        tx = tx + t as u128;
        if tx > u64::MAX as u128 {
            tx = u64::MAX as u128 + 1;
        }
        i = i + 1;
    }
    assert(per_interface@.subrange(0, i as int) =~= per_interface@);
    (if rx > u64::MAX as u128 { u64::MAX } else { rx as u64 }, if tx > u64::MAX as u128 { u64::MAX } else { tx as u64 })
}

/// The eight bar heights of a sparkline, lowest first.
pub open spec fn bar(level: nat) -> char {
    if level == 0 { '▁' }
    else if level == 1 { '▂' }
    else if level == 2 { '▃' }
    else if level == 3 { '▄' }
    else if level == 4 { '▅' }
    else if level == 5 { '▆' }
    else if level == 6 { '▇' }
    else { '█' }
}

fn bar_exec(level: u64) -> (r: char)
    ensures
        r == bar(level as nat),
{
    if level == 0 { '▁' }
    else if level == 1 { '▂' }
    else if level == 2 { '▃' }
    else if level == 3 { '▄' }
    else if level == 4 { '▅' }
    else if level == 5 { '▆' }
    else if level == 6 { '▇' }
    else { '█' }
}

/// The bar of a value on a scale whose top is `max` (> 0): `value * 7 / max`, rounded
/// down and at most the highest bar.
pub open spec fn bar_for(value: u64, max: nat) -> char {
    bar(value as nat * 7 / max)
}

/// A sparkline of the values scaled to `max_value`; all lowest bars when it is 0.
pub fn generate_sparkline_with_max(data: &Vec<u64>, max_value: u64) -> (r: Vec<char>)
    ensures
        r@.len() == data@.len(),
        forall|i: int| 0 <= i < data@.len() ==> #[trigger] r@[i] == if max_value == 0 { bar(0) } else { bar_for(data@[i], max_value as nat) },
{
    let mut r: Vec<char> = Vec::new();
    let mut i: usize = 0;
    while i < data.len()
        invariant
            i <= data@.len(),
            r@.len() == i,
            forall|k: int| 0 <= k < i ==> #[trigger] r@[k] == if max_value == 0 { bar(0) } else { bar_for(data@[k], max_value as nat) },
        decreases data@.len() - i,
    {
        let c = if max_value == 0 {
            bar_exec(0)
        } else {
            let q = data[i] as u128 * 7 / max_value as u128;
            let level: u64 = if q > 7 { 7 } else { q as u64 };
            assert(bar(level as nat) == bar(q as nat));
            bar_exec(level)
        };
        r.push(c);
        i = i + 1;
    }
    r
}

/// The largest value of a list (0 when empty).
pub fn max_value(data: &Vec<u64>) -> (r: u64)
    ensures
        r as nat == max_of(data@),
{
    let mut m: u64 = 0;
    let mut i: usize = 0;
    while i < data.len()
        invariant
            i <= data@.len(),
            m as nat == max_of(data@.subrange(0, i as int)),
        decreases data@.len() - i,
    {
        assert(data@.subrange(0, i + 1).drop_last() =~= data@.subrange(0, i as int));
        if data[i] > m {
            m = data[i];
        }
        i = i + 1;
    }
    assert(data@.subrange(0, i as int) =~= data@);
    m
}

/// A sparkline of the values scaled to their own largest value.
pub fn generate_sparkline(data: &Vec<u64>) -> (r: Vec<char>)
    ensures
        r@.len() == data@.len(),
        forall|i: int| 0 <= i < data@.len() ==> #[trigger] r@[i] == if max_of(data@) == 0 { bar(0) } else { bar_for(data@[i], max_of(data@)) },
{
    let m = max_value(data);
    generate_sparkline_with_max(data, m)
}

} // verus!
