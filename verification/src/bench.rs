use vstd::prelude::*;

verus! {

/// How a benchmark run goes on after one cycle: a cycle that reported errors stops
/// the run with its number, leaving the samples as they were; otherwise a measured
/// cycle's time in nanoseconds joins the samples, and a warm-up cycle's does not.
pub fn record_cycle(
    samples: &mut Vec<u64>,
    measure: bool,
    cycle: usize,
    errors_empty: bool,
    elapsed_ns: u64,
) -> (r: Result<(), usize>)
    ensures
        !errors_empty ==> r == Err::<(), usize>(cycle) && final(samples)@ == old(samples)@,
        errors_empty ==> r is Ok && final(samples)@ == (if measure {
            old(samples)@.push(elapsed_ns)
        } else {
            old(samples)@
        }),
{
    if !errors_empty {
        return Err(cycle);
    }
    if measure {
        samples.push(elapsed_ns);
    }
    Ok(())
}

/// The sum of a list of samples.
pub open spec fn samples_sum(s: Seq<u64>) -> int
    decreases s.len(),
{
    if s.len() == 0 {
        0
    } else {
        samples_sum(s.drop_last()) + s.last()
    }
}

/// The total time of a list of samples in nanoseconds; a `u128` holds it.
pub fn sample_total_ns(samples: &Vec<u64>) -> (t: u128)
    ensures
        t == samples_sum(samples@),
{
    let mut total: u128 = 0;
    let mut i: usize = 0;
    while i < samples.len()
        invariant
            i <= samples@.len(),
            total == samples_sum(samples@.take(i as int)),
            total <= i * 0xffff_ffff_ffff_ffffu128,
        decreases samples.len() - i,
    {
        assert(samples@.take(i + 1).drop_last() =~= samples@.take(i as int));
        let x = samples[i];
        assert(total + x <= (i + 1) * 0xffff_ffff_ffff_ffffu128) by (nonlinear_arith)
            requires
                total <= i * 0xffff_ffff_ffff_ffffu128,
                x <= 0xffff_ffff_ffff_ffffu64,
        ;
        assert((i + 1) * 0xffff_ffff_ffff_ffffu128 <= 0x1_0000_0000_0000_0000 * 0xffff_ffff_ffff_ffffu128) by (nonlinear_arith)
            requires
                i < 0x1_0000_0000_0000_0000,
        ;
        total = total + x as u128;
        i = i + 1;
    }
    assert(samples@.take(i as int) =~= samples@);
    total
}

} // verus!
