//! Summing the byte lengths reported for the entries of a directory tree.
use vstd::prelude::*;

verus! {

/// The sum of the lengths that could be read; an entry whose length could not
/// be read (`None`) adds nothing.
pub open spec fn readable_total(lens: Seq<Option<u64>>) -> nat
    decreases lens.len(),
{
    if lens.len() == 0 {
        0
    } else {
        readable_total(lens.drop_last()) + match lens.last() {
            Some(n) => n as nat,
            None => 0nat,
        }
    }
}

/// An entry whose length cannot be read, wherever it stands in the walk,
/// leaves the total unchanged: its bytes are simply not counted.
pub proof fn lemma_unreadable_entry_adds_nothing(lens: Seq<Option<u64>>, i: int)
    requires
        0 <= i <= lens.len(),
    ensures
        readable_total(lens.insert(i, None)) == readable_total(lens),
    decreases lens.len(),
{
    let with = lens.insert(i, None);
    if i == lens.len() {
        assert(with.drop_last() =~= lens);
    } else {
        assert(with.drop_last() =~= lens.drop_last().insert(i, None));
        assert(with.last() == lens.last());
        lemma_unreadable_entry_adds_nothing(lens.drop_last(), i);
    }
}

/// The total size of a directory tree, given the length reported for each of
/// its entries (the directory itself included) in the order of the walk.
/// Entries that could not be read are skipped; they never make the sum fail.
pub fn calculate_dir_size(lens: &Vec<Option<u64>>) -> (r: u128)
    ensures
        r == readable_total(lens@),
{
    let mut sum: u128 = 0;
    let mut i: usize = 0;
    while i < lens.len()
        invariant
            i <= lens.len(),
            sum == readable_total(lens@.subrange(0, i as int)),
            sum <= i * (u64::MAX as int),
        decreases lens.len() - i,
    {
        let prefix = Ghost(lens@.subrange(0, i as int));
        let next = Ghost(lens@.subrange(0, i + 1));
        assert(next@.drop_last() =~= prefix@);
        match lens[i] {
            Some(n) => {
                proof {
                    let k = i as int;
                    assert((k + 1) * (u64::MAX as int) == k * (u64::MAX as int) + u64::MAX as int)
                        by (nonlinear_arith);
                    assert((k + 1) * (u64::MAX as int) <= (usize::MAX as int) * (u64::MAX as int))
                        by (nonlinear_arith)
                        requires
                            k + 1 <= usize::MAX,
                    ;
                }
                sum = sum + n as u128;
            },
            None => {
                proof {
                    let k = i as int;
                    assert(k * (u64::MAX as int) <= (k + 1) * (u64::MAX as int)) by (nonlinear_arith)
                        requires
                            k >= 0,
                    ;
                }
            },
        }
        i = i + 1;
    }
    assert(lens@.subrange(0, i as int) =~= lens@);
    sum
}

} // verus!
