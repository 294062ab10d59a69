//! Aggregate values of mappings: sums over contribution rows.
//!
//! A mapping's aggregate value for an owner is the sum of every live
//! `(device, chord)` contribution stored for that `(owner, mapping)` pair.
//! This module defines that sum over contribution-row views and proves what
//! the engine needs about it: how it changes under appending and filtering
//! rows, and that a running `i128` accumulator never overflows.

use vstd::prelude::*;

use crate::engine::ContribV;

verus! {

/// The sum of a sequence of fixed-point values.
pub open spec fn sum_vals(s: Seq<i64>) -> int
    decreases s.len(),
{
    if s.len() == 0 {
        0
    } else {
        sum_vals(s.drop_last()) + s.last()
    }
}

/// The rows contributing to one `(owner, mapping)` pair.
pub open spec fn is_for(owner: i32, mapping: u32) -> spec_fn(ContribV) -> bool {
    |c: ContribV| c.owner == owner && c.mapping == mapping
}

/// The value of one contribution row.
pub open spec fn val_of() -> spec_fn(ContribV) -> i64 {
    |c: ContribV| c.value
}

/// The aggregate value of `(owner, mapping)`: the sum of its contribution
/// rows' values.
pub open spec fn agg(s: Seq<ContribV>, owner: i32, mapping: u32) -> int {
    sum_vals(s.filter(is_for(owner, mapping)).map_values(val_of()))
}

/// Appending a value to a sequence adds it to the sum.
pub proof fn lemma_sum_push(s: Seq<i64>, v: i64)
    ensures
        sum_vals(s.push(v)) == sum_vals(s) + v,
{
    assert(s.push(v).drop_last() =~= s);
}

/// Appending a contribution row moves the aggregate of exactly its own
/// `(owner, mapping)` pair, by exactly its value.
pub proof fn lemma_agg_push(s: Seq<ContribV>, owner: i32, mapping: u32, c: ContribV)
    ensures
        agg(s.push(c), owner, mapping) == agg(s, owner, mapping) + if c.owner == owner
            && c.mapping == mapping {
            c.value as int
        } else {
            0
        },
{
    crate::tables::lemma_filter_push(s, is_for(owner, mapping), c);
    if c.owner == owner && c.mapping == mapping {
        assert(s.push(c).filter(is_for(owner, mapping)).map_values(val_of()) =~= s.filter(
            is_for(owner, mapping),
        ).map_values(val_of()).push(c.value));
        lemma_sum_push(s.filter(is_for(owner, mapping)).map_values(val_of()), c.value);
    }
}

/// The aggregate of the empty row set is zero.
pub proof fn lemma_agg_empty(owner: i32, mapping: u32)
    ensures
        agg(Seq::<ContribV>::empty(), owner, mapping) == 0,
{
    assert(Seq::<ContribV>::empty().filter(is_for(owner, mapping)) =~= Seq::<ContribV>::empty());
    assert(Seq::<ContribV>::empty().filter(is_for(owner, mapping)).map_values(val_of()) =~= Seq::<
        i64,
    >::empty());
}



/// A sum of `n` machine-word values stays within `n` half-words of zero.
pub proof fn lemma_sum_bound(s: Seq<i64>)
    ensures
        -(s.len() as int) * 0x8000_0000_0000_0000 <= sum_vals(s) <= (s.len() as int)
            * 0x8000_0000_0000_0000,
    decreases s.len(),
{
    if s.len() > 0 {
        lemma_sum_bound(s.drop_last());
    }
}

/// An aggregate stays within one half-word per row, so it always fits the
/// 128-bit values events carry.
pub proof fn lemma_agg_bound(s: Seq<ContribV>, owner: i32, mapping: u32)
    ensures
        -(s.len() as int) * 0x8000_0000_0000_0000 <= agg(s, owner, mapping) <= (s.len() as int)
            * 0x8000_0000_0000_0000,
{
    let f = s.filter(is_for(owner, mapping));
    s.lemma_filter_len(is_for(owner, mapping));
    lemma_sum_bound(f.map_values(val_of()));
    assert(f.map_values(val_of()).len() == f.len());
    assert((f.len() as int) * 0x8000_0000_0000_0000 <= (s.len() as int)
        * 0x8000_0000_0000_0000) by (nonlinear_arith)
        requires
            f.len() <= s.len(),
    ;
}

/// A pair with a non-zero aggregate holds at least one contribution row.
pub proof fn lemma_agg_nonzero_has_row(s: Seq<ContribV>, owner: i32, mapping: u32)
    requires
        agg(s, owner, mapping) != 0,
    ensures
        exists|w: int|
            0 <= w < s.len() && (#[trigger] s[w]).owner == owner && s[w].mapping == mapping,
    decreases s.len(),
{
    reveal_with_fuel(Seq::filter, 2);
    if s.len() == 0 {
        assert(s.filter(is_for(owner, mapping)) =~= Seq::<ContribV>::empty());
        lemma_agg_empty(owner, mapping);
        assert(s =~= Seq::<ContribV>::empty());
    } else {
        if s.last().owner == owner && s.last().mapping == mapping {
            assert(s[s.len() - 1].owner == owner && s[s.len() - 1].mapping == mapping);
        } else {
            assert(s.filter(is_for(owner, mapping)) == s.drop_last().filter(
                is_for(owner, mapping),
            ));
            lemma_agg_nonzero_has_row(s.drop_last(), owner, mapping);
            let w = choose|w: int|
                0 <= w < s.drop_last().len() && (#[trigger] s.drop_last()[w]).owner == owner
                    && s.drop_last()[w].mapping == mapping;
            assert(s[w].owner == owner && s[w].mapping == mapping);
        }
    }
}

} // verus!
