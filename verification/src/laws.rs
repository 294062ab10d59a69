//! The engine's stated laws, proved once and for all.
//!
//! The per-transition edge discipline lives in `edge` and the dead-zone
//! laws in `dead_zone`; this module proves the flush-level laws: every
//! `ValueChanged` event the flush emits carries exactly the mapping's
//! aggregate (the sum of its live contributions), and disconnecting the
//! sole contributor of a pressed mapping yields a `JustReleased` in the
//! same tick's flush.

use vstd::prelude::*;

use crate::edge::dir_of;
use crate::engine::ContribV;
use crate::events::InputMapEvent;
use crate::sums::agg;
use crate::sums::lemma_agg_bound;
use crate::sums::lemma_agg_nonzero_has_row;
use crate::tick::flush_events;
use crate::tick::flush_one;
use crate::tick::snap_keys;
use crate::tick::tick_snapshot;

verus! {

/// An element of either part of a concatenation is an element of the whole.
pub proof fn lemma_concat_contains<A>(a: Seq<A>, b: Seq<A>, x: A)
    requires
        a.contains(x) || b.contains(x),
    ensures
        (a + b).contains(x),
{
    if a.contains(x) {
        let w = choose|w: int| 0 <= w < a.len() && a[w] == x;
        assert((a + b)[w] == x);
    } else {
        let w = choose|w: int| 0 <= w < b.len() && b[w] == x;
        assert((a + b)[a.len() + w] == x);
    }
}

/// Every event of one snapshot entry's flush appears in the whole flush.
pub proof fn lemma_flush_contains(
    snap: Seq<(i32, u32, i128)>,
    after: Seq<ContribV>,
    i: int,
    x: InputMapEvent,
)
    requires
        0 <= i < snap.len(),
        flush_one(snap[i], after).contains(x),
    ensures
        flush_events(snap, after).contains(x),
    decreases snap.len(),
{
    if i == snap.len() - 1 {
        assert(snap.last() == snap[i]);
        lemma_concat_contains(flush_events(snap.drop_last(), after), flush_one(snap.last(), after), x);
    } else {
        assert(snap.drop_last()[i] == snap[i]);
        lemma_flush_contains(snap.drop_last(), after, i, x);
        lemma_concat_contains(flush_events(snap.drop_last(), after), flush_one(snap.last(), after), x);
    }
}

/// A pair holding any contribution row is among the snapshot keys.
pub proof fn lemma_snap_keys_complete(s: Seq<ContribV>, w: int)
    requires
        0 <= w < s.len(),
    ensures
        snap_keys(s).contains((s[w].owner, s[w].mapping)),
    decreases s.len(),
{
    let k = (s[w].owner, s[w].mapping);
    let prior = snap_keys(s.drop_last());
    if w == s.len() - 1 {
        if prior.contains(k) {
        } else {
            assert(snap_keys(s)[prior.len() as int] == k);
        }
    } else {
        assert(s.drop_last()[w] == s[w]);
        lemma_snap_keys_complete(s.drop_last(), w);
        if prior.contains(k) {
            let wi = choose|wi: int| 0 <= wi < prior.len() && prior[wi] == k;
            if snap_keys(s) == prior {
                assert(snap_keys(s)[wi] == k);
            } else {
                assert(snap_keys(s)[wi] == k);
            }
        }
    }
}

/// Aggregate reporting: any `ValueChanged` event in a flush carries
/// exactly the aggregate value of its `(owner, mapping)` pair over the
/// rows the flush was computed against — the mapping's reported value is
/// always the sum of its live `(device, chord)` contributions.
pub proof fn lemma_value_changed_is_aggregate(
    snap: Seq<(i32, u32, i128)>,
    after: Seq<ContribV>,
    mapping: u32,
    val: i128,
    owner: i32,
)
    requires
        after.len() <= 0xffff_ffff_ffff_ffff,
        flush_events(snap, after).contains(
            InputMapEvent::ValueChanged { mapping, val, owner },
        ),
    ensures
        val as int == agg(after, owner, mapping),
    decreases snap.len(),
{
    let x = InputMapEvent::ValueChanged { mapping, val, owner };
    if snap.len() == 0 {
    } else {
        let a = flush_events(snap.drop_last(), after);
        let b = flush_one(snap.last(), after);
        let wi = choose|wi: int|
            0 <= wi < flush_events(snap, after).len() && flush_events(snap, after)[wi] == x;
        if wi < a.len() {
            assert(a[wi] == x);
            assert(a.contains(x));
            lemma_value_changed_is_aggregate(snap.drop_last(), after, mapping, val, owner);
        } else {
            let idx = wi - a.len();
            assert(b[idx] == x);
            let e = snap.last();
            let cur = agg(after, e.0, e.1);
            let te = crate::edge::transition_events(e.1, e.0, dir_of(e.2 as int), dir_of(cur));
            assert forall|k: int| 0 <= k < te.len() implies ((#[trigger] te[k]) is JustReleased
                || te[k] is JustPressed) by {
                let rel: Seq<InputMapEvent> = if dir_of(cur) == 0 || dir_of(e.2 as int) != 0 {
                    seq![
                        InputMapEvent::JustReleased {
                            mapping: e.1,
                            dir: dir_of(e.2 as int) as i32,
                            owner: e.0,
                        },
                    ]
                } else {
                    Seq::empty()
                };
                if dir_of(e.2 as int) != dir_of(cur) {
                    if k < rel.len() {
                        assert(te[k] == rel[0]);
                    }
                }
            }
            if e.2 != cur {
                assert(b == seq![
                    InputMapEvent::ValueChanged { mapping: e.1, val: cur as i128, owner: e.0 },
                ] + te);
                if idx == 0 {
                    assert(x == InputMapEvent::ValueChanged {
                        mapping: e.1,
                        val: cur as i128,
                        owner: e.0,
                    });
                    lemma_agg_bound(after, e.0, e.1);
                    assert(after.len() as int <= 0xffff_ffff_ffff_ffff);
                    assert((after.len() as int) * 0x8000_0000_0000_0000
                        <= 0xffff_ffff_ffff_ffff * 0x8000_0000_0000_0000) by (nonlinear_arith)
                        requires
                            after.len() as int <= 0xffff_ffff_ffff_ffff,
                    ;
                } else {
                    assert(b[idx] == te[idx - 1]);
                    assert(false);
                }
            } else {
                assert(b == Seq::<InputMapEvent>::empty() + te);
                assert(b[idx] == te[idx]);
                assert(false);
            }
        }
    }
}

/// Disconnect cleanup: when a mapping was pressed at the tick's start and
/// its cleanup — such as the disconnect of the gamepad carrying its sole
/// contribution — leaves its aggregate at zero, the tick's flush contains
/// a `JustReleased` with the direction that was held.
pub proof fn lemma_disconnect_release(before: Seq<ContribV>, after: Seq<ContribV>, o: i32, m: u32)
    requires
        before.len() <= 0xffff_ffff_ffff_ffff,
        agg(before, o, m) != 0,
        agg(after, o, m) == 0,
    ensures
        flush_events(tick_snapshot(before), after).contains(
            InputMapEvent::JustReleased { mapping: m, dir: dir_of(agg(before, o, m)) as i32, owner: o },
        ),
{
    lemma_agg_nonzero_has_row(before, o, m);
    let w = choose|w: int|
        0 <= w < before.len() && (#[trigger] before[w]).owner == o && before[w].mapping == m;
    lemma_snap_keys_complete(before, w);
    let keys = snap_keys(before);
    let ki = choose|ki: int| 0 <= ki < keys.len() && keys[ki] == (o, m);
    let snap = tick_snapshot(before);
    assert(snap.len() == keys.len());
    assert(snap[ki] == (keys[ki].0, keys[ki].1, agg(before, keys[ki].0, keys[ki].1) as i128));
    assert(keys[ki].0 == o && keys[ki].1 == m);
    assert(snap[ki] == (o, m, agg(before, o, m) as i128));
    lemma_agg_bound(before, o, m);
    assert(before.len() as int <= 0xffff_ffff_ffff_ffff);
    assert((before.len() as int) * 0x8000_0000_0000_0000 <= 0xffff_ffff_ffff_ffff
        * 0x8000_0000_0000_0000) by (nonlinear_arith)
        requires
            before.len() as int <= 0xffff_ffff_ffff_ffff,
    ;
    let e = snap[ki];
    assert(e.2 as int == agg(before, o, m));
    let jr = InputMapEvent::JustReleased {
        mapping: m,
        dir: dir_of(agg(before, o, m)) as i32,
        owner: o,
    };
    assert(flush_one(e, after).contains(jr)) by {
        let cur = agg(after, e.0, e.1);
        assert(cur == 0);
        assert(e.2 != cur);
        let te = crate::edge::transition_events(e.1, e.0, dir_of(e.2 as int), dir_of(cur));
        assert(te == seq![jr]);
        assert(flush_one(e, after)[1] == te[0]);
    }
    lemma_flush_contains(snap, after, ki, jr);
}

/// The flush's events for one snapshot entry obey the edge discipline:
/// scanning them with the entry's old direction held ends with the new
/// direction held, with every press and release properly paired.
pub proof fn lemma_flush_one_edge_ok(e: (i32, u32, i128), after: Seq<ContribV>)
    ensures
        crate::edge::edge_ok(flush_one(e, after), dir_of(e.2 as int)),
        crate::edge::end_dir(flush_one(e, after), dir_of(e.2 as int)) == dir_of(
            agg(after, e.0, e.1),
        ),
{
    let cur = agg(after, e.0, e.1);
    let d0 = dir_of(e.2 as int);
    let te = crate::edge::transition_events(e.1, e.0, d0, dir_of(cur));
    crate::edge::lemma_transition_edge_ok(e.1, e.0, d0, dir_of(cur));
    if e.2 != cur {
        let vc = InputMapEvent::ValueChanged { mapping: e.1, val: cur as i128, owner: e.0 };
        assert(flush_one(e, after) =~= seq![vc] + te);
        assert((seq![vc] + te).drop_first() =~= te);
    } else {
        assert(flush_one(e, after) =~= te);
    }
}

} // verus!
