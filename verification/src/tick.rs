//! The mapping resolver: one tick of binding events against the registry.
//!
//! Each tick runs, in order: cleanup of devices that entered rebind
//! capture, of ownership changes and of disconnects; pruning after a
//! configuration change; modifier tracking and the modifier-release
//! cascade; a flush comparing every mapping's aggregate against its value
//! at tick start, emitting `ValueChanged` and edge events; primary
//! resolution of each binding event; the repeat scheduler; and rebind
//! capture.

use vstd::prelude::*;

use crate::edge::dir_of;
use crate::edge::dir_of_val;
use crate::edge::emit_transition;
use crate::edge::transition_events;
use crate::engine::agg_value;
use crate::engine::ConfigV;
use crate::engine::Contrib;
use crate::engine::ContribV;
use crate::engine::InputMap;
use crate::engine::lemma_views_push;
use crate::engine::lemma_views_take;
use crate::engine::RepState;
use crate::events::BindingInputEvent;
use crate::events::InputMapError;
use crate::events::InputMapEvent;
use crate::events::RawInputEvent;
use crate::sums::agg;
use crate::tables::lemma_filter_push;
use crate::tables::lemma_filter_sub;
use crate::tables::po_spec;
use crate::tables::po_get;
use crate::tables::views;
use crate::values::Binding;
use crate::values::Device;
use crate::values::CONTRIB_MAX;

verus! {

/// Whether a binding takes part in rebind capture: it must not be excluded,
/// and when an include list is set it must be on it.
pub open spec fn capturable(excludes: Seq<Binding>, includes: Seq<Binding>, b: Binding) -> bool {
    !excludes.contains(b) && (includes.len() == 0 || includes.contains(b))
}

/// Tests whether a binding takes part in rebind capture.
pub(crate) fn is_capturable(excludes: &Vec<Binding>, includes: &Vec<Binding>, b: Binding) -> (r:
    bool)
    ensures
        r == capturable(excludes@, includes@, b),
{
    if crate::tables::bnd_contains(excludes, b) {
        return false;
    }
    if includes.len() > 0 && !crate::tables::bnd_contains(includes, b) {
        return false;
    }
    true
}

/// After ownership and disconnect cleanup, the rows that stay: a gamepad
/// row goes when its device's owner changed away from the row's owner since
/// last tick, or when its device was disconnected while the row's owner
/// held it.
pub open spec fn keep_owner_row(
    prev: Seq<(u64, i32)>,
    feed: Seq<(u64, i32)>,
    disc: Seq<u64>,
    c: ContribV,
) -> bool {
    match c.device {
        Device::Other => true,
        Device::Gamepad(g) => {
            let changed = po_spec(prev, g) is Some && po_spec(feed, g) != po_spec(prev, g)
                && c.owner == po_spec(prev, g)->0;
            let dropped = disc.contains(g) && (match po_spec(feed, g) {
                Some(o) => c.owner == o,
                None => po_spec(prev, g) is Some && c.owner == po_spec(prev, g)->0,
            });
            !(changed || dropped)
        },
    }
}

/// The owners a device's events are routed to: a gamepad's assigned owner,
/// or every owner with keyboard-or-mouse bindings for the shared channel.
pub open spec fn owners_of(feed: Seq<(u64, i32)>, others: Seq<i32>, d: Device) -> Seq<i32> {
    match d {
        Device::Other => others,
        Device::Gamepad(g) => match po_spec(feed, g) {
            Some(o) => seq![o],
            None => Seq::empty(),
        },
    }
}

/// Collects the owners a device's events are routed to.
pub(crate) fn owners_for(feed: &Vec<(u64, i32)>, others: &Vec<i32>, d: Device) -> (r: Vec<i32>)
    ensures
        r@ == owners_of(feed@, others@, d),
{
    match d {
        Device::Other => {
            let mut out: Vec<i32> = Vec::new();
            let mut i: usize = 0;
            while i < others.len()
                invariant
                    i <= others.len(),
                    out@ == others@.take(i as int),
                decreases others.len() - i,
            {
                proof {
                    assert(others@.take(i + 1) =~= others@.take(i as int).push(
                        others@[i as int],
                    ));
                }
                out.push(others[i]);
                i = i + 1;
            }
            assert(others@.take(others@.len() as int) =~= others@);
            out
        },
        Device::Gamepad(g) => {
            let mut out: Vec<i32> = Vec::new();
            match po_get(feed, g) {
                Some(o) => {
                    out.push(o);
                    assert(out@ =~= seq![o]);
                },
                None => {
                    assert(out@ =~= Seq::<i32>::empty());
                },
            }
            out
        },
    }
}

/// Whether the registry holds a row for exactly this contribution's
/// `(owner, mapping, chord)`.
pub open spec fn row_configured(cfgs: Seq<ConfigV>, c: ContribV) -> bool {
    exists|i: int|
        0 <= i < cfgs.len() && (#[trigger] cfgs[i]).owner == c.owner && cfgs[i].mapping
            == c.mapping && cfgs[i].group == c.group
}

/// Whether the registry holds any row for `(owner, mapping)`.
pub open spec fn pair_configured(cfgs: Seq<ConfigV>, owner: i32, mapping: u32) -> bool {
    exists|i: int|
        0 <= i < cfgs.len() && (#[trigger] cfgs[i]).owner == owner && cfgs[i].mapping == mapping
}

/// The distinct `(owner, mapping)` keys of a row set, first occurrence
/// first.
pub open spec fn snap_keys(s: Seq<ContribV>) -> Seq<(i32, u32)>
    decreases s.len(),
{
    if s.len() == 0 {
        Seq::empty()
    } else {
        let prior = snap_keys(s.drop_last());
        let k = (s.last().owner, s.last().mapping);
        if prior.contains(k) {
            prior
        } else {
            prior.push(k)
        }
    }
}

/// The tick-start snapshot: each `(owner, mapping)` pair that holds any
/// contribution, with its aggregate value at that moment.
pub open spec fn tick_snapshot(s: Seq<ContribV>) -> Seq<(i32, u32, i128)> {
    snap_keys(s).map_values(|k: (i32, u32)| (k.0, k.1, agg(s, k.0, k.1) as i128))
}

/// The events the flush emits for one snapshot entry against the current
/// rows: `ValueChanged` when the aggregate moved, then the edge events of
/// the direction transition.
pub open spec fn flush_one(e: (i32, u32, i128), after: Seq<ContribV>) -> Seq<InputMapEvent> {
    let cur = agg(after, e.0, e.1);
    (if e.2 != cur {
        seq![InputMapEvent::ValueChanged { mapping: e.1, val: cur as i128, owner: e.0 }]
    } else {
        Seq::empty()
    }) + transition_events(e.1, e.0, dir_of(e.2 as int), dir_of(cur))
}

/// The events the flush emits for a whole snapshot, in snapshot order.
pub open spec fn flush_events(snap: Seq<(i32, u32, i128)>, after: Seq<ContribV>) -> Seq<
    InputMapEvent,
>
    decreases snap.len(),
{
    if snap.len() == 0 {
        Seq::empty()
    } else {
        flush_events(snap.drop_last(), after) + flush_one(snap.last(), after)
    }
}

/// Whether a `(owner, mapping)` pair is among the snapshot keys.
pub(crate) fn snap_contains(keys: &Vec<(i32, u32, i128)>, o: i32, m: u32) -> (r: bool)
    ensures
        r == exists|j: int|
            0 <= j < keys@.len() && (#[trigger] keys@[j]).0 == o && keys@[j].1 == m,
{
    let mut i: usize = 0;
    while i < keys.len()
        invariant
            i <= keys.len(),
            forall|j: int| 0 <= j < i ==> !((#[trigger] keys@[j]).0 == o && keys@[j].1 == m),
        decreases keys.len() - i,
    {
        let (eo, em, _ev) = keys[i];
        if eo == o && em == m {
            return true;
        }
        i = i + 1;
    }
    false
}

/// Builds the tick-start snapshot of every `(owner, mapping)` pair holding
/// contributions, with its aggregate.
pub(crate) fn build_snapshot(v: &Vec<Contrib>) -> (r: Vec<(i32, u32, i128)>)
    ensures
        r@ == tick_snapshot(views(v@)),
{
    let mut out: Vec<(i32, u32, i128)> = Vec::new();
    let mut i: usize = 0;
    assert(views(v@).take(0) =~= Seq::<ContribV>::empty());
    while i < v.len()
        invariant
            i <= v.len(),
            out@.map_values(|e: (i32, u32, i128)| (e.0, e.1)) == snap_keys(
                views(v@).take(i as int),
            ),
            forall|j: int|
                0 <= j < out@.len() ==> (#[trigger] out@[j]).2 == agg(
                    views(v@),
                    out@[j].0,
                    out@[j].1,
                ) as i128,
        decreases v.len() - i,
    {
        proof {
            lemma_views_take(v@, i as int);
            lemma_views_take(v@, i + 1);
            assert(views(v@).take(i + 1) =~= views(v@).take(i as int).push(v@[i as int]@));
            assert(views(v@).take(i + 1).drop_last() =~= views(v@).take(i as int));
        }
        let o: i32 = v[i].owner;
        let m: u32 = v[i].mapping;
        let ghost k = (o, m);
        let ghost keys0 = out@.map_values(|e: (i32, u32, i128)| (e.0, e.1));
        if !snap_contains(&out, o, m) {
            assert(!keys0.contains(k)) by {
                if keys0.contains(k) {
                    let w = choose|w: int| 0 <= w < keys0.len() && keys0[w] == k;
                    assert(out@[w].0 == o && out@[w].1 == m);
                }
            }
            let val: i128 = agg_value(v, o, m);
            out.push((o, m, val));
            assert(out@.map_values(|e: (i32, u32, i128)| (e.0, e.1)) =~= keys0.push(k));
        } else {
            assert(keys0.contains(k)) by {
                let w = choose|w: int|
                    0 <= w < out@.len() && (#[trigger] out@[w]).0 == o && out@[w].1 == m;
                assert(keys0[w] == k);
            }
        }
        i = i + 1;
    }
    assert(views(v@).take(v@.len() as int) =~= views(v@));
    proof {
        let keysf = out@.map_values(|e: (i32, u32, i128)| (e.0, e.1));
        assert(out@ =~= tick_snapshot(views(v@))) by {
            assert(keysf == snap_keys(views(v@)));
            assert forall|j: int| 0 <= j < out@.len() implies out@[j] == tick_snapshot(
                views(v@),
            )[j] by {
                assert(keysf[j] == (out@[j].0, out@[j].1));
            }
        }
    }
    out
}

/// The repeat timers after a flush: each snapshot entry whose direction
/// moved has its mapping's timer disarmed, in snapshot order.
pub open spec fn flush_rep(
    snap: Seq<(i32, u32, i128)>,
    after: Seq<ContribV>,
    repeats: Seq<(u32, i64, i64)>,
    rep: Seq<RepState>,
) -> Seq<RepState>
    decreases snap.len(),
{
    if snap.len() == 0 {
        rep
    } else {
        let prior = flush_rep(snap.drop_last(), after, repeats, rep);
        let e = snap.last();
        let cur = agg(after, e.0, e.1);
        if dir_of(e.2 as int) != dir_of(cur) && crate::tables::rp_spec(repeats, e.1) is Some {
            disarm_spec(prior, e.0, e.1)
        } else {
            prior
        }
    }
}

/// Emits the flush events for a snapshot against the current rows, and
/// disarms the repeat timer of every mapping whose direction moved.
pub(crate) fn flush_changes(
    out: &mut Vec<InputMapEvent>,
    contribs: &Vec<Contrib>,
    snap: &Vec<(i32, u32, i128)>,
    repeats: &Vec<(u32, i64, i64)>,
    rep_states: &mut Vec<RepState>,
)
    requires
        forall|j: int|
            0 <= j < old(rep_states)@.len() ==> 0 <= (#[trigger] old(rep_states)@[j]).accum
                <= crate::values::ACCUM_MAX,
    ensures
        final(out)@ == old(out)@ + flush_events(snap@, views(contribs@)),
        final(rep_states)@ == flush_rep(snap@, views(contribs@), repeats@, old(rep_states)@),
        forall|j: int|
            0 <= j < final(rep_states)@.len() ==> 0 <= (#[trigger] final(rep_states)@[j]).accum
                <= crate::values::ACCUM_MAX,
{
    let mut i: usize = 0;
    assert(snap@.take(0) =~= Seq::<(i32, u32, i128)>::empty());
    assert(out@ =~= old(out)@ + flush_events(snap@.take(0), views(contribs@)));
    while i < snap.len()
        invariant
            i <= snap.len(),
            out@ == old(out)@ + flush_events(snap@.take(i as int), views(contribs@)),
            rep_states@ == flush_rep(
                snap@.take(i as int),
                views(contribs@),
                repeats@,
                old(rep_states)@,
            ),
            forall|j: int|
                0 <= j < rep_states@.len() ==> 0 <= (#[trigger] rep_states@[j]).accum
                    <= crate::values::ACCUM_MAX,
        decreases snap.len() - i,
    {
        proof {
            assert(snap@.take(i + 1) =~= snap@.take(i as int).push(snap@[i as int]));
            assert(snap@.take(i + 1).drop_last() =~= snap@.take(i as int));
            assert(snap@.take(i + 1).last() == snap@[i as int]);
        }
        let (o, m, last) = snap[i];
        let cur: i128 = agg_value(contribs, o, m);
        if last != cur {
            out.push(InputMapEvent::ValueChanged { mapping: m, val: cur, owner: o });
        }
        let last_dir: i32 = dir_of_val(last);
        let cur_dir: i32 = dir_of_val(cur);
        emit_transition(out, m, o, last_dir, cur_dir);
        if last_dir != cur_dir {
            if crate::tables::rp_get(repeats, m).is_some() {
                disarm_repeat(rep_states, o, m);
            }
        }
        assert(out@ =~= old(out)@ + flush_events(snap@.take(i + 1), views(contribs@)));
        i = i + 1;
    }
    assert(snap@.take(snap@.len() as int) =~= snap@);
}

/// The position of the stored repeat timer of `(o, m)`, if any.
pub open spec fn rs_idx(rep: Seq<RepState>, o: i32, m: u32) -> Option<int>
    decreases rep.len(),
{
    if rep.len() == 0 {
        None
    } else if rep[0].owner == o && rep[0].mapping == m {
        Some(0int)
    } else {
        match rs_idx(rep.drop_first(), o, m) {
            Some(i) => Some(i + 1),
            None => None,
        }
    }
}

/// `rs_idx` returns exactly the first position holding the pair.
proof fn lemma_rs_idx_first(rep: Seq<RepState>, o: i32, m: u32, i: int)
    requires
        0 <= i < rep.len(),
        rep[i].owner == o && rep[i].mapping == m,
        forall|k: int| 0 <= k < i ==> !((#[trigger] rep[k]).owner == o && rep[k].mapping == m),
    ensures
        rs_idx(rep, o, m) == Some(i),
    decreases rep.len(),
{
    if i > 0 {
        assert(forall|k: int|
            0 <= k < i - 1 ==> (#[trigger] rep.drop_first()[k]) == rep[k + 1]);
        assert(rep.drop_first()[i - 1] == rep[i]);
        lemma_rs_idx_first(rep.drop_first(), o, m, i - 1);
    }
}

/// With no position holding the pair, `rs_idx` finds nothing.
proof fn lemma_rs_idx_none(rep: Seq<RepState>, o: i32, m: u32)
    requires
        forall|k: int|
            0 <= k < rep.len() ==> !((#[trigger] rep[k]).owner == o && rep[k].mapping == m),
    ensures
        rs_idx(rep, o, m) is None,
    decreases rep.len(),
{
    if rep.len() > 0 {
        assert(forall|k: int|
            0 <= k < rep.drop_first().len() ==> (#[trigger] rep.drop_first()[k]) == rep[k + 1]);
        lemma_rs_idx_none(rep.drop_first(), o, m);
    }
}

/// The repeat timers after disarming `(o, m)`: its stored row, if any, is
/// reset to a cold timer.
pub open spec fn disarm_spec(rep: Seq<RepState>, o: i32, m: u32) -> Seq<RepState> {
    match rs_idx(rep, o, m) {
        Some(i) => rep.update(i, RepState { owner: o, mapping: m, accum: 0, repeating: false }),
        None => rep,
    }
}

/// Disarms the repeat timer of `(owner, mapping)` and zeroes its
/// accumulator.
pub(crate) fn disarm_repeat(rep_states: &mut Vec<RepState>, o: i32, m: u32)
    requires
        forall|j: int|
            0 <= j < old(rep_states)@.len() ==> 0 <= (#[trigger] old(rep_states)@[j]).accum
                <= crate::values::ACCUM_MAX,
    ensures
        final(rep_states)@ == disarm_spec(old(rep_states)@, o, m),
        forall|j: int|
            0 <= j < final(rep_states)@.len() ==> 0 <= (#[trigger] final(rep_states)@[j]).accum
                <= crate::values::ACCUM_MAX,
{
    let mut i: usize = 0;
    while i < rep_states.len()
        invariant
            i <= rep_states.len(),
            rep_states@ == old(rep_states)@,
            forall|j: int|
                0 <= j < rep_states@.len() ==> 0 <= (#[trigger] rep_states@[j]).accum
                    <= crate::values::ACCUM_MAX,
            forall|k: int|
                0 <= k < i ==> !((#[trigger] rep_states@[k]).owner == o && rep_states@[k].mapping
                    == m),
        decreases rep_states.len() - i,
    {
        let row = rep_states[i];
        if row.owner == o && row.mapping == m {
            let ghost prev = rep_states@;
            proof {
                lemma_rs_idx_first(rep_states@, o, m, i as int);
            }
            rep_states.set(i, RepState { owner: o, mapping: m, accum: 0, repeating: false });
            proof {
                assert(rep_states@ == prev.update(
                    i as int,
                    RepState { owner: o, mapping: m, accum: 0, repeating: false },
                ));
                assert forall|j: int|
                    0 <= j < rep_states@.len() implies 0 <= (#[trigger] rep_states@[j]).accum
                        <= crate::values::ACCUM_MAX by {
                    if j != i {
                        assert(rep_states@[j] == prev[j]);
                        assert(0 <= prev[j].accum <= crate::values::ACCUM_MAX);
                    }
                }
            }
            return;
        }
        i = i + 1;
    }
    proof {
        lemma_rs_idx_none(rep_states@, o, m);
    }
}

/// The gamepads the tick's raw signals report as disconnected.
pub open spec fn disc_of(raws: Seq<RawInputEvent>) -> Seq<u64>
    decreases raws.len(),
{
    if raws.len() == 0 {
        Seq::empty()
    } else {
        disc_of(raws.drop_last()) + (match raws.last() {
            RawInputEvent::GamepadDisconnected { gamepad } => seq![gamepad],
            _ => Seq::empty(),
        })
    }
}

/// Collects the gamepads the tick's raw signals report as disconnected.
pub(crate) fn collect_disconnects(raw: &Vec<RawInputEvent>) -> (r: Vec<u64>)
    ensures
        r@ == disc_of(raw@),
{
    let mut out: Vec<u64> = Vec::new();
    let mut i: usize = 0;
    assert(raw@.take(0) =~= Seq::<RawInputEvent>::empty());
    while i < raw.len()
        invariant
            i <= raw.len(),
            out@ == disc_of(raw@.take(i as int)),
        decreases raw.len() - i,
    {
        proof {
            assert(raw@.take(i + 1) =~= raw@.take(i as int).push(raw@[i as int]));
            assert(raw@.take(i + 1).drop_last() =~= raw@.take(i as int));
        }
        if let RawInputEvent::GamepadDisconnected { gamepad } = raw[i] {
            out.push(gamepad);
            assert(out@ =~= disc_of(raw@.take(i + 1)));
        } else {
            assert(out@ =~= disc_of(raw@.take(i + 1)));
        }
        i = i + 1;
    }
    assert(raw@.take(raw@.len() as int) =~= raw@);
    out
}

/// The rows that stay when a device enters rebind capture: rows on a
/// capturing device whose primary takes part in capture fall silent.
pub open spec fn keep_capture_row(
    devs: Seq<Device>,
    ex: Seq<Binding>,
    inc: Seq<Binding>,
) -> spec_fn(ContribV) -> bool {
    |c: ContribV| !(devs.contains(c.device) && capturable(ex, inc, c.group.primary))
}

/// Removes the contributions silenced by devices newly entering rebind
/// capture; with no newly capturing device nothing changes.
pub(crate) fn capture_entry_cleanup(
    contribs: &mut Vec<Contrib>,
    capture_devices: &Vec<Device>,
    capture_lasts: &Vec<Device>,
    excludes: &Vec<Binding>,
    includes: &Vec<Binding>,
)
    ensures
        views(final(contribs)@) == if exists|i: int|
            0 <= i < capture_devices@.len() && !capture_lasts@.contains(
                #[trigger] capture_devices@[i],
            ) {
            views(old(contribs)@).filter(
                keep_capture_row(capture_devices@, excludes@, includes@),
            )
        } else {
            views(old(contribs)@)
        },
{
    let mut entered: bool = false;
    let mut i: usize = 0;
    while i < capture_devices.len()
        invariant
            i <= capture_devices.len(),
            entered == exists|j: int|
                0 <= j < i && !capture_lasts@.contains(#[trigger] capture_devices@[j]),
        decreases capture_devices.len() - i,
    {
        if !crate::tables::dev_contains(capture_lasts, capture_devices[i]) {
            entered = true;
        }
        i = i + 1;
    }
    if !entered {
        return;
    }
    let mut out: Vec<Contrib> = Vec::new();
    let mut j: usize = 0;
    while j < contribs.len()
        invariant
            j <= contribs.len(),
            views(out@) == views(contribs@).take(j as int).filter(
                keep_capture_row(capture_devices@, excludes@, includes@),
            ),
        decreases contribs.len() - j,
    {
        proof {
            lemma_views_take(contribs@, j as int);
            lemma_views_take(contribs@, j + 1);
            assert(views(contribs@).take(j + 1) =~= views(contribs@).take(j as int).push(
                contribs@[j as int]@,
            ));
            lemma_filter_push(
                views(contribs@).take(j as int),
                keep_capture_row(capture_devices@, excludes@, includes@),
                contribs@[j as int]@,
            );
        }
        let c = &contribs[j];
        let silenced = crate::tables::dev_contains(capture_devices, c.device) && is_capturable(
            excludes,
            includes,
            c.group.primary,
        );
        if !silenced {
            let kept = Contrib {
                owner: c.owner,
                mapping: c.mapping,
                device: c.device,
                group: c.group.clone(),
                value: c.value,
            };
            assert(kept@ == contribs@[j as int]@);
            proof {
                lemma_views_push(out@, kept);
            }
            out.push(kept);
        }
        j = j + 1;
    }
    assert(views(contribs@).take(contribs@.len() as int) =~= views(contribs@));
    *contribs = out;
}

/// The predicate keeping every cached modifier value whose device was not
/// disconnected.
pub open spec fn keep_mv_row(disc: Seq<u64>) -> spec_fn((Device, Binding, i64)) -> bool {
    |e: (Device, Binding, i64)| match e.0 {
        Device::Other => true,
        Device::Gamepad(g) => !disc.contains(g),
    }
}

/// The predicate keeping every gamepad-owner row whose gamepad was not
/// disconnected.
pub open spec fn keep_po_row(disc: Seq<u64>) -> spec_fn((u64, i32)) -> bool {
    |e: (u64, i32)| !disc.contains(e.0)
}

/// Ownership and disconnect cleanup: removes contributions of devices whose
/// owner changed since last tick or that were disconnected, drops cached
/// modifier values of disconnected devices, and replaces the remembered
/// ownership table with the current feed minus the disconnected gamepads.
pub(crate) fn owner_disconnect_cleanup(
    contribs: &mut Vec<Contrib>,
    mod_vals: &mut Vec<(Device, Binding, i64)>,
    prev_owners: &mut Vec<(u64, i32)>,
    feed: &Vec<(u64, i32)>,
    disc: &Vec<u64>,
)
    ensures
        views(final(contribs)@) == views(old(contribs)@).filter(
            |c: ContribV| keep_owner_row(old(prev_owners)@, feed@, disc@, c),
        ),
        final(mod_vals)@ == old(mod_vals)@.filter(keep_mv_row(disc@)),
        final(prev_owners)@ == feed@.filter(keep_po_row(disc@)),
{
    let ghost prev0 = prev_owners@;
    let mut out: Vec<Contrib> = Vec::new();
    let mut i: usize = 0;
    while i < contribs.len()
        invariant
            i <= contribs.len(),
            prev0 == prev_owners@,
            views(out@) == views(contribs@).take(i as int).filter(
                |c: ContribV| keep_owner_row(prev0, feed@, disc@, c),
            ),
        decreases contribs.len() - i,
    {
        proof {
            lemma_views_take(contribs@, i as int);
            lemma_views_take(contribs@, i + 1);
            assert(views(contribs@).take(i + 1) =~= views(contribs@).take(i as int).push(
                contribs@[i as int]@,
            ));
            lemma_filter_push(
                views(contribs@).take(i as int),
                |c: ContribV| keep_owner_row(prev0, feed@, disc@, c),
                contribs@[i as int]@,
            );
        }
        let c = &contribs[i];
        let keep: bool = match c.device {
            Device::Other => true,
            Device::Gamepad(g) => {
                let pv = po_get(prev_owners, g);
                let fv = po_get(feed, g);
                let changed: bool = match (pv, fv) {
                    (Some(po), Some(fo)) => po != fo && c.owner == po,
                    (Some(po), None) => c.owner == po,
                    _ => false,
                };
                let dropped: bool = if crate::tables::u64_contains(disc, g) {
                    match fv {
                        Some(fo) => c.owner == fo,
                        None => match pv {
                            Some(po) => c.owner == po,
                            None => false,
                        },
                    }
                } else {
                    false
                };
                !(changed || dropped)
            },
        };
        if keep {
            let kept = Contrib {
                owner: c.owner,
                mapping: c.mapping,
                device: c.device,
                group: c.group.clone(),
                value: c.value,
            };
            assert(kept@ == contribs@[i as int]@);
            proof {
                lemma_views_push(out@, kept);
            }
            out.push(kept);
        }
        i = i + 1;
    }
    assert(views(contribs@).take(contribs@.len() as int) =~= views(contribs@));
    *contribs = out;

    let mut mv_out: Vec<(Device, Binding, i64)> = Vec::new();
    let mut j: usize = 0;
    while j < mod_vals.len()
        invariant
            j <= mod_vals.len(),
            mv_out@ == mod_vals@.take(j as int).filter(keep_mv_row(disc@)),
        decreases mod_vals.len() - j,
    {
        proof {
            assert(mod_vals@.take(j + 1) =~= mod_vals@.take(j as int).push(mod_vals@[j as int]));
            lemma_filter_push(mod_vals@.take(j as int), keep_mv_row(disc@), mod_vals@[j as int]);
        }
        let (ed, eb, ev) = mod_vals[j];
        let keep: bool = match ed {
            Device::Other => true,
            Device::Gamepad(g) => !crate::tables::u64_contains(disc, g),
        };
        if keep {
            mv_out.push((ed, eb, ev));
            assert(mod_vals@[j as int] == (ed, eb, ev));
        }
        j = j + 1;
    }
    assert(mod_vals@.take(mod_vals@.len() as int) =~= mod_vals@);
    *mod_vals = mv_out;

    let mut po_out: Vec<(u64, i32)> = Vec::new();
    let mut k: usize = 0;
    while k < feed.len()
        invariant
            k <= feed.len(),
            po_out@ == feed@.take(k as int).filter(keep_po_row(disc@)),
        decreases feed.len() - k,
    {
        proof {
            assert(feed@.take(k + 1) =~= feed@.take(k as int).push(feed@[k as int]));
            lemma_filter_push(feed@.take(k as int), keep_po_row(disc@), feed@[k as int]);
        }
        let (eg, eo) = feed[k];
        if !crate::tables::u64_contains(disc, eg) {
            po_out.push((eg, eo));
            assert(feed@[k as int] == (eg, eo));
        }
        k = k + 1;
    }
    assert(feed@.take(feed@.len() as int) =~= feed@);
    *prev_owners = po_out;
}

/// Whether a chord's bindings reach the keyboard-and-mouse channel.
pub open spec fn group_has_other(g: crate::values::BindingGroupView) -> bool {
    g.primary.is_other_binding() || exists|j: int|
        0 <= j < g.modifiers.len() && (#[trigger] g.modifiers[j]).is_other_binding()
}

/// Tests whether a chord's bindings reach the keyboard-and-mouse channel.
pub(crate) fn group_has_other_exec(g: &crate::values::BindingGroup) -> (r: bool)
    ensures
        r == group_has_other(g@),
{
    if g.primary.is_other_device() {
        return true;
    }
    let mut i: usize = 0;
    while i < g.modifiers.len()
        invariant
            i <= g.modifiers.len(),
            forall|j: int| 0 <= j < i ==> !(#[trigger] g.modifiers@[j]).is_other_binding(),
        decreases g.modifiers.len() - i,
    {
        if g.modifiers[i].is_other_device() {
            assert(g@.modifiers[i as int].is_other_binding());
            return true;
        }
        i = i + 1;
    }
    false
}

/// Whether the registry binds `(owner, mapping)` through exactly `g`.
pub open spec fn chord_configured(
    cfgs: Seq<ConfigV>,
    owner: i32,
    mapping: u32,
    g: crate::values::BindingGroupView,
) -> bool {
    exists|i: int|
        0 <= i < cfgs.len() && (#[trigger] cfgs[i]).owner == owner && cfgs[i].mapping == mapping
            && cfgs[i].group == g
}

/// Tests whether the registry binds `(owner, mapping)` through exactly `g`.
pub(crate) fn chord_configured_exec(
    configs: &Vec<crate::engine::BindConfig>,
    owner: i32,
    mapping: u32,
    g: &crate::values::BindingGroup,
) -> (r: bool)
    ensures
        r == chord_configured(views(configs@), owner, mapping, g@),
{
    let mut i: usize = 0;
    while i < configs.len()
        invariant
            i <= configs.len(),
            forall|j: int|
                0 <= j < i ==> !((#[trigger] views(configs@)[j]).owner == owner
                    && views(configs@)[j].mapping == mapping && views(configs@)[j].group == g@),
        decreases configs.len() - i,
    {
        let c = &configs[i];
        assert(views(configs@)[i as int] == configs@[i as int]@);
        if c.owner == owner && c.mapping == mapping && c.group.group_eq(g) {
            return true;
        }
        i = i + 1;
    }
    assert(forall|j: int|
        0 <= j < views(configs@).len() ==> !((#[trigger] views(configs@)[j]).owner == owner
            && views(configs@)[j].mapping == mapping && views(configs@)[j].group == g@));
    false
}

/// Tests whether the registry holds any row for `(owner, mapping)`.
pub(crate) fn pair_configured_exec(
    configs: &Vec<crate::engine::BindConfig>,
    owner: i32,
    mapping: u32,
) -> (r: bool)
    ensures
        r == pair_configured(views(configs@), owner, mapping),
{
    let mut i: usize = 0;
    while i < configs.len()
        invariant
            i <= configs.len(),
            forall|j: int|
                0 <= j < i ==> !((#[trigger] views(configs@)[j]).owner == owner
                    && views(configs@)[j].mapping == mapping),
        decreases configs.len() - i,
    {
        let c = &configs[i];
        assert(views(configs@)[i as int] == configs@[i as int]@);
        if c.owner == owner && c.mapping == mapping {
            return true;
        }
        i = i + 1;
    }
    false
}

/// The owners whose configuration reaches the keyboard-and-mouse channel,
/// first appearance first.
pub open spec fn other_owners_of(cfgs: Seq<ConfigV>) -> Seq<i32>
    decreases cfgs.len(),
{
    if cfgs.len() == 0 {
        Seq::empty()
    } else {
        let prior = other_owners_of(cfgs.drop_last());
        let c = cfgs.last();
        if group_has_other(c.group) && !prior.contains(c.owner) {
            prior.push(c.owner)
        } else {
            prior
        }
    }
}

/// Pruning after a configuration change: contributions whose chord is no
/// longer configured go, repeat timers of unconfigured pairs go, and the
/// set of owners with keyboard-or-mouse bindings is rebuilt.
pub(crate) fn prune_configs(
    contribs: &mut Vec<Contrib>,
    rep_states: &mut Vec<RepState>,
    other_owners: &mut Vec<i32>,
    configs: &Vec<crate::engine::BindConfig>,
)
    ensures
        views(final(contribs)@) == views(old(contribs)@).filter(
            |c: ContribV| row_configured(views(configs@), c),
        ),
        final(rep_states)@ == old(rep_states)@.filter(
            |r: RepState| pair_configured(views(configs@), r.owner, r.mapping),
        ),
        final(other_owners)@ == other_owners_of(views(configs@)),
{
    let mut out: Vec<Contrib> = Vec::new();
    let mut i: usize = 0;
    while i < contribs.len()
        invariant
            i <= contribs.len(),
            views(out@) == views(contribs@).take(i as int).filter(
                |c: ContribV| row_configured(views(configs@), c),
            ),
        decreases contribs.len() - i,
    {
        proof {
            lemma_views_take(contribs@, i as int);
            lemma_views_take(contribs@, i + 1);
            assert(views(contribs@).take(i + 1) =~= views(contribs@).take(i as int).push(
                contribs@[i as int]@,
            ));
            lemma_filter_push(
                views(contribs@).take(i as int),
                |c: ContribV| row_configured(views(configs@), c),
                contribs@[i as int]@,
            );
        }
        let c = &contribs[i];
        if chord_configured_exec(configs, c.owner, c.mapping, &c.group) {
            let kept = Contrib {
                owner: c.owner,
                mapping: c.mapping,
                device: c.device,
                group: c.group.clone(),
                value: c.value,
            };
            assert(kept@ == contribs@[i as int]@);
            proof {
                lemma_views_push(out@, kept);
            }
            out.push(kept);
        }
        i = i + 1;
    }
    assert(views(contribs@).take(contribs@.len() as int) =~= views(contribs@));
    *contribs = out;

    let mut rs_out: Vec<RepState> = Vec::new();
    let mut j: usize = 0;
    while j < rep_states.len()
        invariant
            j <= rep_states.len(),
            rs_out@ == rep_states@.take(j as int).filter(
                |r: RepState| pair_configured(views(configs@), r.owner, r.mapping),
            ),
        decreases rep_states.len() - j,
    {
        proof {
            assert(rep_states@.take(j + 1) =~= rep_states@.take(j as int).push(
                rep_states@[j as int],
            ));
            lemma_filter_push(
                rep_states@.take(j as int),
                |r: RepState| pair_configured(views(configs@), r.owner, r.mapping),
                rep_states@[j as int],
            );
        }
        let row = rep_states[j];
        if pair_configured_exec(configs, row.owner, row.mapping) {
            rs_out.push(row);
        }
        j = j + 1;
    }
    assert(rep_states@.take(rep_states@.len() as int) =~= rep_states@);
    *rep_states = rs_out;

    let mut own_out: Vec<i32> = Vec::new();
    let mut k: usize = 0;
    assert(views(configs@).take(0) =~= Seq::<ConfigV>::empty());
    while k < configs.len()
        invariant
            k <= configs.len(),
            own_out@ == other_owners_of(views(configs@).take(k as int)),
        decreases configs.len() - k,
    {
        proof {
            lemma_views_take(configs@, k as int);
            lemma_views_take(configs@, k + 1);
            assert(views(configs@).take(k + 1) =~= views(configs@).take(k as int).push(
                configs@[k as int]@,
            ));
            assert(views(configs@).take(k + 1).drop_last() =~= views(configs@).take(k as int));
        }
        let c = &configs[k];
        assert(views(configs@)[k as int] == configs@[k as int]@);
        if group_has_other_exec(&c.group) {
            crate::tables::owner_insert(&mut own_out, c.owner);
        }
        k = k + 1;
    }
    assert(views(configs@).take(configs@.len() as int) =~= views(configs@));
    *other_owners = own_out;
}

/// The cached binding values after one binding event: an immediate event
/// leaves the cache alone; an event on a capturing device or with a zero
/// value clears its row; any other event stores its value.
pub open spec fn mods_after_one(
    devs: Seq<Device>,
    ex: Seq<Binding>,
    inc: Seq<Binding>,
    mods: Seq<(Device, Binding, i64)>,
    ev: BindingInputEvent,
) -> Seq<(Device, Binding, i64)> {
    if ev.immediate {
        mods
    } else if (devs.contains(ev.device) && capturable(ex, inc, ev.binding)) || ev.value == 0 {
        mods.filter(crate::tables::not_mv(ev.device, ev.binding))
    } else {
        mods.filter(crate::tables::not_mv(ev.device, ev.binding)).push(
            (ev.device, ev.binding, ev.value),
        )
    }
}

/// The cached binding values after a whole tick's binding events.
pub open spec fn mods_after(
    devs: Seq<Device>,
    ex: Seq<Binding>,
    inc: Seq<Binding>,
    mods: Seq<(Device, Binding, i64)>,
    inputs: Seq<BindingInputEvent>,
) -> Seq<(Device, Binding, i64)>
    decreases inputs.len(),
{
    if inputs.len() == 0 {
        mods
    } else {
        mods_after(
            devs,
            ex,
            inc,
            mods_after_one(devs, ex, inc, mods, inputs[0]),
            inputs.drop_first(),
        )
    }
}

/// Maintains the cache of last non-zero binding values: an event on a
/// capturing device or a zero value clears its row, any other non-immediate
/// event stores its value.
pub(crate) fn track_modifiers(
    mod_vals: &mut Vec<(Device, Binding, i64)>,
    capture_devices: &Vec<Device>,
    excludes: &Vec<Binding>,
    includes: &Vec<Binding>,
    inputs: &Vec<BindingInputEvent>,
)
    requires
        forall|j: int|
            0 <= j < old(mod_vals)@.len() ==> -crate::values::VAL_MAX <= (
            #[trigger] old(mod_vals)@[j]).2 <= crate::values::VAL_MAX,
        forall|j: int|
            0 <= j < inputs@.len() ==> -crate::values::VAL_MAX <= (
            #[trigger] inputs@[j]).value <= crate::values::VAL_MAX,
    ensures
        final(mod_vals)@ == mods_after(
            capture_devices@,
            excludes@,
            includes@,
            old(mod_vals)@,
            inputs@,
        ),
        forall|j: int|
            0 <= j < final(mod_vals)@.len() ==> -crate::values::VAL_MAX <= (
            #[trigger] final(mod_vals)@[j]).2 <= crate::values::VAL_MAX,
{
    let ghost full = mods_after(capture_devices@, excludes@, includes@, old(mod_vals)@, inputs@);
    let mut i: usize = 0;
    assert(inputs@.skip(0) =~= inputs@);
    while i < inputs.len()
        invariant
            i <= inputs.len(),
            full == mods_after(
                capture_devices@,
                excludes@,
                includes@,
                mod_vals@,
                inputs@.skip(i as int),
            ),
            forall|j: int|
                0 <= j < mod_vals@.len() ==> -crate::values::VAL_MAX <= (
                #[trigger] mod_vals@[j]).2 <= crate::values::VAL_MAX,
            forall|j: int|
                0 <= j < inputs@.len() ==> -crate::values::VAL_MAX <= (
                #[trigger] inputs@[j]).value <= crate::values::VAL_MAX,
        decreases inputs.len() - i,
    {
        proof {
            assert(inputs@.skip(i as int)[0] == inputs@[i as int]);
            assert(inputs@.skip(i as int).drop_first() =~= inputs@.skip(i + 1));
        }
        let ev = inputs[i];
        if !ev.immediate {
            let in_capture = crate::tables::dev_contains(capture_devices, ev.device)
                && is_capturable(excludes, includes, ev.binding);
            let ghost before = mod_vals@;
            if in_capture || ev.value == 0 {
                crate::tables::mv_remove(mod_vals, ev.device, ev.binding);
            } else {
                crate::tables::mv_set(mod_vals, ev.device, ev.binding, ev.value);
            }
            proof {
                assert(mod_vals@ == mods_after_one(
                    capture_devices@,
                    excludes@,
                    includes@,
                    before,
                    inputs@[i as int],
                ));
                lemma_filter_sub(before, crate::tables::not_mv(ev.device, ev.binding));
                assert forall|j: int|
                    0 <= j < mod_vals@.len() implies -crate::values::VAL_MAX <= (
                    #[trigger] mod_vals@[j]).2 <= crate::values::VAL_MAX by {
                    let row = mod_vals@[j];
                    let fpart = before.filter(crate::tables::not_mv(ev.device, ev.binding));
                    if j < fpart.len() {
                        assert(row == fpart[j]);
                        assert(before.contains(row));
                        let wx = choose|wx: int| 0 <= wx < before.len() && before[wx] == row;
                        assert(-crate::values::VAL_MAX <= before[wx].2 <= crate::values::VAL_MAX);
                    }
                }
            }
        } else {
            proof {
                assert(mod_vals@ == mods_after_one(
                    capture_devices@,
                    excludes@,
                    includes@,
                    mod_vals@,
                    inputs@[i as int],
                ));
            }
        }
        i = i + 1;
    }
    assert(inputs@.skip(inputs@.len() as int) =~= Seq::<BindingInputEvent>::empty());
}

/// One registry row's share of the modifier-release cascade: a live
/// contribution through a chord that uses the released binding as a
/// modifier on that device is removed.
pub open spec fn cascade_cfg_step(
    contribs: Seq<ContribV>,
    c: ConfigV,
    o: i32,
    dev: Device,
    b: Binding,
) -> Seq<ContribV> {
    if c.owner == o && c.group.modifiers.contains(b) && crate::engine::cv_spec(
        contribs,
        o,
        c.mapping,
        dev,
        c.group,
    ) != 0 {
        contribs.filter(crate::engine::not_contrib(o, c.mapping, dev, c.group))
    } else {
        contribs
    }
}

/// The cascade over every registry row, in order.
pub open spec fn cascade_cfgs(
    contribs: Seq<ContribV>,
    cfgs: Seq<ConfigV>,
    o: i32,
    dev: Device,
    b: Binding,
) -> Seq<ContribV>
    decreases cfgs.len(),
{
    if cfgs.len() == 0 {
        contribs
    } else {
        cascade_cfgs(cascade_cfg_step(contribs, cfgs[0], o, dev, b), cfgs.drop_first(), o, dev, b)
    }
}

/// The cascade over every owner a device routes to, in order.
pub open spec fn cascade_owners(
    contribs: Seq<ContribV>,
    cfgs: Seq<ConfigV>,
    owners: Seq<i32>,
    dev: Device,
    b: Binding,
) -> Seq<ContribV>
    decreases owners.len(),
{
    if owners.len() == 0 {
        contribs
    } else {
        cascade_owners(
            cascade_cfgs(contribs, cfgs, owners[0], dev, b),
            cfgs,
            owners.drop_first(),
            dev,
            b,
        )
    }
}

/// The whole modifier-release cascade for one tick: every non-immediate
/// binding event whose value returned to zero silences, for each owner its
/// device routes to, every live chord using it as a modifier.
pub open spec fn cascade_inputs(
    contribs: Seq<ContribV>,
    cfgs: Seq<ConfigV>,
    feed: Seq<(u64, i32)>,
    others: Seq<i32>,
    inputs: Seq<BindingInputEvent>,
) -> Seq<ContribV>
    decreases inputs.len(),
{
    if inputs.len() == 0 {
        contribs
    } else {
        let ev = inputs[0];
        let c1 = if ev.value == 0 && !ev.immediate {
            cascade_owners(contribs, cfgs, owners_of(feed, others, ev.device), ev.device, ev.binding)
        } else {
            contribs
        };
        cascade_inputs(c1, cfgs, feed, others, inputs.drop_first())
    }
}

/// The modifier-release cascade: when a held binding returns to zero,
/// every live chord that uses it as a modifier on that device is silenced.
#[verifier::loop_isolation(false)]
#[verifier::rlimit(60)]
pub(crate) fn modifier_cascade(
    contribs: &mut Vec<Contrib>,
    configs: &Vec<crate::engine::BindConfig>,
    feed: &Vec<(u64, i32)>,
    others: &Vec<i32>,
    inputs: &Vec<BindingInputEvent>,
)
    ensures
        views(final(contribs)@) == cascade_inputs(
            views(old(contribs)@),
            views(configs@),
            feed@,
            others@,
            inputs@,
        ),
        forall|x: ContribV|
            views(final(contribs)@).contains(x) ==> views(old(contribs)@).contains(x),
        inputs@.len() == 0 ==> final(contribs)@ == old(contribs)@,
{
    if inputs.len() == 0 {
        return;
    }
    let ghost full = cascade_inputs(
        views(contribs@),
        views(configs@),
        feed@,
        others@,
        inputs@,
    );
    let mut i: usize = 0;
    assert(inputs@.skip(0) =~= inputs@);
    while i < inputs.len()
        invariant
            i <= inputs.len(),
            full == cascade_inputs(
                views(contribs@),
                views(configs@),
                feed@,
                others@,
                inputs@.skip(i as int),
            ),
            forall|x: ContribV|
                views(contribs@).contains(x) ==> views(old(contribs)@).contains(x),
        decreases inputs.len() - i,
    {
        proof {
            assert(inputs@.skip(i as int)[0] == inputs@[i as int]);
            assert(inputs@.skip(i as int).drop_first() =~= inputs@.skip(i + 1));
        }
        let ev = inputs[i];
        if ev.value == 0 && !ev.immediate {
            let owners = owners_for(feed, others, ev.device);
            let ghost owners_full = cascade_owners(
                views(contribs@),
                views(configs@),
                owners@,
                ev.device,
                ev.binding,
            );
            let mut w: usize = 0;
            assert(owners@.skip(0) =~= owners@);
            while w < owners.len()
                invariant
                    w <= owners.len(),
                    owners_full == cascade_owners(
                        views(contribs@),
                        views(configs@),
                        owners@.skip(w as int),
                        ev.device,
                        ev.binding,
                    ),
                    forall|x: ContribV|
                        views(contribs@).contains(x) ==> views(old(contribs)@).contains(x),
                decreases owners.len() - w,
            {
                proof {
                    assert(owners@.skip(w as int)[0] == owners@[w as int]);
                    assert(owners@.skip(w as int).drop_first() =~= owners@.skip(w + 1));
                }
                let o: i32 = owners[w];
                let ghost cfgs_full = cascade_cfgs(
                    views(contribs@),
                    views(configs@),
                    o,
                    ev.device,
                    ev.binding,
                );
                let mut j: usize = 0;
                assert(views(configs@).skip(0) =~= views(configs@));
                while j < configs.len()
                    invariant
                        j <= configs.len(),
                        cfgs_full == cascade_cfgs(
                            views(contribs@),
                            views(configs@).skip(j as int),
                            o,
                            ev.device,
                            ev.binding,
                        ),
                        forall|x: ContribV|
                            views(contribs@).contains(x) ==> views(old(contribs)@).contains(x),
                    decreases configs.len() - j,
                {
                    proof {
                        assert(views(configs@).skip(j as int)[0] == configs@[j as int]@);
                        assert(views(configs@).skip(j as int).drop_first() =~= views(
                            configs@,
                        ).skip(j + 1));
                    }
                    let c = &configs[j];
                    let ghost step = cascade_cfg_step(
                        views(contribs@),
                        configs@[j as int]@,
                        o,
                        ev.device,
                        ev.binding,
                    );
                    if c.owner == o && crate::tables::bnd_contains(&c.group.modifiers, ev.binding)
                    {
                        let val = crate::engine::contrib_get(
                            contribs,
                            o,
                            c.mapping,
                            ev.device,
                            &c.group,
                        );
                        if val != 0 {
                            let ghost before = views(contribs@);
                            crate::engine::contrib_remove(contribs, o, c.mapping, ev.device, &c.group);
                            proof {
                                lemma_filter_sub(
                                    before,
                                    crate::engine::not_contrib(o, c.mapping, ev.device, c.group@),
                                );
                                assert(views(contribs@) == step);
                            }
                        } else {
                            assert(views(contribs@) == step);
                        }
                    } else {
                        assert(views(contribs@) == step);
                    }
                    j = j + 1;
                }
                assert(views(configs@).skip(views(configs@).len() as int) =~= Seq::<
                    ConfigV,
                >::empty());
                assert(views(contribs@) == cfgs_full);
                w = w + 1;
            }
            assert(owners@.skip(owners@.len() as int) =~= Seq::<i32>::empty());
            assert(views(contribs@) == owners_full);
        }
        i = i + 1;
    }
    assert(inputs@.skip(inputs@.len() as int) =~= Seq::<BindingInputEvent>::empty());
}

/// Whether no two registry rows of one owner share a primary binding.
/// Under this condition chord contention can never see two distinct active
/// chords, so a tick always succeeds.
pub open spec fn unique_primaries(cfgs: Seq<ConfigV>) -> bool {
    forall|i: int, j: int|
        0 <= i < j < cfgs.len() ==> !((#[trigger] cfgs[i]).owner == (#[trigger] cfgs[j]).owner
            && cfgs[i].group.primary == cfgs[j].group.primary)
}

/// Whether every modifier of a chord counts as held on `device`: its
/// cached value, thresholded by the chord's modifier dead value, must be
/// non-zero, and while the device is in rebind capture a modifier that
/// takes part in capture does not count.
pub open spec fn modifiers_held_spec(
    mods: Seq<(Device, Binding, i64)>,
    dev: Device,
    g: crate::values::BindingGroupView,
    dead: i64,
    capturing: bool,
    ex: Seq<Binding>,
    inc: Seq<Binding>,
) -> bool {
    forall|k: int|
        0 <= k < g.modifiers.len() ==> ({
            let mv = crate::tables::mv_spec(mods, dev, #[trigger] g.modifiers[k]);
            &&& (if mv < 0 {
                -(mv as int)
            } else {
                mv as int
            }) >= dead
            &&& mv != 0
            &&& !(capturing && capturable(ex, inc, g.modifiers[k]))
        })
}

/// Tests whether every modifier of a chord currently counts as held on
/// `device`, with capture-participating modifiers blocked while the device
/// captures.
fn modifiers_held(
    mod_vals: &Vec<(Device, Binding, i64)>,
    device: Device,
    g: &crate::values::BindingGroup,
    modifier_dead: i64,
    capturing: bool,
    excludes: &Vec<Binding>,
    includes: &Vec<Binding>,
) -> (r: bool)
    requires
        forall|j: int|
            0 <= j < mod_vals@.len() ==> -crate::values::VAL_MAX <= (
            #[trigger] mod_vals@[j]).2 <= crate::values::VAL_MAX,
    ensures
        r == modifiers_held_spec(
            mod_vals@,
            device,
            g@,
            modifier_dead,
            capturing,
            excludes@,
            includes@,
        ),
{
    let mut i: usize = 0;
    while i < g.modifiers.len()
        invariant
            i <= g.modifiers.len(),
            forall|k: int|
                0 <= k < i ==> ({
                    let mv = crate::tables::mv_spec(mod_vals@, device, #[trigger] g@.modifiers[k]);
                    &&& (if mv < 0 {
                        -(mv as int)
                    } else {
                        mv as int
                    }) >= modifier_dead
                    &&& mv != 0
                    &&& !(capturing && capturable(excludes@, includes@, g@.modifiers[k]))
                }),
            forall|j: int|
                0 <= j < mod_vals@.len() ==> -crate::values::VAL_MAX <= (
                #[trigger] mod_vals@[j]).2 <= crate::values::VAL_MAX,
        decreases g.modifiers.len() - i,
    {
        let mv = crate::tables::mv_get(mod_vals, device, g.modifiers[i]);
        proof {
            crate::tables::lemma_mv_spec_bounded(mod_vals@, device, g.modifiers@[i as int]);
        }
        let av: i64 = if mv < 0 { -mv } else { mv };
        let blocked = capturing && is_capturable(excludes, includes, g.modifiers[i]);
        let held = av >= modifier_dead && mv != 0 && !blocked;
        if !held {
            assert(!modifiers_held_spec(
                mod_vals@,
                device,
                g@,
                modifier_dead,
                capturing,
                excludes@,
                includes@,
            )) by {
                assert(g@.modifiers[i as int] == g.modifiers@[i as int]);
            }
            return false;
        }
        i = i + 1;
    }
    true
}

/// The contribution a primary value makes through a chord: zeroed below
/// the chord's primary dead threshold, then scaled (the product's
/// magnitude is rounded toward zero).
pub open spec fn contribution_of(raw: i64, primary_dead: i64, scale: i64) -> i64 {
    let av = if raw < 0 {
        -(raw as int)
    } else {
        raw as int
    };
    let dzv: int = if av < primary_dead {
        0
    } else {
        raw as int
    };
    let neg = (dzv < 0) != (scale < 0);
    let ma = if dzv < 0 {
        -dzv
    } else {
        dzv
    };
    let mb = if scale < 0 {
        -(scale as int)
    } else {
        scale as int
    };
    let q = (ma * mb) / (crate::values::UNIT as int);
    if neg {
        (-q) as i64
    } else {
        q as i64
    }
}

/// Everything primary resolution reads but never writes: the registry, the
/// repeat configuration, the cached modifier values, the capture
/// configuration and the ownership routing.
pub struct ResolveEnv {
    pub cfgs: Seq<ConfigV>,
    pub repeats: Seq<(u32, i64, i64)>,
    pub mods: Seq<(Device, Binding, i64)>,
    pub devs: Seq<Device>,
    pub ex: Seq<Binding>,
    pub inc: Seq<Binding>,
    pub feed: Seq<(u64, i32)>,
    pub others: Seq<i32>,
}

/// Whether registry row `i` holds a live chord for this primary binding on
/// this device: the row matches owner and primary and has a non-zero
/// stored contribution.
pub open spec fn row_active(
    cfgs: Seq<ConfigV>,
    contribs: Seq<ContribV>,
    o: i32,
    dev: Device,
    b: Binding,
    i: int,
) -> bool {
    &&& cfgs[i].owner == o
    &&& cfgs[i].group.primary == b
    &&& crate::engine::cv_spec(contribs, o, cfgs[i].mapping, dev, cfgs[i].group) != 0
}

/// The positions of the live chords for this primary on this device, in
/// registry order.
pub open spec fn active_idxs(
    cfgs: Seq<ConfigV>,
    contribs: Seq<ContribV>,
    o: i32,
    dev: Device,
    b: Binding,
) -> Seq<int>
    decreases cfgs.len(),
{
    if cfgs.len() == 0 {
        Seq::empty()
    } else {
        let prior = active_idxs(cfgs.drop_last(), contribs, o, dev, b);
        if row_active(cfgs, contribs, o, dev, b, cfgs.len() - 1) {
            prior.push(cfgs.len() - 1)
        } else {
            prior
        }
    }
}

/// Whether two distinct live chords share this primary on this device: the
/// internal-consistency violation that stops a tick.
pub open spec fn active_conflict(
    cfgs: Seq<ConfigV>,
    contribs: Seq<ContribV>,
    o: i32,
    dev: Device,
    b: Binding,
) -> bool {
    exists|p: int, q: int|
        0 <= p < q < cfgs.len() && row_active(cfgs, contribs, o, dev, b, p) && row_active(
            cfgs,
            contribs,
            o,
            dev,
            b,
            q,
        ) && cfgs[p].group != cfgs[q].group
}

/// Whether registry row `i` is a selectable chord for a fresh press of
/// this primary: owner and primary match and all its modifiers count as
/// held (capture-participating modifiers are blocked while the device
/// captures).
pub open spec fn row_eligible(
    cfgs: Seq<ConfigV>,
    mods: Seq<(Device, Binding, i64)>,
    o: i32,
    dev: Device,
    b: Binding,
    capturing: bool,
    ex: Seq<Binding>,
    inc: Seq<Binding>,
    i: int,
) -> bool {
    &&& cfgs[i].owner == o
    &&& cfgs[i].group.primary == b
    &&& modifiers_held_spec(
        mods,
        dev,
        cfgs[i].group,
        cfgs[i].modifier_dead,
        capturing,
        ex,
        inc,
    )
}

/// The positions of the selectable chords, in registry order.
pub open spec fn eligible_idxs(
    cfgs: Seq<ConfigV>,
    mods: Seq<(Device, Binding, i64)>,
    o: i32,
    dev: Device,
    b: Binding,
    capturing: bool,
    ex: Seq<Binding>,
    inc: Seq<Binding>,
) -> Seq<int>
    decreases cfgs.len(),
{
    if cfgs.len() == 0 {
        Seq::empty()
    } else {
        let prior = eligible_idxs(cfgs.drop_last(), mods, o, dev, b, capturing, ex, inc);
        if row_eligible(cfgs, mods, o, dev, b, capturing, ex, inc, cfgs.len() - 1) {
            prior.push(cfgs.len() - 1)
        } else {
            prior
        }
    }
}

/// The largest modifier count among the listed rows (below zero for none).
pub open spec fn max_mods(cfgs: Seq<ConfigV>, idxs: Seq<int>) -> int
    decreases idxs.len(),
{
    if idxs.len() == 0 {
        -1
    } else {
        let prior = max_mods(cfgs, idxs.drop_last());
        let l = cfgs[idxs.last()].group.modifiers.len() as int;
        if l > prior {
            l
        } else {
            prior
        }
    }
}

/// The chords a fresh press selects: the eligible ones tied at the largest
/// modifier count, in registry order.
pub open spec fn selected_idxs(
    cfgs: Seq<ConfigV>,
    mods: Seq<(Device, Binding, i64)>,
    o: i32,
    dev: Device,
    b: Binding,
    capturing: bool,
    ex: Seq<Binding>,
    inc: Seq<Binding>,
) -> Seq<int> {
    let el = eligible_idxs(cfgs, mods, o, dev, b, capturing, ex, inc);
    el.filter(|i: int| cfgs[i].group.modifiers.len() as int == max_mods(cfgs, el))
}

/// What processing one found chord does for one binding event: an
/// immediate event emits a discrete impulse pulse and persists nothing; a
/// held event stores its contribution and emits value and edge events.
/// Either way a direction change disarms the mapping's repeat timer.
pub open spec fn process_one(
    env: ResolveEnv,
    contribs: Seq<ContribV>,
    rep: Seq<RepState>,
    o: i32,
    idx: int,
    ev: BindingInputEvent,
) -> (Seq<ContribV>, Seq<RepState>, Seq<InputMapEvent>) {
    let c = env.cfgs[idx];
    if ev.immediate {
        let last = agg(contribs, o, c.mapping);
        let rep1 = if crate::tables::rp_spec(env.repeats, c.mapping) is Some {
            disarm_spec(rep, o, c.mapping)
        } else {
            rep
        };
        (
            contribs,
            rep1,
            seq![
                InputMapEvent::TempValueChanged { mapping: c.mapping, val: ev.value as i128, owner: o },
            ] + crate::edge::pulse_events(c.mapping, o, dir_of(last), dir_of(ev.value as int)),
        )
    } else {
        let v = contribution_of(ev.value, c.primary_dead, c.scale);
        let contribs1 = contribs.filter(
            crate::engine::not_contrib(o, c.mapping, ev.device, c.group),
        ).push(ContribV { owner: o, mapping: c.mapping, device: ev.device, group: c.group, value: v });
        let last = agg(contribs, o, c.mapping);
        let cur = agg(contribs1, o, c.mapping);
        let evs = (if last != cur {
            seq![InputMapEvent::ValueChanged { mapping: c.mapping, val: cur as i128, owner: o }]
        } else {
            Seq::empty()
        }) + transition_events(c.mapping, o, dir_of(last), dir_of(cur));
        let rep1 = if dir_of(last) != dir_of(cur) && crate::tables::rp_spec(
            env.repeats,
            c.mapping,
        ) is Some {
            disarm_spec(rep, o, c.mapping)
        } else {
            rep
        };
        (contribs1, rep1, evs)
    }
}

/// The found chords processed in order.
pub open spec fn process_founds(
    env: ResolveEnv,
    contribs: Seq<ContribV>,
    rep: Seq<RepState>,
    o: i32,
    idxs: Seq<int>,
    ev: BindingInputEvent,
) -> (Seq<ContribV>, Seq<RepState>, Seq<InputMapEvent>)
    decreases idxs.len(),
{
    if idxs.len() == 0 {
        (contribs, rep, Seq::empty())
    } else {
        let s1 = process_one(env, contribs, rep, o, idxs[0], ev);
        let r = process_founds(env, s1.0, s1.1, o, idxs.drop_first(), ev);
        (r.0, r.1, s1.2 + r.2)
    }
}

/// One owner's share of resolving one binding event: nothing while the
/// event is being captured; a failure when two distinct live chords share
/// its primary; otherwise the live chords continue, or a fresh press
/// selects the eligible chords with the most held modifiers.
pub open spec fn resolve_owner(
    env: ResolveEnv,
    contribs: Seq<ContribV>,
    rep: Seq<RepState>,
    o: i32,
    ev: BindingInputEvent,
) -> Result<(Seq<ContribV>, Seq<RepState>, Seq<InputMapEvent>), InputMapError> {
    if env.devs.contains(ev.device) && capturable(env.ex, env.inc, ev.binding) {
        Ok((contribs, rep, Seq::empty()))
    } else if active_conflict(env.cfgs, contribs, o, ev.device, ev.binding) {
        Err(InputMapError::MultipleActiveChords { device: ev.device, binding: ev.binding })
    } else {
        let a = active_idxs(env.cfgs, contribs, o, ev.device, ev.binding);
        let idxs = if a.len() > 0 {
            a
        } else {
            selected_idxs(
                env.cfgs,
                env.mods,
                o,
                ev.device,
                ev.binding,
                env.devs.contains(ev.device),
                env.ex,
                env.inc,
            )
        };
        Ok(process_founds(env, contribs, rep, o, idxs, ev))
    }
}

/// Prepends already-emitted events to a resolution result.
pub open spec fn ok_prepend(
    evs: Seq<InputMapEvent>,
    r: Result<(Seq<ContribV>, Seq<RepState>, Seq<InputMapEvent>), InputMapError>,
) -> Result<(Seq<ContribV>, Seq<RepState>, Seq<InputMapEvent>), InputMapError> {
    match r {
        Ok(t) => Ok((t.0, t.1, evs + t.2)),
        Err(e) => Err(e),
    }
}

/// One binding event resolved for every owner it routes to, in order.
pub open spec fn resolve_owners(
    env: ResolveEnv,
    contribs: Seq<ContribV>,
    rep: Seq<RepState>,
    owners: Seq<i32>,
    ev: BindingInputEvent,
) -> Result<(Seq<ContribV>, Seq<RepState>, Seq<InputMapEvent>), InputMapError>
    decreases owners.len(),
{
    if owners.len() == 0 {
        Ok((contribs, rep, Seq::empty()))
    } else {
        match resolve_owner(env, contribs, rep, owners[0], ev) {
            Err(e) => Err(e),
            Ok(s1) => ok_prepend(
                s1.2,
                resolve_owners(env, s1.0, s1.1, owners.drop_first(), ev),
            ),
        }
    }
}

/// A whole tick of primary resolution, event by event.
pub open spec fn resolve_run(
    env: ResolveEnv,
    contribs: Seq<ContribV>,
    rep: Seq<RepState>,
    inputs: Seq<BindingInputEvent>,
) -> Result<(Seq<ContribV>, Seq<RepState>, Seq<InputMapEvent>), InputMapError>
    decreases inputs.len(),
{
    if inputs.len() == 0 {
        Ok((contribs, rep, Seq::empty()))
    } else {
        match resolve_owners(
            env,
            contribs,
            rep,
            owners_of(env.feed, env.others, inputs[0].device),
            inputs[0],
        ) {
            Err(e) => Err(e),
            Ok(s1) => ok_prepend(s1.2, resolve_run(env, s1.0, s1.1, inputs.drop_first())),
        }
    }
}

/// The resolution environment assembled from the engine's tables.
pub open spec fn env_of(
    configs: Seq<crate::engine::BindConfig>,
    repeats: Seq<(u32, i64, i64)>,
    mods: Seq<(Device, Binding, i64)>,
    devs: Seq<Device>,
    ex: Seq<Binding>,
    inc: Seq<Binding>,
    feed: Seq<(u64, i32)>,
    others: Seq<i32>,
) -> ResolveEnv {
    ResolveEnv { cfgs: views(configs), repeats, mods, devs, ex, inc, feed, others }
}

/// Processes the found chords of one owner for one binding event, in
/// order: stores contributions, emits value, edge and impulse events, and
/// disarms repeat timers on direction changes.
#[verifier::loop_isolation(false)]
#[verifier::rlimit(100)]
fn process_found_rows(
    contribs: &mut Vec<Contrib>,
    rep_states: &mut Vec<RepState>,
    configs: &Vec<crate::engine::BindConfig>,
    repeats: &Vec<(u32, i64, i64)>,
    o: i32,
    ev: BindingInputEvent,
    founds: &Vec<usize>,
    out: &mut Vec<InputMapEvent>,
    Ghost(env): Ghost<ResolveEnv>,
)
    requires
        env.cfgs == views(configs@),
        env.repeats == repeats@,
        forall|k: int| 0 <= k < founds@.len() ==> (#[trigger] founds@[k]) < configs@.len(),
        forall|j: int|
            0 <= j < configs@.len() ==> -crate::values::SCALE_MAX <= (
            #[trigger] configs@[j]).scale <= crate::values::SCALE_MAX,
        forall|j: int|
            0 <= j < old(contribs)@.len() ==> -CONTRIB_MAX <= (
            #[trigger] old(contribs)@[j]).value <= CONTRIB_MAX,
        forall|j: int|
            0 <= j < old(rep_states)@.len() ==> 0 <= (#[trigger] old(rep_states)@[j]).accum
                <= crate::values::ACCUM_MAX,
        -crate::values::VAL_MAX <= ev.value <= crate::values::VAL_MAX,
    ensures
        forall|j: int|
            0 <= j < final(contribs)@.len() ==> -CONTRIB_MAX <= (
            #[trigger] final(contribs)@[j]).value <= CONTRIB_MAX,
        forall|j: int|
            0 <= j < final(rep_states)@.len() ==> 0 <= (#[trigger] final(rep_states)@[j]).accum
                <= crate::values::ACCUM_MAX,
        ({
            let pf = process_founds(
                env,
                views(old(contribs)@),
                old(rep_states)@,
                o,
                founds@.map_values(|u: usize| u as int),
                ev,
            );
            views(final(contribs)@) == pf.0 && final(rep_states)@ == pf.1 && final(out)@ == old(
                out,
            )@ + pf.2
        }),
{
    let ghost gidx: Seq<int> = founds@.map_values(|u: usize| u as int);
    let ghost pf_full = process_founds(env, views(contribs@), rep_states@, o, gidx, ev);
    let ghost out_pf = out@;
    let mut f: usize = 0;
    assert(gidx.skip(0) =~= gidx);
    assert(out@.skip(out_pf.len() as int) =~= Seq::<InputMapEvent>::empty());
    while f < founds.len()
        invariant
            f <= founds.len(),
            forall|j2: int|
                0 <= j2 < contribs@.len() ==> -CONTRIB_MAX <= (#[trigger] contribs@[j2]).value
                    <= CONTRIB_MAX,
            forall|j2: int|
                0 <= j2 < rep_states@.len() ==> 0 <= (#[trigger] rep_states@[j2]).accum
                    <= crate::values::ACCUM_MAX,
            pf_full == ({
                let rem = process_founds(
                    env,
                    views(contribs@),
                    rep_states@,
                    o,
                    gidx.skip(f as int),
                    ev,
                );
                (rem.0, rem.1, out@.skip(out_pf.len() as int) + rem.2)
            }),
            out_pf.len() <= out@.len(),
            out@.take(out_pf.len() as int) == out_pf,
        decreases founds.len() - f,
    {
        proof {
            assert(gidx.skip(f as int)[0] == gidx[f as int]);
            assert(gidx.skip(f as int).drop_first() =~= gidx.skip(f + 1));
            assert(gidx[f as int] == founds@[f as int]);
        }
        let cj: usize = founds[f];
        let c = &configs[cj];
        assert(views(configs@)[cj as int] == configs@[cj as int]@);
        let ghost step = process_one(env, views(contribs@), rep_states@, o, cj as int, ev);
        let ghost out_pre = out@;
        if ev.immediate {
            let last: i128 = agg_value(contribs, o, c.mapping);
            let last_dir: i32 = dir_of_val(last);
            let cur_dir: i32 = dir_of_val(ev.value as i128);
            out.push(
                InputMapEvent::TempValueChanged {
                    mapping: c.mapping,
                    val: ev.value as i128,
                    owner: o,
                },
            );
            if crate::tables::rp_get(repeats, c.mapping).is_some() {
                disarm_repeat(rep_states, o, c.mapping);
            }
            crate::edge::emit_pulse(out, c.mapping, o, last_dir, cur_dir);
            proof {
                assert(cur_dir as int == dir_of(ev.value as int));
                assert(out@ =~= out_pre + step.2);
                assert(views(contribs@) == step.0);
                assert(rep_states@ == step.1);
            }
        } else {
            let last: i128 = agg_value(contribs, o, c.mapping);
            let raw: i64 = ev.value;
            let av: i64 = if raw < 0 { -raw } else { raw };
            let dzv: i64 = if av < c.primary_dead { 0 } else { raw };
            let sneg: bool = (dzv < 0) != (c.scale < 0);
            let ma: i128 = (if dzv < 0 { -dzv } else { dzv }) as i128;
            let mb: i128 = (if c.scale < 0 { -c.scale } else { c.scale }) as i128;
            assert(0 <= ma <= crate::values::VAL_MAX as i128);
            assert(0 <= mb <= crate::values::SCALE_MAX as i128);
            assert(ma * mb <= crate::values::VAL_MAX as i128 * (
            crate::values::SCALE_MAX as i128) && 0 <= ma * mb) by (nonlinear_arith)
                requires
                    0 <= ma <= crate::values::VAL_MAX as i128,
                    0 <= mb <= crate::values::SCALE_MAX as i128,
            ;
            let prod: i128 = ma * mb;
            let q: i128 = prod / (crate::values::UNIT as i128);
            assert(0 <= q <= CONTRIB_MAX as i128) by (nonlinear_arith)
                requires
                    0 <= prod <= crate::values::VAL_MAX as i128 * (
                    crate::values::SCALE_MAX as i128),
                    q == prod / (crate::values::UNIT as i128),
            ;
            let v64: i64 = q as i64;
            let input_val: i64 = if sneg { -v64 } else { v64 };
            assert(input_val == contribution_of(ev.value, c.primary_dead, c.scale));
            let ghost before = views(contribs@);
            proof {
                assert forall|wx: int|
                    0 <= wx < before.len() implies -CONTRIB_MAX <= (
                    #[trigger] before[wx]).value <= CONTRIB_MAX by {
                    assert(before[wx] == contribs@[wx]@);
                }
            }
            crate::engine::contrib_set(contribs, o, c.mapping, ev.device, &c.group, input_val);
            proof {
                let p = crate::engine::not_contrib(o, c.mapping, ev.device, c.group@);
                lemma_filter_sub(before, p);
                assert forall|j2: int|
                    0 <= j2 < contribs@.len() implies -CONTRIB_MAX <= (
                    #[trigger] contribs@[j2]).value <= CONTRIB_MAX by {
                    assert(views(contribs@)[j2] == contribs@[j2]@);
                    let vrow = views(contribs@)[j2];
                    if j2 < views(contribs@).len() - 1 {
                        assert(vrow == before.filter(p)[j2]);
                        assert(before.contains(vrow));
                        let wx = choose|wx: int| 0 <= wx < before.len() && before[wx] == vrow;
                        assert(-CONTRIB_MAX <= before[wx].value <= CONTRIB_MAX);
                    } else {
                        assert(vrow.value == input_val);
                    }
                }
                assert(views(contribs@) == step.0);
            }
            let cur: i128 = agg_value(contribs, o, c.mapping);
            if last != cur {
                out.push(InputMapEvent::ValueChanged { mapping: c.mapping, val: cur, owner: o });
            }
            let last_dir: i32 = dir_of_val(last);
            let cur_dir: i32 = dir_of_val(cur);
            if last_dir != cur_dir {
                emit_transition(out, c.mapping, o, last_dir, cur_dir);
                if crate::tables::rp_get(repeats, c.mapping).is_some() {
                    disarm_repeat(rep_states, o, c.mapping);
                }
            }
            proof {
                assert(out@ =~= out_pre + step.2);
                assert(rep_states@ == step.1);
            }
        }
        proof {
            assert(out@.skip(out_pf.len() as int) =~= out_pre.skip(out_pf.len() as int)
                + step.2);
            assert(out@.take(out_pf.len() as int) =~= out_pf);
        }
        f = f + 1;
    }
    assert(gidx.skip(gidx.len() as int) =~= Seq::<int>::empty());
    assert(pf_full.2 =~= final(out)@.skip(out_pf.len() as int));
    assert(final(out)@ =~= out_pf + pf_full.2);
}

/// Resolves one binding event for one owner: nothing while the event is
/// being captured; a failure when two distinct live chords share its
/// primary on its device; otherwise the live chords continue, or a fresh
/// press selects the eligible chords with the most held modifiers, and the
/// found chords are processed.
#[verifier::loop_isolation(false)]
#[verifier::rlimit(100)]
fn resolve_for_owner(
    contribs: &mut Vec<Contrib>,
    rep_states: &mut Vec<RepState>,
    configs: &Vec<crate::engine::BindConfig>,
    mod_vals: &Vec<(Device, Binding, i64)>,
    repeats: &Vec<(u32, i64, i64)>,
    capture_devices: &Vec<Device>,
    excludes: &Vec<Binding>,
    includes: &Vec<Binding>,
    o: i32,
    ev: BindingInputEvent,
    out: &mut Vec<InputMapEvent>,
    Ghost(env): Ghost<ResolveEnv>,
) -> (r: Result<(), InputMapError>)
    requires
        env.cfgs == views(configs@),
        env.repeats == repeats@,
        env.mods == mod_vals@,
        env.devs == capture_devices@,
        env.ex == excludes@,
        env.inc == includes@,
        forall|j: int|
            0 <= j < configs@.len() ==> -crate::values::SCALE_MAX <= (
            #[trigger] configs@[j]).scale <= crate::values::SCALE_MAX,
        forall|j: int|
            0 <= j < old(contribs)@.len() ==> -CONTRIB_MAX <= (
            #[trigger] old(contribs)@[j]).value <= CONTRIB_MAX,
        forall|j: int|
            0 <= j < old(rep_states)@.len() ==> 0 <= (#[trigger] old(rep_states)@[j]).accum
                <= crate::values::ACCUM_MAX,
        forall|j: int|
            0 <= j < mod_vals@.len() ==> -crate::values::VAL_MAX <= (
            #[trigger] mod_vals@[j]).2 <= crate::values::VAL_MAX,
        -crate::values::VAL_MAX <= ev.value <= crate::values::VAL_MAX,
    ensures
        forall|j: int|
            0 <= j < final(contribs)@.len() ==> -CONTRIB_MAX <= (
            #[trigger] final(contribs)@[j]).value <= CONTRIB_MAX,
        forall|j: int|
            0 <= j < final(rep_states)@.len() ==> 0 <= (#[trigger] final(rep_states)@[j]).accum
                <= crate::values::ACCUM_MAX,
        ({
            match resolve_owner(env, views(old(contribs)@), old(rep_states)@, o, ev) {
                Ok(st) => r is Ok && views(final(contribs)@) == st.0 && final(rep_states)@
                    == st.1 && final(out)@ == old(out)@ + st.2,
                Err(e) => r == Err::<(), InputMapError>(e),
            }
        }),
        r is Err ==> !unique_primaries(views(configs@)),
{
    let dev_capturing = crate::tables::dev_contains(capture_devices, ev.device);
    let in_capture = dev_capturing && is_capturable(excludes, includes, ev.binding);
    if in_capture {
        assert(final(out)@ =~= old(out)@ + Seq::<InputMapEvent>::empty());
        return Ok(());
    }
    let ghost scan_contribs = views(contribs@);
    let mut founds: Vec<usize> = Vec::new();
    let mut first_found: usize = 0;
    let mut have_found: bool = false;
    let mut j: usize = 0;
    assert(views(configs@).take(0) =~= Seq::<ConfigV>::empty());
    while j < configs.len()
        invariant
            j <= configs.len(),
            scan_contribs == views(contribs@),
            founds@.map_values(|u: usize| u as int) == active_idxs(
                views(configs@).take(j as int),
                scan_contribs,
                o,
                ev.device,
                ev.binding,
            ),
            forall|k: int| 0 <= k < founds@.len() ==> (#[trigger] founds@[k]) < j,
            have_found <==> founds@.len() > 0,
            have_found ==> first_found < j && founds@[0] == first_found,
            have_found ==> views(configs@)[first_found as int].owner == o && views(configs@)[
                first_found as int].group.primary == ev.binding,
            forall|p: int|
                0 <= p < j && row_active(
                    views(configs@),
                    scan_contribs,
                    o,
                    ev.device,
                    ev.binding,
                    p,
                ) ==> have_found && (#[trigger] views(configs@)[p]).group == views(configs@)[
                    first_found as int].group,
        decreases configs.len() - j,
    {
        proof {
            lemma_views_take(configs@, j as int);
            lemma_views_take(configs@, j + 1);
            assert(views(configs@).take(j + 1) =~= views(configs@).take(j as int).push(
                views(configs@)[j as int],
            ));
            assert(views(configs@).take(j + 1).drop_last() =~= views(configs@).take(j as int));
            assert(forall|p: int|
                0 <= p < j + 1 ==> views(configs@).take(j + 1)[p] == views(configs@)[p]);
        }
        let c = &configs[j];
        assert(views(configs@)[j as int] == configs@[j as int]@);
        if c.owner == o && c.group.primary == ev.binding {
            let val = crate::engine::contrib_get(contribs, o, c.mapping, ev.device, &c.group);
            if val != 0 {
                assert(row_active(
                    views(configs@),
                    scan_contribs,
                    o,
                    ev.device,
                    ev.binding,
                    j as int,
                ));
                if have_found {
                    if !configs[first_found].group.group_eq(&c.group) {
                        proof {
                            let cv = views(configs@);
                            assert(row_active(
                                cv,
                                scan_contribs,
                                o,
                                ev.device,
                                ev.binding,
                                first_found as int,
                            )) by {
                                assert(cv[first_found as int].group == cv[
                                    first_found as int].group);
                                assert(founds@[0] == first_found);
                                let a = active_idxs(
                                    cv.take(j as int),
                                    scan_contribs,
                                    o,
                                    ev.device,
                                    ev.binding,
                                );
                                assert(a[0] == first_found as int);
                                lemma_active_sound(
                                    cv.take(j as int),
                                    scan_contribs,
                                    o,
                                    ev.device,
                                    ev.binding,
                                );
                                assert(row_active(
                                    cv.take(j as int),
                                    scan_contribs,
                                    o,
                                    ev.device,
                                    ev.binding,
                                    first_found as int,
                                ));
                            }
                            assert(active_conflict(cv, scan_contribs, o, ev.device, ev.binding));
                            assert(!unique_primaries(cv)) by {
                                if unique_primaries(cv) {
                                    assert(!(cv[first_found as int].owner == cv[j as int].owner
                                        && cv[first_found as int].group.primary == cv[
                                        j as int].group.primary));
                                }
                            }
                        }
                        return Err(
                            InputMapError::MultipleActiveChords {
                                device: ev.device,
                                binding: ev.binding,
                            },
                        );
                    }
                } else {
                    first_found = j;
                    have_found = true;
                }
                founds.push(j);
                assert(founds@.map_values(|u: usize| u as int) =~= active_idxs(
                    views(configs@).take(j + 1),
                    scan_contribs,
                    o,
                    ev.device,
                    ev.binding,
                ));
            } else {
                assert(!row_active(
                    views(configs@),
                    scan_contribs,
                    o,
                    ev.device,
                    ev.binding,
                    j as int,
                ));
                assert(founds@.map_values(|u: usize| u as int) =~= active_idxs(
                    views(configs@).take(j + 1),
                    scan_contribs,
                    o,
                    ev.device,
                    ev.binding,
                ));
            }
        } else {
            assert(!row_active(
                views(configs@),
                scan_contribs,
                o,
                ev.device,
                ev.binding,
                j as int,
            ));
            assert(founds@.map_values(|u: usize| u as int) =~= active_idxs(
                views(configs@).take(j + 1),
                scan_contribs,
                o,
                ev.device,
                ev.binding,
            ));
        }
        j = j + 1;
    }
    assert(views(configs@).take(configs@.len() as int) =~= views(configs@));
    proof {
        assert(!active_conflict(views(configs@), scan_contribs, o, ev.device, ev.binding)) by {
            if active_conflict(views(configs@), scan_contribs, o, ev.device, ev.binding) {
                let (p, q) = choose|p: int, q: int|
                    0 <= p < q < views(configs@).len() && row_active(
                        views(configs@),
                        scan_contribs,
                        o,
                        ev.device,
                        ev.binding,
                        p,
                    ) && row_active(
                        views(configs@),
                        scan_contribs,
                        o,
                        ev.device,
                        ev.binding,
                        q,
                    ) && views(configs@)[p].group != views(configs@)[q].group;
                assert(views(configs@)[p].group == views(configs@)[first_found as int].group);
                assert(views(configs@)[q].group == views(configs@)[first_found as int].group);
            }
        }
    }
    if founds.len() == 0 {
        let ghost el_full = eligible_idxs(
            views(configs@),
            mod_vals@,
            o,
            ev.device,
            ev.binding,
            dev_capturing,
            excludes@,
            includes@,
        );
        let mut best: usize = 0;
        let mut have_best: bool = false;
        let mut sj: usize = 0;
        assert(views(configs@).take(0) =~= Seq::<ConfigV>::empty());
        while sj < configs.len()
            invariant
                sj <= configs.len(),
                have_best <==> eligible_idxs(
                    views(configs@).take(sj as int),
                    mod_vals@,
                    o,
                    ev.device,
                    ev.binding,
                    dev_capturing,
                    excludes@,
                    includes@,
                ).len() > 0,
                have_best ==> best < sj && configs@[best as int]@.group.modifiers.len() as int
                    == max_mods(
                    views(configs@),
                    eligible_idxs(
                        views(configs@).take(sj as int),
                        mod_vals@,
                        o,
                        ev.device,
                        ev.binding,
                        dev_capturing,
                        excludes@,
                        includes@,
                    ),
                ),
            decreases configs.len() - sj,
        {
            proof {
                lemma_views_take(configs@, sj as int);
                lemma_views_take(configs@, sj + 1);
                assert(views(configs@).take(sj + 1) =~= views(configs@).take(sj as int).push(
                    views(configs@)[sj as int],
                ));
                assert(views(configs@).take(sj + 1).drop_last() =~= views(configs@).take(
                    sj as int,
                ));
                assert(forall|p: int|
                    0 <= p < sj + 1 ==> views(configs@).take(sj + 1)[p] == views(configs@)[p]);
            }
            let c = &configs[sj];
            assert(views(configs@)[sj as int] == configs@[sj as int]@);
            let ghost el_pre = eligible_idxs(
                views(configs@).take(sj as int),
                mod_vals@,
                o,
                ev.device,
                ev.binding,
                dev_capturing,
                excludes@,
                includes@,
            );
            if c.owner == o && c.group.primary == ev.binding && modifiers_held(
                mod_vals,
                ev.device,
                &c.group,
                c.modifier_dead,
                dev_capturing,
                excludes,
                includes,
            ) {
                assert(row_eligible(
                    views(configs@),
                    mod_vals@,
                    o,
                    ev.device,
                    ev.binding,
                    dev_capturing,
                    excludes@,
                    includes@,
                    sj as int,
                ));
                proof {
                    let el_post = eligible_idxs(
                        views(configs@).take(sj + 1),
                        mod_vals@,
                        o,
                        ev.device,
                        ev.binding,
                        dev_capturing,
                        excludes@,
                        includes@,
                    );
                    assert(el_post == el_pre.push(sj as int));
                    assert(el_post.drop_last() =~= el_pre);
                    assert(el_post.last() == sj as int);
                    let mp = max_mods(views(configs@), el_pre);
                    let lsj = views(configs@)[sj as int].group.modifiers.len() as int;
                    assert(max_mods(views(configs@), el_post) == if lsj > mp {
                        lsj
                    } else {
                        mp
                    });
                    assert(c.group.modifiers@.len() as int == lsj);
                    if !have_best {
                        assert(el_pre.len() == 0);
                        assert(mp == -1);
                    }
                }
                if !have_best || c.group.modifiers.len() > configs[best].group.modifiers.len() {
                    best = sj;
                    have_best = true;
                }
            } else {
                assert(!row_eligible(
                    views(configs@),
                    mod_vals@,
                    o,
                    ev.device,
                    ev.binding,
                    dev_capturing,
                    excludes@,
                    includes@,
                    sj as int,
                ));
            }
            sj = sj + 1;
        }
        assert(views(configs@).take(configs@.len() as int) =~= views(configs@));
        if have_best {
            let maxlen: usize = configs[best].group.modifiers.len();
            assert(maxlen as int == max_mods(views(configs@), el_full));
            let ghost selpred = |i: int|
                views(configs@)[i].group.modifiers.len() as int == max_mods(
                    views(configs@),
                    el_full,
                );
            let mut tj: usize = 0;
            assert(views(configs@).take(0) =~= Seq::<ConfigV>::empty());
            proof {
                assert(eligible_idxs(
                    views(configs@).take(0),
                    mod_vals@,
                    o,
                    ev.device,
                    ev.binding,
                    dev_capturing,
                    excludes@,
                    includes@,
                ).filter(selpred) =~= Seq::<int>::empty());
            }
            while tj < configs.len()
                invariant
                    tj <= configs.len(),
                    founds@.map_values(|u: usize| u as int) == eligible_idxs(
                        views(configs@).take(tj as int),
                        mod_vals@,
                        o,
                        ev.device,
                        ev.binding,
                        dev_capturing,
                        excludes@,
                        includes@,
                    ).filter(selpred),
                    forall|k: int|
                        0 <= k < founds@.len() ==> (#[trigger] founds@[k]) < configs@.len(),
                    maxlen as int == max_mods(views(configs@), el_full),
                    selpred == (|i: int|
                        views(configs@)[i].group.modifiers.len() as int == max_mods(
                            views(configs@),
                            el_full,
                        )),
                decreases configs.len() - tj,
            {
                proof {
                    lemma_views_take(configs@, tj as int);
                    lemma_views_take(configs@, tj + 1);
                    assert(views(configs@).take(tj + 1) =~= views(configs@).take(tj as int).push(
                        views(configs@)[tj as int],
                    ));
                    assert(views(configs@).take(tj + 1).drop_last() =~= views(configs@).take(
                        tj as int,
                    ));
                    assert(forall|p: int|
                        0 <= p < tj + 1 ==> views(configs@).take(tj + 1)[p] == views(
                            configs@,
                        )[p]);
                }
                let c = &configs[tj];
                assert(views(configs@)[tj as int] == configs@[tj as int]@);
                let el_here = c.owner == o && c.group.primary == ev.binding && modifiers_held(
                    mod_vals,
                    ev.device,
                    &c.group,
                    c.modifier_dead,
                    dev_capturing,
                    excludes,
                    includes,
                );
                proof {
                    if el_here {
                        assert(row_eligible(
                            views(configs@),
                            mod_vals@,
                            o,
                            ev.device,
                            ev.binding,
                            dev_capturing,
                            excludes@,
                            includes@,
                            tj as int,
                        ));
                        let el_pre = eligible_idxs(
                            views(configs@).take(tj as int),
                            mod_vals@,
                            o,
                            ev.device,
                            ev.binding,
                            dev_capturing,
                            excludes@,
                            includes@,
                        );
                        lemma_filter_push(el_pre, selpred, tj as int);
                    } else {
                        assert(!row_eligible(
                            views(configs@),
                            mod_vals@,
                            o,
                            ev.device,
                            ev.binding,
                            dev_capturing,
                            excludes@,
                            includes@,
                            tj as int,
                        ));
                    }
                }
                if el_here && c.group.modifiers.len() == maxlen {
                    founds.push(tj);
                    assert(founds@.map_values(|u: usize| u as int) =~= eligible_idxs(
                        views(configs@).take(tj + 1),
                        mod_vals@,
                        o,
                        ev.device,
                        ev.binding,
                        dev_capturing,
                        excludes@,
                        includes@,
                    ).filter(selpred));
                } else {
                    assert(founds@.map_values(|u: usize| u as int) =~= eligible_idxs(
                        views(configs@).take(tj + 1),
                        mod_vals@,
                        o,
                        ev.device,
                        ev.binding,
                        dev_capturing,
                        excludes@,
                        includes@,
                    ).filter(selpred));
                }
                tj = tj + 1;
            }
            assert(views(configs@).take(configs@.len() as int) =~= views(configs@));
            assert(founds@.map_values(|u: usize| u as int) == selected_idxs(
                views(configs@),
                mod_vals@,
                o,
                ev.device,
                ev.binding,
                dev_capturing,
                excludes@,
                includes@,
            ));
        } else {
            proof {
                assert(el_full.len() == 0);
                assert(el_full.filter(
                    |i: int| views(configs@)[i].group.modifiers.len() as int == max_mods(
                        views(configs@),
                        el_full,
                    ),
                ) =~= Seq::<int>::empty());
                assert(founds@.map_values(|u: usize| u as int) =~= Seq::<int>::empty());
            }
        }
    }
    let ghost gidx: Seq<int> = founds@.map_values(|u: usize| u as int);
    proof {
        let a = active_idxs(views(configs@), scan_contribs, o, ev.device, ev.binding);
        if a.len() > 0 {
            assert(gidx == a);
        } else {
            assert(gidx == selected_idxs(
                views(configs@),
                mod_vals@,
                o,
                ev.device,
                ev.binding,
                dev_capturing,
                excludes@,
                includes@,
            ));
        }
        assert(resolve_owner(env, views(contribs@), rep_states@, o, ev) == Ok::<
            (Seq<ContribV>, Seq<RepState>, Seq<InputMapEvent>),
            InputMapError,
        >(process_founds(env, views(contribs@), rep_states@, o, gidx, ev)));
        lemma_active_sound(views(configs@), scan_contribs, o, ev.device, ev.binding);
    }
    process_found_rows(
        contribs,
        rep_states,
        configs,
        repeats,
        o,
        ev,
        &founds,
        out,
        Ghost(env),
    );
    Ok(())
}

/// Every listed live-chord position is in range and names a live row.
proof fn lemma_active_sound(
    cfgs: Seq<ConfigV>,
    contribs: Seq<ContribV>,
    o: i32,
    dev: Device,
    b: Binding,
)
    ensures
        forall|k: int|
            0 <= k < active_idxs(cfgs, contribs, o, dev, b).len() ==> 0 <= (
            #[trigger] active_idxs(cfgs, contribs, o, dev, b)[k]) < cfgs.len() && row_active(
                cfgs,
                contribs,
                o,
                dev,
                b,
                active_idxs(cfgs, contribs, o, dev, b)[k],
            ),
    decreases cfgs.len(),
{
    if cfgs.len() > 0 {
        lemma_active_sound(cfgs.drop_last(), contribs, o, dev, b);
        let a = active_idxs(cfgs, contribs, o, dev, b);
        let ap = active_idxs(cfgs.drop_last(), contribs, o, dev, b);
        assert forall|k: int|
            0 <= k < a.len() implies 0 <= (#[trigger] a[k]) < cfgs.len() && row_active(
                cfgs,
                contribs,
                o,
                dev,
                b,
                a[k],
            ) by {
            if k < ap.len() {
                assert(a[k] == ap[k]);
                assert(row_active(cfgs.drop_last(), contribs, o, dev, b, ap[k]));
                assert(cfgs.drop_last()[ap[k]] == cfgs[ap[k]]);
            } else {
                assert(a[k] == cfgs.len() - 1);
            }
        }
    }
}

/// Resolves one tick's binding events against the registry, event by
/// event and owner by owner.  Fails, stopping the tick, exactly when the
/// resolution run does: two distinct live chords sharing one primary on
/// one device.
#[verifier::loop_isolation(false)]
#[verifier::rlimit(100)]
pub(crate) fn resolve_inputs(
    contribs: &mut Vec<Contrib>,
    rep_states: &mut Vec<RepState>,
    configs: &Vec<crate::engine::BindConfig>,
    mod_vals: &Vec<(Device, Binding, i64)>,
    repeats: &Vec<(u32, i64, i64)>,
    feed: &Vec<(u64, i32)>,
    others: &Vec<i32>,
    capture_devices: &Vec<Device>,
    excludes: &Vec<Binding>,
    includes: &Vec<Binding>,
    inputs: &Vec<BindingInputEvent>,
    out: &mut Vec<InputMapEvent>,
) -> (r: Result<(), InputMapError>)
    requires
        forall|j: int|
            0 <= j < configs@.len() ==> -crate::values::SCALE_MAX <= (
            #[trigger] configs@[j]).scale <= crate::values::SCALE_MAX,
        forall|j: int|
            0 <= j < old(contribs)@.len() ==> -CONTRIB_MAX <= (
            #[trigger] old(contribs)@[j]).value <= CONTRIB_MAX,
        forall|j: int|
            0 <= j < old(rep_states)@.len() ==> 0 <= (#[trigger] old(rep_states)@[j]).accum
                <= crate::values::ACCUM_MAX,
        forall|j: int|
            0 <= j < mod_vals@.len() ==> -crate::values::VAL_MAX <= (
            #[trigger] mod_vals@[j]).2 <= crate::values::VAL_MAX,
        forall|j: int|
            0 <= j < inputs@.len() ==> -crate::values::VAL_MAX <= (
            #[trigger] inputs@[j]).value <= crate::values::VAL_MAX,
    ensures
        forall|j: int|
            0 <= j < final(contribs)@.len() ==> -CONTRIB_MAX <= (
            #[trigger] final(contribs)@[j]).value <= CONTRIB_MAX,
        forall|j: int|
            0 <= j < final(rep_states)@.len() ==> 0 <= (#[trigger] final(rep_states)@[j]).accum
                <= crate::values::ACCUM_MAX,
        ({
            let env = env_of(
                configs@,
                repeats@,
                mod_vals@,
                capture_devices@,
                excludes@,
                includes@,
                feed@,
                others@,
            );
            match resolve_run(env, views(old(contribs)@), old(rep_states)@, inputs@) {
                Ok(st) => r is Ok && views(final(contribs)@) == st.0 && final(rep_states)@
                    == st.1 && final(out)@ == old(out)@ + st.2,
                Err(e) => r == Err::<(), InputMapError>(e),
            }
        }),
        unique_primaries(views(configs@)) ==> r is Ok,
        inputs@.len() == 0 ==> r is Ok && final(contribs)@ == old(contribs)@
            && final(rep_states)@ == old(rep_states)@ && final(out)@ == old(out)@,
{
    let ghost env = env_of(
        configs@,
        repeats@,
        mod_vals@,
        capture_devices@,
        excludes@,
        includes@,
        feed@,
        others@,
    );
    if inputs.len() == 0 {
        assert(final(out)@ =~= old(out)@ + Seq::<InputMapEvent>::empty());
        return Ok(());
    }
    let ghost full = resolve_run(env, views(contribs@), rep_states@, inputs@);
    let ghost out0 = out@;
    let mut ii: usize = 0;
    assert(inputs@.skip(0) =~= inputs@);
    assert(out@.skip(out0.len() as int) =~= Seq::<InputMapEvent>::empty());
    while ii < inputs.len()
        invariant
            ii <= inputs.len(),
            forall|j: int|
                0 <= j < contribs@.len() ==> -CONTRIB_MAX <= (#[trigger] contribs@[j]).value
                    <= CONTRIB_MAX,
            forall|j: int|
                0 <= j < rep_states@.len() ==> 0 <= (#[trigger] rep_states@[j]).accum
                    <= crate::values::ACCUM_MAX,
            out0.len() <= out@.len(),
            out@.take(out0.len() as int) == out0,
            full == ok_prepend(
                out@.skip(out0.len() as int),
                resolve_run(env, views(contribs@), rep_states@, inputs@.skip(ii as int)),
            ),
        decreases inputs.len() - ii,
    {
        proof {
            assert(inputs@.skip(ii as int)[0] == inputs@[ii as int]);
            assert(inputs@.skip(ii as int).drop_first() =~= inputs@.skip(ii + 1));
        }
        let ev = inputs[ii];
        let owners = owners_for(feed, others, ev.device);
        proof {
            assert(owners@ == owners_of(env.feed, env.others, ev.device));
        }
        let mut w: usize = 0;
        assert(owners@.skip(0) =~= owners@);
        while w < owners.len()
            invariant
                w <= owners.len(),
                forall|j: int|
                    0 <= j < contribs@.len() ==> -CONTRIB_MAX <= (#[trigger] contribs@[j]).value
                        <= CONTRIB_MAX,
                forall|j: int|
                    0 <= j < rep_states@.len() ==> 0 <= (#[trigger] rep_states@[j]).accum
                        <= crate::values::ACCUM_MAX,
                out0.len() <= out@.len(),
                out@.take(out0.len() as int) == out0,
                full == ok_prepend(
                    out@.skip(out0.len() as int),
                    match resolve_owners(
                        env,
                        views(contribs@),
                        rep_states@,
                        owners@.skip(w as int),
                        ev,
                    ) {
                        Err(e) => Err(e),
                        Ok(s1) => ok_prepend(
                            s1.2,
                            resolve_run(env, s1.0, s1.1, inputs@.skip(ii + 1)),
                        ),
                    },
                ),
            decreases owners.len() - w,
        {
            proof {
                assert(owners@.skip(w as int)[0] == owners@[w as int]);
                assert(owners@.skip(w as int).drop_first() =~= owners@.skip(w + 1));
            }
            let o: i32 = owners[w];
            let ghost pre_views = views(contribs@);
            let ghost pre_rep = rep_states@;
            let ghost out_pre = out@;
            let r1 = resolve_for_owner(
                contribs,
                rep_states,
                configs,
                mod_vals,
                repeats,
                capture_devices,
                excludes,
                includes,
                o,
                ev,
                out,
                Ghost(env),
            );
            proof {
                let ro = resolve_owner(env, pre_views, pre_rep, o, ev);
                if ro is Err {
                    assert(resolve_owners(env, pre_views, pre_rep, owners@.skip(w as int), ev)
                        == Err::<
                        (Seq<ContribV>, Seq<RepState>, Seq<InputMapEvent>),
                        InputMapError,
                    >(ro->Err_0));
                    assert(full == Err::<
                        (Seq<ContribV>, Seq<RepState>, Seq<InputMapEvent>),
                        InputMapError,
                    >(ro->Err_0));
                } else {
                    let st = ro->Ok_0;
                    assert(views(contribs@) == st.0 && rep_states@ == st.1 && out@ == out_pre
                        + st.2);
                    let r2 = resolve_owners(
                        env,
                        views(contribs@),
                        rep_states@,
                        owners@.skip(w + 1),
                        ev,
                    );
                    assert(resolve_owners(env, pre_views, pre_rep, owners@.skip(w as int), ev)
                        == ok_prepend(st.2, r2));
                    assert(out@.take(out0.len() as int) =~= out0);
                    assert(out@.skip(out0.len() as int) =~= out_pre.skip(out0.len() as int)
                        + st.2);
                    if r2 is Ok {
                        let s2 = r2->Ok_0;
                        let rr = resolve_run(env, s2.0, s2.1, inputs@.skip(ii + 1));
                        if rr is Ok {
                            let t = rr->Ok_0;
                            assert(out_pre.skip(out0.len() as int) + ((st.2 + s2.2) + t.2)
                                =~= (out_pre.skip(out0.len() as int) + st.2) + (s2.2 + t.2));
                        }
                    }
                }
            }
            if let Err(e) = r1 {
                return Err(e);
            }
            w = w + 1;
        }
        assert(owners@.skip(owners@.len() as int) =~= Seq::<i32>::empty());
        proof {
            let rfin = resolve_run(env, views(contribs@), rep_states@, inputs@.skip(ii + 1));
            if rfin is Ok {
                let t = rfin->Ok_0;
                assert(Seq::<InputMapEvent>::empty() + t.2 =~= t.2);
            }
        }
        ii = ii + 1;
    }
    assert(inputs@.skip(inputs@.len() as int) =~= Seq::<BindingInputEvent>::empty());
    proof {
        assert(full == Ok::<(Seq<ContribV>, Seq<RepState>, Seq<InputMapEvent>), InputMapError>(
            (views(contribs@), rep_states@, final(out)@.skip(out0.len() as int)),
        ));
        assert(final(out)@ =~= old(out)@ + final(out)@.skip(out0.len() as int));
    }
    Ok(())
}
/// Copies a binding list.
pub(crate) fn copy_bindings(v: &Vec<Binding>) -> (r: Vec<Binding>)
    ensures
        r@ == v@,
{
    let mut out: Vec<Binding> = Vec::new();
    let mut i: usize = 0;
    while i < v.len()
        invariant
            i <= v.len(),
            out@ == v@.take(i as int),
        decreases v.len() - i,
    {
        proof {
            assert(v@.take(i + 1) =~= v@.take(i as int).push(v@[i as int]));
        }
        out.push(v[i]);
        i = i + 1;
    }
    assert(v@.take(v@.len() as int) =~= v@);
    out
}

/// Copies a device list.
pub(crate) fn copy_devices(v: &Vec<Device>) -> (r: Vec<Device>)
    ensures
        r@ == v@,
{
    let mut out: Vec<Device> = Vec::new();
    let mut i: usize = 0;
    while i < v.len()
        invariant
            i <= v.len(),
            out@ == v@.take(i as int),
        decreases v.len() - i,
    {
        proof {
            assert(v@.take(i + 1) =~= v@.take(i as int).push(v@[i as int]));
        }
        out.push(v[i]);
        i = i + 1;
    }
    assert(v@.take(v@.len() as int) =~= v@);
    out
}

/// The owners for whom a mapping is configured, first appearance first.
pub open spec fn owners_with(cfgs: Seq<ConfigV>, m: u32) -> Seq<i32>
    decreases cfgs.len(),
{
    if cfgs.len() == 0 {
        Seq::empty()
    } else {
        let prior = owners_with(cfgs.drop_last(), m);
        let c = cfgs.last();
        if c.mapping == m && !prior.contains(c.owner) {
            prior.push(c.owner)
        } else {
            prior
        }
    }
}

/// The repeat timer of `(o, m)`, a cold one when none is stored.
pub open spec fn repeat_state_of(rep: Seq<RepState>, o: i32, m: u32) -> RepState {
    match crate::tables::rs_spec(rep, o, m) {
        Some(r) => r,
        None => RepState { owner: o, mapping: m, accum: 0, repeating: false },
    }
}

/// One owner's repeat step for one configured repeat row: nothing while
/// the interval is unset or the mapping silent; before arming, the delay
/// accumulates; once armed, a `Repeat` fires whenever the accumulator
/// reaches the interval divided by the aggregate's magnitude.
pub open spec fn repeat_one(
    contribs: Seq<ContribV>,
    rep: Seq<RepState>,
    m: u32,
    delay: i64,
    interval: i64,
    delta: i64,
    o: i32,
) -> (Seq<RepState>, Seq<InputMapEvent>) {
    let cur = agg(contribs, o, m);
    if interval <= 0 || cur == 0 {
        (rep, Seq::empty())
    } else {
        let rs = repeat_state_of(rep, o, m);
        if rs.repeating {
            let mag = if cur < 0 { -cur } else { cur };
            let duration = (interval as int) * (crate::values::UNIT as int) / mag;
            let new_accum = rs.accum + delta;
            if new_accum >= duration {
                (
                    rep.filter(crate::tables::not_rs(o, m)).push(
                        RepState { owner: o, mapping: m, accum: 0, repeating: true },
                    ),
                    seq![
                        InputMapEvent::Repeat {
                            mapping: m,
                            dir: dir_of(cur) as i32,
                            delay: duration as i64,
                            owner: o,
                        },
                    ],
                )
            } else {
                (
                    rep.filter(crate::tables::not_rs(o, m)).push(
                        RepState {
                            owner: o,
                            mapping: m,
                            accum: new_accum as i64,
                            repeating: true,
                        },
                    ),
                    Seq::empty(),
                )
            }
        } else {
            if rs.accum < delay {
                (
                    rep.filter(crate::tables::not_rs(o, m)).push(
                        RepState {
                            owner: o,
                            mapping: m,
                            accum: (rs.accum + delta) as i64,
                            repeating: false,
                        },
                    ),
                    Seq::empty(),
                )
            } else {
                (
                    rep.filter(crate::tables::not_rs(o, m)).push(
                        RepState { owner: o, mapping: m, accum: 0, repeating: true },
                    ),
                    Seq::empty(),
                )
            }
        }
    }
}

/// One repeat row stepped for every listed owner, in order.
pub open spec fn repeat_row(
    contribs: Seq<ContribV>,
    rep: Seq<RepState>,
    m: u32,
    delay: i64,
    interval: i64,
    delta: i64,
    owners: Seq<i32>,
) -> (Seq<RepState>, Seq<InputMapEvent>)
    decreases owners.len(),
{
    if owners.len() == 0 {
        (rep, Seq::empty())
    } else {
        let s1 = repeat_one(contribs, rep, m, delay, interval, delta, owners[0]);
        let r = repeat_row(contribs, s1.0, m, delay, interval, delta, owners.drop_first());
        (r.0, s1.1 + r.1)
    }
}

/// The whole repeat schedule for one tick: every repeat row, over every
/// owner its mapping is configured for.
pub open spec fn repeats_run(
    contribs: Seq<ContribV>,
    rep: Seq<RepState>,
    repeats: Seq<(u32, i64, i64)>,
    cfgs: Seq<ConfigV>,
    delta: i64,
) -> (Seq<RepState>, Seq<InputMapEvent>)
    decreases repeats.len(),
{
    if repeats.len() == 0 {
        (rep, Seq::empty())
    } else {
        let row = repeats[0];
        let s1 = repeat_row(contribs, rep, row.0, row.1, row.2, delta, owners_with(cfgs, row.0));
        let r = repeats_run(contribs, s1.0, repeats.drop_first(), cfgs, delta);
        (r.0, s1.1 + r.1)
    }
}

/// Collects the owners for whom a mapping is configured.
fn collect_owners_with(configs: &Vec<crate::engine::BindConfig>, m: u32) -> (r: Vec<i32>)
    ensures
        r@ == owners_with(views(configs@), m),
{
    let mut owners: Vec<i32> = Vec::new();
    let mut k: usize = 0;
    assert(views(configs@).take(0) =~= Seq::<ConfigV>::empty());
    while k < configs.len()
        invariant
            k <= configs.len(),
            owners@ == owners_with(views(configs@).take(k as int), m),
        decreases configs.len() - k,
    {
        proof {
            lemma_views_take(configs@, k as int);
            lemma_views_take(configs@, k + 1);
            assert(views(configs@).take(k + 1) =~= views(configs@).take(k as int).push(
                configs@[k as int]@,
            ));
            assert(views(configs@).take(k + 1).drop_last() =~= views(configs@).take(k as int));
        }
        let c = &configs[k];
        if c.mapping == m {
            crate::tables::owner_insert(&mut owners, c.owner);
        }
        k = k + 1;
    }
    assert(views(configs@).take(configs@.len() as int) =~= views(configs@));
    owners
}

/// The repeat scheduler: for every configured repeat row and every owner
/// holding that mapping at a non-zero value, accumulates the tick delta;
/// once the initial delay has armed the timer, a `Repeat` event fires each
/// time the accumulator reaches the interval divided by the aggregate's
/// magnitude, so larger deflections repeat faster.
#[verifier::loop_isolation(false)]
#[verifier::rlimit(60)]
pub(crate) fn run_repeats(
    contribs: &Vec<Contrib>,
    rep_states: &mut Vec<RepState>,
    repeats: &Vec<(u32, i64, i64)>,
    configs: &Vec<crate::engine::BindConfig>,
    delta: i64,
    out: &mut Vec<InputMapEvent>,
)
    requires
        forall|j: int|
            0 <= j < old(rep_states)@.len() ==> 0 <= (#[trigger] old(rep_states)@[j]).accum
                <= crate::values::ACCUM_MAX,
        forall|j: int|
            0 <= j < repeats@.len() ==> 0 <= (#[trigger] repeats@[j]).1 <= crate::values::RAW_MAX
                && 0 <= repeats@[j].2 <= crate::values::RAW_MAX,
        0 <= delta <= crate::values::RAW_MAX,
    ensures
        ({
            let r = repeats_run(
                views(contribs@),
                old(rep_states)@,
                repeats@,
                views(configs@),
                delta,
            );
            final(rep_states)@ == r.0 && final(out)@ == old(out)@ + r.1
        }),
        forall|j: int|
            0 <= j < final(rep_states)@.len() ==> 0 <= (#[trigger] final(rep_states)@[j]).accum
                <= crate::values::ACCUM_MAX,
        repeats@.len() == 0 ==> final(rep_states)@ == old(rep_states)@ && final(out)@ == old(
            out,
        )@,
{
    if repeats.len() == 0 {
        assert(final(out)@ =~= old(out)@ + repeats_run(
            views(contribs@),
            old(rep_states)@,
            repeats@,
            views(configs@),
            delta,
        ).1);
        return;
    }
    let ghost full = repeats_run(views(contribs@), rep_states@, repeats@, views(configs@), delta);
    let ghost out0 = out@;
    let mut ri: usize = 0;
    assert(repeats@.skip(0) =~= repeats@);
    while ri < repeats.len()
        invariant
            ri <= repeats.len(),
            ({
                let rem = repeats_run(
                    views(contribs@),
                    rep_states@,
                    repeats@.skip(ri as int),
                    views(configs@),
                    delta,
                );
                full.0 == rem.0 && full.1 == out@.skip(out0.len() as int) + rem.1
            }),
            out0.len() <= out@.len(),
            out@.take(out0.len() as int) == out0,
            forall|j: int|
                0 <= j < rep_states@.len() ==> 0 <= (#[trigger] rep_states@[j]).accum
                    <= crate::values::ACCUM_MAX,
        decreases repeats.len() - ri,
    {
        proof {
            assert(repeats@.skip(ri as int)[0] == repeats@[ri as int]);
            assert(repeats@.skip(ri as int).drop_first() =~= repeats@.skip(ri + 1));
        }
        let (m, delay, interval) = repeats[ri];
        let owners = collect_owners_with(configs, m);
        let ghost rep_before_row = rep_states@;
        let ghost row_full = repeat_row(
            views(contribs@),
            rep_states@,
            m,
            delay,
            interval,
            delta,
            owners@,
        );
        let ghost out_row0 = out@;
        let mut w: usize = 0;
        assert(owners@.skip(0) =~= owners@);
        while w < owners.len()
            invariant
                w <= owners.len(),
                ({
                    let rem = repeat_row(
                        views(contribs@),
                        rep_states@,
                        m,
                        delay,
                        interval,
                        delta,
                        owners@.skip(w as int),
                    );
                    row_full.0 == rem.0 && row_full.1 == out@.skip(out_row0.len() as int)
                        + rem.1
                }),
                out_row0.len() <= out@.len(),
                out@.take(out_row0.len() as int) == out_row0,
                0 <= delay <= crate::values::RAW_MAX,
                0 <= interval <= crate::values::RAW_MAX,
                forall|j: int|
                    0 <= j < rep_states@.len() ==> 0 <= (#[trigger] rep_states@[j]).accum
                        <= crate::values::ACCUM_MAX,
            decreases owners.len() - w,
        {
            proof {
                assert(owners@.skip(w as int)[0] == owners@[w as int]);
                assert(owners@.skip(w as int).drop_first() =~= owners@.skip(w + 1));
            }
            let o: i32 = owners[w];
            let ghost step = repeat_one(
                views(contribs@),
                rep_states@,
                m,
                delay,
                interval,
                delta,
                o,
            );
            let ghost out_pre = out@;
            let cur: i128 = agg_value(contribs, o, m);
            if interval > 0 && cur != 0 {
                let rs = match crate::tables::rs_find(rep_states, o, m) {
                    Some(row) => row,
                    None => RepState { owner: o, mapping: m, accum: 0, repeating: false },
                };
                proof {
                    crate::tables::lemma_rs_spec_bounded(rep_states@, o, m);
                    assert(rs == repeat_state_of(rep_states@, o, m));
                }
                if rs.repeating {
                    proof {
                        assert(contribs@.len() as int <= usize::MAX as int) by {
                            assert(contribs.len() == contribs@.len());
                        }
                        assert((contribs@.len() as int) * 0x8000_0000_0000_0000
                            <= 0xffff_ffff_ffff_ffff * 0x8000_0000_0000_0000) by (nonlinear_arith)
                            requires
                                contribs@.len() as int <= usize::MAX as int,
                                usize::MAX as int <= 0xffff_ffff_ffff_ffff,
                        ;
                    }
                    let mag: i128 = if cur < 0 { -cur } else { cur };
                    let p128: i128 = (interval as i128) * (crate::values::UNIT as i128);
                    let d128: i128 = p128 / mag;
                    assert(0 <= d128 <= p128) by (nonlinear_arith)
                        requires
                            1 <= mag,
                            0 <= p128,
                            d128 == p128 / mag,
                    ;
                    let duration: i64 = d128 as i64;
                    let new_accum: i64 = rs.accum + delta;
                    if new_accum >= duration {
                        out.push(
                            InputMapEvent::Repeat {
                                mapping: m,
                                dir: dir_of_val(cur),
                                delay: duration,
                                owner: o,
                            },
                        );
                        set_rep_bounded(rep_states, o, m, 0, true);
                    } else {
                        set_rep_bounded(rep_states, o, m, new_accum, true);
                    }
                } else {
                    if rs.accum < delay {
                        set_rep_bounded(rep_states, o, m, rs.accum + delta, false);
                    } else {
                        set_rep_bounded(rep_states, o, m, 0, true);
                    }
                }
            }
            proof {
                assert(rep_states@ == step.0);
                assert(out@ =~= out_pre + step.1);
                assert(out@.skip(out_row0.len() as int) =~= out_pre.skip(out_row0.len() as int)
                    + step.1);
                assert(out@.take(out_row0.len() as int) =~= out_row0);
            }
            w = w + 1;
        }
        assert(owners@.skip(owners@.len() as int) =~= Seq::<i32>::empty());
        proof {
            assert(row_full.1 =~= out@.skip(out_row0.len() as int));
            assert(out@.skip(out0.len() as int) =~= out_row0.skip(out0.len() as int)
                + row_full.1);
            assert(out@.take(out0.len() as int) =~= out0);
        }
        ri = ri + 1;
    }
    assert(repeats@.skip(repeats@.len() as int) =~= Seq::<(u32, i64, i64)>::empty());
    assert(full.1 =~= out@.skip(out0.len() as int));
    assert(out@ =~= out0 + full.1);
}

/// Stores a repeat timer while keeping every accumulator in range.
pub(crate) fn set_rep_bounded(rep_states: &mut Vec<RepState>, o: i32, m: u32, accum: i64, repeating: bool)
    requires
        forall|j: int|
            0 <= j < old(rep_states)@.len() ==> 0 <= (#[trigger] old(rep_states)@[j]).accum
                <= crate::values::ACCUM_MAX,
        0 <= accum <= crate::values::ACCUM_MAX,
    ensures
        final(rep_states)@ == old(rep_states)@.filter(crate::tables::not_rs(o, m)).push(
            RepState { owner: o, mapping: m, accum, repeating },
        ),
        forall|j: int|
            0 <= j < final(rep_states)@.len() ==> 0 <= (#[trigger] final(rep_states)@[j]).accum
                <= crate::values::ACCUM_MAX,
{
    let ghost before = rep_states@;
    crate::tables::rs_set(rep_states, o, m, accum, repeating);
    proof {
        lemma_filter_sub(before, crate::tables::not_rs(o, m));
        assert forall|j: int|
            0 <= j < rep_states@.len() implies 0 <= (#[trigger] rep_states@[j]).accum
                <= crate::values::ACCUM_MAX by {
            let row = rep_states@[j];
            let fpart = before.filter(crate::tables::not_rs(o, m));
            if j < fpart.len() {
                assert(row == fpart[j]);
                assert(before.contains(row));
                let wx = choose|wx: int| 0 <= wx < before.len() && before[wx] == row;
                assert(0 <= before[wx].accum <= crate::values::ACCUM_MAX);
            }
        }
    }
}

/// The view of the capture chains: each device with its chord so far.
pub open spec fn chain_views(s: Seq<(Device, Vec<Binding>)>) -> Seq<(Device, Seq<Binding>)> {
    s.map_values(|r: (Device, Vec<Binding>)| (r.0, r.1@))
}

/// The position of a device's capture chain, if it has one.
pub open spec fn chain_find(s: Seq<(Device, Seq<Binding>)>, d: Device) -> Option<int>
    decreases s.len(),
{
    if s.len() == 0 {
        None
    } else if s[0].0 == d {
        Some(0int)
    } else {
        match chain_find(s.drop_first(), d) {
            Some(i) => Some(i + 1),
            None => None,
        }
    }
}

/// `chain_find` returns exactly the first position holding the device.
proof fn lemma_chain_find_first(s: Seq<(Device, Seq<Binding>)>, d: Device, i: int)
    requires
        0 <= i < s.len(),
        s[i].0 == d,
        forall|k: int| 0 <= k < i ==> (#[trigger] s[k]).0 != d,
    ensures
        chain_find(s, d) == Some(i),
    decreases s.len(),
{
    if i > 0 {
        assert(forall|k: int|
            0 <= k < i - 1 ==> (#[trigger] s.drop_first()[k]).0 != d && s.drop_first()[k]
                == s[k + 1]);
        assert(s.drop_first()[i - 1] == s[i]);
        lemma_chain_find_first(s.drop_first(), d, i - 1);
    }
}

/// With no position holding the device, `chain_find` finds nothing.
proof fn lemma_chain_find_none(s: Seq<(Device, Seq<Binding>)>, d: Device)
    requires
        forall|k: int| 0 <= k < s.len() ==> (#[trigger] s[k]).0 != d,
    ensures
        chain_find(s, d) is None,
    decreases s.len(),
{
    if s.len() > 0 {
        assert(forall|k: int|
            0 <= k < s.drop_first().len() ==> (#[trigger] s.drop_first()[k]).0 != d
                && s.drop_first()[k] == s[k + 1]);
        lemma_chain_find_none(s.drop_first(), d);
    }
}

/// One rebind-capture emission, by shape: the chord after a binding joined
/// it, or the whole chord on release.
pub enum CaptureEv {
    Pressed(Device, Seq<Binding>),
    Released(Device, Seq<Binding>),
}

/// Whether an emitted event is the one a capture emission describes.
pub open spec fn capture_matches(e: InputMapEvent, d: CaptureEv) -> bool {
    match d {
        CaptureEv::Pressed(dev, bs) => e matches InputMapEvent::BindPressed { device, bindings }
            && device == dev && bindings@ == bs,
        CaptureEv::Released(dev, bs) => e matches InputMapEvent::BindReleased {
            device,
            bindings,
        } && device == dev && bindings@ == bs,
    }
}

/// One step of rebind capture: what one binding event does to the held
/// set, the chains, and the emitted chord events.  A capturable binding
/// rising above the start threshold joins its device's chain; one falling
/// below the end threshold while held releases the whole chain.
pub open spec fn capture_step(
    devs: Seq<Device>,
    ex: Seq<Binding>,
    inc: Seq<Binding>,
    start: i64,
    end: i64,
    down: Seq<(Device, Binding)>,
    chains: Seq<(Device, Seq<Binding>)>,
    ev: BindingInputEvent,
) -> (Seq<(Device, Binding)>, Seq<(Device, Seq<Binding>)>, Seq<CaptureEv>) {
    if !(devs.contains(ev.device) && capturable(ex, inc, ev.binding)) {
        (down, chains, Seq::empty())
    } else {
        let av = if ev.value < 0 {
            -(ev.value as int)
        } else {
            ev.value as int
        };
        let is_down = down.contains((ev.device, ev.binding));
        let found = chain_find(chains, ev.device);
        if !is_down && av > start {
            let chain0: Seq<Binding> = match found {
                Some(i) => chains[i].1,
                None => Seq::empty(),
            };
            let rest: Seq<(Device, Seq<Binding>)> = match found {
                Some(i) => chains.remove(i),
                None => chains,
            };
            let chain1 = chain0.push(ev.binding);
            (
                down.push((ev.device, ev.binding)),
                rest.push((ev.device, chain1)),
                seq![CaptureEv::Pressed(ev.device, chain1)],
            )
        } else if is_down && av < end {
            match found {
                Some(i) => {
                    let chain = chains[i].1;
                    (
                        down.filter(
                            |p: (Device, Binding)| !(p.0 == ev.device && chain.contains(p.1)),
                        ),
                        chains.remove(i),
                        seq![CaptureEv::Released(ev.device, chain)],
                    )
                },
                None => (
                    down.filter(crate::tables::not_pair(ev.device, ev.binding)),
                    chains,
                    Seq::empty(),
                ),
            }
        } else {
            (down, chains, Seq::empty())
        }
    }
}

/// A whole tick of rebind capture, event by event.
pub open spec fn capture_run(
    devs: Seq<Device>,
    ex: Seq<Binding>,
    inc: Seq<Binding>,
    start: i64,
    end: i64,
    down: Seq<(Device, Binding)>,
    chains: Seq<(Device, Seq<Binding>)>,
    inputs: Seq<BindingInputEvent>,
) -> (Seq<(Device, Binding)>, Seq<(Device, Seq<Binding>)>, Seq<CaptureEv>)
    decreases inputs.len(),
{
    if inputs.len() == 0 {
        (down, chains, Seq::empty())
    } else {
        let s1 = capture_step(devs, ex, inc, start, end, down, chains, inputs[0]);
        let r = capture_run(devs, ex, inc, start, end, s1.0, s1.1, inputs.drop_first());
        (r.0, r.1, s1.2 + r.2)
    }
}

/// A pushed element is in a sequence exactly when it was there already or
/// is the pushed one.
proof fn lemma_push_contains<A>(s: Seq<A>, e: A, x: A)
    ensures
        s.push(e).contains(x) <==> (s.contains(x) || x == e),
{
    if s.push(e).contains(x) {
        let w = choose|w: int| 0 <= w < s.push(e).len() && s.push(e)[w] == x;
        if w < s.len() {
            assert(s[w] == x);
        }
    }
    if s.contains(x) {
        let w = choose|w: int| 0 <= w < s.len() && s[w] == x;
        assert(s.push(e)[w] == x);
    }
    if x == e {
        assert(s.push(e)[s.len() as int] == x);
    }
}

/// Two filters in a row act as the one filter by both predicates.
proof fn lemma_filter_compose<A>(s: Seq<A>, p: spec_fn(A) -> bool, q: spec_fn(A) -> bool)
    ensures
        s.filter(p).filter(q) == s.filter(|x: A| p(x) && q(x)),
    decreases s.len(),
{
    reveal_with_fuel(Seq::filter, 2);
    if s.len() == 0 {
        assert(s.filter(p) =~= Seq::<A>::empty());
        assert(s.filter(|x: A| p(x) && q(x)) =~= Seq::<A>::empty());
        assert(s.filter(p).filter(q) =~= Seq::<A>::empty());
    } else {
        lemma_filter_compose(s.drop_last(), p, q);
        let both = |x: A| p(x) && q(x);
        if p(s.last()) {
            assert(s.filter(p) == s.drop_last().filter(p).push(s.last()));
            crate::tables::lemma_filter_push(s.drop_last().filter(p), q, s.last());
        } else {
            assert(s.filter(p) == s.drop_last().filter(p));
            assert(s.filter(both) == s.drop_last().filter(both));
        }
    }
}

/// A filter whose predicate accepts everything changes nothing.
proof fn lemma_filter_trivial<A>(s: Seq<A>, p: spec_fn(A) -> bool)
    requires
        forall|x: A| #[trigger] p(x),
    ensures
        s.filter(p) == s,
    decreases s.len(),
{
    reveal_with_fuel(Seq::filter, 2);
    if s.len() == 0 {
        assert(s.filter(p) =~= s);
    } else {
        lemma_filter_trivial(s.drop_last(), p);
        assert(s.filter(p) == s.drop_last().filter(p).push(s.last()));
        assert(s.drop_last().push(s.last()) =~= s);
    }
}

/// Filters by pointwise-equal predicates agree.
proof fn lemma_filter_ext<A>(s: Seq<A>, p: spec_fn(A) -> bool, q: spec_fn(A) -> bool)
    requires
        forall|x: A| #[trigger] p(x) == #[trigger] q(x),
    ensures
        s.filter(p) == s.filter(q),
    decreases s.len(),
{
    reveal_with_fuel(Seq::filter, 2);
    if s.len() == 0 {
        assert(s.filter(p) =~= Seq::<A>::empty());
        assert(s.filter(q) =~= Seq::<A>::empty());
    } else {
        lemma_filter_ext(s.drop_last(), p, q);
    }
}

/// Finds the position of a device's capture chain, if one exists.
pub(crate) fn chain_index(v: &Vec<(Device, Vec<Binding>)>, d: Device) -> (r: Option<usize>)
    ensures
        match r {
            Some(i) => i < v@.len() && chain_find(chain_views(v@), d) == Some(i as int),
            None => chain_find(chain_views(v@), d) is None,
        },
{
    let mut i: usize = 0;
    while i < v.len()
        invariant
            i <= v.len(),
            forall|k: int| 0 <= k < i ==> (#[trigger] v@[k]).0 != d,
        decreases v.len() - i,
    {
        if v[i].0 == d {
            proof {
                assert(forall|k: int|
                    0 <= k < v@.len() ==> (#[trigger] chain_views(v@)[k]).0 == v@[k].0);
                lemma_chain_find_first(chain_views(v@), d, i as int);
            }
            return Some(i);
        }
        i = i + 1;
    }
    proof {
        assert(forall|k: int|
            0 <= k < v@.len() ==> (#[trigger] chain_views(v@)[k]).0 == v@[k].0);
        lemma_chain_find_none(chain_views(v@), d);
    }
    None
}

/// Rebind capture: while a device is in capture, a capturable binding
/// rising above the start threshold joins the device's chord and emits
/// `BindPressed` with the chord so far; one falling below the end threshold
/// releases the whole chord and emits `BindReleased` with it.
#[verifier::loop_isolation(false)]
#[verifier::rlimit(60)]
pub(crate) fn run_capture(
    capture_down: &mut Vec<(Device, Binding)>,
    capture_chains: &mut Vec<(Device, Vec<Binding>)>,
    capture_devices: &Vec<Device>,
    excludes: &Vec<Binding>,
    includes: &Vec<Binding>,
    start_dead: i64,
    end_dead: i64,
    inputs: &Vec<BindingInputEvent>,
    out: &mut Vec<InputMapEvent>,
)
    requires
        forall|j: int|
            0 <= j < inputs@.len() ==> -crate::values::VAL_MAX <= (
            #[trigger] inputs@[j]).value <= crate::values::VAL_MAX,
    ensures
        ({
            let r = capture_run(
                capture_devices@,
                excludes@,
                includes@,
                start_dead,
                end_dead,
                old(capture_down)@,
                chain_views(old(capture_chains)@),
                inputs@,
            );
            &&& final(capture_down)@ == r.0
            &&& chain_views(final(capture_chains)@) == r.1
            &&& final(out)@.len() == old(out)@.len() + r.2.len()
            &&& forall|i: int| 0 <= i < old(out)@.len() ==> final(out)@[i] == old(out)@[i]
            &&& forall|i: int|
                0 <= i < r.2.len() ==> capture_matches(
                    #[trigger] final(out)@[old(out)@.len() + i],
                    r.2[i],
                )
        }),
        inputs@.len() == 0 ==> final(capture_down)@ == old(capture_down)@
            && final(capture_chains)@ == old(capture_chains)@ && final(out)@ == old(out)@,
{
    if inputs.len() == 0 {
        return;
    }
    let ghost full = capture_run(
        capture_devices@,
        excludes@,
        includes@,
        start_dead,
        end_dead,
        capture_down@,
        chain_views(capture_chains@),
        inputs@,
    );
    let ghost out0_len = out@.len();
    let ghost mut emitted: Seq<CaptureEv> = Seq::empty();
    let mut i: usize = 0;
    assert(inputs@.skip(0) =~= inputs@);
    while i < inputs.len()
        invariant
            i <= inputs.len(),
            out0_len <= out@.len(),
            ({
                let rem = capture_run(
                    capture_devices@,
                    excludes@,
                    includes@,
                    start_dead,
                    end_dead,
                    capture_down@,
                    chain_views(capture_chains@),
                    inputs@.skip(i as int),
                );
                &&& full.0 == rem.0
                &&& full.1 == rem.1
                &&& full.2 == emitted + rem.2
            }),
            out@.len() == out0_len + emitted.len(),
            forall|k: int| 0 <= k < out0_len ==> out@[k] == old(out)@[k],
            forall|k: int|
                0 <= k < emitted.len() ==> capture_matches(
                    #[trigger] out@[out0_len + k],
                    emitted[k],
                ),
        decreases inputs.len() - i,
    {
        proof {
            assert(inputs@.skip(i as int)[0] == inputs@[i as int]);
            assert(inputs@.skip(i as int).drop_first() =~= inputs@.skip(i + 1));
        }
        let ghost down0 = capture_down@;
        let ghost chains0 = chain_views(capture_chains@);
        let ghost step = capture_step(
            capture_devices@,
            excludes@,
            includes@,
            start_dead,
            end_dead,
            down0,
            chains0,
            inputs@[i as int],
        );
        let ev = inputs[i];
        let in_capture = crate::tables::dev_contains(capture_devices, ev.device)
            && is_capturable(excludes, includes, ev.binding);
        if in_capture {
            let is_down = crate::tables::pair_contains(capture_down, ev.device, ev.binding);
            let av: i64 = if ev.value < 0 { -ev.value } else { ev.value };
            if !is_down && av > start_dead {
                let idx = chain_index(capture_chains, ev.device);
                let mut chain: Vec<Binding> = match idx {
                    Some(x) => {
                        let (_d, ch) = capture_chains.remove(x);
                        proof {
                            assert(chain_views(capture_chains@) =~= chains0.remove(
                                chain_find(chains0, ev.device)->0,
                            ));
                        }
                        ch
                    },
                    None => Vec::new(),
                };
                chain.push(ev.binding);
                let snapshot = copy_bindings(&chain);
                capture_chains.push((ev.device, chain));
                out.push(InputMapEvent::BindPressed { device: ev.device, bindings: snapshot });
                crate::tables::pair_insert(capture_down, ev.device, ev.binding);
                proof {
                    assert(chain_views(capture_chains@) =~= step.1);
                    assert(capture_down@ == step.0);
                    emitted = emitted + step.2;
                }
            } else if is_down && av < end_dead {
                let idx = chain_index(capture_chains, ev.device);
                match idx {
                    Some(x) => {
                        let (_d, chain) = capture_chains.remove(x);
                        proof {
                            assert(chain_views(capture_chains@) =~= chains0.remove(
                                chain_find(chains0, ev.device)->0,
                            ));
                        }
                        let ghost fullchain = chain@;
                        let ghost downs0 = capture_down@;
                        proof {
                            let p0 = |p: (Device, Binding)| !(p.0 == ev.device
                                && fullchain.take(0).contains(p.1));
                            assert forall|p: (Device, Binding)| #[trigger] p0(p) by {
                                assert(fullchain.take(0) =~= Seq::<Binding>::empty());
                            }
                            lemma_filter_trivial(downs0, p0);
                        }
                        let mut b: usize = 0;
                        while b < chain.len()
                            invariant
                                b <= chain.len(),
                                fullchain == chain@,
                                capture_down@ == downs0.filter(
                                    |p: (Device, Binding)| !(p.0 == ev.device
                                        && fullchain.take(b as int).contains(p.1)),
                                ),
                            decreases chain.len() - b,
                        {
                            let ghost before = capture_down@;
                            let ghost pred_b = |p: (Device, Binding)| !(p.0 == ev.device
                                && fullchain.take(b as int).contains(p.1));
                            let ghost pred_b1 = |p: (Device, Binding)| !(p.0 == ev.device
                                && fullchain.take(b + 1).contains(p.1));
                            crate::tables::pair_remove(capture_down, ev.device, chain[b]);
                            proof {
                                let npair = crate::tables::not_pair(ev.device, fullchain[b as int]);
                                let comb = |p: (Device, Binding)| pred_b(p) && npair(p);
                                lemma_filter_compose(downs0, pred_b, npair);
                                assert(downs0.filter(pred_b).filter(npair) == downs0.filter(comb));
                                assert(fullchain.take(b + 1) =~= fullchain.take(b as int).push(
                                    fullchain[b as int],
                                ));
                                assert forall|p: (Device, Binding)| #[trigger] comb(p) == pred_b1(
                                    p,
                                ) by {
                                    lemma_push_contains(
                                        fullchain.take(b as int),
                                        fullchain[b as int],
                                        p.1,
                                    );
                                    if p.0 == ev.device && p.1 == fullchain[b as int] {
                                        assert(!npair(p));
                                        assert(fullchain.take(b + 1).contains(p.1));
                                    }
                                }
                                lemma_filter_ext(downs0, comb, pred_b1);
                            }
                            b = b + 1;
                        }
                        proof {
                            assert(fullchain.take(fullchain.len() as int) =~= fullchain);
                            lemma_filter_ext(
                                downs0,
                                |p: (Device, Binding)| !(p.0 == ev.device
                                    && fullchain.take(fullchain.len() as int).contains(p.1)),
                                |p: (Device, Binding)| !(p.0 == ev.device && fullchain.contains(
                                    p.1,
                                )),
                            );
                        }
                        out.push(
                            InputMapEvent::BindReleased { device: ev.device, bindings: chain },
                        );
                        proof {
                            assert(capture_down@ == step.0);
                            assert(chain_views(capture_chains@) == step.1);
                            emitted = emitted + step.2;
                        }
                    },
                    None => {
                        crate::tables::pair_remove(capture_down, ev.device, ev.binding);
                        proof {
                            assert(capture_down@ == step.0);
                            assert(chain_views(capture_chains@) == step.1);
                            assert(step.2 =~= Seq::<CaptureEv>::empty());
                            emitted = emitted + step.2;
                        }
                    },
                }
            } else {
                proof {
                    assert(step.0 == capture_down@ && step.1 == chain_views(capture_chains@));
                    assert(step.2 =~= Seq::<CaptureEv>::empty());
                    emitted = emitted + step.2;
                }
            }
        } else {
            proof {
                assert(step.0 == capture_down@ && step.1 == chain_views(capture_chains@));
                assert(step.2 =~= Seq::<CaptureEv>::empty());
                emitted = emitted + step.2;
            }
        }
        proof {
            assert(full.2 =~= emitted + capture_run(
                capture_devices@,
                excludes@,
                includes@,
                start_dead,
                end_dead,
                capture_down@,
                chain_views(capture_chains@),
                inputs@.skip(i + 1),
            ).2);
        }
        i = i + 1;
    }
    assert(inputs@.skip(inputs@.len() as int) =~= Seq::<BindingInputEvent>::empty());
    assert(full.2 =~= emitted);
}

/// Rows kept by a filter keep their value bounds.
pub proof fn lemma_filtered_rows_bounded(before: Seq<ContribV>, p: spec_fn(ContribV) -> bool)
    requires
        forall|i: int|
            0 <= i < before.len() ==> -CONTRIB_MAX <= (#[trigger] before[i]).value
                <= CONTRIB_MAX,
    ensures
        forall|i: int|
            0 <= i < before.filter(p).len() ==> -CONTRIB_MAX <= (
            #[trigger] before.filter(p)[i]).value <= CONTRIB_MAX,
{
    lemma_filter_sub(before, p);
    assert forall|i: int|
        0 <= i < before.filter(p).len() implies -CONTRIB_MAX <= (
        #[trigger] before.filter(p)[i]).value <= CONTRIB_MAX by {
        let row = before.filter(p)[i];
        assert(before.contains(row));
        let wx = choose|wx: int| 0 <= wx < before.len() && before[wx] == row;
        assert(-CONTRIB_MAX <= before[wx].value <= CONTRIB_MAX);
    }
}

impl InputMap {
    /// Resolves one tick of canonical binding events into mapping events.
    ///
    /// Runs, in order: cleanup of devices entering rebind capture, of
    /// ownership changes and disconnects reported by `raw` and the
    /// ownership feed; pruning after a `set_bindings` call; modifier
    /// tracking and the modifier-release cascade; a flush emitting
    /// `ValueChanged` and edge events for every mapping whose aggregate
    /// moved; primary resolution of each event in `inputs`; the repeat
    /// scheduler (`delta` is the tick's duration, same fixed-point unit as
    /// the repeat configuration); and rebind capture.
    ///
    /// Fails, stopping the tick, only when two distinct chords sharing one
    /// primary binding are found simultaneously active on one device; a
    /// registry in which no two rows of an owner share a primary binding
    /// can never fail.  The contract pins the whole pipeline, with the
    /// pruning of a pending configuration change folded in: the surviving
    /// contributions, the modifier cache, the repeat timers, the remembered
    /// ownership, the owner-routing set, the capture state and the emitted
    /// events are each given exactly by the composed phase functions.
    #[verifier::rlimit(100)]
    pub fn mapping_event_system(
        &mut self,
        raw: &Vec<RawInputEvent>,
        inputs: &Vec<BindingInputEvent>,
        gamepad_owners: &Vec<(u64, i32)>,
        delta: i64,
    ) -> (r: Result<Vec<InputMapEvent>, InputMapError>)
        requires
            old(self).wf(),
            0 <= delta <= crate::values::RAW_MAX,
            forall|i: int|
                0 <= i < inputs@.len() ==> -crate::values::VAL_MAX <= (
                #[trigger] inputs@[i]).value <= crate::values::VAL_MAX,
        ensures
            final(self).wf(),
            final(self).cfg == old(self).cfg,
            final(self).norm == old(self).norm,
            unique_primaries(views(old(self).cfg.configs@)) ==> r is Ok,
            final(self).run.bindings_updated == false,
            ({
                let devs = old(self).cfg.capture_devices@;
                let ex = old(self).cfg.capture_excludes@;
                let inc = old(self).cfg.capture_includes@;
                let cfgs = views(old(self).cfg.configs@);
                let reps = old(self).cfg.repeats@;
                let disc = disc_of(raw@);
                let entered = exists|i: int|
                    0 <= i < devs.len() && !old(self).run.capture_lasts@.contains(
                        #[trigger] devs[i],
                    );
                let pruned = old(self).run.bindings_updated;
                let c0 = views(old(self).run.contribs@);
                let c1 = if entered {
                    c0.filter(keep_capture_row(devs, ex, inc))
                } else {
                    c0
                };
                let c2 = c1.filter(
                    |c: ContribV| keep_owner_row(
                        old(self).run.prev_owners@,
                        gamepad_owners@,
                        disc,
                        c,
                    ),
                );
                let c3 = if pruned {
                    c2.filter(|c: ContribV| row_configured(cfgs, c))
                } else {
                    c2
                };
                let rep0 = if pruned {
                    old(self).run.rep_states@.filter(
                        |t: RepState| pair_configured(cfgs, t.owner, t.mapping),
                    )
                } else {
                    old(self).run.rep_states@
                };
                let others1 = if pruned {
                    other_owners_of(cfgs)
                } else {
                    old(self).run.other_owners@
                };
                let mods1 = mods_after(
                    devs,
                    ex,
                    inc,
                    old(self).run.mod_vals@.filter(keep_mv_row(disc)),
                    inputs@,
                );
                let c4 = cascade_inputs(c3, cfgs, gamepad_owners@, others1, inputs@);
                let snap = tick_snapshot(c0);
                let flevs = flush_events(snap, c4);
                let rep1 = flush_rep(snap, c4, reps, rep0);
                let env = ResolveEnv {
                    cfgs,
                    repeats: reps,
                    mods: mods1,
                    devs,
                    ex,
                    inc,
                    feed: gamepad_owners@,
                    others: others1,
                };
                &&& final(self).run.mod_vals@ == mods1
                &&& final(self).run.prev_owners@ == gamepad_owners@.filter(keep_po_row(disc))
                &&& final(self).run.other_owners@ == others1
                &&& match resolve_run(env, c4, rep1, inputs@) {
                    Err(e) => r == Err::<Vec<InputMapEvent>, InputMapError>(e),
                    Ok(st) => ({
                        let rr = repeats_run(st.0, st.1, reps, cfgs, delta);
                        let cap = capture_run(
                            devs,
                            ex,
                            inc,
                            old(self).cfg.capture_start_dead,
                            old(self).cfg.capture_end_dead,
                            old(self).run.capture_down@,
                            chain_views(old(self).run.capture_chains@),
                            inputs@,
                        );
                        let lead = flevs + st.2 + rr.1;
                        &&& r is Ok
                        &&& views(final(self).run.contribs@) == st.0
                        &&& final(self).run.rep_states@ == rr.0
                        &&& final(self).run.capture_lasts@ == devs
                        &&& final(self).run.capture_down@ == cap.0
                        &&& chain_views(final(self).run.capture_chains@) == cap.1
                        &&& r->Ok_0@.len() == lead.len() + cap.2.len()
                        &&& r->Ok_0@.take(lead.len() as int) == lead
                        &&& forall|k: int|
                            0 <= k < cap.2.len() ==> capture_matches(
                                #[trigger] r->Ok_0@[lead.len() + k],
                                cap.2[k],
                            )
                    }),
                }
            }),
    {
        let snap = build_snapshot(&self.run.contribs);
        let disc = collect_disconnects(raw);

        let ghost c0 = views(self.run.contribs@);
        capture_entry_cleanup(
            &mut self.run.contribs,
            &self.cfg.capture_devices,
            &self.run.capture_lasts,
            &self.cfg.capture_excludes,
            &self.cfg.capture_includes,
        );
        proof {
            lemma_filtered_rows_bounded(
                c0,
                keep_capture_row(
                    self.cfg.capture_devices@,
                    self.cfg.capture_excludes@,
                    self.cfg.capture_includes@,
                ),
            );
            assert forall|j: int|
                0 <= j < self.run.contribs@.len() implies -CONTRIB_MAX <= (
                #[trigger] self.run.contribs@[j]).value <= CONTRIB_MAX by {
                assert(views(self.run.contribs@)[j] == self.run.contribs@[j]@);
            }
        }

        let ghost c1 = views(self.run.contribs@);
        let ghost prev0 = self.run.prev_owners@;
        owner_disconnect_cleanup(
            &mut self.run.contribs,
            &mut self.run.mod_vals,
            &mut self.run.prev_owners,
            gamepad_owners,
            &disc,
        );
        proof {
            lemma_filtered_rows_bounded(
                c1,
                |c: ContribV| keep_owner_row(prev0, gamepad_owners@, disc@, c),
            );
            assert forall|j: int|
                0 <= j < self.run.contribs@.len() implies -CONTRIB_MAX <= (
                #[trigger] self.run.contribs@[j]).value <= CONTRIB_MAX by {
                assert(views(self.run.contribs@)[j] == self.run.contribs@[j]@);
            }
            let mvb = old(self).run.mod_vals@;
            lemma_filter_sub(mvb, keep_mv_row(disc@));
            assert forall|j: int|
                0 <= j < self.run.mod_vals@.len() implies -crate::values::VAL_MAX <= (
                #[trigger] self.run.mod_vals@[j]).2 <= crate::values::VAL_MAX by {
                let row = self.run.mod_vals@[j];
                assert(row == mvb.filter(keep_mv_row(disc@))[j]);
                assert(mvb.contains(row));
                let wx = choose|wx: int| 0 <= wx < mvb.len() && mvb[wx] == row;
                assert(-crate::values::VAL_MAX <= mvb[wx].2 <= crate::values::VAL_MAX);
            }
        }

        if self.run.bindings_updated {
            let ghost c2 = views(self.run.contribs@);
            let ghost rs2 = self.run.rep_states@;
            prune_configs(
                &mut self.run.contribs,
                &mut self.run.rep_states,
                &mut self.run.other_owners,
                &self.cfg.configs,
            );
            self.run.bindings_updated = false;
            proof {
                lemma_filtered_rows_bounded(
                    c2,
                    |c: ContribV| row_configured(views(self.cfg.configs@), c),
                );
                assert forall|j: int|
                    0 <= j < self.run.contribs@.len() implies -CONTRIB_MAX <= (
                    #[trigger] self.run.contribs@[j]).value <= CONTRIB_MAX by {
                    assert(views(self.run.contribs@)[j] == self.run.contribs@[j]@);
                }
                let pg = |rr: RepState|
                    pair_configured(views(self.cfg.configs@), rr.owner, rr.mapping);
                lemma_filter_sub(rs2, pg);
                assert forall|j: int|
                    0 <= j < self.run.rep_states@.len() implies 0 <= (
                    #[trigger] self.run.rep_states@[j]).accum <= crate::values::ACCUM_MAX by {
                    let row = self.run.rep_states@[j];
                    assert(row == rs2.filter(pg)[j]);
                    assert(rs2.contains(row));
                    let wx = choose|wx: int| 0 <= wx < rs2.len() && rs2[wx] == row;
                    assert(0 <= rs2[wx].accum <= crate::values::ACCUM_MAX);
                }
            }
        }

        track_modifiers(
            &mut self.run.mod_vals,
            &self.cfg.capture_devices,
            &self.cfg.capture_excludes,
            &self.cfg.capture_includes,
            inputs,
        );

        modifier_cascade(
            &mut self.run.contribs,
            &self.cfg.configs,
            gamepad_owners,
            &self.run.other_owners,
            inputs,
        );
        proof {
            let c3pre = views(self.run.contribs@);
            assert forall|j: int|
                0 <= j < self.run.contribs@.len() implies -CONTRIB_MAX <= (
                #[trigger] self.run.contribs@[j]).value <= CONTRIB_MAX by {
                let row = self.run.contribs@[j]@;
                assert(views(self.run.contribs@)[j] == row);
                assert(views(self.run.contribs@).contains(row)) by {
                    assert(views(self.run.contribs@)[j] == row);
                }
            }
        }

        let mut out: Vec<InputMapEvent> = Vec::new();
        flush_changes(
            &mut out,
            &self.run.contribs,
            &snap,
            &self.cfg.repeats,
            &mut self.run.rep_states,
        );
        let ghost lead1 = out@;

        let res = resolve_inputs(
            &mut self.run.contribs,
            &mut self.run.rep_states,
            &self.cfg.configs,
            &self.run.mod_vals,
            &self.cfg.repeats,
            gamepad_owners,
            &self.run.other_owners,
            &self.cfg.capture_devices,
            &self.cfg.capture_excludes,
            &self.cfg.capture_includes,
            inputs,
            &mut out,
        );
        if let Err(e) = res {
            return Err(e);
        }

        run_repeats(
            &self.run.contribs,
            &mut self.run.rep_states,
            &self.cfg.repeats,
            &self.cfg.configs,
            delta,
            &mut out,
        );
        let ghost lead2 = out@;

        run_capture(
            &mut self.run.capture_down,
            &mut self.run.capture_chains,
            &self.cfg.capture_devices,
            &self.cfg.capture_excludes,
            &self.cfg.capture_includes,
            self.cfg.capture_start_dead,
            self.cfg.capture_end_dead,
            inputs,
            &mut out,
        );

        self.run.capture_lasts = copy_devices(&self.cfg.capture_devices);
        proof {
            assert(out@.take(lead2.len() as int) =~= lead2);
        }
        Ok(out)
    }
}

} // verus!
