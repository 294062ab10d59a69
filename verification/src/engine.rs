//! The engine's state: configuration registry, normalizer caches and
//! resolver runtime tables, with the configuration methods.
//!
//! All state lives in one explicitly owned `InputMap` value.  Applications
//! configure it through the `set_*` methods between ticks and drive it once
//! per tick through `binding_inputs_system` and `mapping_event_system`.

use vstd::prelude::*;

use crate::sums::agg;
use crate::sums::lemma_agg_push;
use crate::tables::lemma_filter_push;
use crate::tables::views;
use crate::tables::dz_set;
use crate::tables::dev_insert;
use crate::tables::dev_remove;
use crate::tables::rp_set;
use crate::tables::not_rp;
use crate::tables::not_dz;
use crate::values::Binding;
use crate::values::BindingGroup;
use crate::values::BindingGroupView;
use crate::values::DeadZone;
use crate::values::Device;
use crate::values::CONTRIB_MAX;
use crate::values::ACCUM_MAX;
use crate::values::RAW_MAX;
use crate::values::SCALE_MAX;
use crate::values::VAL_MAX;

verus! {

/// One configured chord: for `owner`, the chord `group` drives `mapping`,
/// scaled by `scale`, with the chord's own dead thresholds.
#[derive(Debug)]
pub struct BindConfig {
    pub owner: i32,
    pub mapping: u32,
    pub group: BindingGroup,
    /// Fixed-point multiplier applied to the primary binding's value.
    pub scale: i64,
    /// Primary values of smaller magnitude count as zero.
    pub primary_dead: i64,
    /// Modifier values of smaller magnitude count as not held.
    pub modifier_dead: i64,
}

/// The mathematical value of a `BindConfig`.
pub struct ConfigV {
    pub owner: i32,
    pub mapping: u32,
    pub group: BindingGroupView,
    pub scale: i64,
    pub primary_dead: i64,
    pub modifier_dead: i64,
}

impl View for BindConfig {
    type V = ConfigV;

    open spec fn view(&self) -> ConfigV {
        ConfigV {
            owner: self.owner,
            mapping: self.mapping,
            group: self.group@,
            scale: self.scale,
            primary_dead: self.primary_dead,
            modifier_dead: self.modifier_dead,
        }
    }
}

impl Clone for BindConfig {
    /// Cloning keeps the row's value.
    fn clone(&self) -> (r: Self)
        ensures
            r@ == self@,
    {
        BindConfig {
            owner: self.owner,
            mapping: self.mapping,
            group: self.group.clone(),
            scale: self.scale,
            primary_dead: self.primary_dead,
            modifier_dead: self.modifier_dead,
        }
    }
}

/// One live contribution: on `device`, the chord `group` currently feeds
/// `value` into `(owner, mapping)`.
#[derive(Debug)]
pub struct Contrib {
    pub owner: i32,
    pub mapping: u32,
    pub device: Device,
    pub group: BindingGroup,
    pub value: i64,
}

/// The mathematical value of a `Contrib`.
pub struct ContribV {
    pub owner: i32,
    pub mapping: u32,
    pub device: Device,
    pub group: BindingGroupView,
    pub value: i64,
}

impl View for Contrib {
    type V = ContribV;

    open spec fn view(&self) -> ContribV {
        ContribV {
            owner: self.owner,
            mapping: self.mapping,
            device: self.device,
            group: self.group@,
            value: self.value,
        }
    }
}

/// Auto-repeat runtime state of one `(owner, mapping)` pair.
#[derive(Clone, Copy, Debug, PartialEq, Eq, Structural)]
pub struct RepState {
    pub owner: i32,
    pub mapping: u32,
    /// Accumulated tick time since arming or the last firing.
    pub accum: i64,
    /// Whether the initial delay has elapsed.
    pub repeating: bool,
}

/// One entry of a `set_bindings` call: bind `bindings` (modifiers first,
/// primary last) to `mapping` with the given scale and dead thresholds.
#[derive(Debug)]
pub struct MappingBind {
    pub mapping: u32,
    pub bindings: Vec<Binding>,
    pub scale: i64,
    pub primary_dead: i64,
    pub modifier_dead: i64,
}

/// Configuration supplied by the application.
pub struct EngineConfig {
    /// The registry: every configured chord row.
    pub configs: Vec<BindConfig>,
    /// Per mapping: auto-repeat initial delay and interval.
    pub repeats: Vec<(u32, i64, i64)>,
    /// Bindings that never take part in rebind capture.
    pub capture_excludes: Vec<Binding>,
    /// When non-empty, bindings on this list never take part in capture.
    pub capture_includes: Vec<Binding>,
    /// A capture chord member must exceed this to count as pressed.
    pub capture_start_dead: i64,
    /// A capture chord member must fall below this to count as released.
    pub capture_end_dead: i64,
    /// Devices currently in rebind capture.
    pub capture_devices: Vec<Device>,
    /// Per `(device, binding)`: the dead zone the normalizer applies.
    pub dead_zones: Vec<(Device, Binding, DeadZone)>,
}

/// The normalizer's per-tick caches.
pub struct NormalizerState {
    /// Last dead-zoned value seen per `(gamepad device, axis)`.
    pub axis_lasts: Vec<(Device, u32, i64)>,
    /// Keys currently held, for edge filtering of auto-repeated key events.
    pub key_lasts: Vec<u32>,
    /// Mouse buttons currently held, for edge filtering of repeated downs.
    pub button_lasts: Vec<u32>,
}

/// The resolver's runtime tables.
pub struct ResolverState {
    /// Set by `set_bindings`; makes the next tick prune stale contributions.
    pub bindings_updated: bool,
    /// The live contribution rows.
    pub contribs: Vec<Contrib>,
    /// Last non-zero value per `(device, binding)`, for modifier-held tests.
    pub mod_vals: Vec<(Device, Binding, i64)>,
    /// Auto-repeat timers.
    pub rep_states: Vec<RepState>,
    /// The owner each gamepad had last tick.
    pub prev_owners: Vec<(u64, i32)>,
    /// Owners whose configuration references a keyboard-or-mouse binding.
    pub other_owners: Vec<i32>,
    /// The devices that were in capture mode last tick.
    pub capture_lasts: Vec<Device>,
    /// Capture-chord members currently held, per device.
    pub capture_down: Vec<(Device, Binding)>,
    /// The capture chord accumulated per device, in press order.
    pub capture_chains: Vec<(Device, Vec<Binding>)>,
}

/// The input-binding resolution engine.
pub struct InputMap {
    pub cfg: EngineConfig,
    pub norm: NormalizerState,
    pub run: ResolverState,
}

/// The chord a `set_bindings` entry configures: all bindings but the last
/// are modifiers, the last is the primary.
pub open spec fn entry_group(e: MappingBind) -> BindingGroupView {
    BindingGroupView { modifiers: e.bindings@.drop_last(), primary: e.bindings@.last() }
}

/// The registry row a `set_bindings` entry creates.
pub open spec fn row_of(owner: i32, e: MappingBind) -> ConfigV {
    ConfigV {
        owner,
        mapping: e.mapping,
        group: entry_group(e),
        scale: e.scale,
        primary_dead: e.primary_dead,
        modifier_dead: e.modifier_dead,
    }
}

/// The predicate keeping every registry row except those for `(m, g)`.
pub open spec fn not_cfg_key(m: u32, g: BindingGroupView) -> spec_fn(ConfigV) -> bool {
    |c: ConfigV| !(c.mapping == m && c.group == g)
}

/// The predicate keeping every registry row of owners other than `o`.
pub open spec fn not_owner(o: i32) -> spec_fn(ConfigV) -> bool {
    |c: ConfigV| c.owner != o
}

/// The registry rows a `set_bindings` call derives from its entries, in
/// order: entries with an empty chord are dropped, and a later entry for the
/// same `(mapping, chord)` replaces an earlier one.
pub open spec fn rows_of(owner: i32, entries: Seq<MappingBind>) -> Seq<ConfigV>
    decreases entries.len(),
{
    if entries.len() == 0 {
        Seq::empty()
    } else {
        let prior = rows_of(owner, entries.drop_last());
        let e = entries.last();
        if e.bindings@.len() == 0 {
            prior
        } else {
            prior.filter(not_cfg_key(e.mapping, entry_group(e))).push(row_of(owner, e))
        }
    }
}

/// Mapping a pushed row sequence to views pushes the row's view.
pub proof fn lemma_views_push<T: View>(s: Seq<T>, x: T)
    ensures
        views(s.push(x)) == views(s).push(x@),
{
    assert(views(s.push(x)) =~= views(s).push(x@));
}

/// Taking a prefix then viewing equals viewing then taking the prefix.
pub proof fn lemma_views_take<T: View>(s: Seq<T>, i: int)
    requires
        0 <= i <= s.len(),
    ensures
        views(s.take(i)) == views(s).take(i),
{
    assert(views(s.take(i)) =~= views(s).take(i));
}

/// The first-matching contribution value for an exact
/// `(owner, mapping, device, chord)` key, zero when none is stored.
pub open spec fn cv_spec(
    s: Seq<ContribV>,
    o: i32,
    m: u32,
    d: Device,
    g: BindingGroupView,
) -> i64
    decreases s.len(),
{
    if s.len() == 0 {
        0
    } else if s[0].owner == o && s[0].mapping == m && s[0].device == d && s[0].group == g {
        s[0].value
    } else {
        cv_spec(s.drop_first(), o, m, d, g)
    }
}

/// The predicate keeping every contribution row except the exact
/// `(owner, mapping, device, chord)` key.
pub open spec fn not_contrib(o: i32, m: u32, d: Device, g: BindingGroupView) -> spec_fn(
    ContribV,
) -> bool {
    |c: ContribV| !(c.owner == o && c.mapping == m && c.device == d && c.group == g)
}

/// Reads the stored contribution value for an exact key.
pub(crate) fn contrib_get(v: &Vec<Contrib>, o: i32, m: u32, d: Device, g: &BindingGroup) -> (r:
    i64)
    ensures
        r == cv_spec(views(v@), o, m, d, g@),
{
    let mut i: usize = 0;
    assert(views(v@).skip(0) =~= views(v@));
    while i < v.len()
        invariant
            i <= v.len(),
            cv_spec(views(v@), o, m, d, g@) == cv_spec(views(v@).skip(i as int), o, m, d, g@),
        decreases v.len() - i,
    {
        proof {
            assert(views(v@).skip(i as int).drop_first() =~= views(v@).skip(i + 1));
            assert(views(v@).skip(i as int)[0] == v@[i as int]@);
        }
        let c = &v[i];
        if c.owner == o && c.mapping == m && c.device == d && c.group.group_eq(g) {
            return c.value;
        }
        i = i + 1;
    }
    assert(views(v@).skip(views(v@).len() as int) =~= Seq::<ContribV>::empty());
    0
}

/// Stores a contribution value under an exact key, replacing any previous
/// row for that key.
pub(crate) fn contrib_set(v: &mut Vec<Contrib>, o: i32, m: u32, d: Device, g: &BindingGroup, val: i64)
    ensures
        views(final(v)@) == views(old(v)@).filter(not_contrib(o, m, d, g@)).push(
            ContribV { owner: o, mapping: m, device: d, group: g@, value: val },
        ),
{
    let mut out: Vec<Contrib> = Vec::new();
    let mut i: usize = 0;
    while i < v.len()
        invariant
            i <= v.len(),
            views(out@) == views(v@).take(i as int).filter(not_contrib(o, m, d, g@)),
        decreases v.len() - i,
    {
        proof {
            lemma_views_take(v@, i as int);
            lemma_views_take(v@, i + 1);
            assert(views(v@).take(i + 1) =~= views(v@).take(i as int).push(v@[i as int]@));
            lemma_filter_push(views(v@).take(i as int), not_contrib(o, m, d, g@), v@[i as int]@);
        }
        let c = &v[i];
        if !(c.owner == o && c.mapping == m && c.device == d && c.group.group_eq(g)) {
            let kept = Contrib {
                owner: c.owner,
                mapping: c.mapping,
                device: c.device,
                group: c.group.clone(),
                value: c.value,
            };
            assert(kept@ == v@[i as int]@);
            proof {
                lemma_views_push(out@, kept);
            }
            out.push(kept);
        }
        i = i + 1;
    }
    assert(views(v@).take(v@.len() as int) =~= views(v@));
    let fresh = Contrib { owner: o, mapping: m, device: d, group: g.clone(), value: val };
    assert(fresh@ == (ContribV { owner: o, mapping: m, device: d, group: g@, value: val }));
    proof {
        lemma_views_push(out@, fresh);
    }
    out.push(fresh);
    *v = out;
}

/// Removes the contribution row of an exact key, if present.
pub(crate) fn contrib_remove(v: &mut Vec<Contrib>, o: i32, m: u32, d: Device, g: &BindingGroup)
    ensures
        views(final(v)@) == views(old(v)@).filter(not_contrib(o, m, d, g@)),
{
    let mut out: Vec<Contrib> = Vec::new();
    let mut i: usize = 0;
    while i < v.len()
        invariant
            i <= v.len(),
            views(out@) == views(v@).take(i as int).filter(not_contrib(o, m, d, g@)),
        decreases v.len() - i,
    {
        proof {
            lemma_views_take(v@, i as int);
            lemma_views_take(v@, i + 1);
            assert(views(v@).take(i + 1) =~= views(v@).take(i as int).push(v@[i as int]@));
            lemma_filter_push(views(v@).take(i as int), not_contrib(o, m, d, g@), v@[i as int]@);
        }
        let c = &v[i];
        if !(c.owner == o && c.mapping == m && c.device == d && c.group.group_eq(g)) {
            let kept = Contrib {
                owner: c.owner,
                mapping: c.mapping,
                device: c.device,
                group: c.group.clone(),
                value: c.value,
            };
            assert(kept@ == v@[i as int]@);
            proof {
                lemma_views_push(out@, kept);
            }
            out.push(kept);
        }
        i = i + 1;
    }
    assert(views(v@).take(v@.len() as int) =~= views(v@));
    *v = out;
}

/// Computes the aggregate value of `(owner, mapping)`: the sum of its
/// stored contribution values.
pub(crate) fn agg_value(v: &Vec<Contrib>, owner: i32, mapping: u32) -> (r: i128)
    ensures
        r == agg(views(v@), owner, mapping),
        -(v@.len() as int) * 0x8000_0000_0000_0000 <= r <= (v@.len() as int)
            * 0x8000_0000_0000_0000,
{
    let mut acc: i128 = 0;
    let mut i: usize = 0;
    assert(views(v@).take(0) =~= Seq::<ContribV>::empty());
    proof {
        crate::sums::lemma_agg_empty(owner, mapping);
    }
    while i < v.len()
        invariant
            i <= v.len(),
            acc == agg(views(v@).take(i as int), owner, mapping),
            -(i as int) * 0x8000_0000_0000_0000 <= acc <= (i as int) * 0x8000_0000_0000_0000,
        decreases v.len() - i,
    {
        proof {
            assert(views(v@).take(i + 1) =~= views(v@).take(i as int).push(v@[i as int]@));
            lemma_agg_push(views(v@).take(i as int), owner, mapping, v@[i as int]@);
        }
        let c = &v[i];
        if c.owner == owner && c.mapping == mapping {
            acc = acc + c.value as i128;
        }
        i = i + 1;
    }
    assert(views(v@).take(v@.len() as int) =~= views(v@));
    acc
}

impl InputMap {
    /// The engine's internal bounds: configured scales, stored contribution
    /// values, dead zones, repeat rows and repeat accumulators all stay
    /// within the ranges the arithmetic is proved safe for.
    pub open spec fn wf(&self) -> bool {
        &&& forall|i: int|
            0 <= i < self.cfg.configs@.len() ==> -SCALE_MAX <= (
            #[trigger] self.cfg.configs@[i]).scale <= SCALE_MAX
        &&& forall|i: int|
            0 <= i < self.cfg.dead_zones@.len() ==> (
            #[trigger] self.cfg.dead_zones@[i]).2.bounded()
        &&& forall|i: int|
            0 <= i < self.cfg.repeats@.len() ==> 0 <= (#[trigger] self.cfg.repeats@[i]).1
                <= RAW_MAX && 0 <= self.cfg.repeats@[i].2 <= RAW_MAX
        &&& forall|i: int|
            0 <= i < self.run.contribs@.len() ==> -CONTRIB_MAX <= (
            #[trigger] self.run.contribs@[i]).value <= CONTRIB_MAX
        &&& forall|i: int|
            0 <= i < self.run.rep_states@.len() ==> 0 <= (
            #[trigger] self.run.rep_states@[i]).accum <= ACCUM_MAX
        &&& forall|i: int|
            0 <= i < self.run.mod_vals@.len() ==> -VAL_MAX <= (
            #[trigger] self.run.mod_vals@[i]).2 <= VAL_MAX
    }

    /// The aggregate value of `(owner, mapping)` — always equal to the sum
    /// of the live `(device, chord)` contributions stored for that pair.
    pub fn mapping_value(&self, owner: i32, mapping: u32) -> (r: i128)
        ensures
            r == agg(views(self.run.contribs@), owner, mapping),
    {
        agg_value(&self.run.contribs, owner, mapping)
    }

    /// Replaces the whole configuration of `owner`: rows of other owners
    /// stay, entries with an empty chord are dropped, and a later entry for
    /// the same `(mapping, chord)` wins.  The change takes effect on the
    /// next tick, which also prunes contributions of chords that are gone.
    pub fn set_bindings(&mut self, owner: i32, entries: &Vec<MappingBind>)
        requires
            old(self).wf(),
            forall|i: int|
                0 <= i < entries@.len() ==> -SCALE_MAX <= (#[trigger] entries@[i]).scale
                    <= SCALE_MAX,
        ensures
            final(self).wf(),
            views(final(self).cfg.configs@) == views(old(self).cfg.configs@).filter(
                not_owner(owner),
            ) + rows_of(owner, entries@),
            final(self).run.bindings_updated == true,
            final(self).norm == old(self).norm,
            final(self).cfg.repeats == old(self).cfg.repeats,
            final(self).cfg.capture_excludes == old(self).cfg.capture_excludes,
            final(self).cfg.capture_includes == old(self).cfg.capture_includes,
            final(self).cfg.capture_start_dead == old(self).cfg.capture_start_dead,
            final(self).cfg.capture_end_dead == old(self).cfg.capture_end_dead,
            final(self).cfg.capture_devices == old(self).cfg.capture_devices,
            final(self).cfg.dead_zones == old(self).cfg.dead_zones,
            final(self).run.contribs == old(self).run.contribs,
            final(self).run.mod_vals == old(self).run.mod_vals,
            final(self).run.rep_states == old(self).run.rep_states,
            final(self).run.prev_owners == old(self).run.prev_owners,
            final(self).run.other_owners == old(self).run.other_owners,
            final(self).run.capture_lasts == old(self).run.capture_lasts,
            final(self).run.capture_down == old(self).run.capture_down,
            final(self).run.capture_chains == old(self).run.capture_chains,
    {
        let mut kept: Vec<BindConfig> = Vec::new();
        let mut i: usize = 0;
        while i < self.cfg.configs.len()
            invariant
                i <= self.cfg.configs.len(),
                views(kept@) == views(self.cfg.configs@).take(i as int).filter(not_owner(owner)),
                forall|j: int|
                    0 <= j < kept@.len() ==> -SCALE_MAX <= (#[trigger] kept@[j]).scale
                        <= SCALE_MAX,
                forall|j: int|
                    0 <= j < self.cfg.configs@.len() ==> -SCALE_MAX <= (
                    #[trigger] self.cfg.configs@[j]).scale <= SCALE_MAX,
            decreases self.cfg.configs.len() - i,
        {
            proof {
                lemma_views_take(self.cfg.configs@, i as int);
                lemma_views_take(self.cfg.configs@, i + 1);
                assert(views(self.cfg.configs@).take(i + 1) =~= views(self.cfg.configs@).take(
                    i as int,
                ).push(self.cfg.configs@[i as int]@));
                lemma_filter_push(
                    views(self.cfg.configs@).take(i as int),
                    not_owner(owner),
                    self.cfg.configs@[i as int]@,
                );
            }
            let c = &self.cfg.configs[i];
            if c.owner != owner {
                let kept_row = c.clone();
                assert(kept_row@ == self.cfg.configs@[i as int]@);
                proof {
                    lemma_views_push(kept@, kept_row);
                }
                kept.push(kept_row);
            }
            i = i + 1;
        }
        assert(views(self.cfg.configs@).take(self.cfg.configs@.len() as int) =~= views(
            self.cfg.configs@,
        ));

        let mut rows: Vec<BindConfig> = Vec::new();
        let mut e: usize = 0;
        while e < entries.len()
            invariant
                e <= entries.len(),
                views(rows@) == rows_of(owner, entries@.take(e as int)),
                forall|j: int|
                    0 <= j < entries@.len() ==> -SCALE_MAX <= (#[trigger] entries@[j]).scale
                        <= SCALE_MAX,
                forall|j: int|
                    0 <= j < rows@.len() ==> -SCALE_MAX <= (#[trigger] rows@[j]).scale
                        <= SCALE_MAX,
            decreases entries.len() - e,
        {
            proof {
                assert(entries@.take(e + 1).drop_last() =~= entries@.take(e as int));
                assert(entries@.take(e + 1).last() == entries@[e as int]);
            }
            let entry = &entries[e];
            let n = entry.bindings.len();
            if n > 0 {
                let primary: Binding = entry.bindings[n - 1];
                let mut mods: Vec<Binding> = Vec::new();
                let mut k: usize = 0;
                while k < n - 1
                    invariant
                        k <= n - 1,
                        n == entry.bindings@.len(),
                        n >= 1,
                        mods@ == entry.bindings@.take(k as int),
                    decreases n - 1 - k,
                {
                    proof {
                        assert(entry.bindings@.take(k + 1) =~= entry.bindings@.take(
                            k as int,
                        ).push(entry.bindings@[k as int]));
                    }
                    mods.push(entry.bindings[k]);
                    k = k + 1;
                }
                assert(mods@ =~= entry.bindings@.drop_last());
                let group = BindingGroup { modifiers: mods, primary };
                assert(group@ == entry_group(entries@[e as int]));
                let em: u32 = entry.mapping;

                let mut filtered: Vec<BindConfig> = Vec::new();
                let mut j: usize = 0;
                while j < rows.len()
                    invariant
                        j <= rows.len(),
                        e < entries@.len(),
                        em == entries@[e as int].mapping,
                        group@ == entry_group(entries@[e as int]),
                        views(filtered@) == views(rows@).take(j as int).filter(
                            not_cfg_key(entries@[e as int].mapping, entry_group(entries@[e as int])),
                        ),
                        forall|q: int|
                            0 <= q < rows@.len() ==> -SCALE_MAX <= (#[trigger] rows@[q]).scale
                                <= SCALE_MAX,
                        forall|q: int|
                            0 <= q < filtered@.len() ==> -SCALE_MAX <= (
                            #[trigger] filtered@[q]).scale <= SCALE_MAX,
                    decreases rows.len() - j,
                {
                    proof {
                        lemma_views_take(rows@, j as int);
                        lemma_views_take(rows@, j + 1);
                        assert(views(rows@).take(j + 1) =~= views(rows@).take(j as int).push(
                            rows@[j as int]@,
                        ));
                        lemma_filter_push(
                            views(rows@).take(j as int),
                            not_cfg_key(entries@[e as int].mapping, entry_group(entries@[e as int])),
                            rows@[j as int]@,
                        );
                    }
                    let r = &rows[j];
                    if !(r.mapping == em && r.group.group_eq(&group)) {
                        let kept_row = r.clone();
                        assert(kept_row@ == rows@[j as int]@);
                        proof {
                            lemma_views_push(filtered@, kept_row);
                        }
                        filtered.push(kept_row);
                    }
                    j = j + 1;
                }
                assert(views(rows@).take(rows@.len() as int) =~= views(rows@));
                let fresh = BindConfig {
                    owner,
                    mapping: entry.mapping,
                    group,
                    scale: entry.scale,
                    primary_dead: entry.primary_dead,
                    modifier_dead: entry.modifier_dead,
                };
                assert(fresh@ == row_of(owner, entries@[e as int]));
                proof {
                    lemma_views_push(filtered@, fresh);
                }
                filtered.push(fresh);
                rows = filtered;
            }
            e = e + 1;
        }
        assert(entries@.take(entries@.len() as int) =~= entries@);

        let mut merged: Vec<BindConfig> = kept;
        let mut t: usize = 0;
        let ghost rows_snap: Seq<ConfigV> = views(rows@);
        let ghost kept_snap: Seq<ConfigV> = views(merged@);
        while t < rows.len()
            invariant
                t <= rows.len(),
                rows_snap == views(rows@),
                views(merged@) == kept_snap + views(rows@).take(t as int),
                forall|j: int|
                    0 <= j < rows@.len() ==> -SCALE_MAX <= (#[trigger] rows@[j]).scale
                        <= SCALE_MAX,
                forall|j: int|
                    0 <= j < merged@.len() ==> -SCALE_MAX <= (#[trigger] merged@[j]).scale
                        <= SCALE_MAX,
            decreases rows.len() - t,
        {
            proof {
                lemma_views_take(rows@, t as int);
                lemma_views_take(rows@, t + 1);
                assert(views(rows@).take(t + 1) =~= views(rows@).take(t as int).push(
                    rows@[t as int]@,
                ));
            }
            let r = &rows[t];
            let moved = r.clone();
            assert(moved@ == rows@[t as int]@);
            proof {
                lemma_views_push(merged@, moved);
            }
            merged.push(moved);
            assert(views(merged@) =~= kept_snap + views(rows@).take(t + 1));
            t = t + 1;
        }
        assert(views(rows@).take(rows@.len() as int) =~= views(rows@));
        self.cfg.configs = merged;
        self.run.bindings_updated = true;
    }

    /// Configures auto-repeat for a mapping: after `delay` of being held, a
    /// `Repeat` event fires roughly every `interval`, faster at larger
    /// magnitudes.  Times are in the same fixed-point unit as the tick delta.
    pub fn set_repeat(&mut self, mapping: u32, delay: i64, interval: i64)
        requires
            old(self).wf(),
            0 <= delay <= RAW_MAX,
            0 <= interval <= RAW_MAX,
        ensures
            final(self).wf(),
            final(self).cfg.repeats@ == old(self).cfg.repeats@.filter(not_rp(mapping)).push(
                (mapping, delay, interval),
            ),
            final(self).norm == old(self).norm,
            final(self).run == old(self).run,
            final(self).cfg.configs == old(self).cfg.configs,
            final(self).cfg.capture_excludes == old(self).cfg.capture_excludes,
            final(self).cfg.capture_includes == old(self).cfg.capture_includes,
            final(self).cfg.capture_start_dead == old(self).cfg.capture_start_dead,
            final(self).cfg.capture_end_dead == old(self).cfg.capture_end_dead,
            final(self).cfg.capture_devices == old(self).cfg.capture_devices,
            final(self).cfg.dead_zones == old(self).cfg.dead_zones,
    {
        rp_set(&mut self.cfg.repeats, mapping, delay, interval);
        proof {
            let s = old(self).cfg.repeats@;
            let p = not_rp(mapping);
            crate::tables::lemma_filter_sub(s, p);
            assert forall|i: int| 0 <= i < s.filter(p).len() implies 0 <= (
                #[trigger] s.filter(p)[i]).1 <= RAW_MAX && 0 <= s.filter(p)[i].2 <= RAW_MAX by {
                let c = s.filter(p)[i];
                assert(s.contains(c));
                let w = choose|w: int| 0 <= w < s.len() && s[w] == c;
                assert(s[w] == c);
            }
        }
    }

    /// Replaces the list of bindings excluded from rebind capture.
    pub fn set_capture_excludes(&mut self, bindings: Vec<Binding>)
        requires
            old(self).wf(),
        ensures
            final(self).wf(),
            final(self).cfg.capture_excludes == bindings,
            final(self).norm == old(self).norm,
            final(self).run == old(self).run,
            final(self).cfg.configs == old(self).cfg.configs,
            final(self).cfg.repeats == old(self).cfg.repeats,
            final(self).cfg.capture_includes == old(self).cfg.capture_includes,
            final(self).cfg.capture_start_dead == old(self).cfg.capture_start_dead,
            final(self).cfg.capture_end_dead == old(self).cfg.capture_end_dead,
            final(self).cfg.capture_devices == old(self).cfg.capture_devices,
            final(self).cfg.dead_zones == old(self).cfg.dead_zones,
    {
        self.cfg.capture_excludes = bindings;
    }

    /// Replaces the list of bindings admitted to rebind capture.
    pub fn set_capture_includes(&mut self, bindings: Vec<Binding>)
        requires
            old(self).wf(),
        ensures
            final(self).wf(),
            final(self).cfg.capture_includes == bindings,
            final(self).norm == old(self).norm,
            final(self).run == old(self).run,
            final(self).cfg.configs == old(self).cfg.configs,
            final(self).cfg.repeats == old(self).cfg.repeats,
            final(self).cfg.capture_excludes == old(self).cfg.capture_excludes,
            final(self).cfg.capture_start_dead == old(self).cfg.capture_start_dead,
            final(self).cfg.capture_end_dead == old(self).cfg.capture_end_dead,
            final(self).cfg.capture_devices == old(self).cfg.capture_devices,
            final(self).cfg.dead_zones == old(self).cfg.dead_zones,
    {
        self.cfg.capture_includes = bindings;
    }

    /// Sets the capture hysteresis thresholds: a chord member must exceed
    /// `start_dead` to join a capture chord and fall below `end_dead` to end
    /// it.
    pub fn set_capture_hysteresis(&mut self, start_dead: i64, end_dead: i64)
        requires
            old(self).wf(),
        ensures
            final(self).wf(),
            final(self).cfg.capture_start_dead == start_dead,
            final(self).cfg.capture_end_dead == end_dead,
            final(self).norm == old(self).norm,
            final(self).run == old(self).run,
            final(self).cfg.configs == old(self).cfg.configs,
            final(self).cfg.repeats == old(self).cfg.repeats,
            final(self).cfg.capture_excludes == old(self).cfg.capture_excludes,
            final(self).cfg.capture_includes == old(self).cfg.capture_includes,
            final(self).cfg.capture_devices == old(self).cfg.capture_devices,
            final(self).cfg.dead_zones == old(self).cfg.dead_zones,
    {
        self.cfg.capture_start_dead = start_dead;
        self.cfg.capture_end_dead = end_dead;
    }

    /// Puts a device into, or takes it out of, rebind capture.
    pub fn set_capture_active(&mut self, device: Device, active: bool)
        requires
            old(self).wf(),
        ensures
            final(self).wf(),
            final(self).cfg.capture_devices@ == if active {
                if old(self).cfg.capture_devices@.contains(device) {
                    old(self).cfg.capture_devices@
                } else {
                    old(self).cfg.capture_devices@.push(device)
                }
            } else {
                old(self).cfg.capture_devices@.filter(crate::tables::not_dev(device))
            },
            final(self).norm == old(self).norm,
            final(self).run == old(self).run,
            final(self).cfg.configs == old(self).cfg.configs,
            final(self).cfg.repeats == old(self).cfg.repeats,
            final(self).cfg.capture_excludes == old(self).cfg.capture_excludes,
            final(self).cfg.capture_includes == old(self).cfg.capture_includes,
            final(self).cfg.capture_start_dead == old(self).cfg.capture_start_dead,
            final(self).cfg.capture_end_dead == old(self).cfg.capture_end_dead,
            final(self).cfg.dead_zones == old(self).cfg.dead_zones,
    {
        if active {
            dev_insert(&mut self.cfg.capture_devices, device);
        } else {
            dev_remove(&mut self.cfg.capture_devices, device);
        }
    }

    /// Sets the dead zone the normalizer applies to one device binding.
    pub fn set_device_dead_zone(&mut self, device: Device, binding: Binding, zone: DeadZone)
        requires
            old(self).wf(),
            zone.bounded(),
        ensures
            final(self).wf(),
            final(self).cfg.dead_zones@ == old(self).cfg.dead_zones@.filter(
                not_dz(device, binding),
            ).push((device, binding, zone)),
            final(self).norm == old(self).norm,
            final(self).run == old(self).run,
            final(self).cfg.configs == old(self).cfg.configs,
            final(self).cfg.repeats == old(self).cfg.repeats,
            final(self).cfg.capture_excludes == old(self).cfg.capture_excludes,
            final(self).cfg.capture_includes == old(self).cfg.capture_includes,
            final(self).cfg.capture_start_dead == old(self).cfg.capture_start_dead,
            final(self).cfg.capture_end_dead == old(self).cfg.capture_end_dead,
            final(self).cfg.capture_devices == old(self).cfg.capture_devices,
    {
        dz_set(&mut self.cfg.dead_zones, device, binding, zone);
        proof {
            let s = old(self).cfg.dead_zones@;
            let p = not_dz(device, binding);
            crate::tables::lemma_filter_sub(s, p);
            assert forall|i: int| 0 <= i < s.filter(p).len() implies (
                #[trigger] s.filter(p)[i]).2.bounded() by {
                let c = s.filter(p)[i];
                assert(s.contains(c));
                let w = choose|w: int| 0 <= w < s.len() && s[w] == c;
                assert(s[w] == c);
            }
        }
    }
}

impl Default for InputMap {
    /// A fresh engine: nothing configured, nothing held, the default
    /// capture hysteresis of 0.4 / 0.2.
    fn default() -> (r: Self)
        ensures
            r.wf(),
            r.cfg.configs@.len() == 0,
            r.cfg.repeats@.len() == 0,
            r.cfg.capture_excludes@.len() == 0,
            r.cfg.capture_includes@.len() == 0,
            r.cfg.capture_start_dead == 400,
            r.cfg.capture_end_dead == 200,
            r.cfg.capture_devices@.len() == 0,
            r.cfg.dead_zones@.len() == 0,
            r.norm.axis_lasts@.len() == 0,
            r.norm.key_lasts@.len() == 0,
            r.norm.button_lasts@.len() == 0,
            r.run.bindings_updated == false,
            r.run.contribs@.len() == 0,
            r.run.mod_vals@.len() == 0,
            r.run.rep_states@.len() == 0,
            r.run.prev_owners@.len() == 0,
            r.run.other_owners@.len() == 0,
            r.run.capture_lasts@.len() == 0,
            r.run.capture_down@.len() == 0,
            r.run.capture_chains@.len() == 0,
    {
        InputMap {
            cfg: EngineConfig {
                configs: Vec::new(),
                repeats: Vec::new(),
                capture_excludes: Vec::new(),
                capture_includes: Vec::new(),
                capture_start_dead: 400,
                capture_end_dead: 200,
                capture_devices: Vec::new(),
                dead_zones: Vec::new(),
            },
            norm: NormalizerState {
                axis_lasts: Vec::new(),
                key_lasts: Vec::new(),
                button_lasts: Vec::new(),
            },
            run: ResolverState {
                bindings_updated: false,
                contribs: Vec::new(),
                mod_vals: Vec::new(),
                rep_states: Vec::new(),
                prev_owners: Vec::new(),
                other_owners: Vec::new(),
                capture_lasts: Vec::new(),
                capture_down: Vec::new(),
                capture_chains: Vec::new(),
            },
        }
    }
}

} // verus!
