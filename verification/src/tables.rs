//! Small association tables kept as vectors.
//!
//! The engine's state is held in plain vectors of key-value rows.  Lookups
//! return the first matching row; updates remove every matching row and
//! append the new one, so a table written only through these helpers has at
//! most one row per key.

use vstd::prelude::*;

use crate::engine::RepState;
use crate::values::Binding;
use crate::values::DeadZone;
use crate::values::Device;

verus! {

/// Filtering after a push keeps the filtered prefix and appends the new
/// element exactly when it satisfies the predicate.
pub proof fn lemma_filter_push<A>(s: Seq<A>, p: spec_fn(A) -> bool, x: A)
    ensures
        s.push(x).filter(p) == if p(x) {
            s.filter(p).push(x)
        } else {
            s.filter(p)
        },
{
    reveal_with_fuel(Seq::filter, 2);
    assert(s.push(x).drop_last() =~= s);
    assert(s.push(x).last() == x);
}

/// The pressed-key set: whether `k` is held.
pub fn key_held(v: &Vec<u32>, k: u32) -> (r: bool)
    ensures
        r == v@.contains(k),
{
    let mut i: usize = 0;
    while i < v.len()
        invariant
            i <= v.len(),
            forall|j: int| 0 <= j < i ==> v@[j] != k,
        decreases v.len() - i,
    {
        if v[i] == k {
            return true;
        }
        i = i + 1;
    }
    false
}

/// Adds `k` to the pressed-key set if it is not there yet.
pub fn key_insert(v: &mut Vec<u32>, k: u32)
    ensures
        final(v)@ == if old(v)@.contains(k) {
            old(v)@
        } else {
            old(v)@.push(k)
        },
{
    if !key_held(v, k) {
        v.push(k);
    }
}

/// The predicate keeping every pressed key other than `k`.
pub open spec fn not_key(k: u32) -> spec_fn(u32) -> bool {
    |x: u32| x != k
}

/// Removes `k` from the pressed-key set.
pub fn key_remove(v: &mut Vec<u32>, k: u32)
    ensures
        final(v)@ == old(v)@.filter(not_key(k)),
{
    let mut out: Vec<u32> = Vec::new();
    let mut i: usize = 0;
    while i < v.len()
        invariant
            i <= v.len(),
            out@ == v@.take(i as int).filter(not_key(k)),
        decreases v.len() - i,
    {
        proof {
            assert(v@.take(i + 1) =~= v@.take(i as int).push(v@[i as int]));
            lemma_filter_push(v@.take(i as int), not_key(k), v@[i as int]);
        }
        if v[i] != k {
            out.push(v[i]);
        }
        i = i + 1;
    }
    assert(v@.take(v@.len() as int) =~= v@);
    *v = out;
}

/// The last stored value for a gamepad axis, zero when none is stored.
pub open spec fn axis_last_spec(s: Seq<(Device, u32, i64)>, d: Device, a: u32) -> i64
    decreases s.len(),
{
    if s.len() == 0 {
        0
    } else if s[0].0 == d && s[0].1 == a {
        s[0].2
    } else {
        axis_last_spec(s.drop_first(), d, a)
    }
}

/// Reads the last stored value for a gamepad axis.
pub fn axis_get(v: &Vec<(Device, u32, i64)>, d: Device, a: u32) -> (r: i64)
    ensures
        r == axis_last_spec(v@, d, a),
{
    let mut i: usize = 0;
    assert(v@.skip(0) =~= v@);
    while i < v.len()
        invariant
            i <= v.len(),
            axis_last_spec(v@, d, a) == axis_last_spec(v@.skip(i as int), d, a),
        decreases v.len() - i,
    {
        proof {
            assert(v@.skip(i as int).drop_first() =~= v@.skip(i + 1));
            assert(v@.skip(i as int)[0] == v@[i as int]);
        }
        let (ed, ea, ev) = v[i];
        if ed == d && ea == a {
            return ev;
        }
        i = i + 1;
    }
    assert(v@.skip(v@.len() as int) =~= Seq::<(Device, u32, i64)>::empty());
    0
}

/// The predicate keeping every axis row except the one for `(d, a)`.
pub open spec fn not_axis(d: Device, a: u32) -> spec_fn((Device, u32, i64)) -> bool {
    |e: (Device, u32, i64)| !(e.0 == d && e.1 == a)
}

/// Stores the last value for a gamepad axis, replacing any previous row.
pub fn axis_set(v: &mut Vec<(Device, u32, i64)>, d: Device, a: u32, val: i64)
    ensures
        final(v)@ == old(v)@.filter(not_axis(d, a)).push((d, a, val)),
{
    let mut out: Vec<(Device, u32, i64)> = Vec::new();
    let mut i: usize = 0;
    while i < v.len()
        invariant
            i <= v.len(),
            out@ == v@.take(i as int).filter(not_axis(d, a)),
        decreases v.len() - i,
    {
        proof {
            assert(v@.take(i + 1) =~= v@.take(i as int).push(v@[i as int]));
            lemma_filter_push(v@.take(i as int), not_axis(d, a), v@[i as int]);
        }
        let (ed, ea, ev) = v[i];
        if !(ed == d && ea == a) {
            out.push((ed, ea, ev));
            assert(v@[i as int] == (ed, ea, ev));
        }
        i = i + 1;
    }
    assert(v@.take(v@.len() as int) =~= v@);
    out.push((d, a, val));
    *v = out;
}

/// The configured dead zone for a device binding, if any.
pub open spec fn dz_spec(s: Seq<(Device, Binding, DeadZone)>, d: Device, b: Binding) -> Option<
    DeadZone,
>
    decreases s.len(),
{
    if s.len() == 0 {
        None
    } else if s[0].0 == d && s[0].1 == b {
        Some(s[0].2)
    } else {
        dz_spec(s.drop_first(), d, b)
    }
}

/// Reads the configured dead zone for a device binding.
pub fn dz_get(v: &Vec<(Device, Binding, DeadZone)>, d: Device, b: Binding) -> (r: Option<DeadZone>)
    ensures
        r == dz_spec(v@, d, b),
{
    let mut i: usize = 0;
    assert(v@.skip(0) =~= v@);
    while i < v.len()
        invariant
            i <= v.len(),
            dz_spec(v@, d, b) == dz_spec(v@.skip(i as int), d, b),
        decreases v.len() - i,
    {
        proof {
            assert(v@.skip(i as int).drop_first() =~= v@.skip(i + 1));
            assert(v@.skip(i as int)[0] == v@[i as int]);
        }
        let (ed, eb, ez) = v[i];
        if ed == d && eb == b {
            return Some(ez);
        }
        i = i + 1;
    }
    assert(v@.skip(v@.len() as int) =~= Seq::<(Device, Binding, DeadZone)>::empty());
    None
}

/// When every stored dead zone is bounded, so is any looked-up one.
pub proof fn lemma_dz_spec_bounded(s: Seq<(Device, Binding, DeadZone)>, d: Device, b: Binding)
    requires
        forall|i: int| 0 <= i < s.len() ==> (#[trigger] s[i]).2.bounded(),
    ensures
        dz_spec(s, d, b) is Some ==> dz_spec(s, d, b)->0.bounded(),
    decreases s.len(),
{
    if s.len() > 0 {
        assert(forall|i: int|
            0 <= i < s.drop_first().len() ==> (#[trigger] s.drop_first()[i]).2.bounded());
        lemma_dz_spec_bounded(s.drop_first(), d, b);
    }
}

/// The predicate keeping every dead-zone row except the one for `(d, b)`.
pub open spec fn not_dz(d: Device, b: Binding) -> spec_fn((Device, Binding, DeadZone)) -> bool {
    |e: (Device, Binding, DeadZone)| !(e.0 == d && e.1 == b)
}

/// Stores the dead zone for a device binding, replacing any previous row.
pub fn dz_set(v: &mut Vec<(Device, Binding, DeadZone)>, d: Device, b: Binding, z: DeadZone)
    ensures
        final(v)@ == old(v)@.filter(not_dz(d, b)).push((d, b, z)),
{
    let mut out: Vec<(Device, Binding, DeadZone)> = Vec::new();
    let mut i: usize = 0;
    while i < v.len()
        invariant
            i <= v.len(),
            out@ == v@.take(i as int).filter(not_dz(d, b)),
        decreases v.len() - i,
    {
        proof {
            assert(v@.take(i + 1) =~= v@.take(i as int).push(v@[i as int]));
            lemma_filter_push(v@.take(i as int), not_dz(d, b), v@[i as int]);
        }
        let (ed, eb, ez) = v[i];
        if !(ed == d && eb == b) {
            out.push((ed, eb, ez));
            assert(v@[i as int] == (ed, eb, ez));
        }
        i = i + 1;
    }
    assert(v@.take(v@.len() as int) =~= v@);
    out.push((d, b, z));
    *v = out;
}

/// Every element of a filtered sequence is an element of the sequence it
/// was filtered from.
pub proof fn lemma_filter_sub<A>(s: Seq<A>, p: spec_fn(A) -> bool)
    ensures
        forall|i: int| 0 <= i < s.filter(p).len() ==> s.contains(#[trigger] s.filter(p)[i]),
    decreases s.len(),
{
    reveal_with_fuel(Seq::filter, 2);
    if s.len() == 0 {
        assert(s.filter(p) =~= Seq::<A>::empty());
    } else {
        lemma_filter_sub(s.drop_last(), p);
        assert forall|i: int| 0 <= i < s.filter(p).len() implies s.contains(
            #[trigger] s.filter(p)[i],
        ) by {
            let f = s.filter(p);
            let fd = s.drop_last().filter(p);
            if i < fd.len() {
                assert(f[i] == fd[i]);
                assert(s.drop_last().contains(fd[i]));
                let w = choose|w: int| 0 <= w < s.drop_last().len() && s.drop_last()[w] == fd[i];
                assert(s[w] == fd[i]);
            } else {
                assert(p(s.last()) && f[i] == s.last());
                assert(s[s.len() - 1] == s.last());
            }
        }
    }
}

/// A sequence of rows, each replaced by its mathematical view.
pub open spec fn views<T: View>(s: Seq<T>) -> Seq<T::V> {
    s.map_values(|t: T| t@)
}

/// Whether a device is in the set.
pub fn dev_contains(v: &Vec<Device>, d: Device) -> (r: bool)
    ensures
        r == v@.contains(d),
{
    let mut i: usize = 0;
    while i < v.len()
        invariant
            i <= v.len(),
            forall|j: int| 0 <= j < i ==> v@[j] != d,
        decreases v.len() - i,
    {
        if v[i] == d {
            return true;
        }
        i = i + 1;
    }
    false
}

/// Adds a device to the set if it is not there yet.
pub fn dev_insert(v: &mut Vec<Device>, d: Device)
    ensures
        final(v)@ == if old(v)@.contains(d) {
            old(v)@
        } else {
            old(v)@.push(d)
        },
{
    if !dev_contains(v, d) {
        v.push(d);
    }
}

/// The predicate keeping every device other than `d`.
pub open spec fn not_dev(d: Device) -> spec_fn(Device) -> bool {
    |x: Device| x != d
}

/// Removes a device from the set.
pub fn dev_remove(v: &mut Vec<Device>, d: Device)
    ensures
        final(v)@ == old(v)@.filter(not_dev(d)),
{
    let mut out: Vec<Device> = Vec::new();
    let mut i: usize = 0;
    while i < v.len()
        invariant
            i <= v.len(),
            out@ == v@.take(i as int).filter(not_dev(d)),
        decreases v.len() - i,
    {
        proof {
            assert(v@.take(i + 1) =~= v@.take(i as int).push(v@[i as int]));
            lemma_filter_push(v@.take(i as int), not_dev(d), v@[i as int]);
        }
        if v[i] != d {
            out.push(v[i]);
        }
        i = i + 1;
    }
    assert(v@.take(v@.len() as int) =~= v@);
    *v = out;
}

/// Whether a binding is in the list.
pub fn bnd_contains(v: &Vec<Binding>, b: Binding) -> (r: bool)
    ensures
        r == v@.contains(b),
{
    let mut i: usize = 0;
    while i < v.len()
        invariant
            i <= v.len(),
            forall|j: int| 0 <= j < i ==> v@[j] != b,
        decreases v.len() - i,
    {
        if v[i] == b {
            return true;
        }
        i = i + 1;
    }
    false
}

/// Whether an owner is in the set.
pub fn owner_contains(v: &Vec<i32>, o: i32) -> (r: bool)
    ensures
        r == v@.contains(o),
{
    let mut i: usize = 0;
    while i < v.len()
        invariant
            i <= v.len(),
            forall|j: int| 0 <= j < i ==> v@[j] != o,
        decreases v.len() - i,
    {
        if v[i] == o {
            return true;
        }
        i = i + 1;
    }
    false
}

/// Adds an owner to the set if it is not there yet.
pub fn owner_insert(v: &mut Vec<i32>, o: i32)
    ensures
        final(v)@ == if old(v)@.contains(o) {
            old(v)@
        } else {
            old(v)@.push(o)
        },
{
    if !owner_contains(v, o) {
        v.push(o);
    }
}

/// Whether a `(device, binding)` pair is in the set.
pub fn pair_contains(v: &Vec<(Device, Binding)>, d: Device, b: Binding) -> (r: bool)
    ensures
        r == v@.contains((d, b)),
{
    let mut i: usize = 0;
    while i < v.len()
        invariant
            i <= v.len(),
            forall|j: int| 0 <= j < i ==> v@[j] != (d, b),
        decreases v.len() - i,
    {
        let (ed, eb) = v[i];
        if ed == d && eb == b {
            assert(v@[i as int] == (d, b));
            return true;
        }
        assert(v@[i as int] != (d, b));
        i = i + 1;
    }
    false
}

/// Adds a `(device, binding)` pair to the set if it is not there yet.
pub fn pair_insert(v: &mut Vec<(Device, Binding)>, d: Device, b: Binding)
    ensures
        final(v)@ == if old(v)@.contains((d, b)) {
            old(v)@
        } else {
            old(v)@.push((d, b))
        },
{
    if !pair_contains(v, d, b) {
        v.push((d, b));
    }
}

/// The predicate keeping every pair other than `(d, b)`.
pub open spec fn not_pair(d: Device, b: Binding) -> spec_fn((Device, Binding)) -> bool {
    |e: (Device, Binding)| e != (d, b)
}

/// Removes a `(device, binding)` pair from the set.
pub fn pair_remove(v: &mut Vec<(Device, Binding)>, d: Device, b: Binding)
    ensures
        final(v)@ == old(v)@.filter(not_pair(d, b)),
{
    let mut out: Vec<(Device, Binding)> = Vec::new();
    let mut i: usize = 0;
    while i < v.len()
        invariant
            i <= v.len(),
            out@ == v@.take(i as int).filter(not_pair(d, b)),
        decreases v.len() - i,
    {
        proof {
            assert(v@.take(i + 1) =~= v@.take(i as int).push(v@[i as int]));
            lemma_filter_push(v@.take(i as int), not_pair(d, b), v@[i as int]);
        }
        let (ed, eb) = v[i];
        if !(ed == d && eb == b) {
            out.push((ed, eb));
            assert(v@[i as int] == (ed, eb));
        } else {
            assert(v@[i as int] == (d, b));
        }
        i = i + 1;
    }
    assert(v@.take(v@.len() as int) =~= v@);
    *v = out;
}

/// The stored owner of a gamepad, if any.
pub open spec fn po_spec(s: Seq<(u64, i32)>, g: u64) -> Option<i32>
    decreases s.len(),
{
    if s.len() == 0 {
        None
    } else if s[0].0 == g {
        Some(s[0].1)
    } else {
        po_spec(s.drop_first(), g)
    }
}

/// Reads the stored owner of a gamepad.
pub fn po_get(v: &Vec<(u64, i32)>, g: u64) -> (r: Option<i32>)
    ensures
        r == po_spec(v@, g),
{
    let mut i: usize = 0;
    assert(v@.skip(0) =~= v@);
    while i < v.len()
        invariant
            i <= v.len(),
            po_spec(v@, g) == po_spec(v@.skip(i as int), g),
        decreases v.len() - i,
    {
        proof {
            assert(v@.skip(i as int).drop_first() =~= v@.skip(i + 1));
            assert(v@.skip(i as int)[0] == v@[i as int]);
        }
        let (eg, eo) = v[i];
        if eg == g {
            return Some(eo);
        }
        i = i + 1;
    }
    assert(v@.skip(v@.len() as int) =~= Seq::<(u64, i32)>::empty());
    None
}

/// The predicate keeping every gamepad-owner row except the one for `g`.
pub open spec fn not_po(g: u64) -> spec_fn((u64, i32)) -> bool {
    |e: (u64, i32)| e.0 != g
}



/// The cached last non-zero value of a `(device, binding)`, zero when none.
pub open spec fn mv_spec(s: Seq<(Device, Binding, i64)>, d: Device, b: Binding) -> i64
    decreases s.len(),
{
    if s.len() == 0 {
        0
    } else if s[0].0 == d && s[0].1 == b {
        s[0].2
    } else {
        mv_spec(s.drop_first(), d, b)
    }
}

/// Reads the cached value of a `(device, binding)`.
pub fn mv_get(v: &Vec<(Device, Binding, i64)>, d: Device, b: Binding) -> (r: i64)
    ensures
        r == mv_spec(v@, d, b),
{
    let mut i: usize = 0;
    assert(v@.skip(0) =~= v@);
    while i < v.len()
        invariant
            i <= v.len(),
            mv_spec(v@, d, b) == mv_spec(v@.skip(i as int), d, b),
        decreases v.len() - i,
    {
        proof {
            assert(v@.skip(i as int).drop_first() =~= v@.skip(i + 1));
            assert(v@.skip(i as int)[0] == v@[i as int]);
        }
        let (ed, eb, ev) = v[i];
        if ed == d && eb == b {
            return ev;
        }
        i = i + 1;
    }
    assert(v@.skip(v@.len() as int) =~= Seq::<(Device, Binding, i64)>::empty());
    0
}

/// When every cached value is in range, so is any looked-up one (a missing
/// row reads as zero).
pub proof fn lemma_mv_spec_bounded(s: Seq<(Device, Binding, i64)>, d: Device, b: Binding)
    requires
        forall|i: int|
            0 <= i < s.len() ==> -crate::values::VAL_MAX <= (#[trigger] s[i]).2
                <= crate::values::VAL_MAX,
    ensures
        -crate::values::VAL_MAX <= mv_spec(s, d, b) <= crate::values::VAL_MAX,
    decreases s.len(),
{
    if s.len() > 0 {
        assert(forall|i: int|
            0 <= i < s.drop_first().len() ==> -crate::values::VAL_MAX <= (
            #[trigger] s.drop_first()[i]).2 <= crate::values::VAL_MAX);
        lemma_mv_spec_bounded(s.drop_first(), d, b);
    }
}

/// The predicate keeping every cached-value row except the one for `(d, b)`.
pub open spec fn not_mv(d: Device, b: Binding) -> spec_fn((Device, Binding, i64)) -> bool {
    |e: (Device, Binding, i64)| !(e.0 == d && e.1 == b)
}

/// Stores the cached value of a `(device, binding)`, replacing any previous
/// row.
pub fn mv_set(v: &mut Vec<(Device, Binding, i64)>, d: Device, b: Binding, val: i64)
    ensures
        final(v)@ == old(v)@.filter(not_mv(d, b)).push((d, b, val)),
{
    let mut out: Vec<(Device, Binding, i64)> = Vec::new();
    let mut i: usize = 0;
    while i < v.len()
        invariant
            i <= v.len(),
            out@ == v@.take(i as int).filter(not_mv(d, b)),
        decreases v.len() - i,
    {
        proof {
            assert(v@.take(i + 1) =~= v@.take(i as int).push(v@[i as int]));
            lemma_filter_push(v@.take(i as int), not_mv(d, b), v@[i as int]);
        }
        let (ed, eb, ev) = v[i];
        if !(ed == d && eb == b) {
            out.push((ed, eb, ev));
            assert(v@[i as int] == (ed, eb, ev));
        }
        i = i + 1;
    }
    assert(v@.take(v@.len() as int) =~= v@);
    out.push((d, b, val));
    *v = out;
}

/// Removes the cached-value row of a `(device, binding)`.
pub fn mv_remove(v: &mut Vec<(Device, Binding, i64)>, d: Device, b: Binding)
    ensures
        final(v)@ == old(v)@.filter(not_mv(d, b)),
{
    let mut out: Vec<(Device, Binding, i64)> = Vec::new();
    let mut i: usize = 0;
    while i < v.len()
        invariant
            i <= v.len(),
            out@ == v@.take(i as int).filter(not_mv(d, b)),
        decreases v.len() - i,
    {
        proof {
            assert(v@.take(i + 1) =~= v@.take(i as int).push(v@[i as int]));
            lemma_filter_push(v@.take(i as int), not_mv(d, b), v@[i as int]);
        }
        let (ed, eb, ev) = v[i];
        if !(ed == d && eb == b) {
            out.push((ed, eb, ev));
            assert(v@[i as int] == (ed, eb, ev));
        }
        i = i + 1;
    }
    assert(v@.take(v@.len() as int) =~= v@);
    *v = out;
}

/// The configured repeat row of a mapping, if any: initial delay, interval.
pub open spec fn rp_spec(s: Seq<(u32, i64, i64)>, m: u32) -> Option<(i64, i64)>
    decreases s.len(),
{
    if s.len() == 0 {
        None
    } else if s[0].0 == m {
        Some((s[0].1, s[0].2))
    } else {
        rp_spec(s.drop_first(), m)
    }
}

/// Reads the configured repeat row of a mapping.
pub fn rp_get(v: &Vec<(u32, i64, i64)>, m: u32) -> (r: Option<(i64, i64)>)
    ensures
        r == rp_spec(v@, m),
{
    let mut i: usize = 0;
    assert(v@.skip(0) =~= v@);
    while i < v.len()
        invariant
            i <= v.len(),
            rp_spec(v@, m) == rp_spec(v@.skip(i as int), m),
        decreases v.len() - i,
    {
        proof {
            assert(v@.skip(i as int).drop_first() =~= v@.skip(i + 1));
            assert(v@.skip(i as int)[0] == v@[i as int]);
        }
        let (em, ed, ei) = v[i];
        if em == m {
            return Some((ed, ei));
        }
        i = i + 1;
    }
    assert(v@.skip(v@.len() as int) =~= Seq::<(u32, i64, i64)>::empty());
    None
}

/// The predicate keeping every repeat row except the one for mapping `m`.
pub open spec fn not_rp(m: u32) -> spec_fn((u32, i64, i64)) -> bool {
    |e: (u32, i64, i64)| e.0 != m
}

/// Stores the repeat row of a mapping, replacing any previous row.
pub fn rp_set(v: &mut Vec<(u32, i64, i64)>, m: u32, delay: i64, interval: i64)
    ensures
        final(v)@ == old(v)@.filter(not_rp(m)).push((m, delay, interval)),
{
    let mut out: Vec<(u32, i64, i64)> = Vec::new();
    let mut i: usize = 0;
    while i < v.len()
        invariant
            i <= v.len(),
            out@ == v@.take(i as int).filter(not_rp(m)),
        decreases v.len() - i,
    {
        proof {
            assert(v@.take(i + 1) =~= v@.take(i as int).push(v@[i as int]));
            lemma_filter_push(v@.take(i as int), not_rp(m), v@[i as int]);
        }
        let (em, ed, ei) = v[i];
        if em != m {
            out.push((em, ed, ei));
            assert(v@[i as int] == (em, ed, ei));
        }
        i = i + 1;
    }
    assert(v@.take(v@.len() as int) =~= v@);
    out.push((m, delay, interval));
    *v = out;
}

/// Whether a gamepad handle is in the list.
pub fn u64_contains(v: &Vec<u64>, g: u64) -> (r: bool)
    ensures
        r == v@.contains(g),
{
    let mut i: usize = 0;
    while i < v.len()
        invariant
            i <= v.len(),
            forall|j: int| 0 <= j < i ==> v@[j] != g,
        decreases v.len() - i,
    {
        if v[i] == g {
            return true;
        }
        i = i + 1;
    }
    false
}

/// The stored repeat timer of `(owner, mapping)`, if any.
pub open spec fn rs_spec(s: Seq<RepState>, o: i32, m: u32) -> Option<RepState>
    decreases s.len(),
{
    if s.len() == 0 {
        None
    } else if s[0].owner == o && s[0].mapping == m {
        Some(s[0])
    } else {
        rs_spec(s.drop_first(), o, m)
    }
}

/// Reads the stored repeat timer of `(owner, mapping)`.
pub fn rs_find(v: &Vec<RepState>, o: i32, m: u32) -> (r: Option<RepState>)
    ensures
        r == rs_spec(v@, o, m),
{
    let mut i: usize = 0;
    assert(v@.skip(0) =~= v@);
    while i < v.len()
        invariant
            i <= v.len(),
            rs_spec(v@, o, m) == rs_spec(v@.skip(i as int), o, m),
        decreases v.len() - i,
    {
        proof {
            assert(v@.skip(i as int).drop_first() =~= v@.skip(i + 1));
            assert(v@.skip(i as int)[0] == v@[i as int]);
        }
        let row = v[i];
        if row.owner == o && row.mapping == m {
            return Some(row);
        }
        i = i + 1;
    }
    assert(v@.skip(v@.len() as int) =~= Seq::<RepState>::empty());
    None
}

/// When every stored accumulator is in range, so is any looked-up one.
pub proof fn lemma_rs_spec_bounded(s: Seq<RepState>, o: i32, m: u32)
    requires
        forall|i: int|
            0 <= i < s.len() ==> 0 <= (#[trigger] s[i]).accum <= crate::values::ACCUM_MAX,
    ensures
        rs_spec(s, o, m) is Some ==> 0 <= rs_spec(s, o, m)->0.accum <= crate::values::ACCUM_MAX,
    decreases s.len(),
{
    if s.len() > 0 {
        assert(forall|i: int|
            0 <= i < s.drop_first().len() ==> 0 <= (#[trigger] s.drop_first()[i]).accum
                <= crate::values::ACCUM_MAX);
        lemma_rs_spec_bounded(s.drop_first(), o, m);
    }
}

/// The predicate keeping every repeat timer except the one of `(o, m)`.
pub open spec fn not_rs(o: i32, m: u32) -> spec_fn(RepState) -> bool {
    |e: RepState| !(e.owner == o && e.mapping == m)
}

/// Stores the repeat timer of `(owner, mapping)`, replacing any previous
/// row.
pub fn rs_set(v: &mut Vec<RepState>, o: i32, m: u32, accum: i64, repeating: bool)
    ensures
        final(v)@ == old(v)@.filter(not_rs(o, m)).push(
            RepState { owner: o, mapping: m, accum, repeating },
        ),
{
    let mut out: Vec<RepState> = Vec::new();
    let mut i: usize = 0;
    while i < v.len()
        invariant
            i <= v.len(),
            out@ == v@.take(i as int).filter(not_rs(o, m)),
        decreases v.len() - i,
    {
        proof {
            assert(v@.take(i + 1) =~= v@.take(i as int).push(v@[i as int]));
            lemma_filter_push(v@.take(i as int), not_rs(o, m), v@[i as int]);
        }
        let row = v[i];
        if !(row.owner == o && row.mapping == m) {
            out.push(row);
        }
        i = i + 1;
    }
    assert(v@.take(v@.len() as int) =~= v@);
    out.push(RepState { owner: o, mapping: m, accum, repeating });
    *v = out;
}

} // verus!
