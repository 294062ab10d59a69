//! Direction-transition events and their edge discipline.
//!
//! Whenever a mapping's aggregate direction (the sign of its value) changes,
//! the resolver emits `JustReleased` and `JustPressed` events through one
//! shared emitter.  This module defines that emitter, the matching immediate
//! "pulse" emitter for single-tick impulses, and proves the edge discipline:
//! along any run of direction transitions, every `JustPressed { dir }` is
//! answered by exactly one `JustReleased { dir }` before any `JustPressed`
//! with a different direction can occur.

use vstd::prelude::*;

use crate::events::InputMapEvent;

verus! {

/// The direction (sign) of an aggregate value: `1`, `-1` or `0`.
pub open spec fn dir_of(v: int) -> int {
    if v > 0 { 1 } else if v < 0 { -1 } else { 0 }
}

/// The direction of an aggregate value, as executable code.
pub fn dir_of_val(v: i128) -> (d: i32)
    ensures
        d as int == dir_of(v as int),
{
    if v > 0 { 1 } else if v < 0 { -1 } else { 0 }
}

/// The edge events emitted when a mapping's direction moves from `last` to
/// `cur`: a release of the old direction unless the mapping was silent, then
/// a press of the new direction unless it became silent.
pub open spec fn transition_events(mapping: u32, owner: i32, last: int, cur: int) -> Seq<
    InputMapEvent,
> {
    if last == cur {
        Seq::empty()
    } else {
        let rel: Seq<InputMapEvent> = if cur == 0 || last != 0 {
            seq![InputMapEvent::JustReleased { mapping, dir: last as i32, owner }]
        } else {
            Seq::empty()
        };
        let prs: Seq<InputMapEvent> = if last == 0 || cur != 0 {
            seq![InputMapEvent::JustPressed { mapping, dir: cur as i32, owner }]
        } else {
            Seq::empty()
        };
        rel + prs
    }
}

/// Appends the direction-transition events for `last_dir -> cur_dir`.
pub(crate) fn emit_transition(
    out: &mut Vec<InputMapEvent>,
    mapping: u32,
    owner: i32,
    last_dir: i32,
    cur_dir: i32,
)
    requires
        -1 <= last_dir <= 1,
        -1 <= cur_dir <= 1,
    ensures
        final(out)@ == old(out)@ + transition_events(
            mapping,
            owner,
            last_dir as int,
            cur_dir as int,
        ),
{
    if last_dir != cur_dir {
        if cur_dir == 0 || last_dir != 0 {
            out.push(InputMapEvent::JustReleased { mapping, dir: last_dir, owner });
        }
        if last_dir == 0 || cur_dir != 0 {
            out.push(InputMapEvent::JustPressed { mapping, dir: cur_dir, owner });
        }
    }
    assert(out@ =~= old(out)@ + transition_events(mapping, owner, last_dir as int, cur_dir as int));
}

/// The edge events emitted for a single-tick impulse of direction `cur`
/// against a held direction `last`: the held direction is released, the
/// impulse is pressed and released as a discrete pulse, and the held
/// direction is pressed again.
pub open spec fn pulse_events(mapping: u32, owner: i32, last: int, cur: int) -> Seq<
    InputMapEvent,
> {
    let rel: Seq<InputMapEvent> = if last == cur || last != 0 {
        seq![InputMapEvent::JustReleased { mapping, dir: last as i32, owner }]
    } else {
        Seq::empty()
    };
    let pulse: Seq<InputMapEvent> = if last == 0 || last != cur {
        seq![
            InputMapEvent::JustPressed { mapping, dir: cur as i32, owner },
            InputMapEvent::JustReleased { mapping, dir: cur as i32, owner },
        ]
    } else {
        Seq::empty()
    };
    let reprs: Seq<InputMapEvent> = if last == cur || last != 0 {
        seq![InputMapEvent::JustPressed { mapping, dir: last as i32, owner }]
    } else {
        Seq::empty()
    };
    rel + pulse + reprs
}

/// Appends the impulse pulse events for an immediate binding of direction
/// `cur_dir` while the mapping holds direction `last_dir`.
pub(crate) fn emit_pulse(
    out: &mut Vec<InputMapEvent>,
    mapping: u32,
    owner: i32,
    last_dir: i32,
    cur_dir: i32,
)
    requires
        -1 <= last_dir <= 1,
        -1 <= cur_dir <= 1,
    ensures
        final(out)@ == old(out)@ + pulse_events(mapping, owner, last_dir as int, cur_dir as int),
{
    if last_dir == cur_dir || last_dir != 0 {
        out.push(InputMapEvent::JustReleased { mapping, dir: last_dir, owner });
    }
    if last_dir == 0 || last_dir != cur_dir {
        out.push(InputMapEvent::JustPressed { mapping, dir: cur_dir, owner });
        out.push(InputMapEvent::JustReleased { mapping, dir: cur_dir, owner });
    }
    if last_dir == cur_dir || last_dir != 0 {
        out.push(InputMapEvent::JustPressed { mapping, dir: last_dir, owner });
    }
    assert(out@ =~= old(out)@ + pulse_events(mapping, owner, last_dir as int, cur_dir as int));
}

/// The edge discipline: scanning `evs` while direction `open` is held,
/// every press happens with nothing held and every release releases exactly
/// the held direction.
pub open spec fn edge_ok(evs: Seq<InputMapEvent>, open: int) -> bool
    decreases evs.len(),
{
    if evs.len() == 0 {
        true
    } else {
        match evs[0] {
            InputMapEvent::JustPressed { dir, .. } => open == 0 && dir != 0 && edge_ok(
                evs.drop_first(),
                dir as int,
            ),
            InputMapEvent::JustReleased { dir, .. } => open == dir && dir != 0 && edge_ok(
                evs.drop_first(),
                0,
            ),
            _ => edge_ok(evs.drop_first(), open),
        }
    }
}

/// The direction left held after scanning `evs` starting from `open`.
pub open spec fn end_dir(evs: Seq<InputMapEvent>, open: int) -> int
    decreases evs.len(),
{
    if evs.len() == 0 {
        open
    } else {
        match evs[0] {
            InputMapEvent::JustPressed { dir, .. } => end_dir(evs.drop_first(), dir as int),
            InputMapEvent::JustReleased { dir, .. } => end_dir(evs.drop_first(), 0),
            _ => end_dir(evs.drop_first(), open),
        }
    }
}

/// The edge discipline composes: a well-edged run followed by a run that is
/// well-edged from where the first one ended is well-edged as a whole.
pub proof fn lemma_edge_ok_concat(a: Seq<InputMapEvent>, b: Seq<InputMapEvent>, open: int)
    requires
        edge_ok(a, open),
        edge_ok(b, end_dir(a, open)),
    ensures
        edge_ok(a + b, open),
        end_dir(a + b, open) == end_dir(b, end_dir(a, open)),
    decreases a.len(),
{
    if a.len() == 0 {
        assert(a + b =~= b);
    } else {
        let next = match a[0] {
            InputMapEvent::JustPressed { dir, .. } => dir as int,
            InputMapEvent::JustReleased { .. } => 0,
            _ => open,
        };
        lemma_edge_ok_concat(a.drop_first(), b, next);
        assert((a + b).drop_first() =~= a.drop_first() + b);
    }
}

/// One direction transition obeys the edge discipline and leaves the new
/// direction held.
pub proof fn lemma_transition_edge_ok(mapping: u32, owner: i32, last: int, cur: int)
    requires
        -1 <= last <= 1,
        -1 <= cur <= 1,
    ensures
        edge_ok(transition_events(mapping, owner, last, cur), last),
        end_dir(transition_events(mapping, owner, last, cur), last) == cur,
{
    reveal_with_fuel(edge_ok, 4);
    reveal_with_fuel(end_dir, 4);
    let evs = transition_events(mapping, owner, last, cur);
    if last != cur {
        if cur == 0 || last != 0 {
            if last == 0 || cur != 0 {
                assert(evs.len() == 2);
                assert(evs.drop_first() =~= seq![
                    InputMapEvent::JustPressed { mapping, dir: cur as i32, owner },
                ]);
                assert(evs.drop_first().drop_first() =~= Seq::<InputMapEvent>::empty());
            } else {
                assert(evs.drop_first() =~= Seq::<InputMapEvent>::empty());
            }
        } else {
            assert(evs.drop_first() =~= Seq::<InputMapEvent>::empty());
        }
    }
}

/// One impulse pulse obeys the edge discipline and restores the held
/// direction.
pub proof fn lemma_pulse_edge_ok(mapping: u32, owner: i32, last: int, cur: int)
    requires
        -1 <= last <= 1,
        -1 <= cur <= 1,
        cur != 0,
    ensures
        edge_ok(pulse_events(mapping, owner, last, cur), last),
        end_dir(pulse_events(mapping, owner, last, cur), last) == last,
{
    reveal_with_fuel(edge_ok, 6);
    reveal_with_fuel(end_dir, 6);
    let evs = pulse_events(mapping, owner, last, cur);
    if last == 0 {
        assert(evs =~= seq![
            InputMapEvent::JustPressed { mapping, dir: cur as i32, owner },
            InputMapEvent::JustReleased { mapping, dir: cur as i32, owner },
        ]);
        assert(evs.drop_first() =~= seq![
            InputMapEvent::JustReleased { mapping, dir: cur as i32, owner },
        ]);
        assert(evs.drop_first().drop_first() =~= Seq::<InputMapEvent>::empty());
    } else if last == cur {
        assert(evs =~= seq![
            InputMapEvent::JustReleased { mapping, dir: last as i32, owner },
            InputMapEvent::JustPressed { mapping, dir: last as i32, owner },
        ]);
        assert(evs.drop_first() =~= seq![
            InputMapEvent::JustPressed { mapping, dir: last as i32, owner },
        ]);
        assert(evs.drop_first().drop_first() =~= Seq::<InputMapEvent>::empty());
    } else {
        assert(evs =~= seq![
            InputMapEvent::JustReleased { mapping, dir: last as i32, owner },
            InputMapEvent::JustPressed { mapping, dir: cur as i32, owner },
            InputMapEvent::JustReleased { mapping, dir: cur as i32, owner },
            InputMapEvent::JustPressed { mapping, dir: last as i32, owner },
        ]);
        let e1 = evs.drop_first();
        let e2 = e1.drop_first();
        let e3 = e2.drop_first();
        assert(e1 =~= seq![
            InputMapEvent::JustPressed { mapping, dir: cur as i32, owner },
            InputMapEvent::JustReleased { mapping, dir: cur as i32, owner },
            InputMapEvent::JustPressed { mapping, dir: last as i32, owner },
        ]);
        assert(e2 =~= seq![
            InputMapEvent::JustReleased { mapping, dir: cur as i32, owner },
            InputMapEvent::JustPressed { mapping, dir: last as i32, owner },
        ]);
        assert(e3 =~= seq![InputMapEvent::JustPressed { mapping, dir: last as i32, owner }]);
        assert(e3.drop_first() =~= Seq::<InputMapEvent>::empty());
    }
}

/// The events produced by a run of direction values: the transitions between
/// each consecutive pair, in order.
pub open spec fn trace_events(mapping: u32, owner: i32, dirs: Seq<int>) -> Seq<InputMapEvent>
    decreases dirs.len(),
{
    if dirs.len() <= 1 {
        Seq::empty()
    } else {
        transition_events(mapping, owner, dirs[0], dirs[1]) + trace_events(
            mapping,
            owner,
            dirs.drop_first(),
        )
    }
}

/// Edge symmetry: along any run of directions a mapping moves through, the
/// emitted edge events obey the edge discipline — each `JustPressed { dir }`
/// is followed by exactly one `JustReleased { dir }` before any `JustPressed`
/// with a different direction, and the run ends holding the last direction.
pub proof fn lemma_edge_symmetry(mapping: u32, owner: i32, dirs: Seq<int>)
    requires
        dirs.len() >= 1,
        forall|i: int| 0 <= i < dirs.len() ==> -1 <= #[trigger] dirs[i] <= 1,
    ensures
        edge_ok(trace_events(mapping, owner, dirs), dirs[0]),
        end_dir(trace_events(mapping, owner, dirs), dirs[0]) == dirs[dirs.len() - 1],
    decreases dirs.len(),
{
    if dirs.len() <= 1 {
    } else {
        let a = transition_events(mapping, owner, dirs[0], dirs[1]);
        let rest = dirs.drop_first();
        lemma_transition_edge_ok(mapping, owner, dirs[0], dirs[1]);
        lemma_edge_symmetry(mapping, owner, rest);
        assert(rest[0] == dirs[1]);
        lemma_edge_ok_concat(a, trace_events(mapping, owner, rest), dirs[0]);
        assert(rest[rest.len() - 1] == dirs[dirs.len() - 1]);
    }
}

} // verus!

