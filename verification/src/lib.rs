//! An input-binding resolution engine.
//!
//! The engine turns a per-tick stream of raw device signals (keys, mouse
//! buttons, mouse motion and scroll, gamepad buttons and axes) into
//! application-level *mapping* events.  Applications configure, per owner
//! (player), a set of binding chords — zero or more modifier bindings plus one
//! primary binding — each with a scale and dead-zone thresholds.  Every tick
//! the engine normalizes the raw signals into canonical binding events,
//! resolves which chord drives each mapping, accumulates per-mapping values,
//! and emits edge, value, repeat and rebind-capture events.
//!
//! All signal values are fixed-point integers in thousandths (`UNIT == 1000`
//! stands for 1.0); aggregate mapping values are `i128` so that sums of
//! contributions never overflow.

mod dead_zone;
mod edge;
mod engine;
mod events;
mod laws;
mod normalizer;
mod strings;
mod sums;
mod tables;
mod tick;
mod values;

pub use dead_zone::clamp_spec;
pub use dead_zone::dead_zone_spec;
pub use dead_zone::eff_neg_max;
pub use dead_zone::eff_neg_min;
pub use dead_zone::eff_pos_max;
pub use dead_zone::eff_pos_min;
pub use dead_zone::lemma_dead_zone_full_deflection;
pub use dead_zone::lemma_dead_zone_unit_range;
pub use dead_zone::lemma_dead_zone_zero_inside;
pub use dead_zone::max2;
pub use dead_zone::min2;
pub use dead_zone::ramp;
pub use dead_zone::use_dead_zone;
pub use edge::dir_of;
pub use edge::dir_of_val;
pub use edge::edge_ok;
pub use edge::end_dir;
pub use edge::lemma_edge_ok_concat;
pub use edge::lemma_edge_symmetry;
pub use edge::lemma_pulse_edge_ok;
pub use edge::lemma_transition_edge_ok;
pub use edge::pulse_events;
pub use edge::trace_events;
pub use edge::transition_events;
pub use engine::BindConfig;
pub use engine::ConfigV;
pub use engine::Contrib;
pub use engine::ContribV;
pub use engine::EngineConfig;
pub use engine::InputMap;
pub use engine::MappingBind;
pub use engine::NormalizerState;
pub use engine::RepState;
pub use engine::ResolverState;
pub use events::BindingInputEvent;
pub use events::InputMapError;
pub use events::InputMapEvent;
pub use events::RawInputEvent;
pub use events::ScrollUnit;
pub use laws::lemma_disconnect_release;
pub use laws::lemma_flush_one_edge_ok;
pub use laws::lemma_value_changed_is_aggregate;
pub use normalizer::norm_axes_after;
pub use normalizer::norm_buttons_after;
pub use normalizer::norm_events;
pub use normalizer::norm_keys_after;
pub use normalizer::norm_run;
pub use normalizer::raw_bounded;
pub use strings::dec_str;
pub use strings::digit_char;
pub use strings::lemma_name_round_trip;
pub use strings::parse_dec;
pub use strings::parse_payload;
pub use strings::starts_with;
pub use strings::u32_to_string;
pub use sums::agg;
pub use sums::sum_vals;
pub use tables::views;
pub use tick::active_conflict;
pub use tick::active_idxs;
pub use tick::capturable;
pub use tick::capture_matches;
pub use tick::capture_run;
pub use tick::capture_step;
pub use tick::CaptureEv;
pub use tick::cascade_cfg_step;
pub use tick::cascade_cfgs;
pub use tick::cascade_inputs;
pub use tick::cascade_owners;
pub use tick::chain_find;
pub use tick::chain_views;
pub use tick::contribution_of;
pub use tick::disarm_spec;
pub use tick::disc_of;
pub use tick::eligible_idxs;
pub use tick::env_of;
pub use tick::flush_events;
pub use tick::flush_one;
pub use tick::flush_rep;
pub use tick::keep_owner_row;
pub use tick::max_mods;
pub use tick::modifiers_held_spec;
pub use tick::mods_after;
pub use tick::mods_after_one;
pub use tick::ok_prepend;
pub use tick::other_owners_of;
pub use tick::owners_of;
pub use tick::owners_with;
pub use tick::pair_configured;
pub use tick::process_founds;
pub use tick::process_one;
pub use tick::repeat_one;
pub use tick::repeat_row;
pub use tick::repeat_state_of;
pub use tick::repeats_run;
pub use tick::resolve_owner;
pub use tick::resolve_owners;
pub use tick::resolve_run;
pub use tick::ResolveEnv;
pub use tick::row_active;
pub use tick::row_configured;
pub use tick::row_eligible;
pub use tick::rs_idx;
pub use tick::selected_idxs;
pub use tick::snap_keys;
pub use tick::tick_snapshot;
pub use tick::unique_primaries;
pub use values::Binding;
pub use values::BindingGroup;
pub use values::DeadZone;
pub use values::Device;
pub use values::RAW_MAX;
pub use values::SCALE_MAX;
pub use values::UNIT;
pub use values::VAL_MAX;
