//! Handles of the OBS API. OBS owns these objects; the plugin only passes
//! pointers to them back and forth, so they have no contents of their own.
use vstd::prelude::*;

verus! {

/// An OBS settings object (`obs_data_t`).
pub struct ObsData(());

/// A set of OBS source properties (`obs_properties_t`).
pub struct ObsProperties(());

/// One OBS source property (`obs_property_t`).
pub struct ObsProperty(());

/// An OBS source (`obs_source_t`).
pub struct ObsSource(());

/// An OBS shader effect (`gs_effect_t`).
pub struct ObsEffect(());

/// A parameter of an OBS shader effect (`gs_eparam_t`).
pub struct ObsEffectParam(());

/// An OBS graphics texture (`gs_texture_t`).
pub struct ObsTexture(());

} // verus!
