//! Project-wide settings of the scroll engine.
use vstd::prelude::*;

verus! {

/// How the scroll reacts: how thick the medium is and how long motion
/// lasts.
#[derive(Clone, Copy, Debug, PartialEq, Eq, Structural)]
pub struct InertiaProperties {
    pub viscosity: u8,
    pub inertion: u8,
}

impl Default for InertiaProperties {
    /// Viscosity 20, inertion 50.
    fn default() -> (r: InertiaProperties)
        ensures
            r.viscosity == 20,
            r.inertion == 50,
    {
        InertiaProperties { viscosity: 20, inertion: 50 }
    }
}

/// The settings the engine applies to a project.
#[derive(Clone, Copy, Debug)]
pub struct BalchugSettings {
    pub background_color: [u8; 3],
    pub inertia_properties: InertiaProperties,
}

impl Default for BalchugSettings {
    /// Black background, default inertia.
    fn default() -> (r: BalchugSettings)
        ensures
            r.background_color@ == seq![0u8, 0u8, 0u8],
            r.inertia_properties.viscosity == 20,
            r.inertia_properties.inertion == 50,
    {
        BalchugSettings { background_color: [0, 0, 0], inertia_properties: InertiaProperties::default() }
    }
}

} // verus!
