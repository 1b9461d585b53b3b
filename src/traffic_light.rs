//! The three lights of a traffic signal and the order in which they follow each other.

use vstd::prelude::*;

verus! {

#[derive(Debug, PartialEq, Eq, Structural)]
pub enum TrafficLight {
    Red,
    Yellow,
    Green,
}

/// The light that comes after `light`: green, then yellow, then red, then green again.
pub open spec fn successor(light: TrafficLight) -> TrafficLight {
    match light {
        TrafficLight::Green => TrafficLight::Yellow,
        TrafficLight::Yellow => TrafficLight::Red,
        TrafficLight::Red => TrafficLight::Green,
    }
}

/// Returns the light that follows `light`.
pub fn next_light(light: &TrafficLight) -> (r: TrafficLight)
    ensures
        r == successor(*light),
{
    match light {
        TrafficLight::Green => TrafficLight::Yellow,
        TrafficLight::Yellow => TrafficLight::Red,
        TrafficLight::Red => TrafficLight::Green,
    }
}

impl TrafficLight {
    /// Returns the light that follows this one.
    pub fn next_light(&self) -> (r: TrafficLight)
        ensures
            r == successor(*self),
    {
        match self {
            TrafficLight::Green => TrafficLight::Yellow,
            TrafficLight::Yellow => TrafficLight::Red,
            TrafficLight::Red => TrafficLight::Green,
        }
    }
}

} // verus!
