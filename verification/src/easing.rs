use vstd::prelude::*;

verus! {

/// Variety to associate with [Easing]s to tune the acceleration.
#[derive(Debug, Clone, Copy, PartialEq, Eq, Hash, Structural)]
pub enum EasingVariety {
    Quadratic,
    Cubic,
    Quartic,
    Quintic,
    Exponential,
    Circular,
    Sin,
}

/// Animation easing.
///
/// The remapping itself (`Easing::get`) works on floating-point values and is
/// applied by the engine layer; here the easing is carried as data.
#[derive(Debug, Clone, Copy, PartialEq, Eq, Hash, Structural)]
pub enum Easing {
    /// Linear interpolation.
    Linear,
    /// Slow at the start of the animation then speeds up.
    In(EasingVariety),
    /// Fast at the start of the animation then slows down.
    Out(EasingVariety),
    /// Fast at the start and at the end of the animation, slows down in the middle.
    InOut(EasingVariety),
}

impl Default for Easing {
    fn default() -> (r: Self)
        ensures
            r == Easing::Linear,
    {
        Easing::Linear
    }
}

} // verus!
