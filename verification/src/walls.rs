//! The wall rule: a particle found outside the viewport is turned around.

use vstd::prelude::*;
use crate::binary32::Binary32;
use crate::binary32::lemma_neg;

verus! {

/// A point particle: where it is and how fast it moves, per second.
#[derive(Clone, Copy, Debug, PartialEq, Eq, Structural)]
pub struct Particle {
    pub x: Binary32,
    pub y: Binary32,
    pub dx: Binary32,
    pub dy: Binary32,
}

/// The extent of the viewport. Positions inside it run from 0 to `width`
/// and from 0 to `height`, both ends included.
#[derive(Clone, Copy, Debug, PartialEq, Eq, Structural)]
pub struct Viewport {
    pub width: Binary32,
    pub height: Binary32,
}

/// A coordinate is outside its axis when it lies above the limit or below
/// zero. A NaN coordinate is neither.
pub open spec fn outside(position: Binary32, limit: Binary32) -> bool {
    position.gt_spec(limit) || position.lt_spec(Binary32::zero_spec())
}

/// The velocity after the wall rule on one axis.
pub open spec fn reflected(position: Binary32, limit: Binary32, velocity: Binary32) -> Binary32 {
    if outside(position, limit) {
        velocity.neg_spec()
    } else {
        velocity
    }
}

impl Viewport {
    /// Both extents are numbers above zero.
    pub open spec fn wf(self) -> bool {
        Binary32::zero_spec().lt_spec(self.width) && Binary32::zero_spec().lt_spec(self.height)
    }

    /// The viewport of the given extents, if both are above zero.
    pub fn new(width: Binary32, height: Binary32) -> (r: Option<Viewport>)
        ensures
            match r {
                Some(v) => v.wf() && v.width == width && v.height == height,
                None => !(Viewport { width, height }).wf(),
            },
    {
        if Binary32::zero().lt(width) && Binary32::zero().lt(height) {
            Some(Viewport { width, height })
        } else {
            None
        }
    }
}

/// Applies the wall rule on one axis: the velocity comes back negated if the
/// position is outside, and as it was otherwise.
pub fn reflect(position: Binary32, limit: Binary32, velocity: Binary32) -> (r: Binary32)
    ensures
        r == reflected(position, limit, velocity),
{
    if position.gt(limit) || position.lt(Binary32::zero()) {
        velocity.negated()
    } else {
        velocity
    }
}

impl Particle {
    /// The particle after the wall rule on both axes.
    pub open spec fn bounced_spec(self, viewport: Viewport) -> Particle {
        Particle {
            x: self.x,
            y: self.y,
            dx: reflected(self.x, viewport.width, self.dx),
            dy: reflected(self.y, viewport.height, self.dy),
        }
    }

    /// Applies the wall rule on both axes. The position stays as it is, also
    /// where it is outside: the turned velocity brings the particle back.
    #[verifier::when_used_as_spec(bounced_spec)]
    pub fn bounced(self, viewport: Viewport) -> (r: Particle)
        requires
            viewport.wf(),
        ensures
            r == self.bounced_spec(viewport),
    {
        Particle {
            x: self.x,
            y: self.y,
            dx: reflect(self.x, viewport.width, self.dx),
            dy: reflect(self.y, viewport.height, self.dy),
        }
    }
}

/// Applies the wall rule to every particle, each in its place.
pub fn bounce_all(particles: &mut Vec<Particle>, viewport: Viewport)
    requires
        viewport.wf(),
    ensures
        final(particles)@.len() == old(particles)@.len(),
        forall|i: int|
            0 <= i < old(particles)@.len() ==> #[trigger] final(particles)@[i]
                == old(particles)@[i].bounced_spec(viewport),
{
    let count: usize = particles.len();
    let mut index: usize = 0;
    while index < count
        invariant
            viewport.wf(),
            index <= count,
            particles@.len() == count,
            old(particles)@.len() == count,
            forall|i: int|
                0 <= i < index ==> #[trigger] particles@[i]
                    == old(particles)@[i].bounced_spec(viewport),
            forall|i: int| index <= i < count ==> #[trigger] particles@[i] == old(particles)@[i],
        decreases count - index,
    {
        let particle: Particle = particles[index];
        particles.set(index, particle.bounced(viewport));
        index = index + 1;
    }
}

/// The wall rule in numbers: outside, the velocity changes sign and keeps
/// its size; inside, it is untouched. Applying the rule a second time at the
/// same position gives the first velocity back.
pub proof fn lemma_reflected(position: Binary32, limit: Binary32, velocity: Binary32)
    ensures
        outside(position, limit) ==> reflected(position, limit, velocity).value()
            == -velocity.value(),
        !outside(position, limit) ==> reflected(position, limit, velocity) == velocity,
        reflected(position, limit, velocity).magnitude_bits() == velocity.magnitude_bits(),
        outside(position, limit) ==> reflected(
            position,
            limit,
            reflected(position, limit, velocity),
        ) == velocity,
{
    lemma_neg(velocity);
}

/// The wall rule never moves a particle.
pub proof fn lemma_bounced_keeps_position(particle: Particle, viewport: Viewport)
    ensures
        particle.bounced_spec(viewport).x == particle.x,
        particle.bounced_spec(viewport).y == particle.y,
{
}

} // verus!
