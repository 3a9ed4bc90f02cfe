//! Phototaxis: the simulation kernel of a swarm of moths that flock, wander
//! and settle around lanterns that light and go dark at random.
//!
//! # Numbers
//!
//! The kernel computes in fixed point. A scalar is an `i64` that counts
//! millionths of a unit ([`fixed::ONE`] stands for `1.0`), a probability is a
//! number of millionths, and time is a `u64` of nanoseconds. Products are
//! formed in 128 bits and every quotient is rounded toward zero, so that
//! the arithmetic of a run depends on nothing but its inputs. Contracts
//! speak of the operations on unbounded integers that the code computes,
//! rounding included; what the rounding cannot spoil is stated beside them:
//! no moth is faster than the configured speed, none ends a tick farther
//! outside the room than it can fly in one, a moth turned away by a lantern
//! is left on its surface, and a dark lantern emits nothing.
//!
//! Values are accepted within the ranges of [`config`]: coordinates and
//! speeds up to a million units, weights up to sixteen, flocks of up to
//! 65,536 moths, ticks up to a thousand seconds. Within them no operation
//! overflows.
//!
//! # Modules
//!
//! * [`fixed`] and [`vector`]: scalars, square roots and vectors.
//! * [`timer`]: the one-shot countdown of lanterns and settled moths.
//! * [`rng`]: the draws taken from the seedable generator of `rand`.
//! * [`config`] and [`components`]: parameters, moths and lanterns.
//! * [`resources`]: the grid that files entities by the cell they stand in.
//! * [`systems`]: what happens to moths and lanterns on a tick.
//! * [`setup`] and [`simulation`]: the first state, and the tick as a whole.
//!
//! # A tick
//!
//! [`simulation::Simulation::tick`] runs the systems in this order: the
//! lanterns switch and flicker; moths land and take off; flying moths that
//! were left at rest are given a heading; flying moths are steered by their
//! flock, the nearest lantern in view and a random push; they are turned away
//! from the bodies of the lanterns and kept in the room; and every moth
//! moves. Each system may also be run by itself.

pub mod components;
pub mod config;
pub mod fixed;
pub mod resources;
pub mod rng;
pub mod setup;
pub mod simulation;
pub mod systems;
pub mod timer;
pub mod vector;
