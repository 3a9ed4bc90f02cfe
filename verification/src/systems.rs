//! The systems of a tick, in the order in which a tick runs them: lanterns
//! switch, moths land or take off, flying moths steer, are kept out of the
//! lanterns and inside the room, and move.

pub mod collision;
pub mod flocking;
pub mod lantern;
pub mod moth;
pub mod scene;
