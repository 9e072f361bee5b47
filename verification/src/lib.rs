//! Procedural world generation and creature simulation on a toroidal tile grid.
//!
//! A world is a stack of square levels whose coordinates wrap around in both
//! axes. It is generated from a seed and from the fields that layered noise
//! gives for that seed, peopled with creatures, and then advanced tick by
//! tick while its player walks through it.
//!
//! Everything random is drawn from one explicitly passed generator, so every
//! operation is a function of its arguments and of the generator's state, and
//! every contract says which function. The library computes with integers
//! only: where real numbers come in, as in the evaluation of noise, the
//! caller does the arithmetic and hands over what it decides.
//!
//! * [`util`] holds the generator and the arithmetic of rings and fractions.
//! * [`world`] holds tiles, slots, levels and the world, with generation in
//!   [`world::gen`], the ring search in [`world::search`] and the survey of
//!   surroundings in [`world::ambient`].
//! * [`life`] holds the tick, what it preserves, and vision.
//! * [`player`] holds the player's moves.

pub mod life;
pub mod player;
pub mod util;
pub mod world;
