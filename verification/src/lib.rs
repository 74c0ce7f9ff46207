//! The geometry behind a beach-line sketch: for a horizontal sweep line and a
//! set of sites, the parabolic arc of every site that the sweep line has
//! passed, sampled on a regular grid and cut to the visible part of the
//! surface.
//!
//! All coordinates are integers in surface units, with `y` growing downwards
//! from the top edge of the surface. The ordinate of a sampled point is kept
//! as an exact fraction, so that every decision about visibility is exact
//! and nothing is divided before a point is drawn.
//!
//! - `parabola`: the arc of one site at one abscissa, and where it is in view;
//! - `sampling`: the grid of abscissas;
//! - `beach_line`: the arcs as chains of segments;
//! - `arc_lemmas`: what holds of every sketch;
//! - `sites`: sites scattered at random, in rising order of `y`;
//! - `input`: what the host's notifications carry;
//! - `view`: the state of a sketch view and its answer to each notification.

pub mod arc_lemmas;
pub mod beach_line;
pub mod input;
pub mod parabola;
pub mod sampling;
pub mod sites;
pub mod view;
