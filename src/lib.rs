//! The integer core of an interactive Mandelbrot viewer: the colouring of
//! escape-time counts, the split of a frame into row bands rendered on their
//! own, the assembly of those bands into one frame, and the pointer state
//! machine that turns drags and wheel steps into viewport actions.
pub mod color;
pub mod controller;
pub mod schedule;
pub mod worker;
