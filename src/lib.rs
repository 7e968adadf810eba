//! Small verified building blocks: a sliding cycle buffer, sublist search by
//! prefix function, a few classic integer algorithms, the decisions of a
//! number-guessing game, and a framebuffer builder over `image`.
pub mod algorithms;
pub mod cycle_buf;
pub mod framebuffer;
pub mod guessing;
pub mod sublist;
