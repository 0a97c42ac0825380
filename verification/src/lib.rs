//! Verified kernels of a small performance lab: a bounded lock-free
//! multi-producer multi-consumer queue with the arithmetic of its workload,
//! a SHA-256 hashing context, the checksum of the pipe test, the colouring
//! of the Mandelbrot picture, and the linear congruential generator that
//! seeds the numeric workloads.

pub mod lcg;
pub mod pipe;
pub mod pixmap;
pub mod queue;
pub mod sha256;
pub mod workload;
