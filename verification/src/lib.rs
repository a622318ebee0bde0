//! An adaptive concurrency limiter.
//!
//! The limiter bounds the number of concurrently outstanding operations
//! against a resource whose safe capacity drifts over time. An
//! additive-increase/multiplicative-decrease controller ([`aimd::Aimd`])
//! computes the current limit from success/failure feedback, and a semaphore
//! ([`semaphore::AimdSemaphore`]) tracks the in-flight count against that
//! limit, queues suspended callers in FIFO order, and issues single-use
//! [`semaphore::Permit`]s.

pub mod aimd;
pub mod codec;
pub mod semaphore;
