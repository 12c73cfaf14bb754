//! A bounded worker pool, modelled and verified.
//!
//! A fixed number of workers drain a shared first-in-first-out queue of
//! messages. A message is either a unit of work, identified by the label its
//! submitter chose, or a terminate signal — a poison pill that stops exactly
//! one worker. Shutdown enqueues one terminate per worker and then joins each
//! worker once; because the queue is first-in-first-out, every job submitted
//! before shutdown runs before the workers stop.

pub mod message;
pub mod pool;
pub mod worker;

pub use message::Message;
pub use pool::Phase;
pub use pool::PoolError;
pub use pool::ThreadPool;
pub use worker::on_message;
pub use worker::Action;
pub use worker::Worker;
