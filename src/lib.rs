//! A periodic image capture loop with durable progress: frame naming, the
//! stored progress record, the day-rollover cleanup and the scheduler's
//! decisions, each with a verified contract.

pub mod calendar;
pub mod cleanup;
pub mod decimal;
pub mod frame;
pub mod record;
pub mod scheduler;
