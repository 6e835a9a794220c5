//! The health of a process.

pub use crate::task::health::{
    check_event, result_exit, result_line, AggregateOutcome, CheckPlan, CheckResult, HealthEvent,
    HealthRunner,
};
