//! What can be wrong with a configuration.

use crate::config::duration::{DurationError, DurationProblem};
use crate::config::node::{Mark, Mismatch, Shape};
use vstd::prelude::*;

verus! {

/// A duration setting of a health check.
#[derive(Clone, Copy, Debug, PartialEq, Eq, Structural)]
pub enum DurationField {
    Interval,
    Timeout,
    StartPeriod,
}

impl DurationField {
    pub open spec fn key(self) -> Seq<char> {
        match self {
            DurationField::Interval => "interval"@,
            DurationField::Timeout => "timeout"@,
            DurationField::StartPeriod => "start_period"@,
        }
    }

    pub fn name(self) -> (r: &'static str)
        ensures
            r@ == self.key(),
    {
        match self {
            DurationField::Interval => "interval",
            DurationField::Timeout => "timeout",
            DurationField::StartPeriod => "start_period",
        }
    }
}

#[derive(Debug)]
pub enum ErrorKind {
    Expected(Shape),
    HealthcheckNeedsCmd,
    HookNeedsCmd,
    InvalidDuration(DurationField, DurationError),
    UnknownHealthcheck(String),
    BadHealthcheck,
    UnknownHookEvent(String),
    UnknownHook(String),
    BadHook,
    /// Processes in the global configuration, which is this file.
    ProcsInGlobalConfig(String),
    UnknownClientExit(String),
    OneshotWithHealthchecks,
    UnknownStop(String),
    BadStop,
    UnknownKey(String),
    /// An environment file that was not read.
    NoEnvFile(String),
}

/// A problem and where it is.
#[derive(Debug)]
pub struct ConfigError {
    pub mark: Mark,
    pub kind: ErrorKind,
}

/// An error kind, by its characters.
pub enum Problem {
    Expected(Shape),
    HealthcheckNeedsCmd,
    HookNeedsCmd,
    InvalidDuration(DurationField, DurationProblem),
    UnknownHealthcheck(Seq<char>),
    BadHealthcheck,
    UnknownHookEvent(Seq<char>),
    UnknownHook(Seq<char>),
    BadHook,
    ProcsInGlobalConfig(Seq<char>),
    UnknownClientExit(Seq<char>),
    OneshotWithHealthchecks,
    UnknownStop(Seq<char>),
    BadStop,
    UnknownKey(Seq<char>),
    NoEnvFile(Seq<char>),
}

pub struct Fault {
    pub mark: Mark,
    pub problem: Problem,
}

impl View for ErrorKind {
    type V = Problem;

    open spec fn view(&self) -> Problem {
        match self {
            ErrorKind::Expected(shape) => Problem::Expected(*shape),
            ErrorKind::HealthcheckNeedsCmd => Problem::HealthcheckNeedsCmd,
            ErrorKind::HookNeedsCmd => Problem::HookNeedsCmd,
            ErrorKind::InvalidDuration(field, e) => Problem::InvalidDuration(*field, e@),
            ErrorKind::UnknownHealthcheck(name) => Problem::UnknownHealthcheck(name@),
            ErrorKind::BadHealthcheck => Problem::BadHealthcheck,
            ErrorKind::UnknownHookEvent(name) => Problem::UnknownHookEvent(name@),
            ErrorKind::UnknownHook(name) => Problem::UnknownHook(name@),
            ErrorKind::BadHook => Problem::BadHook,
            ErrorKind::ProcsInGlobalConfig(file) => Problem::ProcsInGlobalConfig(file@),
            ErrorKind::UnknownClientExit(name) => Problem::UnknownClientExit(name@),
            ErrorKind::OneshotWithHealthchecks => Problem::OneshotWithHealthchecks,
            ErrorKind::UnknownStop(name) => Problem::UnknownStop(name@),
            ErrorKind::BadStop => Problem::BadStop,
            ErrorKind::UnknownKey(name) => Problem::UnknownKey(name@),
            ErrorKind::NoEnvFile(path) => Problem::NoEnvFile(path@),
        }
    }
}

impl View for ConfigError {
    type V = Fault;

    open spec fn view(&self) -> Fault {
        Fault { mark: self.mark, problem: self.kind@ }
    }
}

impl Problem {
    pub open spec fn described(self) -> Seq<char> {
        match self {
            Problem::Expected(Shape::Mapping) => "expected a mapping"@,
            Problem::Expected(Shape::List) => "expected a list"@,
            Problem::Expected(Shape::Text) => "expected a string"@,
            Problem::Expected(Shape::Number) => "expected a number"@,
            Problem::Expected(Shape::Boolean) => "expected a boolean"@,
            Problem::HealthcheckNeedsCmd => "healthcheck requires `cmd`"@,
            Problem::HookNeedsCmd => "hook requires `cmd`"@,
            Problem::InvalidDuration(field, e) => "invalid "@ + field.key() + ": "@
                + e.described(),
            Problem::UnknownHealthcheck(name) => "unknown healthcheck `"@ + name + "`"@,
            Problem::BadHealthcheck => "expected healthcheck name (string) or inline mapping"@,
            Problem::UnknownHookEvent(name) => "unknown hook event `"@ + name + "`"@,
            Problem::UnknownHook(name) => "unknown hook `"@ + name + "`"@,
            Problem::BadHook => "hook must be a name (string) or inline mapping"@,
            Problem::ProcsInGlobalConfig(file) => "'procs' is not allowed in the global config ("@
                + file + "); define processes in the workspace dekit.yaml"@,
            Problem::UnknownClientExit(name) => "unknown on_client_exit `"@ + name + "`"@,
            Problem::OneshotWithHealthchecks =>
                "oneshot and healthchecks are mutually exclusive"@,
            Problem::UnknownStop(name) => "unknown stop `"@ + name + "`"@,
            Problem::BadStop => "stop must be a signal, `send-keys` or `cmd`"@,
            Problem::UnknownKey(name) => "unknown key `"@ + name + "`"@,
            Problem::NoEnvFile(path) => "cannot read env file `"@ + path + "`"@,
        }
    }
}

impl ConfigError {
    pub fn at(mark: Mark, kind: ErrorKind) -> (r: Self)
        ensures
            r@ == (Fault { mark, problem: kind@ }),
    {
        ConfigError { mark, kind }
    }

    pub fn expected(m: Mismatch) -> (r: Self)
        ensures
            r@ == mismatch_fault(m),
    {
        ConfigError { mark: m.mark, kind: ErrorKind::Expected(m.expected) }
    }

    /// The error in words, without its position.
    pub fn message(&self) -> (r: String)
        ensures
            r@ == self@.problem.described(),
    {
        let mut s = String::new();
        match &self.kind {
            ErrorKind::Expected(Shape::Mapping) => {
                s.append("expected a mapping");
            },
            ErrorKind::Expected(Shape::List) => {
                s.append("expected a list");
            },
            ErrorKind::Expected(Shape::Text) => {
                s.append("expected a string");
            },
            ErrorKind::Expected(Shape::Number) => {
                s.append("expected a number");
            },
            ErrorKind::Expected(Shape::Boolean) => {
                s.append("expected a boolean");
            },
            ErrorKind::HealthcheckNeedsCmd => {
                s.append("healthcheck requires `cmd`");
            },
            ErrorKind::HookNeedsCmd => {
                s.append("hook requires `cmd`");
            },
            ErrorKind::InvalidDuration(field, e) => {
                let name = field.name();
                let text = e.message();
                s.append("invalid ");
                s.append(name);
                s.append(": ");
                s.append(text.as_str());
            },
            ErrorKind::UnknownHealthcheck(name) => {
                s.append("unknown healthcheck `");
                s.append(name.as_str());
                s.append("`");
            },
            ErrorKind::BadHealthcheck => {
                s.append("expected healthcheck name (string) or inline mapping");
            },
            ErrorKind::UnknownHookEvent(name) => {
                s.append("unknown hook event `");
                s.append(name.as_str());
                s.append("`");
            },
            ErrorKind::UnknownHook(name) => {
                s.append("unknown hook `");
                s.append(name.as_str());
                s.append("`");
            },
            ErrorKind::BadHook => {
                s.append("hook must be a name (string) or inline mapping");
            },
            ErrorKind::ProcsInGlobalConfig(file) => {
                s.append("'procs' is not allowed in the global config (");
                s.append(file.as_str());
                s.append("); define processes in the workspace dekit.yaml");
            },
            ErrorKind::OneshotWithHealthchecks => {
                s.append("oneshot and healthchecks are mutually exclusive");
            },
            ErrorKind::UnknownStop(name) => {
                s.append("unknown stop `");
                s.append(name.as_str());
                s.append("`");
            },
            ErrorKind::BadStop => {
                s.append("stop must be a signal, `send-keys` or `cmd`");
            },
            ErrorKind::UnknownKey(name) => {
                s.append("unknown key `");
                s.append(name.as_str());
                s.append("`");
            },
            ErrorKind::NoEnvFile(path) => {
                s.append("cannot read env file `");
                s.append(path.as_str());
                s.append("`");
            },
            ErrorKind::UnknownClientExit(name) => {
                s.append("unknown on_client_exit `");
                s.append(name.as_str());
                s.append("`");
            },
        }
        proof {
            assert(s@ =~= self@.problem.described());
        }
        s
    }
}

pub open spec fn mismatch_fault(m: Mismatch) -> Fault {
    Fault { mark: m.mark, problem: Problem::Expected(m.expected) }
}

} // verus!
