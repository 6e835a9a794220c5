//! One value per lifecycle hook.

use crate::config::health::HookEvent;
use vstd::prelude::*;

verus! {

/// A value for each event that has one.
#[derive(Debug)]
pub struct HookMap<T> {
    pub started: Option<T>,
    pub running: Option<T>,
    pub unhealthy: Option<T>,
    pub stopped: Option<T>,
    pub failed: Option<T>,
}

impl<T: Copy> Clone for HookMap<T> {
    fn clone(&self) -> (r: Self)
        ensures
            r == *self,
    {
        HookMap {
            started: self.started,
            running: self.running,
            unhealthy: self.unhealthy,
            stopped: self.stopped,
            failed: self.failed,
        }
    }
}

impl<T: Copy> Copy for HookMap<T> {

}

impl<T: Copy> HookMap<T> {
    pub open spec fn at(self, event: HookEvent) -> Option<T> {
        match event {
            HookEvent::Started => self.started,
            HookEvent::Running => self.running,
            HookEvent::Unhealthy => self.unhealthy,
            HookEvent::Stopped => self.stopped,
            HookEvent::Failed => self.failed,
        }
    }

    pub open spec fn with(self, event: HookEvent, value: T) -> HookMap<T> {
        match event {
            HookEvent::Started => HookMap { started: Some(value), ..self },
            HookEvent::Running => HookMap { running: Some(value), ..self },
            HookEvent::Unhealthy => HookMap { unhealthy: Some(value), ..self },
            HookEvent::Stopped => HookMap { stopped: Some(value), ..self },
            HookEvent::Failed => HookMap { failed: Some(value), ..self },
        }
    }

    pub open spec fn none() -> HookMap<T> {
        HookMap { started: None, running: None, unhealthy: None, stopped: None, failed: None }
    }

    pub fn new() -> (r: Self)
        ensures
            r == HookMap::<T>::none(),
    {
        HookMap { started: None, running: None, unhealthy: None, stopped: None, failed: None }
    }

    pub fn get(&self, event: HookEvent) -> (r: Option<T>)
        ensures
            r == self.at(event),
    {
        match event {
            HookEvent::Started => self.started,
            HookEvent::Running => self.running,
            HookEvent::Unhealthy => self.unhealthy,
            HookEvent::Stopped => self.stopped,
            HookEvent::Failed => self.failed,
        }
    }

    pub fn insert(&mut self, event: HookEvent, value: T)
        ensures
            *final(self) == old(self).with(event, value),
    {
        match event {
            HookEvent::Started => {
                self.started = Some(value);
            },
            HookEvent::Running => {
                self.running = Some(value);
            },
            HookEvent::Unhealthy => {
                self.unhealthy = Some(value);
            },
            HookEvent::Stopped => {
                self.stopped = Some(value);
            },
            HookEvent::Failed => {
                self.failed = Some(value);
            },
        }
    }
}

} // verus!
