//! Governance: the outcome of executing a proposal, the errors of the
//! guard, and the business-hours hook that gates submissions.
use vstd::prelude::*;
use vstd::string::StringExecFns;
use crate::text::{decimal, push_decimal};

verus! {

/// Classes of administrative action.
#[derive(Debug, Clone, Copy, PartialEq, Eq, Structural)]
pub enum ActionClass {
    Critical,
    Operational,
    Other,
}

#[derive(Debug, Clone)]
pub enum GuardError {
    ExecutionFailed(String),
    CancellationDenied(String),
    NotFound(String),
}

#[derive(Debug, Clone)]
pub enum ExecutionResult {
    Success,
    Rejected(String),
    Cancelled,
}

impl ExecutionResult {
    pub fn is_success(&self) -> (r: bool)
        ensures
            r == (self is Success),
    {
        match self {
            ExecutionResult::Success => true,
            _ => false,
        }
    }
}

/// A violated governance invariant, with its description.
#[derive(Debug)]
pub struct GovernanceViolation(pub String);

impl From<GovernanceViolation> for GuardError {
    fn from(v: GovernanceViolation) -> (r: Self) {
        GuardError::CancellationDenied(v.0)
    }
}

impl vstd::std_specs::convert::FromSpecImpl<GovernanceViolation> for GuardError {
    open spec fn obeys_from_spec() -> bool {
        true
    }

    open spec fn from_spec(v: GovernanceViolation) -> GuardError {
        GuardError::CancellationDenied(v.0)
    }
}

#[derive(Debug, Clone)]
pub enum HookError {
    Blocked(String),
    Internal(String),
}

/// Allows non-operational actions only within business hours.
pub struct BusinessHoursHook {
    pub start_hour: u32,
    pub end_hour: u32,
    pub allowed_days: Vec<u32>,
}

impl BusinessHoursHook {
    /// Monday to Friday, 9h to 18h.
    pub fn weekday_9_to_18() -> (r: Self)
        ensures
            r.start_hour == 9,
            r.end_hour == 18,
            r.allowed_days@ == seq![0u32, 1, 2, 3, 4],
    {
        let mut days: Vec<u32> = Vec::new();
        days.push(0);
        days.push(1);
        days.push(2);
        days.push(3);
        days.push(4);
        assert(days@ =~= seq![0u32, 1, 2, 3, 4]);
        BusinessHoursHook { start_hour: 9, end_hour: 18, allowed_days: days }
    }

    /// Whether an action is allowed at the local `hour` of the day on the
    /// weekday `weekday` (0 for Monday): within the hours, and on an
    /// allowed day unless no day is listed.
    pub fn is_allowed_at(&self, hour: u32, weekday: u32) -> (r: bool)
        ensures
            r == (self.start_hour <= hour && hour < self.end_hour && (self.allowed_days@.len() == 0
                || self.allowed_days@.contains(weekday))),
    {
        if hour < self.start_hour || hour >= self.end_hour {
            return false;
        }
        if self.allowed_days.len() == 0 {
            return true;
        }
        let mut i: usize = 0;
        while i < self.allowed_days.len()
            invariant
                0 <= i <= self.allowed_days@.len(),
                self.start_hour <= hour < self.end_hour,
                forall|k: int| 0 <= k < i ==> self.allowed_days@[k] != weekday,
            decreases self.allowed_days@.len() - i,
        {
            if self.allowed_days[i] == weekday {
                assert(self.allowed_days@[i as int] == weekday);
                return true;
            }
            i += 1;
        }
        false
    }
}

/// The message of a submission refused outside business hours.
pub open spec fn outside_hours_message(hour: u32, start: u32, end: u32) -> Seq<char> {
    "Fora do horário de expediente ("@ + decimal(hour as nat) + "h, precisa "@ + decimal(start as nat)
        + "h-"@ + decimal(end as nat) + "h)"@
}

impl BusinessHoursHook {
    /// The hook before a submission of an action of class `class` at the
    /// local `hour` on `weekday`: operational actions always pass; others
    /// pass only when allowed at that time, else are blocked with the hour
    /// and the window.
    pub fn pre_submit_at(&self, class: ActionClass, hour: u32, weekday: u32) -> (r: Result<(), HookError>)
        ensures
            class == ActionClass::Operational ==> r is Ok,
            class != ActionClass::Operational ==> {
                let allowed = self.start_hour <= hour && hour < self.end_hour && (
                self.allowed_days@.len() == 0 || self.allowed_days@.contains(weekday));
                &&& allowed ==> r is Ok
                &&& !allowed ==> (r matches Err(HookError::Blocked(m)) && m@ == outside_hours_message(
                    hour,
                    self.start_hour,
                    self.end_hour,
                ))
            },
    {
        if class == ActionClass::Operational {
            return Ok(());
        }
        if !self.is_allowed_at(hour, weekday) {
            let mut m = "Fora do horário de expediente (".to_owned();
            push_decimal(&mut m, hour as u64);
            m.append("h, precisa ");
            push_decimal(&mut m, self.start_hour as u64);
            m.append("h-");
            push_decimal(&mut m, self.end_hour as u64);
            m.append("h)");
            return Err(HookError::Blocked(m));
        }
        Ok(())
    }
}

} // verus!
