//! Tracking a value against a quota and warning through a messenger as it
//! approaches or passes the limit.
use vstd::prelude::*;

verus! {

/// Where messages about the quota go.
pub trait Messenger {
    fn send(&self, msg: &str);
}

/// How close a value has come to its quota.
#[derive(Clone, Copy, PartialEq, Eq, Debug, Structural)]
pub enum QuotaAlert {
    /// Above the quota.
    OverQuota,
    /// At 90% of the quota or more.
    Urgent,
    /// At 75% of the quota or more.
    Warning,
}

/// The alert for `value` against the quota `max`, with the shares taken as exact
/// fractions; a quota of zero alerts only once the value is above it.
pub open spec fn alert_for(value: nat, max: nat) -> Option<QuotaAlert> {
    if value > max {
        Some(QuotaAlert::OverQuota)
    } else if max == 0 {
        None
    } else if 10 * value >= 9 * max {
        Some(QuotaAlert::Urgent)
    } else if 4 * value >= 3 * max {
        Some(QuotaAlert::Warning)
    } else {
        None
    }
}

impl QuotaAlert {
    /// The text sent for this alert.
    pub fn message(&self) -> (r: &'static str)
        ensures
            *self == QuotaAlert::OverQuota ==> r@ == "Error: you are over your quota!"@,
            *self == QuotaAlert::Urgent ==> r@ == "Urgent Warning: u used 90% of your quota!"@,
            *self == QuotaAlert::Warning ==> r@ == "Warning: u used 75% of your quota!"@,
    {
        match self {
            QuotaAlert::OverQuota => "Error: you are over your quota!",
            QuotaAlert::Urgent => "Urgent Warning: u used 90% of your quota!",
            QuotaAlert::Warning => "Warning: u used 75% of your quota!",
        }
    }
}

/// The alert, if any, for `value` against the quota `max`.
pub fn alert_for_usage(value: usize, max: usize) -> (r: Option<QuotaAlert>)
    ensures
        r == alert_for(value as nat, max as nat),
{
    let v = value as u128;
    let m = max as u128;
    if v > m {
        Some(QuotaAlert::OverQuota)
    } else if m == 0 {
        None
    } else if 10 * v >= 9 * m {
        Some(QuotaAlert::Urgent)
    } else if 4 * v >= 3 * m {
        Some(QuotaAlert::Warning)
    } else {
        None
    }
}

/// A value tracked against a quota; each new value that comes close to the
/// quota or passes it is reported to the messenger.
pub struct LimitTracker<'a, T: 'a + Messenger> {
    messenger: &'a T,
    value: usize,
    max: usize,
}

impl<'a, T: Messenger> LimitTracker<'a, T> {
    pub closed spec fn value(&self) -> usize {
        self.value
    }

    pub closed spec fn max(&self) -> usize {
        self.max
    }

    /// A tracker at zero against the quota `max`.
    pub fn new(messenger: &'a T, max: usize) -> (r: LimitTracker<'a, T>)
        ensures
            r.value() == 0,
            r.max() == max,
    {
        LimitTracker { messenger, value: 0, max }
    }

    /// Sets the value and sends the message of `alert_for(value, max)`, if there
    /// is one, to the messenger.
    pub fn set_value(&mut self, value: usize)
        ensures
            final(self).value() == value,
            final(self).max() == old(self).max(),
    {
        self.value = value;
        match alert_for_usage(self.value, self.max) {
            Some(alert) => self.messenger.send(alert.message()),
            None => {},
        }
    }
}

} // verus!
