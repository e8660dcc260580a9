use rust_book::quota::{alert_for_usage, QuotaAlert};
use rust_book::{LimitTracker, Messenger};
use std::cell::RefCell;

struct MockMessenger {
    sent_messages: RefCell<Vec<String>>,
}

impl MockMessenger {
    fn new() -> MockMessenger {
        MockMessenger {
            sent_messages: RefCell::new(vec![]),
        }
    }
}

impl Messenger for MockMessenger {
    fn send(&self, message: &str) {
        self.sent_messages.borrow_mut().push(message.to_string());
    }
}

#[test]
fn it_send_an_over_75_percent() {
    let mock_messenger = MockMessenger::new();
    let mut limit_tracker = LimitTracker::new(&mock_messenger, 100);
    limit_tracker.set_value(80);
    assert_eq!(mock_messenger.sent_messages.borrow().len(), 1);
}

#[test]
fn tracker_sends_the_message_of_each_level() {
    let m = MockMessenger::new();
    let mut t = LimitTracker::new(&m, 100);
    t.set_value(10);
    t.set_value(75);
    t.set_value(90);
    t.set_value(100);
    t.set_value(101);
    assert_eq!(
        *m.sent_messages.borrow(),
        vec![
            "Warning: u used 75% of your quota!",
            "Urgent Warning: u used 90% of your quota!",
            "Urgent Warning: u used 90% of your quota!",
            "Error: you are over your quota!",
        ]
    );
}

#[test]
fn alert_levels_at_their_bounds() {
    assert_eq!(alert_for_usage(74, 100), None);
    assert_eq!(alert_for_usage(75, 100), Some(QuotaAlert::Warning));
    assert_eq!(alert_for_usage(89, 100), Some(QuotaAlert::Warning));
    assert_eq!(alert_for_usage(9, 10), Some(QuotaAlert::Urgent));
    assert_eq!(alert_for_usage(10, 10), Some(QuotaAlert::Urgent));
    assert_eq!(alert_for_usage(11, 10), Some(QuotaAlert::OverQuota));
    assert_eq!(alert_for_usage(usize::MAX, usize::MAX), Some(QuotaAlert::Urgent));
}

#[test]
fn zero_quota_alerts_only_above_it() {
    assert_eq!(alert_for_usage(0, 0), None);
    assert_eq!(alert_for_usage(1, 0), Some(QuotaAlert::OverQuota));
}

#[test]
fn alert_messages() {
    assert_eq!(QuotaAlert::OverQuota.message(), "Error: you are over your quota!");
    assert_eq!(QuotaAlert::Warning.message(), "Warning: u used 75% of your quota!");
}
