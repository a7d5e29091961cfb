use eks::event::{Event, Locale};

struct TestEvent {
    label: String,
}

impl Event for TestEvent {
    fn category(&self) -> &'static str {
        "test_event"
    }

    fn key(&self) -> &'static str {
        "test_event"
    }

    fn description(&self, _locale: Locale) -> String {
        self.label.to_string()
    }

    fn details(&self) -> String {
        self.label.to_string()
    }
}

#[test]
fn test_event_trait_impl() {
    let event = TestEvent {
        label: "hello".to_string(),
    };
    assert_eq!(event.category(), "test_event");
    assert_eq!(event.key(), "test_event");
    assert_eq!(event.description(Locale::En), "hello");
    assert_eq!(event.details(), "hello");
}

#[test]
fn usize_event_trait_impl() {
    let v: usize = 37;
    assert_eq!(v.category(), "number");
    assert_eq!(v.key(), "");
    assert_eq!(v.description(Locale::En), "a number");
    assert_eq!(v.details(), "37");
}

#[test]
fn usize_details_are_decimal() {
    assert_eq!(0usize.details(), "0");
    assert_eq!(10usize.details(), "10");
    assert_eq!(usize::MAX.details(), usize::MAX.to_string());
    assert_eq!(eks::text::decimal_string(1234567890), "1234567890");
}
