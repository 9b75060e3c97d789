use imap_status::{Aggregator, Module, Operation, Outcome, Status, Watcher};

#[test]
fn new_aggregator_is_empty() {
    let a = Aggregator::new();
    assert_eq!(a.len(), 0);
    assert_eq!(a.status(0), None);
    assert_eq!(a.output(), None);
}

#[test]
fn record_overwrites_the_status_of_one_account() {
    let mut a = Aggregator::new();
    a.record(3, Status::Normal(2));
    a.record(5, Status::Error);
    assert_eq!(a.len(), 2);
    assert_eq!(a.status(3), Some(Status::Normal(2)));
    assert_eq!(a.status(5), Some(Status::Error));
    assert_eq!(a.status(4), None);
    a.record(3, Status::Normal(7));
    assert_eq!(a.len(), 2);
    assert_eq!(a.status(3), Some(Status::Normal(7)));
    assert_eq!(a.output(), Some("\u{1F4EC}\u{26A0}\u{FE0F} 7".to_string()));
}

#[test]
fn module_keeps_text_and_visibility_apart() {
    let mut m = Module::new("", true);
    assert!(m.is_visible());
    assert_eq!(m.output(), "");
    m.with_output_lock("abc");
    assert!(m.is_visible());
    assert_eq!(m.output(), "abc");
    m.visible(false);
    assert!(!m.is_visible());
    assert_eq!(m.output(), "abc");
    m.visible(false);
    assert!(!m.is_visible());
    m.with_output_lock("x");
    assert!(!m.is_visible());
    assert_eq!(m.output(), "x");
    let m = Module::new("start", false);
    assert!(!m.is_visible());
    assert_eq!(m.output(), "start");
}

#[test]
fn two_watched_accounts_end_to_end() {
    let mut a = Watcher::new(0, 3);
    let mut b = Watcher::new(1, 3);
    let mut aggregator = Aggregator::new();
    let mut module = Module::new("", true);
    let mut shown: Vec<(bool, String)> = Vec::new();

    // Both accounts connect; nothing is reported yet.
    assert_eq!(a.advance(Outcome::Done), None);
    assert_eq!(b.advance(Outcome::Done), None);

    // A has four unseen messages, B has none; then A's session breaks
    // while B goes on reporting none.
    let events = [
        a.advance(Outcome::Unseen(4)),
        b.advance(Outcome::Unseen(0)),
        a.advance(Outcome::Failed),
        b.advance(Outcome::Done),
        b.advance(Outcome::Unseen(0)),
    ];
    assert_eq!(
        events,
        [
            Some((0, Status::Normal(4))),
            Some((1, Status::Normal(0))),
            Some((0, Status::Error)),
            None,
            Some((1, Status::Normal(0))),
        ]
    );
    for event in events {
        if let Some((id, status)) = event {
            let wrote = aggregator.receive(id, status, &mut module);
            assert!(wrote);
            shown.push((module.is_visible(), module.output().to_string()));
        }
    }

    // B never contributes and the module is never hidden. Once A has
    // failed, its earlier count is overwritten, so only the warning is left.
    let open_four = "\u{1F4EC} 4".to_string();
    let closed_warning = "\u{1F4EA}\u{26A0}\u{FE0F}".to_string();
    assert_eq!(
        shown,
        vec![
            (true, open_four.clone()),
            (true, open_four),
            (true, closed_warning.clone()),
            (true, closed_warning),
        ]
    );
    assert_eq!(a.pending(), Operation::Sleep(3));
    assert_eq!(aggregator.status(0), Some(Status::Error));
    assert_eq!(aggregator.status(1), Some(Status::Normal(0)));
}

#[test]
fn module_is_hidden_when_nothing_is_left_to_show() {
    let mut aggregator = Aggregator::new();
    let mut module = Module::new("", true);
    assert!(aggregator.receive(0, Status::Normal(4), &mut module));
    assert!(aggregator.receive(1, Status::Error, &mut module));
    assert_eq!(module.output(), "\u{1F4EC}\u{26A0}\u{FE0F} 4");
    assert!(aggregator.receive(1, Status::Normal(1), &mut module));
    assert_eq!(module.output(), "\u{1F4EC} 5");
    assert!(aggregator.receive(0, Status::Normal(0), &mut module));
    assert_eq!(module.output(), "\u{1F4EC} 1");
    // Nothing to show: the element is hidden and its text is left alone.
    assert!(!aggregator.receive(1, Status::Normal(0), &mut module));
    assert!(!module.is_visible());
    assert_eq!(module.output(), "\u{1F4EC} 1");
    assert!(aggregator.receive(1, Status::Error, &mut module));
    assert!(module.is_visible());
    assert_eq!(module.output(), "\u{1F4EA}\u{26A0}\u{FE0F}");
}

#[test]
fn interleaving_of_accounts_does_not_matter() {
    let a_events = [Status::Normal(1), Status::Error, Status::Normal(6)];
    let b_events = [Status::Normal(0), Status::Normal(2)];

    let mut first = Aggregator::new();
    let mut m1 = Module::new("", false);
    for s in a_events {
        first.receive(0, s, &mut m1);
    }
    for s in b_events {
        first.receive(1, s, &mut m1);
    }

    let mut second = Aggregator::new();
    let mut m2 = Module::new("", false);
    second.receive(1, b_events[0], &mut m2);
    second.receive(0, a_events[0], &mut m2);
    second.receive(0, a_events[1], &mut m2);
    second.receive(1, b_events[1], &mut m2);
    second.receive(0, a_events[2], &mut m2);

    assert_eq!(first.status(0), second.status(0));
    assert_eq!(first.status(1), second.status(1));
    assert_eq!(first.len(), second.len());
    assert_eq!(m1.output(), "\u{1F4EC} 8");
    assert_eq!(m2.output(), "\u{1F4EC} 8");
    assert_eq!(m1.is_visible(), m2.is_visible());
}
