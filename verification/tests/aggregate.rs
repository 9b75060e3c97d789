use imap_status::aggregate::{render, tally_statuses};
use imap_status::decimal::{decimal_string, push_decimal};
use imap_status::{aggregate_account_statuses, Status};
use std::collections::HashMap;

const CLOSED_WARNING: &str = "\u{1F4EA}\u{26A0}\u{FE0F}";

fn map_of(entries: &[(usize, Status)]) -> HashMap<usize, Status> {
    let mut m = HashMap::new();
    for (id, status) in entries {
        m.insert(*id, *status);
    }
    m
}

#[test]
fn empty_map_has_no_output() {
    assert_eq!(aggregate_account_statuses(&HashMap::new()), None);
}

#[test]
fn single_idle_account_has_no_output() {
    let m = map_of(&[(1, Status::Normal(0))]);
    assert_eq!(aggregate_account_statuses(&m), None);
}

#[test]
fn idle_and_failed_account_show_closed_mailbox_and_warning() {
    let m = map_of(&[(1, Status::Normal(0)), (2, Status::Error)]);
    assert_eq!(aggregate_account_statuses(&m), Some(CLOSED_WARNING.to_string()));
}

#[test]
fn unseen_counts_are_added() {
    let m = map_of(&[(1, Status::Normal(3)), (2, Status::Normal(2))]);
    assert_eq!(aggregate_account_statuses(&m), Some("\u{1F4EC} 5".to_string()));
}

#[test]
fn failed_account_adds_warning_and_keeps_count() {
    let m = map_of(&[(1, Status::Normal(3)), (2, Status::Error)]);
    assert_eq!(
        aggregate_account_statuses(&m),
        Some("\u{1F4EC}\u{26A0}\u{FE0F} 3".to_string())
    );
}

#[test]
fn only_failed_accounts() {
    let m = map_of(&[(0, Status::Error), (1, Status::Error), (2, Status::Error)]);
    assert_eq!(aggregate_account_statuses(&m), Some(CLOSED_WARNING.to_string()));
}

#[test]
fn output_has_exactly_the_listed_characters() {
    let m = map_of(&[(1, Status::Normal(12)), (2, Status::Error)]);
    let text = aggregate_account_statuses(&m).unwrap();
    let chars: Vec<char> = text.chars().collect();
    assert_eq!(chars, vec!['\u{1F4EC}', '\u{26A0}', '\u{FE0F}', ' ', '1', '2']);

    let m = map_of(&[(1, Status::Normal(12))]);
    let text = aggregate_account_statuses(&m).unwrap();
    let chars: Vec<char> = text.chars().collect();
    assert_eq!(chars, vec!['\u{1F4EC}', ' ', '1', '2']);

    let m = map_of(&[(2, Status::Error)]);
    let text = aggregate_account_statuses(&m).unwrap();
    let chars: Vec<char> = text.chars().collect();
    assert_eq!(chars, vec!['\u{1F4EA}', '\u{26A0}', '\u{FE0F}']);
}

#[test]
fn construction_order_does_not_matter() {
    let entries = [
        (0, Status::Normal(4)),
        (1, Status::Error),
        (2, Status::Normal(0)),
        (3, Status::Normal(17)),
        (4, Status::Error),
        (5, Status::Normal(1)),
    ];
    let expected = Some("\u{1F4EC}\u{26A0}\u{FE0F} 22".to_string());
    let forward = map_of(&entries);
    assert_eq!(aggregate_account_statuses(&forward), expected);

    let mut reversed = entries;
    reversed.reverse();
    assert_eq!(aggregate_account_statuses(&map_of(&reversed)), expected);

    for shift in 0..entries.len() {
        let mut rotated = entries;
        rotated.rotate_left(shift);
        let mut m = HashMap::with_capacity(shift * 7);
        for (id, status) in rotated.iter() {
            m.insert(*id, *status);
        }
        assert_eq!(aggregate_account_statuses(&m), expected);
    }
}

#[test]
fn idle_accounts_never_change_the_output() {
    let cases: [&[(usize, Status)]; 4] = [
        &[],
        &[(1, Status::Error)],
        &[(1, Status::Normal(9))],
        &[(1, Status::Normal(9)), (2, Status::Error)],
    ];
    for entries in cases {
        let mut m = map_of(entries);
        let before = aggregate_account_statuses(&m);
        for id in 10..30 {
            m.insert(id, Status::Normal(0));
            assert_eq!(aggregate_account_statuses(&m), before);
        }
    }
}

#[test]
fn overwriting_a_busy_account_with_idle_changes_the_output() {
    let mut m = map_of(&[(1, Status::Normal(9))]);
    m.insert(1, Status::Normal(0));
    assert_eq!(aggregate_account_statuses(&m), None);
}

#[test]
fn sum_may_exceed_the_range_of_one_count() {
    let m = map_of(&[(1, Status::Normal(usize::MAX)), (2, Status::Normal(usize::MAX))]);
    let total = 2 * (usize::MAX as u128);
    assert_eq!(aggregate_account_statuses(&m), Some(format!("\u{1F4EC} {}", total)));
}

#[test]
fn render_covers_all_four_cases() {
    assert_eq!(render(0, 0), None);
    assert_eq!(render(0, 1), Some(CLOSED_WARNING.to_string()));
    assert_eq!(render(0, 25), Some(CLOSED_WARNING.to_string()));
    assert_eq!(render(1, 0), Some("\u{1F4EC} 1".to_string()));
    assert_eq!(render(100, 0), Some("\u{1F4EC} 100".to_string()));
    assert_eq!(render(100, 2), Some("\u{1F4EC}\u{26A0}\u{FE0F} 100".to_string()));
}

#[test]
fn decimal_string_of_small_and_large_numbers() {
    assert_eq!(decimal_string(0), "0");
    assert_eq!(decimal_string(7), "7");
    assert_eq!(decimal_string(9), "9");
    assert_eq!(decimal_string(10), "10");
    assert_eq!(decimal_string(101), "101");
    assert_eq!(decimal_string(1234567890), "1234567890");
    assert_eq!(decimal_string(18446744073709551615), "18446744073709551615");
    assert_eq!(
        decimal_string(u128::MAX),
        "340282366920938463463374607431768211455"
    );
}

#[test]
fn decimal_string_agrees_with_std() {
    let mut n: u128 = 1;
    for _ in 0..120 {
        assert_eq!(decimal_string(n), n.to_string());
        assert_eq!(decimal_string(n - 1), (n - 1).to_string());
        n = n.wrapping_mul(3).wrapping_add(7);
    }
}

#[test]
fn push_decimal_appends() {
    let mut s = String::from("n=");
    push_decimal(&mut s, 40);
    push_decimal(&mut s, 2);
    assert_eq!(s, "n=402");
}

#[test]
fn tally_counts_unseen_messages_and_failed_accounts() {
    assert_eq!(tally_statuses(&HashMap::new()), (0, 0));
    let m = map_of(&[
        (0, Status::Normal(4)),
        (1, Status::Error),
        (2, Status::Normal(0)),
        (3, Status::Normal(17)),
        (4, Status::Error),
    ]);
    assert_eq!(tally_statuses(&m), (21, 2));
    let m = map_of(&[(7, Status::Normal(usize::MAX)), (8, Status::Normal(1))]);
    assert_eq!(tally_statuses(&m), (usize::MAX as u128 + 1, 0));
}
