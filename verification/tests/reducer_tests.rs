use review_matrix::payload::ReviewEvent;
use review_matrix::reducer::latest_states;

fn ev(reviewer: &str, state: &str) -> ReviewEvent {
    ReviewEvent { reviewer: String::from(reviewer), state: String::from(state) }
}

#[test]
fn empty_events_yield_empty_mapping() {
    let author = String::from("alice");
    let events: Vec<ReviewEvent> = Vec::new();
    let states = latest_states(&author, &events);
    assert!(states.is_empty());
}

#[test]
fn last_write_wins_for_one_reviewer() {
    let author = String::from("alice");
    let events = vec![ev("bob", "COMMENTED"), ev("bob", "APPROVED")];
    let states = latest_states(&author, &events);
    assert_eq!(states.len(), 1);
    assert_eq!(states[0].0, "bob");
    assert_eq!(states[0].1, "APPROVED");
}

#[test]
fn approval_overridden_by_later_changes_requested() {
    let author = String::from("alice");
    let events = vec![ev("bob", "APPROVED"), ev("bob", "CHANGES_REQUESTED")];
    let states = latest_states(&author, &events);
    assert_eq!(states.len(), 1);
    assert_eq!(states[0].1, "CHANGES_REQUESTED");
}

#[test]
fn self_reviews_are_excluded() {
    let author = String::from("alice");
    let events = vec![ev("alice", "COMMENTED"), ev("alice", "APPROVED")];
    let states = latest_states(&author, &events);
    assert!(states.is_empty());
}

#[test]
fn self_reviews_excluded_among_others() {
    let author = String::from("alice");
    let events = vec![ev("bob", "APPROVED"), ev("alice", "COMMENTED"), ev("carol", "COMMENTED")];
    let states = latest_states(&author, &events);
    assert_eq!(states.len(), 2);
    assert_eq!(states[0].0, "bob");
    assert_eq!(states[0].1, "APPROVED");
    assert_eq!(states[1].0, "carol");
    assert_eq!(states[1].1, "COMMENTED");
}

#[test]
fn reviewer_keeps_first_position_when_overwritten() {
    let author = String::from("alice");
    let events = vec![
        ev("bob", "COMMENTED"),
        ev("carol", "APPROVED"),
        ev("bob", "CHANGES_REQUESTED"),
    ];
    let states = latest_states(&author, &events);
    assert_eq!(states.len(), 2);
    assert_eq!(states[0].0, "bob");
    assert_eq!(states[0].1, "CHANGES_REQUESTED");
    assert_eq!(states[1].0, "carol");
    assert_eq!(states[1].1, "APPROVED");
}
