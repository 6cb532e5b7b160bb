use herdr_client::endpoint::{ClientEndpointId, ProfileId};
use herdr_client::history::{History, CAPACITY};

fn remote() -> ClientEndpointId {
    ClientEndpointId::Ssh(ProfileId::parse("0123456789abcdef0123456789abcdef").unwrap())
}

fn online() -> Vec<ClientEndpointId> {
    vec![ClientEndpointId::Local, remote()]
}

#[test]
fn visits_coalesce_and_traverse() {
    let mut history = History::default();
    history.observe(&ClientEndpointId::Local, "boot", Some("p1"));
    history.observe(&ClientEndpointId::Local, "boot", Some("p1"));
    history.observe(&ClientEndpointId::Local, "boot", None);
    history.observe(&remote(), "rboot", Some("p9"));
    assert_eq!(history.visits().len(), 2);

    let back = history.back(&online()).unwrap();
    assert_eq!(back.pane_id, "p1");
    assert!(history.forward(&online()).is_some());
    assert!(history.forward(&online()).is_none());
    assert!(history.back(&online()).is_some());
    // Observing the traversal target confirms it without a new visit.
    history.observe(&ClientEndpointId::Local, "boot", Some("p1"));
    assert_eq!(history.visits().len(), 2);
    assert_eq!(history.cursor(), 0);
    // A fresh visit truncates the forward list.
    history.observe(&ClientEndpointId::Local, "boot", Some("p2"));
    assert_eq!(history.visits().len(), 2);
    assert!(history.forward(&online()).is_none());
}

#[test]
fn retirement_and_reboot_prune_entries_and_keep_the_cursor_sane() {
    let mut history = History::default();
    history.observe(&remote(), "rboot", Some("p9"));
    history.observe(&ClientEndpointId::Local, "boot", Some("p1"));
    history.observe(&remote(), "rboot", Some("p8"));
    history.retire(&remote());
    assert_eq!(history.visits().len(), 1);
    assert_eq!(history.cursor(), 0);
    history.observe(&ClientEndpointId::Local, "boot", Some("p2"));
    history.observe_boot(&ClientEndpointId::Local, "boot-2");
    assert!(history.visits().is_empty());
    assert!(history.back(&online()).is_none());
}

fn observe_local(history: &mut History, pane_id: &str) {
    history.observe(&ClientEndpointId::Local, "boot", Some(pane_id));
}

fn panes(history: &History) -> Vec<&str> {
    history
        .visits()
        .iter()
        .map(|visit| visit.pane_id.as_str())
        .collect()
}

#[test]
fn closed_panes_are_pruned_and_equal_neighbours_merge() {
    let mut history = History::default();
    history.observe(&remote(), "rboot", Some("p9"));
    for pane_id in ["p1", "p2", "p1", "p3"] {
        observe_local(&mut history, pane_id);
    }
    history.observe_panes(&ClientEndpointId::Local, "boot", &["p1", "p3"]);
    // The remote visit is untouched; p1 p2 p1 collapses into one p1.
    assert_eq!(panes(&history), ["p9", "p1", "p3"]);
    assert_eq!(history.cursor(), 2);
    assert_eq!(history.back(&online()).unwrap().pane_id, "p1");

    // Closing the current pane moves the cursor to the nearest earlier survivor.
    observe_local(&mut history, "p1");
    history.observe_panes(&ClientEndpointId::Local, "boot", &["p3"]);
    assert_eq!(panes(&history), ["p9", "p3"]);
    assert_eq!(history.cursor(), 0);
}

#[test]
fn failed_traversal_rewinds_and_forgets_a_closed_target() {
    let mut history = History::default();
    for pane_id in ["p1", "p2", "p3"] {
        observe_local(&mut history, pane_id);
    }
    let target = history.back(&online()).unwrap();
    assert_eq!(target.pane_id, "p2");
    history.traversal_failed(&target, false);
    assert_eq!(panes(&history), ["p1", "p2", "p3"]);
    assert_eq!(history.cursor(), 2);

    let target = history.back(&online()).unwrap();
    history.traversal_failed(&target, true);
    assert_eq!(panes(&history), ["p1", "p3"]);
    assert_eq!(history.cursor(), 1);
    assert_eq!(history.back(&online()).unwrap().pane_id, "p1");
}

#[test]
fn snapshots_on_the_traversed_path_do_not_truncate_forward_history() {
    let mut history = History::default();
    for pane_id in ["p1", "p2", "p3"] {
        observe_local(&mut history, pane_id);
    }
    // Two quick steps back, then snapshots that predate and trail the focus.
    history.back(&online()).unwrap();
    history.back(&online()).unwrap();
    observe_local(&mut history, "p3");
    observe_local(&mut history, "p2");
    observe_local(&mut history, "p1");
    assert_eq!(panes(&history), ["p1", "p2", "p3"]);
    assert_eq!(history.cursor(), 0);
    assert!(!history.is_traversing());
    assert_eq!(history.forward(&online()).unwrap().pane_id, "p2");

    // Focus elsewhere during a traversal is a real visit.
    observe_local(&mut history, "p9");
    assert_eq!(panes(&history), ["p1", "p2", "p9"]);
    assert!(!history.is_traversing());
}

#[test]
fn offline_endpoints_are_skipped_and_capacity_is_bounded() {
    let mut history = History::default();
    history.observe(&remote(), "rboot", Some("p9"));
    history.observe(&ClientEndpointId::Local, "boot", Some("p1"));
    history.observe(&ClientEndpointId::Local, "boot", Some("p2"));
    let local_only = [ClientEndpointId::Local];
    assert_eq!(history.back(&local_only).unwrap().pane_id, "p1");
    assert!(history.back(&local_only).is_none());

    let mut history = History::default();
    for index in 0..(CAPACITY + 10) {
        history.observe(&ClientEndpointId::Local, "boot", Some(&format!("p{index}")));
    }
    assert_eq!(history.visits().len(), CAPACITY);
    assert_eq!(history.cursor(), CAPACITY - 1);
}

#[test]
fn the_oldest_visits_are_dropped_over_capacity() {
    let mut history = History::default();
    for index in 0..(CAPACITY + 3) {
        observe_local(&mut history, &format!("p{index}"));
    }
    assert_eq!(panes(&history)[0], "p3");
    assert_eq!(history.current().unwrap().pane_id, format!("p{}", CAPACITY + 2));
}

#[test]
fn a_new_history_is_empty_and_stays_so_without_a_pane() {
    let mut history = History::default();
    history.observe(&ClientEndpointId::Local, "boot", None);
    assert!(history.visits().is_empty());
    assert_eq!(history.cursor(), 0);
    assert!(!history.is_traversing());
    assert!(history.current().is_none());
    assert!(history.back(&online()).is_none());
    assert!(history.forward(&online()).is_none());
}

#[test]
fn forward_undoes_back() {
    let mut history = History::default();
    for pane_id in ["p1", "p2", "p3"] {
        observe_local(&mut history, pane_id);
    }
    assert_eq!(history.back(&online()).unwrap().pane_id, "p2");
    assert!(history.is_traversing());
    assert_eq!(history.forward(&online()).unwrap().pane_id, "p3");
    assert_eq!(history.cursor(), 2);
}

#[test]
fn a_failed_chain_rewinds_to_where_it_started() {
    let mut history = History::default();
    for pane_id in ["p1", "p2", "p3"] {
        observe_local(&mut history, pane_id);
    }
    history.back(&online()).unwrap();
    let target = history.back(&online()).unwrap();
    assert_eq!(history.cursor(), 0);
    history.traversal_failed(&target, false);
    assert_eq!(history.cursor(), 2);
    assert!(!history.is_traversing());
}

#[test]
fn a_failure_of_another_target_is_ignored() {
    let mut history = History::default();
    for pane_id in ["p1", "p2", "p3"] {
        observe_local(&mut history, pane_id);
    }
    let current = history.current().unwrap().clone();
    history.back(&online()).unwrap();
    history.traversal_failed(&current, false);
    assert_eq!(history.cursor(), 1);
    assert!(history.is_traversing());
}

#[test]
fn visits_of_another_boot_and_endpoint_outlive_closed_panes() {
    let mut history = History::default();
    history.observe(&ClientEndpointId::Local, "old", Some("p1"));
    history.observe(&remote(), "boot", Some("p1"));
    history.observe(&ClientEndpointId::Local, "boot", Some("p1"));
    history.observe_panes(&ClientEndpointId::Local, "boot", &[]);
    assert_eq!(history.visits().len(), 2);
    assert_eq!(history.cursor(), 1);
    history.observe_boot(&ClientEndpointId::Local, "boot");
    assert_eq!(history.visits().len(), 1);
    assert_eq!(history.visits()[0].endpoint_id, remote());
}

#[test]
fn clearing_forgets_everything() {
    let mut history = History::default();
    observe_local(&mut history, "p1");
    observe_local(&mut history, "p2");
    history.back(&online()).unwrap();
    history.clear();
    assert!(history.visits().is_empty());
    assert_eq!(history.cursor(), 0);
    assert!(!history.is_traversing());
}

#[test]
fn pruning_keeps_the_current_visit_and_drops_a_traversal_from_a_dropped_origin() {
    let mut history = History::default();
    for pane_id in ["p1", "p2", "p3"] {
        observe_local(&mut history, pane_id);
    }
    history.back(&online()).unwrap();
    history.observe_panes(&ClientEndpointId::Local, "boot", &["p1", "p2"]);
    assert_eq!(panes(&history), ["p1", "p2"]);
    assert_eq!(history.current().unwrap().pane_id, "p2");
    assert!(!history.is_traversing());
}

#[test]
fn it_does_not_matter_which_endpoint_retires_first() {
    let other = ClientEndpointId::Ssh(ProfileId::parse("fedcba9876543210fedcba9876543210").unwrap());
    let visited = || {
        let mut history = History::default();
        history.observe(&other, "o", Some("p0"));
        observe_local(&mut history, "p1");
        history.observe(&remote(), "r", Some("p9"));
        observe_local(&mut history, "p1");
        history.observe(&other, "o", Some("p2"));
        history
    };
    let mut one = visited();
    one.retire(&remote());
    one.retire(&other);
    let mut two = visited();
    two.retire(&other);
    two.retire(&remote());
    assert_eq!(panes(&one), ["p1"]);
    assert_eq!(one.visits(), two.visits());
    assert_eq!(one.cursor(), two.cursor());
}
