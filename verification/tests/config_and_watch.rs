use warpseek::config::{roots_checksum, Config};
use warpseek::{watch_start, SearchError, WatchAction, WatchEvent, WatchState};
use warpseek::watch::step;

fn strings(xs: &[&str]) -> Vec<String> {
    xs.iter().map(|s| s.to_string()).collect()
}

#[test]
fn default_config_is_empty() {
    let cfg = Config::default();
    assert_eq!(cfg.roots.len(), 0);
    assert!(cfg.last_scan.is_none());
}

#[test]
fn add_roots_appends_in_order_without_duplicates() {
    let mut cfg = Config::default();
    cfg.add_roots(&strings(&["/a", "/b"]));
    cfg.add_roots(&strings(&["/b", "/c", "/a"]));
    assert_eq!(cfg.roots, strings(&["/a", "/b", "/c"]));
}

#[test]
fn remove_roots_keeps_the_rest_in_order() {
    let mut cfg = Config::default();
    cfg.add_roots(&strings(&["/a", "/b", "/c"]));
    cfg.remove_roots(&strings(&["/b", "/missing"]));
    assert_eq!(cfg.roots, strings(&["/a", "/c"]));
}

#[test]
fn checksum_is_deterministic_and_input_dependent() {
    let one = roots_checksum(&strings(&["/data"]));
    let same = roots_checksum(&strings(&["/data"]));
    let other = roots_checksum(&strings(&["/data2"]));
    assert_eq!(one, same);
    assert_ne!(one, other);
}

#[test]
fn checksum_hashes_the_concatenated_list() {
    let split = roots_checksum(&strings(&["/a", "/b"]));
    let joined = roots_checksum(&strings(&["/a/b"]));
    assert_eq!(split, joined);
}

#[test]
fn skip_heuristic_sees_root_set_changes_only() {
    let mut cfg = Config::default();
    cfg.add_roots(&strings(&["/data"]));
    assert!(!cfg.can_skip_rebuild());
    cfg.record_scan();
    assert!(cfg.can_skip_rebuild());
    cfg.add_roots(&strings(&["/more"]));
    assert!(!cfg.can_skip_rebuild());
}

#[test]
fn watch_needs_at_least_one_root() {
    assert!(matches!(
        watch_start(&Vec::new()),
        Err(SearchError::NoRootsConfigured)
    ));
    assert!(matches!(
        watch_start(&strings(&["/data"])),
        Ok(WatchState::Watching)
    ));
}

// Two rapid modifications inside the debounce window, then the window
// elapses: exactly one rebuild starts.
#[test]
fn scenario_burst_triggers_one_rebuild() {
    let mut rebuilds = 0;
    let mut state = WatchState::Watching;
    for event in [
        WatchEvent::FsChange,
        WatchEvent::FsChange,
        WatchEvent::DebounceElapsed,
    ] {
        let (next, action) = step(state, event);
        if action == WatchAction::StartRebuild {
            rebuilds += 1;
        }
        state = next;
    }
    assert_eq!(rebuilds, 1);
    assert_eq!(state, WatchState::Rebuilding { pending: false });
}

#[test]
fn scheduler_returns_to_watching_after_a_quiet_rebuild() {
    let (s1, _) = step(WatchState::Rebuilding { pending: false }, WatchEvent::RebuildFinished);
    assert_eq!(s1, WatchState::Watching);
}

#[test]
fn event_during_rebuild_coalesces_afterwards() {
    let (s1, a1) = step(WatchState::Rebuilding { pending: false }, WatchEvent::FsChange);
    assert_eq!(s1, WatchState::Rebuilding { pending: true });
    assert_eq!(a1, WatchAction::Wait);
    let (s2, a2) = step(s1, WatchEvent::RebuildFinished);
    assert_eq!(s2, WatchState::Coalescing);
    assert_eq!(a2, WatchAction::Wait);
    let (s3, a3) = step(s2, WatchEvent::DebounceElapsed);
    assert_eq!(s3, WatchState::Rebuilding { pending: false });
    assert_eq!(a3, WatchAction::StartRebuild);
}

#[test]
fn idle_scheduler_ignores_events() {
    let (s, a) = step(WatchState::Idle, WatchEvent::FsChange);
    assert_eq!(s, WatchState::Idle);
    assert_eq!(a, WatchAction::Wait);
}
