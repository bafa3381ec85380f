use bevy_rmmz_assets::status::DatabaseStatus::{Failed, Loaded, Loading};
use bevy_rmmz_assets::status::{
    aggregate_status, handle_status, DatabaseLoadFailed, DatabaseStatus, LoadPhase, RmmzLoadStatus,
};

#[test]
fn worse_prefers_failed_then_loading() {
    assert_eq!(Loaded.worse(Loaded), Loaded);
    assert_eq!(Loaded.worse(Loading), Loading);
    assert_eq!(Loading.worse(Loaded), Loading);
    assert_eq!(Loading.worse(Failed), Failed);
    assert_eq!(Failed.worse(Loaded), Failed);
    assert_eq!(Failed.worse(Loading), Failed);
}

#[test]
fn worse_is_order_independent_on_samples() {
    let all = [Loaded, Loading, Failed];
    for a in all {
        for b in all {
            assert_eq!(a.worse(b), b.worse(a));
            for c in all {
                assert_eq!(a.worse(b).worse(c), a.worse(b.worse(c)));
            }
        }
    }
}

#[test]
fn missing_handle_counts_as_loading() {
    assert_eq!(handle_status(None), DatabaseStatus::Loading);
    assert_eq!(handle_status(Some(LoadPhase::NotLoaded)), DatabaseStatus::Loading);
    assert_eq!(handle_status(Some(LoadPhase::Loading)), DatabaseStatus::Loading);
    assert_eq!(handle_status(Some(LoadPhase::Loaded)), DatabaseStatus::Loaded);
    assert_eq!(handle_status(Some(LoadPhase::Failed)), DatabaseStatus::Failed);
}

#[test]
fn empty_registry_is_loaded() {
    assert_eq!(aggregate_status(&[]), DatabaseStatus::Loaded);
}

#[test]
fn aggregate_reports_failure_over_pending() {
    let phases = [Some(LoadPhase::Loaded), None, Some(LoadPhase::Failed)];
    assert_eq!(aggregate_status(&phases), DatabaseStatus::Failed);
    let pending = [Some(LoadPhase::Loaded), Some(LoadPhase::Loading)];
    assert_eq!(aggregate_status(&pending), DatabaseStatus::Loading);
    let done = [Some(LoadPhase::Loaded), Some(LoadPhase::Loaded)];
    assert_eq!(aggregate_status(&done), DatabaseStatus::Loaded);
}

#[test]
fn ready_maps_status_to_a_result() {
    assert_eq!(DatabaseStatus::Loading.ready(), None);
    assert_eq!(DatabaseStatus::Loaded.ready(), Some(Ok(())));
    assert_eq!(DatabaseStatus::Failed.ready(), Some(Err(DatabaseLoadFailed)));
    assert!(DatabaseStatus::Loaded.is_loaded());
    assert!(!DatabaseStatus::Failed.is_loaded());
    assert!(!DatabaseStatus::Loading.is_loaded());
    assert!(DatabaseStatus::Failed.is_failed());
    assert!(!DatabaseStatus::Loading.is_failed());
}

#[test]
fn load_failed_error_has_a_message() {
    assert_eq!(
        DatabaseLoadFailed.message(),
        "one or more selected RPG Maker MZ database tables failed to load"
    );
}

#[test]
fn missing_file_reports_failed_not_stuck_loading() {
    // One selected table whose file is missing: the server reports it failed.
    let mut latch = RmmzLoadStatus::default();
    let phases = [Some(LoadPhase::Failed)];
    latch.settle(aggregate_status(&phases));
    assert_eq!(latch.status(&phases), DatabaseStatus::Failed);
    assert_eq!(latch.status(&phases).ready(), Some(Err(DatabaseLoadFailed)));
}

#[test]
fn status_latches_at_first_settle() {
    let mut latch = RmmzLoadStatus::default();
    assert!(latch.unsettled());
    latch.settle(DatabaseStatus::Loading);
    assert!(latch.unsettled());
    assert_eq!(latch.latched(), None);
    // Live status is used while unsettled.
    assert_eq!(latch.status(&[None]), DatabaseStatus::Loading);
    latch.settle(DatabaseStatus::Loaded);
    assert_eq!(latch.latched(), Some(DatabaseStatus::Loaded));
    assert!(!latch.unsettled());
    // A later failure (for example a hot-reload) does not flip the latch.
    latch.settle(DatabaseStatus::Failed);
    assert_eq!(latch.latched(), Some(DatabaseStatus::Loaded));
    assert_eq!(latch.status(&[Some(LoadPhase::Failed)]), DatabaseStatus::Loaded);
}

#[test]
fn tracker_body_records_any_settled_status() {
    let mut latch = RmmzLoadStatus::default();
    latch.track(DatabaseStatus::Loading);
    assert_eq!(latch.latched(), None);
    latch.track(DatabaseStatus::Loaded);
    assert_eq!(latch.latched(), Some(DatabaseStatus::Loaded));
    latch.track(DatabaseStatus::Failed);
    assert_eq!(latch.latched(), Some(DatabaseStatus::Failed));
}
