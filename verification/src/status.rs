//! Aggregate load status of the selected database tables, and the latch that
//! records it once it settles.
use vstd::prelude::*;

verus! {

/// Aggregate load status of the selected database tables.
#[derive(Debug, Clone, Copy, PartialEq, Eq, Structural)]
pub enum DatabaseStatus {
    /// At least one selected table is still loading (and none have failed).
    Loading,
    /// Every selected table has loaded successfully.
    Loaded,
    /// At least one selected table failed to load (missing file, parse error, …).
    Failed,
}

/// How bad a status is: `Loaded` < `Loading` < `Failed`.
pub open spec fn severity(s: DatabaseStatus) -> int {
    match s {
        DatabaseStatus::Loaded => 0,
        DatabaseStatus::Loading => 1,
        DatabaseStatus::Failed => 2,
    }
}

/// The worse of two statuses: `Failed` > `Loading` > `Loaded`.
pub open spec fn worse_of(a: DatabaseStatus, b: DatabaseStatus) -> DatabaseStatus {
    if a is Failed || b is Failed {
        DatabaseStatus::Failed
    } else if a is Loading || b is Loading {
        DatabaseStatus::Loading
    } else {
        DatabaseStatus::Loaded
    }
}

/// Error returned by [`DatabaseStatus::ready`] when at least one selected table
/// failed to load (missing file, parse error, …).
#[derive(Debug, Clone, Copy, PartialEq, Eq, Structural)]
pub struct DatabaseLoadFailed;

impl DatabaseLoadFailed {
    /// The human-readable description of this error.
    pub fn message(&self) -> (r: &'static str)
        ensures
            r@ == "one or more selected RPG Maker MZ database tables failed to load"@,
    {
        "one or more selected RPG Maker MZ database tables failed to load"
    }
}

impl DatabaseStatus {
    /// Combines two statuses, keeping the worst: `Failed` > `Loading` > `Loaded`.
    pub fn worse(self, other: Self) -> (r: Self)
        ensures
            r == worse_of(self, other),
            severity(r) == if severity(self) >= severity(other) {
                severity(self)
            } else {
                severity(other)
            },
    {
        match (self, other) {
            (DatabaseStatus::Failed, _) | (_, DatabaseStatus::Failed) => DatabaseStatus::Failed,
            (DatabaseStatus::Loading, _) | (_, DatabaseStatus::Loading) => DatabaseStatus::Loading,
            _ => DatabaseStatus::Loaded,
        }
    }

    /// The status as a misuse-resistant `Result`: `None` while loading,
    /// `Some(Ok(()))` once everything loaded, `Some(Err(DatabaseLoadFailed))` on
    /// failure.
    pub fn ready(self) -> (r: Option<Result<(), DatabaseLoadFailed>>)
        ensures
            self is Loading <==> r is None,
            self is Loaded <==> r == Some(Ok::<(), DatabaseLoadFailed>(())),
            self is Failed <==> r == Some(Err::<(), DatabaseLoadFailed>(DatabaseLoadFailed)),
    {
        match self {
            DatabaseStatus::Loading => None,
            DatabaseStatus::Loaded => Some(Ok(())),
            DatabaseStatus::Failed => Some(Err(DatabaseLoadFailed)),
        }
    }

    /// Whether every selected table has loaded (`false` while loading and on
    /// failure).
    pub fn is_loaded(self) -> (r: bool)
        ensures
            r <==> self is Loaded,
    {
        match self {
            DatabaseStatus::Loaded => true,
            _ => false,
        }
    }

    /// Whether any selected table failed to load.
    pub fn is_failed(self) -> (r: bool)
        ensures
            r <==> self is Failed,
    {
        match self {
            DatabaseStatus::Failed => true,
            _ => false,
        }
    }
}

/// Combining statuses does not depend on their order.
pub proof fn law_worse_commutes(a: DatabaseStatus, b: DatabaseStatus)
    ensures
        worse_of(a, b) == worse_of(b, a),
{
}

/// Combining statuses does not depend on how they are grouped.
pub proof fn law_worse_associates(a: DatabaseStatus, b: DatabaseStatus, c: DatabaseStatus)
    ensures
        worse_of(worse_of(a, b), c) == worse_of(a, worse_of(b, c)),
{
}

/// `Loaded` changes nothing when combined; `Failed` wins over everything.
pub proof fn law_worse_identity_and_absorption(a: DatabaseStatus)
    ensures
        worse_of(DatabaseStatus::Loaded, a) == a,
        worse_of(DatabaseStatus::Failed, a) == DatabaseStatus::Failed,
        worse_of(a, a) == a,
{
}

/// The load phase of one asset handle, as the asset server reports it.
#[derive(Debug, Clone, Copy, PartialEq, Eq, Structural)]
pub enum LoadPhase {
    /// The asset is not loaded and no load is in progress.
    NotLoaded,
    /// The asset is loading.
    Loading,
    /// The asset has loaded.
    Loaded,
    /// The asset failed to load.
    Failed,
}

/// Status of one registered handle: a handle that does not exist yet
/// ("registered but not yet loaded") counts as `Loading`.
pub open spec fn phase_status(handle: Option<LoadPhase>) -> DatabaseStatus {
    match handle {
        None => DatabaseStatus::Loading,
        Some(LoadPhase::Failed) => DatabaseStatus::Failed,
        Some(LoadPhase::Loaded) => DatabaseStatus::Loaded,
        Some(_) => DatabaseStatus::Loading,
    }
}

/// The left fold of [`worse_of`] over the statuses of `handles`, from `Loaded`.
pub open spec fn fold_status(handles: Seq<Option<LoadPhase>>) -> DatabaseStatus
    decreases handles.len(),
{
    if handles.len() == 0 {
        DatabaseStatus::Loaded
    } else {
        worse_of(fold_status(handles.drop_last()), phase_status(handles.last()))
    }
}

/// Status of one registered handle (`None`: registered, not yet loaded).
pub fn handle_status(handle: Option<LoadPhase>) -> (r: DatabaseStatus)
    ensures
        r == phase_status(handle),
{
    match handle {
        None => DatabaseStatus::Loading,
        Some(phase) => {
            if phase == LoadPhase::Failed {
                DatabaseStatus::Failed
            } else if phase == LoadPhase::Loaded {
                DatabaseStatus::Loaded
            } else {
                DatabaseStatus::Loading
            }
        },
    }
}

proof fn lemma_fold_status(handles: Seq<Option<LoadPhase>>)
    ensures
        (fold_status(handles) is Failed) <==> exists|i: int|
            0 <= i < handles.len() && (#[trigger] phase_status(handles[i])) is Failed,
        (fold_status(handles) is Loaded) <==> forall|i: int|
            0 <= i < handles.len() ==> (#[trigger] phase_status(handles[i])) is Loaded,
    decreases handles.len(),
{
    if handles.len() > 0 {
        let init = handles.drop_last();
        lemma_fold_status(init);
        assert forall|i: int| 0 <= i < init.len() implies #[trigger] init[i] == handles[i] by {}
        if fold_status(handles) is Failed {
            if !(phase_status(handles.last()) is Failed) {
                let i = choose|i: int| 0 <= i < init.len() && (#[trigger] phase_status(init[i])) is Failed;
                assert(phase_status(handles[i]) is Failed);
            } else {
                assert(phase_status(handles[handles.len() - 1]) is Failed);
            }
        } else {
            assert forall|i: int| 0 <= i < handles.len() implies !((#[trigger] phase_status(handles[i])) is Failed) by {
                if i < init.len() {
                    assert(init[i] == handles[i]);
                }
            }
        }
        if fold_status(handles) is Loaded {
            assert forall|i: int| 0 <= i < handles.len() implies (#[trigger] phase_status(handles[i])) is Loaded by {
                if i < init.len() {
                    assert(init[i] == handles[i]);
                }
            }
        } else if forall|i: int| 0 <= i < handles.len() ==> (#[trigger] phase_status(handles[i])) is Loaded {
            assert forall|i: int| 0 <= i < init.len() implies (#[trigger] phase_status(init[i])) is Loaded by {
                assert(init[i] == handles[i]);
            }
            assert(phase_status(handles[handles.len() - 1]) is Loaded);
        }
    }
}

/// The aggregate status across every registered handle: `Failed` if any
/// failed, otherwise `Loading` while any is pending, otherwise `Loaded`. No
/// handles at all (nothing requested) is `Loaded`.
pub fn aggregate_status(handles: &[Option<LoadPhase>]) -> (r: DatabaseStatus)
    ensures
        r == fold_status(handles@),
        r is Failed <==> exists|i: int|
            0 <= i < handles@.len() && (#[trigger] phase_status(handles@[i])) is Failed,
        r is Loaded <==> forall|i: int|
            0 <= i < handles@.len() ==> (#[trigger] phase_status(handles@[i])) is Loaded,
{
    let mut acc = DatabaseStatus::Loaded;
    let mut i: usize = 0;
    while i < handles.len()
        invariant
            i <= handles@.len(),
            acc == fold_status(handles@.subrange(0, i as int)),
        decreases handles@.len() - i,
    {
        let next = acc.worse(handle_status(handles[i]));
        proof {
            assert(handles@.subrange(0, i + 1).drop_last() =~= handles@.subrange(0, i as int));
        }
        acc = next;
        i = i + 1;
    }
    proof {
        assert(handles@.subrange(0, handles@.len() as int) =~= handles@);
        lemma_fold_status(handles@);
    }
    acc
}

/// Records the database's load status once it settles (becomes `Loaded` or
/// `Failed`), so steady-state readers need not re-poll every table handle.
///
/// The status is latched at first settle: it reflects the initial load outcome
/// and is not re-evaluated afterward.
#[derive(Debug, Clone, Copy)]
pub struct RmmzLoadStatus(Option<DatabaseStatus>);

/// The latch after one step of the gated tracker: an unsettled latch takes
/// `live` once it is no longer `Loading`; a settled latch never changes.
pub open spec fn settle_spec(latched: Option<DatabaseStatus>, live: DatabaseStatus) -> Option<
    DatabaseStatus,
> {
    if latched is None && !(live is Loading) {
        Some(live)
    } else {
        latched
    }
}

impl Default for RmmzLoadStatus {
    fn default() -> (r: Self)
        ensures
            r.latched_spec() is None,
    {
        RmmzLoadStatus(None)
    }
}

impl RmmzLoadStatus {
    /// The latched status, if the load has settled.
    pub closed spec fn latched_spec(&self) -> Option<DatabaseStatus> {
        self.0
    }

    /// The latched status, if the load has settled.
    pub fn latched(&self) -> (r: Option<DatabaseStatus>)
        ensures
            r == self.latched_spec(),
    {
        self.0
    }

    /// Whether the load has not settled yet (the tracker's run condition).
    pub fn unsettled(&self) -> (r: bool)
        ensures
            r <==> self.latched_spec() is None,
    {
        self.0.is_none()
    }

    /// The tracker's body: records `live` unless it is still `Loading`.
    pub fn track(&mut self, live: DatabaseStatus)
        ensures
            live is Loading ==> final(self).latched_spec() == old(self).latched_spec(),
            !(live is Loading) ==> final(self).latched_spec() == Some(live),
    {
        if live != DatabaseStatus::Loading {
            self.0 = Some(live);
        }
    }

    /// One frame of the tracker as scheduled: it runs only while the load is
    /// unsettled, so the first settled status is kept for good.
    pub fn settle(&mut self, live: DatabaseStatus)
        ensures
            final(self).latched_spec() == settle_spec(old(self).latched_spec(), live),
    {
        if self.unsettled() {
            self.track(live);
        }
    }

    /// The aggregate status: the latched value once settled, otherwise the
    /// live aggregate over `handles`.
    pub fn status(&self, handles: &[Option<LoadPhase>]) -> (r: DatabaseStatus)
        ensures
            r == match self.latched_spec() {
                Some(s) => s,
                None => fold_status(handles@),
            },
    {
        match self.0 {
            Some(settled) => settled,
            None => aggregate_status(handles),
        }
    }
}

/// Once the latch has settled, no later frame changes it, whatever the live
/// status says.
pub proof fn law_latch_is_permanent(latched: DatabaseStatus, live: DatabaseStatus)
    ensures
        settle_spec(Some(latched), live) == Some(latched),
{
}

/// The latch only ever holds a settled status.
pub proof fn law_latch_never_holds_loading(latched: Option<DatabaseStatus>, live: DatabaseStatus)
    requires
        !(latched matches Some(DatabaseStatus::Loading)),
    ensures
        !(settle_spec(latched, live) matches Some(DatabaseStatus::Loading)),
{
}

} // verus!
