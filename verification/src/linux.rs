//! The Linux platform handler.
//!
//! Linux delivers the best-behaved notifications, with two caveats. A move
//! inside the watched tree arrives as a rename-from signal, a rename-to
//! signal, and a combined rename-both signal; a move that leaves the tree
//! delivers the rename-from signal alone, so dangling rename-from records must
//! be turned into deletions once the correlation window has passed. And a
//! file creation is followed by a close-after-write signal for the same path,
//! which must not be reported as a second, spurious update.

use vstd::prelude::*;

use crate::correlation::{
    distinct_paths, fresh_entries, kept_entries, stale_paths, stamps_le, table_contains,
    without_path, PathStampModel, PathTable,
};
use crate::event::{
    emit, events_model, EventKind, EventKindModel, LocationPubId, RawEvent, RawEventModel,
    WatcherEvent, WatcherEventModel, HUNDRED_MILLIS,
};

verus! {

/// Correlation state of one watched location on Linux.
pub struct LinuxEventHandler {
    location_pub_id: LocationPubId,
    last_check_rename: u64,
    rename_from: PathTable,
    recently_created_files: PathTable,
    recently_renamed_from: PathTable,
}

/// Mathematical model of a [`LinuxEventHandler`].
pub struct LinuxHandlerModel {
    pub location_pub_id: LocationPubId,
    pub last_check_rename: u64,
    pub rename_from: Seq<PathStampModel>,
    pub recently_created_files: Seq<PathStampModel>,
    pub recently_renamed_from: Seq<PathStampModel>,
}

impl View for LinuxEventHandler {
    type V = LinuxHandlerModel;

    closed spec fn view(&self) -> LinuxHandlerModel {
        LinuxHandlerModel {
            location_pub_id: self.location_pub_id,
            last_check_rename: self.last_check_rename,
            rename_from: self.rename_from@,
            recently_created_files: self.recently_created_files@,
            recently_renamed_from: self.recently_renamed_from@,
        }
    }
}

/// Each pending table holds each path at most once.
pub open spec fn linux_wf(s: LinuxHandlerModel) -> bool {
    &&& distinct_paths(s.rename_from)
    &&& distinct_paths(s.recently_created_files)
    &&& distinct_paths(s.recently_renamed_from)
}

/// Every recorded timestamp is at or before `now`.
pub open spec fn linux_le(s: LinuxHandlerModel, now: u64) -> bool {
    &&& stamps_le(s.rename_from, now)
    &&& stamps_le(s.recently_created_files, now)
    &&& stamps_le(s.recently_renamed_from, now)
    &&& s.last_check_rename <= now
}

/// The freshly constructed handler state.
pub open spec fn linux_initial(id: LocationPubId, now: u64) -> LinuxHandlerModel {
    LinuxHandlerModel {
        location_pub_id: id,
        last_check_rename: now,
        rename_from: Seq::empty(),
        recently_created_files: Seq::empty(),
        recently_renamed_from: Seq::empty(),
    }
}

/// How one raw signal at time `now` transforms the handler state, and which
/// canonical events it emits. This is the transition table of the Linux
/// handler.
pub open spec fn linux_handle_transition(s: LinuxHandlerModel, ev: RawEventModel, now: u64) -> (
    LinuxHandlerModel,
    Seq<WatcherEventModel>,
) {
    match ev {
        RawEventModel::CreatedFile(p) => (
            LinuxHandlerModel {
                recently_created_files: without_path(s.recently_created_files, p).push(
                    PathStampModel { path: p, stamp: now },
                ),
                ..s
            },
            seq![emit(s.location_pub_id, EventKindModel::Create(p))],
        ),
        RawEventModel::CreatedFolder(p) => (
            s,
            seq![emit(s.location_pub_id, EventKindModel::Create(p))],
        ),
        RawEventModel::CloseWrite(p) => (
            s,
            if table_contains(s.recently_created_files, p) {
                Seq::empty()
            } else {
                seq![emit(s.location_pub_id, EventKindModel::Update(p))]
            },
        ),
        RawEventModel::RenameFrom(p) => (
            if table_contains(s.recently_renamed_from, p) {
                LinuxHandlerModel {
                    recently_renamed_from: without_path(s.recently_renamed_from, p),
                    ..s
                }
            } else {
                LinuxHandlerModel {
                    rename_from: without_path(s.rename_from, p).push(
                        PathStampModel { path: p, stamp: now },
                    ),
                    ..s
                }
            },
            Seq::empty(),
        ),
        RawEventModel::RenameBoth { from, to } => (
            LinuxHandlerModel {
                rename_from: without_path(s.rename_from, from),
                recently_renamed_from: without_path(s.recently_renamed_from, from).push(
                    PathStampModel { path: from, stamp: now },
                ),
                ..s
            },
            seq![emit(s.location_pub_id, EventKindModel::Rename { from, to })],
        ),
        RawEventModel::Removed(p) => (
            s,
            seq![emit(s.location_pub_id, EventKindModel::Delete(p))],
        ),
        _ => (s, Seq::empty()),
    }
}

/// How a tick at time `now` transforms the handler state: once per window the
/// suppression records are pruned and every dangling rename-from record older
/// than the window becomes a deletion.
pub open spec fn linux_tick_transition(s: LinuxHandlerModel, now: u64) -> (
    LinuxHandlerModel,
    Seq<WatcherEventModel>,
) {
    if now - s.last_check_rename > HUNDRED_MILLIS {
        (
            LinuxHandlerModel {
                last_check_rename: now,
                rename_from: kept_entries(s.rename_from, now, HUNDRED_MILLIS),
                recently_created_files: fresh_entries(
                    s.recently_created_files,
                    now,
                    HUNDRED_MILLIS,
                ),
                recently_renamed_from: fresh_entries(
                    s.recently_renamed_from,
                    now,
                    HUNDRED_MILLIS,
                ),
                ..s
            },
            stale_paths(s.rename_from, now, HUNDRED_MILLIS).map_values(
                |p: Seq<char>| emit(s.location_pub_id, EventKindModel::Delete(p)),
            ),
        )
    } else {
        (s, Seq::empty())
    }
}

impl LinuxEventHandler {
    pub open spec fn wf(&self) -> bool {
        linux_wf(self@)
    }

    /// All correlation state was recorded at or before `now`.
    pub open spec fn le(&self, now: u64) -> bool {
        linux_le(self@, now)
    }

    /// A handler for the location, with no correlation state pending.
    pub fn new(location_pub_id: LocationPubId, now: u64) -> (r: Self)
        ensures
            r@ == linux_initial(location_pub_id, now),
            r.wf(),
            r.le(now),
    {
        LinuxEventHandler {
            location_pub_id,
            last_check_rename: now,
            rename_from: PathTable::new(),
            recently_created_files: PathTable::new(),
            recently_renamed_from: PathTable::new(),
        }
    }

    /// Consume one raw signal observed at time `now`, update the correlation
    /// state, and return the canonical events to emit, in order.
    pub fn handle_event(&mut self, ev: &RawEvent, now: u64) -> (out: Vec<WatcherEvent>)
        requires
            old(self).wf(),
            old(self).le(now),
        ensures
            final(self)@ == linux_handle_transition(old(self)@, ev@, now).0,
            events_model(out@) == linux_handle_transition(old(self)@, ev@, now).1,
            final(self).wf(),
            final(self).le(now),
    {
        match ev {
            RawEvent::CreatedFile(p) => {
                self.recently_created_files.upsert(p.clone(), now);
                let out = vec![
                    WatcherEvent {
                        location_pub_id: self.location_pub_id,
                        kind: EventKind::Create(p.clone()),
                    },
                ];
                proof {
                    assert(events_model(out@) =~= linux_handle_transition(
                        old(self)@,
                        ev@,
                        now,
                    ).1);
                }
                out
            },
            RawEvent::CreatedFolder(p) => {
                let out = vec![
                    WatcherEvent {
                        location_pub_id: self.location_pub_id,
                        kind: EventKind::Create(p.clone()),
                    },
                ];
                proof {
                    assert(events_model(out@) =~= linux_handle_transition(
                        old(self)@,
                        ev@,
                        now,
                    ).1);
                }
                out
            },
            RawEvent::CloseWrite(p) => {
                if !self.recently_created_files.contains_path(p) {
                    let out = vec![
                        WatcherEvent {
                            location_pub_id: self.location_pub_id,
                            kind: EventKind::Update(p.clone()),
                        },
                    ];
                    proof {
                        assert(events_model(out@) =~= linux_handle_transition(
                            old(self)@,
                            ev@,
                            now,
                        ).1);
                    }
                    out
                } else {
                    let out: Vec<WatcherEvent> = Vec::new();
                    proof {
                        assert(events_model(out@) =~= Seq::<WatcherEventModel>::empty());
                    }
                    out
                }
            },
            RawEvent::RenameFrom(p) => {
                if !self.recently_renamed_from.remove_path(p) {
                    proof {
                        crate::correlation::lemma_without_path_absent(
                            old(self)@.recently_renamed_from,
                            p@,
                        );
                    }
                    self.rename_from.upsert(p.clone(), now);
                }
                let out: Vec<WatcherEvent> = Vec::new();
                proof {
                    assert(events_model(out@) =~= Seq::<WatcherEventModel>::empty());
                }
                out
            },
            RawEvent::RenameBoth { from, to } => {
                self.rename_from.remove_path(from);
                self.recently_renamed_from.upsert(from.clone(), now);
                let out = vec![
                    WatcherEvent {
                        location_pub_id: self.location_pub_id,
                        kind: EventKind::Rename { from: from.clone(), to: to.clone() },
                    },
                ];
                proof {
                    assert(events_model(out@) =~= linux_handle_transition(
                        old(self)@,
                        ev@,
                        now,
                    ).1);
                }
                out
            },
            RawEvent::Removed(p) => {
                let out = vec![
                    WatcherEvent {
                        location_pub_id: self.location_pub_id,
                        kind: EventKind::Delete(p.clone()),
                    },
                ];
                proof {
                    assert(events_model(out@) =~= linux_handle_transition(
                        old(self)@,
                        ev@,
                        now,
                    ).1);
                }
                out
            },
            _ => {
                let out: Vec<WatcherEvent> = Vec::new();
                proof {
                    assert(events_model(out@) =~= Seq::<WatcherEventModel>::empty());
                }
                out
            },
        }
    }

    /// The periodic tick, at time `now`: prune the suppression records and
    /// turn timed-out rename-from records into deletions.
    pub fn tick(&mut self, now: u64) -> (out: Vec<WatcherEvent>)
        requires
            old(self).wf(),
            old(self).le(now),
        ensures
            final(self)@ == linux_tick_transition(old(self)@, now).0,
            events_model(out@) == linux_tick_transition(old(self)@, now).1,
            final(self).wf(),
            final(self).le(now),
    {
        if now - self.last_check_rename > HUNDRED_MILLIS {
            self.last_check_rename = now;
            self.recently_renamed_from.retain_fresh(now, HUNDRED_MILLIS);
            self.recently_created_files.retain_fresh(now, HUNDRED_MILLIS);
            self.handle_rename_from_eviction(now)
        } else {
            let out: Vec<WatcherEvent> = Vec::new();
            proof {
                assert(events_model(out@) =~= Seq::<WatcherEventModel>::empty());
            }
            out
        }
    }

    /// Turn every rename-from record older than the window into a deletion
    /// event, keeping the younger records pending.
    #[verifier::loop_isolation(false)]
    fn handle_rename_from_eviction(&mut self, now: u64) -> (out: Vec<WatcherEvent>)
        requires
            old(self).wf(),
            stamps_le(old(self)@.rename_from, now),
        ensures
            final(self)@ == (LinuxHandlerModel {
                rename_from: kept_entries(old(self)@.rename_from, now, HUNDRED_MILLIS),
                ..old(self)@
            }),
            events_model(out@) == stale_paths(
                old(self)@.rename_from,
                now,
                HUNDRED_MILLIS,
            ).map_values(
                |p: Seq<char>| emit(old(self)@.location_pub_id, EventKindModel::Delete(p)),
            ),
            final(self).wf(),
            forall|n: u64| linux_le(old(self)@, n) ==> linux_le(final(self)@, n),
    {
        let ghost to_delete = |p: Seq<char>|
            emit(old(self)@.location_pub_id, EventKindModel::Delete(p));
        let evicted = self.rename_from.evict_stale(now, HUNDRED_MILLIS);
        let mut out: Vec<WatcherEvent> = Vec::new();
        let n = evicted.len();
        let mut i: usize = 0;
        proof {
            assert(events_model(out@) =~= Seq::<WatcherEventModel>::empty());
            assert(evicted.deep_view().subrange(0, 0) =~= Seq::<Seq<char>>::empty());
            assert(Seq::<Seq<char>>::empty().map_values(to_delete) =~= Seq::<
                WatcherEventModel,
            >::empty());
        }
        while i < n
            invariant
                0 <= i <= n,
                n == evicted.len(),
                events_model(out@) == evicted.deep_view().subrange(0, i as int).map_values(
                    to_delete,
                ),
            decreases n - i,
        {
            let ghost out_pre = out@;
            out.push(
                WatcherEvent {
                    location_pub_id: self.location_pub_id,
                    kind: EventKind::Delete(evicted[i].clone()),
                },
            );
            proof {
                crate::event::lemma_events_model_push(out_pre, out@[out@.len() - 1]);
                assert(out@[out@.len() - 1]@ == to_delete(evicted.deep_view()[i as int]));
                assert(evicted.deep_view().subrange(0, i as int + 1) =~= evicted
                    .deep_view().subrange(0, i as int).push(evicted.deep_view()[i as int]));
                assert(evicted.deep_view().subrange(0, i as int + 1).map_values(to_delete)
                    =~= evicted.deep_view().subrange(0, i as int).map_values(to_delete).push(
                    to_delete(evicted.deep_view()[i as int]),
                ));
            }
            i += 1;
        }
        proof {
            assert(evicted.deep_view().subrange(0, n as int) =~= evicted.deep_view());
        }
        out
    }
}

/// A pure rename — a rename-from signal for `p1` followed, before any tick, by
/// the combined rename-both signal for `p1 -> p2` — emits nothing for the
/// first signal and exactly one `Rename { from: p1, to: p2 }` for the second;
/// and no tick that follows can emit a `Delete(p1)`, because the pending
/// rename-from record for `p1` has been resolved.
pub proof fn lemma_pure_rename_emits_one_rename(
    s: LinuxHandlerModel,
    p1: Seq<char>,
    p2: Seq<char>,
    t1: u64,
    t2: u64,
    t3: u64,
)
    requires
        linux_wf(s),
        !table_contains(s.recently_renamed_from, p1),
    ensures
        ({
            let (s1, out1) = linux_handle_transition(s, RawEventModel::RenameFrom(p1), t1);
            let (s2, out2) = linux_handle_transition(
                s1,
                RawEventModel::RenameBoth { from: p1, to: p2 },
                t2,
            );
            let (s3, out3) = linux_tick_transition(s2, t3);
            &&& out1 == Seq::<WatcherEventModel>::empty()
            &&& out2 == seq![
                emit(s.location_pub_id, EventKindModel::Rename { from: p1, to: p2 }),
            ]
            &&& !table_contains(s2.rename_from, p1)
            &&& forall|k: int|
                0 <= k < out3.len() ==> (#[trigger] out3[k]).kind != EventKindModel::Delete(p1)
        }),
{
    let (s1, out1) = linux_handle_transition(s, RawEventModel::RenameFrom(p1), t1);
    let (s2, out2) = linux_handle_transition(
        s1,
        RawEventModel::RenameBoth { from: p1, to: p2 },
        t2,
    );
    let (s3, out3) = linux_tick_transition(s2, t3);
    crate::correlation::lemma_upsert_preserves(s.rename_from, p1, t1);
    crate::correlation::lemma_without_path_preserves(s1.rename_from, p1);
    crate::correlation::lemma_without_path_facts(s1.rename_from, p1);
    assert(!table_contains(s2.rename_from, p1));
    if t3 - s2.last_check_rename > HUNDRED_MILLIS {
        crate::correlation::lemma_stale_paths_facts(s2.rename_from, t3, HUNDRED_MILLIS);
        let stale = stale_paths(s2.rename_from, t3, HUNDRED_MILLIS);
        assert forall|k: int|
            0 <= k < out3.len() implies (#[trigger] out3[k]).kind != EventKindModel::Delete(
            p1,
        ) by {
            assert(out3[k] == emit(s2.location_pub_id, EventKindModel::Delete(stale[k])));
            if stale[k] == p1 {
                assert(stale.contains(p1));
            }
        }
    }
}

/// A rename-from signal with no matching rename-both: once a tick runs after
/// the correlation window has elapsed, exactly one `Delete(p1)` is emitted and
/// the record is dropped.
pub proof fn lemma_dangling_rename_from_deletes(
    s: LinuxHandlerModel,
    p1: Seq<char>,
    t1: u64,
    t2: u64,
)
    requires
        linux_wf(s),
        !table_contains(s.recently_renamed_from, p1),
        t1 <= t2,
        t2 - t1 > HUNDRED_MILLIS,
        t2 - s.last_check_rename > HUNDRED_MILLIS,
    ensures
        ({
            let (s1, out1) = linux_handle_transition(s, RawEventModel::RenameFrom(p1), t1);
            let (s2, out2) = linux_tick_transition(s1, t2);
            &&& out1 == Seq::<WatcherEventModel>::empty()
            &&& exists|k: int|
                0 <= k < out2.len() && out2[k] == emit(
                    s.location_pub_id,
                    EventKindModel::Delete(p1),
                )
            &&& forall|k: int, l: int|
                0 <= k < out2.len() && 0 <= l < out2.len() && (#[trigger] out2[k]).kind
                    == EventKindModel::Delete(p1) && (#[trigger] out2[l]).kind
                    == EventKindModel::Delete(p1) ==> k == l
            &&& !table_contains(s2.rename_from, p1)
        }),
{
    let (s1, out1) = linux_handle_transition(s, RawEventModel::RenameFrom(p1), t1);
    let (s2, out2) = linux_tick_transition(s1, t2);
    crate::correlation::lemma_upsert_preserves(s.rename_from, p1, t1);
    let rf = s1.rename_from;
    let entry = PathStampModel { path: p1, stamp: t1 };
    assert(rf[rf.len() - 1] == entry);
    crate::correlation::lemma_stale_paths_facts(rf, t2, HUNDRED_MILLIS);
    let stale = stale_paths(rf, t2, HUNDRED_MILLIS);
    assert(stale.contains(p1)) by {
        assert(t2 - rf[rf.len() - 1].stamp > HUNDRED_MILLIS);
    }
    let w = choose|w: int| 0 <= w < stale.len() && stale[w] == p1;
    assert(out2[w] == emit(s.location_pub_id, EventKindModel::Delete(p1)));
    assert forall|k: int, l: int|
        0 <= k < out2.len() && 0 <= l < out2.len() && (#[trigger] out2[k]).kind
            == EventKindModel::Delete(p1) && (#[trigger] out2[l]).kind == EventKindModel::Delete(
        p1,
    ) implies k == l by {
        assert(out2[k] == emit(s.location_pub_id, EventKindModel::Delete(stale[k])));
        assert(out2[l] == emit(s.location_pub_id, EventKindModel::Delete(stale[l])));
        assert(stale[k] == p1 && stale[l] == p1);
    }
    assert(!table_contains(s2.rename_from, p1)) by {
        crate::correlation::lemma_kept_entries_member(rf, t2, HUNDRED_MILLIS);
        if table_contains(s2.rename_from, p1) {
            let v = choose|v: int|
                0 <= v < s2.rename_from.len() && s2.rename_from[v].path == p1;
            let e = s2.rename_from[v];
            assert(rf.contains(e));
            let u = choose|u: int| 0 <= u < rf.len() && rf[u] == e;
            assert(u == rf.len() - 1) by {
                if u != rf.len() - 1 {
                    assert(rf[u].path != rf[rf.len() - 1].path);
                }
            }
            assert(t2 - e.stamp > HUNDRED_MILLIS);
        }
    }
}

/// A file creation immediately followed — within the suppression window, with
/// at most one tick in between — by a close-after-write signal for the same
/// path yields exactly one `Create` and no `Update`: the tick emits only
/// deletions and the close-after-write signal is swallowed.
pub proof fn lemma_create_suppresses_close_write(
    s: LinuxHandlerModel,
    p: Seq<char>,
    t1: u64,
    t2: u64,
    t3: u64,
)
    requires
        linux_wf(s),
        t1 <= t2 <= t3,
        t2 - t1 < HUNDRED_MILLIS,
    ensures
        ({
            let (s1, out1) = linux_handle_transition(s, RawEventModel::CreatedFile(p), t1);
            let (s2, out_tick) = linux_tick_transition(s1, t2);
            let (s3, out3) = linux_handle_transition(s2, RawEventModel::CloseWrite(p), t3);
            &&& out1 == seq![emit(s.location_pub_id, EventKindModel::Create(p))]
            &&& forall|k: int| 0 <= k < out_tick.len() ==> (#[trigger] out_tick[k]).kind is Delete
            &&& out3 == Seq::<WatcherEventModel>::empty()
        }),
{
    let (s1, out1) = linux_handle_transition(s, RawEventModel::CreatedFile(p), t1);
    let (s2, out_tick) = linux_tick_transition(s1, t2);
    let (s3, out3) = linux_handle_transition(s2, RawEventModel::CloseWrite(p), t3);
    let created = s1.recently_created_files;
    let entry = PathStampModel { path: p, stamp: t1 };
    assert(created[created.len() - 1] == entry);
    assert(table_contains(created, p));
    if t2 - s1.last_check_rename > HUNDRED_MILLIS {
        crate::correlation::lemma_fresh_entries_facts(created, t2, HUNDRED_MILLIS);
        assert(t2 - created[created.len() - 1].stamp < HUNDRED_MILLIS);
        assert(table_contains(s2.recently_created_files, p));
        let stale = stale_paths(s1.rename_from, t2, HUNDRED_MILLIS);
        assert forall|k: int|
            0 <= k < out_tick.len() implies (#[trigger] out_tick[k]).kind is Delete by {
            assert(out_tick[k] == emit(
                s1.location_pub_id,
                EventKindModel::Delete(stale[k]),
            ));
        }
    } else {
        assert(table_contains(s2.recently_created_files, p));
    }
    assert(out3 =~= Seq::<WatcherEventModel>::empty());
}

} // verus!
