//! The Windows platform handler.
//!
//! The Windows backend reports only generic create / modify / remove kinds,
//! plus rename pairs delivered as a rename-from signal immediately followed by
//! a rename-to signal. The handler pairs a rename-to with the most recently
//! pending rename-from, as the Linux handler pairs its signals, but without
//! the create / close-after-write split: Windows coalesces those. A rename-to
//! with nothing pending is something arriving from outside the watched tree,
//! so it is reported as a creation; a rename-from whose partner never arrives
//! becomes a deletion once the correlation window has passed.

use vstd::prelude::*;

use crate::correlation::{
    distinct_paths, kept_entries, stale_paths, stamps_le, table_contains, without_path,
    PathStampModel, PathTable,
};
use crate::event::{
    deletes_for, emit, events_model, EventKind, EventKindModel, LocationPubId, RawEvent,
    RawEventModel, WatcherEvent, WatcherEventModel, HUNDRED_MILLIS,
};

verus! {

/// Correlation state of one watched location on Windows.
pub struct WindowsEventHandler {
    location_pub_id: LocationPubId,
    last_check_rename: u64,
    rename_from: PathTable,
}

/// Mathematical model of a [`WindowsEventHandler`].
pub struct WindowsHandlerModel {
    pub location_pub_id: LocationPubId,
    pub last_check_rename: u64,
    pub rename_from: Seq<PathStampModel>,
}

impl View for WindowsEventHandler {
    type V = WindowsHandlerModel;

    closed spec fn view(&self) -> WindowsHandlerModel {
        WindowsHandlerModel {
            location_pub_id: self.location_pub_id,
            last_check_rename: self.last_check_rename,
            rename_from: self.rename_from@,
        }
    }
}

/// The pending table holds each path at most once.
pub open spec fn windows_wf(s: WindowsHandlerModel) -> bool {
    distinct_paths(s.rename_from)
}

/// Every recorded timestamp is at or before `now`.
pub open spec fn windows_le(s: WindowsHandlerModel, now: u64) -> bool {
    &&& stamps_le(s.rename_from, now)
    &&& s.last_check_rename <= now
}

/// The freshly constructed handler state.
pub open spec fn windows_initial(id: LocationPubId, now: u64) -> WindowsHandlerModel {
    WindowsHandlerModel { location_pub_id: id, last_check_rename: now, rename_from: Seq::empty() }
}

/// How one raw signal at time `now` transforms the handler state, and which
/// canonical events it emits. This is the transition table of the Windows
/// handler.
pub open spec fn windows_handle_transition(s: WindowsHandlerModel, ev: RawEventModel, now: u64) -> (
    WindowsHandlerModel,
    Seq<WatcherEventModel>,
) {
    match ev {
        RawEventModel::Created(p) => (
            s,
            seq![emit(s.location_pub_id, EventKindModel::Create(p))],
        ),
        RawEventModel::Modified(p) => (
            s,
            seq![emit(s.location_pub_id, EventKindModel::Update(p))],
        ),
        RawEventModel::Removed(p) => (
            s,
            seq![emit(s.location_pub_id, EventKindModel::Delete(p))],
        ),
        RawEventModel::RenameFrom(p) => (
            WindowsHandlerModel {
                rename_from: without_path(s.rename_from, p).push(
                    PathStampModel { path: p, stamp: now },
                ),
                ..s
            },
            Seq::empty(),
        ),
        RawEventModel::RenameTo(p) => if s.rename_from.len() > 0 {
            (
                WindowsHandlerModel { rename_from: s.rename_from.drop_last(), ..s },
                seq![
                    emit(
                        s.location_pub_id,
                        EventKindModel::Rename { from: s.rename_from.last().path, to: p },
                    ),
                ],
            )
        } else {
            (s, seq![emit(s.location_pub_id, EventKindModel::Create(p))])
        },
        _ => (s, Seq::empty()),
    }
}

/// How a tick at time `now` transforms the handler state: once per window
/// every dangling rename-from record older than the window becomes a deletion.
pub open spec fn windows_tick_transition(s: WindowsHandlerModel, now: u64) -> (
    WindowsHandlerModel,
    Seq<WatcherEventModel>,
) {
    if now - s.last_check_rename > HUNDRED_MILLIS {
        (
            WindowsHandlerModel {
                last_check_rename: now,
                rename_from: kept_entries(s.rename_from, now, HUNDRED_MILLIS),
                ..s
            },
            stale_paths(s.rename_from, now, HUNDRED_MILLIS).map_values(
                |p: Seq<char>| emit(s.location_pub_id, EventKindModel::Delete(p)),
            ),
        )
    } else {
        (s, Seq::empty())
    }
}

impl WindowsEventHandler {
    pub open spec fn wf(&self) -> bool {
        windows_wf(self@)
    }

    /// All correlation state was recorded at or before `now`.
    pub open spec fn le(&self, now: u64) -> bool {
        windows_le(self@, now)
    }

    /// A handler for the location, with no correlation state pending.
    pub fn new(location_pub_id: LocationPubId, now: u64) -> (r: Self)
        ensures
            r@ == windows_initial(location_pub_id, now),
            r.wf(),
            r.le(now),
    {
        WindowsEventHandler {
            location_pub_id,
            last_check_rename: now,
            rename_from: PathTable::new(),
        }
    }

    /// Consume one raw signal observed at time `now`, update the correlation
    /// state, and return the canonical events to emit, in order.
    pub fn handle_event(&mut self, ev: &RawEvent, now: u64) -> (out: Vec<WatcherEvent>)
        requires
            old(self).wf(),
            old(self).le(now),
        ensures
            final(self)@ == windows_handle_transition(old(self)@, ev@, now).0,
            events_model(out@) == windows_handle_transition(old(self)@, ev@, now).1,
            final(self).wf(),
            final(self).le(now),
    {
        match ev {
            RawEvent::Created(p) => {
                let out = vec![
                    WatcherEvent {
                        location_pub_id: self.location_pub_id,
                        kind: EventKind::Create(p.clone()),
                    },
                ];
                proof {
                    assert(events_model(out@) =~= windows_handle_transition(
                        old(self)@,
                        ev@,
                        now,
                    ).1);
                }
                out
            },
            RawEvent::Modified(p) => {
                let out = vec![
                    WatcherEvent {
                        location_pub_id: self.location_pub_id,
                        kind: EventKind::Update(p.clone()),
                    },
                ];
                proof {
                    assert(events_model(out@) =~= windows_handle_transition(
                        old(self)@,
                        ev@,
                        now,
                    ).1);
                }
                out
            },
            RawEvent::Removed(p) => {
                let out = vec![
                    WatcherEvent {
                        location_pub_id: self.location_pub_id,
                        kind: EventKind::Delete(p.clone()),
                    },
                ];
                proof {
                    assert(events_model(out@) =~= windows_handle_transition(
                        old(self)@,
                        ev@,
                        now,
                    ).1);
                }
                out
            },
            RawEvent::RenameFrom(p) => {
                self.rename_from.upsert(p.clone(), now);
                let out: Vec<WatcherEvent> = Vec::new();
                proof {
                    assert(events_model(out@) =~= Seq::<WatcherEventModel>::empty());
                }
                out
            },
            RawEvent::RenameTo(p) => {
                match self.rename_from.pop_newest() {
                    Some(from_entry) => {
                        let out = vec![
                            WatcherEvent {
                                location_pub_id: self.location_pub_id,
                                kind: EventKind::Rename {
                                    from: from_entry.path,
                                    to: p.clone(),
                                },
                            },
                        ];
                        proof {
                            assert(events_model(out@) =~= windows_handle_transition(
                                old(self)@,
                                ev@,
                                now,
                            ).1);
                        }
                        out
                    },
                    None => {
                        let out = vec![
                            WatcherEvent {
                                location_pub_id: self.location_pub_id,
                                kind: EventKind::Create(p.clone()),
                            },
                        ];
                        proof {
                            assert(events_model(out@) =~= windows_handle_transition(
                                old(self)@,
                                ev@,
                                now,
                            ).1);
                        }
                        out
                    },
                }
            },
            _ => {
                let out: Vec<WatcherEvent> = Vec::new();
                proof {
                    assert(events_model(out@) =~= Seq::<WatcherEventModel>::empty());
                }
                out
            },
        }
    }

    /// The periodic tick, at time `now`: turn timed-out rename-from records
    /// into deletions.
    pub fn tick(&mut self, now: u64) -> (out: Vec<WatcherEvent>)
        requires
            old(self).wf(),
            old(self).le(now),
        ensures
            final(self)@ == windows_tick_transition(old(self)@, now).0,
            events_model(out@) == windows_tick_transition(old(self)@, now).1,
            final(self).wf(),
            final(self).le(now),
    {
        if now - self.last_check_rename > HUNDRED_MILLIS {
            self.last_check_rename = now;
            let evicted = self.rename_from.evict_stale(now, HUNDRED_MILLIS);
            deletes_for(self.location_pub_id, evicted)
        } else {
            let out: Vec<WatcherEvent> = Vec::new();
            proof {
                assert(events_model(out@) =~= Seq::<WatcherEventModel>::empty());
            }
            out
        }
    }
}

} // verus!
