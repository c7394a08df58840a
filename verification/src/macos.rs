//! The macOS platform handler.
//!
//! The FSEvents backend delivers rename signals that are symmetric and carry a
//! single path: nothing says whether that path is the source or the
//! destination of the move. The handler therefore asks an external arbiter
//! for the `(inode, device)` identity of every path mentioned in a rename
//! signal; a path that still exists is the arriving ("new") side, a path that
//! is gone is the leaving ("old") side. Matching identities on both sides
//! within the correlation window resolve to one rename; an unmatched old side
//! eventually becomes a deletion and an unmatched new side a creation. File
//! creations are followed by a content-change signal for the same path, which
//! is suppressed just as on Linux.

use vstd::prelude::*;

use crate::correlation::{
    distinct_inodes, distinct_paths, fresh_entries, inode_kept_entries, inode_path,
    inode_stale_paths, inode_stamps_le, itable_contains, stamps_le, table_contains, without_inode,
    without_path, InodeStampModel, InodeTable, PathStampModel, PathTable,
};
use crate::event::{
    creates_for, deletes_for, emit, events_model, EventKind, EventKindModel, LocationPubId,
    RawEvent, RawEventModel, WatcherEvent, WatcherEventModel, HUNDRED_MILLIS,
};

verus! {

/// Correlation state of one watched location on macOS.
pub struct MacOsEventHandler {
    location_pub_id: LocationPubId,
    last_check_rename: u64,
    recently_created_files: PathTable,
    old_paths_map: InodeTable,
    new_paths_map: InodeTable,
}

/// Mathematical model of a [`MacOsEventHandler`].
pub struct MacHandlerModel {
    pub location_pub_id: LocationPubId,
    pub last_check_rename: u64,
    pub recently_created_files: Seq<PathStampModel>,
    pub old_paths_map: Seq<InodeStampModel>,
    pub new_paths_map: Seq<InodeStampModel>,
}

impl View for MacOsEventHandler {
    type V = MacHandlerModel;

    closed spec fn view(&self) -> MacHandlerModel {
        MacHandlerModel {
            location_pub_id: self.location_pub_id,
            last_check_rename: self.last_check_rename,
            recently_created_files: self.recently_created_files@,
            old_paths_map: self.old_paths_map@,
            new_paths_map: self.new_paths_map@,
        }
    }
}

/// Each pending table holds each key at most once.
pub open spec fn mac_wf(s: MacHandlerModel) -> bool {
    &&& distinct_paths(s.recently_created_files)
    &&& distinct_inodes(s.old_paths_map)
    &&& distinct_inodes(s.new_paths_map)
}

/// Every recorded timestamp is at or before `now`.
pub open spec fn mac_le(s: MacHandlerModel, now: u64) -> bool {
    &&& stamps_le(s.recently_created_files, now)
    &&& inode_stamps_le(s.old_paths_map, now)
    &&& inode_stamps_le(s.new_paths_map, now)
    &&& s.last_check_rename <= now
}

/// The freshly constructed handler state.
pub open spec fn mac_initial(id: LocationPubId, now: u64) -> MacHandlerModel {
    MacHandlerModel {
        location_pub_id: id,
        last_check_rename: now,
        recently_created_files: Seq::empty(),
        old_paths_map: Seq::empty(),
        new_paths_map: Seq::empty(),
    }
}

/// How one raw signal at time `now` transforms the handler state, and which
/// canonical events it emits. This is the transition table of the macOS
/// handler.
pub open spec fn mac_handle_transition(s: MacHandlerModel, ev: RawEventModel, now: u64) -> (
    MacHandlerModel,
    Seq<WatcherEventModel>,
) {
    match ev {
        RawEventModel::CreatedFile(p) => (
            MacHandlerModel {
                recently_created_files: without_path(s.recently_created_files, p).push(
                    PathStampModel { path: p, stamp: now },
                ),
                ..s
            },
            seq![emit(s.location_pub_id, EventKindModel::Create(p))],
        ),
        RawEventModel::CreatedFolder(p) => (
            s,
            seq![emit(s.location_pub_id, EventKindModel::Create(p))],
        ),
        RawEventModel::Modified(p) => (
            s,
            if table_contains(s.recently_created_files, p) {
                Seq::empty()
            } else {
                seq![emit(s.location_pub_id, EventKindModel::Update(p))]
            },
        ),
        RawEventModel::RenameAny { path, present, identity } => match identity {
            Some((ino, dev)) => if present {
                if itable_contains(s.old_paths_map, ino, dev) {
                    (
                        MacHandlerModel { old_paths_map: without_inode(s.old_paths_map, ino, dev), ..s },
                        seq![
                            emit(
                                s.location_pub_id,
                                EventKindModel::Rename {
                                    from: inode_path(s.old_paths_map, ino, dev),
                                    to: path,
                                },
                            ),
                        ],
                    )
                } else {
                    (
                        MacHandlerModel {
                            new_paths_map: without_inode(s.new_paths_map, ino, dev).push(
                                InodeStampModel { ino, dev, stamp: now, path },
                            ),
                            ..s
                        },
                        Seq::empty(),
                    )
                }
            } else {
                if itable_contains(s.new_paths_map, ino, dev) {
                    (
                        MacHandlerModel { new_paths_map: without_inode(s.new_paths_map, ino, dev), ..s },
                        seq![
                            emit(
                                s.location_pub_id,
                                EventKindModel::Rename {
                                    from: path,
                                    to: inode_path(s.new_paths_map, ino, dev),
                                },
                            ),
                        ],
                    )
                } else {
                    (
                        MacHandlerModel {
                            old_paths_map: without_inode(s.old_paths_map, ino, dev).push(
                                InodeStampModel { ino, dev, stamp: now, path },
                            ),
                            ..s
                        },
                        Seq::empty(),
                    )
                }
            },
            None => (
                s,
                if present {
                    seq![emit(s.location_pub_id, EventKindModel::Create(path))]
                } else {
                    seq![emit(s.location_pub_id, EventKindModel::Delete(path))]
                },
            ),
        },
        RawEventModel::Removed(p) => (
            s,
            seq![emit(s.location_pub_id, EventKindModel::Delete(p))],
        ),
        _ => (s, Seq::empty()),
    }
}

/// How a tick at time `now` transforms the handler state: once per window the
/// suppression records are pruned, unmatched old sides older than the window
/// become deletions and unmatched new sides older than the window become
/// creations.
pub open spec fn mac_tick_transition(s: MacHandlerModel, now: u64) -> (
    MacHandlerModel,
    Seq<WatcherEventModel>,
) {
    if now - s.last_check_rename > HUNDRED_MILLIS {
        (
            MacHandlerModel {
                last_check_rename: now,
                recently_created_files: fresh_entries(
                    s.recently_created_files,
                    now,
                    HUNDRED_MILLIS,
                ),
                old_paths_map: inode_kept_entries(s.old_paths_map, now, HUNDRED_MILLIS),
                new_paths_map: inode_kept_entries(s.new_paths_map, now, HUNDRED_MILLIS),
                ..s
            },
            inode_stale_paths(s.old_paths_map, now, HUNDRED_MILLIS).map_values(
                |p: Seq<char>| emit(s.location_pub_id, EventKindModel::Delete(p)),
            ) + inode_stale_paths(s.new_paths_map, now, HUNDRED_MILLIS).map_values(
                |p: Seq<char>| emit(s.location_pub_id, EventKindModel::Create(p)),
            ),
        )
    } else {
        (s, Seq::empty())
    }
}

impl MacOsEventHandler {
    pub open spec fn wf(&self) -> bool {
        mac_wf(self@)
    }

    /// All correlation state was recorded at or before `now`.
    pub open spec fn le(&self, now: u64) -> bool {
        mac_le(self@, now)
    }

    /// A handler for the location, with no correlation state pending.
    pub fn new(location_pub_id: LocationPubId, now: u64) -> (r: Self)
        ensures
            r@ == mac_initial(location_pub_id, now),
            r.wf(),
            r.le(now),
    {
        MacOsEventHandler {
            location_pub_id,
            last_check_rename: now,
            recently_created_files: PathTable::new(),
            old_paths_map: InodeTable::new(),
            new_paths_map: InodeTable::new(),
        }
    }

    /// Consume one raw signal observed at time `now`, update the correlation
    /// state, and return the canonical events to emit, in order.
    pub fn handle_event(&mut self, ev: &RawEvent, now: u64) -> (out: Vec<WatcherEvent>)
        requires
            old(self).wf(),
            old(self).le(now),
        ensures
            final(self)@ == mac_handle_transition(old(self)@, ev@, now).0,
            events_model(out@) == mac_handle_transition(old(self)@, ev@, now).1,
            final(self).wf(),
            final(self).le(now),
    {
        match ev {
            RawEvent::CreatedFile(p) => {
                self.recently_created_files.upsert(p.clone(), now);
                let out = vec![
                    WatcherEvent {
                        location_pub_id: self.location_pub_id,
                        kind: EventKind::Create(p.clone()),
                    },
                ];
                proof {
                    assert(events_model(out@) =~= mac_handle_transition(old(self)@, ev@, now).1);
                }
                out
            },
            RawEvent::CreatedFolder(p) => {
                let out = vec![
                    WatcherEvent {
                        location_pub_id: self.location_pub_id,
                        kind: EventKind::Create(p.clone()),
                    },
                ];
                proof {
                    assert(events_model(out@) =~= mac_handle_transition(old(self)@, ev@, now).1);
                }
                out
            },
            RawEvent::Modified(p) => {
                if !self.recently_created_files.contains_path(p) {
                    let out = vec![
                        WatcherEvent {
                            location_pub_id: self.location_pub_id,
                            kind: EventKind::Update(p.clone()),
                        },
                    ];
                    proof {
                        assert(events_model(out@) =~= mac_handle_transition(
                            old(self)@,
                            ev@,
                            now,
                        ).1);
                    }
                    out
                } else {
                    let out: Vec<WatcherEvent> = Vec::new();
                    proof {
                        assert(events_model(out@) =~= Seq::<WatcherEventModel>::empty());
                    }
                    out
                }
            },
            RawEvent::RenameAny { path, present, identity } => {
                match identity {
                    Some(id_pair) => {
                        let ino = id_pair.0;
                        let dev = id_pair.1;
                        if *present {
                            match self.old_paths_map.take(ino, dev) {
                                Some(e) => {
                                    let out = vec![
                                        WatcherEvent {
                                            location_pub_id: self.location_pub_id,
                                            kind: EventKind::Rename {
                                                from: e.path,
                                                to: path.clone(),
                                            },
                                        },
                                    ];
                                    proof {
                                        assert(events_model(out@) =~= mac_handle_transition(
                                            old(self)@,
                                            ev@,
                                            now,
                                        ).1);
                                    }
                                    out
                                },
                                None => {
                                    proof {
                                        crate::correlation::lemma_without_inode_absent(
                                            old(self)@.old_paths_map,
                                            ino,
                                            dev,
                                        );
                                    }
                                    self.new_paths_map.upsert(ino, dev, now, path.clone());
                                    let out: Vec<WatcherEvent> = Vec::new();
                                    proof {
                                        assert(events_model(out@) =~= Seq::<
                                            WatcherEventModel,
                                        >::empty());
                                    }
                                    out
                                },
                            }
                        } else {
                            match self.new_paths_map.take(ino, dev) {
                                Some(e) => {
                                    let out = vec![
                                        WatcherEvent {
                                            location_pub_id: self.location_pub_id,
                                            kind: EventKind::Rename {
                                                from: path.clone(),
                                                to: e.path,
                                            },
                                        },
                                    ];
                                    proof {
                                        assert(events_model(out@) =~= mac_handle_transition(
                                            old(self)@,
                                            ev@,
                                            now,
                                        ).1);
                                    }
                                    out
                                },
                                None => {
                                    proof {
                                        crate::correlation::lemma_without_inode_absent(
                                            old(self)@.new_paths_map,
                                            ino,
                                            dev,
                                        );
                                    }
                                    self.old_paths_map.upsert(ino, dev, now, path.clone());
                                    let out: Vec<WatcherEvent> = Vec::new();
                                    proof {
                                        assert(events_model(out@) =~= Seq::<
                                            WatcherEventModel,
                                        >::empty());
                                    }
                                    out
                                },
                            }
                        }
                    },
                    None => {
                        let out = vec![
                            WatcherEvent {
                                location_pub_id: self.location_pub_id,
                                kind: if *present {
                                    EventKind::Create(path.clone())
                                } else {
                                    EventKind::Delete(path.clone())
                                },
                            },
                        ];
                        proof {
                            assert(events_model(out@) =~= mac_handle_transition(
                                old(self)@,
                                ev@,
                                now,
                            ).1);
                        }
                        out
                    },
                }
            },
            RawEvent::Removed(p) => {
                let out = vec![
                    WatcherEvent {
                        location_pub_id: self.location_pub_id,
                        kind: EventKind::Delete(p.clone()),
                    },
                ];
                proof {
                    assert(events_model(out@) =~= mac_handle_transition(old(self)@, ev@, now).1);
                }
                out
            },
            _ => {
                let out: Vec<WatcherEvent> = Vec::new();
                proof {
                    assert(events_model(out@) =~= Seq::<WatcherEventModel>::empty());
                }
                out
            },
        }
    }

    /// The periodic tick, at time `now`: prune the suppression records, turn
    /// timed-out old sides into deletions and timed-out new sides into
    /// creations.
    pub fn tick(&mut self, now: u64) -> (out: Vec<WatcherEvent>)
        requires
            old(self).wf(),
            old(self).le(now),
        ensures
            final(self)@ == mac_tick_transition(old(self)@, now).0,
            events_model(out@) == mac_tick_transition(old(self)@, now).1,
            final(self).wf(),
            final(self).le(now),
    {
        if now - self.last_check_rename > HUNDRED_MILLIS {
            self.last_check_rename = now;
            self.recently_created_files.retain_fresh(now, HUNDRED_MILLIS);
            let stale_old = self.old_paths_map.evict_stale(now, HUNDRED_MILLIS);
            let stale_new = self.new_paths_map.evict_stale(now, HUNDRED_MILLIS);
            let mut out = deletes_for(self.location_pub_id, stale_old);
            let mut created = creates_for(self.location_pub_id, stale_new);
            let ghost out_pre = out@;
            let ghost created_pre = created@;
            out.append(&mut created);
            proof {
                assert(events_model(out@) =~= events_model(out_pre) + events_model(created_pre));
            }
            out
        } else {
            let out: Vec<WatcherEvent> = Vec::new();
            proof {
                assert(events_model(out@) =~= Seq::<WatcherEventModel>::empty());
            }
            out
        }
    }
}

/// An identity observed leaving ("old" side) and then, within the window,
/// arriving ("new" side) resolves to exactly one
/// `Rename { from: pold, to: pnew }`: the old-side signal emits nothing, an
/// intervening tick within the window evicts nothing for that identity, and
/// the new-side signal emits the one rename.
pub proof fn lemma_old_then_new_renames(
    s: MacHandlerModel,
    ino: u64,
    dev: u64,
    pold: Seq<char>,
    pnew: Seq<char>,
    t1: u64,
    tm: u64,
    t2: u64,
)
    requires
        mac_wf(s),
        !itable_contains(s.new_paths_map, ino, dev),
        t1 <= tm,
        tm - t1 <= HUNDRED_MILLIS,
    ensures
        ({
            let (s1, out1) = mac_handle_transition(
                s,
                RawEventModel::RenameAny { path: pold, present: false, identity: Some((ino, dev)) },
                t1,
            );
            let (s2, out_tick) = mac_tick_transition(s1, tm);
            let (s3, out3) = mac_handle_transition(
                s2,
                RawEventModel::RenameAny { path: pnew, present: true, identity: Some((ino, dev)) },
                t2,
            );
            &&& out1 == Seq::<WatcherEventModel>::empty()
            &&& forall|k: int|
                0 <= k < out_tick.len() ==> !((#[trigger] out_tick[k]).kind is Rename)
            &&& out3 == seq![
                emit(s.location_pub_id, EventKindModel::Rename { from: pold, to: pnew }),
            ]
            &&& !itable_contains(s3.old_paths_map, ino, dev)
        }),
{
    let (s1, out1) = mac_handle_transition(
        s,
        RawEventModel::RenameAny { path: pold, present: false, identity: Some((ino, dev)) },
        t1,
    );
    let (s2, out_tick) = mac_tick_transition(s1, tm);
    let (s3, out3) = mac_handle_transition(
        s2,
        RawEventModel::RenameAny { path: pnew, present: true, identity: Some((ino, dev)) },
        t2,
    );
    let entry = InodeStampModel { ino, dev, stamp: t1, path: pold };
    crate::correlation::lemma_inode_upsert_preserves(s.old_paths_map, ino, dev, t1, pold);
    assert(s1.old_paths_map[s1.old_paths_map.len() - 1] == entry);
    if tm - s1.last_check_rename > HUNDRED_MILLIS {
        crate::correlation::lemma_inode_kept_member(s1.old_paths_map, tm, HUNDRED_MILLIS);
        crate::correlation::lemma_inode_prune_preserves(s1.old_paths_map, tm, HUNDRED_MILLIS);
        assert(tm - entry.stamp <= HUNDRED_MILLIS);
        assert(s2.old_paths_map.contains(entry));
        let w = choose|w: int|
            0 <= w < s2.old_paths_map.len() && s2.old_paths_map[w] == entry;
        crate::correlation::lemma_inode_entry_unique(s2.old_paths_map, ino, dev, w);
        let old_stale = inode_stale_paths(s1.old_paths_map, tm, HUNDRED_MILLIS);
        let new_stale = inode_stale_paths(s1.new_paths_map, tm, HUNDRED_MILLIS);
        let dels = old_stale.map_values(
            |p: Seq<char>| emit(s1.location_pub_id, EventKindModel::Delete(p)),
        );
        let crts = new_stale.map_values(
            |p: Seq<char>| emit(s1.location_pub_id, EventKindModel::Create(p)),
        );
        assert forall|k: int|
            0 <= k < out_tick.len() implies !((#[trigger] out_tick[k]).kind is Rename) by {
            if k < dels.len() {
                assert(out_tick[k] == dels[k]);
            } else {
                assert(out_tick[k] == crts[k - dels.len()]);
            }
        }
    } else {
        crate::correlation::lemma_inode_entry_unique(
            s2.old_paths_map,
            ino,
            dev,
            s2.old_paths_map.len() - 1,
        );
    }
    assert(inode_path(s2.old_paths_map, ino, dev) == pold);
    crate::correlation::lemma_without_inode_preserves(s2.old_paths_map, ino, dev);
}

/// An identity observed only as the "old" side: once a tick runs after the
/// window has elapsed, exactly one `Delete(pold)` is emitted and the record is
/// dropped.
pub proof fn lemma_lone_old_side_deletes(
    s: MacHandlerModel,
    ino: u64,
    dev: u64,
    pold: Seq<char>,
    t1: u64,
    t2: u64,
)
    requires
        mac_wf(s),
        !itable_contains(s.new_paths_map, ino, dev),
        forall|i: int| 0 <= i < s.old_paths_map.len() ==> (#[trigger] s.old_paths_map[i]).path != pold,
        forall|i: int| 0 <= i < s.new_paths_map.len() ==> (#[trigger] s.new_paths_map[i]).path != pold,
        t1 <= t2,
        t2 - t1 > HUNDRED_MILLIS,
        t2 - s.last_check_rename > HUNDRED_MILLIS,
    ensures
        ({
            let (s1, out1) = mac_handle_transition(
                s,
                RawEventModel::RenameAny { path: pold, present: false, identity: Some((ino, dev)) },
                t1,
            );
            let (s2, out2) = mac_tick_transition(s1, t2);
            &&& out1 == Seq::<WatcherEventModel>::empty()
            &&& exists|k: int|
                0 <= k < out2.len() && out2[k] == emit(
                    s.location_pub_id,
                    EventKindModel::Delete(pold),
                )
            &&& forall|k: int, l: int|
                0 <= k < out2.len() && 0 <= l < out2.len() && (#[trigger] out2[k]).kind
                    == EventKindModel::Delete(pold) && (#[trigger] out2[l]).kind
                    == EventKindModel::Delete(pold) ==> k == l
        }),
{
    let (s1, out1) = mac_handle_transition(
        s,
        RawEventModel::RenameAny { path: pold, present: false, identity: Some((ino, dev)) },
        t1,
    );
    let (s2, out2) = mac_tick_transition(s1, t2);
    let entry = InodeStampModel { ino, dev, stamp: t1, path: pold };
    crate::correlation::lemma_inode_upsert_preserves(s.old_paths_map, ino, dev, t1, pold);
    let om = s1.old_paths_map;
    assert(om[om.len() - 1] == entry);
    let old_stale = inode_stale_paths(om, t2, HUNDRED_MILLIS);
    let new_stale = inode_stale_paths(s1.new_paths_map, t2, HUNDRED_MILLIS);
    let dels = old_stale.map_values(
        |p: Seq<char>| emit(s1.location_pub_id, EventKindModel::Delete(p)),
    );
    let crts = new_stale.map_values(
        |p: Seq<char>| emit(s1.location_pub_id, EventKindModel::Create(p)),
    );
    crate::correlation::lemma_inode_stale_paths_cover(om, t2, HUNDRED_MILLIS);
    assert(old_stale.contains(pold)) by {
        assert(t2 - om[om.len() - 1].stamp > HUNDRED_MILLIS);
    }
    let w = choose|w: int| 0 <= w < old_stale.len() && old_stale[w] == pold;
    assert(out2[w] == emit(s.location_pub_id, EventKindModel::Delete(pold)));
    assert(forall|i: int|
        0 <= i < crate::correlation::without_inode(s.old_paths_map, ino, dev).len()
            ==> (#[trigger] crate::correlation::without_inode(s.old_paths_map, ino, dev)[i]).path
            != pold) by {
        crate::correlation::lemma_inode_without_member(s.old_paths_map, ino, dev);
    }
    crate::correlation::lemma_inode_stale_unique_path(om, t2, HUNDRED_MILLIS, pold);
    assert forall|k: int, l: int|
        0 <= k < out2.len() && 0 <= l < out2.len() && (#[trigger] out2[k]).kind
            == EventKindModel::Delete(pold) && (#[trigger] out2[l]).kind
            == EventKindModel::Delete(pold) implies k == l by {
        assert(k < dels.len()) by {
            if k >= dels.len() {
                assert(out2[k] == crts[k - dels.len()]);
            }
        }
        assert(l < dels.len()) by {
            if l >= dels.len() {
                assert(out2[l] == crts[l - dels.len()]);
            }
        }
        assert(out2[k] == dels[k] && dels[k].kind == EventKindModel::Delete(old_stale[k]));
        assert(out2[l] == dels[l] && dels[l].kind == EventKindModel::Delete(old_stale[l]));
        assert(old_stale[k] == pold && old_stale[l] == pold);
        if k < l {
            assert(false);
        } else if l < k {
            assert(false);
        }
    }
}

/// An identity observed only as the "new" side: once a tick runs after the
/// window has elapsed, exactly one `Create(pnew)` is emitted and the record is
/// dropped.
pub proof fn lemma_lone_new_side_creates(
    s: MacHandlerModel,
    ino: u64,
    dev: u64,
    pnew: Seq<char>,
    t1: u64,
    t2: u64,
)
    requires
        mac_wf(s),
        !itable_contains(s.old_paths_map, ino, dev),
        forall|i: int| 0 <= i < s.old_paths_map.len() ==> (#[trigger] s.old_paths_map[i]).path != pnew,
        forall|i: int| 0 <= i < s.new_paths_map.len() ==> (#[trigger] s.new_paths_map[i]).path != pnew,
        t1 <= t2,
        t2 - t1 > HUNDRED_MILLIS,
        t2 - s.last_check_rename > HUNDRED_MILLIS,
    ensures
        ({
            let (s1, out1) = mac_handle_transition(
                s,
                RawEventModel::RenameAny { path: pnew, present: true, identity: Some((ino, dev)) },
                t1,
            );
            let (s2, out2) = mac_tick_transition(s1, t2);
            &&& out1 == Seq::<WatcherEventModel>::empty()
            &&& exists|k: int|
                0 <= k < out2.len() && out2[k] == emit(
                    s.location_pub_id,
                    EventKindModel::Create(pnew),
                )
            &&& forall|k: int, l: int|
                0 <= k < out2.len() && 0 <= l < out2.len() && (#[trigger] out2[k]).kind
                    == EventKindModel::Create(pnew) && (#[trigger] out2[l]).kind
                    == EventKindModel::Create(pnew) ==> k == l
        }),
{
    let (s1, out1) = mac_handle_transition(
        s,
        RawEventModel::RenameAny { path: pnew, present: true, identity: Some((ino, dev)) },
        t1,
    );
    let (s2, out2) = mac_tick_transition(s1, t2);
    let entry = InodeStampModel { ino, dev, stamp: t1, path: pnew };
    crate::correlation::lemma_inode_upsert_preserves(s.new_paths_map, ino, dev, t1, pnew);
    let nm = s1.new_paths_map;
    assert(nm[nm.len() - 1] == entry);
    let old_stale = inode_stale_paths(s1.old_paths_map, t2, HUNDRED_MILLIS);
    let new_stale = inode_stale_paths(nm, t2, HUNDRED_MILLIS);
    let dels = old_stale.map_values(
        |p: Seq<char>| emit(s1.location_pub_id, EventKindModel::Delete(p)),
    );
    let crts = new_stale.map_values(
        |p: Seq<char>| emit(s1.location_pub_id, EventKindModel::Create(p)),
    );
    crate::correlation::lemma_inode_stale_paths_cover(nm, t2, HUNDRED_MILLIS);
    assert(new_stale.contains(pnew)) by {
        assert(t2 - nm[nm.len() - 1].stamp > HUNDRED_MILLIS);
    }
    let w = choose|w: int| 0 <= w < new_stale.len() && new_stale[w] == pnew;
    assert(out2[dels.len() + w] == emit(s.location_pub_id, EventKindModel::Create(pnew)));
    assert(forall|i: int|
        0 <= i < crate::correlation::without_inode(s.new_paths_map, ino, dev).len()
            ==> (#[trigger] crate::correlation::without_inode(s.new_paths_map, ino, dev)[i]).path
            != pnew) by {
        crate::correlation::lemma_inode_without_member(s.new_paths_map, ino, dev);
    }
    crate::correlation::lemma_inode_stale_unique_path(nm, t2, HUNDRED_MILLIS, pnew);
    assert forall|k: int, l: int|
        0 <= k < out2.len() && 0 <= l < out2.len() && (#[trigger] out2[k]).kind
            == EventKindModel::Create(pnew) && (#[trigger] out2[l]).kind
            == EventKindModel::Create(pnew) implies k == l by {
        assert(k >= dels.len()) by {
            if k < dels.len() {
                assert(out2[k] == dels[k]);
            }
        }
        assert(l >= dels.len()) by {
            if l < dels.len() {
                assert(out2[l] == dels[l]);
            }
        }
        let ks = k - dels.len();
        let ls = l - dels.len();
        assert(out2[k] == crts[ks] && crts[ks].kind == EventKindModel::Create(new_stale[ks]));
        assert(out2[l] == crts[ls] && crts[ls].kind == EventKindModel::Create(new_stale[ls]));
        assert(new_stale[ks] == pnew && new_stale[ls] == pnew);
        if ks < ls {
            assert(false);
        } else if ls < ks {
            assert(false);
        }
    }
}

} // verus!
