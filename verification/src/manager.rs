//! The location manager: supervisor of all active location watchers.
//!
//! The manager owns the authoritative mapping from location identifier to
//! root path, the online-status set mutated by periodic reachability checks,
//! and the registry of paths whose filesystem-event traffic is suppressed
//! because the system itself is about to mutate them. Before any canonical
//! event reaches the external consumer it is gated here: events for an
//! offline location are dropped, never forwarded, because a vanished mount
//! must not be read as a mass deletion of its contents.
//!
//! The manager's loop — merging management requests, scheduled reachability
//! checks and cancellation — runs outside the library and calls in for every
//! decision: how a stat outcome changes the online set, whether an event is
//! forwarded, and whether an abnormally ended loop is restarted.

use vstd::prelude::*;

use crate::event::{event_paths, LocationPubId, WatcherEvent};

verus! {

broadcast use vstd::seq_lib::group_seq_properties;

/// Errors of the manager. Almost every failure the manager meets is absorbed
/// into a conservative status instead of being raised; the one reportable
/// condition is a reachability check against a location that does not belong
/// to this node.
#[derive(Debug, Clone, Copy, PartialEq, Eq, Structural)]
pub enum LocationManagerError {
    NonLocalLocation(i32),
}

/// The outcome of statting a location's root path during a reachability
/// check.
#[derive(Debug, Clone, Copy, PartialEq, Eq, Structural)]
pub enum ReachabilityOutcome {
    /// The root path is statable.
    Found,
    /// The root path does not exist.
    NotFound,
    /// Any other I/O error; treated conservatively as offline.
    IoError,
}

/// One registered location: its identifier and current root path.
#[derive(Debug)]
pub struct LocationEntry {
    pub pub_id: LocationPubId,
    pub root_path: String,
}

/// Mathematical model of a [`LocationEntry`].
pub struct LocationEntryModel {
    pub pub_id: LocationPubId,
    pub root_path: Seq<char>,
}

impl View for LocationEntry {
    type V = LocationEntryModel;

    open spec fn view(&self) -> LocationEntryModel {
        LocationEntryModel { pub_id: self.pub_id, root_path: self.root_path@ }
    }
}

/// One suppressed path of one location.
#[derive(Debug)]
pub struct IgnoredPath {
    pub pub_id: LocationPubId,
    pub path: String,
}

impl View for IgnoredPath {
    type V = (LocationPubId, Seq<char>);

    open spec fn view(&self) -> (LocationPubId, Seq<char>) {
        (self.pub_id, self.path@)
    }
}

/// The models of a sequence of registered locations.
pub open spec fn location_models(v: Seq<LocationEntry>) -> Seq<LocationEntryModel> {
    v.map_values(|e: LocationEntry| e@)
}

/// The models of a sequence of suppressed paths.
pub open spec fn ignored_models(v: Seq<IgnoredPath>) -> Seq<(LocationPubId, Seq<char>)> {
    v.map_values(|e: IgnoredPath| e@)
}

/// True when `s` registers location `id`.
pub open spec fn locations_contain(s: Seq<LocationEntryModel>, id: LocationPubId) -> bool {
    exists|i: int| 0 <= i < s.len() && s[i].pub_id == id
}

/// True when no location is registered twice in `s`.
pub open spec fn distinct_locations(s: Seq<LocationEntryModel>) -> bool {
    forall|i: int, j: int| 0 <= i < j < s.len() ==> s[i].pub_id != s[j].pub_id
}

/// `s` with every entry for location `id` removed.
pub open spec fn without_location(s: Seq<LocationEntryModel>, id: LocationPubId) -> Seq<
    LocationEntryModel,
> {
    s.filter(|e: LocationEntryModel| e.pub_id != id)
}

/// Mathematical model of the [`LocationManager`]: the registered locations in
/// order, the set of locations believed reachable, and the set of suppressed
/// `(location, path)` pairs.
pub struct ManagerModel {
    pub locations: Seq<LocationEntryModel>,
    pub online: Set<LocationPubId>,
    pub ignored: Set<(LocationPubId, Seq<char>)>,
}

/// True when every path of `paths` is suppressed for location `id`.
pub open spec fn all_ignored(m: ManagerModel, id: LocationPubId, paths: Seq<Seq<char>>) -> bool {
    forall|i: int| 0 <= i < paths.len() ==> m.ignored.contains((id, #[trigger] paths[i]))
}

/// The event-accept gate: traffic for `id` passes only when not every
/// mentioned path is suppressed and the location is currently online.
pub open spec fn accepts(m: ManagerModel, id: LocationPubId, paths: Seq<Seq<char>>) -> bool {
    !all_ignored(m, id, paths) && m.online.contains(id)
}

/// How a reachability outcome changes the online set: only a statable root
/// counts as online; a missing root and any other I/O error mark the
/// location offline.
pub open spec fn reachability_online(outcome: ReachabilityOutcome) -> bool {
    outcome == ReachabilityOutcome::Found
}

/// The supervision policy for a loop task that has ended: restart unless
/// cancellation was requested.
pub open spec fn restart_policy(cancelled: bool) -> bool {
    !cancelled
}

/// A filter keeps exactly the members that satisfy its predicate.
proof fn lemma_filter_membership<A>(s: Seq<A>, pred: spec_fn(A) -> bool)
    ensures
        forall|x: A| #[trigger] s.filter(pred).contains(x) == (s.contains(x) && pred(x)),
    decreases s.len(),
{
    reveal(Seq::filter);
    broadcast use vstd::seq_lib::group_filter_ensures;

    if s.len() != 0 {
        lemma_filter_membership(s.drop_last(), pred);
        assert forall|x: A| #[trigger]
            s.filter(pred).contains(x) == (s.contains(x) && pred(x)) by {
            let dl = s.drop_last();
            if s.filter(pred).contains(x) {
                if pred(s.last()) && x == s.last() {
                    assert(s[s.len() - 1] == x);
                } else {
                    assert(dl.filter(pred).contains(x));
                    let w = choose|w: int| 0 <= w < dl.len() && dl[w] == x;
                    assert(s[w] == x);
                }
            }
            if s.contains(x) && pred(x) {
                let w = choose|w: int| 0 <= w < s.len() && s[w] == x;
                if w == s.len() - 1 {
                    if pred(s.last()) {
                        let f = dl.filter(pred).push(s.last());
                        assert(f[f.len() - 1] == x);
                        assert(f.contains(x));
                    }
                } else {
                    assert(dl[w] == x);
                    assert(dl.contains(x));
                    assert(dl.filter(pred).contains(x));
                    if pred(s.last()) {
                        let sub = dl.filter(pred);
                        let v = choose|v: int| 0 <= v < sub.len() && sub[v] == x;
                        assert(sub.push(s.last())[v] == x);
                        assert(sub.push(s.last()).contains(x));
                    }
                }
            }
        }
    }
}

/// Supervises all active location watchers: tracks which locations are
/// online, arbitrates which paths are suppressed, and owns the authoritative
/// identifier-to-root-path mapping.
pub struct LocationManager {
    locations: Vec<LocationEntry>,
    online_locations: Vec<LocationPubId>,
    ignored_paths: Vec<IgnoredPath>,
}

impl View for LocationManager {
    type V = ManagerModel;

    closed spec fn view(&self) -> ManagerModel {
        ManagerModel {
            locations: location_models(self.locations@),
            online: self.online_locations@.to_set(),
            ignored: ignored_models(self.ignored_paths@).to_set(),
        }
    }
}

impl LocationManager {
    /// Each location is registered at most once.
    pub open spec fn wf(&self) -> bool {
        distinct_locations(self@.locations)
    }

    /// A manager with no locations, nothing online and nothing suppressed.
    pub fn new() -> (r: Self)
        ensures
            r@.locations == Seq::<LocationEntryModel>::empty(),
            r@.online == Set::<LocationPubId>::empty(),
            r@.ignored == Set::<(LocationPubId, Seq<char>)>::empty(),
            r.wf(),
    {
        let r = LocationManager {
            locations: Vec::new(),
            online_locations: Vec::new(),
            ignored_paths: Vec::new(),
        };
        proof {
            assert(r@.locations =~= Seq::<LocationEntryModel>::empty());
            assert(r@.online =~= Set::<LocationPubId>::empty());
            assert(r@.ignored =~= Set::<(LocationPubId, Seq<char>)>::empty());
        }
        r
    }

    /// Whether location `pub_id` is currently believed reachable.
    #[verifier::loop_isolation(false)]
    pub fn is_online(&self, pub_id: LocationPubId) -> (r: bool)
        ensures
            r == self@.online.contains(pub_id),
    {
        let n = self.online_locations.len();
        let mut i: usize = 0;
        while i < n
            invariant
                0 <= i <= n,
                forall|k: int| 0 <= k < i ==> self.online_locations@[k] != pub_id,
            decreases n - i,
        {
            if self.online_locations[i] == pub_id {
                proof {
                    assert(self.online_locations@.contains(pub_id));
                }
                return true;
            }
            i += 1;
        }
        proof {
            if self.online_locations@.contains(pub_id) {
                let w = choose|w: int|
                    0 <= w < self.online_locations@.len() && self.online_locations@[w] == pub_id;
            }
        }
        false
    }

    /// Mark location `pub_id` online.
    pub fn add_online(&mut self, pub_id: LocationPubId)
        ensures
            final(self)@.online == old(self)@.online.insert(pub_id),
            final(self)@.locations == old(self)@.locations,
            final(self)@.ignored == old(self)@.ignored,
            old(self).wf() ==> final(self).wf(),
    {
        if !self.is_online(pub_id) {
            self.online_locations.push(pub_id);
            proof {
                assert(self@.online =~= old(self)@.online.insert(pub_id));
            }
        } else {
            proof {
                assert(self@.online =~= old(self)@.online.insert(pub_id));
            }
        }
    }

    /// Mark location `pub_id` offline.
    #[verifier::loop_isolation(false)]
    pub fn remove_online(&mut self, pub_id: LocationPubId)
        ensures
            final(self)@.online == old(self)@.online.remove(pub_id),
            final(self)@.locations == old(self)@.locations,
            final(self)@.ignored == old(self)@.ignored,
            old(self).wf() ==> final(self).wf(),
    {
        let ghost pred = |x: LocationPubId| x != pub_id;
        let n = self.online_locations.len();
        let mut kept: Vec<LocationPubId> = Vec::new();
        let mut i: usize = 0;
        proof {
            assert(self.online_locations@.subrange(0, 0) =~= Seq::<LocationPubId>::empty());
            assert(Seq::<LocationPubId>::empty().filter(pred) =~= Seq::<
                LocationPubId,
            >::empty()) by {
                reveal(Seq::filter);
            }
            assert(kept@ =~= Seq::<LocationPubId>::empty());
        }
        while i < n
            invariant
                0 <= i <= n,
                n == self.online_locations.len(),
                self.online_locations@ == old(self).online_locations@,
                kept@ == self.online_locations@.subrange(0, i as int).filter(pred),
            decreases n - i,
        {
            let ghost pre = self.online_locations@.subrange(0, i as int);
            let ghost cur = self.online_locations@[i as int];
            proof {
                assert(self.online_locations@.subrange(0, i as int + 1) =~= pre.push(cur));
                pre.lemma_filter_push(cur, pred);
            }
            if !(self.online_locations[i] == pub_id) {
                kept.push(self.online_locations[i]);
            }
            i += 1;
        }
        proof {
            assert(self.online_locations@.subrange(0, n as int) =~= self.online_locations@);
        }
        self.online_locations = kept;
        proof {
            lemma_filter_membership(old(self).online_locations@, pred);
            assert(self@.online =~= old(self)@.online.remove(pub_id));
        }
    }

    /// Fold one reachability-check outcome into the online set and report the
    /// resulting status: a statable root is online, anything else offline.
    pub fn apply_reachability(
        &mut self,
        pub_id: LocationPubId,
        outcome: ReachabilityOutcome,
    ) -> (online: bool)
        ensures
            online == reachability_online(outcome),
            final(self)@.online == if reachability_online(outcome) {
                old(self)@.online.insert(pub_id)
            } else {
                old(self)@.online.remove(pub_id)
            },
            final(self)@.locations == old(self)@.locations,
            final(self)@.ignored == old(self)@.ignored,
            old(self).wf() ==> final(self).wf(),
    {
        match outcome {
            ReachabilityOutcome::Found => {
                self.add_online(pub_id);
                true
            },
            ReachabilityOutcome::NotFound => {
                self.remove_online(pub_id);
                false
            },
            ReachabilityOutcome::IoError => {
                self.remove_online(pub_id);
                false
            },
        }
    }

    /// Register a location under its current root path, replacing any earlier
    /// registration of the same identifier.
    #[verifier::loop_isolation(false)]
    pub fn attach_location(&mut self, pub_id: LocationPubId, root_path: String)
        ensures
            final(self)@.locations == without_location(old(self)@.locations, pub_id).push(
                LocationEntryModel { pub_id, root_path: root_path@ },
            ),
            final(self)@.online == old(self)@.online,
            final(self)@.ignored == old(self)@.ignored,
            old(self).wf() ==> final(self).wf(),
    {
        let ghost pred = |e: LocationEntryModel| e.pub_id != pub_id;
        let n = self.locations.len();
        let mut kept: Vec<LocationEntry> = Vec::new();
        let mut i: usize = 0;
        proof {
            assert(self@.locations.subrange(0, 0) =~= Seq::<LocationEntryModel>::empty());
            assert(Seq::<LocationEntryModel>::empty().filter(pred) =~= Seq::<
                LocationEntryModel,
            >::empty()) by {
                reveal(Seq::filter);
            }
            assert(location_models(kept@) =~= Seq::<LocationEntryModel>::empty());
        }
        while i < n
            invariant
                0 <= i <= n,
                n == self.locations.len(),
                self@.locations == old(self)@.locations,
                location_models(kept@) == self@.locations.subrange(0, i as int).filter(pred),
            decreases n - i,
        {
            let ghost pre = self@.locations.subrange(0, i as int);
            let ghost cur = self@.locations[i as int];
            proof {
                assert(cur == self.locations@[i as int]@);
                assert(self@.locations.subrange(0, i as int + 1) =~= pre.push(cur));
                pre.lemma_filter_push(cur, pred);
            }
            if !(self.locations[i].pub_id == pub_id) {
                let e = &self.locations[i];
                let ghost kept_pre = kept@;
                kept.push(LocationEntry { pub_id: e.pub_id, root_path: e.root_path.clone() });
                proof {
                    assert(kept@[kept@.len() - 1]@ == cur);
                    assert(location_models(kept@) =~= location_models(kept_pre).push(cur));
                }
            }
            i += 1;
        }
        proof {
            assert(self@.locations.subrange(0, n as int) =~= self@.locations);
        }
        let ghost kept_final = kept@;
        kept.push(LocationEntry { pub_id, root_path });
        self.locations = kept;
        proof {
            assert(self@.locations =~= location_models(kept_final).push(
                LocationEntryModel { pub_id, root_path: root_path@ },
            ));
            if distinct_locations(old(self)@.locations) {
                lemma_filter_membership(old(self)@.locations, pred);
                let base = without_location(old(self)@.locations, pub_id);
                assert(distinct_locations(base)) by {
                    lemma_location_filter_distinct(old(self)@.locations, pred);
                }
                assert forall|i: int, j: int|
                    0 <= i < j < self@.locations.len() implies self@.locations[i].pub_id
                    != self@.locations[j].pub_id by {
                    if j == base.len() {
                        assert(base.contains(base[i]));
                    }
                }
            }
        }
    }

    /// Remove a location: its registration, its online status and its
    /// suppressed paths.
    #[verifier::loop_isolation(false)]
    pub fn detach_location(&mut self, pub_id: LocationPubId)
        ensures
            final(self)@.locations == without_location(old(self)@.locations, pub_id),
            final(self)@.online == old(self)@.online.remove(pub_id),
            final(self)@.ignored == old(self)@.ignored.filter(
                |pr: (LocationPubId, Seq<char>)| pr.0 != pub_id,
            ),
            old(self).wf() ==> final(self).wf(),
    {
        let ghost pred = |e: LocationEntryModel| e.pub_id != pub_id;
        let n = self.locations.len();
        let mut kept: Vec<LocationEntry> = Vec::new();
        let mut i: usize = 0;
        proof {
            assert(self@.locations.subrange(0, 0) =~= Seq::<LocationEntryModel>::empty());
            assert(Seq::<LocationEntryModel>::empty().filter(pred) =~= Seq::<
                LocationEntryModel,
            >::empty()) by {
                reveal(Seq::filter);
            }
            assert(location_models(kept@) =~= Seq::<LocationEntryModel>::empty());
        }
        while i < n
            invariant
                0 <= i <= n,
                n == self.locations.len(),
                self@.locations == old(self)@.locations,
                self.online_locations@ == old(self).online_locations@,
                self.ignored_paths@ == old(self).ignored_paths@,
                location_models(kept@) == self@.locations.subrange(0, i as int).filter(pred),
            decreases n - i,
        {
            let ghost pre = self@.locations.subrange(0, i as int);
            let ghost cur = self@.locations[i as int];
            proof {
                assert(cur == self.locations@[i as int]@);
                assert(self@.locations.subrange(0, i as int + 1) =~= pre.push(cur));
                pre.lemma_filter_push(cur, pred);
            }
            if !(self.locations[i].pub_id == pub_id) {
                let e = &self.locations[i];
                let ghost kept_pre = kept@;
                kept.push(LocationEntry { pub_id: e.pub_id, root_path: e.root_path.clone() });
                proof {
                    assert(kept@[kept@.len() - 1]@ == cur);
                    assert(location_models(kept@) =~= location_models(kept_pre).push(cur));
                }
            }
            i += 1;
        }
        proof {
            assert(self@.locations.subrange(0, n as int) =~= self@.locations);
        }
        self.locations = kept;
        let ghost ipred = |pr: (LocationPubId, Seq<char>)| pr.0 != pub_id;
        let m = self.ignored_paths.len();
        let mut ikept: Vec<IgnoredPath> = Vec::new();
        let mut j: usize = 0;
        proof {
            assert(ignored_models(self.ignored_paths@).subrange(0, 0) =~= Seq::<
                (LocationPubId, Seq<char>),
            >::empty());
            assert(Seq::<(LocationPubId, Seq<char>)>::empty().filter(ipred) =~= Seq::<
                (LocationPubId, Seq<char>),
            >::empty()) by {
                reveal(Seq::filter);
            }
            assert(ignored_models(ikept@) =~= Seq::<(LocationPubId, Seq<char>)>::empty());
        }
        while j < m
            invariant
                0 <= j <= m,
                m == self.ignored_paths.len(),
                self.ignored_paths@ == old(self).ignored_paths@,
                ignored_models(ikept@) == ignored_models(self.ignored_paths@).subrange(
                    0,
                    j as int,
                ).filter(ipred),
            decreases m - j,
        {
            let ghost ims = ignored_models(self.ignored_paths@);
            let ghost pre = ims.subrange(0, j as int);
            let ghost cur = ims[j as int];
            proof {
                assert(cur == self.ignored_paths@[j as int]@);
                assert(ims.subrange(0, j as int + 1) =~= pre.push(cur));
                pre.lemma_filter_push(cur, ipred);
            }
            if !(self.ignored_paths[j].pub_id == pub_id) {
                let e = &self.ignored_paths[j];
                let ghost ikept_pre = ikept@;
                ikept.push(IgnoredPath { pub_id: e.pub_id, path: e.path.clone() });
                proof {
                    assert(ikept@[ikept@.len() - 1]@ == cur);
                    assert(ignored_models(ikept@) =~= ignored_models(ikept_pre).push(cur));
                }
            }
            j += 1;
        }
        proof {
            assert(ignored_models(self.ignored_paths@).subrange(0, m as int) =~= ignored_models(
                self.ignored_paths@,
            ));
        }
        self.ignored_paths = ikept;
        proof {
            lemma_filter_membership(ignored_models(old(self).ignored_paths@), ipred);
            assert(self@.ignored =~= old(self)@.ignored.filter(ipred));
            if distinct_locations(old(self)@.locations) {
                lemma_location_filter_distinct(old(self)@.locations, pred);
            }
        }
        self.remove_online(pub_id);
    }

    /// The identifiers of every registered location, in registration order.
    #[verifier::loop_isolation(false)]
    pub fn location_ids(&self) -> (r: Vec<LocationPubId>)
        ensures
            r@ == self@.locations.map_values(|e: LocationEntryModel| e.pub_id),
    {
        let n = self.locations.len();
        let mut ids: Vec<LocationPubId> = Vec::new();
        let mut i: usize = 0;
        proof {
            assert(ids@ =~= self@.locations.subrange(0, 0).map_values(
                |e: LocationEntryModel| e.pub_id,
            ));
        }
        while i < n
            invariant
                0 <= i <= n,
                n == self.locations.len(),
                ids@ == self@.locations.subrange(0, i as int).map_values(
                    |e: LocationEntryModel| e.pub_id,
                ),
            decreases n - i,
        {
            ids.push(self.locations[i].pub_id);
            proof {
                assert(self@.locations[i as int] == self.locations@[i as int]@);
                assert(ids@ =~= self@.locations.subrange(0, i as int + 1).map_values(
                    |e: LocationEntryModel| e.pub_id,
                ));
            }
            i += 1;
        }
        proof {
            assert(self@.locations.subrange(0, n as int) =~= self@.locations);
        }
        ids
    }

    /// The root path under which location `pub_id` is registered.
    #[verifier::loop_isolation(false)]
    pub fn location_root(&self, pub_id: LocationPubId) -> (r: Option<String>)
        ensures
            (r is Some) == locations_contain(self@.locations, pub_id),
            (r matches Some(p) ==> exists|i: int|
                0 <= i < self@.locations.len() && (#[trigger] self@.locations[i]).pub_id == pub_id
                    && self@.locations[i].root_path == p@),
    {
        let n = self.locations.len();
        let mut i: usize = 0;
        while i < n
            invariant
                0 <= i <= n,
                n == self.locations.len(),
                forall|k: int| 0 <= k < i ==> (#[trigger] self@.locations[k]).pub_id != pub_id,
            decreases n - i,
        {
            proof {
                assert(self@.locations[i as int] == self.locations@[i as int]@);
            }
            if self.locations[i].pub_id == pub_id {
                let r = Some(self.locations[i].root_path.clone());
                proof {
                    assert(self@.locations[i as int].pub_id == pub_id);
                }
                return r;
            }
            i += 1;
        }
        proof {
            if locations_contain(self@.locations, pub_id) {
                let w = choose|w: int|
                    0 <= w < self@.locations.len() && self@.locations[w].pub_id == pub_id;
            }
        }
        None
    }

    /// Whether `path` is currently suppressed for location `pub_id`.
    #[verifier::loop_isolation(false)]
    pub fn is_ignored(&self, pub_id: LocationPubId, path: &String) -> (r: bool)
        ensures
            r == self@.ignored.contains((pub_id, path@)),
    {
        let n = self.ignored_paths.len();
        let mut i: usize = 0;
        while i < n
            invariant
                0 <= i <= n,
                n == self.ignored_paths.len(),
                forall|k: int|
                    0 <= k < i ==> (#[trigger] self.ignored_paths@[k])@ != (pub_id, path@),
            decreases n - i,
        {
            let e = &self.ignored_paths[i];
            if e.pub_id == pub_id && e.path == *path {
                proof {
                    assert(ignored_models(self.ignored_paths@)[i as int] == (pub_id, path@));
                    assert(ignored_models(self.ignored_paths@).contains((pub_id, path@)));
                }
                return true;
            }
            i += 1;
        }
        proof {
            if ignored_models(self.ignored_paths@).contains((pub_id, path@)) {
                let w = choose|w: int|
                    0 <= w < ignored_models(self.ignored_paths@).len() && ignored_models(
                        self.ignored_paths@,
                    )[w] == (pub_id, path@);
                assert(self.ignored_paths@[w]@ == (pub_id, path@));
            }
        }
        false
    }

    /// Suppress or release filesystem-event traffic for one path of one
    /// location.
    #[verifier::loop_isolation(false)]
    pub fn set_ignore(&mut self, pub_id: LocationPubId, path: String, ignore: bool)
        ensures
            final(self)@.ignored == if ignore {
                old(self)@.ignored.insert((pub_id, path@))
            } else {
                old(self)@.ignored.remove((pub_id, path@))
            },
            final(self)@.locations == old(self)@.locations,
            final(self)@.online == old(self)@.online,
            old(self).wf() ==> final(self).wf(),
    {
        if ignore {
            if !self.is_ignored(pub_id, &path) {
                self.ignored_paths.push(IgnoredPath { pub_id, path });
                proof {
                    assert(ignored_models(self.ignored_paths@) =~= ignored_models(
                        old(self).ignored_paths@,
                    ).push((pub_id, path@)));
                    assert(self@.ignored =~= old(self)@.ignored.insert((pub_id, path@)));
                }
            } else {
                proof {
                    assert(self@.ignored =~= old(self)@.ignored.insert((pub_id, path@)));
                }
            }
        } else {
            let ghost ipred = |pr: (LocationPubId, Seq<char>)| pr != (pub_id, path@);
            let m = self.ignored_paths.len();
            let mut ikept: Vec<IgnoredPath> = Vec::new();
            let mut j: usize = 0;
            proof {
                assert(ignored_models(self.ignored_paths@).subrange(0, 0) =~= Seq::<
                    (LocationPubId, Seq<char>),
                >::empty());
                assert(Seq::<(LocationPubId, Seq<char>)>::empty().filter(ipred) =~= Seq::<
                    (LocationPubId, Seq<char>),
                >::empty()) by {
                    reveal(Seq::filter);
                }
                assert(ignored_models(ikept@) =~= Seq::<(LocationPubId, Seq<char>)>::empty());
            }
            while j < m
                invariant
                    0 <= j <= m,
                    m == self.ignored_paths.len(),
                    self.ignored_paths@ == old(self).ignored_paths@,
                    self.locations@ == old(self).locations@,
                    self.online_locations@ == old(self).online_locations@,
                    ignored_models(ikept@) == ignored_models(self.ignored_paths@).subrange(
                        0,
                        j as int,
                    ).filter(ipred),
                decreases m - j,
            {
                let ghost ims = ignored_models(self.ignored_paths@);
                let ghost pre = ims.subrange(0, j as int);
                let ghost cur = ims[j as int];
                proof {
                    assert(cur == self.ignored_paths@[j as int]@);
                    assert(ims.subrange(0, j as int + 1) =~= pre.push(cur));
                    pre.lemma_filter_push(cur, ipred);
                }
                let e = &self.ignored_paths[j];
                if e.pub_id == pub_id && e.path == path {
                    proof {
                        assert(cur == (pub_id, path@));
                    }
                } else {
                    let ghost ikept_pre = ikept@;
                    ikept.push(IgnoredPath { pub_id: e.pub_id, path: e.path.clone() });
                    proof {
                        assert(cur != (pub_id, path@));
                        assert(ikept@[ikept@.len() - 1]@ == cur);
                        assert(ignored_models(ikept@) =~= ignored_models(ikept_pre).push(cur));
                    }
                }
                j += 1;
            }
            proof {
                assert(ignored_models(self.ignored_paths@).subrange(0, m as int)
                    =~= ignored_models(self.ignored_paths@));
            }
            self.ignored_paths = ikept;
            proof {
                lemma_filter_membership(ignored_models(old(self).ignored_paths@), ipred);
                assert(self@.ignored =~= old(self)@.ignored.remove((pub_id, path@)));
            }
        }
    }

    /// Whether every path of `paths` is suppressed for location `pub_id`;
    /// raw traffic mentioning only suppressed paths is rejected.
    #[verifier::loop_isolation(false)]
    pub fn rejects(&self, pub_id: LocationPubId, paths: &Vec<String>) -> (r: bool)
        ensures
            r == all_ignored(self@, pub_id, paths.deep_view()),
    {
        let n = paths.len();
        let mut i: usize = 0;
        while i < n
            invariant
                0 <= i <= n,
                n == paths.len(),
                forall|k: int|
                    0 <= k < i ==> self@.ignored.contains(
                        (pub_id, #[trigger] paths.deep_view()[k]),
                    ),
            decreases n - i,
        {
            if !self.is_ignored(pub_id, &paths[i]) {
                proof {
                    assert(paths.deep_view()[i as int] == paths@[i as int]@);
                }
                return false;
            }
            proof {
                assert(paths.deep_view()[i as int] == paths@[i as int]@);
            }
            i += 1;
        }
        true
    }

    /// The event-accept gate: a canonical event is forwarded to the external
    /// consumer only when it is not rejected by ignore arbitration and its
    /// location is currently online.
    pub fn gate_event(&self, ev: &WatcherEvent) -> (forward: bool)
        ensures
            forward == accepts(self@, ev@.location_pub_id, event_paths(ev@.kind)),
    {
        let paths = ev.paths();
        if self.rejects(ev.location_pub_id, &paths) {
            return false;
        }
        self.is_online(ev.location_pub_id)
    }
}

/// Whether the supervisor restarts an ended inner loop: yes, unless
/// cancellation was requested.
pub fn restart_after_loop_exit(cancelled: bool) -> (restart: bool)
    ensures
        restart == restart_policy(cancelled),
{
    !cancelled
}

/// Filtering keeps location identifiers distinct.
proof fn lemma_location_filter_distinct(
    s: Seq<LocationEntryModel>,
    pred: spec_fn(LocationEntryModel) -> bool,
)
    requires
        distinct_locations(s),
    ensures
        distinct_locations(s.filter(pred)),
    decreases s.len(),
{
    reveal(Seq::filter);
    if s.len() != 0 {
        assert(distinct_locations(s.drop_last()));
        lemma_location_filter_distinct(s.drop_last(), pred);
        if pred(s.last()) {
            let sub = s.drop_last().filter(pred);
            lemma_filter_membership(s.drop_last(), pred);
            let out = sub.push(s.last());
            assert forall|i: int, j: int|
                0 <= i < j < out.len() implies out[i].pub_id != out[j].pub_id by {
                if j == sub.len() {
                    assert(sub.contains(sub[i]));
                    let w = choose|w: int|
                        0 <= w < s.drop_last().len() && s.drop_last()[w] == sub[i];
                    assert(s[w] == sub[i]);
                    assert(s[w].pub_id != s[s.len() - 1].pub_id);
                }
            }
        }
    }
}

/// Events for a location whose identifier is absent from the online set are
/// never forwarded, whatever paths they mention and whatever the ignore
/// registry holds.
pub proof fn lemma_offline_never_forwarded(
    m: ManagerModel,
    id: LocationPubId,
    paths: Seq<Seq<char>>,
)
    requires
        !m.online.contains(id),
    ensures
        !accepts(m, id, paths),
{
}

/// The restart property: an inner loop that ends while cancellation has not
/// been requested is restarted; once cancellation was requested, it is not.
pub proof fn lemma_restart_exactly_unless_cancelled()
    ensures
        restart_policy(false),
        !restart_policy(true),
{
}

} // verus!
