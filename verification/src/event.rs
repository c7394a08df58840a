//! The canonical event model: the platform-independent vocabulary that every
//! platform handler must produce, together with the raw-signal vocabulary the
//! handlers consume.
//!
//! Paths are carried as plain `String`s; the surrounding runtime converts
//! native path values at the boundary.

use vstd::prelude::*;

verus! {

/// Opaque unique identifier of a watched location.
#[derive(Debug, Clone, Copy, PartialEq, Eq, Structural)]
pub struct LocationPubId {
    pub bits: u128,
}

impl LocationPubId {
    pub fn new(bits: u128) -> (r: Self)
        ensures
            r.bits == bits,
    {
        LocationPubId { bits }
    }
}

/// The canonical kind of a filesystem change.
#[derive(Debug, Clone, PartialEq, Eq)]
pub enum EventKind {
    Create(String),
    Update(String),
    Rename { from: String, to: String },
    Delete(String),
}

/// Mathematical model of an [`EventKind`]: the same shape over character
/// sequences.
pub enum EventKindModel {
    Create(Seq<char>),
    Update(Seq<char>),
    Rename { from: Seq<char>, to: Seq<char> },
    Delete(Seq<char>),
}

impl View for EventKind {
    type V = EventKindModel;

    open spec fn view(&self) -> EventKindModel {
        match self {
            EventKind::Create(p) => EventKindModel::Create(p@),
            EventKind::Update(p) => EventKindModel::Update(p@),
            EventKind::Rename { from, to } => EventKindModel::Rename {
                from: from@,
                to: to@,
            },
            EventKind::Delete(p) => EventKindModel::Delete(p@),
        }
    }
}

/// One canonical event, tagged with the location it belongs to.
#[derive(Debug, Clone, PartialEq, Eq)]
pub struct WatcherEvent {
    pub location_pub_id: LocationPubId,
    pub kind: EventKind,
}

/// Mathematical model of a [`WatcherEvent`].
pub struct WatcherEventModel {
    pub location_pub_id: LocationPubId,
    pub kind: EventKindModel,
}

impl View for WatcherEvent {
    type V = WatcherEventModel;

    open spec fn view(&self) -> WatcherEventModel {
        WatcherEventModel { location_pub_id: self.location_pub_id, kind: self.kind@ }
    }
}

/// The models of a sequence of emitted events.
pub open spec fn events_model(out: Seq<WatcherEvent>) -> Seq<WatcherEventModel> {
    out.map_values(|e: WatcherEvent| e@)
}

/// A raw native signal, already translated out of the platform backend's own
/// types into plain values. Each platform handler understands the variants its
/// backend can produce and ignores the rest.
#[derive(Debug, Clone, PartialEq, Eq)]
pub enum RawEvent {
    /// A file appeared (backends that distinguish files from folders).
    CreatedFile(String),
    /// A folder appeared (backends that distinguish files from folders).
    CreatedFolder(String),
    /// Something appeared (backends that do not distinguish).
    Created(String),
    /// Content or metadata changed.
    Modified(String),
    /// A file opened for writing was closed.
    CloseWrite(String),
    /// First half of a rename pair: the path something was renamed away from.
    RenameFrom(String),
    /// Second half of a rename pair: the path something was renamed to.
    RenameTo(String),
    /// A fully correlated rename delivered as one signal.
    RenameBoth { from: String, to: String },
    /// A symmetric, path-only rename signal. `present` says whether the path
    /// currently exists; `identity` is the `(inode, device)` pair reported by
    /// the external arbiter, when it knows one.
    RenameAny { path: String, present: bool, identity: Option<(u64, u64)> },
    /// Something was removed.
    Removed(String),
    /// Any other signal; always ignored.
    Other,
}

/// Mathematical model of a [`RawEvent`].
pub enum RawEventModel {
    CreatedFile(Seq<char>),
    CreatedFolder(Seq<char>),
    Created(Seq<char>),
    Modified(Seq<char>),
    CloseWrite(Seq<char>),
    RenameFrom(Seq<char>),
    RenameTo(Seq<char>),
    RenameBoth { from: Seq<char>, to: Seq<char> },
    RenameAny { path: Seq<char>, present: bool, identity: Option<(u64, u64)> },
    Removed(Seq<char>),
    Other,
}

impl View for RawEvent {
    type V = RawEventModel;

    open spec fn view(&self) -> RawEventModel {
        match self {
            RawEvent::CreatedFile(p) => RawEventModel::CreatedFile(p@),
            RawEvent::CreatedFolder(p) => RawEventModel::CreatedFolder(p@),
            RawEvent::Created(p) => RawEventModel::Created(p@),
            RawEvent::Modified(p) => RawEventModel::Modified(p@),
            RawEvent::CloseWrite(p) => RawEventModel::CloseWrite(p@),
            RawEvent::RenameFrom(p) => RawEventModel::RenameFrom(p@),
            RawEvent::RenameTo(p) => RawEventModel::RenameTo(p@),
            RawEvent::RenameBoth { from, to } => RawEventModel::RenameBoth {
                from: from@,
                to: to@,
            },
            RawEvent::RenameAny { path, present, identity } => RawEventModel::RenameAny {
                path: path@,
                present: *present,
                identity: *identity,
            },
            RawEvent::Removed(p) => RawEventModel::Removed(p@),
            RawEvent::Other => RawEventModel::Other,
        }
    }
}

/// The paths a canonical event mentions, in order.
pub open spec fn event_paths(kind: EventKindModel) -> Seq<Seq<char>> {
    match kind {
        EventKindModel::Create(p) => seq![p],
        EventKindModel::Update(p) => seq![p],
        EventKindModel::Rename { from, to } => seq![from, to],
        EventKindModel::Delete(p) => seq![p],
    }
}

impl WatcherEvent {
    /// The paths this event mentions, in order.
    pub fn paths(&self) -> (r: Vec<String>)
        ensures
            r.deep_view() == event_paths(self@.kind),
    {
        match &self.kind {
            EventKind::Create(p) => vec![p.clone()],
            EventKind::Update(p) => vec![p.clone()],
            EventKind::Rename { from, to } => vec![from.clone(), to.clone()],
            EventKind::Delete(p) => vec![p.clone()],
        }
    }
}

/// The correlation window, in milliseconds: the longest time two raw signals
/// may lie apart and still be treated as two halves of one logical operation.
pub const HUNDRED_MILLIS: u64 = 100;

/// One canonical event for location `id`.
pub open spec fn emit(id: LocationPubId, kind: EventKindModel) -> WatcherEventModel {
    WatcherEventModel { location_pub_id: id, kind }
}

pub proof fn lemma_events_model_push(v: Seq<WatcherEvent>, e: WatcherEvent)
    ensures
        events_model(v.push(e)) == events_model(v).push(e@),
{
    assert(events_model(v.push(e)) =~= events_model(v).push(e@));
}

/// `Delete` events for each path, in order.
pub(crate) fn deletes_for(id: LocationPubId, paths: Vec<String>) -> (out: Vec<WatcherEvent>)
    ensures
        events_model(out@) == paths.deep_view().map_values(
            |p: Seq<char>| emit(id, EventKindModel::Delete(p)),
        ),
{
    let ghost to_delete = |p: Seq<char>| emit(id, EventKindModel::Delete(p));
    let mut out: Vec<WatcherEvent> = Vec::new();
    let n = paths.len();
    let mut i: usize = 0;
    proof {
        assert(events_model(out@) =~= Seq::<WatcherEventModel>::empty());
        assert(paths.deep_view().subrange(0, 0) =~= Seq::<Seq<char>>::empty());
        assert(Seq::<Seq<char>>::empty().map_values(to_delete) =~= Seq::<
            WatcherEventModel,
        >::empty());
    }
    #[verifier::loop_isolation(false)]
    while i < n
        invariant
            0 <= i <= n,
            n == paths.len(),
            events_model(out@) == paths.deep_view().subrange(0, i as int).map_values(to_delete),
        decreases n - i,
    {
        let ghost out_pre = out@;
        out.push(WatcherEvent { location_pub_id: id, kind: EventKind::Delete(paths[i].clone()) });
        proof {
            lemma_events_model_push(out_pre, out@[out@.len() - 1]);
            assert(out@[out@.len() - 1]@ == to_delete(paths.deep_view()[i as int]));
            assert(paths.deep_view().subrange(0, i as int + 1) =~= paths.deep_view().subrange(
                0,
                i as int,
            ).push(paths.deep_view()[i as int]));
            assert(paths.deep_view().subrange(0, i as int + 1).map_values(to_delete) =~= paths
                .deep_view().subrange(0, i as int).map_values(to_delete).push(
                to_delete(paths.deep_view()[i as int]),
            ));
        }
        i += 1;
    }
    proof {
        assert(paths.deep_view().subrange(0, n as int) =~= paths.deep_view());
    }
    out
}

/// `Create` events for each path, in order.
pub(crate) fn creates_for(id: LocationPubId, paths: Vec<String>) -> (out: Vec<WatcherEvent>)
    ensures
        events_model(out@) == paths.deep_view().map_values(
            |p: Seq<char>| emit(id, EventKindModel::Create(p)),
        ),
{
    let ghost to_create = |p: Seq<char>| emit(id, EventKindModel::Create(p));
    let mut out: Vec<WatcherEvent> = Vec::new();
    let n = paths.len();
    let mut i: usize = 0;
    proof {
        assert(events_model(out@) =~= Seq::<WatcherEventModel>::empty());
        assert(paths.deep_view().subrange(0, 0) =~= Seq::<Seq<char>>::empty());
        assert(Seq::<Seq<char>>::empty().map_values(to_create) =~= Seq::<
            WatcherEventModel,
        >::empty());
    }
    #[verifier::loop_isolation(false)]
    while i < n
        invariant
            0 <= i <= n,
            n == paths.len(),
            events_model(out@) == paths.deep_view().subrange(0, i as int).map_values(to_create),
        decreases n - i,
    {
        let ghost out_pre = out@;
        out.push(WatcherEvent { location_pub_id: id, kind: EventKind::Create(paths[i].clone()) });
        proof {
            lemma_events_model_push(out_pre, out@[out@.len() - 1]);
            assert(out@[out@.len() - 1]@ == to_create(paths.deep_view()[i as int]));
            assert(paths.deep_view().subrange(0, i as int + 1) =~= paths.deep_view().subrange(
                0,
                i as int,
            ).push(paths.deep_view()[i as int]));
            assert(paths.deep_view().subrange(0, i as int + 1).map_values(to_create) =~= paths
                .deep_view().subrange(0, i as int).map_values(to_create).push(
                to_create(paths.deep_view()[i as int]),
            ));
        }
        i += 1;
    }
    proof {
        assert(paths.deep_view().subrange(0, n as int) =~= paths.deep_view());
    }
    out
}

} // verus!
