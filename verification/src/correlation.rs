//! Pending correlation records.
//!
//! Platform handlers remember, for a bounded window, which paths (or which
//! `(inode, device)` identities) are awaiting the second half of a two-signal
//! operation. A record is a path (or identity) plus the millisecond timestamp
//! at which it was observed; the tables are kept in insertion order and each
//! key occurs at most once.

use vstd::prelude::*;

verus! {

broadcast use vstd::seq_lib::group_seq_properties;

/// One pending path with the millisecond timestamp at which it was recorded.
#[derive(Debug)]
pub struct PathStamp {
    pub path: String,
    pub stamp: u64,
}

/// Mathematical model of a [`PathStamp`].
pub struct PathStampModel {
    pub path: Seq<char>,
    pub stamp: u64,
}

impl View for PathStamp {
    type V = PathStampModel;

    open spec fn view(&self) -> PathStampModel {
        PathStampModel { path: self.path@, stamp: self.stamp }
    }
}

/// The models of a sequence of entries.
pub open spec fn path_models(v: Seq<PathStamp>) -> Seq<PathStampModel> {
    v.map_values(|e: PathStamp| e@)
}

proof fn lemma_path_models_push(v: Seq<PathStamp>, e: PathStamp)
    ensures
        path_models(v.push(e)) == path_models(v).push(e@),
{
    assert(path_models(v.push(e)) =~= path_models(v).push(e@));
}

/// True when `s` holds an entry for path `p`.
pub open spec fn table_contains(s: Seq<PathStampModel>, p: Seq<char>) -> bool {
    exists|i: int| 0 <= i < s.len() && s[i].path == p
}

/// True when no path occurs twice in `s`.
pub open spec fn distinct_paths(s: Seq<PathStampModel>) -> bool {
    forall|i: int, j: int| 0 <= i < j < s.len() ==> s[i].path != s[j].path
}

/// True when every timestamp in `s` is at or before `now`.
pub open spec fn stamps_le(s: Seq<PathStampModel>, now: u64) -> bool {
    forall|i: int| 0 <= i < s.len() ==> s[i].stamp <= now
}

/// `s` with every entry for path `p` removed.
pub open spec fn without_path(s: Seq<PathStampModel>, p: Seq<char>) -> Seq<PathStampModel> {
    s.filter(|e: PathStampModel| e.path != p)
}

/// The entries of `s` whose age at `now` is under the window.
pub open spec fn fresh_entries(s: Seq<PathStampModel>, now: u64, window: u64) -> Seq<
    PathStampModel,
> {
    s.filter(|e: PathStampModel| now - e.stamp < window)
}

/// The entries of `s` whose age at `now` is at most the window.
pub open spec fn kept_entries(s: Seq<PathStampModel>, now: u64, window: u64) -> Seq<
    PathStampModel,
> {
    s.filter(|e: PathStampModel| now - e.stamp <= window)
}

/// The paths of the entries of `s` whose age at `now` exceeds the window.
pub open spec fn stale_paths(s: Seq<PathStampModel>, now: u64, window: u64) -> Seq<Seq<char>> {
    s.filter(|e: PathStampModel| now - e.stamp > window).map_values(|e: PathStampModel| e.path)
}


/// Everything a filter keeps was already in the sequence.
proof fn lemma_filter_subset(s: Seq<PathStampModel>, pred: spec_fn(PathStampModel) -> bool)
    ensures
        forall|x: PathStampModel| #[trigger] s.filter(pred).contains(x) ==> s.contains(x),
    decreases s.len(),
{
    reveal(Seq::filter);
    if s.len() != 0 {
        lemma_filter_subset(s.drop_last(), pred);
        assert forall|x: PathStampModel| #[trigger]
            s.filter(pred).contains(x) implies s.contains(x) by {
            if s.drop_last().filter(pred).contains(x) {
                let w = choose|w: int| 0 <= w < s.drop_last().len() && s.drop_last()[w] == x;
                assert(s[w] == x);
            } else {
                assert(s[s.len() - 1] == x);
            }
        }
    }
}

/// Filtering keeps paths distinct.
proof fn lemma_filter_distinct(s: Seq<PathStampModel>, pred: spec_fn(PathStampModel) -> bool)
    requires
        distinct_paths(s),
    ensures
        distinct_paths(s.filter(pred)),
    decreases s.len(),
{
    reveal(Seq::filter);
    if s.len() != 0 {
        assert(distinct_paths(s.drop_last()));
        lemma_filter_distinct(s.drop_last(), pred);
        if pred(s.last()) {
            let sub = s.drop_last().filter(pred);
            lemma_filter_subset(s.drop_last(), pred);
            let out = sub.push(s.last());
            assert forall|i: int, j: int|
                0 <= i < j < out.len() implies out[i].path != out[j].path by {
                if j == sub.len() {
                    assert(sub.contains(sub[i]));
                    let w = choose|w: int|
                        0 <= w < s.drop_last().len() && s.drop_last()[w] == sub[i];
                    assert(s[w] == sub[i]);
                    assert(s[w].path != s[s.len() - 1].path);
                }
            }
        }
    }
}

/// Filtering keeps every timestamp bound.
proof fn lemma_filter_stamps(s: Seq<PathStampModel>, pred: spec_fn(PathStampModel) -> bool)
    ensures
        forall|n: u64| stamps_le(s, n) ==> stamps_le(s.filter(pred), n),
{
    assert forall|n: u64| stamps_le(s, n) implies stamps_le(s.filter(pred), n) by {
        lemma_filter_subset(s, pred);
        assert forall|i: int|
            0 <= i < s.filter(pred).len() implies s.filter(pred)[i].stamp <= n by {
            assert(s.filter(pred).contains(s.filter(pred)[i]));
            let w = choose|w: int| 0 <= w < s.len() && s[w] == s.filter(pred)[i];
        }
    }
}

/// Every entry kept by a filter satisfies its predicate.
proof fn lemma_filter_pred_holds(s: Seq<PathStampModel>, pred: spec_fn(PathStampModel) -> bool)
    ensures
        forall|i: int| 0 <= i < s.filter(pred).len() ==> pred(#[trigger] s.filter(pred)[i]),
{
    broadcast use vstd::seq_lib::group_filter_ensures;

}

/// Path -> timestamp records in insertion order, each path at most once.
pub struct PathTable {
    entries: Vec<PathStamp>,
}

impl View for PathTable {
    type V = Seq<PathStampModel>;

    closed spec fn view(&self) -> Seq<PathStampModel> {
        path_models(self.entries@)
    }
}

impl PathTable {
    /// Every path in the table is distinct.
    pub open spec fn wf(&self) -> bool {
        distinct_paths(self@)
    }

    pub fn new() -> (r: Self)
        ensures
            r@ == Seq::<PathStampModel>::empty(),
            r.wf(),
    {
        let r = PathTable { entries: Vec::new() };
        proof {
            assert(r@ =~= Seq::<PathStampModel>::empty());
        }
        r
    }

    /// Whether an entry for `p` is pending.
    pub fn contains_path(&self, p: &String) -> (r: bool)
        ensures
            r == table_contains(self@, p@),
    {
        let n = self.entries.len();
        let mut i: usize = 0;
        while i < n
            invariant
                0 <= i <= n,
                n == self.entries.len(),
                forall|k: int| 0 <= k < i ==> self@[k].path != p@,
            decreases n - i,
        {
            proof {
                assert(self@[i as int] == self.entries@[i as int]@);
            }
            if self.entries[i].path == *p {
                proof {
                    assert(self@[i as int].path == p@);
                }
                return true;
            }
            i += 1;
        }
        false
    }

    /// Remove every entry for `p`; reports whether one was pending.
    #[verifier::loop_isolation(false)]
    pub fn remove_path(&mut self, p: &String) -> (found: bool)
        ensures
            final(self)@ == without_path(old(self)@, p@),
            found == table_contains(old(self)@, p@),
            old(self).wf() ==> final(self).wf(),
            forall|n: u64| stamps_le(old(self)@, n) ==> stamps_le(final(self)@, n),
    {
        let ghost pred = |e: PathStampModel| e.path != p@;
        let n = self.entries.len();
        let mut kept: Vec<PathStamp> = Vec::new();
        let mut found = false;
        let mut i: usize = 0;
        proof {
            assert(self@.subrange(0, 0) =~= Seq::<PathStampModel>::empty());
            assert(path_models(kept@) =~= Seq::<PathStampModel>::empty());
            assert(Seq::<PathStampModel>::empty().filter(pred) =~= Seq::<
                PathStampModel,
            >::empty()) by {
                reveal(Seq::filter);
            }
        }
        while i < n
            invariant
                0 <= i <= n,
                n == self.entries.len(),
                self@ == old(self)@,
                path_models(kept@) == self@.subrange(0, i as int).filter(pred),
                found == table_contains(self@.subrange(0, i as int), p@),
            decreases n - i,
        {
            let ghost pre = self@.subrange(0, i as int);
            let ghost post = self@.subrange(0, i as int + 1);
            let ghost cur = self@[i as int];
            proof {
                assert(cur == self.entries@[i as int]@);
                assert(post =~= pre.push(cur));
                pre.lemma_filter_push(cur, pred);
            }
            if self.entries[i].path == *p {
                found = true;
                proof {
                    assert(cur.path == p@);
                    assert(table_contains(post, p@)) by {
                        assert(post[i as int] == cur);
                    }
                }
            } else {
                let e = &self.entries[i];
                let ghost kept_pre = kept@;
                kept.push(PathStamp { path: e.path.clone(), stamp: e.stamp });
                proof {
                    assert(cur.path != p@);
                    assert(kept@[kept@.len() - 1]@ == cur);
                    lemma_path_models_push(kept_pre, kept@[kept@.len() - 1]);
                    assert(path_models(kept@) == post.filter(pred));
                    assert(table_contains(post, p@) == table_contains(pre, p@)) by {
                        if table_contains(post, p@) {
                            let w = choose|w: int| 0 <= w < post.len() && post[w].path == p@;
                            assert(w != i as int);
                            assert(pre[w].path == p@);
                        } else if table_contains(pre, p@) {
                            let w = choose|w: int| 0 <= w < pre.len() && pre[w].path == p@;
                            assert(post[w].path == p@);
                        }
                    }
                }
            }
            i += 1;
        }
        proof {
            assert(self@.subrange(0, n as int) =~= self@);
        }
        self.entries = kept;
        proof {
            if distinct_paths(old(self)@) {
                lemma_filter_distinct(old(self)@, pred);
            }
            lemma_filter_stamps(old(self)@, pred);
        }
        found
    }

    /// Record `p` at `stamp`, replacing any pending entry for `p`.
    pub fn upsert(&mut self, p: String, stamp: u64)
        ensures
            final(self)@ == without_path(old(self)@, p@).push(PathStampModel { path: p@, stamp }),
            old(self).wf() ==> final(self).wf(),
            forall|n: u64| stamps_le(old(self)@, n) && stamp <= n ==> stamps_le(final(self)@, n),
    {
        let ghost p_view = p@;
        self.remove_path(&p);
        let ghost mid = self@;
        let e = PathStamp { path: p, stamp };
        proof {
            assert(e@ == PathStampModel { path: p_view, stamp });
        }
        self.entries.push(e);
        proof {
            lemma_path_models_push(old(self).entries@.subrange(0, 0), e);
            assert(self@ =~= mid.push(PathStampModel { path: p_view, stamp }));
            if distinct_paths(old(self)@) {
                lemma_filter_pred_holds(old(self)@, |q: PathStampModel| q.path != p_view);
                assert(distinct_paths(self@)) by {
                    assert(forall|k: int|
                        0 <= k < mid.len() ==> (#[trigger] mid[k]).path != p_view);
                }
            }
        }
    }

    /// Drop every entry whose age at `now` has reached the window.
    #[verifier::loop_isolation(false)]
    pub fn retain_fresh(&mut self, now: u64, window: u64)
        requires
            stamps_le(old(self)@, now),
        ensures
            final(self)@ == fresh_entries(old(self)@, now, window),
            old(self).wf() ==> final(self).wf(),
            forall|n: u64| stamps_le(old(self)@, n) ==> stamps_le(final(self)@, n),
    {
        let ghost pred = |e: PathStampModel| now - e.stamp < window;
        let n = self.entries.len();
        let mut kept: Vec<PathStamp> = Vec::new();
        let mut i: usize = 0;
        proof {
            assert(self@.subrange(0, 0) =~= Seq::<PathStampModel>::empty());
            assert(path_models(kept@) =~= Seq::<PathStampModel>::empty());
            assert(Seq::<PathStampModel>::empty().filter(pred) =~= Seq::<
                PathStampModel,
            >::empty()) by {
                reveal(Seq::filter);
            }
        }
        while i < n
            invariant
                0 <= i <= n,
                n == self.entries.len(),
                self@ == old(self)@,
                stamps_le(self@, now),
                path_models(kept@) == self@.subrange(0, i as int).filter(pred),
            decreases n - i,
        {
            let ghost pre = self@.subrange(0, i as int);
            let ghost post = self@.subrange(0, i as int + 1);
            let ghost cur = self@[i as int];
            proof {
                assert(cur == self.entries@[i as int]@);
                assert(post =~= pre.push(cur));
                pre.lemma_filter_push(cur, pred);
            }
            let e = &self.entries[i];
            if now - e.stamp < window {
                let ghost kept_pre = kept@;
                kept.push(PathStamp { path: e.path.clone(), stamp: e.stamp });
                proof {
                    assert(kept@[kept@.len() - 1]@ == cur);
                    lemma_path_models_push(kept_pre, kept@[kept@.len() - 1]);
                }
            } else {
                proof {
                    assert(cur.stamp <= now);
                    assert(!pred(cur));
                }
            }
            i += 1;
        }
        proof {
            assert(self@.subrange(0, n as int) =~= self@);
        }
        self.entries = kept;
        proof {
            if distinct_paths(old(self)@) {
                lemma_filter_distinct(old(self)@, pred);
            }
            lemma_filter_stamps(old(self)@, pred);
        }
    }

    /// Drop every entry whose age at `now` exceeds the window and hand back the
    /// dropped paths in order.
    #[verifier::loop_isolation(false)]
    pub fn evict_stale(&mut self, now: u64, window: u64) -> (evicted: Vec<String>)
        requires
            stamps_le(old(self)@, now),
        ensures
            final(self)@ == kept_entries(old(self)@, now, window),
            evicted.deep_view() == stale_paths(old(self)@, now, window),
            old(self).wf() ==> final(self).wf(),
            forall|n: u64| stamps_le(old(self)@, n) ==> stamps_le(final(self)@, n),
    {
        let ghost keep_pred = |e: PathStampModel| now - e.stamp <= window;
        let ghost drop_pred = |e: PathStampModel| now - e.stamp > window;
        let ghost to_path = |e: PathStampModel| e.path;
        let n = self.entries.len();
        let mut kept: Vec<PathStamp> = Vec::new();
        let mut evicted: Vec<String> = Vec::new();
        let mut i: usize = 0;
        proof {
            assert(self@.subrange(0, 0) =~= Seq::<PathStampModel>::empty());
            assert(path_models(kept@) =~= Seq::<PathStampModel>::empty());
            assert(evicted.deep_view() =~= Seq::<Seq<char>>::empty());
            assert(Seq::<PathStampModel>::empty().filter(keep_pred) =~= Seq::<
                PathStampModel,
            >::empty()) by {
                reveal(Seq::filter);
            }
            assert(Seq::<PathStampModel>::empty().filter(drop_pred) =~= Seq::<
                PathStampModel,
            >::empty()) by {
                reveal(Seq::filter);
            }
            assert(Seq::<PathStampModel>::empty().filter(drop_pred).map_values(to_path) =~= Seq::<
                Seq<char>,
            >::empty());
        }
        while i < n
            invariant
                0 <= i <= n,
                n == self.entries.len(),
                self@ == old(self)@,
                stamps_le(self@, now),
                path_models(kept@) == self@.subrange(0, i as int).filter(keep_pred),
                evicted.deep_view() == self@.subrange(0, i as int).filter(drop_pred).map_values(
                    to_path,
                ),
            decreases n - i,
        {
            let ghost pre = self@.subrange(0, i as int);
            let ghost post = self@.subrange(0, i as int + 1);
            let ghost cur = self@[i as int];
            proof {
                assert(cur == self.entries@[i as int]@);
                assert(post =~= pre.push(cur));
                pre.lemma_filter_push(cur, keep_pred);
                pre.lemma_filter_push(cur, drop_pred);
            }
            let e = &self.entries[i];
            if now - e.stamp > window {
                let ghost ev_pre = evicted.deep_view();
                evicted.push(e.path.clone());
                proof {
                    assert(evicted@[evicted@.len() - 1]@ == cur.path);
                    assert(evicted.deep_view() =~= ev_pre.push(cur.path));
                    assert(post.filter(drop_pred).map_values(to_path) =~= pre.filter(
                        drop_pred,
                    ).map_values(to_path).push(cur.path));
                }
            } else {
                let ghost kept_pre = kept@;
                kept.push(PathStamp { path: e.path.clone(), stamp: e.stamp });
                proof {
                    assert(kept@[kept@.len() - 1]@ == cur);
                    lemma_path_models_push(kept_pre, kept@[kept@.len() - 1]);
                }
            }
            i += 1;
        }
        proof {
            assert(self@.subrange(0, n as int) =~= self@);
        }
        self.entries = kept;
        proof {
            if distinct_paths(old(self)@) {
                lemma_filter_distinct(old(self)@, keep_pred);
            }
            lemma_filter_stamps(old(self)@, keep_pred);
        }
        evicted
    }
}

/// Take the most recently recorded entry out of the table.
impl PathTable {
    pub fn pop_newest(&mut self) -> (r: Option<PathStamp>)
        ensures
            old(self)@.len() == 0 ==> (r is None && final(self)@ == old(self)@),
            old(self)@.len() > 0 ==> (r matches Some(e) && e@ == old(self)@.last()
                && final(self)@ == old(self)@.drop_last()),
            old(self).wf() ==> final(self).wf(),
            forall|n: u64| stamps_le(old(self)@, n) ==> stamps_le(final(self)@, n),
    {
        let r = self.entries.pop();
        proof {
            if old(self)@.len() > 0 {
                assert(self@ =~= old(self)@.drop_last());
            }
        }
        r
    }
}

/// One pending `(inode, device)` identity with the timestamp at which it was
/// observed and the path it was observed under.
#[derive(Debug)]
pub struct InodeStamp {
    pub ino: u64,
    pub dev: u64,
    pub stamp: u64,
    pub path: String,
}

/// Mathematical model of an [`InodeStamp`].
pub struct InodeStampModel {
    pub ino: u64,
    pub dev: u64,
    pub stamp: u64,
    pub path: Seq<char>,
}

impl View for InodeStamp {
    type V = InodeStampModel;

    open spec fn view(&self) -> InodeStampModel {
        InodeStampModel { ino: self.ino, dev: self.dev, stamp: self.stamp, path: self.path@ }
    }
}

/// The models of a sequence of identity entries.
pub open spec fn inode_models(v: Seq<InodeStamp>) -> Seq<InodeStampModel> {
    v.map_values(|e: InodeStamp| e@)
}

proof fn lemma_inode_models_push(v: Seq<InodeStamp>, e: InodeStamp)
    ensures
        inode_models(v.push(e)) == inode_models(v).push(e@),
{
    assert(inode_models(v.push(e)) =~= inode_models(v).push(e@));
}

/// True when `s` holds an entry for identity `(ino, dev)`.
pub open spec fn itable_contains(s: Seq<InodeStampModel>, ino: u64, dev: u64) -> bool {
    exists|i: int| 0 <= i < s.len() && s[i].ino == ino && s[i].dev == dev
}

/// True when no identity occurs twice in `s`.
pub open spec fn distinct_inodes(s: Seq<InodeStampModel>) -> bool {
    forall|i: int, j: int|
        0 <= i < j < s.len() ==> !(s[i].ino == s[j].ino && s[i].dev == s[j].dev)
}

/// True when every timestamp in `s` is at or before `now`.
pub open spec fn inode_stamps_le(s: Seq<InodeStampModel>, now: u64) -> bool {
    forall|i: int| 0 <= i < s.len() ==> s[i].stamp <= now
}

/// `s` with every entry for identity `(ino, dev)` removed.
pub open spec fn without_inode(s: Seq<InodeStampModel>, ino: u64, dev: u64) -> Seq<
    InodeStampModel,
> {
    s.filter(|e: InodeStampModel| !(e.ino == ino && e.dev == dev))
}

/// The entry of `s` for identity `(ino, dev)`, when one is pending; under
/// [`distinct_inodes`] there is at most one.
pub open spec fn inode_entry(s: Seq<InodeStampModel>, ino: u64, dev: u64) -> Option<
    InodeStampModel,
> {
    if itable_contains(s, ino, dev) {
        Some(s[choose|i: int| 0 <= i < s.len() && s[i].ino == ino && s[i].dev == dev])
    } else {
        None
    }
}

/// The entries of `s` whose age at `now` is at most the window.
pub open spec fn inode_kept_entries(s: Seq<InodeStampModel>, now: u64, window: u64) -> Seq<
    InodeStampModel,
> {
    s.filter(|e: InodeStampModel| now - e.stamp <= window)
}

/// The paths of the entries of `s` whose age at `now` exceeds the window.
pub open spec fn inode_stale_paths(s: Seq<InodeStampModel>, now: u64, window: u64) -> Seq<
    Seq<char>,
> {
    s.filter(|e: InodeStampModel| now - e.stamp > window).map_values(
        |e: InodeStampModel| e.path,
    )
}


/// Everything a filter keeps was already in the sequence.
proof fn lemma_ifilter_subset(s: Seq<InodeStampModel>, pred: spec_fn(InodeStampModel) -> bool)
    ensures
        forall|x: InodeStampModel| #[trigger] s.filter(pred).contains(x) ==> s.contains(x),
    decreases s.len(),
{
    reveal(Seq::filter);
    if s.len() != 0 {
        lemma_ifilter_subset(s.drop_last(), pred);
        assert forall|x: InodeStampModel| #[trigger]
            s.filter(pred).contains(x) implies s.contains(x) by {
            if s.drop_last().filter(pred).contains(x) {
                let w = choose|w: int| 0 <= w < s.drop_last().len() && s.drop_last()[w] == x;
                assert(s[w] == x);
            } else {
                assert(s[s.len() - 1] == x);
            }
        }
    }
}

/// Filtering keeps identities distinct.
proof fn lemma_ifilter_distinct(s: Seq<InodeStampModel>, pred: spec_fn(InodeStampModel) -> bool)
    requires
        distinct_inodes(s),
    ensures
        distinct_inodes(s.filter(pred)),
    decreases s.len(),
{
    reveal(Seq::filter);
    if s.len() != 0 {
        assert(distinct_inodes(s.drop_last()));
        lemma_ifilter_distinct(s.drop_last(), pred);
        if pred(s.last()) {
            let sub = s.drop_last().filter(pred);
            lemma_ifilter_subset(s.drop_last(), pred);
            let out = sub.push(s.last());
            assert forall|i: int, j: int|
                0 <= i < j < out.len() implies !(out[i].ino == out[j].ino && out[i].dev
                == out[j].dev) by {
                if j == sub.len() {
                    assert(sub.contains(sub[i]));
                    let w = choose|w: int|
                        0 <= w < s.drop_last().len() && s.drop_last()[w] == sub[i];
                    assert(s[w] == sub[i]);
                    assert(!(s[w].ino == s[s.len() - 1].ino && s[w].dev == s[s.len() - 1].dev));
                }
            }
        }
    }
}

/// Filtering keeps every timestamp bound.
proof fn lemma_ifilter_stamps(s: Seq<InodeStampModel>, pred: spec_fn(InodeStampModel) -> bool)
    ensures
        forall|n: u64| inode_stamps_le(s, n) ==> inode_stamps_le(s.filter(pred), n),
{
    assert forall|n: u64| inode_stamps_le(s, n) implies inode_stamps_le(s.filter(pred), n) by {
        lemma_ifilter_subset(s, pred);
        assert forall|i: int|
            0 <= i < s.filter(pred).len() implies s.filter(pred)[i].stamp <= n by {
            assert(s.filter(pred).contains(s.filter(pred)[i]));
            let w = choose|w: int| 0 <= w < s.len() && s[w] == s.filter(pred)[i];
        }
    }
}

/// Every entry kept by a filter satisfies its predicate.
proof fn lemma_ifilter_pred_holds(
    s: Seq<InodeStampModel>,
    pred: spec_fn(InodeStampModel) -> bool,
)
    ensures
        forall|i: int| 0 <= i < s.filter(pred).len() ==> pred(#[trigger] s.filter(pred)[i]),
{
    broadcast use vstd::seq_lib::group_filter_ensures;

}

/// `(inode, device)` -> (timestamp, path) records in insertion order, each
/// identity at most once.
pub struct InodeTable {
    entries: Vec<InodeStamp>,
}

impl View for InodeTable {
    type V = Seq<InodeStampModel>;

    closed spec fn view(&self) -> Seq<InodeStampModel> {
        inode_models(self.entries@)
    }
}

impl InodeTable {
    /// Every identity in the table is distinct.
    pub open spec fn wf(&self) -> bool {
        distinct_inodes(self@)
    }

    pub fn new() -> (r: Self)
        ensures
            r@ == Seq::<InodeStampModel>::empty(),
            r.wf(),
    {
        let r = InodeTable { entries: Vec::new() };
        proof {
            assert(r@ =~= Seq::<InodeStampModel>::empty());
        }
        r
    }

    /// Remove and return the pending entry for `(ino, dev)`, when one exists.
    #[verifier::loop_isolation(false)]
    pub fn take(&mut self, ino: u64, dev: u64) -> (r: Option<InodeStamp>)
        requires
            old(self).wf(),
        ensures
            final(self)@ == without_inode(old(self)@, ino, dev),
            (r is Some) == itable_contains(old(self)@, ino, dev),
            (r matches Some(e) ==> inode_entry(old(self)@, ino, dev) == Some(e@)),
            final(self).wf(),
            forall|n: u64| inode_stamps_le(old(self)@, n) ==> inode_stamps_le(final(self)@, n),
    {
        let ghost pred = |e: InodeStampModel| !(e.ino == ino && e.dev == dev);
        let n = self.entries.len();
        let mut kept: Vec<InodeStamp> = Vec::new();
        let mut r: Option<InodeStamp> = None;
        let mut i: usize = 0;
        proof {
            assert(self@.subrange(0, 0) =~= Seq::<InodeStampModel>::empty());
            assert(inode_models(kept@) =~= Seq::<InodeStampModel>::empty());
            assert(Seq::<InodeStampModel>::empty().filter(pred) =~= Seq::<
                InodeStampModel,
            >::empty()) by {
                reveal(Seq::filter);
            }
        }
        while i < n
            invariant
                0 <= i <= n,
                n == self.entries.len(),
                self@ == old(self)@,
                inode_models(kept@) == self@.subrange(0, i as int).filter(pred),
                match r {
                    Some(e) => exists|k: int|
                        0 <= k < i && self@[k] == e@ && e@.ino == ino && e@.dev == dev,
                    None => forall|k: int| 0 <= k < i ==> pred(#[trigger] self@[k]),
                },
            decreases n - i,
        {
            let ghost pre = self@.subrange(0, i as int);
            let ghost post = self@.subrange(0, i as int + 1);
            let ghost cur = self@[i as int];
            proof {
                assert(cur == self.entries@[i as int]@);
                assert(post =~= pre.push(cur));
                pre.lemma_filter_push(cur, pred);
            }
            let e = &self.entries[i];
            if e.ino == ino && e.dev == dev {
                r = Some(
                    InodeStamp { ino: e.ino, dev: e.dev, stamp: e.stamp, path: e.path.clone() },
                );
                proof {
                    assert(!pred(cur));
                    assert(exists|k: int|
                        0 <= k < i + 1 && self@[k] == cur && cur.ino == ino && cur.dev == dev);
                }
            } else {
                let ghost kept_pre = kept@;
                kept.push(
                    InodeStamp { ino: e.ino, dev: e.dev, stamp: e.stamp, path: e.path.clone() },
                );
                proof {
                    assert(pred(cur));
                    assert(kept@[kept@.len() - 1]@ == cur);
                    lemma_inode_models_push(kept_pre, kept@[kept@.len() - 1]);
                }
            }
            i += 1;
        }
        proof {
            assert(self@.subrange(0, n as int) =~= self@);
        }
        self.entries = kept;
        proof {
            lemma_ifilter_distinct(old(self)@, pred);
            lemma_ifilter_stamps(old(self)@, pred);
            match &r {
                Some(e) => {
                    let k = choose|k: int|
                        0 <= k < old(self)@.len() && old(self)@[k] == e@ && e@.ino == ino
                            && e@.dev == dev;
                    assert(itable_contains(old(self)@, ino, dev));
                    let j = choose|j: int|
                        0 <= j < old(self)@.len() && old(self)@[j].ino == ino && old(self)@[j].dev
                            == dev;
                    assert(old(self)@[j] == old(self)@[k]) by {
                        if j != k {
                            assert(false);
                        }
                    }
                },
                None => {
                    assert(!itable_contains(old(self)@, ino, dev)) by {
                        if itable_contains(old(self)@, ino, dev) {
                            let j = choose|j: int|
                                0 <= j < old(self)@.len() && old(self)@[j].ino == ino
                                    && old(self)@[j].dev == dev;
                            assert(pred(old(self)@[j]));
                        }
                    }
                },
            }
        }
        r
    }

    /// Record `(ino, dev)` at `stamp` under `path`, replacing any pending
    /// entry for the same identity.
    pub fn upsert(&mut self, ino: u64, dev: u64, stamp: u64, path: String)
        requires
            old(self).wf(),
        ensures
            final(self)@ == without_inode(old(self)@, ino, dev).push(
                InodeStampModel { ino, dev, stamp, path: path@ },
            ),
            final(self).wf(),
            forall|n: u64|
                inode_stamps_le(old(self)@, n) && stamp <= n ==> inode_stamps_le(final(self)@, n),
    {
        let ghost p_view = path@;
        self.take(ino, dev);
        let ghost mid = self@;
        let e = InodeStamp { ino, dev, stamp, path };
        proof {
            assert(e@ == InodeStampModel { ino, dev, stamp, path: p_view });
        }
        self.entries.push(e);
        proof {
            assert(self@ =~= mid.push(InodeStampModel { ino, dev, stamp, path: p_view }));
            lemma_ifilter_pred_holds(
                old(self)@,
                |q: InodeStampModel| !(q.ino == ino && q.dev == dev),
            );
            assert(distinct_inodes(self@)) by {
                assert(forall|k: int|
                    0 <= k < mid.len() ==> !((#[trigger] mid[k]).ino == ino && mid[k].dev == dev));
            }
        }
    }

    /// Drop every entry whose age at `now` exceeds the window and hand back the
    /// dropped paths in order.
    #[verifier::loop_isolation(false)]
    pub fn evict_stale(&mut self, now: u64, window: u64) -> (evicted: Vec<String>)
        requires
            inode_stamps_le(old(self)@, now),
        ensures
            final(self)@ == inode_kept_entries(old(self)@, now, window),
            evicted.deep_view() == inode_stale_paths(old(self)@, now, window),
            old(self).wf() ==> final(self).wf(),
            forall|n: u64| inode_stamps_le(old(self)@, n) ==> inode_stamps_le(final(self)@, n),
    {
        let ghost keep_pred = |e: InodeStampModel| now - e.stamp <= window;
        let ghost drop_pred = |e: InodeStampModel| now - e.stamp > window;
        let ghost to_path = |e: InodeStampModel| e.path;
        let n = self.entries.len();
        let mut kept: Vec<InodeStamp> = Vec::new();
        let mut evicted: Vec<String> = Vec::new();
        let mut i: usize = 0;
        proof {
            assert(self@.subrange(0, 0) =~= Seq::<InodeStampModel>::empty());
            assert(inode_models(kept@) =~= Seq::<InodeStampModel>::empty());
            assert(evicted.deep_view() =~= Seq::<Seq<char>>::empty());
            assert(Seq::<InodeStampModel>::empty().filter(keep_pred) =~= Seq::<
                InodeStampModel,
            >::empty()) by {
                reveal(Seq::filter);
            }
            assert(Seq::<InodeStampModel>::empty().filter(drop_pred) =~= Seq::<
                InodeStampModel,
            >::empty()) by {
                reveal(Seq::filter);
            }
            assert(Seq::<InodeStampModel>::empty().filter(drop_pred).map_values(to_path) =~= Seq::<
                Seq<char>,
            >::empty());
        }
        while i < n
            invariant
                0 <= i <= n,
                n == self.entries.len(),
                self@ == old(self)@,
                inode_stamps_le(self@, now),
                inode_models(kept@) == self@.subrange(0, i as int).filter(keep_pred),
                evicted.deep_view() == self@.subrange(0, i as int).filter(drop_pred).map_values(
                    to_path,
                ),
            decreases n - i,
        {
            let ghost pre = self@.subrange(0, i as int);
            let ghost post = self@.subrange(0, i as int + 1);
            let ghost cur = self@[i as int];
            proof {
                assert(cur == self.entries@[i as int]@);
                assert(cur.stamp <= now);
                assert(post =~= pre.push(cur));
                pre.lemma_filter_push(cur, keep_pred);
                pre.lemma_filter_push(cur, drop_pred);
            }
            let e = &self.entries[i];
            if now - e.stamp > window {
                let ghost ev_pre = evicted.deep_view();
                evicted.push(e.path.clone());
                proof {
                    assert(evicted@[evicted@.len() - 1]@ == cur.path);
                    assert(evicted.deep_view() =~= ev_pre.push(cur.path));
                    assert(post.filter(drop_pred).map_values(to_path) =~= pre.filter(
                        drop_pred,
                    ).map_values(to_path).push(cur.path));
                }
            } else {
                let ghost kept_pre = kept@;
                kept.push(
                    InodeStamp { ino: e.ino, dev: e.dev, stamp: e.stamp, path: e.path.clone() },
                );
                proof {
                    assert(kept@[kept@.len() - 1]@ == cur);
                    lemma_inode_models_push(kept_pre, kept@[kept@.len() - 1]);
                }
            }
            i += 1;
        }
        proof {
            assert(self@.subrange(0, n as int) =~= self@);
        }
        self.entries = kept;
        proof {
            if distinct_inodes(old(self)@) {
                lemma_ifilter_distinct(old(self)@, keep_pred);
            }
            lemma_ifilter_stamps(old(self)@, keep_pred);
        }
        evicted
    }
}

/// What `without_path` keeps and drops.
pub proof fn lemma_without_path_facts(s: Seq<PathStampModel>, p: Seq<char>)
    ensures
        !table_contains(without_path(s, p), p),
        forall|q: Seq<char>|
            q != p ==> table_contains(without_path(s, p), q) == table_contains(s, q),
{
    broadcast use vstd::seq_lib::group_filter_ensures;

    let pred = |e: PathStampModel| e.path != p;
    let out = without_path(s, p);
    assert(!table_contains(out, p)) by {
        if table_contains(out, p) {
            let w = choose|w: int| 0 <= w < out.len() && out[w].path == p;
            assert(pred(out[w]));
        }
    }
    assert forall|q: Seq<char>| q != p implies table_contains(out, q) == table_contains(
        s,
        q,
    ) by {
        lemma_filter_subset(s, pred);
        if table_contains(out, q) {
            let w = choose|w: int| 0 <= w < out.len() && out[w].path == q;
            assert(out.contains(out[w]));
            let v = choose|v: int| 0 <= v < s.len() && s[v] == out[w];
            assert(table_contains(s, q));
        }
        if table_contains(s, q) {
            let w = choose|w: int| 0 <= w < s.len() && s[w].path == q;
            assert(pred(s[w]));
            assert(out.contains(s[w]));
            let v = choose|v: int| 0 <= v < out.len() && out[v] == s[w];
            assert(table_contains(out, q));
        }
    }
}

/// What `fresh_entries` keeps: nothing new, and everything younger than the
/// window.
pub proof fn lemma_fresh_entries_facts(s: Seq<PathStampModel>, now: u64, window: u64)
    ensures
        forall|p: Seq<char>|
            #[trigger] table_contains(fresh_entries(s, now, window), p) ==> table_contains(s, p),
        forall|i: int|
            0 <= i < s.len() && now - s[i].stamp < window ==> table_contains(
                fresh_entries(s, now, window),
                (#[trigger] s[i]).path,
            ),
{
    broadcast use vstd::seq_lib::group_filter_ensures;

    let pred = |e: PathStampModel| now - e.stamp < window;
    let out = fresh_entries(s, now, window);
    lemma_filter_subset(s, pred);
    assert forall|p: Seq<char>| #[trigger]
        table_contains(out, p) implies table_contains(s, p) by {
        let w = choose|w: int| 0 <= w < out.len() && out[w].path == p;
        assert(out.contains(out[w]));
        let v = choose|v: int| 0 <= v < s.len() && s[v] == out[w];
    }
    assert forall|i: int|
        0 <= i < s.len() && now - s[i].stamp < window implies table_contains(
        out,
        (#[trigger] s[i]).path,
    ) by {
        assert(pred(s[i]));
        assert(out.contains(s[i]));
        let v = choose|v: int| 0 <= v < out.len() && out[v] == s[i];
    }
}


/// What `stale_paths` reports: only pending paths, each at most once, and
/// every pending path whose age exceeds the window.
pub proof fn lemma_stale_paths_facts(s: Seq<PathStampModel>, now: u64, window: u64)
    requires
        distinct_paths(s),
    ensures
        forall|p: Seq<char>|
            #[trigger] stale_paths(s, now, window).contains(p) ==> table_contains(s, p),
        forall|i: int, j: int|
            0 <= i < j < stale_paths(s, now, window).len() ==> stale_paths(s, now, window)[i]
                != stale_paths(s, now, window)[j],
        forall|i: int|
            0 <= i < s.len() && now - s[i].stamp > window ==> stale_paths(
                s,
                now,
                window,
            ).contains((#[trigger] s[i]).path),
{
    broadcast use vstd::seq_lib::group_filter_ensures;

    let pred = |e: PathStampModel| now - e.stamp > window;
    let f = s.filter(pred);
    let out = stale_paths(s, now, window);
    lemma_filter_subset(s, pred);
    lemma_filter_distinct(s, pred);
    assert forall|p: Seq<char>| #[trigger] out.contains(p) implies table_contains(s, p) by {
        let w = choose|w: int| 0 <= w < out.len() && out[w] == p;
        assert(out[w] == f[w].path);
        assert(f.contains(f[w]));
        let v = choose|v: int| 0 <= v < s.len() && s[v] == f[w];
    }
    assert forall|i: int, j: int| 0 <= i < j < out.len() implies out[i] != out[j] by {
        assert(out[i] == f[i].path);
        assert(out[j] == f[j].path);
    }
    assert forall|i: int|
        0 <= i < s.len() && now - s[i].stamp > window implies stale_paths(
        s,
        now,
        window,
    ).contains((#[trigger] s[i]).path) by {
        assert(pred(s[i]));
        assert(f.contains(s[i]));
        let v = choose|v: int| 0 <= v < f.len() && f[v] == s[i];
        assert(out[v] == s[i].path);
    }
}

/// Removing a path that is not pending changes nothing.
pub proof fn lemma_without_path_absent(s: Seq<PathStampModel>, p: Seq<char>)
    requires
        !table_contains(s, p),
    ensures
        without_path(s, p) == s,
    decreases s.len(),
{
    reveal(Seq::filter);
    if s.len() != 0 {
        assert(!table_contains(s.drop_last(), p)) by {
            if table_contains(s.drop_last(), p) {
                let w = choose|w: int|
                    0 <= w < s.drop_last().len() && s.drop_last()[w].path == p;
                assert(s[w].path == p);
            }
        }
        lemma_without_path_absent(s.drop_last(), p);
        assert(s[s.len() - 1].path != p) by {
            if s[s.len() - 1].path == p {
                assert(table_contains(s, p));
            }
        }
        assert(without_path(s, p) =~= s);
    } else {
        assert(without_path(s, p) =~= s);
    }
}

/// An upsert keeps paths distinct and keeps every high-enough timestamp bound.
pub proof fn lemma_upsert_preserves(s: Seq<PathStampModel>, p: Seq<char>, t: u64)
    requires
        distinct_paths(s),
    ensures
        distinct_paths(without_path(s, p).push(PathStampModel { path: p, stamp: t })),
        forall|n: u64|
            stamps_le(s, n) && t <= n ==> stamps_le(
                without_path(s, p).push(PathStampModel { path: p, stamp: t }),
                n,
            ),
{
    let pred = |e: PathStampModel| e.path != p;
    lemma_filter_distinct(s, pred);
    lemma_filter_pred_holds(s, pred);
    lemma_filter_stamps(s, pred);
    let base = without_path(s, p);
    let out = base.push(PathStampModel { path: p, stamp: t });
    assert forall|i: int, j: int| 0 <= i < j < out.len() implies out[i].path != out[j].path by {
        if j == base.len() {
            assert(pred(base[i]));
        }
    }
}

/// Removing a path keeps paths distinct and keeps every timestamp bound.
pub proof fn lemma_without_path_preserves(s: Seq<PathStampModel>, p: Seq<char>)
    ensures
        distinct_paths(s) ==> distinct_paths(without_path(s, p)),
        forall|n: u64| stamps_le(s, n) ==> stamps_le(without_path(s, p), n),
{
    if distinct_paths(s) {
        lemma_filter_distinct(s, |e: PathStampModel| e.path != p);
    }
    lemma_filter_stamps(s, |e: PathStampModel| e.path != p);
}


/// Every entry `kept_entries` keeps is an entry of `s` at most the window old.
pub proof fn lemma_kept_entries_member(s: Seq<PathStampModel>, now: u64, window: u64)
    ensures
        forall|i: int|
            0 <= i < kept_entries(s, now, window).len() ==> s.contains(
                #[trigger] kept_entries(s, now, window)[i],
            ) && now - kept_entries(s, now, window)[i].stamp <= window,
{
    broadcast use vstd::seq_lib::group_filter_ensures;

    let pred = |e: PathStampModel| now - e.stamp <= window;
    lemma_filter_subset(s, pred);
    lemma_filter_pred_holds(s, pred);
    assert forall|i: int|
        0 <= i < kept_entries(s, now, window).len() implies s.contains(
        #[trigger] kept_entries(s, now, window)[i],
    ) && now - kept_entries(s, now, window)[i].stamp <= window by {
        assert(kept_entries(s, now, window).contains(kept_entries(s, now, window)[i]));
    }
}

/// The path under which identity `(ino, dev)` is pending; meaningful only
/// under [`distinct_inodes`], where the pending entry is unique.
pub open spec fn inode_path(s: Seq<InodeStampModel>, ino: u64, dev: u64) -> Seq<char> {
    match inode_entry(s, ino, dev) {
        Some(e) => e.path,
        None => Seq::empty(),
    }
}

/// Under distinct identities, any matching entry is the pending entry.
pub proof fn lemma_inode_entry_unique(s: Seq<InodeStampModel>, ino: u64, dev: u64, i: int)
    requires
        distinct_inodes(s),
        0 <= i < s.len(),
        s[i].ino == ino,
        s[i].dev == dev,
    ensures
        inode_entry(s, ino, dev) == Some(s[i]),
        inode_path(s, ino, dev) == s[i].path,
{
    assert(itable_contains(s, ino, dev));
    let j = choose|j: int| 0 <= j < s.len() && s[j].ino == ino && s[j].dev == dev;
    if i != j {
        assert(false);
    }
}

/// An upsert keeps identities distinct and keeps every high-enough timestamp
/// bound.
pub proof fn lemma_inode_upsert_preserves(
    s: Seq<InodeStampModel>,
    ino: u64,
    dev: u64,
    t: u64,
    p: Seq<char>,
)
    requires
        distinct_inodes(s),
    ensures
        distinct_inodes(
            without_inode(s, ino, dev).push(InodeStampModel { ino, dev, stamp: t, path: p }),
        ),
        forall|n: u64|
            inode_stamps_le(s, n) && t <= n ==> inode_stamps_le(
                without_inode(s, ino, dev).push(InodeStampModel { ino, dev, stamp: t, path: p }),
                n,
            ),
{
    let pred = |e: InodeStampModel| !(e.ino == ino && e.dev == dev);
    lemma_ifilter_distinct(s, pred);
    lemma_ifilter_pred_holds(s, pred);
    lemma_ifilter_stamps(s, pred);
    let base = without_inode(s, ino, dev);
    let out = base.push(InodeStampModel { ino, dev, stamp: t, path: p });
    assert forall|i: int, j: int|
        0 <= i < j < out.len() implies !(out[i].ino == out[j].ino && out[i].dev
        == out[j].dev) by {
        if j == base.len() {
            assert(pred(base[i]));
        }
    }
}

/// Removing an identity keeps identities distinct, keeps every timestamp
/// bound, and leaves no entry for the removed identity.
pub proof fn lemma_without_inode_preserves(s: Seq<InodeStampModel>, ino: u64, dev: u64)
    ensures
        distinct_inodes(s) ==> distinct_inodes(without_inode(s, ino, dev)),
        forall|n: u64| inode_stamps_le(s, n) ==> inode_stamps_le(without_inode(s, ino, dev), n),
        !itable_contains(without_inode(s, ino, dev), ino, dev),
{
    let pred = |e: InodeStampModel| !(e.ino == ino && e.dev == dev);
    if distinct_inodes(s) {
        lemma_ifilter_distinct(s, pred);
    }
    lemma_ifilter_stamps(s, pred);
    lemma_ifilter_pred_holds(s, pred);
    let out = without_inode(s, ino, dev);
    if itable_contains(out, ino, dev) {
        let w = choose|w: int| 0 <= w < out.len() && out[w].ino == ino && out[w].dev == dev;
        assert(pred(out[w]));
    }
}

/// Removing an identity that is not pending changes nothing.
pub proof fn lemma_without_inode_absent(s: Seq<InodeStampModel>, ino: u64, dev: u64)
    requires
        !itable_contains(s, ino, dev),
    ensures
        without_inode(s, ino, dev) == s,
    decreases s.len(),
{
    reveal(Seq::filter);
    if s.len() != 0 {
        assert(!itable_contains(s.drop_last(), ino, dev)) by {
            if itable_contains(s.drop_last(), ino, dev) {
                let w = choose|w: int|
                    0 <= w < s.drop_last().len() && s.drop_last()[w].ino == ino
                        && s.drop_last()[w].dev == dev;
                assert(s[w].ino == ino && s[w].dev == dev);
            }
        }
        lemma_without_inode_absent(s.drop_last(), ino, dev);
        assert(!(s[s.len() - 1].ino == ino && s[s.len() - 1].dev == dev)) by {
            if s[s.len() - 1].ino == ino && s[s.len() - 1].dev == dev {
                assert(itable_contains(s, ino, dev));
            }
        }
        assert(without_inode(s, ino, dev) =~= s);
    } else {
        assert(without_inode(s, ino, dev) =~= s);
    }
}

/// Pruning keeps identities distinct and keeps every timestamp bound.
pub proof fn lemma_inode_prune_preserves(s: Seq<InodeStampModel>, now: u64, window: u64)
    ensures
        distinct_inodes(s) ==> distinct_inodes(inode_kept_entries(s, now, window)),
        forall|n: u64|
            inode_stamps_le(s, n) ==> inode_stamps_le(inode_kept_entries(s, now, window), n),
{
    if distinct_inodes(s) {
        lemma_ifilter_distinct(s, |e: InodeStampModel| now - e.stamp <= window);
    }
    lemma_ifilter_stamps(s, |e: InodeStampModel| now - e.stamp <= window);
}

/// Every entry `inode_kept_entries` keeps is an entry of `s` at most the
/// window old, and every such entry of `s` is kept.
pub proof fn lemma_inode_kept_member(s: Seq<InodeStampModel>, now: u64, window: u64)
    ensures
        forall|i: int|
            0 <= i < inode_kept_entries(s, now, window).len() ==> s.contains(
                #[trigger] inode_kept_entries(s, now, window)[i],
            ) && now - inode_kept_entries(s, now, window)[i].stamp <= window,
        forall|i: int|
            0 <= i < s.len() && now - s[i].stamp <= window ==> inode_kept_entries(
                s,
                now,
                window,
            ).contains(#[trigger] s[i]),
{
    broadcast use vstd::seq_lib::group_filter_ensures;

    let pred = |e: InodeStampModel| now - e.stamp <= window;
    lemma_ifilter_subset(s, pred);
    lemma_ifilter_pred_holds(s, pred);
    assert forall|i: int|
        0 <= i < inode_kept_entries(s, now, window).len() implies s.contains(
        #[trigger] inode_kept_entries(s, now, window)[i],
    ) && now - inode_kept_entries(s, now, window)[i].stamp <= window by {
        assert(inode_kept_entries(s, now, window).contains(inode_kept_entries(s, now, window)[i]));
    }
    assert forall|i: int|
        0 <= i < s.len() && now - s[i].stamp <= window implies inode_kept_entries(
        s,
        now,
        window,
    ).contains(#[trigger] s[i]) by {
        assert(pred(s[i]));
    }
}

/// Every pending entry whose age exceeds the window shows up among the stale
/// paths.
pub proof fn lemma_inode_stale_paths_cover(s: Seq<InodeStampModel>, now: u64, window: u64)
    ensures
        forall|i: int|
            0 <= i < s.len() && now - s[i].stamp > window ==> inode_stale_paths(
                s,
                now,
                window,
            ).contains((#[trigger] s[i]).path),
{
    broadcast use vstd::seq_lib::group_filter_ensures;

    let pred = |e: InodeStampModel| now - e.stamp > window;
    let f = s.filter(pred);
    let out = inode_stale_paths(s, now, window);
    assert forall|i: int|
        0 <= i < s.len() && now - s[i].stamp > window implies out.contains(
        (#[trigger] s[i]).path,
    ) by {
        assert(pred(s[i]));
        assert(f.contains(s[i]));
        let v = choose|v: int| 0 <= v < f.len() && f[v] == s[i];
        assert(out[v] == s[i].path);
    }
}

/// When at most one pending entry carries path `p`, `p` shows up among the
/// stale paths at most once.
pub proof fn lemma_inode_stale_unique_path(
    s: Seq<InodeStampModel>,
    now: u64,
    window: u64,
    p: Seq<char>,
)
    requires
        distinct_inodes(s),
        forall|i: int, j: int|
            0 <= i < j < s.len() ==> !((#[trigger] s[i]).path == p && (#[trigger] s[j]).path
                == p),
    ensures
        forall|k: int, l: int|
            0 <= k < l < inode_stale_paths(s, now, window).len() ==> !((
            #[trigger] inode_stale_paths(s, now, window)[k]) == p && (
            #[trigger] inode_stale_paths(s, now, window)[l]) == p),
{
    let pred = |e: InodeStampModel| now - e.stamp > window;
    let f = s.filter(pred);
    let out = inode_stale_paths(s, now, window);
    lemma_ifilter_subset(s, pred);
    lemma_ifilter_distinct(s, pred);
    assert forall|k: int, l: int|
        0 <= k < l < out.len() implies !((#[trigger] out[k]) == p && (#[trigger] out[l])
        == p) by {
        if out[k] == p && out[l] == p {
            assert(out[k] == f[k].path);
            assert(out[l] == f[l].path);
            assert(!(f[k].ino == f[l].ino && f[k].dev == f[l].dev));
            assert(f.contains(f[k]));
            assert(f.contains(f[l]));
            let u = choose|u: int| 0 <= u < s.len() && s[u] == f[k];
            let v = choose|v: int| 0 <= v < s.len() && s[v] == f[l];
            assert(u != v);
            if u < v {
                assert(!(s[u].path == p && s[v].path == p));
            } else {
                assert(!(s[v].path == p && s[u].path == p));
            }
        }
    }
}

/// Every entry kept by `without_inode` was already in the table.
pub proof fn lemma_inode_without_member(s: Seq<InodeStampModel>, ino: u64, dev: u64)
    ensures
        forall|i: int|
            0 <= i < without_inode(s, ino, dev).len() ==> s.contains(
                #[trigger] without_inode(s, ino, dev)[i],
            ),
{
    let pred = |e: InodeStampModel| !(e.ino == ino && e.dev == dev);
    lemma_ifilter_subset(s, pred);
    assert forall|i: int|
        0 <= i < without_inode(s, ino, dev).len() implies s.contains(
        #[trigger] without_inode(s, ino, dev)[i],
    ) by {
        assert(without_inode(s, ino, dev).contains(without_inode(s, ino, dev)[i]));
    }
}

} // verus!
