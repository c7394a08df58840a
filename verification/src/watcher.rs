//! The location watcher: owner of exactly one native filesystem watch handle,
//! bound to one location's root path.
//!
//! The native handle and the calls that register or release the OS watch come
//! from the notify crate and are trusted; the watching-state logic around them
//! — idempotent watch and unwatch, and path updates that re-watch only when
//! asked to — is verified. The event loop that drains the native events,
//! ticks the platform handler and forwards canonical events runs outside the
//! library; it hands raw signals to a [`crate::handler::PlatformEventHandler`]
//! and sends on whatever that returns.

use vstd::prelude::*;

use crate::event::{LocationPubId, WatcherEvent};

verus! {

#[verifier::external_type_specification]
#[verifier::external_body]
pub struct ExRecommendedWatcher(notify::RecommendedWatcher);

#[verifier::external_type_specification]
#[verifier::external_body]
pub struct ExNotifyError(notify::Error);

/// What can go wrong around a location watcher: a native backend failure, or
/// a canonical event that could not be handed to the outside consumer.
#[derive(Debug)]
pub enum LocationWatcherError {
    Notify(notify::Error),
    EmitEvent(WatcherEvent),
}

/// Relies on notify's `Watcher::watch` for `RecommendedWatcher`: registers a
/// recursive native watch for the path with the OS backend. Nothing is
/// promised of the outcome; the caller records success or failure.
#[verifier::external_body]
fn native_watch(w: &mut notify::RecommendedWatcher, path: &String) -> Result<(), notify::Error> {
    notify::Watcher::watch(
        w,
        std::path::Path::new(path.as_str()),
        notify::RecursiveMode::Recursive,
    )
}

/// Relies on notify's `Watcher::unwatch` for `RecommendedWatcher`: releases
/// the native watch for the path. Nothing is promised of the outcome.
#[verifier::external_body]
fn native_unwatch(w: &mut notify::RecommendedWatcher, path: &String) -> Result<
    (),
    notify::Error,
> {
    notify::Watcher::unwatch(w, std::path::Path::new(path.as_str()))
}

/// One native OS watch bound to one location root.
pub struct LocationWatcher {
    location_pub_id: LocationPubId,
    location_path: String,
    watcher: notify::RecommendedWatcher,
    is_watching: bool,
}

/// Mathematical model of a [`LocationWatcher`]: the identifier, the root path
/// and whether the native watch is currently registered.
pub struct WatcherModel {
    pub location_pub_id: LocationPubId,
    pub location_path: Seq<char>,
    pub is_watching: bool,
}

impl View for LocationWatcher {
    type V = WatcherModel;

    closed spec fn view(&self) -> WatcherModel {
        WatcherModel {
            location_pub_id: self.location_pub_id,
            location_path: self.location_path@,
            is_watching: self.is_watching,
        }
    }
}

/// How `watch` transforms the state: a no-op when already watching, otherwise
/// watching exactly when the native registration succeeded (`ok`).
pub open spec fn watch_step(s: WatcherModel, ok: bool) -> WatcherModel {
    if s.is_watching {
        s
    } else if ok {
        WatcherModel { is_watching: true, ..s }
    } else {
        s
    }
}

/// How `unwatch` transforms the state: the native watch is released and the
/// state records not-watching, whatever the backend answered; a no-op when not
/// watching.
pub open spec fn unwatch_step(s: WatcherModel) -> WatcherModel {
    WatcherModel { is_watching: false, ..s }
}

/// How `update_location` transforms the state: a changed path is unwatched,
/// swapped in and re-watched only if requested; an unchanged path has the
/// watching state reconciled with the request.
pub open spec fn update_step(s: WatcherModel, new_path: Seq<char>, to_watch: bool, ok: bool) -> WatcherModel {
    if s.location_path != new_path {
        let moved = WatcherModel { location_path: new_path, ..unwatch_step(s) };
        if to_watch {
            watch_step(moved, ok)
        } else {
            moved
        }
    } else {
        if to_watch && !s.is_watching {
            watch_step(s, ok)
        } else if !to_watch && s.is_watching {
            unwatch_step(s)
        } else {
            s
        }
    }
}

impl LocationWatcher {
    /// A watcher for the location, not yet watching. The native handle is
    /// built by the surrounding runtime, whose callback feeds the raw events
    /// to the watcher's event loop.
    pub fn new(
        location_pub_id: LocationPubId,
        location_path: String,
        watcher: notify::RecommendedWatcher,
    ) -> (r: Self)
        ensures
            r@ == (WatcherModel {
                location_pub_id,
                location_path: location_path@,
                is_watching: false,
            }),
    {
        LocationWatcher { location_pub_id, location_path, watcher, is_watching: false }
    }

    /// The root path currently watched.
    pub fn location_path(&self) -> (r: &String)
        ensures
            r@ == self@.location_path,
    {
        &self.location_path
    }

    /// The identifier of the owning location.
    pub fn location_pub_id(&self) -> (r: LocationPubId)
        ensures
            r == self@.location_pub_id,
    {
        self.location_pub_id
    }

    /// Whether the native watch is currently registered.
    pub fn is_watching(&self) -> (r: bool)
        ensures
            r == self@.is_watching,
    {
        self.is_watching
    }

    /// Register the native watch. Watching an already-watched location is a
    /// no-op; a native failure leaves the watcher not watching.
    pub fn watch(&mut self)
        ensures
            exists|ok: bool| final(self)@ == watch_step(old(self)@, ok),
            old(self)@.is_watching ==> final(self)@ == old(self)@,
    {
        if !self.is_watching {
            match native_watch(&mut self.watcher, &self.location_path) {
                Ok(_) => {
                    self.is_watching = true;
                    proof {
                        assert(self@ == watch_step(old(self)@, true));
                    }
                },
                Err(_) => {
                    proof {
                        assert(self@ == watch_step(old(self)@, false));
                    }
                },
            }
        } else {
            proof {
                assert(self@ == watch_step(old(self)@, true));
            }
        }
    }

    /// Release the native watch. Unwatching a location that is not being
    /// watched is a no-op; after the call the watcher is not watching, even
    /// when the backend reported a failure.
    pub fn unwatch(&mut self)
        ensures
            final(self)@ == unwatch_step(old(self)@),
    {
        if self.is_watching {
            let _ = native_unwatch(&mut self.watcher, &self.location_path);
            self.is_watching = false;
        }
    }

    /// Move the watcher to a new root path, or reconcile the watching state
    /// with `to_watch` when the path is unchanged.
    pub fn update_location(&mut self, new_location_path: String, to_watch: bool)
        ensures
            exists|ok: bool| final(self)@ == update_step(old(self)@, new_location_path@, to_watch, ok),
    {
        if self.location_path != new_location_path {
            self.unwatch();
            self.location_path = new_location_path;
            if to_watch {
                self.watch();
                proof {
                    assert(self@ == update_step(
                        old(self)@,
                        new_location_path@,
                        to_watch,
                        self@.is_watching,
                    ));
                }
            } else {
                proof {
                    assert(self@ == update_step(old(self)@, new_location_path@, to_watch, true));
                }
            }
        } else {
            if to_watch && !self.is_watching {
                self.watch();
                proof {
                    assert(self@ == update_step(
                        old(self)@,
                        new_location_path@,
                        to_watch,
                        self@.is_watching,
                    ));
                }
            } else if !to_watch && self.is_watching {
                self.unwatch();
                proof {
                    assert(self@ == update_step(old(self)@, new_location_path@, to_watch, true));
                }
            } else {
                proof {
                    assert(self@ == update_step(old(self)@, new_location_path@, to_watch, true));
                }
            }
        }
    }
}

/// Watching and unwatching are idempotent: a second `watch` after one that
/// left the watcher watching changes nothing, whatever the backend answers;
/// a second `unwatch` changes nothing; and `unwatch` on a watcher that is not
/// watching changes nothing.
pub proof fn lemma_watch_unwatch_idempotent(s: WatcherModel, ok1: bool, ok2: bool)
    ensures
        watch_step(s, ok1).is_watching ==> watch_step(watch_step(s, ok1), ok2) == watch_step(
            s,
            ok1,
        ),
        s.is_watching ==> watch_step(s, ok1) == s,
        unwatch_step(unwatch_step(s)) == unwatch_step(s),
        !s.is_watching ==> unwatch_step(s) == s,
{
}

} // verus!
