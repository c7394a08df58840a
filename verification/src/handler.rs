//! The cross-platform event handler: a closed tagged-variant type over the
//! three platform handlers, sharing one capability set (`handle_event`,
//! `tick`). A build may construct only the variant matching its target, or
//! pick one at runtime when testing on a foreign host.

use vstd::prelude::*;

use crate::event::{events_model, LocationPubId, RawEvent, RawEventModel, WatcherEvent, WatcherEventModel};
use crate::linux::{
    linux_handle_transition, linux_initial, linux_le, linux_tick_transition, linux_wf,
    LinuxEventHandler, LinuxHandlerModel,
};
use crate::macos::{
    mac_handle_transition, mac_initial, mac_le, mac_tick_transition, mac_wf, MacHandlerModel,
    MacOsEventHandler,
};
use crate::windows::{
    windows_handle_transition, windows_initial, windows_le, windows_tick_transition, windows_wf,
    WindowsEventHandler, WindowsHandlerModel,
};

verus! {

/// The stateful translator from raw native signals to canonical events for
/// one watched location, on whichever platform the build targets.
pub enum PlatformEventHandler {
    Linux(LinuxEventHandler),
    MacOs(MacOsEventHandler),
    Windows(WindowsEventHandler),
}

/// Mathematical model of a [`PlatformEventHandler`].
pub enum PlatformHandlerModel {
    Linux(LinuxHandlerModel),
    MacOs(MacHandlerModel),
    Windows(WindowsHandlerModel),
}

impl View for PlatformEventHandler {
    type V = PlatformHandlerModel;

    open spec fn view(&self) -> PlatformHandlerModel {
        match self {
            PlatformEventHandler::Linux(h) => PlatformHandlerModel::Linux(h@),
            PlatformEventHandler::MacOs(h) => PlatformHandlerModel::MacOs(h@),
            PlatformEventHandler::Windows(h) => PlatformHandlerModel::Windows(h@),
        }
    }
}

/// Each pending table of the active variant holds each key at most once.
pub open spec fn platform_wf(m: PlatformHandlerModel) -> bool {
    match m {
        PlatformHandlerModel::Linux(h) => linux_wf(h),
        PlatformHandlerModel::MacOs(h) => mac_wf(h),
        PlatformHandlerModel::Windows(h) => windows_wf(h),
    }
}

/// Every recorded timestamp of the active variant is at or before `now`.
pub open spec fn platform_le(m: PlatformHandlerModel, now: u64) -> bool {
    match m {
        PlatformHandlerModel::Linux(h) => linux_le(h, now),
        PlatformHandlerModel::MacOs(h) => mac_le(h, now),
        PlatformHandlerModel::Windows(h) => windows_le(h, now),
    }
}

/// Dispatch of one raw signal to the active variant's transition table.
pub open spec fn platform_handle_transition(
    m: PlatformHandlerModel,
    ev: RawEventModel,
    now: u64,
) -> (PlatformHandlerModel, Seq<WatcherEventModel>) {
    match m {
        PlatformHandlerModel::Linux(h) => {
            let (h2, out) = linux_handle_transition(h, ev, now);
            (PlatformHandlerModel::Linux(h2), out)
        },
        PlatformHandlerModel::MacOs(h) => {
            let (h2, out) = mac_handle_transition(h, ev, now);
            (PlatformHandlerModel::MacOs(h2), out)
        },
        PlatformHandlerModel::Windows(h) => {
            let (h2, out) = windows_handle_transition(h, ev, now);
            (PlatformHandlerModel::Windows(h2), out)
        },
    }
}

/// Dispatch of the periodic tick to the active variant's transition table.
pub open spec fn platform_tick_transition(m: PlatformHandlerModel, now: u64) -> (
    PlatformHandlerModel,
    Seq<WatcherEventModel>,
) {
    match m {
        PlatformHandlerModel::Linux(h) => {
            let (h2, out) = linux_tick_transition(h, now);
            (PlatformHandlerModel::Linux(h2), out)
        },
        PlatformHandlerModel::MacOs(h) => {
            let (h2, out) = mac_tick_transition(h, now);
            (PlatformHandlerModel::MacOs(h2), out)
        },
        PlatformHandlerModel::Windows(h) => {
            let (h2, out) = windows_tick_transition(h, now);
            (PlatformHandlerModel::Windows(h2), out)
        },
    }
}

impl PlatformEventHandler {
    pub open spec fn wf(&self) -> bool {
        platform_wf(self@)
    }

    /// All correlation state was recorded at or before `now`.
    pub open spec fn le(&self, now: u64) -> bool {
        platform_le(self@, now)
    }

    /// A fresh handler for the Linux backend.
    pub fn new_linux(id: LocationPubId, now: u64) -> (r: Self)
        ensures
            r@ == PlatformHandlerModel::Linux(linux_initial(id, now)),
            r.wf(),
            r.le(now),
    {
        PlatformEventHandler::Linux(LinuxEventHandler::new(id, now))
    }

    /// A fresh handler for the macOS backend.
    pub fn new_macos(id: LocationPubId, now: u64) -> (r: Self)
        ensures
            r@ == PlatformHandlerModel::MacOs(mac_initial(id, now)),
            r.wf(),
            r.le(now),
    {
        PlatformEventHandler::MacOs(MacOsEventHandler::new(id, now))
    }

    /// A fresh handler for the Windows backend.
    pub fn new_windows(id: LocationPubId, now: u64) -> (r: Self)
        ensures
            r@ == PlatformHandlerModel::Windows(windows_initial(id, now)),
            r.wf(),
            r.le(now),
    {
        PlatformEventHandler::Windows(WindowsEventHandler::new(id, now))
    }

    /// Consume one raw signal observed at time `now`, update the correlation
    /// state, and return the canonical events to emit, in order.
    pub fn handle_event(&mut self, ev: &RawEvent, now: u64) -> (out: Vec<WatcherEvent>)
        requires
            old(self).wf(),
            old(self).le(now),
        ensures
            final(self)@ == platform_handle_transition(old(self)@, ev@, now).0,
            events_model(out@) == platform_handle_transition(old(self)@, ev@, now).1,
            final(self).wf(),
            final(self).le(now),
    {
        match self {
            PlatformEventHandler::Linux(h) => h.handle_event(ev, now),
            PlatformEventHandler::MacOs(h) => h.handle_event(ev, now),
            PlatformEventHandler::Windows(h) => h.handle_event(ev, now),
        }
    }

    /// The periodic tick, at time `now`: evict stale correlation records and
    /// emit the synthetic terminal events they resolve to.
    pub fn tick(&mut self, now: u64) -> (out: Vec<WatcherEvent>)
        requires
            old(self).wf(),
            old(self).le(now),
        ensures
            final(self)@ == platform_tick_transition(old(self)@, now).0,
            events_model(out@) == platform_tick_transition(old(self)@, now).1,
            final(self).wf(),
            final(self).le(now),
    {
        match self {
            PlatformEventHandler::Linux(h) => h.tick(now),
            PlatformEventHandler::MacOs(h) => h.tick(now),
            PlatformEventHandler::Windows(h) => h.tick(now),
        }
    }
}

} // verus!
