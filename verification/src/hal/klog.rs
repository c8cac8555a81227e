//! Where the kernel's log lines go.
//!
//! A sink that this kernel owns and can set as many times as it needs: once
//! at boot, and again from the new address after the kernel has moved its
//! image. Until one is set, log lines are dropped rather than buffered: there
//! is nowhere to put them yet.

use vstd::prelude::*;

verus! {

#[derive(Debug, Clone, Copy, PartialEq, Eq, Structural, PartialOrd, Ord)]
pub enum Level {
    Error,
    Warn,
    Info,
}

impl Level {
    /// Right-aligned to five, so boot logs line up.
    pub fn name(self) -> (r: &'static str)
        ensures
            r == match self {
                Level::Error => "ERROR",
                Level::Warn => " WARN",
                Level::Info => " INFO",
            },
    {
        match self {
            Level::Error => "ERROR",
            Level::Warn => " WARN",
            Level::Info => " INFO",
        }
    }
}

/// What a sink is handed: the level, where the line was written, and the
/// message itself.
pub struct Line<'a> {
    pub level: Level,
    pub file: &'a str,
    pub line: u32,
    pub message: &'a str,
}

/// The place for a sink. Empty until someone sets one.
pub struct SinkSlot<S> {
    pub sink: Option<S>,
}

impl<S> SinkSlot<S> {
    pub fn new() -> (r: Self)
        ensures
            r.sink is None,
    {
        SinkSlot { sink: None }
    }
}

/// Sends log lines to `sink` from now on.
///
/// Safe to call again whenever the address of the code changes: that is the
/// whole point.
pub fn set_sink<S>(slot: &mut SinkSlot<S>, sink: S)
    ensures
        final(slot).sink == Some(sink),
{
    slot.sink = Some(sink);
}

/// Drops log lines from now on.
pub fn clear_sink<S>(slot: &mut SinkSlot<S>)
    ensures
        final(slot).sink is None,
{
    slot.sink = None;
}

/// Hands a line to the sink that is set, and answers what it answered. Where
/// none is set the line is dropped.
pub fn write<R, S: Fn(Line<'_>) -> R>(slot: &SinkSlot<S>, line: Line<'_>) -> (r: Option<R>)
    requires
        slot.sink matches Some(sink) ==> call_requires(sink, (line,)),
    ensures
        match slot.sink {
            Some(sink) => r is Some && call_ensures(sink, (line,), r->Some_0),
            None => r is None,
        },
{
    match &slot.sink {
        Some(sink) => Some(sink(line)),
        None => None,
    }
}

} // verus!
