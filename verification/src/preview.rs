//! Making a quick preview of an input the browser view cannot play. The
//! preview is encoded into a partial file and enters the cache only by an
//! atomic move, so that a preview cut short never counts as valid. The
//! caller does the file work; this state machine decides each step.

use vstd::prelude::*;
use crate::text::{chars_of, push_str, string_from_chars};

verus! {

/// Where the making of a preview stands.
#[derive(Debug)]
pub enum ProxyPhase {
    /// Nothing done yet: the cache is looked at first.
    Start,
    /// The cache holds no usable preview; the encoder runs.
    Encoding,
    /// The partial file is complete and is being moved into the cache.
    Moving,
    /// The move failed with this error; the cache is looked at once more.
    Rechecking(String),
    /// Finished.
    Done,
}

/// What the caller reports after doing what the last action asked.
#[derive(Debug)]
pub enum ProxyEvent {
    /// The size of the cached preview, or `None` when there is none.
    Cached(Option<u64>),
    /// How the encoder run ended.
    Encoded(Result<(), String>),
    /// How the move of the partial file into the cache ended.
    Moved(Result<(), String>),
}

/// What the caller does next.
#[derive(Debug)]
pub enum ProxyAction {
    /// Look at the cached preview and report `Cached`.
    InspectCache,
    /// Run the encoder into the partial file and report `Encoded`.
    Encode,
    /// Move the partial file to the cache and report `Moved`.
    Move,
    /// Remove the partial file, then look at the cache and report `Cached`.
    DropPartAndInspect,
    /// Remove the partial file when `drop_part`, then end: with the cached
    /// preview on `Ok`, with the message on `Err`.
    Finish { drop_part: bool, result: Result<(), String> },
    /// The preview is finished; nothing is left to do.
    Idle,
}

/// A cached preview is used only when it exists and is not empty.
pub open spec fn cache_usable(size: Option<u64>) -> bool {
    size matches Some(k) && k > 0
}

/// The message when the finished preview cannot enter the cache.
pub open spec fn cache_error_text(e: Seq<char>) -> Seq<char> {
    "Кэш предпросмотра: "@ + e
}

/// The action a phase waits to have done.
pub open spec fn awaited(phase: ProxyPhase) -> ProxyAction {
    match phase {
        ProxyPhase::Start => ProxyAction::InspectCache,
        ProxyPhase::Encoding => ProxyAction::Encode,
        ProxyPhase::Moving => ProxyAction::Move,
        ProxyPhase::Rechecking(_) => ProxyAction::DropPartAndInspect,
        ProxyPhase::Done => ProxyAction::Idle,
    }
}

/// The first step: look at the cache.
pub fn proxy_begin() -> (r: (ProxyPhase, ProxyAction))
    ensures
        r.0 is Start,
        r.1 is InspectCache,
{
    (ProxyPhase::Start, ProxyAction::InspectCache)
}

fn cache_error(e: &str) -> (r: String)
    ensures
        r@ == cache_error_text(e@),
{
    let mut v = chars_of("Кэш предпросмотра: ");
    push_str(&mut v, e);
    string_from_chars(&v)
}

/// Takes what the caller reports and decides the next step.
///
/// A usable cached preview is returned at once. Otherwise the encoder
/// runs; when it fails, the partial file is removed and its error
/// returned. A complete partial file is moved into the cache. When the
/// move fails, the partial file is removed and the cache looked at again:
/// a parallel run of the same input may have filled it, and then its
/// preview is returned; otherwise the move's error is. An event that the
/// phase does not wait for changes nothing and repeats the awaited action.
pub fn proxy_step(phase: ProxyPhase, ev: ProxyEvent) -> (r: (ProxyPhase, ProxyAction))
    ensures
        match (phase, ev) {
            (ProxyPhase::Start, ProxyEvent::Cached(c)) => if cache_usable(c) {
                &&& r.0 is Done
                &&& r.1 == ProxyAction::Finish { drop_part: false, result: Ok(()) }
            } else {
                r.0 is Encoding && r.1 is Encode
            },
            (ProxyPhase::Encoding, ProxyEvent::Encoded(Ok(()))) => r.0 is Moving && r.1 is Move,
            (ProxyPhase::Encoding, ProxyEvent::Encoded(Err(e))) => {
                &&& r.0 is Done
                &&& r.1 == ProxyAction::Finish { drop_part: true, result: Err(e) }
            },
            (ProxyPhase::Moving, ProxyEvent::Moved(Ok(()))) => {
                &&& r.0 is Done
                &&& r.1 == ProxyAction::Finish { drop_part: false, result: Ok(()) }
            },
            (ProxyPhase::Moving, ProxyEvent::Moved(Err(e))) => {
                &&& r.0 == ProxyPhase::Rechecking(e)
                &&& r.1 is DropPartAndInspect
            },
            (ProxyPhase::Rechecking(e), ProxyEvent::Cached(c)) => {
                &&& r.0 is Done
                &&& if cache_usable(c) {
                    r.1 == ProxyAction::Finish { drop_part: false, result: Ok(()) }
                } else {
                    &&& r.1 matches ProxyAction::Finish { drop_part, result }
                    &&& !drop_part
                    &&& result matches Err(m)
                    &&& m@ == cache_error_text(e@)
                }
            },
            (p, _) => r.0 == p && r.1 == awaited(p),
        },
{
    match (phase, ev) {
        (ProxyPhase::Start, ProxyEvent::Cached(c)) => {
            let usable = match c {
                Some(k) => k > 0,
                None => false,
            };
            if usable {
                (ProxyPhase::Done, ProxyAction::Finish { drop_part: false, result: Ok(()) })
            } else {
                (ProxyPhase::Encoding, ProxyAction::Encode)
            }
        },
        (ProxyPhase::Encoding, ProxyEvent::Encoded(res)) => match res {
            Ok(()) => (ProxyPhase::Moving, ProxyAction::Move),
            Err(e) => (ProxyPhase::Done, ProxyAction::Finish { drop_part: true, result: Err(e) }),
        },
        (ProxyPhase::Moving, ProxyEvent::Moved(res)) => match res {
            Ok(()) => (ProxyPhase::Done, ProxyAction::Finish { drop_part: false, result: Ok(()) }),
            Err(e) => (ProxyPhase::Rechecking(e), ProxyAction::DropPartAndInspect),
        },
        (ProxyPhase::Rechecking(e), ProxyEvent::Cached(c)) => {
            let usable = match c {
                Some(k) => k > 0,
                None => false,
            };
            if usable {
                (ProxyPhase::Done, ProxyAction::Finish { drop_part: false, result: Ok(()) })
            } else {
                let m = cache_error(e.as_str());
                (ProxyPhase::Done, ProxyAction::Finish { drop_part: false, result: Err(m) })
            }
        },
        (p, _) => {
            let a = match &p {
                ProxyPhase::Start => ProxyAction::InspectCache,
                ProxyPhase::Encoding => ProxyAction::Encode,
                ProxyPhase::Moving => ProxyAction::Move,
                ProxyPhase::Rechecking(_) => ProxyAction::DropPartAndInspect,
                ProxyPhase::Done => ProxyAction::Idle,
            };
            (p, a)
        },
    }
}

} // verus!
