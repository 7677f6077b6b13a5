use vstd::prelude::*;
use crate::color::{chars_of, string_of};
use crate::layout::{LayoutNode, build_layout_tree, built, hit_at, hit_test, style_view};
use crate::style::InheritedStyle;
use crate::timers::{Timers, after_tick, due_ids};
use crate::json::json_of_text;
use crate::tree::{Node, ParseError, node_ok, node_rel, parse_tree, MAX_DEPTH};

verus! {

/// The channel on which a script listens for touch events.
pub const EVENT_CHANNEL: &'static str = "event";

/// A script callback registered for an event channel; `callback` is the
/// handle under which the script runtime keeps the function.
#[derive(Debug, Clone)]
pub struct Listener {
    pub event: String,
    pub callback: u32,
}

/// The touch events that reach the script.
#[derive(Debug, Clone, Copy, PartialEq, Eq, Structural)]
pub enum EventName {
    PressIn,
    PressOut,
}

impl EventName {
    pub open spec fn name_of(self) -> Seq<char> {
        match self {
            EventName::PressIn => "PressIn"@,
            EventName::PressOut => "PressOut"@,
        }
    }

    /// The name under which the script sees the event.
    pub fn as_string(&self) -> (s: String)
        ensures
            s@ == self.name_of(),
    {
        match self {
            EventName::PressIn => "PressIn".to_owned(),
            EventName::PressOut => "PressOut".to_owned(),
        }
    }
}

/// The host's side of a script context: the tree the script last published,
/// whether it is new since the last frame, the registered listeners and the
/// pending timers. Not shared between threads.
#[derive(Debug)]
pub struct HostState {
    pub tree_json: String,
    pub dirty: bool,
    pub listeners: Vec<Listener>,
    pub timers: Timers,
}

/// The listener handles registered for `event`, in registration order.
pub open spec fn handles_for(ls: Seq<Listener>, event: Seq<char>) -> Seq<u32>
    decreases ls.len(),
{
    if ls.len() == 0 {
        Seq::empty()
    } else if ls.last().event@ == event {
        handles_for(ls.drop_last(), event).push(ls.last().callback)
    } else {
        handles_for(ls.drop_last(), event)
    }
}

/// The listeners other than (`event`, `callback`).
pub open spec fn listeners_without(ls: Seq<Listener>, event: Seq<char>, callback: u32) -> Seq<(Seq<char>, u32)>
    decreases ls.len(),
{
    if ls.len() == 0 {
        Seq::empty()
    } else if ls.last().event@ == event && ls.last().callback == callback {
        listeners_without(ls.drop_last(), event, callback)
    } else {
        listeners_without(ls.drop_last(), event, callback).push((ls.last().event@, ls.last().callback))
    }
}

pub open spec fn listener_views(ls: Seq<Listener>) -> Seq<(Seq<char>, u32)> {
    ls.map_values(|l: Listener| (l.event@, l.callback))
}

/// The host state as plain values: published tree, dirty flag, pending timers.
pub struct HostView {
    pub tree: Seq<char>,
    pub dirty: bool,
    pub timers: Seq<crate::timers::Timer>,
}

impl HostState {
    pub open spec fn view_of(&self) -> HostView {
        HostView { tree: self.tree_json@, dirty: self.dirty, timers: self.timers.timers@ }
    }

    pub open spec fn wf(&self) -> bool {
        self.timers.wf()
    }

    pub fn new() -> (h: HostState)
        ensures
            h.wf(),
            h.tree_json@.len() == 0,
            !h.dirty,
            h.listeners@.len() == 0,
            h.timers.timers@.len() == 0,
    {
        HostState { tree_json: String::new(), dirty: false, listeners: Vec::new(), timers: Timers::new() }
    }

    /// The script publishes a new tree: it replaces the old one and marks the
    /// frame dirty.
    pub fn publish(&mut self, json: String)
        requires
            old(self).wf(),
        ensures
            final(self).wf(),
            final(self).view_of() == published(old(self).view_of(), json@),
            final(self).listeners@ == old(self).listeners@,
            final(self).timers == old(self).timers,
    {
        self.tree_json = json;
        self.dirty = true;
    }

    /// Whether a tree was published since the last frame.
    pub fn dirty(&self) -> (d: bool)
        ensures
            d == self.dirty,
    {
        self.dirty
    }

    /// Reports whether a tree was published since the last call, and clears the mark.
    pub fn has_update(&mut self) -> (d: bool)
        ensures
            d == old(self).dirty,
            !final(self).dirty,
            final(self).tree_json == old(self).tree_json,
            final(self).listeners == old(self).listeners,
            final(self).timers == old(self).timers,
    {
        let d = self.dirty;
        self.dirty = false;
        d
    }

    /// The tree the script published last.
    pub fn read_tree(&self) -> (s: String)
        ensures
            s@ == self.tree_json@,
    {
        self.tree_json.clone()
    }

    /// Registers `callback` for `event`.
    pub fn add_listener(&mut self, event: String, callback: u32)
        ensures
            final(self).listeners@ == old(self).listeners@.push(Listener { event, callback }),
            final(self).tree_json == old(self).tree_json,
            final(self).dirty == old(self).dirty,
            final(self).timers == old(self).timers,
    {
        self.listeners.push(Listener { event, callback });
    }

    /// Removes every registration of `callback` for `event`.
    pub fn remove_listener(&mut self, event: &String, callback: u32)
        ensures
            listener_views(final(self).listeners@) == listeners_without(old(self).listeners@, event@, callback),
            final(self).tree_json == old(self).tree_json,
            final(self).dirty == old(self).dirty,
            final(self).timers == old(self).timers,
    {
        let ghost ls = self.listeners@;
        let mut kept: Vec<Listener> = Vec::new();
        let mut i: usize = 0;
        while i < self.listeners.len()
            invariant
                i <= ls.len(),
                self.listeners@ == ls,
                *self == *old(self),
                listener_views(kept@) == listeners_without(ls.take(i as int), event@, callback),
            decreases ls.len() - i,
        {
            proof {
                assert(ls.take(i + 1).drop_last() =~= ls.take(i as int));
                assert(ls.take(i + 1).last() == ls[i as int]);
            }
            let l = &self.listeners[i];
            let same = l.event == *event && l.callback == callback;
            if !same {
                let ghost pre = kept@;
                kept.push(Listener { event: l.event.clone(), callback: l.callback });
                proof {
                    assert(listener_views(kept@) =~= listener_views(pre).push((ls[i as int].event@, ls[i as int].callback)));
                }
            }
            i = i + 1;
        }
        proof {
            assert(ls.take(i as int) =~= ls);
        }
        self.listeners = kept;
    }

    /// The handles to call, in order, when a touch event is dispatched.
    pub fn dispatch_targets(&self) -> (r: Vec<u32>)
        ensures
            r@ == handles_for(self.listeners@, EVENT_CHANNEL@),
    {
        let ch = EVENT_CHANNEL.to_owned();
        let mut r: Vec<u32> = Vec::new();
        let mut i: usize = 0;
        while i < self.listeners.len()
            invariant
                i <= self.listeners@.len(),
                ch@ == EVENT_CHANNEL@,
                r@ == handles_for(self.listeners@.take(i as int), EVENT_CHANNEL@),
            decreases self.listeners@.len() - i,
        {
            proof {
                assert(self.listeners@.take(i + 1).drop_last() =~= self.listeners@.take(i as int));
                assert(self.listeners@.take(i + 1).last() == self.listeners@[i as int]);
            }
            if self.listeners[i].event == ch {
                r.push(self.listeners[i].callback);
            }
            i = i + 1;
        }
        proof {
            assert(self.listeners@.take(i as int) =~= self.listeners@);
        }
        r
    }

    /// Runs the timer step of a tick: the ids of the timers due at `now`, for
    /// the caller to call back in order before draining the job queue.
    pub fn tick(&mut self, now: u64) -> (fired: Vec<u32>)
        requires
            old(self).wf(),
        ensures
            final(self).wf(),
            fired@ == due_ids(old(self).timers.timers@, now),
            final(self).view_of() == ticked(old(self).view_of(), now),
            final(self).listeners == old(self).listeners,
    {
        self.timers.tick(now)
    }

    /// Releases every listener and timer handle: done before the script
    /// runtime that owns the functions is torn down.
    pub fn teardown(&mut self)
        requires
            old(self).wf(),
        ensures
            final(self).wf(),
            final(self).listeners@.len() == 0,
            final(self).timers.timers@.len() == 0,
            final(self).tree_json == old(self).tree_json,
            final(self).dirty == old(self).dirty,
    {
        self.timers.clear();
        self.listeners = Vec::new();
    }

    /// Starts a frame: when the script published since the last frame, parses
    /// the tree it published and builds its layout tree under `base`
    /// (`Some(Ok)`), or says why the tree was refused (`Some(Err)`); the mark
    /// is cleared on success, and on a refusal the caller keeps its last
    /// good tree. `None` when nothing was published.
    pub fn begin_frame(&mut self, base: &InheritedStyle) -> (r: Option<Result<LayoutNode, ParseError>>)
        ensures
            !old(self).dirty ==> r is None && *final(self) == *old(self),
            old(self).dirty ==> r is Some,
            old(self).dirty ==> match json_of_text(old(self).tree_json@) {
                None => r matches Some(Err(e)) && e.kind is Syntax,
                Some(j) => (r matches Some(Ok(_)) <==> node_ok(j, MAX_DEPTH as nat))
                    && (r matches Some(Ok(l)) ==> exists|n: Node| node_rel(j, n, MAX_DEPTH as nat)
                        && built(n, style_view(*base), l, MAX_DEPTH as nat)),
            },
            r matches Some(Ok(_)) ==> !final(self).dirty,
            r matches Some(Err(_)) ==> final(self).dirty == old(self).dirty,
            final(self).tree_json == old(self).tree_json,
            final(self).listeners == old(self).listeners,
            final(self).timers == old(self).timers,
    {
        if !self.dirty {
            return None;
        }
        match parse_tree(self.tree_json.as_str()) {
            Ok(n) => {
                let l = build_layout_tree(&n, base);
                proof {
                    if let Some(j) = json_of_text(self.tree_json@) {
                        assert(node_rel(j, n, MAX_DEPTH as nat) && built(n, style_view(*base), l, MAX_DEPTH as nat));
                    }
                }
                self.dirty = false;
                Some(Ok(l))
            },
            Err(e) => Some(Err(e)),
        }
    }
}

/// The host after the script publishes `tree`.
pub open spec fn published(h: HostView, tree: Seq<char>) -> HostView {
    HostView { tree, dirty: true, timers: h.timers }
}

/// The host after the timer step of a tick at `now`.
pub open spec fn ticked(h: HostView, now: u64) -> HostView {
    HostView { tree: h.tree, dirty: h.dirty, timers: after_tick(h.timers, now) }
}

/// A tree published while an event is dispatched stays published through the
/// ticks that settle the dispatch: afterwards the host is dirty and holds
/// that tree, which the next frame reads.
pub proof fn lemma_publish_then_settle(h: HostView, tree: Seq<char>, now1: u64, now2: u64)
    ensures
        ticked(ticked(published(h, tree), now1), now2).dirty,
        ticked(ticked(published(h, tree), now1), now2).tree == tree,
{
}

/// Where a press lands: the stable id that the previous frame's layout
/// tree shows at (x, y), if there is a frame and anything is hit.
pub fn press_target(previous: Option<&LayoutNode>, x: i32, y: i32) -> (r: Option<u32>)
    ensures
        previous is None ==> r is None,
        previous matches Some(l) ==> r == hit_at(*l, 0, 0, x as int, y as int, MAX_DEPTH as nat),
{
    match previous {
        Some(l) => hit_test(l, x, y),
        None => None,
    }
}

/// Characters of context on each side of an error column.
pub const CONTEXT_CHARS: usize = 40;

/// The text around a failure, and a line that points at the failing column.
#[derive(Debug, Clone)]
pub struct ErrorContext {
    pub snippet: String,
    pub pointer: String,
}

/// The window of `text` around column `column` (clamped to the text): up to
/// `CONTEXT_CHARS` characters on each side.
pub open spec fn window(len: int, column: int) -> (int, int, int) {
    let c = if column > len { len } else { column };
    let start = if c > CONTEXT_CHARS { c - CONTEXT_CHARS } else { 0 };
    let end = if c + CONTEXT_CHARS < len { c + CONTEXT_CHARS } else { len };
    (c, start, end)
}

/// The snippet of `text` around `column` and, under it, spaces up to the
/// column and a caret.
pub fn error_context(text: &str, column: usize) -> (r: ErrorContext)
    ensures
        ({
            let (c, start, end) = window(text@.len() as int, column as int);
            &&& r.snippet@ == text@.subrange(start, end)
            &&& r.pointer@ == Seq::new((c - start) as nat, |i: int| ' ').push('^')
        }),
{
    let s = chars_of(text);
    let len = s.len();
    let c = if column > len { len } else { column };
    let start = if c > CONTEXT_CHARS { c - CONTEXT_CHARS } else { 0 };
    let end = if len >= CONTEXT_CHARS && c < len - CONTEXT_CHARS { c + CONTEXT_CHARS } else { len };
    let mut snip: Vec<char> = Vec::new();
    let mut i = start;
    while i < end
        invariant
            start <= i <= end <= s@.len(),
            snip@ == s@.subrange(start as int, i as int),
        decreases end - i,
    {
        snip.push(s[i]);
        proof {
            assert(snip@ =~= s@.subrange(start as int, i + 1));
        }
        i = i + 1;
    }
    let mut ptr: Vec<char> = Vec::new();
    let mut k = start;
    while k < c
        invariant
            start <= k <= c,
            ptr@ == Seq::new((k - start) as nat, |i: int| ' '),
        decreases c - k,
    {
        ptr.push(' ');
        proof {
            assert(ptr@ =~= Seq::new((k + 1 - start) as nat, |i: int| ' '));
        }
        k = k + 1;
    }
    ptr.push('^');
    ErrorContext { snippet: string_of(&snip), pointer: string_of(&ptr) }
}

} // verus!
