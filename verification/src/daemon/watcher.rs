//! File-watcher events and the manifests they invalidate.  Watching the
//! file system and receiving the events is the program's part.
use vstd::prelude::*;

verus! {

/// An event of the file watcher.
#[derive(Debug, Clone)]
pub enum WatchEvent {
    /// A watched file was modified.
    Modified(String),
    /// A watched file was deleted.
    Deleted(String),
    /// A watched file was created (a new include, perhaps).
    Created(String),
    /// The watcher failed.
    Error(String),
}

/// The paths that the events `evs` invalidate, in order: that of each
/// modification, deletion or creation; errors invalidate nothing.
pub open spec fn invalidated(evs: Seq<WatchEvent>) -> Seq<Seq<char>>
    decreases evs.len(),
{
    if evs.len() == 0 {
        Seq::empty()
    } else {
        invalidated(evs.drop_last()) + match evs.last() {
            WatchEvent::Modified(p) => seq![p@],
            WatchEvent::Deleted(p) => seq![p@],
            WatchEvent::Created(p) => seq![p@],
            WatchEvent::Error(_) => Seq::empty(),
        }
    }
}

/// Turns the pending watcher events into the paths whose manifests must be
/// parsed again.
#[derive(Debug, Default, Clone, Copy)]
pub struct WatcherProcessor {}

impl WatcherProcessor {
    /// A processor.
    pub fn new() -> Self {
        WatcherProcessor {  }
    }

    /// The paths that the drained events `events` invalidate.
    pub fn process_events(&self, events: Vec<WatchEvent>) -> (r: Vec<String>)
        ensures
            crate::text::views(r@) == invalidated(events@),
    {
        let mut r: Vec<String> = Vec::new();
        let mut i: usize = 0;
        proof {
            assert(events@.take(0) =~= Seq::<WatchEvent>::empty());
            assert(crate::text::views(r@) =~= Seq::<Seq<char>>::empty());
        }
        while i < events.len()
            invariant
                i <= events@.len(),
                crate::text::views(r@) == invalidated(events@.take(i as int)),
            decreases events.len() - i,
        {
            let ghost r0 = crate::text::views(r@);
            match &events[i] {
                WatchEvent::Modified(p) => r.push(p.clone()),
                WatchEvent::Deleted(p) => r.push(p.clone()),
                WatchEvent::Created(p) => r.push(p.clone()),
                WatchEvent::Error(_) => {},
            }
            i = i + 1;
            proof {
                let t = events@.take(i as int);
                assert(t.drop_last() =~= events@.take(i - 1));
                assert(t.last() == events@[i - 1]);
                assert(crate::text::views(r@) =~= invalidated(t));
            }
        }
        proof {
            assert(events@.take(i as int) =~= events@);
        }
        r
    }
}

} // verus!
