use vstd::prelude::*;

verus! {

/// An input event, reduced to what the frame loop decides on.
#[derive(Clone, Copy, Debug, PartialEq, Eq)]
pub enum Input {
    /// The window was closed.
    Quit,
    /// A key, by its key code, was pressed.
    KeyDown(i32),
    /// Anything else.
    Other,
}

/// What one frame's events mean: `None` when they ask to stop (a close, or
/// the `escape` key), otherwise the keys pressed, in order.
pub open spec fn frame_keys(events: Seq<Input>, escape: i32) -> Option<Seq<i32>>
    decreases events.len(),
{
    if events.len() == 0 {
        Some(Seq::empty())
    } else {
        match frame_keys(events.drop_last(), escape) {
            None => None,
            Some(keys) => match events.last() {
                Input::Quit => None,
                Input::KeyDown(k) => if k == escape {
                    None
                } else {
                    Some(keys.push(k))
                },
                Input::Other => Some(keys),
            },
        }
    }
}

/// Decides one frame of the event loop from its events.
pub fn poll_frame(events: &Vec<Input>, escape: i32) -> (r: Option<Vec<i32>>)
    ensures
        match frame_keys(events@, escape) {
            None => r is None,
            Some(keys) => r is Some && r->0@ == keys,
        },
{
    let mut keys: Vec<i32> = Vec::new();
    let mut i: usize = 0;
    while i < events.len()
        invariant
            i <= events@.len(),
            frame_keys(events@.subrange(0, i as int), escape) == Some(keys@),
        decreases events@.len() - i,
    {
        let ghost prefix = events@.subrange(0, i + 1);
        assert(prefix.drop_last() =~= events@.subrange(0, i as int));
        match events[i] {
            Input::Quit => {
                proof {
                    lemma_stop_persists(events@, escape, i + 1);
                }
                return None;
            },
            Input::KeyDown(k) => {
                if k == escape {
                    proof {
                        lemma_stop_persists(events@, escape, i + 1);
                    }
                    return None;
                }
                keys.push(k);
            },
            Input::Other => {},
        }
        i = i + 1;
    }
    assert(events@.subrange(0, events@.len() as int) =~= events@);
    Some(keys)
}

/// Once a prefix of the events asks to stop, so do all the events.
proof fn lemma_stop_persists(events: Seq<Input>, escape: i32, n: int)
    requires
        0 <= n <= events.len(),
        frame_keys(events.subrange(0, n), escape) is None,
    ensures
        frame_keys(events, escape) is None,
    decreases events.len() - n,
{
    if n < events.len() {
        let next = events.subrange(0, n + 1);
        assert(next.drop_last() =~= events.subrange(0, n));
        lemma_stop_persists(events, escape, n + 1);
    } else {
        assert(events.subrange(0, n) =~= events);
    }
}

} // verus!
