//! Sliding-window statistic of accept/reject outcomes.

use std::collections::VecDeque;
use crate::utils::{fifo_extend, fifo_push, lemma_fifo_holds_most_recent, most_recent};
use vstd::prelude::*;

verus! {

/// Number of `true` entries of a sequence of outcomes.
pub open spec fn count_accepted(s: Seq<bool>) -> nat
    decreases s.len(),
{
    if s.len() == 0 {
        0
    } else {
        count_accepted(s.drop_last()) + if s.last() {
            1nat
        } else {
            0nat
        }
    }
}

/// The window after recording every outcome of `history`, oldest first,
/// starting from an empty window: a full window loses its oldest entry for
/// each new one, and a window of size zero stays empty.
pub open spec fn window_of(history: Seq<bool>, window_size: nat) -> Seq<bool> {
    fifo_extend(Seq::empty(), window_size, history)
}

/// Appending one outcome adds it to the count.
pub proof fn lemma_count_push(s: Seq<bool>, b: bool)
    ensures
        count_accepted(s.push(b)) == count_accepted(s) + if b {
            1nat
        } else {
            0nat
        },
{
    assert(s.push(b).drop_last() =~= s);
}

/// Dropping the oldest outcome removes it from the count.
pub proof fn lemma_count_drop_first(s: Seq<bool>)
    requires
        s.len() > 0,
    ensures
        count_accepted(s.drop_first()) + (if s[0] {
            1nat
        } else {
            0nat
        }) == count_accepted(s),
    decreases s.len(),
{
    if s.len() == 1 {
        assert(s.drop_first() =~= Seq::<bool>::empty());
        assert(s.drop_last() =~= Seq::<bool>::empty());
    } else {
        lemma_count_drop_first(s.drop_last());
        assert(s.drop_last().drop_first() =~= s.drop_first().drop_last());
        assert(s.drop_first().last() == s.last());
        assert(s.drop_last()[0] == s[0]);
    }
}

/// The count never exceeds the number of outcomes.
pub proof fn lemma_count_bounded(s: Seq<bool>)
    ensures
        count_accepted(s) <= s.len(),
    decreases s.len(),
{
    if s.len() > 0 {
        lemma_count_bounded(s.drop_last());
    }
}

/// After any sequence of `N` recordings into a window of size `W`, the
/// window holds exactly the last `min(N, W)` outcomes, oldest first.
pub proof fn lemma_window_is_most_recent(history: Seq<bool>, window_size: nat)
    ensures
        window_of(history, window_size) == most_recent(history, window_size),
        window_of(history, window_size).len() == if history.len() <= window_size {
            history.len()
        } else {
            window_size
        },
{
    lemma_fifo_holds_most_recent(Seq::<bool>::empty(), window_size, history);
    assert(Seq::<bool>::empty() + history =~= history);
    if window_size == 0 {
        assert(most_recent(history, 0) =~= Seq::<bool>::empty());
    }
}

/// After any sequence of `N` recordings into a window of size `W`, the
/// acceptance ratio is the fraction of accepted outcomes among the last
/// `min(N, W)`: so many samples, and as many accepted as are among them.
pub proof fn lemma_ratio_of_history(history: Seq<bool>, window_size: nat, ratio: AcceptanceRatio)
    requires
        ratio.accepted == count_accepted(window_of(history, window_size)),
        ratio.samples == window_of(history, window_size).len(),
    ensures
        ratio.samples == if history.len() <= window_size {
            history.len()
        } else {
            window_size
        },
        ratio.accepted == count_accepted(most_recent(history, window_size)),
{
    lemma_window_is_most_recent(history, window_size);
}

/// An acceptance ratio as an exact fraction: `accepted` outcomes out of
/// `samples` recorded ones. With no samples the ratio counts as zero.
#[derive(Clone, Copy, Debug, PartialEq, Eq, Structural)]
pub struct AcceptanceRatio {
    /// Accepted outcomes in the window.
    pub accepted: usize,
    /// Outcomes in the window.
    pub samples: usize,
}

/// Sliding window based acceptance counter
#[derive(Debug, Clone)]
pub struct AcceptanceCounter {
    window_size: usize,
    window: VecDeque<bool>,
    accepted_count: usize,
}

impl View for AcceptanceCounter {
    type V = Seq<bool>;

    /// The recorded outcomes still in the window, oldest first.
    closed spec fn view(&self) -> Seq<bool> {
        self.window@
    }
}

impl AcceptanceCounter {
    /// Size of the sliding window.
    pub closed spec fn window_size(&self) -> nat {
        self.window_size as nat
    }

    /// The window is within its size and the running count matches it.
    pub closed spec fn wf(&self) -> bool {
        &&& self.window@.len() <= self.window_size
        &&& self.accepted_count == count_accepted(self.window@)
    }

    /// A counter in order holds no more outcomes than its window has
    /// places.
    pub proof fn lemma_within_window(&self)
        requires
            self.wf(),
        ensures
            self@.len() <= self.window_size(),
    {
    }

    /// Constructor of AcceptanceCounter
    /// - `window_size` : size of the sliding window
    pub fn new(window_size: usize) -> (counter: Self)
        ensures
            counter.wf(),
            counter@ == Seq::<bool>::empty(),
            counter.window_size() == window_size,
    {
        Self { window_size, window: VecDeque::new(), accepted_count: 0 }
    }

    /// Update the counter with a new result
    pub fn enqueue(&mut self, accepted: bool)
        requires
            old(self).wf(),
        ensures
            final(self).wf(),
            final(self).window_size() == old(self).window_size(),
            final(self)@ == fifo_push(old(self)@, old(self).window_size(), accepted),
    {
        broadcast use vstd::std_specs::vecdeque::group_vec_dequeue_axioms;

        if self.window_size == 0 {
            return ;
        }
        if self.window.len() == self.window_size {
            let oldest = self.window.pop_front();
            proof {
                lemma_count_drop_first(old(self).window@);
                assert(self.window@ =~= old(self).window@.drop_first());
            }
            if oldest == Some(true) {
                self.accepted_count = self.accepted_count - 1;
            }
        }
        proof {
            lemma_count_push(self.window@, accepted);
            lemma_count_bounded(self.window@);
        }
        self.window.push_back(accepted);
        if accepted {
            self.accepted_count = self.accepted_count + 1;
        }
    }

    /// Get the acceptance ratio
    pub fn acceptance_ratio(&self) -> (ratio: AcceptanceRatio)
        requires
            self.wf(),
        ensures
            ratio.accepted == count_accepted(self@),
            ratio.samples == self@.len(),
            ratio.accepted <= ratio.samples,
    {
        broadcast use vstd::std_specs::vecdeque::group_vec_dequeue_axioms;

        proof {
            lemma_count_bounded(self.window@);
        }
        AcceptanceRatio { accepted: self.accepted_count, samples: self.window.len() }
    }
}

impl Default for AcceptanceCounter {
    fn default() -> (counter: Self)
        ensures
            counter.wf(),
            counter@ == Seq::<bool>::empty(),
            counter.window_size() == 100,
    {
        Self::new(100)
    }
}

} // verus!
