//! Card queues and the numbers that stand for them in the store.

use vstd::prelude::*;

verus! {

/// The scheduling queue of a card.
#[derive(Debug, Clone, Copy, PartialEq, Eq, Structural)]
pub enum CardQueue {
    /// Not yet studied.
    New,
    /// In learning, due at a time of day.
    Learn,
    /// In review, due on a day.
    Review,
    /// In learning, due on a day.
    DayLearn,
    /// A failed card of a preview.
    PreviewRepeat,
    /// Suspended by the user.
    Suspended,
    /// Buried by the scheduler along with a sibling.
    SchedBuried,
    /// Buried by the user.
    UserBuried,
}

impl CardQueue {
    /// The number under which the store keeps this queue.
    pub open spec fn spec_code(self) -> i8 {
        match self {
            CardQueue::New => 0,
            CardQueue::Learn => 1,
            CardQueue::Review => 2,
            CardQueue::DayLearn => 3,
            CardQueue::PreviewRepeat => 4,
            CardQueue::Suspended => -1i8,
            CardQueue::SchedBuried => -2i8,
            CardQueue::UserBuried => -3i8,
        }
    }

    /// The number under which the store keeps this queue.
    #[verifier::when_used_as_spec(spec_code)]
    pub fn code(self) -> (code: i8)
        ensures
            code == self.spec_code(),
    {
        match self {
            CardQueue::New => 0,
            CardQueue::Learn => 1,
            CardQueue::Review => 2,
            CardQueue::DayLearn => 3,
            CardQueue::PreviewRepeat => 4,
            CardQueue::Suspended => -1,
            CardQueue::SchedBuried => -2,
            CardQueue::UserBuried => -3,
        }
    }
}

} // verus!
