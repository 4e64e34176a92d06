use crate::viewer::{updated_by, ViewerState};
use vstd::prelude::*;

verus! {

/// The viewer's one state together with the ticket of the most recently
/// started read. Each read gets a ticket when it starts; a read that
/// completes after a newer one was started is discarded, so the read that
/// was started last decides what is shown, whatever order they finish in.
pub struct Session {
    state: ViewerState,
    latest: u64,
}

/// `after` is `before` with one more read started, under ticket `ticket`.
pub open spec fn began(before: Session, after: Session, ticket: u64) -> bool {
    &&& ticket == before.latest_ticket() + 1
    &&& after.latest_ticket() == ticket
    &&& after.view_state() == before.view_state()
}

/// `after` and `rerender` are what completing the read with `ticket`, with
/// message `msg`, makes of `before`.
pub open spec fn completed(
    before: Session,
    after: Session,
    ticket: u64,
    msg: Option<Vec<u8>>,
    rerender: bool,
) -> bool {
    &&& after.latest_ticket() == before.latest_ticket()
    &&& ticket != before.latest_ticket() ==> after.view_state() == before.view_state() && !rerender
    &&& ticket == before.latest_ticket() ==> updated_by(
        before.view_state(),
        after.view_state(),
        msg,
        rerender,
    )
}

/// Of two reads started one after the other, the one started second decides
/// what is shown, whichever of the two completes last: completing the first
/// changes nothing, before or after the second completes.
pub proof fn lemma_latest_started_read_wins(
    s0: Session,
    s1: Session,
    t1: u64,
    s2: Session,
    t2: u64,
    first: Option<Vec<u8>>,
    second: Option<Vec<u8>>,
    a: Session,
    ra: bool,
    b: Session,
    rb: bool,
    c: Session,
    rc: bool,
    d: Session,
    rd: bool,
)
    requires
        began(s0, s1, t1),
        began(s1, s2, t2),
        completed(s2, a, t1, first, ra),
        completed(a, b, t2, second, rb),
        completed(s2, c, t2, second, rc),
        completed(c, d, t1, first, rd),
    ensures
        updated_by(s2.view_state(), b.view_state(), second, rb),
        updated_by(s2.view_state(), d.view_state(), second, rc),
        d.view_state() == c.view_state(),
        !ra && !rd,
{
}

impl Session {
    pub closed spec fn view_state(&self) -> ViewerState {
        self.state
    }

    pub closed spec fn latest_ticket(&self) -> u64 {
        self.latest
    }

    /// A session with nothing loaded and no read started.
    pub fn new() -> (r: Session)
        ensures
            r.view_state() is Empty,
            r.latest_ticket() == 0,
    {
        Session { state: ViewerState::new(), latest: 0 }
    }

    /// The state the screen is drawn from.
    pub fn state(&self) -> (r: &ViewerState)
        ensures
            *r == self.view_state(),
    {
        &self.state
    }

    /// The ticket of the most recently started read (0 before any).
    pub fn latest(&self) -> (r: u64)
        ensures
            r == self.latest_ticket(),
    {
        self.latest
    }

    /// Whether another read can still be given a fresh ticket.
    pub fn can_begin(&self) -> (r: bool)
        ensures
            r == (self.latest_ticket() < u64::MAX),
    {
        self.latest < u64::MAX
    }

    /// Starts a read and hands out its ticket, newer than every earlier one.
    pub fn begin_read(&mut self) -> (ticket: u64)
        requires
            old(self).latest_ticket() < u64::MAX,
        ensures
            began(*old(self), *final(self), ticket),
    {
        self.latest = self.latest + 1;
        self.latest
    }

    /// Completes the read with `ticket`: when it is the latest one started,
    /// its message is applied as `ViewerState::update` does; an older read's
    /// message is dropped without a redraw.
    pub fn complete(&mut self, ticket: u64, msg: Option<Vec<u8>>) -> (rerender: bool)
        ensures
            completed(*old(self), *final(self), ticket, msg, rerender),
    {
        if ticket != self.latest {
            return false;
        }
        self.state.update(msg)
    }
}

} // verus!
