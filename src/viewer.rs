use crate::decode::{decode, decoded_as, lemma_same_listing, registry_of, HEADER_LEN};
use crate::entry::{rows_of, ArchiveEntry};
use vstd::prelude::*;

verus! {

/// What the screen shows: nothing loaded yet, the entries of the last archive
/// that was read, or why the last read buffer was rejected.
pub enum ViewerState {
    Empty,
    Loaded(Vec<ArchiveEntry>),
    Failed(String),
}

/// The state after one completed selection: a dismissed picker (`None`)
/// changes nothing; a decoded archive replaces whatever was shown; a rejected
/// buffer shows the reason.
pub open spec fn transition(
    s: ViewerState,
    outcome: Option<Result<Vec<ArchiveEntry>, String>>,
) -> ViewerState {
    match outcome {
        None => s,
        Some(Ok(entries)) => ViewerState::Loaded(entries),
        Some(Err(reason)) => ViewerState::Failed(reason),
    }
}

/// The state after a sequence of completed selections, in order.
pub open spec fn run(
    s: ViewerState,
    outcomes: Seq<Option<Result<Vec<ArchiveEntry>, String>>>,
) -> ViewerState
    decreases outcomes.len(),
{
    if outcomes.len() == 0 {
        s
    } else {
        transition(run(s, outcomes.drop_last()), outcomes.last())
    }
}

/// Text of the status line before any archive is loaded.
pub const PENDING: &'static str = "Pending file\u{2026}";

/// Text of the status line while an archive is shown.
pub const LOADED: &'static str = "File loaded successfully";

/// Opening of the status line after a failed load; the reason follows.
pub const FAILED_PREFIX: &'static str = "Could not load the file: ";

/// `s` shows what decoding `bytes` gives: its entries, or its failure.
pub open spec fn shows(s: ViewerState, bytes: Seq<u8>) -> bool {
    match s {
        ViewerState::Empty => false,
        ViewerState::Loaded(entries) => decoded_as(Ok(entries), bytes),
        ViewerState::Failed(reason) => decoded_as(Err(reason), bytes),
    }
}

/// `after` and `rerender` are what a selection message `msg` (the bytes of the
/// chosen file, or `None` for a dismissed picker) makes of `before`.
pub open spec fn updated_by(
    before: ViewerState,
    after: ViewerState,
    msg: Option<Vec<u8>>,
    rerender: bool,
) -> bool {
    match msg {
        None => after == before && !rerender,
        Some(file) => {
            &&& rerender
            &&& shows(after, file@)
            &&& (file@.len() < HEADER_LEN ==> after is Failed)
        },
    }
}

/// The state after selecting a file depends on the file alone: two states,
/// whatever they held, show the same entries in the same order, or the same
/// failure, once given the same bytes.
pub proof fn lemma_update_depends_on_bytes_only(
    x0: ViewerState,
    x1: ViewerState,
    rx: bool,
    y0: ViewerState,
    y1: ViewerState,
    ry: bool,
    file: Vec<u8>,
)
    requires
        updated_by(x0, x1, Some(file), rx),
        updated_by(y0, y1, Some(file), ry),
    ensures
        x1 is Loaded <==> y1 is Loaded,
        x1 is Loaded ==> rows_of(x1->Loaded_0@) == rows_of(y1->Loaded_0@),
        x1 is Failed ==> y1 is Failed && x1->Failed_0@ == y1->Failed_0@,
{
    if x1 is Loaded {
        lemma_same_listing(
            rows_of(x1->Loaded_0@),
            rows_of(y1->Loaded_0@),
            registry_of(file@)->Some_0,
        );
    }
}

/// Consecutive states of a viewer: each follows from the one before by a
/// selection message.
pub open spec fn follows(states: Seq<ViewerState>, msgs: Seq<Option<Vec<u8>>>) -> bool {
    &&& states.len() == msgs.len() + 1
    &&& forall|i: int|
        0 <= i < msgs.len() ==> updated_by(states[i], states[i + 1], #[trigger] msgs[i], true)
            || updated_by(states[i], states[i + 1], msgs[i], false)
}

/// After a run of selections, the viewer shows what decoding the last chosen
/// file gives, whatever came before; where that file decodes, it shows its
/// entries.
pub proof fn lemma_last_selection_decides(
    states: Seq<ViewerState>,
    msgs: Seq<Option<Vec<u8>>>,
    last: int,
)
    requires
        follows(states, msgs),
        0 <= last < msgs.len(),
        msgs[last] is Some,
        forall|i: int| last < i < msgs.len() ==> #[trigger] msgs[i] is None,
    ensures
        shows(states.last(), msgs[last]->Some_0@),
        registry_of(msgs[last]->Some_0@) is Some ==> states.last() is Loaded,
{
    let n = msgs.len() as int;
    lemma_unchanged_after(states, msgs, last, n);
    assert(updated_by(states[last], states[last + 1], msgs[last], true) || updated_by(
        states[last],
        states[last + 1],
        msgs[last],
        false,
    ));
}

proof fn lemma_unchanged_after(states: Seq<ViewerState>, msgs: Seq<Option<Vec<u8>>>, last: int, k: int)
    requires
        follows(states, msgs),
        0 <= last < msgs.len(),
        forall|i: int| last < i < msgs.len() ==> #[trigger] msgs[i] is None,
        last + 1 <= k <= msgs.len(),
    ensures
        states[k] == states[last + 1],
    decreases k,
{
    if k > last + 1 {
        lemma_unchanged_after(states, msgs, last, k - 1);
        assert(msgs[k - 1] is None);
        assert(updated_by(states[k - 1], states[k], msgs[k - 1], true) || updated_by(
            states[k - 1],
            states[k],
            msgs[k - 1],
            false,
        ));
    }
}

/// Where every completed selection decoded successfully, the state shows the
/// entries of the last one, in their order, whatever came before.
pub proof fn lemma_last_success_wins(
    s: ViewerState,
    outcomes: Seq<Option<Result<Vec<ArchiveEntry>, String>>>,
    last: int,
)
    requires
        0 <= last < outcomes.len(),
        outcomes[last] is Some,
        forall|i: int| 0 <= i < outcomes.len() && #[trigger] outcomes[i] is Some ==> outcomes[i]->Some_0 is Ok,
        forall|i: int| last < i < outcomes.len() ==> #[trigger] outcomes[i] is None,
    ensures
        run(s, outcomes) == ViewerState::Loaded(outcomes[last]->Some_0->Ok_0),
        rows_of(run(s, outcomes)->Loaded_0@) == rows_of(outcomes[last]->Some_0->Ok_0@),
    decreases outcomes.len(),
{
    let n = outcomes.len() - 1;
    if last < n {
        assert(outcomes[n] is None);
        let rest = outcomes.drop_last();
        assert forall|i: int| last < i < rest.len() implies #[trigger] rest[i] is None by {
            assert(rest[i] == outcomes[i]);
        }
        assert forall|i: int| 0 <= i < rest.len() && #[trigger] rest[i] is Some implies rest[i]->Some_0 is Ok by {
            assert(rest[i] == outcomes[i]);
        }
        lemma_last_success_wins(s, rest, last);
    }
}

impl ViewerState {
    /// The state at startup: no archive loaded.
    pub fn new() -> (r: ViewerState)
        ensures
            r is Empty,
    {
        ViewerState::Empty
    }

    /// Applies the outcome of one completed selection; returns whether the
    /// view must be drawn again.
    pub fn apply(&mut self, outcome: Option<Result<Vec<ArchiveEntry>, String>>) -> (rerender: bool)
        ensures
            *final(self) == transition(*old(self), outcome),
            rerender == outcome is Some,
    {
        match outcome {
            None => false,
            Some(Ok(entries)) => {
                *self = ViewerState::Loaded(entries);
                true
            },
            Some(Err(reason)) => {
                *self = ViewerState::Failed(reason);
                true
            },
        }
    }

    /// Handles a selection message: decodes the chosen file's bytes and
    /// shows the result; a dismissed picker is ignored.
    pub fn update(&mut self, msg: Option<Vec<u8>>) -> (rerender: bool)
        ensures
            updated_by(*old(self), *final(self), msg, rerender),
    {
        match msg {
            None => false,
            Some(bytes) => {
                let outcome = decode(bytes);
                let rerender = self.apply(Some(outcome));
                rerender
            },
        }
    }

    /// The status line above the entry list.
    pub fn status_line(&self) -> (r: String)
        ensures
            self is Empty ==> r@ == PENDING@,
            self is Loaded ==> r@ == LOADED@,
            self is Failed ==> r@ == FAILED_PREFIX@ + self->Failed_0@,
    {
        match self {
            ViewerState::Empty => String::from_str(PENDING),
            ViewerState::Loaded(_) => String::from_str(LOADED),
            ViewerState::Failed(reason) => String::from_str(FAILED_PREFIX).concat(reason.as_str()),
        }
    }

    /// The rows to display: one per entry of the loaded archive, in its
    /// order; none when no archive is loaded.
    pub fn rows(&self) -> (r: Vec<ArchiveEntry>)
        ensures
            self is Loaded ==> rows_of(r@) == rows_of(self->Loaded_0@),
            !(self is Loaded) ==> r@.len() == 0,
    {
        let mut out: Vec<ArchiveEntry> = Vec::new();
        match self {
            ViewerState::Loaded(entries) => {
                let mut i: usize = 0;
                while i < entries.len()
                    invariant
                        i <= entries@.len(),
                        out@.len() == i,
                        rows_of(out@) =~= rows_of(entries@).subrange(0, i as int),
                    decreases entries@.len() - i,
                {
                    let e = entries[i].duplicate();
                    let ghost prev = out@;
                    out.push(e);
                    i = i + 1;
                    assert forall|k: int| 0 <= k < i implies #[trigger] rows_of(out@)[k]
                        == rows_of(entries@)[k] by {
                        if k < i - 1 {
                            assert(out@[k] == prev[k]);
                            assert(rows_of(prev)[k] == rows_of(entries@).subrange(0, i - 1)[k]);
                        }
                    }
                    assert(rows_of(out@) =~= rows_of(entries@).subrange(0, i as int));
                }
                assert(rows_of(entries@).subrange(0, i as int) =~= rows_of(entries@));
            },
            _ => {},
        }
        out
    }
}

} // verus!
