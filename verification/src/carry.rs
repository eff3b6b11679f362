//! Bringing a database written under a retired projection name up to this one.
//!
//! The mechanism is the checkpoint, keyed by the projection's name, and the whole of the
//! migration is which name has one: a retired name with a cursor and a live name without is a
//! file this build has not folded yet. The tables in it were written by the old fold, so they
//! are emptied and replayed rather than added to.
//!
//! The retired row cannot be removed. It is dragged up to where the live model stands instead:
//! a removal of history names the consumer with the lowest cursor and refuses to go past it,
//! so a row parked at an old head would block it on behalf of a reader that does not exist.
use vstd::prelude::*;
use vstd::string::*;

use crate::projection::CardsProjection;

verus! {

/// Projection names this build has retired, newest last.
pub open spec fn retired_names() -> Seq<Seq<char>> {
    seq!["cards_v1"@, "cards_v2"@, "cards_v3"@]
}

/// How many names are retired.
pub const RETIRED_COUNT: usize = 3;

/// The retired name number `i`.
fn retired_name(i: usize) -> (r: &'static str)
    requires
        i < RETIRED_COUNT,
    ensures
        r@ == retired_names()[i as int],
{
    if i == 0 {
        "cards_v1"
    } else if i == 1 {
        "cards_v2"
    } else {
        "cards_v3"
    }
}

/// What is done next. Each asks for one answer, a position, or 0 where there is none to give.
#[derive(Debug)]
pub enum CarryStep {
    /// Load the cursor of this consumer: 0 where it has none.
    Load { consumer: &'static str },
    /// Empty the read model and replay the log into it.
    Rebuild,
    /// Ask where the live model stands.
    LivePosition,
    /// Save this cursor for this consumer.
    Save { consumer: &'static str, position: u64 },
    Done,
}

/// The mathematical reading of a [`CarryStep`].
pub enum StepView {
    Load { consumer: Seq<char> },
    Rebuild,
    LivePosition,
    Save { consumer: Seq<char>, position: u64 },
    Done,
}

impl View for CarryStep {
    type V = StepView;

    open spec fn view(&self) -> StepView {
        match self {
            CarryStep::Load { consumer } => StepView::Load { consumer: consumer@ },
            CarryStep::Rebuild => StepView::Rebuild,
            CarryStep::LivePosition => StepView::LivePosition,
            CarryStep::Save { consumer, position } => StepView::Save {
                consumer: consumer@,
                position: *position,
            },
            CarryStep::Done => StepView::Done,
        }
    }
}

/// Where a migration stands: which answer it waits for.
#[derive(Clone, Copy, Debug)]
pub enum CarryForward {
    /// For the live cursor.
    Live,
    /// For the cursor of a retired name.
    Retired { index: usize, live: u64, rebuilt: bool },
    /// For the rebuild to be done.
    Rebuilding { index: usize, live: u64, at: u64 },
    /// For where the live model stands.
    Placing { index: usize, live: u64, rebuilt: bool, at: u64 },
    /// For a cursor to be saved.
    Saving { index: usize, live: u64, rebuilt: bool },
    Done,
}

impl CarryForward {
    /// Every index is that of a retired name.
    pub open spec fn valid(self) -> bool {
        match self {
            CarryForward::Live | CarryForward::Done => true,
            CarryForward::Retired { index, .. } => index < RETIRED_COUNT,
            CarryForward::Rebuilding { index, .. } => index < RETIRED_COUNT,
            CarryForward::Placing { index, .. } => index < RETIRED_COUNT,
            CarryForward::Saving { index, .. } => index < RETIRED_COUNT,
        }
    }
}

/// Going on to the retired name number `index`, if there is one.
pub open spec fn going_on(index: int, live: u64, rebuilt: bool) -> (CarryForward, StepView) {
    if 0 <= index < RETIRED_COUNT {
        (
            CarryForward::Retired { index: index as usize, live, rebuilt },
            StepView::Load { consumer: retired_names()[index] },
        )
    } else {
        (CarryForward::Done, StepView::Done)
    }
}

/// What an answer leads to.
///
/// A retired name without a cursor is passed over: saving one would *create* the consumer this
/// is there to keep from being a problem. The first with a cursor has the model rebuilt, where
/// the live name has none. A cursor behind the live model is dragged up to it.
pub open spec fn answered(state: CarryForward, answer: u64) -> (CarryForward, StepView) {
    match state {
        CarryForward::Live => going_on(0, answer, false),
        CarryForward::Retired { index, live, rebuilt } => if answer == 0 {
            going_on(index + 1, live, rebuilt)
        } else if live == 0 && !rebuilt {
            (CarryForward::Rebuilding { index, live, at: answer }, StepView::Rebuild)
        } else {
            (
                CarryForward::Placing { index, live, rebuilt, at: answer },
                StepView::LivePosition,
            )
        },
        CarryForward::Rebuilding { index, live, at } => (
            CarryForward::Placing { index, live, rebuilt: true, at },
            StepView::LivePosition,
        ),
        CarryForward::Placing { index, live, rebuilt, at } => if at < answer {
            (
                CarryForward::Saving { index, live, rebuilt },
                StepView::Save { consumer: retired_names()[index as int], position: answer },
            )
        } else {
            going_on(index + 1, live, rebuilt)
        },
        CarryForward::Saving { index, live, rebuilt } => going_on(index + 1, live, rebuilt),
        CarryForward::Done => (CarryForward::Done, StepView::Done),
    }
}

impl CarryForward {
    /// A migration at its beginning, and the first thing it does: load the live cursor.
    pub fn start() -> (r: (CarryForward, CarryStep))
        ensures
            r.0 == CarryForward::Live,
            r.1@ == (StepView::Load { consumer: CardsProjection::NAME@ }),
    {
        (CarryForward::Live, CarryStep::Load { consumer: CardsProjection::NAME })
    }

    fn go_on(index: usize, live: u64, rebuilt: bool) -> (r: (CarryForward, CarryStep))
        ensures
            (r.0, r.1@) == going_on(index as int, live, rebuilt),
    {
        if index < RETIRED_COUNT {
            (
                CarryForward::Retired { index, live, rebuilt },
                CarryStep::Load { consumer: retired_name(index) },
            )
        } else {
            (CarryForward::Done, CarryStep::Done)
        }
    }

    /// What is done next, after the answer to what was done last.
    pub fn next(self, answer: u64) -> (r: (CarryForward, CarryStep))
        requires
            self.valid(),
        ensures
            (r.0, r.1@) == answered(self, answer),
            r.0.valid(),
    {
        match self {
            CarryForward::Live => CarryForward::go_on(0, answer, false),
            CarryForward::Retired { index, live, rebuilt } => if answer == 0 {
                CarryForward::go_on(index + 1, live, rebuilt)
            } else if live == 0 && !rebuilt {
                (CarryForward::Rebuilding { index, live, at: answer }, CarryStep::Rebuild)
            } else {
                (
                    CarryForward::Placing { index, live, rebuilt, at: answer },
                    CarryStep::LivePosition,
                )
            },
            CarryForward::Rebuilding { index, live, at } => (
                CarryForward::Placing { index, live, rebuilt: true, at },
                CarryStep::LivePosition,
            ),
            CarryForward::Placing { index, live, rebuilt, at } => if at < answer {
                (
                    CarryForward::Saving { index, live, rebuilt },
                    CarryStep::Save { consumer: retired_name(index), position: answer },
                )
            } else {
                CarryForward::go_on(index + 1, live, rebuilt)
            },
            CarryForward::Saving { index, live, rebuilt } => CarryForward::go_on(
                index + 1,
                live,
                rebuilt,
            ),
            CarryForward::Done => (CarryForward::Done, CarryStep::Done),
        }
    }
}

/// The cursors of a database: where each consumer stands, where a replay of the log ends, and
/// how often the model was rebuilt.
pub struct Cursors {
    pub at: Map<Seq<char>, u64>,
    pub head: u64,
    pub rebuilds: nat,
}

impl Cursors {
    /// Where a consumer stands: 0 where it has no cursor.
    pub open spec fn cursor(self, consumer: Seq<char>) -> u64 {
        if self.at.contains_key(consumer) {
            self.at[consumer]
        } else {
            0
        }
    }
}

/// What a step does to the cursors, and what it answers.
pub open spec fn performed(c: Cursors, step: StepView) -> (Cursors, u64) {
    match step {
        StepView::Load { consumer } => (c, c.cursor(consumer)),
        StepView::Rebuild => (
            Cursors {
                at: c.at.insert(CardsProjection::NAME@, c.head),
                rebuilds: c.rebuilds + 1,
                ..c
            },
            0,
        ),
        StepView::LivePosition => (c, c.cursor(CardsProjection::NAME@)),
        StepView::Save { consumer, position } => (
            Cursors { at: c.at.insert(consumer, position), ..c },
            0,
        ),
        StepView::Done => (c, 0),
    }
}

/// The cursors after `fuel` steps, and where the migration then stands.
pub open spec fn carried_on(c: Cursors, state: CarryForward, step: StepView, fuel: nat) -> (
    Cursors,
    CarryForward,
)
    decreases fuel,
{
    if fuel == 0 {
        (c, state)
    } else {
        let (next, answer) = performed(c, step);
        let (state, step) = answered(state, answer);
        carried_on(next, state, step, (fuel - 1) as nat)
    }
}

/// What the migration of one retired name does to the cursors.
spec fn one_carried(c: Cursors, index: int, live: u64, rebuilt: bool) -> (Cursors, bool) {
    let name = retired_names()[index];
    let at = c.cursor(name);
    if at == 0 {
        (c, rebuilt)
    } else {
        let rebuild = live == 0 && !rebuilt;
        let next = if rebuild {
            performed(c, StepView::Rebuild).0
        } else {
            c
        };
        let now = next.cursor(CardsProjection::NAME@);
        (
            if at < now {
                Cursors { at: next.at.insert(name, now), ..next }
            } else {
                next
            },
            rebuilt || rebuild,
        )
    }
}

proof fn lemma_done_stays(c: Cursors, fuel: nat)
    ensures
        carried_on(c, CarryForward::Done, StepView::Done, fuel) == (c, CarryForward::Done),
    decreases fuel,
{
    if fuel > 0 {
        lemma_done_stays(c, (fuel - 1) as nat);
    }
}

/// At most four steps to a retired name.
proof fn lemma_one(c: Cursors, index: int, live: u64, rebuilt: bool, fuel: nat) -> (used: nat)
    requires
        0 <= index < RETIRED_COUNT,
        fuel >= 4,
    ensures
        used <= 4,
        ({
            let (state, step) = going_on(index, live, rebuilt);
            let (next, done) = one_carried(c, index, live, rebuilt);
            let (after, follow) = going_on(index + 1, live, done);
            carried_on(c, state, step, fuel) == carried_on(
                next,
                after,
                follow,
                (fuel - used) as nat,
            )
        }),
{
    reveal_with_fuel(carried_on, 5);
    let at = c.cursor(retired_names()[index]);
    if at == 0 {
        1
    } else {
        let rebuild = live == 0 && !rebuilt;
        let next = if rebuild {
            performed(c, StepView::Rebuild).0
        } else {
            c
        };
        let now = next.cursor(CardsProjection::NAME@);
        if rebuild && at < now {
            4
        } else if rebuild || at < now {
            3
        } else {
            2
        }
    }
}

proof fn lemma_retired_names()
    ensures
        retired_names()[0] != retired_names()[1],
        retired_names()[0] != retired_names()[2],
        retired_names()[1] != retired_names()[2],
        retired_names()[1] == CardsProjection::NAME@,
{
    reveal_strlit("cards_v1");
    reveal_strlit("cards_v2");
    reveal_strlit("cards_v3");
    assert("cards_v1"@[7] != "cards_v2"@[7]);
    assert("cards_v1"@[7] != "cards_v3"@[7]);
    assert("cards_v2"@[7] != "cards_v3"@[7]);
}

/// The cursors a whole migration leaves.
pub open spec fn carried_forward(c: Cursors) -> Cursors {
    carried_on(
        c,
        CarryForward::Live,
        StepView::Load { consumer: CardsProjection::NAME@ },
        STEPS as nat,
    ).0
}

/// More steps than a migration takes.
pub const STEPS: u64 = 16;

/// What a migration is for, and what it leaves alone. It ends. Afterwards a retired name that had
/// a cursor stands where the live model does, or further where it already stood further, and none
/// that had none was given one. The model
/// is rebuilt once where the live name had no cursor and a retired one had, and never
/// otherwise. Every other consumer stands where it stood.
pub proof fn law_carry_forward(c: Cursors, name: Seq<char>)
    ensures
        ({
            let r = carried_forward(c);
            let live = CardsProjection::NAME@;
            let behind = c.cursor(live) == 0 && exists|i: int|
                0 <= i < RETIRED_COUNT && c.cursor(#[trigger] retired_names()[i]) != 0;
            &&& carried_on(
                c,
                CarryForward::Live,
                StepView::Load { consumer: live },
                STEPS as nat,
            ).1 is Done
            &&& r.rebuilds == c.rebuilds + (if behind {
                1nat
            } else {
                0nat
            })
            &&& r.cursor(live) == if behind {
                c.head
            } else {
                c.cursor(live)
            }
            &&& retired_names().contains(name) && name != live && c.cursor(name) != 0 ==> r.cursor(
                name,
            ) == if c.cursor(name) < r.cursor(live) {
                r.cursor(live)
            } else {
                c.cursor(name)
            }
            &&& name != live && c.cursor(name) == 0 ==> r.cursor(name) == 0 && (r.at.contains_key(
                name,
            ) <==> c.at.contains_key(name))
            &&& name != live && !retired_names().contains(name) ==> r.cursor(name) == c.cursor(name)
        }),
{
    lemma_retired_names();
    let live = c.cursor(CardsProjection::NAME@);
    let first = StepView::Load { consumer: CardsProjection::NAME@ };
    let fuel = (STEPS - 1) as nat;
    let names = retired_names();
    assert(carried_on(c, CarryForward::Live, first, STEPS as nat) == carried_on(
        c,
        going_on(0, live, false).0,
        going_on(0, live, false).1,
        fuel,
    ));
    let (c1, b1) = one_carried(c, 0, live, false);
    let used1 = lemma_one(c, 0, live, false, fuel);
    let (c2, b2) = one_carried(c1, 1, live, b1);
    let used2 = lemma_one(c1, 1, live, b1, (fuel - used1) as nat);
    let (c3, b3) = one_carried(c2, 2, live, b2);
    let used3 = lemma_one(c2, 2, live, b2, (fuel - used1 - used2) as nat);
    lemma_done_stays(c3, (fuel - used1 - used2 - used3) as nat);
    assert(names.len() == 3);
    assert(names.contains(names[0]) && names.contains(names[1]) && names.contains(names[2]));
    if names.contains(name) {
        let i = names.index_of(name);
        assert(i == 0 || i == 1 || i == 2);
    }
    assert((exists|i: int| 0 <= i < RETIRED_COUNT && c.cursor(#[trigger] names[i]) != 0) == (
    c.cursor(names[0]) != 0 || c.cursor(names[1]) != 0 || c.cursor(names[2]) != 0));
}

} // verus!
