//! Picks the fonts that fill in what the built-in ones cannot draw.

use vstd::prelude::*;

use crate::text;

verus! {

/// How many fonts are taken at most. Each is a few MB for the lifetime of the process, and past a
/// handful the extra coverage is not worth it.
pub const MAX_FALLBACKS: usize = 4;

/// What became of a candidate.
#[derive(Clone, Copy, Debug, PartialEq, Eq, Structural)]
pub enum FontOutcome {
    /// It does not exist or could not be read.
    Missing,
    /// It cannot be used along with those that were taken before.
    Unusable,
    /// It can be used.
    Usable,
}

/// What is done about the candidates.
#[derive(Debug)]
pub enum FontAction {
    /// Read the candidate at this position, and try it under this name along with those that were
    /// taken before.
    Try(usize, String),
    /// Install those that were taken.
    Install,
    /// Leave the fonts as they are: none was taken.
    Leave,
}

/// What is done about the candidates, as values.
pub enum FontActionView {
    Try(int, Seq<char>),
    Install,
    Leave,
}

impl View for FontAction {
    type V = FontActionView;

    open spec fn view(&self) -> FontActionView {
        match *self {
            FontAction::Try(position, name) => FontActionView::Try(position as int, name@),
            FontAction::Install => FontActionView::Install,
            FontAction::Leave => FontActionView::Leave,
        }
    }
}

/// The name of a font by how many were taken before it.
pub open spec fn fallback_name(taken: nat) -> Seq<char> {
    "fallback-"@ + text::decimal_of(taken)
}

/// The positions of the first usable candidates, as far as they have been tried.
pub open spec fn taken_of(outcomes: Seq<FontOutcome>) -> Seq<int>
    decreases outcomes.len(),
{
    if outcomes.len() == 0 {
        Seq::empty()
    } else {
        let earlier = taken_of(outcomes.drop_last());
        if outcomes.last() == FontOutcome::Usable && earlier.len() < MAX_FALLBACKS {
            earlier.push(outcomes.len() - 1)
        } else {
            earlier
        }
    }
}

/// What is done about the candidates after some have been tried. Fonts are installed only where
/// some were taken.
pub open spec fn font_action(candidates: nat, outcomes: Seq<FontOutcome>) -> FontActionView {
    if outcomes.len() < candidates && taken_of(outcomes).len() < MAX_FALLBACKS {
        FontActionView::Try(outcomes.len() as int, fallback_name(taken_of(outcomes).len()))
    } else if taken_of(outcomes).len() > 0 {
        FontActionView::Install
    } else {
        FontActionView::Leave
    }
}

/// Picks fonts out of some candidates, in their order.
pub struct FontPicker {
    candidates: usize,
    tried: usize,
    taken: Vec<usize>,
    outcomes: Ghost<Seq<FontOutcome>>,
}

impl FontPicker {
    /// What became of the candidates that have been tried.
    pub closed spec fn outcomes(&self) -> Seq<FontOutcome> {
        self.outcomes@
    }

    /// How many candidates there are.
    pub closed spec fn candidates(&self) -> nat {
        self.candidates as nat
    }

    /// What has been taken is what the outcomes say.
    pub closed spec fn wf(&self) -> bool {
        &&& self.tried == self.outcomes@.len()
        &&& self.tried <= self.candidates
        &&& self.taken@.len() == taken_of(self.outcomes@).len()
        &&& self.taken@.len() <= MAX_FALLBACKS
        &&& forall|i: int|
            0 <= i < self.taken@.len() ==> #[trigger] self.taken@[i] as int == taken_of(
                self.outcomes@,
            )[i]
    }

    /// Begins with that many candidates.
    pub fn new(candidates: usize) -> (picker: Self)
        ensures
            picker.wf(),
            picker.candidates() == candidates,
            picker.outcomes() == Seq::<FontOutcome>::empty(),
    {
        FontPicker { candidates, tried: 0, taken: Vec::new(), outcomes: Ghost(Seq::empty()) }
    }

    /// What is to be done next.
    pub fn next(&self) -> (action: FontAction)
        requires
            self.wf(),
        ensures
            action@ == font_action(self.candidates(), self.outcomes()),
    {
        if self.tried < self.candidates && self.taken.len() < MAX_FALLBACKS {
            let mut name: String = "fallback-".to_string();
            name.append(text::decimal(self.taken.len() as u128).as_str());
            FontAction::Try(self.tried, name)
        } else if self.taken.len() > 0 {
            FontAction::Install
        } else {
            FontAction::Leave
        }
    }

    /// Takes what became of the candidate that was tried.
    pub fn tried(&mut self, outcome: FontOutcome)
        requires
            old(self).wf(),
            font_action(old(self).candidates(), old(self).outcomes()) is Try,
        ensures
            final(self).wf(),
            final(self).candidates() == old(self).candidates(),
            final(self).outcomes() == old(self).outcomes().push(outcome),
    {
        proof {
            assert(self.outcomes@.push(outcome).drop_last() =~= self.outcomes@);
        }
        if outcome == FontOutcome::Usable {
            self.taken.push(self.tried);
        }
        self.tried = self.tried + 1;
        self.outcomes = Ghost(self.outcomes@.push(outcome));
    }

    /// The positions of the candidates that were taken, in priority order.
    pub fn taken(&self) -> (taken: Vec<usize>)
        requires
            self.wf(),
        ensures
            taken@.len() == taken_of(self.outcomes()).len(),
            forall|i: int|
                0 <= i < taken@.len() ==> #[trigger] taken@[i] as int == taken_of(
                    self.outcomes(),
                )[i],
    {
        let mut taken: Vec<usize> = Vec::new();
        for position in 0..self.taken.len()
            invariant
                taken@ =~= self.taken@.take(position as int),
        {
            taken.push(self.taken[position]);
        }
        taken
    }
}

/// What is taken are usable candidates, in their order, and no usable one is passed over as long
/// as there is room.
pub proof fn law_the_first_usable_fonts_are_taken(outcomes: Seq<FontOutcome>)
    ensures
        taken_of(outcomes).len() <= MAX_FALLBACKS,
        forall|i: int|
            0 <= i < taken_of(outcomes).len() ==> 0 <= #[trigger] taken_of(outcomes)[i]
                < outcomes.len() && outcomes[taken_of(outcomes)[i]] == FontOutcome::Usable,
        forall|i: int, j: int|
            0 <= i < j < taken_of(outcomes).len() ==> #[trigger] taken_of(outcomes)[i]
                < #[trigger] taken_of(outcomes)[j],
        taken_of(outcomes).len() < MAX_FALLBACKS ==> forall|position: int|
            0 <= position < outcomes.len() && #[trigger] outcomes[position] == FontOutcome::Usable
                ==> taken_of(outcomes).contains(position),
    decreases outcomes.len(),
{
    if outcomes.len() > 0 {
        let earlier = outcomes.drop_last();
        let last = outcomes.len() - 1;
        law_the_first_usable_fonts_are_taken(earlier);
        let taken = taken_of(outcomes);
        let before = taken_of(earlier);
        assert forall|i: int| 0 <= i < taken.len() implies 0 <= #[trigger] taken[i]
            < outcomes.len() && outcomes[taken[i]] == FontOutcome::Usable by {
            if i < before.len() {
                assert(taken[i] == before[i]);
                assert(outcomes[before[i]] == earlier[before[i]]);
            }
        }
        assert forall|i: int, j: int| 0 <= i < j < taken.len() implies #[trigger] taken[i]
            < #[trigger] taken[j] by {
            assert(taken[i] == before[i]);
            if j < before.len() {
                assert(taken[j] == before[j]);
            }
        }
        if taken.len() < MAX_FALLBACKS {
            assert forall|position: int|
                0 <= position < outcomes.len() && #[trigger] outcomes[position]
                    == FontOutcome::Usable implies taken.contains(position) by {
                if position < last {
                    assert(earlier[position] == outcomes[position]);
                    let i = before.index_of(position);
                    assert(taken[i] == position);
                } else {
                    assert(taken[before.len() as int] == position);
                }
            }
        }
    }
}

/// The candidates that are taken are the first usable ones of all: once no more are tried, what
/// would have become of the others makes no difference.
pub proof fn law_untried_candidates_make_no_difference(
    candidates: nat,
    outcomes: Seq<FontOutcome>,
    others: Seq<FontOutcome>,
)
    requires
        outcomes.len() + others.len() == candidates,
        !(font_action(candidates, outcomes) is Try),
    ensures
        taken_of(outcomes + others) == taken_of(outcomes),
{
    lemma_full(outcomes, others);
}

/// Once there is no more room nothing is taken.
proof fn lemma_full(outcomes: Seq<FontOutcome>, others: Seq<FontOutcome>)
    requires
        others.len() > 0 ==> taken_of(outcomes).len() >= MAX_FALLBACKS,
    ensures
        taken_of(outcomes + others) == taken_of(outcomes),
    decreases others.len(),
{
    if others.len() == 0 {
        assert(outcomes + others =~= outcomes);
    } else {
        lemma_full(outcomes, others.drop_last());
        assert((outcomes + others).drop_last() =~= outcomes + others.drop_last());
    }
}

/// When all has been tried that is to be tried, fonts are installed if and only if some are taken.
/// Where no candidate is usable, the fonts are left as they are.
pub proof fn law_fonts_are_installed_only_where_some_are_taken(
    candidates: nat,
    outcomes: Seq<FontOutcome>,
)
    requires
        outcomes.len() <= candidates,
    ensures
        font_action(candidates, outcomes) is Install <==> !(font_action(candidates, outcomes) is Try)
            && taken_of(outcomes).len() > 0,
        outcomes.len() == candidates && (forall|i: int|
            0 <= i < outcomes.len() ==> #[trigger] outcomes[i] != FontOutcome::Usable)
            ==> font_action(candidates, outcomes) is Leave,
{
    law_the_first_usable_fonts_are_taken(outcomes);
    if taken_of(outcomes).len() > 0 {
        assert(outcomes[taken_of(outcomes)[0]] == FontOutcome::Usable);
    }
}

/// The next candidate is tried as long as there is one and fewer than four have been taken, under a
/// name with the number of those that were.
pub proof fn law_candidates_are_tried_until_four_are_taken(
    candidates: nat,
    outcomes: Seq<FontOutcome>,
)
    ensures
        outcomes.len() < candidates && taken_of(outcomes).len() < 4 ==> font_action(
            candidates,
            outcomes,
        ) == FontActionView::Try(
            outcomes.len() as int,
            "fallback-"@ + text::decimal_of(taken_of(outcomes).len()),
        ),
        outcomes.len() >= candidates || taken_of(outcomes).len() >= 4 ==> !(font_action(
            candidates,
            outcomes,
        ) is Try),
{
}

/// A usable candidate is taken as long as there is room for it, and no other one is.
pub proof fn law_a_usable_candidate_is_taken(outcomes: Seq<FontOutcome>, outcome: FontOutcome)
    ensures
        taken_of(Seq::empty()).len() == 0,
        outcome == FontOutcome::Usable && taken_of(outcomes).len() < 4 ==> taken_of(
            outcomes.push(outcome),
        ) == taken_of(outcomes).push(outcomes.len() as int),
        outcome != FontOutcome::Usable || taken_of(outcomes).len() >= 4 ==> taken_of(
            outcomes.push(outcome),
        ) == taken_of(outcomes),
{
    assert(outcomes.push(outcome).drop_last() =~= outcomes);
}

} // verus!
