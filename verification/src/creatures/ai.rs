//! The factions that creatures can be hostile towards, and how a creature
//! picks a target among them and loses it again.
use vstd::prelude::*;

verus! {

/// A set of factions, one bit each.
#[derive(Debug, PartialEq, Eq, Structural, Clone, Copy)]
pub struct CreatureFaction(u32);

impl CreatureFaction {
    pub const PLAYER: u32 = 0b00000001;
    pub const GOBLIN: u32 = 0b00000010;

    /// The bits of the factions in the set.
    pub closed spec fn spec_bits(&self) -> u32 {
        self.0
    }

    /// The set of the factions whose bits are set in `bits`.
    pub fn from_bits_retain(bits: u32) -> (r: CreatureFaction)
        ensures
            r.spec_bits() == bits,
    {
        CreatureFaction(bits)
    }

    pub fn bits(&self) -> (r: u32)
        ensures
            r == self.spec_bits(),
    {
        self.0
    }

    /// The set without factions.
    pub fn empty() -> (r: CreatureFaction)
        ensures
            r.spec_bits() == 0,
    {
        CreatureFaction(0)
    }

    /// The set holds no faction.
    pub fn is_empty(&self) -> (r: bool)
        ensures
            r == (self.spec_bits() == 0),
    {
        self.0 == 0
    }

    /// Every faction of `other` is in the set.
    pub fn contains(&self, other: u32) -> (r: bool)
        ensures
            r == (self.spec_bits() & other == other),
    {
        self.0 & other == other
    }

    /// The factions in either set.
    pub fn union(self, other: CreatureFaction) -> (r: CreatureFaction)
        ensures
            r.spec_bits() == self.spec_bits() | other.spec_bits(),
    {
        CreatureFaction(self.0 | other.0)
    }
}


/// A creature that the AI could turn hostile to.
#[derive(Debug, Clone, Copy)]
pub struct AiCandidate<P> {
    /// The entity, by its bits.
    pub id: u64,
    /// The bit of its faction: [`CreatureFaction::PLAYER`] for players,
    /// [`CreatureFaction::GOBLIN`] for goblins.
    pub faction: u32,
    /// It is within the creature's detection range.
    pub in_range: bool,
    /// Where it stands.
    pub position: P,
}

/// What the AI sees of the creature it is hostile to.
#[derive(Debug, Clone, Copy)]
pub struct TargetStatus<P> {
    /// It is within the creature's maximum aggro range.
    pub within_aggro_range: bool,
    /// Where it stands.
    pub position: P,
}

/// The state of a creature's AI: idle, or hostile to a target whose position
/// it keeps.
#[derive(Debug, Clone, Copy)]
pub enum CreatureAiState<P> {
    Idle,
    Aggro { target: u64, position: P },
}

/// A candidate of a faction that the creature is hostile towards, within its
/// detection range.
pub open spec fn hostile_candidate<P>(hostile: CreatureFaction, c: AiCandidate<P>) -> bool {
    c.in_range && hostile.spec_bits() & c.faction == c.faction
}

/// The first candidate of `cands` that the creature turns hostile to.
pub open spec fn first_hostile<P>(hostile: CreatureFaction, cands: Seq<AiCandidate<P>>) -> Option<
    AiCandidate<P>,
>
    decreases cands.len(),
{
    if cands.len() == 0 {
        None
    } else if hostile_candidate(hostile, cands[0]) {
        Some(cands[0])
    } else {
        first_hostile(hostile, cands.skip(1))
    }
}

/// The AI state after one update.
pub open spec fn ai_step<P>(
    state: CreatureAiState<P>,
    hostile: CreatureFaction,
    cands: Seq<AiCandidate<P>>,
    target: Option<TargetStatus<P>>,
) -> CreatureAiState<P> {
    match state {
        CreatureAiState::Idle => if hostile.spec_bits() == 0 {
            CreatureAiState::Idle
        } else {
            match first_hostile(hostile, cands) {
                Some(c) => CreatureAiState::Aggro { target: c.id, position: c.position },
                None => CreatureAiState::Idle,
            }
        },
        CreatureAiState::Aggro { target: t, position: _ } => match target {
            Some(st) => if st.within_aggro_range {
                CreatureAiState::Aggro { target: t, position: st.position }
            } else {
                CreatureAiState::Idle
            },
            None => CreatureAiState::Idle,
        },
    }
}

/// What an update does, in terms of the candidates and the target: an idle
/// creature turns hostile to exactly the first candidate within its detection
/// range and of a faction it is hostile towards, and stays idle without one
/// (or when it is hostile towards nobody); a hostile creature follows its
/// target's position while the target is within its aggro range and turns idle
/// once it is not or is gone.
pub proof fn lemma_ai_step_laws<P>(
    state: CreatureAiState<P>,
    hostile: CreatureFaction,
    cands: Seq<AiCandidate<P>>,
    target: Option<TargetStatus<P>>,
)
    ensures
        ({
            let next = ai_step(state, hostile, cands, target);
            &&& state is Idle && next is Aggro ==> exists|i: int|
                0 <= i < cands.len() && (#[trigger] cands[i]).in_range && hostile.spec_bits()
                    & cands[i].faction == cands[i].faction && next == (CreatureAiState::Aggro {
                    target: cands[i].id,
                    position: cands[i].position,
                }) && forall|j: int|
                    0 <= j < i ==> !(cands[j].in_range && hostile.spec_bits() & cands[j].faction
                        == cands[j].faction)
            &&& state is Idle && (hostile.spec_bits() == 0 || forall|i: int|
                0 <= i < cands.len() ==> !((#[trigger] cands[i]).in_range && hostile.spec_bits()
                    & cands[i].faction == cands[i].faction)) ==> next is Idle
            &&& state is Idle && hostile.spec_bits() != 0 && (exists|i: int|
                0 <= i < cands.len() && (#[trigger] cands[i]).in_range && hostile.spec_bits()
                    & cands[i].faction == cands[i].faction) ==> next is Aggro
            &&& state is Aggro ==> match target {
                Some(st) => if st.within_aggro_range {
                    next == (CreatureAiState::Aggro { target: state->target, position: st.position })
                } else {
                    next is Idle
                },
                None => next is Idle,
            }
        }),
{
    lemma_first_hostile_is_first_in_range(hostile, cands);
}

impl<P: Copy> CreatureAiState<P> {
    /// Updates the AI of a creature that is hostile towards `hostile`.
    /// - An idle creature turns hostile to the first of `candidates` (the
    ///   players and goblins, nearest first, players before goblins at equal
    ///   distance) of a faction it is hostile towards and within its detection
    ///   range, and keeps that one's position.
    /// - A hostile creature follows its target's position while the target
    ///   (`target`, `None` once it is gone) stays within its maximum aggro
    ///   range, and turns idle otherwise.
    pub fn update(
        &mut self,
        hostile: CreatureFaction,
        candidates: &Vec<AiCandidate<P>>,
        target: Option<TargetStatus<P>>,
    )
        ensures
            *final(self) == ai_step(*old(self), hostile, candidates@, target),
            *old(self) is Idle && *final(self) is Aggro ==> exists|i: int|
                0 <= i < candidates@.len() && (#[trigger] candidates@[i]).in_range
                    && hostile.spec_bits() & candidates@[i].faction == candidates@[i].faction
                    && *final(self) == (CreatureAiState::Aggro {
                    target: candidates@[i].id,
                    position: candidates@[i].position,
                }) && forall|j: int|
                    0 <= j < i ==> !(candidates@[j].in_range && hostile.spec_bits()
                        & candidates@[j].faction == candidates@[j].faction),
            *old(self) is Idle && (hostile.spec_bits() == 0 || forall|i: int|
                0 <= i < candidates@.len() ==> !((#[trigger] candidates@[i]).in_range
                    && hostile.spec_bits() & candidates@[i].faction == candidates@[i].faction))
                ==> *final(self) is Idle,
            *old(self) is Idle && hostile.spec_bits() != 0 && (exists|i: int|
                0 <= i < candidates@.len() && (#[trigger] candidates@[i]).in_range
                    && hostile.spec_bits() & candidates@[i].faction == candidates@[i].faction)
                ==> *final(self) is Aggro,
            *old(self) is Aggro ==> match target {
                Some(st) => if st.within_aggro_range {
                    *final(self) == (CreatureAiState::Aggro {
                        target: old(self)->target,
                        position: st.position,
                    })
                } else {
                    *final(self) is Idle
                },
                None => *final(self) is Idle,
            },
    {
        proof {
            lemma_ai_step_laws(*self, hostile, candidates@, target);
        }
        match self {
            CreatureAiState::Idle => {
                if hostile.is_empty() {
                    return;
                }
                let mut i: usize = 0;
                assert(candidates@.skip(0) =~= candidates@);
                while i < candidates.len()
                    invariant
                        i <= candidates@.len(),
                        *self == CreatureAiState::<P>::Idle,
                        *old(self) == CreatureAiState::<P>::Idle,
                        hostile.spec_bits() != 0,
                        first_hostile(hostile, candidates@) == first_hostile(
                            hostile,
                            candidates@.skip(i as int),
                        ),
                    decreases candidates@.len() - i,
                {
                    let c = candidates[i];
                    assert(candidates@.skip(i as int)[0] == c);
                    assert(candidates@.skip(i as int).skip(1) =~= candidates@.skip(i + 1));
                    if c.in_range && hostile.contains(c.faction) {
                        *self = CreatureAiState::Aggro { target: c.id, position: c.position };
                        proof {
                            lemma_ai_step_laws(*old(self), hostile, candidates@, target);
                        }
                        return;
                    }
                    i = i + 1;
                }
            },
            CreatureAiState::Aggro { target: t, position: _ } => {
                let t = *t;
                match target {
                    Some(st) => {
                        if st.within_aggro_range {
                            *self = CreatureAiState::Aggro { target: t, position: st.position };
                        } else {
                            *self = CreatureAiState::Idle;
                        }
                    },
                    None => {
                        *self = CreatureAiState::Idle;
                    },
                }
            },
        }
    }
}

/// The first candidate that the creature turns hostile to is the first one,
/// in the given order, that is within its detection range and of a faction it
/// is hostile towards; without such a candidate there is none.
pub proof fn lemma_first_hostile_is_first_in_range<P>(
    hostile: CreatureFaction,
    cands: Seq<AiCandidate<P>>,
)
    ensures
        match first_hostile(hostile, cands) {
            Some(c) => exists|i: int|
                0 <= i < cands.len() && #[trigger] cands[i] == c && c.in_range && hostile.spec_bits()
                    & c.faction == c.faction && forall|j: int|
                    0 <= j < i ==> !(cands[j].in_range && hostile.spec_bits() & cands[j].faction
                        == cands[j].faction),
            None => forall|i: int|
                0 <= i < cands.len() ==> !((#[trigger] cands[i]).in_range && hostile.spec_bits()
                    & cands[i].faction == cands[i].faction),
        },
    decreases cands.len(),
{
    if cands.len() > 0 {
        lemma_first_hostile_is_first_in_range(hostile, cands.skip(1));
        if !hostile_candidate(hostile, cands[0]) {
            match first_hostile(hostile, cands.skip(1)) {
                Some(c) => {
                    let i = choose|i: int|
                        0 <= i < cands.skip(1).len() && #[trigger] cands.skip(1)[i] == c && c.in_range
                            && hostile.spec_bits() & c.faction == c.faction && forall|j: int|
                            0 <= j < i ==> !(cands.skip(1)[j].in_range && hostile.spec_bits()
                                & cands.skip(1)[j].faction == cands.skip(1)[j].faction);
                    assert(cands[i + 1] == c);
                    assert forall|j: int| 0 <= j < i + 1 implies !(cands[j].in_range
                        && hostile.spec_bits() & cands[j].faction == cands[j].faction) by {
                        if j > 0 {
                            assert(cands[j] == cands.skip(1)[j - 1]);
                        }
                    }
                },
                None => {
                    assert forall|i: int| 0 <= i < cands.len() implies !((#[trigger] cands[i]).in_range
                        && hostile.spec_bits() & cands[i].faction == cands[i].faction) by {
                        if i > 0 {
                            assert(cands[i] == cands.skip(1)[i - 1]);
                        }
                    }
                },
            }
        } else {
            assert(cands[0] == cands[0]);
        }
    }
}

} // verus!
