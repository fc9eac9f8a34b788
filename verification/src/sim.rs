//! The combat simulator: a roster of participants, one round of damage
//! resolution, elimination of the dead, and terminal-state detection.
//!
//! The per-round control flow is fixed: `resolve_round_with` (skipped when a
//! single participant is left), then `prune_and_recount`, then
//! `check_terminal`. `run_round_with` runs that sequence on given rolls;
//! `run_round` draws the rolls from the simulator's own seeded generator.
//!
//! Health is clamped at zero: a damaging roll against a participant whose
//! health is already zero leaves it at zero, so health never wraps around.

use vstd::prelude::*;
use vstd::assert_seqs_equal;
use crate::rng::draw_bool;
use crate::rng::draw_shield_roll;
use crate::rng::seed_rng;
use rand::rngs::StdRng;

verus! {

pub const SHIELD_ROLL_MIN: usize = 1;

pub const SHIELD_ROLL_MAX: usize = 10;

/// One combatant: a name, a non-negative health counter, and a shield
/// strength that mitigates damage probabilistically.
#[derive(Debug, Clone, PartialEq, Eq)]
pub struct Participant {
    pub name: String,
    pub health: usize,
    pub shield: usize,
}

/// The random draws made for one participant in one round.
#[derive(Debug, Clone, Copy, PartialEq, Eq)]
pub struct DamageRoll {
    pub got_damage: bool,
    pub shield_roll: usize,
}

/// A per-participant outcome observed by the host each round.
#[derive(Debug, Clone, PartialEq, Eq)]
pub enum RoundEvent {
    Damage { name: String, health: usize },
    NoDamage { name: String, health: usize },
    Eliminated { name: String },
}

/// What the round reports back to the host loop: `Ongoing` means call the
/// next round; the other two end the run.
#[derive(Debug, Clone, PartialEq, Eq)]
pub enum TerminalState {
    Ongoing,
    WonBy { name: String },
    AllEliminated,
}

/// Everything one round produces for observation.
pub struct RoundOutcome {
    pub resolution: Vec<RoundEvent>,
    pub eliminations: Vec<RoundEvent>,
    pub terminal: TerminalState,
}

/// Why a roster is rejected at construction: participant names must be
/// unique within a run.
#[derive(Debug, Clone, PartialEq, Eq)]
pub enum RosterError {
    DuplicateName { name: String },
}

pub open spec fn valid_roll(r: DamageRoll) -> bool {
    SHIELD_ROLL_MIN <= r.shield_roll <= SHIELD_ROLL_MAX
}

pub open spec fn valid_rolls(rolls: Seq<DamageRoll>, n: nat) -> bool {
    &&& rolls.len() == n
    &&& forall|i: int| 0 <= i < rolls.len() ==> valid_roll(#[trigger] rolls[i])
}

pub open spec fn is_alive(p: Participant) -> bool {
    p.health > 0
}

pub open spec fn distinct_names(s: Seq<Participant>) -> bool {
    forall|i: int, j: int| 0 <= i < j < s.len() ==> s[i].name@ != s[j].name@
}

/// A roll lands iff damage was drawn and the shield did not reach the roll.
pub open spec fn roll_hits(p: Participant, r: DamageRoll) -> bool {
    r.got_damage && p.shield < r.shield_roll
}

/// One participant after one roll: a landed hit costs one health, clamped at
/// zero so health never goes below zero.
pub open spec fn apply_roll(p: Participant, r: DamageRoll) -> Participant {
    if roll_hits(p, r) && p.health > 0 {
        Participant { name: p.name, health: (p.health - 1) as usize, shield: p.shield }
    } else {
        p
    }
}

/// The event emitted for one participant in one round.
pub open spec fn event_model(p: Participant, r: DamageRoll) -> RoundEvent {
    if roll_hits(p, r) {
        RoundEvent::Damage { name: p.name, health: apply_roll(p, r).health }
    } else {
        RoundEvent::NoDamage { name: p.name, health: p.health }
    }
}

/// The whole roster after one resolution pass, each participant rolled
/// independently.
pub open spec fn resolve_model(roster: Seq<Participant>, rolls: Seq<DamageRoll>) -> Seq<
    Participant,
> {
    Seq::new(roster.len(), |i: int| apply_roll(roster[i], rolls[i]))
}

/// The participants that survive pruning, in roster order.
pub open spec fn survivors(s: Seq<Participant>) -> Seq<Participant>
    decreases s.len(),
{
    if s.len() == 0 {
        Seq::empty()
    } else if is_alive(s.last()) {
        survivors(s.drop_last()).push(s.last())
    } else {
        survivors(s.drop_last())
    }
}

/// The participants that pruning removes, in roster order.
pub open spec fn casualties(s: Seq<Participant>) -> Seq<Participant>
    decreases s.len(),
{
    if s.len() == 0 {
        Seq::empty()
    } else if is_alive(s.last()) {
        casualties(s.drop_last())
    } else {
        casualties(s.drop_last()).push(s.last())
    }
}

pub open spec fn count_alive(s: Seq<Participant>) -> nat {
    survivors(s).len()
}

/// The terminal state read off a pruned roster.
pub open spec fn terminal_model(roster: Seq<Participant>) -> TerminalState {
    if roster.len() == 0 {
        TerminalState::AllEliminated
    } else if roster.len() == 1 {
        TerminalState::WonBy { name: roster[0].name }
    } else {
        TerminalState::Ongoing
    }
}

/// The simulation: the roster in combat order and the derived count of
/// living participants, recomputed only by `prune_and_recount`.
pub struct CombatSimulator {
    pub roster: Vec<Participant>,
    pub alive_count: usize,
    pub generator: StdRng,
}

impl CombatSimulator {
    /// Between rounds the alive count agrees with the roster.
    pub open spec fn wf(self) -> bool {
        self.alive_count == count_alive(self.roster@)
    }

    /// Builds a simulator over `roster`, with its pseudorandom source seeded
    /// from `seed` so runs are reproducible. The roster is accepted exactly
    /// when its participant names are pairwise distinct; otherwise it is
    /// rejected naming a duplicated participant, and no state is built.
    pub fn new(roster: Vec<Participant>, seed: u64) -> (r: Result<Self, RosterError>)
        ensures
            r is Ok <==> distinct_names(roster@),
            r matches Ok(s) ==> s.roster@ == roster@ && s.wf(),
            r matches Err(e) ==> (e matches RosterError::DuplicateName { name } && exists|
                i: int,
                j: int,
            |
                0 <= i < j < roster@.len() && roster@[i].name@ == name@ && roster@[j].name@
                    == name@),
    {
        let mut j: usize = 1;
        while j < roster.len()
            invariant
                forall|x: int, y: int|
                    0 <= x < y < j ==> (#[trigger] roster@[x].name)@ != (
                    #[trigger] roster@[y].name)@,
            decreases roster@.len() - j,
        {
            let mut i: usize = 0;
            while i < j
                invariant
                    i <= j < roster@.len(),
                    forall|x: int| 0 <= x < i ==> (#[trigger] roster@[x].name)@
                        != roster@[j as int].name@,
                decreases j - i,
            {
                if roster[i].name == roster[j].name {
                    return Err(
                        RosterError::DuplicateName { name: roster[j].name.clone() },
                    );
                }
                i = i + 1;
            }
            j = j + 1;
        }
        let mut count: usize = 0;
        let mut i: usize = 0;
        while i < roster.len()
            invariant
                i <= roster@.len(),
                count == count_alive(roster@.subrange(0, i as int)),
                count <= i,
            decreases roster@.len() - i,
        {
            proof {
                lemma_subrange_step(roster@, i as int);
            }
            if roster[i].health > 0 {
                count = count + 1;
            }
            i = i + 1;
        }
        proof {
            assert_seqs_equal!(roster@.subrange(0, roster@.len() as int) == roster@);
        }
        Ok(CombatSimulator { roster, alive_count: count, generator: seed_rng(seed) })
    }

    /// One resolution pass over the given rolls, one roll per participant.
    /// When a single participant is alive the pass is skipped outright and no
    /// events are produced. Otherwise every tracked participant (pruned or
    /// not) is rolled: a landed hit costs one health, clamped at zero, and
    /// each participant gets exactly one event, in roster order. The alive
    /// count is not touched here.
    pub fn resolve_round_with(&mut self, rolls: &Vec<DamageRoll>) -> (events: Vec<RoundEvent>)
        requires
            old(self).alive_count == 1 || rolls@.len() == old(self).roster@.len(),
            forall|i: int| 0 <= i < rolls@.len() ==> valid_roll(#[trigger] rolls@[i]),
        ensures
            final(self).alive_count == old(self).alive_count,
            old(self).alive_count == 1 ==> final(self).roster@ == old(self).roster@
                && events@.len() == 0,
            old(self).alive_count != 1 ==> final(self).roster@ == resolve_model(
                old(self).roster@,
                rolls@,
            ) && events@.len() == old(self).roster@.len() && (forall|i: int|
                0 <= i < events@.len() ==> events@[i] == event_model(
                    old(self).roster@[i],
                    #[trigger] rolls@[i],
                )),
    {
        let mut events: Vec<RoundEvent> = Vec::new();
        if self.alive_count == 1 {
            return events;
        }
        let ghost roster0 = self.roster@;
        let mut updated: Vec<Participant> = Vec::new();
        let mut i: usize = 0;
        while i < self.roster.len()
            invariant
                i <= self.roster@.len(),
                self.roster@ == roster0,
                rolls@.len() == roster0.len(),
                updated@.len() == i,
                events@.len() == i,
                forall|j: int| 0 <= j < i ==> updated@[j] == apply_roll(
                    roster0[j],
                    #[trigger] rolls@[j],
                ),
                forall|j: int| 0 <= j < i ==> events@[j] == event_model(
                    roster0[j],
                    #[trigger] rolls@[j],
                ),
            decreases self.roster@.len() - i,
        {
            let p = &self.roster[i];
            let roll = rolls[i];
            let hit = roll.got_damage && p.shield < roll.shield_roll;
            if hit {
                let new_health = if p.health > 0 {
                    p.health - 1
                } else {
                    0
                };
                updated.push(
                    Participant { name: p.name.clone(), health: new_health, shield: p.shield },
                );
                events.push(RoundEvent::Damage { name: p.name.clone(), health: new_health });
            } else {
                updated.push(
                    Participant { name: p.name.clone(), health: p.health, shield: p.shield },
                );
                events.push(RoundEvent::NoDamage { name: p.name.clone(), health: p.health });
            }
            i = i + 1;
        }
        self.roster = updated;
        proof {
            assert_seqs_equal!(self.roster@ == resolve_model(roster0, rolls@));
        }
        events
    }

    /// Removes every participant whose health has reached zero, emitting one
    /// elimination event per removal in roster order, and recomputes the
    /// alive count from the remaining roster. This is the only writer of the
    /// alive count.
    pub fn prune_and_recount(&mut self) -> (events: Vec<RoundEvent>)
        ensures
            final(self).roster@ == survivors(old(self).roster@),
            final(self).alive_count == final(self).roster@.len(),
            final(self).wf(),
            events@.len() == casualties(old(self).roster@).len(),
            forall|i: int| 0 <= i < events@.len() ==> events@[i]
                == (RoundEvent::Eliminated { name: casualties(old(self).roster@)[i].name }),
    {
        let ghost roster0 = self.roster@;
        let mut kept: Vec<Participant> = Vec::new();
        let mut events: Vec<RoundEvent> = Vec::new();
        let mut i: usize = 0;
        while i < self.roster.len()
            invariant
                i <= self.roster@.len(),
                self.roster@ == roster0,
                kept@ == survivors(roster0.subrange(0, i as int)),
                events@.len() == casualties(roster0.subrange(0, i as int)).len(),
                forall|j: int| 0 <= j < events@.len() ==> events@[j]
                    == (RoundEvent::Eliminated {
                    name: casualties(roster0.subrange(0, i as int))[j].name,
                }),
            decreases self.roster@.len() - i,
        {
            proof {
                lemma_subrange_step(roster0, i as int);
            }
            let p = &self.roster[i];
            if p.health > 0 {
                kept.push(Participant { name: p.name.clone(), health: p.health, shield: p.shield });
            } else {
                events.push(RoundEvent::Eliminated { name: p.name.clone() });
            }
            i = i + 1;
        }
        proof {
            assert_seqs_equal!(roster0.subrange(0, roster0.len() as int) == roster0);
        }
        self.roster = kept;
        self.alive_count = self.roster.len();
        proof {
            lemma_survivors_alive(roster0);
            lemma_survivors_of_alive(survivors(roster0));
        }
        events
    }

    /// Reads the terminal state off the pruned roster: the run is over when
    /// zero participants remain (`AllEliminated`) or exactly one does
    /// (`WonBy` the unique remaining participant); otherwise it is `Ongoing`.
    pub fn check_terminal(&self) -> (t: TerminalState)
        ensures
            t == terminal_model(self.roster@),
    {
        if self.roster.len() == 0 {
            TerminalState::AllEliminated
        } else if self.roster.len() == 1 {
            TerminalState::WonBy { name: self.roster[0].name.clone() }
        } else {
            TerminalState::Ongoing
        }
    }

    /// One full round on the given rolls: resolve (skipped when one
    /// participant is alive), prune, then read the terminal state, in that
    /// exact order. `rolls` supplies one roll per participant, except when
    /// the resolution pass will skip them all anyway.
    pub fn run_round_with(&mut self, rolls: &Vec<DamageRoll>) -> (out: RoundOutcome)
        requires
            old(self).alive_count == 1 || rolls@.len() == old(self).roster@.len(),
            forall|i: int| 0 <= i < rolls@.len() ==> valid_roll(#[trigger] rolls@[i]),
        ensures
            round_post(old(self).roster@, old(self).alive_count as int, *final(self), out, rolls@),
            final(self).wf(),
            final(self).roster@.len() <= old(self).roster@.len(),
            health_sum(final(self).roster@) <= health_sum(old(self).roster@),
            old(self).alive_count == 1 ==> out.resolution@.len() == 0,
    {
        let resolution = self.resolve_round_with(rolls);
        let eliminations = self.prune_and_recount();
        let terminal = self.check_terminal();
        proof {
            lemma_survivors_len(
                resolved_model(old(self).roster@, old(self).alive_count as int, rolls@),
            );
            lemma_round_health_ranking(old(self).roster@, old(self).alive_count as int, rolls@);
        }
        RoundOutcome { resolution, eliminations, terminal }
    }

    /// One full round with rolls drawn from the simulator's own generator:
    /// when more than one participant is alive, one coin flip and one shield
    /// roll in `[SHIELD_ROLL_MIN, SHIELD_ROLL_MAX]` per participant. Whatever
    /// is drawn, the round behaves as `round_post` states for some such
    /// sequence of rolls.
    pub fn run_round(&mut self) -> (out: RoundOutcome)
        ensures
            exists|rolls: Seq<DamageRoll>|
                valid_rolls(rolls, old(self).roster@.len()) && #[trigger] round_post(
                    old(self).roster@,
                    old(self).alive_count as int,
                    *final(self),
                    out,
                    rolls,
                ),
            final(self).wf(),
            final(self).roster@.len() <= old(self).roster@.len(),
            health_sum(final(self).roster@) <= health_sum(old(self).roster@),
            old(self).alive_count == 1 ==> out.resolution@.len() == 0,
    {
        let ghost roster0 = self.roster@;
        let ghost alive0 = self.alive_count;
        let mut rolls: Vec<DamageRoll> = Vec::new();
        if self.alive_count != 1 {
            let n = self.roster.len();
            let mut i: usize = 0;
            while i < n
                invariant
                    i <= n,
                    rolls@.len() == i,
                    forall|j: int| 0 <= j < rolls@.len() ==> valid_roll(#[trigger] rolls@[j]),
                    self.roster@ == roster0,
                    self.alive_count == alive0,
                    n == roster0.len(),
                decreases n - i,
            {
                let got_damage = draw_bool(&mut self.generator);
                let shield_roll = draw_shield_roll(&mut self.generator);
                rolls.push(DamageRoll { got_damage, shield_roll });
                i = i + 1;
            }
        }
        let out = self.run_round_with(&rolls);
        proof {
            if alive0 == 1 {
                let witness = Seq::new(
                    roster0.len(),
                    |i: int| DamageRoll { got_damage: false, shield_roll: SHIELD_ROLL_MIN },
                );
                assert(valid_rolls(witness, roster0.len()));
                assert(round_post(roster0, alive0 as int, *self, out, witness));
            } else {
                assert(valid_rolls(rolls@, roster0.len()));
                assert(round_post(roster0, alive0 as int, *self, out, rolls@));
            }
        }
        out
    }
}

/// The deterministic round model: the roster after resolution, given the
/// roster and alive count entering the round and the rolls.
pub open spec fn resolved_model(
    pre_roster: Seq<Participant>,
    pre_alive: int,
    rolls: Seq<DamageRoll>,
) -> Seq<Participant> {
    if pre_alive == 1 {
        pre_roster
    } else {
        resolve_model(pre_roster, rolls)
    }
}

/// What one full round does, from the roster and alive count entering it to
/// the state leaving it (`post`), with the rolls it used and everything it
/// reported.
pub open spec fn round_post(
    pre_roster: Seq<Participant>,
    pre_alive: int,
    post: CombatSimulator,
    out: RoundOutcome,
    rolls: Seq<DamageRoll>,
) -> bool {
    let resolved = resolved_model(pre_roster, pre_alive, rolls);
    &&& post.roster@ == survivors(resolved)
    &&& post.alive_count == post.roster@.len()
    &&& (if pre_alive == 1 {
        out.resolution@.len() == 0
    } else {
        out.resolution@.len() == pre_roster.len() && (forall|i: int|
            0 <= i < out.resolution@.len() ==> out.resolution@[i] == event_model(
                pre_roster[i],
                #[trigger] rolls[i],
            ))
    })
    &&& out.eliminations@.len() == casualties(resolved).len()
    &&& (forall|i: int|
        0 <= i < out.eliminations@.len() ==> out.eliminations@[i] == (RoundEvent::Eliminated {
            name: casualties(resolved)[i].name,
        }))
    &&& out.terminal == terminal_model(post.roster@)
}

proof fn lemma_subrange_step(s: Seq<Participant>, i: int)
    requires
        0 <= i < s.len(),
    ensures
        s.subrange(0, i + 1).drop_last() == s.subrange(0, i),
        s.subrange(0, i + 1).last() == s[i],
{
    assert_seqs_equal!(s.subrange(0, i + 1).drop_last() == s.subrange(0, i));
}

/// Pruning never grows the roster: the survivors and the casualties
/// partition it.
pub proof fn lemma_survivors_len(s: Seq<Participant>)
    ensures
        survivors(s).len() + casualties(s).len() == s.len(),
        survivors(s).len() <= s.len(),
        casualties(s).len() <= s.len(),
    decreases s.len(),
{
    if s.len() > 0 {
        lemma_survivors_len(s.drop_last());
    }
}

/// Every survivor of pruning is alive, and every casualty has zero health.
pub proof fn lemma_survivors_alive(s: Seq<Participant>)
    ensures
        forall|i: int| 0 <= i < survivors(s).len() ==> is_alive(#[trigger] survivors(s)[i]),
        forall|i: int| 0 <= i < casualties(s).len() ==> (#[trigger] casualties(s)[i]).health == 0,
    decreases s.len(),
{
    if s.len() > 0 {
        lemma_survivors_alive(s.drop_last());
        let sd = survivors(s.drop_last());
        let cd = casualties(s.drop_last());
        assert forall|i: int| 0 <= i < survivors(s).len() implies is_alive(
            #[trigger] survivors(s)[i],
        ) by {
            if is_alive(s.last()) {
                if i < sd.len() {
                    assert(survivors(s)[i] == sd[i]);
                } else {
                    assert(survivors(s)[i] == s.last());
                }
            } else {
                assert(survivors(s)[i] == sd[i]);
            }
        }
        assert forall|i: int| 0 <= i < casualties(s).len() implies (#[trigger] casualties(
            s,
        )[i]).health == 0 by {
            if is_alive(s.last()) {
                assert(casualties(s)[i] == cd[i]);
            } else {
                if i < cd.len() {
                    assert(casualties(s)[i] == cd[i]);
                } else {
                    assert(casualties(s)[i] == s.last());
                }
            }
        }
    }
}

/// The total health of a roster, the measure behind termination.
pub open spec fn health_sum(s: Seq<Participant>) -> nat
    decreases s.len(),
{
    if s.len() == 0 {
        0
    } else {
        (health_sum(s.drop_last()) + s.last().health) as nat
    }
}

/// Health never goes below zero: a roll lowers a participant's health by at
/// most one, and a participant already at zero health is left unchanged,
/// whatever the draws.
pub proof fn lemma_health_never_negative(p: Participant, r: DamageRoll)
    ensures
        apply_roll(p, r).health <= p.health,
        p.health == 0 ==> apply_roll(p, r) == p,
{
}

/// A shield at the maximum shield roll (or above) blocks every valid roll,
/// whichever way the damage coin falls: such a participant never loses
/// health.
pub proof fn lemma_full_shield_blocks(p: Participant, r: DamageRoll)
    requires
        valid_roll(r),
        p.shield >= SHIELD_ROLL_MAX,
    ensures
        !roll_hits(p, r),
        apply_roll(p, r) == p,
{
}

proof fn lemma_resolve_health_sum(roster: Seq<Participant>, rolls: Seq<DamageRoll>)
    ensures
        health_sum(resolve_model(roster, rolls)) <= health_sum(roster),
        (exists|i: int|
            0 <= i < roster.len() && is_alive(#[trigger] roster[i]) && roll_hits(
                roster[i],
                rolls[i],
            )) ==> health_sum(resolve_model(roster, rolls)) < health_sum(roster),
    decreases roster.len(),
{
    if roster.len() > 0 {
        let prefix = roster.drop_last();
        lemma_resolve_health_sum(prefix, rolls);
        assert_seqs_equal!(resolve_model(roster, rolls).drop_last()
            == resolve_model(prefix, rolls));
        let last = roster.last();
        let n = roster.len() - 1;
        assert(resolve_model(roster, rolls).last() == apply_roll(last, rolls[n]));
        if exists|i: int|
            0 <= i < roster.len() && is_alive(#[trigger] roster[i]) && roll_hits(
                roster[i],
                rolls[i],
            ) {
            let i = choose|i: int|
                0 <= i < roster.len() && is_alive(#[trigger] roster[i]) && roll_hits(
                    roster[i],
                    rolls[i],
                );
            if i < n {
                assert(is_alive(prefix[i]) && roll_hits(prefix[i], rolls[i]));
            } else {
                assert(apply_roll(last, rolls[n]).health < last.health);
            }
        }
    }
}

proof fn lemma_survivors_health_sum(s: Seq<Participant>)
    ensures
        health_sum(survivors(s)) == health_sum(s),
    decreases s.len(),
{
    if s.len() > 0 {
        lemma_survivors_health_sum(s.drop_last());
        if is_alive(s.last()) {
            let sd = survivors(s.drop_last());
            assert(survivors(s).drop_last() == sd);
        }
    }
}

/// Ranking argument behind termination of the round loop: one round never
/// increases the total health of the roster, and strictly decreases it
/// whenever the resolution pass runs and some landed hit strikes a living
/// participant. Total health is a non-negative measure, so only finitely
/// many such damaging rounds can happen before the run is over.
pub proof fn lemma_round_health_ranking(
    roster: Seq<Participant>,
    pre_alive: int,
    rolls: Seq<DamageRoll>,
)
    ensures
        health_sum(survivors(resolved_model(roster, pre_alive, rolls))) <= health_sum(roster),
        pre_alive != 1 && (exists|i: int|
            0 <= i < roster.len() && is_alive(#[trigger] roster[i]) && roll_hits(
                roster[i],
                rolls[i],
            )) ==> health_sum(survivors(resolved_model(roster, pre_alive, rolls))) < health_sum(
            roster,
        ),
{
    lemma_survivors_health_sum(resolved_model(roster, pre_alive, rolls));
    if pre_alive != 1 {
        lemma_resolve_health_sum(roster, rolls);
    }
}

/// Pruning a roster of living participants keeps it unchanged; in
/// particular, pruning is idempotent and the recomputed alive count of a
/// pruned roster is its length.
pub proof fn lemma_survivors_of_alive(s: Seq<Participant>)
    requires
        forall|i: int| 0 <= i < s.len() ==> is_alive(#[trigger] s[i]),
    ensures
        survivors(s) == s,
        count_alive(s) == s.len(),
    decreases s.len(),
{
    if s.len() == 0 {
        assert_seqs_equal!(survivors(s) == s);
    } else {
        lemma_survivors_of_alive(s.drop_last());
        assert_seqs_equal!(survivors(s) == s);
    }
}

} // verus!
