use crate::model::{CardIndex, Duration, Effect};
use vstd::prelude::*;

verus! {

/// The occasions on which the ledger is swept.
#[derive(Clone, Copy, PartialEq, Eq, Structural, Debug)]
pub enum Expiry {
    /// A round starts.
    RoundStart,
    /// The named card has left the battlefield.
    CardLeft(CardIndex),
    /// The current battle is over.
    BattleEnd,
}

/// An effect in the ledger. The effect itself never changes; for an effect
/// that lasts a number of rounds the ledger counts the round starts it still
/// has to see.
#[derive(Clone, Copy, PartialEq, Eq, Debug)]
pub struct ActiveEffect {
    pub effect: Effect,
    pub rounds_left: i32,
}

/// The ledger entry of an effect that has just been granted.
pub open spec fn enter(effect: Effect) -> ActiveEffect {
    ActiveEffect {
        effect,
        rounds_left: match effect.duration {
            Duration::Turn(n) => n,
            _ => 0,
        },
    }
}

/// The entry leaves the ledger on this occasion.
pub open spec fn expires(a: ActiveEffect, t: Expiry) -> bool {
    match a.effect.duration {
        Duration::Turn(_) => t == Expiry::RoundStart && a.rounds_left <= 1,
        Duration::CardPlaying(source) => t == Expiry::CardLeft(source),
        Duration::Battle => t == Expiry::BattleEnd,
        Duration::Permanent => false,
    }
}

/// An entry that stays, after this occasion: a round start is counted.
pub open spec fn aged(a: ActiveEffect, t: Expiry) -> ActiveEffect {
    if a.effect.duration is Turn && t == Expiry::RoundStart && a.rounds_left > 1 {
        ActiveEffect { rounds_left: (a.rounds_left - 1) as i32, ..a }
    } else {
        a
    }
}

pub open spec fn stays(t: Expiry) -> spec_fn(ActiveEffect) -> bool {
    |a: ActiveEffect| !expires(a, t)
}

pub open spec fn leaves(t: Expiry) -> spec_fn(ActiveEffect) -> bool {
    |a: ActiveEffect| expires(a, t)
}

pub open spec fn ages(t: Expiry) -> spec_fn(ActiveEffect) -> ActiveEffect {
    |a: ActiveEffect| aged(a, t)
}

/// The ledger after this occasion: the entries that stay, in their order.
pub open spec fn sweep(s: Seq<ActiveEffect>, t: Expiry) -> Seq<ActiveEffect> {
    s.filter(stays(t)).map_values(ages(t))
}

/// The entries that this occasion removes, in their order.
pub open spec fn swept(s: Seq<ActiveEffect>, t: Expiry) -> Seq<ActiveEffect> {
    s.filter(leaves(t))
}

/// What one entry adds to the attack of `r`.
pub open spec fn attack_delta(a: ActiveEffect, r: CardIndex) -> int {
    if a.effect.target_card_index == r {
        a.effect.attack_point as int
    } else {
        0
    }
}

/// What one entry adds to the defense of `r`.
pub open spec fn defense_delta(a: ActiveEffect, r: CardIndex) -> int {
    if a.effect.target_card_index == r {
        a.effect.defense_point as int
    } else {
        0
    }
}

/// What one entry adds to the cost of `r`.
pub open spec fn cost_delta(a: ActiveEffect, r: CardIndex) -> int {
    if a.effect.target_card_index == r {
        a.effect.cost as int
    } else {
        0
    }
}

/// Sum of the attack deltas of the entries that target `r`.
pub open spec fn attack_bonus(s: Seq<ActiveEffect>, r: CardIndex) -> int
    decreases s.len(),
{
    if s.len() == 0 {
        0
    } else {
        attack_bonus(s.drop_last(), r) + attack_delta(s.last(), r)
    }
}

/// Sum of the defense deltas of the entries that target `r`.
pub open spec fn defense_bonus(s: Seq<ActiveEffect>, r: CardIndex) -> int
    decreases s.len(),
{
    if s.len() == 0 {
        0
    } else {
        defense_bonus(s.drop_last(), r) + defense_delta(s.last(), r)
    }
}

/// Sum of the cost deltas of the entries that target `r`.
pub open spec fn cost_bonus(s: Seq<ActiveEffect>, r: CardIndex) -> int
    decreases s.len(),
{
    if s.len() == 0 {
        0
    } else {
        cost_bonus(s.drop_last(), r) + cost_delta(s.last(), r)
    }
}

/// Sweeping goes entry by entry.
pub proof fn lemma_sweep_push(s: Seq<ActiveEffect>, a: ActiveEffect, t: Expiry)
    ensures
        sweep(s.push(a), t) == if expires(a, t) {
            sweep(s, t)
        } else {
            sweep(s, t).push(aged(a, t))
        },
        swept(s.push(a), t) == if expires(a, t) {
            swept(s, t).push(a)
        } else {
            swept(s, t)
        },
        sweep(Seq::empty(), t) == Seq::<ActiveEffect>::empty(),
        swept(Seq::empty(), t) == Seq::<ActiveEffect>::empty(),
        sweep(s, t).len() <= s.len(),
{
    s.lemma_filter_push(a, stays(t));
    s.lemma_filter_push(a, leaves(t));
    s.lemma_filter_len(stays(t));
    reveal(Seq::filter);
    assert(Seq::<ActiveEffect>::empty().filter(stays(t)) =~= Seq::empty());
    assert(Seq::<ActiveEffect>::empty().filter(leaves(t)) =~= Seq::empty());
    assert(sweep(Seq::empty(), t) =~= Seq::<ActiveEffect>::empty());
    if !expires(a, t) {
        assert(sweep(s.push(a), t) =~= sweep(s, t).push(aged(a, t)));
    }
}

/// The three sums go entry by entry.
pub proof fn lemma_bonus_push(s: Seq<ActiveEffect>, a: ActiveEffect, r: CardIndex)
    ensures
        attack_bonus(s.push(a), r) == attack_bonus(s, r) + attack_delta(a, r),
        defense_bonus(s.push(a), r) == defense_bonus(s, r) + defense_delta(a, r),
        cost_bonus(s.push(a), r) == cost_bonus(s, r) + cost_delta(a, r),
{
    assert(s.push(a).drop_last() =~= s);
}

/// An entry that stays adds after the occasion what it added before.
pub proof fn lemma_aged_same_deltas(a: ActiveEffect, t: Expiry, r: CardIndex)
    ensures
        attack_delta(aged(a, t), r) == attack_delta(a, r),
        defense_delta(aged(a, t), r) == defense_delta(a, r),
        cost_delta(aged(a, t), r) == cost_delta(a, r),
        aged(a, t).effect == a.effect,
{
}

/// A sweep takes from each sum what the removed entries had added, once, and
/// nothing else.
pub proof fn lemma_sweep_reverts(s: Seq<ActiveEffect>, t: Expiry, r: CardIndex)
    ensures
        attack_bonus(sweep(s, t), r) + attack_bonus(swept(s, t), r) == attack_bonus(s, r),
        defense_bonus(sweep(s, t), r) + defense_bonus(swept(s, t), r) == defense_bonus(s, r),
        cost_bonus(sweep(s, t), r) + cost_bonus(swept(s, t), r) == cost_bonus(s, r),
    decreases s.len(),
{
    if s.len() == 0 {
        lemma_sweep_push(s, enter(Effect::neutral()), t);
        assert(s =~= Seq::empty());
    } else {
        let head = s.drop_last();
        let a = s.last();
        assert(head.push(a) =~= s);
        lemma_sweep_reverts(head, t, r);
        lemma_sweep_push(head, a, t);
        lemma_aged_same_deltas(a, t, r);
        if expires(a, t) {
            lemma_bonus_push(swept(head, t), a, r);
        } else {
            lemma_bonus_push(sweep(head, t), aged(a, t), r);
        }
    }
}

/// Every entry that a sweep leaves was there before and did not expire; its
/// effect is unchanged. Unless the occasion is a round start, no entry is left
/// that the occasion removes.
pub proof fn lemma_sweep_members(s: Seq<ActiveEffect>, t: Expiry)
    ensures
        forall|i: int|
            0 <= i < sweep(s, t).len() ==> {
                &&& t != Expiry::RoundStart ==> !expires(#[trigger] sweep(s, t)[i], t)
                &&& exists|j: int|
                    0 <= j < s.len() && !expires(s[j], t) && sweep(s, t)[i] == aged(s[j], t)
            },
    decreases s.len(),
{
    if s.len() == 0 {
        lemma_sweep_push(s, enter(Effect::neutral()), t);
        assert(s =~= Seq::empty());
    } else {
        let head = s.drop_last();
        let a = s.last();
        assert(head.push(a) =~= s);
        lemma_sweep_members(head, t);
        lemma_sweep_push(head, a, t);
        assert forall|i: int| 0 <= i < sweep(s, t).len() implies {
            &&& t != Expiry::RoundStart ==> !expires(#[trigger] sweep(s, t)[i], t)
            &&& exists|j: int|
                0 <= j < s.len() && !expires(s[j], t) && sweep(s, t)[i] == aged(s[j], t)
        } by {
            if i < sweep(head, t).len() {
                assert(sweep(s, t)[i] == sweep(head, t)[i]);
                let j = choose|j: int|
                    0 <= j < head.len() && !expires(head[j], t) && sweep(head, t)[i] == aged(
                        head[j],
                        t,
                    );
                assert(s[j] == head[j]);
            } else {
                assert(sweep(s, t)[i] == aged(a, t));
                assert(s[s.len() - 1] == a);
            }
        }
    }
}

/// A sweep leaves alone a ledger in which nothing expires or ages on the
/// occasion.
pub proof fn lemma_sweep_idle(s: Seq<ActiveEffect>, t: Expiry)
    requires
        forall|i: int| 0 <= i < s.len() ==> !expires(#[trigger] s[i], t) && aged(s[i], t) == s[i],
    ensures
        sweep(s, t) == s,
    decreases s.len(),
{
    if s.len() == 0 {
        lemma_sweep_push(s, enter(Effect::neutral()), t);
        assert(s =~= Seq::empty());
    } else {
        let head = s.drop_last();
        let a = s.last();
        assert(head.push(a) =~= s);
        assert forall|i: int| 0 <= i < head.len() implies !expires(#[trigger] head[i], t) && aged(
            head[i],
            t,
        ) == head[i] by {
            assert(head[i] == s[i]);
        }
        lemma_sweep_idle(head, t);
        lemma_sweep_push(head, a, t);
        assert(s[s.len() - 1] == a);
    }
}

/// Each sum lies within the number of entries times the largest delta.
pub proof fn lemma_bonus_bounds(s: Seq<ActiveEffect>, r: CardIndex)
    ensures
        -0x8000_0000 * s.len() <= attack_bonus(s, r) <= 0x8000_0000 * s.len(),
        -0x8000_0000 * s.len() <= defense_bonus(s, r) <= 0x8000_0000 * s.len(),
        -0x8000_0000 * s.len() <= cost_bonus(s, r) <= 0x8000_0000 * s.len(),
    decreases s.len(),
{
    if s.len() > 0 {
        lemma_bonus_bounds(s.drop_last(), r);
    }
}

fn entry_for(effect: Effect) -> (a: ActiveEffect)
    ensures
        a == enter(effect),
{
    let rounds_left: i32 = match effect.duration {
        Duration::Turn(n) => n,
        _ => 0,
    };
    ActiveEffect { effect, rounds_left }
}

fn expires_on(a: &ActiveEffect, t: Expiry) -> (b: bool)
    ensures
        b == expires(*a, t),
{
    match a.effect.duration {
        Duration::Turn(_) => match t {
            Expiry::RoundStart => a.rounds_left <= 1,
            _ => false,
        },
        Duration::CardPlaying(source) => match t {
            Expiry::CardLeft(gone) => source == gone,
            _ => false,
        },
        Duration::Battle => match t {
            Expiry::BattleEnd => true,
            _ => false,
        },
        Duration::Permanent => false,
    }
}

fn aged_on(a: ActiveEffect, t: Expiry) -> (b: ActiveEffect)
    ensures
        b == aged(a, t),
{
    match a.effect.duration {
        Duration::Turn(_) => match t {
            Expiry::RoundStart => if a.rounds_left > 1 {
                ActiveEffect { effect: a.effect, rounds_left: a.rounds_left - 1 }
            } else {
                a
            },
            _ => a,
        },
        _ => a,
    }
}

/// The active effects, oldest grant first.
pub struct Ledger {
    entries: Vec<ActiveEffect>,
}

impl View for Ledger {
    type V = Seq<ActiveEffect>;

    closed spec fn view(&self) -> Seq<ActiveEffect> {
        self.entries@
    }
}

impl Ledger {
    /// The empty ledger.
    pub fn new() -> (l: Ledger)
        ensures
            l@ == Seq::<ActiveEffect>::empty(),
    {
        Ledger { entries: Vec::new() }
    }

    /// Number of active effects.
    pub fn len(&self) -> (n: usize)
        ensures
            n == self@.len(),
    {
        self.entries.len()
    }

    /// The active effects, oldest grant first.
    pub fn entries(&self) -> (r: &Vec<ActiveEffect>)
        ensures
            r@ == self@,
    {
        &self.entries
    }

    /// Appends the effect. From now on its deltas count for its target.
    pub fn grant(&mut self, effect: Effect)
        ensures
            final(self)@ == old(self)@.push(enter(effect)),
    {
        self.entries.push(entry_for(effect));
    }

    /// Removes every entry that expires on this occasion, so that its deltas
    /// no longer count, and counts a round start on the others. Returns the
    /// number of entries removed.
    pub fn expire_and_revert(&mut self, t: Expiry) -> (removed: usize)
        ensures
            final(self)@ == sweep(old(self)@, t),
            removed == old(self)@.len() - final(self)@.len(),
    {
        let n = self.entries.len();
        let mut kept: Vec<ActiveEffect> = Vec::new();
        let mut i: usize = 0;
        proof {
            lemma_sweep_push(Seq::empty(), enter(Effect::neutral()), t);
            assert(self.entries@.take(0) =~= Seq::empty());
        }
        while i < n
            invariant
                n == self.entries@.len(),
                i <= n,
                kept@ == sweep(self.entries@.take(i as int), t),
            decreases n - i,
        {
            let a = self.entries[i];
            proof {
                lemma_sweep_push(self.entries@.take(i as int), a, t);
                assert(self.entries@.take(i + 1) =~= self.entries@.take(i as int).push(a));
            }
            if !expires_on(&a, t) {
                kept.push(aged_on(a, t));
            }
            i += 1;
        }
        proof {
            assert(self.entries@.take(n as int) =~= self.entries@);
            lemma_sweep_push(self.entries@, enter(Effect::neutral()), t);
        }
        let removed = n - kept.len();
        self.entries = kept;
        removed
    }

    /// Sum of the attack deltas of the active effects on `r`.
    pub fn attack_bonus(&self, r: CardIndex) -> (sum: i128)
        ensures
            sum == attack_bonus(self@, r),
    {
        let n = self.entries.len();
        let mut sum: i128 = 0;
        let mut i: usize = 0;
        proof {
            assert(self.entries@.take(0) =~= Seq::empty());
        }
        while i < n
            invariant
                n == self.entries@.len(),
                i <= n,
                sum == attack_bonus(self.entries@.take(i as int), r),
            decreases n - i,
        {
            let a = self.entries[i];
            proof {
                lemma_bonus_bounds(self.entries@.take(i as int), r);
                lemma_bonus_push(self.entries@.take(i as int), a, r);
                assert(self.entries@.take(i + 1) =~= self.entries@.take(i as int).push(a));
            }
            if a.effect.target_card_index == r {
                sum = sum + a.effect.attack_point as i128;
            }
            i += 1;
        }
        proof {
            assert(self.entries@.take(n as int) =~= self.entries@);
        }
        sum
    }

    /// Sum of the defense deltas of the active effects on `r`.
    pub fn defense_bonus(&self, r: CardIndex) -> (sum: i128)
        ensures
            sum == defense_bonus(self@, r),
    {
        let n = self.entries.len();
        let mut sum: i128 = 0;
        let mut i: usize = 0;
        proof {
            assert(self.entries@.take(0) =~= Seq::empty());
        }
        while i < n
            invariant
                n == self.entries@.len(),
                i <= n,
                sum == defense_bonus(self.entries@.take(i as int), r),
            decreases n - i,
        {
            let a = self.entries[i];
            proof {
                lemma_bonus_bounds(self.entries@.take(i as int), r);
                lemma_bonus_push(self.entries@.take(i as int), a, r);
                assert(self.entries@.take(i + 1) =~= self.entries@.take(i as int).push(a));
            }
            if a.effect.target_card_index == r {
                sum = sum + a.effect.defense_point as i128;
            }
            i += 1;
        }
        proof {
            assert(self.entries@.take(n as int) =~= self.entries@);
        }
        sum
    }

    /// Sum of the cost deltas of the active effects on `r`.
    pub fn cost_bonus(&self, r: CardIndex) -> (sum: i128)
        ensures
            sum == cost_bonus(self@, r),
    {
        let n = self.entries.len();
        let mut sum: i128 = 0;
        let mut i: usize = 0;
        proof {
            assert(self.entries@.take(0) =~= Seq::empty());
        }
        while i < n
            invariant
                n == self.entries@.len(),
                i <= n,
                sum == cost_bonus(self.entries@.take(i as int), r),
            decreases n - i,
        {
            let a = self.entries[i];
            proof {
                lemma_bonus_bounds(self.entries@.take(i as int), r);
                lemma_bonus_push(self.entries@.take(i as int), a, r);
                assert(self.entries@.take(i + 1) =~= self.entries@.take(i as int).push(a));
            }
            if a.effect.target_card_index == r {
                sum = sum + a.effect.cost as i128;
            }
            i += 1;
        }
        proof {
            assert(self.entries@.take(n as int) =~= self.entries@);
        }
        sum
    }

    /// A copy of the ledger.
    pub fn snapshot(&self) -> (l: Ledger)
        ensures
            l@ == self@,
    {
        let n = self.entries.len();
        let mut out: Vec<ActiveEffect> = Vec::new();
        let mut i: usize = 0;
        while i < n
            invariant
                n == self.entries@.len(),
                i <= n,
                out@ == self.entries@.take(i as int),
            decreases n - i,
        {
            out.push(self.entries[i]);
            proof {
                assert(self.entries@.take(i + 1) =~= self.entries@.take(i as int).push(
                    self.entries@[i as int],
                ));
            }
            i += 1;
        }
        proof {
            assert(self.entries@.take(n as int) =~= self.entries@);
        }
        Ledger { entries: out }
    }
}

} // verus!
