//! The decisions behind keeping an entity's game effects in step with the
//! list another peer sends: which local effects go first, which of the
//! wanted ones are extended and which spawned, which local ones go as
//! unwanted, and whether the entity burns.
use vstd::prelude::*;
use crate::text::{bytes_eq, str_eq};

verus! {

/// The built-in game effects the decisions tell apart; every other one is
/// carried by its number in the game's list.
#[derive(Debug, Clone, Copy, PartialEq, Eq, Structural)]
pub enum GameEffectKind {
    Polymorph,
    PolymorphRandom,
    PolymorphUnstable,
    PolymorphCessation,
    OnFire,
    Other(u32),
}

/// A game effect on an entity: a built-in one, one loaded from a file, or
/// a projectile's effect, by name and serialized entity.
pub enum GameEffectData {
    Normal(GameEffectKind),
    Custom(String),
    Projectile(String, Vec<u8>),
}

/// What to do for a wanted effect: extend the local effect at that index,
/// or spawn it anew.
#[derive(Debug, Clone, Copy, PartialEq, Eq, Structural)]
pub enum EffectAction {
    Extend(usize),
    Spawn,
}

/// The two effects are the same.
pub open spec fn same_effect(a: GameEffectData, b: GameEffectData) -> bool {
    match (a, b) {
        (GameEffectData::Normal(x), GameEffectData::Normal(y)) => x == y,
        (GameEffectData::Custom(x), GameEffectData::Custom(y)) => x@ == y@,
        (GameEffectData::Projectile(n, d), GameEffectData::Projectile(m, e)) => n@ == m@ && d@ == e@,
        _ => false,
    }
}

/// The effect is one of the polymorphs.
pub open spec fn is_polymorph(a: GameEffectData) -> bool {
    match a {
        GameEffectData::Normal(k) => k == GameEffectKind::Polymorph || k == GameEffectKind::PolymorphRandom
            || k == GameEffectKind::PolymorphUnstable || k == GameEffectKind::PolymorphCessation,
        _ => false,
    }
}

/// Each of the four polymorphs (plain, random, unstable and cessation) is
/// flagged by `effects_to_kill_first` wherever it stands in the list, and
/// burning or any other built-in effect is not a polymorph.
pub proof fn lemma_polymorphs_go_first(s: Seq<GameEffectData>, i: int, k: GameEffectKind)
    requires
        0 <= i < s.len(),
        s[i] == GameEffectData::Normal(k),
    ensures
        (k == GameEffectKind::Polymorph || k == GameEffectKind::PolymorphRandom
            || k == GameEffectKind::PolymorphUnstable || k == GameEffectKind::PolymorphCessation)
            ==> is_polymorph(s[i]) && (is_polymorph(s[i]) || repeated_later(s, i)),
        (k == GameEffectKind::OnFire || k is Other) ==> !is_polymorph(s[i]),
{
}

/// Some effect after index `i` of `s` is the same as the one at `i`.
pub open spec fn repeated_later(s: Seq<GameEffectData>, i: int) -> bool {
    exists|j: int| i < j < s.len() && #[trigger] same_effect(s[i], s[j])
}

/// Some effect of `s` is the same as `e`.
pub open spec fn listed(s: Seq<GameEffectData>, e: GameEffectData) -> bool {
    exists|j: int| 0 <= j < s.len() && #[trigger] same_effect(s[j], e)
}

/// Whether two effects are the same.
pub fn effect_eq(a: &GameEffectData, b: &GameEffectData) -> (r: bool)
    ensures
        r == same_effect(*a, *b),
{
    match (a, b) {
        (GameEffectData::Normal(x), GameEffectData::Normal(y)) => *x == *y,
        (GameEffectData::Custom(x), GameEffectData::Custom(y)) => str_eq(x.as_str(), y.as_str()),
        (GameEffectData::Projectile(n, d), GameEffectData::Projectile(m, e)) => {
            str_eq(n.as_str(), m.as_str()) && bytes_eq(d.as_slice(), e.as_slice())
        },
        _ => false,
    }
}

/// Whether the effect is one of the polymorphs.
pub fn effect_is_polymorph(a: &GameEffectData) -> (r: bool)
    ensures
        r == is_polymorph(*a),
{
    match a {
        GameEffectData::Normal(k) => match k {
            GameEffectKind::Polymorph => true,
            GameEffectKind::PolymorphRandom => true,
            GameEffectKind::PolymorphUnstable => true,
            GameEffectKind::PolymorphCessation => true,
            _ => false,
        },
        _ => false,
    }
}

/// The index of the first effect of `s` that is the same as `e`.
pub fn find_effect(s: &Vec<GameEffectData>, e: &GameEffectData) -> (r: Option<usize>)
    ensures
        match r {
            Some(i) => i < s@.len() && same_effect(s@[i as int], *e)
                && forall|j: int| 0 <= j < i ==> !#[trigger] same_effect(s@[j], *e),
            None => !listed(s@, *e),
        },
{
    let mut i: usize = 0;
    while i < s.len()
        invariant
            i <= s@.len(),
            forall|j: int| 0 <= j < i ==> !#[trigger] same_effect(s@[j], *e),
        decreases s@.len() - i,
    {
        if effect_eq(&s[i], e) {
            return Some(i);
        }
        i = i + 1;
    }
    None
}

/// Whether the effect at index `i` comes again later in `s`.
fn comes_again(s: &Vec<GameEffectData>, i: usize) -> (r: bool)
    requires
        i < s@.len(),
    ensures
        r == repeated_later(s@, i as int),
{
    assert(s@.len() == s.len());
    let mut j: usize = i + 1;
    while j < s.len()
        invariant
            i < s@.len(),
            i + 1 <= j <= s@.len(),
            forall|k: int| i < k < j ==> !#[trigger] same_effect(s@[i as int], s@[k]),
        decreases s@.len() - j,
    {
        if effect_eq(&s[i], &s[j]) {
            return true;
        }
        j = j + 1;
    }
    false
}

/// Which of the entity's effects go before anything else: every polymorph,
/// and every effect that comes again later in the list, one flag per effect.
pub fn effects_to_kill_first(local: &Vec<GameEffectData>) -> (r: Vec<bool>)
    ensures
        r@.len() == local@.len(),
        forall|i: int| 0 <= i < local@.len() ==> #[trigger] r@[i]
            == (is_polymorph(local@[i]) || repeated_later(local@, i)),
{
    let mut out: Vec<bool> = Vec::new();
    let mut i: usize = 0;
    while i < local.len()
        invariant
            i <= local@.len(),
            out@.len() == i,
            forall|k: int| 0 <= k < i ==> #[trigger] out@[k]
                == (is_polymorph(local@[k]) || repeated_later(local@, k)),
        decreases local@.len() - i,
    {
        let kill = effect_is_polymorph(&local[i]) || comes_again(local, i);
        out.push(kill);
        i = i + 1;
    }
    out
}

/// For each wanted effect, in order: extend the first local effect that is
/// the same, or spawn it when there is none.
pub fn effect_actions(local: &Vec<GameEffectData>, wanted: &Vec<GameEffectData>) -> (r: Vec<EffectAction>)
    ensures
        r@.len() == wanted@.len(),
        forall|k: int| 0 <= k < wanted@.len() ==> match #[trigger] r@[k] {
            EffectAction::Extend(i) => i < local@.len() && same_effect(local@[i as int], wanted@[k])
                && forall|j: int| 0 <= j < i ==> !#[trigger] same_effect(local@[j], wanted@[k]),
            EffectAction::Spawn => !listed(local@, wanted@[k]),
        },
{
    let mut out: Vec<EffectAction> = Vec::new();
    let mut k: usize = 0;
    while k < wanted.len()
        invariant
            k <= wanted@.len(),
            out@.len() == k,
            forall|m: int| 0 <= m < k ==> match #[trigger] out@[m] {
                EffectAction::Extend(i) => i < local@.len() && same_effect(local@[i as int], wanted@[m])
                    && forall|j: int| 0 <= j < i ==> !#[trigger] same_effect(local@[j], wanted@[m]),
                EffectAction::Spawn => !listed(local@, wanted@[m]),
            },
        decreases wanted@.len() - k,
    {
        let a = match find_effect(local, &wanted[k]) {
            Some(i) => EffectAction::Extend(i),
            None => EffectAction::Spawn,
        };
        out.push(a);
        k = k + 1;
    }
    out
}

/// Which of the entity's effects are not wanted, one flag per effect.
pub fn unwanted_effects(local: &Vec<GameEffectData>, wanted: &Vec<GameEffectData>) -> (r: Vec<bool>)
    ensures
        r@.len() == local@.len(),
        forall|i: int| 0 <= i < local@.len() ==> #[trigger] r@[i] == !listed(wanted@, local@[i]),
{
    let mut out: Vec<bool> = Vec::new();
    let mut i: usize = 0;
    while i < local.len()
        invariant
            i <= local@.len(),
            out@.len() == i,
            forall|m: int| 0 <= m < i ==> #[trigger] out@[m] == !listed(wanted@, local@[m]),
        decreases local@.len() - i,
    {
        let gone = match find_effect(wanted, &local[i]) {
            Some(_) => false,
            None => true,
        };
        out.push(gone);
        i = i + 1;
    }
    out
}

/// The fire probability the entity's damage model gets: high while burning
/// is wanted, none otherwise.
pub fn fire_probability(wanted: &Vec<GameEffectData>) -> (r: i32)
    ensures
        r == if listed(wanted@, GameEffectData::Normal(GameEffectKind::OnFire)) { 1600i32 } else { 0i32 },
{
    let fire = GameEffectData::Normal(GameEffectKind::OnFire);
    match find_effect(wanted, &fire) {
        Some(_) => 1600,
        None => 0,
    }
}

/// What a kept effect's remaining frames, or its entity's lifetime, become:
/// a running count is made endless, and a negative one (already endless)
/// is left alone.
pub fn extended_duration(current: i32) -> (r: Option<i32>)
    ensures
        r == if current >= 0 { Some(i32::MAX) } else { None::<i32> },
{
    if current >= 0 {
        Some(i32::MAX)
    } else {
        None
    }
}

} // verus!
