use vstd::prelude::*;

use crate::entity::{damaged, eff_damage, Entity, FighterV};
use crate::inventory::{Game, MAX_INVENTORY};
use crate::rng::rand_range;

verus! {

/// What one attack resolution reports: who swung at whom, the damage total
/// after the random offset, whether it landed, and whether it killed.
#[derive(Debug, PartialEq)]
pub struct AttackEvent {
    pub attacker: String,
    pub defender: String,
    pub damage: i32,
    pub hit: bool,
    pub killed: bool,
}

/// The machine-arithmetic room an attack needs, whatever the random offset
/// in `[-2, 4)` turns out to be: the damage total fits an `i32`, and the
/// defender's hit points cannot underflow.
pub open spec fn atk_fits(a_eff: int, d: Option<FighterV>) -> bool {
    &&& i32::MIN <= a_eff - 2
    &&& a_eff + 3 <= i32::MAX
    &&& (d is Some && a_eff + 3 > 0 ==> d->0.hp - (a_eff + 3) >= i32::MIN)
}

/// A copy of an entity with the same mathematical image, for reading an
/// attacker while its sequence is mutably borrowed elsewhere.
pub fn snapshot(e: &Entity) -> (c: Entity)
    ensures
        c@ == e@,
{
    Entity {
        x: e.x,
        y: e.y,
        glyph: e.glyph,
        name: e.name.clone(),
        blocks: e.blocks,
        alive: e.alive,
        fighter: e.fighter,
        ai: e.ai,
        item: e.item,
        equipment: e.equipment,
    }
}

/// Resolve an attack under a fixed, given damage roll: the damage total is
/// exactly the attacker's effective damage plus the roll; a positive total
/// is applied to the defender (firing its death transition if it ends at
/// or below zero), a total at or below zero changes nothing.
pub fn attack_with_roll(attacker: &Entity, target: &mut Entity, game: &Game, roll: i32) -> (ev:
    AttackEvent)
    requires
        game.inventory@.len() <= MAX_INVENTORY,
        i32::MIN <= eff_damage(attacker@, game.inventory@) + roll <= i32::MAX,
        i32::MIN <= eff_damage(attacker@, game.inventory@) <= i32::MAX,
        eff_damage(attacker@, game.inventory@) + roll > 0 && old(target)@.fighter is Some ==> old(
            target,
        )@.fighter->0.hp - (eff_damage(attacker@, game.inventory@) + roll) >= i32::MIN,
    ensures
        ev.damage == eff_damage(attacker@, game.inventory@) + roll,
        ev.hit == (ev.damage > 0),
        ev.attacker@ == attacker.name@,
        ev.defender@ == old(target).name@,
        ev.hit ==> final(target)@ == damaged(old(target)@, ev.damage as int),
        !ev.hit ==> final(target)@ == old(target)@,
        ev.killed == (ev.hit && old(target)@.fighter is Some && old(target)@.fighter->0.hp
            - ev.damage <= 0),
{
    let base = attacker.get_damage(game);
    let damage = ((base as i64) + (roll as i64)) as i32;
    let attacker_name = attacker.name.clone();
    let defender_name = target.name.clone();
    if damage > 0 {
        let killed = match target.fighter {
            Some(f) => (f.hp as i64) - (damage as i64) <= 0,
            None => false,
        };
        target.take_damage(damage);
        AttackEvent { attacker: attacker_name, defender: defender_name, damage, hit: true, killed }
    } else {
        AttackEvent {
            attacker: attacker_name,
            defender: defender_name,
            damage,
            hit: false,
            killed: false,
        }
    }
}

impl Entity {
    /// Resolve an attack on `target` with a freshly drawn damage roll. The
    /// roll is uniform in `[-2, 4)`; everything else is as
    /// `attack_with_roll` states, for whichever roll came out.
    pub fn attack(&self, target: &mut Entity, game: &Game) -> (ev: AttackEvent)
        requires
            game.inventory@.len() <= MAX_INVENTORY,
            atk_fits(eff_damage(self@, game.inventory@), old(target)@.fighter),
        ensures
            eff_damage(self@, game.inventory@) - 2 <= ev.damage <= eff_damage(
                self@,
                game.inventory@,
            ) + 3,
            ev.hit == (ev.damage > 0),
            ev.attacker@ == self.name@,
            ev.defender@ == old(target).name@,
            ev.hit ==> final(target)@ == damaged(old(target)@, ev.damage as int),
            !ev.hit ==> final(target)@ == old(target)@,
            ev.killed == (ev.hit && old(target)@.fighter is Some && old(target)@.fighter->0.hp
                - ev.damage <= 0),
    {
        let roll = rand_range(-2, 4);
        attack_with_roll(self, target, game, roll)
    }
}

/// Resolve an attack between two distinct entities of one sequence, by
/// index: the entry at `attacker_id` swings at the entry at `defender_id`,
/// which alone may change.
pub fn attack_entities(
    attacker_id: usize,
    defender_id: usize,
    entities: &mut Vec<Entity>,
    game: &Game,
) -> (ev: AttackEvent)
    requires
        attacker_id < old(entities)@.len(),
        defender_id < old(entities)@.len(),
        attacker_id != defender_id,
        game.inventory@.len() <= MAX_INVENTORY,
        atk_fits(
            eff_damage(old(entities)@[attacker_id as int]@, game.inventory@),
            old(entities)@[defender_id as int]@.fighter,
        ),
    ensures
        final(entities)@.len() == old(entities)@.len(),
        forall|j: int|
            0 <= j < old(entities)@.len() && j != defender_id ==> final(entities)@[j] == old(
                entities,
            )@[j],
        eff_damage(old(entities)@[attacker_id as int]@, game.inventory@) - 2 <= ev.damage
            <= eff_damage(old(entities)@[attacker_id as int]@, game.inventory@) + 3,
        ev.hit == (ev.damage > 0),
        ev.attacker@ == old(entities)@[attacker_id as int].name@,
        ev.defender@ == old(entities)@[defender_id as int].name@,
        ev.hit ==> (final(entities)@[defender_id as int])@ == damaged(
            old(entities)@[defender_id as int]@,
            ev.damage as int,
        ),
        !ev.hit ==> (final(entities)@[defender_id as int])@ == old(entities)@[defender_id as int]@,
        ev.killed == (ev.hit && old(entities)@[defender_id as int]@.fighter is Some && old(
            entities,
        )@[defender_id as int]@.fighter->0.hp - ev.damage <= 0),
{
    let att = snapshot(&entities[attacker_id]);
    att.attack(&mut entities[defender_id], game)
}

} // verus!
