use vstd::prelude::*;

use vstd::string::StringExecFns;

use crate::tile::{MAP_HEIGHT, MAP_WIDTH};

verus! {

/// Which death transition an entity's fighter component fires when its hit
/// points reach zero.
#[derive(Clone, Copy, Debug, PartialEq, Eq, Structural)]
pub enum DeathCallback {
    Player,
    Monster,
}

/// The autonomous-behaviour tag: present on entities that act each turn.
#[derive(Clone, Copy, Debug, PartialEq, Eq, Structural)]
pub enum Ai {
    Normal,
}

/// The consumable kind of an item entity.
#[derive(Clone, Copy, Debug, PartialEq, Eq, Structural)]
pub enum Item {
    Heal,
    Equipment,
}

/// An equipment attachment point; at most one equipped item per slot.
#[derive(Clone, Copy, Debug, PartialEq, Eq, Structural)]
pub enum Slot {
    LeftHand,
    RightHand,
    Head,
}

/// Combat-related state of an entity that can fight.
#[derive(Clone, Copy, Debug, PartialEq, Eq, Structural)]
pub struct Fighter {
    pub max_hp: i32,
    pub hp: i32,
    pub defense: i32,
    pub base_damage: i32,
    pub on_death: DeathCallback,
}

/// Equipment state of an item that can be worn, yielding a damage bonus
/// while equipped.
#[derive(Clone, Copy, Debug, PartialEq, Eq, Structural)]
pub struct Equipment {
    pub slot: Slot,
    pub equipped: bool,
    pub damage_bonus: i32,
}

/// A generic in-world thing: the player, a monster, an item, the stairs.
/// Capability blocks are optional components.
#[derive(Debug, PartialEq)]
pub struct Entity {
    pub x: i32,
    pub y: i32,
    pub glyph: char,
    pub name: String,
    pub blocks: bool,
    pub alive: bool,
    pub fighter: Option<Fighter>,
    pub ai: Option<Ai>,
    pub item: Option<Item>,
    pub equipment: Option<Equipment>,
}

/// Mathematical image of a `Fighter`, with unbounded integers.
pub struct FighterV {
    pub max_hp: int,
    pub hp: int,
    pub defense: int,
    pub base_damage: int,
    pub on_death: DeathCallback,
}

/// Mathematical image of an `Equipment`.
pub struct EquipmentV {
    pub slot: Slot,
    pub equipped: bool,
    pub damage_bonus: int,
}

/// Mathematical image of an `Entity`: the same record with the name as a
/// character sequence and numbers as unbounded integers.
pub struct EntityV {
    pub x: int,
    pub y: int,
    pub glyph: char,
    pub name: Seq<char>,
    pub blocks: bool,
    pub alive: bool,
    pub fighter: Option<FighterV>,
    pub ai: Option<Ai>,
    pub item: Option<Item>,
    pub equipment: Option<EquipmentV>,
}

impl View for Fighter {
    type V = FighterV;

    open spec fn view(&self) -> FighterV {
        FighterV {
            max_hp: self.max_hp as int,
            hp: self.hp as int,
            defense: self.defense as int,
            base_damage: self.base_damage as int,
            on_death: self.on_death,
        }
    }
}

impl View for Equipment {
    type V = EquipmentV;

    open spec fn view(&self) -> EquipmentV {
        EquipmentV {
            slot: self.slot,
            equipped: self.equipped,
            damage_bonus: self.damage_bonus as int,
        }
    }
}

impl View for Entity {
    type V = EntityV;

    open spec fn view(&self) -> EntityV {
        EntityV {
            x: self.x as int,
            y: self.y as int,
            glyph: self.glyph,
            name: self.name@,
            blocks: self.blocks,
            alive: self.alive,
            fighter: match self.fighter {
                Some(f) => Some(f@),
                None => None,
            },
            ai: self.ai,
            item: self.item,
            equipment: match self.equipment {
                Some(q) => Some(q@),
                None => None,
            },
        }
    }
}

/// The name a monster corpse is left with.
pub open spec fn remains_name(n: Seq<char>) -> Seq<char> {
    "remains of "@ + n
}

/// The entity's position lies on the map grid.
pub open spec fn pos_ok(v: EntityV) -> bool {
    0 <= v.x < MAP_WIDTH && 0 <= v.y < MAP_HEIGHT
}

/// The squared Euclidean distance between two entities' positions.
pub open spec fn dist2(a: EntityV, b: EntityV) -> int {
    (b.x - a.x) * (b.x - a.x) + (b.y - a.y) * (b.y - a.y)
}

/// The full effect of `take_damage(dmg)` on an entity: hit points drop when
/// the damage is positive, and if they end at or below zero the entity dies
/// and its death policy is applied, all in one step.
pub open spec fn damaged(v: EntityV, dmg: int) -> EntityV {
    match v.fighter {
        None => v,
        Some(f) => {
            let hp1 = if dmg > 0 {
                f.hp - dmg
            } else {
                f.hp
            };
            if hp1 <= 0 {
                match f.on_death {
                    DeathCallback::Player => EntityV {
                        glyph: '%',
                        alive: false,
                        fighter: Some(FighterV { hp: hp1, ..f }),
                        ..v
                    },
                    DeathCallback::Monster => EntityV {
                        glyph: '%',
                        alive: false,
                        blocks: false,
                        fighter: None,
                        ai: None,
                        name: remains_name(v.name),
                        ..v
                    },
                }
            } else {
                EntityV { fighter: Some(FighterV { hp: hp1, ..f }), ..v }
            }
        },
    }
}

/// The effect of `heal(amt)`: hit points rise by `amt` but are clamped at
/// `max_hp`; entities without a fighter are unchanged.
pub open spec fn healed(v: EntityV, amt: int) -> EntityV {
    match v.fighter {
        None => v,
        Some(f) => {
            let s = f.hp + amt;
            let hp2 = if s > f.max_hp {
                f.max_hp
            } else {
                s
            };
            EntityV { fighter: Some(FighterV { hp: hp2, ..f }), ..v }
        },
    }
}

/// A dead entity shows its death transition: corpse glyph, and for a
/// monster corpse no fighter, no AI, and no movement blocking. The player
/// (the one policy that keeps its fighter) stays a corpse with its record
/// intact.
pub open spec fn inert_ok(v: EntityV) -> bool {
    !v.alive ==> {
        &&& v.glyph == '%'
        &&& (v.fighter matches Some(f) ==> f.on_death is Player)
        &&& (v.fighter is None ==> v.ai is None && !v.blocks)
    }
}

/// Law: the death transition is applied, in one step, whenever damage
/// leaves an entity's hit points at or below zero. A monster becomes an
/// inert corpse: no fighter, no AI, walkable, renamed to its remains; the
/// player keeps its fighter record but is marked dead with the corpse
/// glyph.
pub proof fn lemma_death_policy_applied(v: EntityV, dmg: int)
    requires
        v.fighter matches Some(f) && (if dmg > 0 {
            f.hp - dmg
        } else {
            f.hp
        }) <= 0,
    ensures
        !damaged(v, dmg).alive,
        damaged(v, dmg).glyph == '%',
        v.fighter matches Some(f) && f.on_death is Monster ==> {
            &&& damaged(v, dmg).fighter is None
            &&& damaged(v, dmg).ai is None
            &&& !damaged(v, dmg).blocks
            &&& damaged(v, dmg).name == remains_name(v.name)
        },
        v.fighter matches Some(f) && f.on_death is Player ==> damaged(v, dmg).fighter is Some,
        inert_ok(damaged(v, dmg)),
{
}

/// Law: damage never revives an entity nor un-applies a death transition —
/// every entity that satisfies `inert_ok` still satisfies it after any
/// amount of damage.
pub proof fn lemma_damaged_keeps_inert(v: EntityV, dmg: int)
    requires
        inert_ok(v),
    ensures
        inert_ok(damaged(v, dmg)),
{
}

/// The damage bonus an inventory entry contributes while equipped.
pub open spec fn bonus_of(e: Entity) -> int {
    match e.equipment {
        Some(q) => if q.equipped {
            q.damage_bonus as int
        } else {
            0
        },
        None => 0,
    }
}

/// The equipment records of all equipped inventory entries, in order.
pub open spec fn equipped_seq(inv: Seq<Entity>) -> Seq<Equipment>
    decreases inv.len(),
{
    if inv.len() == 0 {
        Seq::empty()
    } else {
        equipped_seq(inv.drop_last()) + match inv.last().equipment {
            Some(q) => if q.equipped {
                seq![q]
            } else {
                Seq::empty()
            },
            None => Seq::empty(),
        }
    }
}

/// The sum of the damage bonuses of a sequence of equipment records.
pub open spec fn sum_db(s: Seq<Equipment>) -> int
    decreases s.len(),
{
    if s.len() == 0 {
        0
    } else {
        sum_db(s.drop_last()) + s.last().damage_bonus
    }
}

/// The total equipped damage bonus of an inventory.
pub open spec fn sum_bonus(inv: Seq<Entity>) -> int {
    sum_db(equipped_seq(inv))
}

/// The base damage an entity swings with: its fighter's, or zero.
pub open spec fn base_of(v: EntityV) -> int {
    match v.fighter {
        Some(f) => f.base_damage,
        None => 0,
    }
}

/// Effective attack damage before the random offset: base damage plus, for
/// the player (who owns the inventory), the equipped bonuses. Other
/// entities carry no inventory and get no bonus.
pub open spec fn eff_damage(v: EntityV, inv: Seq<Entity>) -> int {
    base_of(v) + if v.name == "Player"@ {
        sum_bonus(inv)
    } else {
        0
    }
}

impl Entity {
    /// A fresh entity at `(x, y)`: blocks movement, alive, and carrying no
    /// capability blocks.
    pub fn new(x: i32, y: i32, glyph: char, name: &str) -> (e: Entity)
        ensures
            e@ == (EntityV {
                x: x as int,
                y: y as int,
                glyph,
                name: name@,
                blocks: true,
                alive: true,
                fighter: None,
                ai: None,
                item: None,
                equipment: None,
            }),
    {
        Entity {
            x,
            y,
            glyph,
            name: name.to_owned(),
            blocks: true,
            alive: true,
            fighter: None,
            ai: None,
            item: None,
            equipment: None,
        }
    }

    /// The entity's position.
    pub fn pos(&self) -> (p: (i32, i32))
        ensures
            p.0 == self.x,
            p.1 == self.y,
    {
        (self.x, self.y)
    }

    /// Move the entity to `(x, y)`.
    pub fn set_pos(&mut self, x: i32, y: i32)
        ensures
            final(self)@ == (EntityV { x: x as int, y: y as int, ..old(self)@ }),
    {
        self.x = x;
        self.y = y;
    }

    /// The squared Euclidean distance to another entity, in grid units.
    pub fn distance_sq(&self, other: &Entity) -> (d: i32)
        requires
            pos_ok(self@),
            pos_ok(other@),
        ensures
            d == dist2(self@, other@),
    {
        let dx = other.x - self.x;
        let dy = other.y - self.y;
        proof {
            assert(dx * dx + dy * dy <= 2 * (MAP_WIDTH as int) * (MAP_WIDTH as int)
                && dx * dx >= 0 && dy * dy >= 0) by (nonlinear_arith)
                requires
                    -(MAP_WIDTH as int) < dx < MAP_WIDTH && -(MAP_HEIGHT as int) < dy < MAP_HEIGHT
                        && MAP_WIDTH == MAP_HEIGHT,
            ;
        }
        dx * dx + dy * dy
    }

    /// Apply `damage` to this entity's fighter, if any, and fire the death
    /// transition when hit points end at or below zero.
    pub fn take_damage(&mut self, damage: i32)
        requires
            old(self)@.fighter is Some && damage > 0 ==> old(self)@.fighter->0.hp - damage
                >= i32::MIN,
        ensures
            final(self)@ == damaged(old(self)@, damage as int),
    {
        if let Some(f) = self.fighter {
            if damage > 0 {
                self.fighter = Some(Fighter { hp: f.hp - damage, ..f });
            }
        }
        if let Some(f) = self.fighter {
            if f.hp <= 0 {
                self.alive = false;
                let cb = f.on_death;
                cb.callback(self);
            }
        }
    }

    /// Raise hit points by `amount`, clamped at `max_hp`.
    pub fn heal(&mut self, amount: i32)
        requires
            amount >= 0,
        ensures
            final(self)@ == healed(old(self)@, amount as int),
            final(self)@.fighter matches Some(f) ==> f.hp <= f.max_hp,
    {
        if let Some(f) = self.fighter {
            let s: i64 = f.hp as i64 + amount as i64;
            let hp2: i32 = if s > f.max_hp as i64 {
                f.max_hp
            } else {
                s as i32
            };
            self.fighter = Some(Fighter { hp: hp2, ..f });
        }
    }
}

impl DeathCallback {
    /// Fire this death policy's transition on `object`.
    pub fn callback(self, object: &mut Entity)
        ensures
            self is Player ==> final(object)@ == (EntityV { glyph: '%', ..old(object)@ }),
            self is Monster ==> final(object)@ == (EntityV {
                glyph: '%',
                blocks: false,
                fighter: None,
                ai: None,
                name: remains_name(old(object)@.name),
                ..old(object)@
            }),
    {
        match self {
            DeathCallback::Player => player_death(object),
            DeathCallback::Monster => monster_death(object),
        }
    }
}

/// The player's death transition: the game is over, the glyph becomes a
/// corpse marker, and the fighter record stays for display.
pub fn player_death(player: &mut Entity)
    ensures
        final(player)@ == (EntityV { glyph: '%', ..old(player)@ }),
{
    player.glyph = '%';
}

/// A monster's death transition: it becomes an inert corpse — corpse glyph,
/// walkable, no fighter, no AI — renamed to its remains.
pub fn monster_death(monster: &mut Entity)
    ensures
        final(monster)@ == (EntityV {
            glyph: '%',
            blocks: false,
            fighter: None,
            ai: None,
            name: remains_name(old(monster)@.name),
            ..old(monster)@
        }),
{
    monster.glyph = '%';
    monster.blocks = false;
    monster.fighter = None;
    monster.ai = None;
    let mut n = String::from_str("remains of ");
    n.append(monster.name.as_str());
    monster.name = n;
}

} // verus!

