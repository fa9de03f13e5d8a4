use vstd::prelude::*;

use vstd::string::StringExecFns;

use crate::entity::{
    bonus_of, damaged, eff_damage, equipped_seq, healed, sum_bonus, sum_db, Entity, EntityV,
    Equipment, EquipmentV, Item,
};
use crate::entity::Slot;
use crate::tile::GameMap;

verus! {

/// The most entries the inventory can hold.
pub const MAX_INVENTORY: usize = 26;

/// The per-level aggregate owned by the game: the map, the player's
/// inventory, and the current depth.
#[derive(Debug, PartialEq)]
pub struct Game {
    pub map: GameMap,
    pub inventory: Vec<Entity>,
    pub dungeon_level: u32,
}

/// The entry has an equipment block and it is currently worn.
pub open spec fn is_equipped(e: Entity) -> bool {
    e.equipment matches Some(q) && q.equipped
}

/// The slot a worn entry occupies.
pub open spec fn slot_of(e: Entity) -> Slot
    recommends
        is_equipped(e),
{
    e.equipment->0.slot
}

/// The entry is equipped and occupies `slot`.
pub open spec fn is_equipped_in_slot(e: Entity, slot: Slot) -> bool {
    is_equipped(e) && slot_of(e) == slot
}

/// At most one worn entry per slot: no two distinct entries are both
/// equipped in the same slot.
pub open spec fn slots_unique(inv: Seq<Entity>) -> bool {
    forall|a: int, b: int|
        0 <= a < b < inv.len() && is_equipped(#[trigger] inv[a]) && is_equipped(
            #[trigger] inv[b],
        ) ==> slot_of(inv[a]) != slot_of(inv[b])
}

/// Anything wearable is also an item: an equipment block never appears
/// without an item block.
pub open spec fn wearable_ok(e: Entity) -> bool {
    e.equipment is Some ==> e.item is Some
}

/// `e` with its equipment's worn flag set to `b`.
pub open spec fn with_equipped(v: EntityV, b: bool) -> EntityV {
    match v.equipment {
        Some(q) => EntityV { equipment: Some(EquipmentV { equipped: b, ..q }), ..v },
        None => v,
    }
}

/// What `equip` and `take_off` report.
#[derive(Clone, Copy, Debug, PartialEq, Eq, Structural)]
pub enum EquipEvent {
    /// The entity has no item block and cannot be handled at all.
    NotAnItem,
    /// The entity has no equipment block and cannot be worn.
    NotEquipment,
    /// The worn state changed; the slot involved is reported.
    Done(Slot),
    /// The entity was already in the requested state.
    NoChange,
}

/// What using an inventory entry came to.
#[derive(Clone, Copy, Debug, PartialEq, Eq, Structural)]
pub enum UseResult {
    UsedUp,
    UsedAndKept,
    Cancelled,
}

impl Entity {
    /// Mark this entity's equipment as worn. No change when it is not an
    /// item, not equipment, or already worn. Slot eviction is the caller's
    /// business (`toggle_equipment`).
    pub fn equip(&mut self) -> (ev: EquipEvent)
        ensures
            old(self).item is None ==> ev == EquipEvent::NotAnItem && final(self)@ == old(self)@,
            old(self).item is Some && old(self).equipment is None ==> ev == EquipEvent::NotEquipment
                && final(self)@ == old(self)@,
            old(self).item is Some && old(self).equipment is Some && old(
                self,
            ).equipment->0.equipped ==> ev == EquipEvent::NoChange && final(self)@ == old(self)@,
            old(self).item is Some && old(self).equipment is Some && !old(
                self,
            ).equipment->0.equipped ==> ev == (EquipEvent::Done(old(self).equipment->0.slot))
                && final(self)@ == with_equipped(old(self)@, true),
    {
        if self.item.is_none() {
            return EquipEvent::NotAnItem;
        }
        match self.equipment {
            Some(q) => {
                if !q.equipped {
                    self.equipment = Some(Equipment { equipped: true, ..q });
                    EquipEvent::Done(q.slot)
                } else {
                    EquipEvent::NoChange
                }
            },
            None => EquipEvent::NotEquipment,
        }
    }

    /// Mark this entity's equipment as no longer worn. No change when it is
    /// not an item, not equipment, or not worn.
    pub fn take_off(&mut self) -> (ev: EquipEvent)
        ensures
            old(self).item is None ==> ev == EquipEvent::NotAnItem && final(self)@ == old(self)@,
            old(self).item is Some && old(self).equipment is None ==> ev == EquipEvent::NotEquipment
                && final(self)@ == old(self)@,
            old(self).item is Some && old(self).equipment is Some && !old(
                self,
            ).equipment->0.equipped ==> ev == EquipEvent::NoChange && final(self)@ == old(self)@,
            old(self).item is Some && old(self).equipment is Some && old(
                self,
            ).equipment->0.equipped ==> ev == (EquipEvent::Done(old(self).equipment->0.slot))
                && final(self)@ == with_equipped(old(self)@, false),
    {
        if self.item.is_none() {
            return EquipEvent::NotAnItem;
        }
        match self.equipment {
            Some(q) => {
                if q.equipped {
                    self.equipment = Some(Equipment { equipped: false, ..q });
                    EquipEvent::Done(q.slot)
                } else {
                    EquipEvent::NoChange
                }
            },
            None => EquipEvent::NotEquipment,
        }
    }

    /// The equipment records this entity currently benefits from: for the
    /// player, every worn inventory entry; for anyone else, nothing.
    pub fn get_all_equipped(&self, game: &Game) -> (r: Vec<Equipment>)
        ensures
            self.name@ == "Player"@ ==> r@ == equipped_seq(game.inventory@),
            self.name@ != "Player"@ ==> r@ == Seq::<Equipment>::empty(),
    {
        let player_name = String::from_str("Player");
        if self.name == player_name {
            let inv = &game.inventory;
            let mut r: Vec<Equipment> = Vec::new();
            let mut i: usize = 0;
            while i < inv.len()
                invariant
                    i <= inv@.len(),
                    r@ == equipped_seq(inv@.take(i as int)),
                decreases inv@.len() - i,
            {
                let e = &inv[i];
                if let Some(q) = e.equipment {
                    if q.equipped {
                        r.push(q);
                    }
                }
                proof {
                    assert(inv@.take(i + 1).drop_last() =~= inv@.take(i as int));
                    assert(inv@.take(i + 1).last() == inv@[i as int]);
                }
                i = i + 1;
            }
            proof {
                assert(inv@.take(inv@.len() as int) =~= inv@);
            }
            r
        } else {
            Vec::new()
        }
    }

    /// Effective attack damage computed exactly, in an integer wide enough
    /// never to overflow.
    pub fn eff_i64(&self, game: &Game) -> (v: i64)
        requires
            game.inventory@.len() <= MAX_INVENTORY,
        ensures
            v == eff_damage(self@, game.inventory@),
    {
        let base: i32 = match self.fighter {
            Some(f) => f.base_damage,
            None => 0,
        };
        let eq = self.get_all_equipped(game);
        proof {
            lemma_equipped_seq_len(game.inventory@);
        }
        let mut acc: i64 = 0;
        let mut i: usize = 0;
        while i < eq.len()
            invariant
                i <= eq@.len(),
                eq@.len() <= MAX_INVENTORY,
                acc == sum_db(eq@.take(i as int)),
                -0x10_0000_0000_0000 <= acc <= 0x10_0000_0000_0000,
            decreases eq@.len() - i,
        {
            proof {
                lemma_sum_db_bound(eq@.take(i + 1));
                assert(eq@.take(i + 1).drop_last() =~= eq@.take(i as int));
                assert(eq@.take(i + 1).last() == eq@[i as int]);
            }
            acc = acc + eq[i].damage_bonus as i64;
            i = i + 1;
        }
        proof {
            assert(eq@.take(eq@.len() as int) =~= eq@);
        }
        base as i64 + acc
    }

    /// Effective attack damage: base damage plus the equipped bonuses this
    /// entity derives from the inventory.
    pub fn get_damage(&self, game: &Game) -> (d: i32)
        requires
            game.inventory@.len() <= MAX_INVENTORY,
            i32::MIN <= eff_damage(self@, game.inventory@) <= i32::MAX,
        ensures
            d == eff_damage(self@, game.inventory@),
    {
        let v = self.eff_i64(game);
        v as i32
    }
}

/// With the inventory capacity respected, an effective damage figure is
/// far from the edges of a 64-bit integer.
pub proof fn lemma_eff_bound(v: crate::entity::EntityV, inv: Seq<Entity>)
    requires
        inv.len() <= MAX_INVENTORY,
        -0x8000_0000 <= crate::entity::base_of(v) <= 0x8000_0000,
    ensures
        -0x40_0000_0000 <= eff_damage(v, inv) <= 0x40_0000_0000,
{
    lemma_equipped_seq_len(inv);
    lemma_sum_db_bound(equipped_seq(inv));
}

/// The sum of bonuses of `s` is bounded by its length times the magnitude
/// of the largest machine integer a bonus can be.
pub proof fn lemma_sum_db_bound(s: Seq<Equipment>)
    ensures
        -(s.len() as int) * 0x8000_0000 <= sum_db(s) <= (s.len() as int) * 0x8000_0000,
    decreases s.len(),
{
    if s.len() > 0 {
        lemma_sum_db_bound(s.drop_last());
    }
}

/// At most every inventory entry is worn: the worn list is no longer than
/// the inventory.
pub proof fn lemma_equipped_seq_len(inv: Seq<Entity>)
    ensures
        equipped_seq(inv).len() <= inv.len(),
    decreases inv.len(),
{
    if inv.len() > 0 {
        lemma_equipped_seq_len(inv.drop_last());
    }
}

/// The first inventory entry equipped in `slot`, if any.
pub fn get_equipped_in_slot(slot: Slot, inventory: &Vec<Entity>) -> (r: Option<usize>)
    ensures
        r matches Some(i) ==> i < inventory@.len() && is_equipped_in_slot(inventory@[i as int], slot)
            && forall|j: int| 0 <= j < i ==> !is_equipped_in_slot(#[trigger] inventory@[j], slot),
        r is None ==> forall|j: int|
            0 <= j < inventory@.len() ==> !is_equipped_in_slot(#[trigger] inventory@[j], slot),
    {
    let mut i: usize = 0;
    while i < inventory.len()
        invariant
            i <= inventory@.len(),
            forall|j: int| 0 <= j < i ==> !is_equipped_in_slot(#[trigger] inventory@[j], slot),
        decreases inventory@.len() - i,
    {
        let e = &inventory[i];
        if let Some(q) = e.equipment {
            if q.equipped && q.slot == slot {
                return Some(i);
            }
        }
        i = i + 1;
    }
    None
}

/// Toggle the worn state of inventory entry `inventory_id`: take it off if
/// worn; otherwise equip it, first evicting whatever else occupies its
/// slot. Keeps the one-worn-entry-per-slot invariant.
pub fn toggle_equipment(inventory_id: usize, inventory: &mut Vec<Entity>) -> (r: UseResult)
    requires
        inventory_id < old(inventory)@.len(),
        slots_unique(old(inventory)@),
        forall|j: int| 0 <= j < old(inventory)@.len() ==> wearable_ok(#[trigger] old(inventory)@[j]),
    ensures
        final(inventory)@.len() == old(inventory)@.len(),
        old(inventory)@[inventory_id as int].equipment is None ==> r == UseResult::Cancelled
            && final(inventory)@ == old(inventory)@,
        old(inventory)@[inventory_id as int].equipment is Some && old(
            inventory,
        )@[inventory_id as int].equipment->0.equipped ==> r == UseResult::UsedAndKept && forall|
            j: int,
        |
            0 <= j < old(inventory)@.len() ==> (#[trigger] final(inventory)@[j])@ == (if j
                == inventory_id {
                with_equipped(old(inventory)@[j]@, false)
            } else {
                old(inventory)@[j]@
            }),
        old(inventory)@[inventory_id as int].equipment is Some && !old(
            inventory,
        )@[inventory_id as int].equipment->0.equipped ==> r == UseResult::UsedAndKept && forall|
            j: int,
        |
            0 <= j < old(inventory)@.len() ==> (#[trigger] final(inventory)@[j])@ == (if j
                == inventory_id {
                with_equipped(old(inventory)@[j]@, true)
            } else if is_equipped_in_slot(
                old(inventory)@[j],
                old(inventory)@[inventory_id as int].equipment->0.slot,
            ) {
                with_equipped(old(inventory)@[j]@, false)
            } else {
                old(inventory)@[j]@
            }),
        slots_unique(final(inventory)@),
        forall|j: int| 0 <= j < final(inventory)@.len() ==> wearable_ok(#[trigger] final(inventory)@[j]),
{
    let q = match inventory[inventory_id].equipment {
        Some(q) => q,
        None => {
            return UseResult::Cancelled;
        },
    };
    if q.equipped {
        let _ev = inventory[inventory_id].take_off();
        UseResult::UsedAndKept
    } else {
        if let Some(current) = get_equipped_in_slot(q.slot, inventory) {
            let _ev = inventory[current].take_off();
        }
        let _ev = inventory[inventory_id].equip();
        UseResult::UsedAndKept
    }
}

/// The full effect of `use_item` on the inventory and the floor: what the
/// result reports, which entries changed, and how.
pub open spec fn use_item_post(
    inventory_id: int,
    inv0: Seq<Entity>,
    inv1: Seq<Entity>,
    es0: Seq<Entity>,
    es1: Seq<Entity>,
    r: Option<UseResult>,
) -> bool {
    &&& (r is None <==> inv0[inventory_id].item is None)
    &&& (r is None ==> inv1 == inv0 && es1 == es0)
    &&& (inv0[inventory_id].item == Some(Item::Heal) ==> {
        &&& es1.len() == es0.len()
        &&& (if es0[0].fighter matches Some(f) && f.hp != f.max_hp {
            &&& r == Some(UseResult::UsedUp)
            &&& inv1 == inv0.remove(inventory_id)
            &&& (es1[0])@ == healed(es0[0]@, 4)
            &&& forall|j: int| 1 <= j < es0.len() ==> es1[j] == es0[j]
        } else {
            &&& r == Some(UseResult::Cancelled)
            &&& inv1 == inv0
            &&& es1 == es0
        })
    })
    &&& (inv0[inventory_id].item == Some(Item::Equipment) ==> {
        &&& es1 == es0
        &&& inv1.len() == inv0.len()
        &&& (inv0[inventory_id].equipment is None ==> r == Some(UseResult::Cancelled) && inv1
            == inv0)
        &&& (inv0[inventory_id].equipment is Some && inv0[inventory_id].equipment->0.equipped ==> r
            == Some(UseResult::UsedAndKept) && forall|j: int|
            0 <= j < inv0.len() ==> (#[trigger] inv1[j])@ == (if j == inventory_id {
                with_equipped(inv0[j]@, false)
            } else {
                inv0[j]@
            }))
        &&& (inv0[inventory_id].equipment is Some && !inv0[inventory_id].equipment->0.equipped
            ==> r == Some(UseResult::UsedAndKept) && forall|j: int|
            0 <= j < inv0.len() ==> (#[trigger] inv1[j])@ == (if j == inventory_id {
                with_equipped(inv0[j]@, true)
            } else if is_equipped_in_slot(inv0[j], inv0[inventory_id].equipment->0.slot) {
                with_equipped(inv0[j]@, false)
            } else {
                inv0[j]@
            }))
    })
}

/// Use the entry at `inventory_id`: a heal potion heals the player and is
/// consumed unless the player is already at full health; equipment toggles
/// its worn state and is kept — taking it off when worn, otherwise
/// equipping it after evicting whatever occupies its slot. `None` reports
/// an entry that is no item.
pub fn use_item(inventory_id: usize, inventory: &mut Vec<Entity>, entities: &mut Vec<Entity>) -> (r:
    Option<UseResult>)
    requires
        inventory_id < old(inventory)@.len(),
        old(entities)@.len() >= 1,
        slots_unique(old(inventory)@),
        forall|j: int| 0 <= j < old(inventory)@.len() ==> wearable_ok(#[trigger] old(inventory)@[j]),
    ensures
        use_item_post(
            inventory_id as int,
            old(inventory)@,
            final(inventory)@,
            old(entities)@,
            final(entities)@,
            r,
        ),
        slots_unique(final(inventory)@),
        forall|j: int| 0 <= j < final(inventory)@.len() ==> wearable_ok(#[trigger] final(inventory)@[j]),
{
    let kind = match inventory[inventory_id].item {
        Some(k) => k,
        None => {
            return None;
        },
    };
    match kind {
        Item::Heal => {
            let res = cast_heal(entities);
            match res {
                UseResult::UsedUp => {
                    inventory.remove(inventory_id);
                    proof {
                        lemma_slots_unique_remove(old(inventory)@, inventory_id as int);
                    }
                    Some(UseResult::UsedUp)
                },
                _ => Some(UseResult::Cancelled),
            }
        },
        Item::Equipment => {
            let res = toggle_equipment(inventory_id, inventory);
            Some(res)
        },
    }
}

/// Heal the player by the fixed potion amount, unless already at full
/// health, in which case the action is cancelled.
pub fn cast_heal(entities: &mut Vec<Entity>) -> (r: UseResult)
    requires
        old(entities)@.len() >= 1,
    ensures
        final(entities)@.len() == old(entities)@.len(),
        forall|j: int| 1 <= j < old(entities)@.len() ==> final(entities)@[j] == old(entities)@[j],
        old(entities)@[0].fighter matches Some(f) && f.hp != f.max_hp ==> r == UseResult::UsedUp
            && (final(entities)@[0])@ == healed(old(entities)@[0]@, 4),
        old(entities)@[0].fighter matches Some(f) && f.hp == f.max_hp ==> r == UseResult::Cancelled
            && final(entities)@ == old(entities)@,
        old(entities)@[0].fighter is None ==> r == UseResult::Cancelled && final(entities)@ == old(
            entities,
        )@,
{
    if let Some(f) = entities[0].fighter {
        if f.hp == f.max_hp {
            return UseResult::Cancelled;
        }
        entities[0].heal(4);
        return UseResult::UsedUp;
    }
    UseResult::Cancelled
}

/// Removing an entry keeps the one-worn-entry-per-slot invariant.
pub proof fn lemma_slots_unique_remove(inv: Seq<Entity>, i: int)
    requires
        0 <= i < inv.len(),
        slots_unique(inv),
    ensures
        slots_unique(inv.remove(i)),
{
    let r = inv.remove(i);
    assert forall|a: int, b: int|
        0 <= a < b < r.len() && is_equipped(#[trigger] r[a]) && is_equipped(
            #[trigger] r[b],
        ) implies slot_of(r[a]) != slot_of(r[b]) by {
        let a0 = if a < i {
            a
        } else {
            a + 1
        };
        let b0 = if b < i {
            b
        } else {
            b + 1
        };
        assert(r[a] == inv[a0]);
        assert(r[b] == inv[b0]);
    }
}

/// Move the floor entity at `object_id` into the inventory, unless the
/// inventory is full; the floor sequence closes the gap with its last
/// entry.
pub fn pick_item_up(object_id: usize, entities: &mut Vec<Entity>, inventory: &mut Vec<Entity>) -> (picked:
    bool)
    requires
        object_id < old(entities)@.len(),
    ensures
        old(inventory)@.len() >= MAX_INVENTORY ==> !picked && final(entities)@ == old(entities)@
            && final(inventory)@ == old(inventory)@,
        old(inventory)@.len() < MAX_INVENTORY ==> picked && final(inventory)@ == old(
            inventory,
        )@.push(old(entities)@[object_id as int]) && final(entities)@ == old(entities)@.update(
            object_id as int,
            old(entities)@.last(),
        ).drop_last(),
{
    if inventory.len() >= MAX_INVENTORY {
        false
    } else {
        let item = entities.swap_remove(object_id);
        inventory.push(item);
        true
    }
}

} // verus!
