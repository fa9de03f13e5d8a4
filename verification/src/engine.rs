use vstd::prelude::*;

use crate::combat::{atk_fits, attack_entities, AttackEvent};
use crate::entity::{
    damaged, dist2, eff_damage, healed, inert_ok, pos_ok, Ai, DeathCallback, Entity, EntityV,
    EquipmentV, Fighter, FighterV, Item, Slot,
};
use crate::entity::Equipment;
use crate::inventory::{
    is_equipped, pick_item_up, slots_unique, use_item, use_item_post, wearable_ok, Game,
    UseResult, MAX_INVENTORY,
};
use crate::rng::rand_range;
use crate::seen::SeenSet;
use crate::tile::{is_fresh_map, make_map, GameMap, MAP_HEIGHT, MAP_WIDTH};

verus! {

/// How a player command counted towards the turn cycle.
#[derive(Clone, Copy, Debug, PartialEq, Eq, Structural)]
pub enum PlayerAction {
    TookTurn,
    DidntTakeTurn,
    Exit,
}

/// A decoded player command.
#[derive(Clone, Copy, Debug, PartialEq, Eq, Structural)]
pub enum Command {
    /// A directional move or attack by one step.
    Move(i32, i32),
    /// Pick up the item under the player.
    PickUp,
    /// Open the inventory menu; which entry the player picks is the
    /// presentation layer's business, which hands the choice back as
    /// `UseItem`.
    Inventory,
    /// Use the inventory entry at the given index.
    UseItem(usize),
    /// Use the stairs under the player.
    Stairs,
    /// Quit the game.
    Quit,
    /// Anything unrecognized: a no-op turn.
    Other,
}

/// Decode a single command character.
pub fn parse_command(c: char) -> (cmd: Command)
    ensures
        c == 'w' ==> cmd == (Command::Move(-1i32, 0i32)),
        c == 'e' ==> cmd == (Command::Move(1i32, 0i32)),
        c == 'n' ==> cmd == (Command::Move(0i32, -1i32)),
        c == 's' ==> cmd == (Command::Move(0i32, 1i32)),
        c == 'g' ==> cmd == Command::PickUp,
        c == 'i' ==> cmd == Command::Inventory,
        c == '>' || c == '<' ==> cmd == Command::Stairs,
        c == 'Q' ==> cmd == Command::Quit,
        c != 'w' && c != 'e' && c != 'n' && c != 's' && c != 'g' && c != 'i' && c != '>' && c != '<'
            && c != 'Q' ==> cmd == Command::Other,
{
    if c == 'w' {
        Command::Move(-1, 0)
    } else if c == 'e' {
        Command::Move(1, 0)
    } else if c == 'n' {
        Command::Move(0, -1)
    } else if c == 's' {
        Command::Move(0, 1)
    } else if c == 'g' {
        Command::PickUp
    } else if c == 'i' {
        Command::Inventory
    } else if c == '>' || c == '<' {
        Command::Stairs
    } else if c == 'Q' {
        Command::Quit
    } else {
        Command::Other
    }
}

/// What one movement attempt came to.
#[derive(Debug, PartialEq)]
pub enum MoveOutcome {
    /// The mover stepped onto the target cell.
    Moved,
    /// The target cell is off the map or blocked; nothing changed.
    Blocked,
    /// A fighter occupied the target cell; combat resolved instead.
    Fought(AttackEvent),
}

/// Every entity's position lies on the map grid.
pub open spec fn wf_positions(s: Seq<Entity>) -> bool {
    forall|k: int| 0 <= k < s.len() ==> pos_ok((#[trigger] s[k])@)
}

/// A living fighter stands at `(tx, ty)`.
pub open spec fn occupies_fighter(e: Entity, tx: int, ty: int) -> bool {
    e.alive && e.fighter is Some && e.x == tx && e.y == ty
}

/// The first index at or after `k` holding a living fighter at `(tx, ty)`.
pub open spec fn target_at_from(s: Seq<Entity>, tx: int, ty: int, k: int) -> Option<int>
    decreases s.len() - k when 0 <= k <= s.len()
{
    if k >= s.len() {
        None
    } else if occupies_fighter(s[k], tx, ty) {
        Some(k)
    } else {
        target_at_from(s, tx, ty, k + 1)
    }
}

/// The first index holding a living fighter at `(tx, ty)`, if any.
pub open spec fn target_at(s: Seq<Entity>, tx: int, ty: int) -> Option<int> {
    target_at_from(s, tx, ty, 0)
}

/// What resolving combat against entry `j` leaves behind: only entry `j`
/// changed, by an attack event whose damage is the mover's effective
/// damage plus a roll in `[-2, 4)`.
pub open spec fn fought_post(
    s0: Seq<Entity>,
    s1: Seq<Entity>,
    id: int,
    j: int,
    inv: Seq<Entity>,
    ev: AttackEvent,
) -> bool {
    &&& s1.len() == s0.len()
    &&& forall|k: int| 0 <= k < s0.len() && k != j ==> s1[k] == s0[k]
    &&& eff_damage(s0[id]@, inv) - 2 <= ev.damage <= eff_damage(s0[id]@, inv) + 3
    &&& ev.hit == (ev.damage > 0)
    &&& ev.attacker@ == s0[id].name@
    &&& ev.defender@ == s0[j].name@
    &&& (ev.hit ==> (s1[j])@ == damaged(s0[j]@, ev.damage as int))
    &&& (!ev.hit ==> (s1[j])@ == s0[j]@)
    &&& ev.killed == (ev.hit && s0[j]@.fighter is Some && s0[j]@.fighter->0.hp - ev.damage <= 0)
}

/// The full effect of a movement attempt from entry `id` by `(dx, dy)`:
/// blocked or off-map means no change; a living fighter on the target cell
/// means combat against the first such entry; otherwise the mover is
/// translated.
pub open spec fn move_by_post(
    s0: Seq<Entity>,
    s1: Seq<Entity>,
    id: int,
    dx: int,
    dy: int,
    m: GameMap,
    inv: Seq<Entity>,
    r: MoveOutcome,
) -> bool {
    let tx = s0[id]@.x + dx;
    let ty = s0[id]@.y + dy;
    &&& s1.len() == s0.len()
    &&& (!GameMap::in_bounds(tx, ty) || m.tile_at(tx, ty).blocked ==> r == MoveOutcome::Blocked
        && s1 == s0)
    &&& (GameMap::in_bounds(tx, ty) && !m.tile_at(tx, ty).blocked ==> match target_at(s0, tx, ty) {
        None => {
            &&& r == MoveOutcome::Moved
            &&& forall|k: int| 0 <= k < s0.len() && k != id ==> s1[k] == s0[k]
            &&& (s1[id])@ == (EntityV { x: tx, y: ty, ..s0[id]@ })
        },
        Some(j) => r matches MoveOutcome::Fought(ev) && fought_post(s0, s1, id, j, inv, ev),
    })
}

/// Try to move entry `id` by one step of `(dx, dy)`: fail silently against
/// walls and map edges, fight the first living fighter on the target cell,
/// or step there.
pub fn move_by(id: usize, dx: i32, dy: i32, entities: &mut Vec<Entity>, game: &Game) -> (r:
    MoveOutcome)
    requires
        id < old(entities)@.len(),
        -1 <= dx <= 1,
        -1 <= dy <= 1,
        !(dx == 0 && dy == 0),
        pos_ok(old(entities)@[id as int]@),
        game.map.wf(),
        game.inventory@.len() <= MAX_INVENTORY,
        forall|j: int|
            0 <= j < old(entities)@.len() ==> atk_fits(
                eff_damage(old(entities)@[id as int]@, game.inventory@),
                (#[trigger] old(entities)@[j])@.fighter,
            ),
    ensures
        move_by_post(
            old(entities)@,
            final(entities)@,
            id as int,
            dx as int,
            dy as int,
            game.map,
            game.inventory@,
            r,
        ),
{
    let (x, y) = entities[id].pos();
    let tx = x + dx;
    let ty = y + dy;
    if tx < 0 || tx >= MAP_WIDTH || ty < 0 || ty >= MAP_HEIGHT {
        return MoveOutcome::Blocked;
    }
    if game.map.get(tx, ty).blocked {
        return MoveOutcome::Blocked;
    }
    let ghost s0 = entities@;
    let mut j: usize = 0;
    let mut found = false;
    while j < entities.len() && !found
        invariant
            j <= s0.len(),
            entities@ == s0,
            !found ==> target_at(s0, tx as int, ty as int) == target_at_from(
                s0,
                tx as int,
                ty as int,
                j as int,
            ),
            found ==> j < s0.len() && target_at(s0, tx as int, ty as int) == Some(j as int)
                && occupies_fighter(s0[j as int], tx as int, ty as int),
        decreases s0.len() - j, (if found { 0int } else { 1int }),
    {
        let e = &entities[j];
        if e.alive && e.fighter.is_some() && e.x == tx && e.y == ty {
            found = true;
        } else {
            j = j + 1;
        }
    }
    if found {
        proof {
            assert(occupies_fighter(s0[j as int], tx as int, ty as int));
            assert(s0[id as int].x == x && s0[id as int].y == y);
            assert(j != id);
        }
        let ev = attack_entities(id, j, entities, game);
        MoveOutcome::Fought(ev)
    } else {
        entities[id].set_pos(tx, ty);
        MoveOutcome::Moved
    }
}

/// The one-axis component of a greedy unit step towards a target: the sign
/// of the axis delta when the normalized component rounds to one, zero
/// when it rounds away.
pub open spec fn step_coord(d: int, other: int) -> int {
    if 3 * d * d >= other * other {
        if d > 0 {
            1
        } else if d < 0 {
            -1
        } else {
            0
        }
    } else {
        0
    }
}

/// Move entry `id` one greedy step towards `(target_x, target_y)`: the
/// straight-line vector, normalized to unit length with each axis rounded
/// to the nearest integer step. Greedy, not pathfinding: the step may run
/// into a wall and fail there.
pub fn move_towards(
    id: usize,
    target_x: i32,
    target_y: i32,
    entities: &mut Vec<Entity>,
    game: &Game,
) -> (r: MoveOutcome)
    requires
        id < old(entities)@.len(),
        pos_ok(old(entities)@[id as int]@),
        0 <= target_x < MAP_WIDTH,
        0 <= target_y < MAP_HEIGHT,
        !(target_x == old(entities)@[id as int].x && target_y == old(entities)@[id as int].y),
        game.map.wf(),
        game.inventory@.len() <= MAX_INVENTORY,
        forall|j: int|
            0 <= j < old(entities)@.len() ==> atk_fits(
                eff_damage(old(entities)@[id as int]@, game.inventory@),
                (#[trigger] old(entities)@[j])@.fighter,
            ),
    ensures
        move_by_post(
            old(entities)@,
            final(entities)@,
            id as int,
            step_coord(
                target_x - old(entities)@[id as int]@.x,
                target_y - old(entities)@[id as int]@.y,
            ),
            step_coord(
                target_y - old(entities)@[id as int]@.y,
                target_x - old(entities)@[id as int]@.x,
            ),
            game.map,
            game.inventory@,
            r,
        ),
{
    let dx = target_x - entities[id].x;
    let dy = target_y - entities[id].y;
    proof {
        assert(-(MAP_WIDTH as int) < dx < MAP_WIDTH);
        assert(-(MAP_HEIGHT as int) < dy < MAP_HEIGHT);
        assert(0 <= dx * dx <= 361 && 0 <= dy * dy <= 361 && 0 <= 3 * dx * dx <= 1083 && 0 <= 3
            * dy * dy <= 1083) by (nonlinear_arith)
            requires
                -20 < dx < 20 && -20 < dy < 20,
        ;
    }
    let sx: i32 = if 3 * dx * dx >= dy * dy {
        if dx > 0 {
            1
        } else if dx < 0 {
            -1
        } else {
            0
        }
    } else {
        0
    };
    let sy: i32 = if 3 * dy * dy >= dx * dx {
        if dy > 0 {
            1
        } else if dy < 0 {
            -1
        } else {
            0
        }
    } else {
        0
    };
    proof {
        assert(!(dx == 0 && dy == 0));
        if sx == 0 && sy == 0 {
            assert(false) by (nonlinear_arith)
                requires
                    3 * dx * dx < dy * dy || dx == 0,
                    3 * dy * dy < dx * dx || dy == 0,
                    !(dx == 0 && dy == 0),
            ;
        }
        assert(sx as int == step_coord(dx as int, dy as int));
        assert(sy as int == step_coord(dy as int, dx as int));
    }
    move_by(id, sx, sy, entities, game)
}

/// What one floor entry's slice of the AI phase came to.
#[derive(Debug, PartialEq)]
pub enum AiEvent {
    /// The entry carries no AI and was passed over.
    Skipped,
    /// Not visible to the player: the monster stays dormant.
    Dormant,
    /// It moved towards the player, or fought whatever stood in the way.
    Acted(MoveOutcome),
    /// In reach, but the player is already down; nothing to do.
    Waited,
}

/// The full effect of one monster's turn, by the state machine's cases:
/// dormant when its cell is out of sight; a greedy step towards the player
/// (or the combat the step runs into) when in sight and two or more grid
/// units away; an attack on the player when adjacent and the player still
/// fights; nothing when the player is already down.
pub open spec fn ai_turn_post(
    s0: Seq<Entity>,
    s1: Seq<Entity>,
    id: int,
    seen: &SeenSet,
    m: GameMap,
    inv: Seq<Entity>,
    r: AiEvent,
) -> bool {
    &&& (!s0[id]@.pos_seen(seen) ==> r == AiEvent::Dormant && s1 == s0)
    &&& (s0[id]@.pos_seen(seen) && dist2(s0[id]@, s0[0]@) >= 4 ==> (r matches AiEvent::Acted(mo)
        && move_by_post(
        s0,
        s1,
        id,
        step_coord(s0[0]@.x - s0[id]@.x, s0[0]@.y - s0[id]@.y),
        step_coord(s0[0]@.y - s0[id]@.y, s0[0]@.x - s0[id]@.x),
        m,
        inv,
        mo,
    )))
    &&& (s0[id]@.pos_seen(seen) && dist2(s0[id]@, s0[0]@) < 4 && player_fighting(s0) ==> (
    r matches AiEvent::Acted(MoveOutcome::Fought(ev)) && fought_post(s0, s1, id, 0, inv, ev)))
    &&& (s0[id]@.pos_seen(seen) && dist2(s0[id]@, s0[0]@) < 4 && !player_fighting(s0) ==> r
        == AiEvent::Waited && s1 == s0)
}

/// One monster's turn. Visibility is symmetric: the monster acts only when
/// the player sees its cell. In view and two or more grid units away it
/// steps greedily towards the player; adjacent and with the player still
/// fighting, it attacks.
pub fn ai_take_turn(monster_id: usize, entities: &mut Vec<Entity>, seen: &SeenSet, game: &Game) -> (r:
    AiEvent)
    requires
        0 < monster_id < old(entities)@.len(),
        wf_positions(old(entities)@),
        game.map.wf(),
        game.inventory@.len() <= MAX_INVENTORY,
        forall|j: int|
            0 <= j < old(entities)@.len() ==> atk_fits(
                eff_damage(old(entities)@[monster_id as int]@, game.inventory@),
                (#[trigger] old(entities)@[j])@.fighter,
            ),
    ensures
        ai_turn_post(
            old(entities)@,
            final(entities)@,
            monster_id as int,
            seen,
            game.map,
            game.inventory@,
            r,
        ),
{
    let (mx, my) = entities[monster_id].pos();
    if seen.contains(mx, my) {
        let d = entities[monster_id].distance_sq(&entities[0]);
        if d >= 4 {
            let (px, py) = entities[0].pos();
            proof {
                let a = entities@[monster_id as int]@;
                let b = entities@[0]@;
                if b.x == a.x && b.y == a.y {
                    assert((b.x - a.x) * (b.x - a.x) + (b.y - a.y) * (b.y - a.y) == 0)
                        by (nonlinear_arith)
                        requires
                            b.x == a.x,
                            b.y == a.y,
                    ;
                    assert(false);
                }
            }
            let mo = move_towards(monster_id, px, py, entities, game);
            AiEvent::Acted(mo)
        } else {
            let fighting = match entities[0].fighter {
                Some(f) => f.hp > 0,
                None => false,
            };
            if fighting {
                let ev = attack_entities(monster_id, 0, entities, game);
                AiEvent::Acted(MoveOutcome::Fought(ev))
            } else {
                AiEvent::Waited
            }
        }
    } else {
        AiEvent::Dormant
    }
}

/// Entry 0 — the player — is still in the fight: it has a fighter with
/// positive hit points.
pub open spec fn player_fighting(s: Seq<Entity>) -> bool {
    s[0]@.fighter is Some && s[0]@.fighter->0.hp > 0
}

impl EntityV {
    /// The entity's cell is in the visible-set.
    pub open spec fn pos_seen(self, seen: &SeenSet) -> bool {
        seen.sees(self.x, self.y)
    }
}

/// The worst damage one attack by `e` can deal: its effective damage plus
/// the best roll, and never less than nothing.
pub open spec fn pot(e: Entity, inv: Seq<Entity>) -> int {
    let d = eff_damage(e@, inv) + 3;
    if d > 0 {
        d
    } else {
        0
    }
}

/// The summed worst per-attacker damage of entries `k..` of `s`.
pub open spec fn pot_sum_from(s: Seq<Entity>, inv: Seq<Entity>, k: int) -> int
    decreases s.len() - k when 0 <= k <= s.len()
{
    if k >= s.len() {
        0
    } else {
        pot(s[k], inv) + pot_sum_from(s, inv, k + 1)
    }
}

/// Worst-case damage totals are never negative.
pub proof fn lemma_pot_sum_nonneg(s: Seq<Entity>, inv: Seq<Entity>, k: int)
    requires
        0 <= k <= s.len(),
    ensures
        pot_sum_from(s, inv, k) >= 0,
    decreases s.len() - k,
{
    if k < s.len() {
        lemma_pot_sum_nonneg(s, inv, k + 1);
    }
}

/// The entity's effective damage, give or take the extreme rolls, fits the
/// machine integers combat is computed in.
pub open spec fn eff_ok(e: Entity, inv: Seq<Entity>) -> bool {
    i32::MIN <= eff_damage(e@, inv) - 2 && eff_damage(e@, inv) + 3 <= i32::MAX
}

/// Damage may clear a monster's record but never conjures attack strength:
/// afterwards the entity's effective damage is unchanged or zero, and an
/// entity that still has its AI attacks exactly as before.
pub proof fn lemma_eff_after_damage(v: EntityV, dmg: int, inv: Seq<Entity>)
    ensures
        eff_damage(damaged(v, dmg), inv) == eff_damage(v, inv) || eff_damage(damaged(v, dmg), inv)
            == 0,
        damaged(v, dmg).ai is Some ==> damaged(v, dmg).ai == v.ai && eff_damage(
            damaged(v, dmg),
            inv,
        ) == eff_damage(v, inv),
{
    let w = damaged(v, dmg);
    if v.fighter is Some {
        let f = v.fighter->0;
        let hp1 = if dmg > 0 {
            f.hp - dmg
        } else {
            f.hp
        };
        if hp1 <= 0 && f.on_death is Monster {
            reveal_strlit("remains of ");
            reveal_strlit("Player");
            assert(w.name.len() == 11 + v.name.len());
            assert(("Player"@).len() == 6);
            assert(w.name != "Player"@);
            assert(eff_damage(w, inv) == 0);
        }
    }
}

/// One slice of the AI phase: entry `i` of the pre-state acted. An entry
/// carrying an AI advances the state exactly as `ai_turn_post` says; one
/// without is passed over and changes nothing.
pub open spec fn ai_phase_step(
    pre: Seq<Entity>,
    post: Seq<Entity>,
    i: int,
    seen: &SeenSet,
    m: GameMap,
    inv: Seq<Entity>,
    ev: AiEvent,
) -> bool {
    if pre[i].ai is Some {
        ai_turn_post(pre, post, i, seen, m, inv, ev)
    } else {
        post == pre && ev == AiEvent::Skipped
    }
}

/// A chain of intermediate states witnessing a whole AI phase: one state
/// per floor entry, from `s0` to `s1`, where entry `i` acts between the
/// `i`th and the `i+1`th state, in floor order, reported by `events[i]`.
pub open spec fn ai_phase_chain(
    sts: Seq<Seq<Entity>>,
    s0: Seq<Entity>,
    s1: Seq<Entity>,
    seen: &SeenSet,
    m: GameMap,
    inv: Seq<Entity>,
    events: Seq<AiEvent>,
) -> bool {
    &&& sts.len() == s0.len() + 1
    &&& sts[0] == s0
    &&& sts[s0.len() as int] == s1
    &&& forall|i: int|
        0 <= i < s0.len() ==> #[trigger] ai_phase_step(sts[i], sts[i + 1], i, seen, m, inv, events[i])
}

/// The whole AI phase: one event per floor entry, and a chain of
/// intermediate states in which every entry took its turn once, in floor
/// order — monsters by `ai_turn_post`'s cases, everything else untouched.
pub open spec fn ai_phase_post(
    s0: Seq<Entity>,
    s1: Seq<Entity>,
    seen: &SeenSet,
    m: GameMap,
    inv: Seq<Entity>,
    events: Seq<AiEvent>,
) -> bool {
    &&& events.len() == s0.len()
    &&& exists|sts: Seq<Seq<Entity>>| #[trigger] ai_phase_chain(sts, s0, s1, seen, m, inv, events)
}

/// Run the AI phase: every entity carrying an AI acts once, in floor order,
/// by the state machine's cases, composed as `ai_phase_post` states. The
/// player (entry 0) never acts here and keeps its place, position and
/// name; positions stay on the grid; and entities already shaped by a death
/// transition stay that way.
pub fn ai_phase(entities: &mut Vec<Entity>, seen: &SeenSet, game: &Game) -> (events: Vec<AiEvent>)
    requires
        old(entities)@.len() >= 1,
        old(entities)@[0].ai is None,
        old(entities)@[0]@.fighter is Some ==> old(entities)@[0]@.fighter->0.on_death is Player,
        wf_positions(old(entities)@),
        game.map.wf(),
        game.inventory@.len() <= MAX_INVENTORY,
        forall|k: int| 0 <= k < old(entities)@.len() ==> eff_ok(#[trigger] old(entities)@[k], game.inventory@),
        forall|d: int|
            0 <= d < old(entities)@.len() && (#[trigger] old(entities)@[d])@.fighter is Some ==> old(
                entities,
            )@[d]@.fighter->0.hp - pot_sum_from(old(entities)@, game.inventory@, 0) >= i32::MIN,
    ensures
        final(entities)@.len() == old(entities)@.len(),
        wf_positions(final(entities)@),
        final(entities)@[0].ai is None,
        final(entities)@[0]@.x == old(entities)@[0]@.x,
        final(entities)@[0]@.y == old(entities)@[0]@.y,
        final(entities)@[0]@.name == old(entities)@[0]@.name,
        final(entities)@[0]@.fighter is Some ==> final(entities)@[0]@.fighter->0.on_death
            is Player,
        (forall|k: int| 0 <= k < old(entities)@.len() ==> inert_ok((#[trigger] old(entities)@[k])@))
            ==> (forall|k: int|
            0 <= k < final(entities)@.len() ==> inert_ok((#[trigger] final(entities)@[k])@)),
        ai_phase_post(
            old(entities)@,
            final(entities)@,
            seen,
            game.map,
            game.inventory@,
            events@,
        ),
{
    let ghost s0 = old(entities)@;
    let ghost inv = game.inventory@;
    let ghost mut sts: Seq<Seq<Entity>> = seq![s0];
    let mut events: Vec<AiEvent> = Vec::new();
    let mut i: usize = 0;
    while i < entities.len()
        invariant
            entities@.len() == s0.len(),
            s0.len() >= 1,
            i <= s0.len(),
            game.map.wf(),
            inv == game.inventory@,
            inv.len() <= MAX_INVENTORY,
            entities@[0].ai is None,
            entities@[0]@.x == s0[0]@.x,
            entities@[0]@.y == s0[0]@.y,
            entities@[0]@.name == s0[0]@.name,
            entities@[0]@.fighter is Some ==> entities@[0]@.fighter->0.on_death is Player,
            wf_positions(entities@),
            forall|k: int| 0 <= k < s0.len() ==> eff_ok(#[trigger] entities@[k], inv),
            forall|k: int|
                i <= k < s0.len() && (#[trigger] entities@[k]).ai is Some ==> eff_damage(
                    entities@[k]@,
                    inv,
                ) == eff_damage(s0[k]@, inv),
            forall|d: int|
                0 <= d < s0.len() && (#[trigger] entities@[d])@.fighter is Some ==> entities@[d]@.fighter->0.hp
                    - pot_sum_from(s0, inv, i as int) >= i32::MIN,
            (forall|k: int| 0 <= k < s0.len() ==> inert_ok((#[trigger] s0[k])@)) ==> (forall|k: int|
                0 <= k < s0.len() ==> inert_ok((#[trigger] entities@[k])@)),
            events@.len() == i,
            sts.len() == i + 1,
            sts[0] == s0,
            sts[i as int] == entities@,
            forall|k: int|
                0 <= k < i ==> #[trigger] ai_phase_step(
                    sts[k],
                    sts[k + 1],
                    k,
                    seen,
                    game.map,
                    inv,
                    events@[k],
                ),
        decreases s0.len() - i,
    {
        proof {
            lemma_pot_sum_nonneg(s0, inv, i as int + 1);
            assert(pot_sum_from(s0, inv, i as int) == pot(s0[i as int], inv) + pot_sum_from(
                s0,
                inv,
                i as int + 1,
            ));
        }
        let has_ai = entities[i].ai.is_some();
        if has_ai {
            proof {
                assert(i != 0);
                assert(eff_damage(entities@[i as int]@, inv) == eff_damage(s0[i as int]@, inv));
                assert forall|j: int|
                    0 <= j < entities@.len() implies atk_fits(
                    eff_damage(entities@[i as int]@, inv),
                    (#[trigger] entities@[j])@.fighter,
                ) by {
                    let eff = eff_damage(entities@[i as int]@, inv);
                    assert(eff_ok(entities@[i as int], inv));
                    if entities@[j]@.fighter is Some && eff + 3 > 0 {
                        assert(pot(s0[i as int], inv) == eff + 3);
                        assert(entities@[j]@.fighter->0.hp - pot_sum_from(s0, inv, i as int)
                            >= i32::MIN);
                    }
                }
            }
            let ghost pre = entities@;
            let aev = ai_take_turn(i, entities, seen, game);
            proof {
                let cur = entities@;
                let m = pre[i as int]@;
                if m.pos_seen(seen) && dist2(m, pre[0]@) >= 4 {
                    let sx = step_coord(pre[0]@.x - m.x, pre[0]@.y - m.y);
                    let sy = step_coord(pre[0]@.y - m.y, pre[0]@.x - m.x);
                    let tx = m.x + sx;
                    let ty = m.y + sy;
                    match &aev {
                        AiEvent::Acted(mo) => {
                            assert(move_by_post(pre, cur, i as int, sx, sy, game.map, inv, *mo));
                            if !GameMap::in_bounds(tx, ty) || game.map.tile_at(tx, ty).blocked {
                                assert(cur == pre);
                            } else {
                                match target_at(pre, tx, ty) {
                                    None => {
                                        assert(moved_only(pre, cur, i as int));
                                    },
                                    Some(j) => {
                                        match mo {
                                            MoveOutcome::Fought(ev2) => {

                                                assert(fought_post(
                                                    pre,
                                                    cur,
                                                    i as int,
                                                    j,
                                                    inv,
                                                    *ev2,
                                                ));
                                                if ev2.hit {
                                                    assert((cur[j])@ == damaged(
                                                        pre[j]@,
                                                        ev2.damage as int,
                                                    ));
                                                }
                                                assert(fought_shape(pre, cur, i as int, j, inv));
                                            },
                                            _ => {
                                                assert(false);
                                            },
                                        }
                                    },
                                }
                            }
                        },
                        _ => {
                            assert(false);
                        },
                    }
                } else if m.pos_seen(seen) && player_fighting(pre) {
                    match &aev {
                        AiEvent::Acted(mo) => {
                            match mo {
                                MoveOutcome::Fought(ev2) => {
                                    assert(fought_post(pre, cur, i as int, 0, inv, *ev2));
                                    if ev2.hit {
                                        assert((cur[0])@ == damaged(pre[0]@, ev2.damage as int));
                                    }
                                    assert(fought_shape(pre, cur, i as int, 0, inv));
                                },
                                _ => {
                                    assert(false);
                                },
                            }
                        },
                        _ => {
                            assert(false);
                        },
                    }
                } else {
                    assert(cur == pre);
                }
                reestablish_ai_phase_invariants(pre, cur, s0, inv, i as int);
                sts = sts.push(cur);
                assert(ai_phase_step(pre, cur, i as int, seen, game.map, inv, aev));
            }
            events.push(aev);
        } else {
            proof {
                sts = sts.push(entities@);
                assert(ai_phase_step(
                    entities@,
                    entities@,
                    i as int,
                    seen,
                    game.map,
                    inv,
                    AiEvent::Skipped,
                ));
            }
            events.push(AiEvent::Skipped);
        }
        i = i + 1;
    }
    proof {
        assert(ai_phase_chain(sts, s0, entities@, seen, game.map, inv, events@));
    }
    events
}

/// After entry `i` acted, every per-step invariant of the AI phase holds
/// again with the damage budget advanced past `i`.
proof fn reestablish_ai_phase_invariants(
    pre: Seq<Entity>,
    cur: Seq<Entity>,
    s0: Seq<Entity>,
    inv: Seq<Entity>,
    i: int,
)
    requires
        0 < i < s0.len(),
        pre.len() == s0.len(),
        cur.len() == s0.len(),
        pot_sum_from(s0, inv, i) == pot(s0[i], inv) + pot_sum_from(s0, inv, i + 1),
        pot_sum_from(s0, inv, i + 1) >= 0,
        eff_damage(pre[i]@, inv) == eff_damage(s0[i]@, inv),
        pre[0].ai is None,
        pre[0]@.fighter is Some ==> pre[0]@.fighter->0.on_death is Player,
        wf_positions(pre),
        forall|k: int| 0 <= k < s0.len() ==> eff_ok(#[trigger] pre[k], inv),
        forall|k: int|
            i <= k < s0.len() && (#[trigger] pre[k]).ai is Some ==> eff_damage(pre[k]@, inv)
                == eff_damage(s0[k]@, inv),
        forall|d: int|
            0 <= d < s0.len() && (#[trigger] pre[d])@.fighter is Some ==> pre[d]@.fighter->0.hp
                - pot_sum_from(s0, inv, i) >= i32::MIN,
        // what the turn can have done: nothing, a move of entry i, or a fight
        // against one entry j
        cur == pre || moved_only(pre, cur, i) || (exists|j: int|
            0 <= j < s0.len() && #[trigger] fought_shape(pre, cur, i, j, inv)),
    ensures
        pre[0].ai is None ==> cur[0].ai is None,
        cur[0]@.x == pre[0]@.x,
        cur[0]@.y == pre[0]@.y,
        cur[0]@.name == pre[0]@.name,
        cur[0]@.fighter is Some ==> cur[0]@.fighter->0.on_death is Player,
        forall|k: int| 0 <= k < s0.len() ==> eff_ok(#[trigger] cur[k], inv),
        forall|k: int|
            i + 1 <= k < s0.len() && (#[trigger] cur[k]).ai is Some ==> eff_damage(cur[k]@, inv)
                == eff_damage(s0[k]@, inv),
        forall|d: int|
            0 <= d < s0.len() && (#[trigger] cur[d])@.fighter is Some ==> cur[d]@.fighter->0.hp
                - pot_sum_from(s0, inv, i + 1) >= i32::MIN,
        (forall|k: int| 0 <= k < s0.len() ==> inert_ok((#[trigger] pre[k])@)) ==> (forall|k: int|
            0 <= k < s0.len() ==> inert_ok((#[trigger] cur[k])@)),
{
    if cur == pre {
        assert forall|d: int|
            0 <= d < s0.len() && (#[trigger] cur[d])@.fighter is Some implies cur[d]@.fighter->0.hp
            - pot_sum_from(s0, inv, i + 1) >= i32::MIN by {
            assert(pot(s0[i], inv) >= 0);
        }
    } else if moved_only(pre, cur, i) {
        assert(eff_damage(cur[i]@, inv) == eff_damage(pre[i]@, inv));
        assert forall|d: int|
            0 <= d < s0.len() && (#[trigger] cur[d])@.fighter is Some implies cur[d]@.fighter->0.hp
            - pot_sum_from(s0, inv, i + 1) >= i32::MIN by {
            assert(pot(s0[i], inv) >= 0);
            assert(cur[d]@.fighter == pre[d]@.fighter);
        }
    } else {
        let j = choose|j: int| 0 <= j < s0.len() && #[trigger] fought_shape(pre, cur, i, j, inv);
        assert(fought_shape(pre, cur, i, j, inv));
        if cur[j]@ == pre[j]@ {
            assert forall|d: int|
                0 <= d < s0.len() && (#[trigger] cur[d])@.fighter is Some implies cur[d]@.fighter->0.hp
                - pot_sum_from(s0, inv, i + 1) >= i32::MIN by {
                assert(cur[d]@.fighter == pre[d]@.fighter);
                assert(pot(s0[i], inv) >= 0);
            }
        } else {
            let dmg = choose|dmg: int|
                0 < dmg <= eff_damage(pre[i]@, inv) + 3 && (cur[j])@ == #[trigger] damaged(
                    pre[j]@,
                    dmg,
                );
            lemma_eff_after_damage(pre[j]@, dmg, inv);
            assert(pot(s0[i], inv) >= dmg);
            assert forall|d: int|
                0 <= d < s0.len() && (#[trigger] cur[d])@.fighter is Some implies cur[d]@.fighter->0.hp
                - pot_sum_from(s0, inv, i + 1) >= i32::MIN by {
                if d != j {
                    assert(cur[d]@.fighter == pre[d]@.fighter);
                    assert(pot(s0[i], inv) >= 0);
                }
            }
            if (forall|k: int| 0 <= k < s0.len() ==> inert_ok((#[trigger] pre[k])@)) {
                assert forall|k: int| 0 <= k < s0.len() implies inert_ok((#[trigger] cur[k])@) by {
                    if k == j {
                        crate::entity::lemma_damaged_keeps_inert(pre[j]@, dmg);
                    }
                }
            }
        }
    }
}

/// A freshly spawned kobold with the given base damage, somewhere strictly
/// inside the walls.
pub open spec fn is_kobold(v: EntityV, base: int) -> bool {
    &&& v.glyph == 'k'
    &&& v.name == "kobold"@
    &&& v.blocks
    &&& v.alive
    &&& v.fighter == Some(
        FighterV {
            max_hp: 10,
            hp: 10,
            defense: 0,
            base_damage: base,
            on_death: DeathCallback::Monster,
        },
    )
    &&& v.ai == Some(Ai::Normal)
    &&& v.item is None
    &&& v.equipment is None
    &&& 1 <= v.x < 18
    &&& 1 <= v.y < 18
}

/// Descend one level: a fresh map, the floor cut down to the player alone,
/// and a fixed set of new monsters spawned at random interior cells.
pub fn next_level(entities: &mut Vec<Entity>, game: &mut Game)
    requires
        old(entities)@.len() >= 1,
        old(game).dungeon_level < u32::MAX,
    ensures
        final(game).dungeon_level == old(game).dungeon_level + 1,
        final(game).inventory == old(game).inventory,
        final(game).map.wf(),
        exists|sx: int, sy: int| is_fresh_map(final(game).map, sx, sy),
        final(entities)@.len() == 3,
        final(entities)@[0] == old(entities)@[0],
        is_kobold(final(entities)@[1]@, 4),
        is_kobold(final(entities)@[2]@, 4),
{
    game.dungeon_level = game.dungeon_level + 1;
    game.map = make_map();
    entities.truncate(1);
    let x = rand_range(1, 18);
    let y = rand_range(1, 18);
    let mut npc = Entity::new(x, y, 'k', "kobold");
    npc.fighter = Some(
        Fighter { max_hp: 10, hp: 10, defense: 0, base_damage: 4, on_death: DeathCallback::Monster },
    );
    npc.ai = Some(Ai::Normal);
    entities.push(npc);
    let x2 = rand_range(1, 18);
    let y2 = rand_range(1, 18);
    let mut npc2 = Entity::new(x2, y2, 'k', "kobold");
    npc2.fighter = Some(
        Fighter { max_hp: 10, hp: 10, defense: 0, base_damage: 4, on_death: DeathCallback::Monster },
    );
    npc2.ai = Some(Ai::Normal);
    entities.push(npc2);
}

/// The player entity as a new game starts.
pub open spec fn is_new_player(v: EntityV) -> bool {
    &&& v.x == 1 && v.y == 1
    &&& v.glyph == '@'
    &&& v.name == "Player"@
    &&& v.blocks && v.alive
    &&& v.fighter == Some(
        FighterV { max_hp: 30, hp: 30, defense: 2, base_damage: 5, on_death: DeathCallback::Player },
    )
    &&& v.ai is None && v.item is None && v.equipment is None
}

/// The healing potion placed on a fresh floor.
pub open spec fn is_start_potion(v: EntityV) -> bool {
    &&& v.x == 2 && v.y == 5
    &&& v.glyph == '!'
    &&& v.name == "healing potion"@
    &&& v.blocks && v.alive
    &&& v.fighter is None && v.ai is None
    &&& v.item == Some(Item::Heal)
    &&& v.equipment is None
}

/// The sword placed on a fresh floor: an equippable right-hand item with a
/// damage bonus of one.
pub open spec fn is_start_sword(v: EntityV) -> bool {
    &&& v.x == 2 && v.y == 2
    &&& v.glyph == '/'
    &&& v.name == "sword"@
    &&& v.blocks && v.alive
    &&& v.fighter is None && v.ai is None
    &&& v.item == Some(Item::Equipment)
    &&& v.equipment == Some(
        EquipmentV { slot: Slot::RightHand, equipped: false, damage_bonus: 1 },
    )
}

/// Start a new game: the player, two kobolds at random interior cells, a
/// healing potion, and a sword, on a fresh map at dungeon level one with an
/// empty inventory.
pub fn new_game() -> (r: (Vec<Entity>, Game))
    ensures
        r.1.dungeon_level == 1,
        r.1.inventory@.len() == 0,
        r.1.map.wf(),
        exists|sx: int, sy: int| is_fresh_map(r.1.map, sx, sy),
        r.0@.len() == 5,
        is_new_player(r.0@[0]@),
        is_kobold(r.0@[1]@, 3),
        is_kobold(r.0@[2]@, 3),
        is_start_potion(r.0@[3]@),
        is_start_sword(r.0@[4]@),
{
    let mut player = Entity::new(1, 1, '@', "Player");
    player.fighter = Some(
        Fighter { max_hp: 30, hp: 30, defense: 2, base_damage: 5, on_death: DeathCallback::Player },
    );
    let x = rand_range(1, 18);
    let y = rand_range(1, 18);
    let mut npc = Entity::new(x, y, 'k', "kobold");
    npc.fighter = Some(
        Fighter { max_hp: 10, hp: 10, defense: 0, base_damage: 3, on_death: DeathCallback::Monster },
    );
    npc.ai = Some(Ai::Normal);
    let x2 = rand_range(1, 18);
    let y2 = rand_range(1, 18);
    let mut npc2 = Entity::new(x2, y2, 'k', "kobold");
    npc2.fighter = Some(
        Fighter { max_hp: 10, hp: 10, defense: 0, base_damage: 3, on_death: DeathCallback::Monster },
    );
    npc2.ai = Some(Ai::Normal);
    let mut object = Entity::new(2, 5, '!', "healing potion");
    object.item = Some(Item::Heal);
    let mut sword = Entity::new(2, 2, '/', "sword");
    sword.item = Some(Item::Equipment);
    sword.equipment = Some(
        Equipment { slot: Slot::RightHand, equipped: false, damage_bonus: 1 },
    );
    let mut entities: Vec<Entity> = Vec::new();
    entities.push(player);
    entities.push(npc);
    entities.push(npc2);
    entities.push(object);
    entities.push(sword);
    let game = Game { map: make_map(), inventory: Vec::new(), dungeon_level: 1 };
    (entities, game)
}

/// Only entry `i` differs between `pre` and `cur`, and only in position:
/// it stands somewhere on the grid with every other field as before.
pub open spec fn moved_only(pre: Seq<Entity>, cur: Seq<Entity>, i: int) -> bool {
    &&& forall|k: int| 0 <= k < pre.len() && k != i ==> cur[k] == pre[k]
    &&& GameMap::in_bounds(cur[i]@.x, cur[i]@.y)
    &&& (cur[i])@ == (EntityV { x: cur[i]@.x, y: cur[i]@.y, ..pre[i]@ })
}

/// Entry `j` took one attack from entry `i`: everything else is untouched
/// and `j` is either unchanged (a miss) or shaped by `damaged` under a
/// damage total bounded by `i`'s best roll.
pub open spec fn fought_shape(
    pre: Seq<Entity>,
    cur: Seq<Entity>,
    i: int,
    j: int,
    inv: Seq<Entity>,
) -> bool {
    &&& forall|k: int| 0 <= k < pre.len() && k != j ==> cur[k] == pre[k]
    &&& (cur[j]@ == pre[j]@ || exists|dmg: int|
        0 < dmg <= eff_damage(pre[i]@, inv) + 3 && (cur[j])@ == #[trigger] damaged(pre[j]@, dmg))
}

/// The structural invariants the turn engine keeps from turn to turn: the
/// player sits at entry 0 without AI or item block and dies by the player
/// policy; positions lie on the grid; the map has its fixed dimensions;
/// the inventory respects its capacity, wears at most one entry per slot,
/// and holds only well-shaped wearables; and floor entities are well-shaped
/// and never worn.
pub open spec fn wf_world(s: Seq<Entity>, g: Game) -> bool {
    &&& s.len() >= 1
    &&& s[0].ai is None
    &&& s[0].item is None
    &&& (s[0]@.fighter is Some ==> s[0]@.fighter->0.on_death is Player)
    &&& wf_positions(s)
    &&& g.map.wf()
    &&& g.inventory@.len() <= MAX_INVENTORY
    &&& slots_unique(g.inventory@)
    &&& forall|j: int| 0 <= j < g.inventory@.len() ==> wearable_ok(#[trigger] g.inventory@[j])
    &&& forall|j: int| 0 <= j < s.len() ==> wearable_ok(#[trigger] s[j])
    &&& forall|j: int| 0 <= j < s.len() ==> !is_equipped(#[trigger] s[j])
}

/// Every entity satisfies the death-transition invariant.
pub open spec fn all_inert_ok(s: Seq<Entity>) -> bool {
    forall|k: int| 0 <= k < s.len() ==> inert_ok((#[trigger] s[k])@)
}

/// The first index at or after `k` holding an item on the player's cell.
pub open spec fn item_at_from(s: Seq<Entity>, k: int) -> Option<int>
    decreases s.len() - k when 0 <= k <= s.len()
{
    if k >= s.len() {
        None
    } else if s[k].item is Some && s[k].x == s[0].x && s[k].y == s[0].y {
        Some(k)
    } else {
        item_at_from(s, k + 1)
    }
}

/// The first index holding an item on the player's cell, if any.
pub open spec fn item_at(s: Seq<Entity>) -> Option<int> {
    item_at_from(s, 0)
}

/// What a handled command reports back, for the presentation layer.
#[derive(Debug, PartialEq)]
pub enum CommandEvent {
    /// Nothing worth reporting.
    NoEvent,
    /// A movement attempt and how it went.
    MoveDone(MoveOutcome),
    /// A pick-up attempt: whether an item was underfoot, and whether it fit.
    PickUpDone { found: bool, picked: bool },
    /// An item use and what it came to.
    ItemUsed(Option<UseResult>),
    /// A stairs attempt: whether the player actually descended.
    StairsDone { descended: bool },
}

/// How an item use counts towards the turn cycle: a performed use — the
/// entry consumed, or its worn state toggled — takes the turn; a cancelled
/// or impossible use does not.
pub open spec fn action_for_use(r: Option<UseResult>) -> PlayerAction {
    match r {
        Some(UseResult::UsedUp) => PlayerAction::TookTurn,
        Some(UseResult::UsedAndKept) => PlayerAction::TookTurn,
        _ => PlayerAction::DidntTakeTurn,
    }
}

/// A found first-fighter index really holds a living fighter on the cell.
proof fn lemma_target_at_props(s: Seq<Entity>, tx: int, ty: int, k: int)
    requires
        0 <= k <= s.len(),
        target_at_from(s, tx, ty, k) is Some,
    ensures
        k <= target_at_from(s, tx, ty, k)->0 < s.len(),
        occupies_fighter(s[target_at_from(s, tx, ty, k)->0], tx, ty),
    decreases s.len() - k,
{
    if k < s.len() && !occupies_fighter(s[k], tx, ty) {
        lemma_target_at_props(s, tx, ty, k + 1);
    }
}

/// A player move keeps the world invariants and the death-transition
/// invariant.
proof fn lemma_wf_after_move(
    s0: Seq<Entity>,
    s1: Seq<Entity>,
    dx: int,
    dy: int,
    g: Game,
    mo: MoveOutcome,
)
    requires
        wf_world(s0, g),
        !(dx == 0 && dy == 0),
        move_by_post(s0, s1, 0, dx, dy, g.map, g.inventory@, mo),
    ensures
        wf_world(s1, g),
        all_inert_ok(s0) ==> all_inert_ok(s1),
{
    let tx = s0[0]@.x + dx;
    let ty = s0[0]@.y + dy;
    if GameMap::in_bounds(tx, ty) && !g.map.tile_at(tx, ty).blocked {
        match target_at(s0, tx, ty) {
            None => {
                assert(wf_positions(s1)) by {
                    assert(forall|k: int|
                        0 <= k < s1.len() && k != 0 ==> s1[k] == s0[k] && pos_ok(
                            (#[trigger] s1[k])@,
                        ));
                    assert(pos_ok(s1[0]@));
                }
            },
            Some(j) => {
                lemma_target_at_props(s0, tx, ty, 0);
                assert(occupies_fighter(s0[j], tx, ty));
                assert(j != 0);
                match mo {
                    MoveOutcome::Fought(ev) => {
                        if ev.hit {
                            assert(s1[j]@ == damaged(s0[j]@, ev.damage as int));
                            if all_inert_ok(s0) {
                                assert forall|k: int|
                                    0 <= k < s1.len() implies inert_ok((#[trigger] s1[k])@) by {
                                    if k == j {
                                        crate::entity::lemma_damaged_keeps_inert(
                                            s0[j]@,
                                            ev.damage as int,
                                        );
                                    }
                                }
                            }
                        }
                    },
                    _ => {
                        assert(false);
                    },
                }
            },
        }
    }
}

/// Handle one decoded player command against the world: movement (and the
/// combat it may turn into), pick-up, the stairs, or quitting. Reports how
/// the command counted towards the turn cycle and what happened. A
/// movement command counts as a taken turn even when the step turns out
/// blocked; a performed item use takes the turn while a cancelled one does
/// not; descending the stairs never does.
pub fn handle_command(cmd: Command, entities: &mut Vec<Entity>, game: &mut Game) -> (r: (
    PlayerAction,
    CommandEvent,
))
    requires
        wf_world(old(entities)@, *old(game)),
        cmd matches Command::Move(dx, dy) ==> -1 <= dx <= 1 && -1 <= dy <= 1 && !(dx == 0 && dy
            == 0),
        cmd is Move ==> forall|j: int|
            0 <= j < old(entities)@.len() ==> atk_fits(
                eff_damage(old(entities)@[0]@, old(game).inventory@),
                (#[trigger] old(entities)@[j])@.fighter,
            ),
        cmd is Stairs ==> old(game).dungeon_level < u32::MAX,
        cmd matches Command::UseItem(ix) ==> ix < old(game).inventory@.len(),
    ensures
        wf_world(final(entities)@, *final(game)),
        all_inert_ok(old(entities)@) ==> all_inert_ok(final(entities)@),
        cmd == Command::Quit ==> r.0 == PlayerAction::Exit && r.1 == CommandEvent::NoEvent
            && final(entities)@ == old(entities)@ && *final(game) == *old(game),
        cmd matches Command::Move(dx, dy) ==> r.0 == PlayerAction::TookTurn && (
        r.1 matches CommandEvent::MoveDone(mo) && move_by_post(
            old(entities)@,
            final(entities)@,
            0,
            dx as int,
            dy as int,
            old(game).map,
            old(game).inventory@,
            mo,
        )) && *final(game) == *old(game),
        cmd == Command::Stairs && old(game).map.tile_at(
            old(entities)@[0]@.x,
            old(entities)@[0]@.y,
        ).stairs ==> {
            &&& r.0 == PlayerAction::DidntTakeTurn
            &&& r.1 == (CommandEvent::StairsDone { descended: true })
            &&& final(game).dungeon_level == old(game).dungeon_level + 1
            &&& final(game).inventory == old(game).inventory
            &&& (exists|sx: int, sy: int| is_fresh_map(final(game).map, sx, sy))
            &&& final(entities)@.len() == 3
            &&& final(entities)@[0] == old(entities)@[0]
            &&& is_kobold(final(entities)@[1]@, 4)
            &&& is_kobold(final(entities)@[2]@, 4)
        },
        cmd == Command::Stairs && !old(game).map.tile_at(
            old(entities)@[0]@.x,
            old(entities)@[0]@.y,
        ).stairs ==> r.0 == PlayerAction::DidntTakeTurn && r.1 == (CommandEvent::StairsDone {
            descended: false,
        }) && final(entities)@ == old(entities)@ && *final(game) == *old(game),
        cmd == Command::PickUp ==> match item_at(old(entities)@) {
            Some(oid) => {
                &&& r.0 == PlayerAction::TookTurn
                &&& r.1 == (CommandEvent::PickUpDone {
                    found: true,
                    picked: old(game).inventory@.len() < MAX_INVENTORY,
                })
                &&& (old(game).inventory@.len() < MAX_INVENTORY ==> final(game).inventory@ == old(
                    game,
                ).inventory@.push(old(entities)@[oid]) && final(entities)@ == old(
                    entities,
                )@.update(oid, old(entities)@.last()).drop_last())
                &&& (old(game).inventory@.len() >= MAX_INVENTORY ==> final(entities)@ == old(
                    entities,
                )@ && final(game).inventory@ == old(game).inventory@)
                &&& final(game).dungeon_level == old(game).dungeon_level
                &&& final(game).map == old(game).map
            },
            None => r.0 == PlayerAction::DidntTakeTurn && r.1 == (CommandEvent::PickUpDone {
                found: false,
                picked: false,
            }) && final(entities)@ == old(entities)@ && *final(game) == *old(game),
        },
        cmd matches Command::UseItem(ix) ==> {
            &&& final(game).map == old(game).map
            &&& final(game).dungeon_level == old(game).dungeon_level
            &&& (r.1 matches CommandEvent::ItemUsed(res) && use_item_post(
                ix as int,
                old(game).inventory@,
                final(game).inventory@,
                old(entities)@,
                final(entities)@,
                res,
            ) && r.0 == action_for_use(res))
        },
        cmd == Command::Inventory || cmd == Command::Other ==> r.0 == PlayerAction::DidntTakeTurn
            && r.1 == CommandEvent::NoEvent && final(entities)@ == old(entities)@ && *final(game)
            == *old(game),
{
    match cmd {
        Command::Quit => (PlayerAction::Exit, CommandEvent::NoEvent),
        Command::Move(dx, dy) => {
            let mo = move_by(0, dx, dy, entities, &*game);
            proof {
                lemma_wf_after_move(
                    old(entities)@,
                    entities@,
                    dx as int,
                    dy as int,
                    *game,
                    mo,
                );
            }
            (PlayerAction::TookTurn, CommandEvent::MoveDone(mo))
        },
        Command::Stairs => {
            let (px, py) = entities[0].pos();
            if game.map.get(px, py).stairs {
                next_level(entities, game);
                proof {
                    assert(wf_positions(entities@)) by {
                        assert(pos_ok(entities@[0]@));
                        assert(pos_ok(entities@[1]@));
                        assert(pos_ok(entities@[2]@));
                    }
                }
                (PlayerAction::DidntTakeTurn, CommandEvent::StairsDone { descended: true })
            } else {
                (PlayerAction::DidntTakeTurn, CommandEvent::StairsDone { descended: false })
            }
        },
        Command::PickUp => {
            let ghost s0 = entities@;
            let (px, py) = entities[0].pos();
            let mut k: usize = 0;
            let mut found = false;
            while k < entities.len() && !found
                invariant
                    k <= s0.len(),
                    entities@ == s0,
                    s0.len() >= 1,
                    px == s0[0].x,
                    py == s0[0].y,
                    !found ==> item_at(s0) == item_at_from(s0, k as int),
                    found ==> k < s0.len() && item_at(s0) == Some(k as int) && s0[k as int].item
                        is Some,
                decreases s0.len() - k, (if found { 0int } else { 1int }),
            {
                let e = &entities[k];
                if e.item.is_some() && e.x == px && e.y == py {
                    found = true;
                } else {
                    k = k + 1;
                }
            }
            if found {
                proof {
                    assert(k != 0);
                }
                let picked = pick_item_up(k, entities, &mut game.inventory);
                proof {
                    if picked {
                        let s1 = entities@;
                        assert forall|j: int|
                            0 <= j < s1.len() implies pos_ok((#[trigger] s1[j])@) && wearable_ok(
                            s1[j],
                        ) && !is_equipped(s1[j]) && (all_inert_ok(s0) ==> inert_ok(s1[j]@)) by {
                            if j == k {
                                assert(s1[j] == s0[s0.len() - 1]);
                            } else {
                                assert(s1[j] == s0[j]);
                            }
                        }
                        let inv1 = game.inventory@;
                        assert(slots_unique(inv1)) by {
                            assert(!is_equipped(s0[k as int]));
                            assert(forall|a: int|
                                0 <= a < inv1.len() - 1 ==> inv1[a] == old(game).inventory@[a]);
                        }
                    }
                }
                (PlayerAction::TookTurn, CommandEvent::PickUpDone { found: true, picked })
            } else {
                (
                    PlayerAction::DidntTakeTurn,
                    CommandEvent::PickUpDone { found: false, picked: false },
                )
            }
        },
        Command::UseItem(ix) => {
            let res = use_item(ix, &mut game.inventory, entities);
            let action = match res {
                Some(UseResult::UsedUp) => PlayerAction::TookTurn,
                Some(UseResult::UsedAndKept) => PlayerAction::TookTurn,
                _ => PlayerAction::DidntTakeTurn,
            };
            proof {
                let es0 = old(entities)@;
                let es1 = entities@;
                let inv0 = old(game).inventory@;
                if inv0[ix as int].item == Some(Item::Heal) && es0[0].fighter is Some
                    && es0[0].fighter->0.hp != es0[0].fighter->0.max_hp {
                    // the performed heal: entry 0 healed, all else untouched
                    assert(es1.len() == es0.len());
                    assert(es1[0]@ == healed(es0[0]@, 4));
                    let v0 = es0[0]@;
                    let v1 = es1[0]@;
                    assert(v1.x == v0.x && v1.y == v0.y && v1.glyph == v0.glyph && v1.alive
                        == v0.alive && v1.ai == v0.ai && v1.item == v0.item && v1.equipment
                        == v0.equipment);
                    assert(v1.fighter is Some && v0.fighter is Some && v1.fighter->0.on_death
                        == v0.fighter->0.on_death);
                    assert forall|j: int|
                        0 <= j < es1.len() implies pos_ok((#[trigger] es1[j])@) && wearable_ok(
                        es1[j],
                    ) && !is_equipped(es1[j]) && (all_inert_ok(es0) ==> inert_ok(es1[j]@)) by {
                        if j != 0 {
                            assert(es1[j] == es0[j]);
                        }
                    }
                } else {
                    // every other case — no item, cancelled heal, equipment
                    // toggle — leaves the floor untouched
                    match inv0[ix as int].item {
                        None => {
                            assert(res is None);
                            assert(es1 == es0);
                        },
                        Some(Item::Heal) => {
                            assert(es1 == es0);
                        },
                        Some(Item::Equipment) => {
                            assert(es1 == es0);
                        },
                    }
                    assert(es1 == es0);
                    assert forall|j: int|
                        0 <= j < es1.len() implies pos_ok((#[trigger] es1[j])@) && wearable_ok(
                        es1[j],
                    ) && !is_equipped(es1[j]) && (all_inert_ok(es0) ==> inert_ok(es1[j]@)) by {
                        assert(es1[j] == es0[j]);
                    }
                }
            }
            (action, CommandEvent::ItemUsed(res))
        },
        Command::Inventory => (PlayerAction::DidntTakeTurn, CommandEvent::NoEvent),
        Command::Other => (PlayerAction::DidntTakeTurn, CommandEvent::NoEvent),
    }
}

/// Whether the AI phase is due after a handled player command: monsters
/// move only when the player still lives and the command counted as a
/// taken turn.
pub fn ai_phase_due(action: PlayerAction, entities: &Vec<Entity>) -> (due: bool)
    requires
        entities@.len() >= 1,
    ensures
        due == (entities@[0].alive && action == PlayerAction::TookTurn),
{
    entities[0].alive && action == PlayerAction::TookTurn
}

/// The machine-arithmetic room the AI phase needs: every entity's damage
/// figure fits, and no fighter's hit points can underflow however the
/// phase's attacks land.
pub open spec fn ai_room(s: Seq<Entity>, inv: Seq<Entity>) -> bool {
    &&& forall|k: int| 0 <= k < s.len() ==> eff_ok(#[trigger] s[k], inv)
    &&& forall|d: int|
        0 <= d < s.len() && (#[trigger] s[d])@.fighter is Some ==> s[d]@.fighter->0.hp
            - pot_sum_from(s, inv, 0) >= i32::MIN
}

/// The room a player move needs: the player's damage figure fits whatever
/// the roll, and no defender's hit points can underflow from one hit.
pub open spec fn player_attack_room(s: Seq<Entity>, inv: Seq<Entity>) -> bool {
    forall|j: int|
        0 <= j < s.len() ==> atk_fits(eff_damage(s[0]@, inv), (#[trigger] s[j])@.fighter)
}

/// With the inventory capacity respected, a worst-case damage total over a
/// suffix of the floor is bounded by its length times one attack's worst.
proof fn lemma_pot_sum_bound(s: Seq<Entity>, inv: Seq<Entity>, k: int)
    requires
        inv.len() <= MAX_INVENTORY,
        0 <= k <= s.len(),
    ensures
        0 <= pot_sum_from(s, inv, k) <= (s.len() - k) * 0x41_0000_0000,
    decreases s.len() - k,
{
    if k < s.len() {
        lemma_pot_sum_bound(s, inv, k + 1);
        crate::inventory::lemma_eff_bound(s[k]@, inv);
    }
}

/// Decide `player_attack_room` at run time, so that an unverified caller
/// can test it before handing a move command to the engine.
pub fn check_player_attack_room(entities: &Vec<Entity>, game: &Game) -> (b: bool)
    requires
        entities@.len() >= 1,
        game.inventory@.len() <= MAX_INVENTORY,
    ensures
        b == player_attack_room(entities@, game.inventory@),
{
    let eff = entities[0].eff_i64(game);
    proof {
        crate::inventory::lemma_eff_bound(entities@[0]@, game.inventory@);
    }
    if !(i32::MIN as i64 <= eff - 2 && eff + 3 <= i32::MAX as i64) {
        proof {
            assert(!atk_fits(eff_damage(entities@[0]@, game.inventory@), entities@[0]@.fighter));
        }
        return false;
    }
    let mut j: usize = 0;
    while j < entities.len()
        invariant
            j <= entities@.len(),
            entities@.len() >= 1,
            game.inventory@.len() <= MAX_INVENTORY,
            eff == eff_damage(entities@[0]@, game.inventory@),
            i32::MIN <= eff - 2,
            eff + 3 <= i32::MAX,
            forall|p: int|
                0 <= p < j ==> atk_fits(
                    eff_damage(entities@[0]@, game.inventory@),
                    (#[trigger] entities@[p])@.fighter,
                ),
        decreases entities@.len() - j,
    {
        if let Some(f) = entities[j].fighter {
            if eff + 3 > 0 && (f.hp as i64) - (eff + 3) < i32::MIN as i64 {
                return false;
            }
        }
        j = j + 1;
    }
    true
}

/// Decide `ai_room` at run time, so that an unverified caller can test it
/// before running the AI phase.
pub fn check_ai_room(entities: &Vec<Entity>, game: &Game) -> (b: bool)
    requires
        game.inventory@.len() <= MAX_INVENTORY,
    ensures
        b == ai_room(entities@, game.inventory@),
{
    let n = entities.len();
    let mut i: usize = 0;
    while i < n
        invariant
            n == entities@.len(),
            i <= n,
            game.inventory@.len() <= MAX_INVENTORY,
            forall|k: int| 0 <= k < i ==> eff_ok(#[trigger] entities@[k], game.inventory@),
        decreases n - i,
    {
        let eff = entities[i].eff_i64(game);
        proof {
            crate::inventory::lemma_eff_bound(entities@[i as int]@, game.inventory@);
        }
        if !(i32::MIN as i64 <= eff - 2 && eff + 3 <= i32::MAX as i64) {
            proof {
                assert(!eff_ok(entities@[i as int], game.inventory@));
            }
            return false;
        }
        i = i + 1;
    }
    let mut acc: i128 = 0;
    let mut k = n;
    while k > 0
        invariant
            n == entities@.len(),
            k <= n,
            game.inventory@.len() <= MAX_INVENTORY,
            acc == pot_sum_from(entities@, game.inventory@, k as int),
        decreases k,
    {
        k = k - 1;
        let eff = entities[k].eff_i64(game);
        proof {
            crate::inventory::lemma_eff_bound(entities@[k as int]@, game.inventory@);
            lemma_pot_sum_bound(entities@, game.inventory@, k as int + 1);
            assert((n - k - 1) * 0x41_0000_0000 <= 0xFFFF_FFFF_FFFF_FFFF * 0x41_0000_0000)
                by (nonlinear_arith)
                requires
                    0 <= n - k - 1 <= 0xFFFF_FFFF_FFFF_FFFF,
            ;
        }
        let p: i64 = if eff + 3 > 0 {
            eff + 3
        } else {
            0
        };
        acc = acc + p as i128;
    }
    proof {
        lemma_pot_sum_bound(entities@, game.inventory@, 0);
        assert((n as int) * 0x41_0000_0000 <= 0xFFFF_FFFF_FFFF_FFFF * 0x41_0000_0000)
            by (nonlinear_arith)
            requires
                0 <= n as int <= 0xFFFF_FFFF_FFFF_FFFF,
        ;
    }
    let mut d: usize = 0;
    while d < n
        invariant
            n == entities@.len(),
            d <= n,
            acc == pot_sum_from(entities@, game.inventory@, 0),
            0 <= acc <= 0xFFFF_FFFF_FFFF_FFFF * 0x41_0000_0000,
            forall|k: int| 0 <= k < n ==> eff_ok(#[trigger] entities@[k], game.inventory@),
            forall|p: int|
                0 <= p < d && (#[trigger] entities@[p])@.fighter is Some ==> entities@[p]@.fighter->0.hp
                    - pot_sum_from(entities@, game.inventory@, 0) >= i32::MIN,
        decreases n - d,
    {
        if let Some(f) = entities[d].fighter {
            if (f.hp as i128) - acc < i32::MIN as i128 {
                return false;
            }
        }
        d = d + 1;
    }
    true
}

/// Decide `wf_world` at run time, so that an unverified caller can test the
/// engine's structural invariants before driving a turn.
pub fn check_world(entities: &Vec<Entity>, game: &Game) -> (b: bool)
    ensures
        b == wf_world(entities@, *game),
{
    if entities.len() < 1 {
        return false;
    }
    if entities[0].ai.is_some() {
        return false;
    }
    if entities[0].item.is_some() {
        return false;
    }
    if let Some(f) = entities[0].fighter {
        match f.on_death {
            DeathCallback::Player => {},
            DeathCallback::Monster => {
                return false;
            },
        }
    }
    let mut i: usize = 0;
    while i < entities.len()
        invariant
            i <= entities@.len(),
            forall|k: int|
                0 <= k < i ==> pos_ok((#[trigger] entities@[k])@) && wearable_ok(entities@[k])
                    && !is_equipped(entities@[k]),
        decreases entities@.len() - i,
    {
        let e = &entities[i];
        if e.x < 0 || e.x >= MAP_WIDTH || e.y < 0 || e.y >= MAP_HEIGHT {
            return false;
        }
        if e.equipment.is_some() {
            if e.item.is_none() {
                return false;
            }
            if let Some(q) = e.equipment {
                if q.equipped {
                    return false;
                }
            }
        }
        i = i + 1;
    }
    if game.map.tiles.len() != MAP_WIDTH as usize {
        return false;
    }
    let mut c: usize = 0;
    while c < game.map.tiles.len()
        invariant
            game.map.tiles@.len() == MAP_WIDTH,
            c <= MAP_WIDTH,
            forall|x: int| 0 <= x < c ==> (#[trigger] game.map.tiles@[x])@.len() == MAP_HEIGHT,
        decreases game.map.tiles@.len() - c,
    {
        if game.map.tiles[c].len() != MAP_HEIGHT as usize {
            return false;
        }
        c = c + 1;
    }
    if game.inventory.len() > MAX_INVENTORY {
        return false;
    }
    let mut a: usize = 0;
    while a < game.inventory.len()
        invariant
            a <= game.inventory@.len(),
            forall|p: int| 0 <= p < a ==> wearable_ok(#[trigger] game.inventory@[p]),
            forall|p: int, q: int|
                0 <= p < q < game.inventory@.len() && p < a && is_equipped(
                    #[trigger] game.inventory@[p],
                ) && is_equipped(#[trigger] game.inventory@[q]) ==> crate::inventory::slot_of(
                    game.inventory@[p],
                ) != crate::inventory::slot_of(game.inventory@[q]),
        decreases game.inventory@.len() - a,
    {
        let ea = &game.inventory[a];
        if ea.equipment.is_some() && ea.item.is_none() {
            return false;
        }
        if let Some(qa) = ea.equipment {
            if qa.equipped {
                let mut b2: usize = a + 1;
                while b2 < game.inventory.len()
                    invariant
                        a < b2 <= game.inventory@.len(),
                        is_equipped(game.inventory@[a as int]),
                        qa == game.inventory@[a as int].equipment->0,
                        forall|q: int|
                            a < q < b2 && is_equipped(#[trigger] game.inventory@[q])
                                ==> crate::inventory::slot_of(game.inventory@[a as int])
                                != crate::inventory::slot_of(game.inventory@[q]),
                    decreases game.inventory@.len() - b2,
                {
                    if let Some(qb) = game.inventory[b2].equipment {
                        if qb.equipped && qb.slot == qa.slot {
                            return false;
                        }
                    }
                    b2 = b2 + 1;
                }
            }
        }
        a = a + 1;
    }
    true
}

} // verus!
