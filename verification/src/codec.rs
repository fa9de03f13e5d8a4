use vstd::prelude::*;

use crate::entity::{
    Ai, DeathCallback, Entity, EntityV, Equipment, EquipmentV, Fighter, FighterV, Item, Slot,
};
use crate::inventory::Game;
use crate::tile::{GameMap, Tile, MAP_HEIGHT, MAP_WIDTH};

verus! {

// ---------------------------------------------------------------------------
// The saved-game byte format, one component at a time. For every component
// there are a spec encoder (`enc_*`), a spec parser (`parse_*`), a lemma
// that parsing what was encoded yields the value back, and executable
// counterparts proved against the spec functions. The parsers take the
// whole byte sequence and a position, and return the parsed value with the
// position just past it.
// ---------------------------------------------------------------------------
/// A 32-bit number as four bytes, least significant first.
pub open spec fn enc_u32(v: u32) -> Seq<u8> {
    seq![
        (v & 0xFF) as u8,
        ((v >> 8) & 0xFF) as u8,
        ((v >> 16) & 0xFF) as u8,
        ((v >> 24) & 0xFF) as u8,
    ]
}

/// The number four bytes spell, least significant first.
pub open spec fn u32_of(b0: u8, b1: u8, b2: u8, b3: u8) -> u32 {
    (b0 as u32) | ((b1 as u32) << 8) | ((b2 as u32) << 16) | ((b3 as u32) << 24)
}

pub open spec fn parse_u32(s: Seq<u8>, p: int) -> Option<(u32, int)> {
    if 0 <= p && p + 4 <= s.len() {
        Some((u32_of(s[p], s[p + 1], s[p + 2], s[p + 3]), p + 4))
    } else {
        None
    }
}

/// Reassembling the four bytes of a number gives the number back.
pub proof fn lemma_u32_round(v: u32)
    ensures
        u32_of(
            (v & 0xFF) as u8,
            ((v >> 8) & 0xFF) as u8,
            ((v >> 16) & 0xFF) as u8,
            ((v >> 24) & 0xFF) as u8,
        ) == v,
{
    assert(((v & 0xFF) as u8 as u32) | (((v >> 8) & 0xFF) as u8 as u32) << 8 | (((v >> 16)
        & 0xFF) as u8 as u32) << 16 | (((v >> 24) & 0xFF) as u8 as u32) << 24 == v)
        by (bit_vector);
}

pub proof fn lemma_parse_enc_u32(v: u32, s: Seq<u8>, p: int)
    requires
        0 <= p,
        p + 4 <= s.len(),
        s.subrange(p, p + 4) == enc_u32(v),
    ensures
        parse_u32(s, p) == Some((v, p + 4)),
{
    assert(s[p] == enc_u32(v)[0]);
    assert(s[p + 1] == enc_u32(v)[1]);
    assert(s[p + 2] == enc_u32(v)[2]);
    assert(s[p + 3] == enc_u32(v)[3]);
    lemma_u32_round(v);
}

/// A signed number as a sign byte and a four-byte magnitude.
pub open spec fn enc_i32(v: int) -> Seq<u8>
    recommends
        i32::MIN <= v <= i32::MAX,
{
    if v >= 0 {
        seq![0u8] + enc_u32(v as u32)
    } else {
        seq![1u8] + enc_u32((-v) as u32)
    }
}

pub open spec fn parse_i32(s: Seq<u8>, p: int) -> Option<(int, int)> {
    if 0 <= p && p + 1 <= s.len() {
        let tag = s[p];
        match parse_u32(s, p + 1) {
            Some((m, p2)) => if tag == 0 && m <= 0x7FFF_FFFF {
                Some((m as int, p2))
            } else if tag == 1 && 1 <= m <= 0x8000_0000 {
                Some((-(m as int), p2))
            } else {
                None
            },
            None => None,
        }
    } else {
        None
    }
}

pub proof fn lemma_parse_enc_i32(v: int, s: Seq<u8>, p: int)
    requires
        i32::MIN <= v <= i32::MAX,
        0 <= p,
        p + 5 <= s.len(),
        s.subrange(p, p + 5) == enc_i32(v),
    ensures
        parse_i32(s, p) == Some((v, p + 5)),
{
    let m: u32 = if v >= 0 {
        v as u32
    } else {
        (-v) as u32
    };
    assert(s[p] == enc_i32(v)[0]);
    assert forall|k: int| 0 <= k < 4 implies s[p + 1 + k] == enc_u32(m)[k] by {
        assert(s.subrange(p, p + 5)[k + 1] == enc_i32(v)[k + 1]);
    }
    assert(s.subrange(p + 1, p + 5) =~= enc_u32(m));
    lemma_parse_enc_u32(m, s, p + 1);
}

/// A flag as one byte.
pub open spec fn enc_bool(b: bool) -> Seq<u8> {
    seq![
        if b {
            1u8
        } else {
            0u8
        },
    ]
}

pub open spec fn parse_bool(s: Seq<u8>, p: int) -> Option<(bool, int)> {
    if 0 <= p && p + 1 <= s.len() {
        if s[p] == 0 {
            Some((false, p + 1))
        } else if s[p] == 1 {
            Some((true, p + 1))
        } else {
            None
        }
    } else {
        None
    }
}

pub proof fn lemma_parse_enc_bool(b: bool, s: Seq<u8>, p: int)
    requires
        0 <= p,
        p + 1 <= s.len(),
        s.subrange(p, p + 1) == enc_bool(b),
    ensures
        parse_bool(s, p) == Some((b, p + 1)),
{
    assert(s[p] == enc_bool(b)[0]);
}

/// A unicode scalar value: what a character may be.
pub open spec fn valid_scalar(m: u32) -> bool {
    m < 0xD800 || (0xE000 <= m <= 0x10FFFF)
}

/// A character as its code point.
pub open spec fn enc_char(c: char) -> Seq<u8> {
    enc_u32(c as u32)
}

pub open spec fn parse_char(s: Seq<u8>, p: int) -> Option<(char, int)> {
    match parse_u32(s, p) {
        Some((m, p2)) => if valid_scalar(m) {
            Some((m as char, p2))
        } else {
            None
        },
        None => None,
    }
}

pub proof fn lemma_parse_enc_char(c: char, s: Seq<u8>, p: int)
    requires
        0 <= p,
        p + 4 <= s.len(),
        s.subrange(p, p + 4) == enc_char(c),
    ensures
        parse_char(s, p) == Some((c, p + 4)),
{
    lemma_parse_enc_u32(c as u32, s, p);
    vstd::utf8::char_is_scalar(c);
    assert(valid_scalar(c as u32));
    vstd::utf8::char_u32_cast(c, c as u32);
}

/// A death policy as one byte.
pub open spec fn enc_death(d: DeathCallback) -> Seq<u8> {
    match d {
        DeathCallback::Player => seq![0u8],
        DeathCallback::Monster => seq![1u8],
    }
}

pub open spec fn parse_death(s: Seq<u8>, p: int) -> Option<(DeathCallback, int)> {
    if 0 <= p && p + 1 <= s.len() {
        if s[p] == 0 {
            Some((DeathCallback::Player, p + 1))
        } else if s[p] == 1 {
            Some((DeathCallback::Monster, p + 1))
        } else {
            None
        }
    } else {
        None
    }
}

pub proof fn lemma_parse_enc_death(d: DeathCallback, s: Seq<u8>, p: int)
    requires
        0 <= p,
        p + 1 <= s.len(),
        s.subrange(p, p + 1) == enc_death(d),
    ensures
        parse_death(s, p) == Some((d, p + 1)),
{
    assert(s[p] == enc_death(d)[0]);
}

/// An AI tag as one byte.
pub open spec fn enc_ai(a: Ai) -> Seq<u8> {
    match a {
        Ai::Normal => seq![0u8],
    }
}

pub open spec fn parse_ai(s: Seq<u8>, p: int) -> Option<(Ai, int)> {
    if 0 <= p && p + 1 <= s.len() {
        if s[p] == 0 {
            Some((Ai::Normal, p + 1))
        } else {
            None
        }
    } else {
        None
    }
}

pub proof fn lemma_parse_enc_ai(a: Ai, s: Seq<u8>, p: int)
    requires
        0 <= p,
        p + 1 <= s.len(),
        s.subrange(p, p + 1) == enc_ai(a),
    ensures
        parse_ai(s, p) == Some((a, p + 1)),
{
    assert(s[p] == enc_ai(a)[0]);
}

/// An item kind as one byte.
pub open spec fn enc_item(i: Item) -> Seq<u8> {
    match i {
        Item::Heal => seq![0u8],
        Item::Equipment => seq![1u8],
    }
}

pub open spec fn parse_item(s: Seq<u8>, p: int) -> Option<(Item, int)> {
    if 0 <= p && p + 1 <= s.len() {
        if s[p] == 0 {
            Some((Item::Heal, p + 1))
        } else if s[p] == 1 {
            Some((Item::Equipment, p + 1))
        } else {
            None
        }
    } else {
        None
    }
}

pub proof fn lemma_parse_enc_item(i: Item, s: Seq<u8>, p: int)
    requires
        0 <= p,
        p + 1 <= s.len(),
        s.subrange(p, p + 1) == enc_item(i),
    ensures
        parse_item(s, p) == Some((i, p + 1)),
{
    assert(s[p] == enc_item(i)[0]);
}

/// An equipment slot as one byte.
pub open spec fn enc_slot(sl: Slot) -> Seq<u8> {
    match sl {
        Slot::LeftHand => seq![0u8],
        Slot::RightHand => seq![1u8],
        Slot::Head => seq![2u8],
    }
}

pub open spec fn parse_slot(s: Seq<u8>, p: int) -> Option<(Slot, int)> {
    if 0 <= p && p + 1 <= s.len() {
        if s[p] == 0 {
            Some((Slot::LeftHand, p + 1))
        } else if s[p] == 1 {
            Some((Slot::RightHand, p + 1))
        } else if s[p] == 2 {
            Some((Slot::Head, p + 1))
        } else {
            None
        }
    } else {
        None
    }
}

pub proof fn lemma_parse_enc_slot(sl: Slot, s: Seq<u8>, p: int)
    requires
        0 <= p,
        p + 1 <= s.len(),
        s.subrange(p, p + 1) == enc_slot(sl),
    ensures
        parse_slot(s, p) == Some((sl, p + 1)),
{
    assert(s[p] == enc_slot(sl)[0]);
}

// ---------------------------------------------------------------------------
// Executable primitives.
// ---------------------------------------------------------------------------
/// Append the four bytes of `v`.
pub fn put_u32(out: &mut Vec<u8>, v: u32)
    ensures
        final(out)@ == old(out)@ + enc_u32(v),
{
    proof {
        assert(v & 0xFF < 256 && (v >> 8) & 0xFF < 256 && (v >> 16) & 0xFF < 256 && (v >> 24)
            & 0xFF < 256) by (bit_vector);
    }
    out.push((v & 0xFF) as u8);
    out.push(((v >> 8) & 0xFF) as u8);
    out.push(((v >> 16) & 0xFF) as u8);
    out.push(((v >> 24) & 0xFF) as u8);
    proof {
        assert(final(out)@ =~= old(out)@ + enc_u32(v));
    }
}

/// Read four bytes as a number.
pub fn get_u32(bytes: &Vec<u8>, pos: usize) -> (r: Option<(u32, usize)>)
    ensures
        parse_u32(bytes@, pos as int) is None ==> r is None,
        parse_u32(bytes@, pos as int) matches Some((v, p2)) ==> (r matches Some((rv, rp)) && rv
            == v && rp == p2),
{
    if pos >= bytes.len() || bytes.len() - pos < 4 {
        return None;
    }
    let b0 = bytes[pos];
    let b1 = bytes[pos + 1];
    let b2 = bytes[pos + 2];
    let b3 = bytes[pos + 3];
    let v = (b0 as u32) | ((b1 as u32) << 8) | ((b2 as u32) << 16) | ((b3 as u32) << 24);
    Some((v, pos + 4))
}

/// Append a sign byte and the four magnitude bytes of `v`.
pub fn put_i32(out: &mut Vec<u8>, v: i32)
    ensures
        final(out)@ == old(out)@ + enc_i32(v as int),
{
    if v >= 0 {
        out.push(0u8);
        put_u32(out, v as u32);
    } else {
        out.push(1u8);
        put_u32(out, (-(v as i64)) as u32);
    }
    proof {
        assert(final(out)@ =~= old(out)@ + enc_i32(v as int));
    }
}

/// Read a signed number.
pub fn get_i32(bytes: &Vec<u8>, pos: usize) -> (r: Option<(i32, usize)>)
    ensures
        parse_i32(bytes@, pos as int) is None ==> r is None,
        parse_i32(bytes@, pos as int) matches Some((v, p2)) ==> (r matches Some((rv, rp))
            && rv as int == v && rp == p2),
{
    if pos >= bytes.len() {
        return None;
    }
    let tag = bytes[pos];
    match get_u32(bytes, pos + 1) {
        Some((m, p2)) => {
            if tag == 0 && m <= 0x7FFF_FFFF {
                Some((m as i32, p2))
            } else if tag == 1 && 1 <= m && m <= 0x8000_0000 {
                Some(((-(m as i64)) as i32, p2))
            } else {
                None
            }
        },
        None => None,
    }
}

/// Append the flag byte of `b`.
pub fn put_bool(out: &mut Vec<u8>, b: bool)
    ensures
        final(out)@ == old(out)@ + enc_bool(b),
{
    out.push(
        if b {
            1u8
        } else {
            0u8
        },
    );
    proof {
        assert(final(out)@ =~= old(out)@ + enc_bool(b));
    }
}

/// Read a flag byte.
pub fn get_bool(bytes: &Vec<u8>, pos: usize) -> (r: Option<(bool, usize)>)
    ensures
        parse_bool(bytes@, pos as int) is None ==> r is None,
        parse_bool(bytes@, pos as int) matches Some((v, p2)) ==> (r matches Some((rv, rp)) && rv
            == v && rp == p2),
{
    if pos >= bytes.len() {
        return None;
    }
    let b = bytes[pos];
    if b == 0 {
        Some((false, pos + 1))
    } else if b == 1 {
        Some((true, pos + 1))
    } else {
        None
    }
}

/// Relies on `char::from_u32`: it returns the character with the given
/// code point for every unicode scalar value, and nothing for surrogates
/// and out-of-range numbers.
#[verifier::external_body]
fn char_from_u32(m: u32) -> (r: Option<char>)
    ensures
        valid_scalar(m) ==> r == Some(m as char),
        !valid_scalar(m) ==> r is None,
{
    char::from_u32(m)
}

/// Append the code point of `c`.
pub fn put_char(out: &mut Vec<u8>, c: char)
    ensures
        final(out)@ == old(out)@ + enc_char(c),
{
    put_u32(out, c as u32);
}

/// Read a character.
pub fn get_char(bytes: &Vec<u8>, pos: usize) -> (r: Option<(char, usize)>)
    ensures
        parse_char(bytes@, pos as int) is None ==> r is None,
        parse_char(bytes@, pos as int) matches Some((v, p2)) ==> (r matches Some((rv, rp)) && rv
            == v && rp == p2),
{
    match get_u32(bytes, pos) {
        Some((m, p2)) => match char_from_u32(m) {
            Some(c) => Some((c, p2)),
            None => None,
        },
        None => None,
    }
}

/// From bytes holding `a + b` at `p`, the two parts stand at `p` and at
/// `p + a.len()`.
proof fn lemma_split(s: Seq<u8>, p: int, a: Seq<u8>, b: Seq<u8>)
    requires
        0 <= p,
        p + a.len() + b.len() <= s.len(),
        s.subrange(p, p + a.len() + b.len()) == a + b,
    ensures
        s.subrange(p, p + a.len()) == a,
        s.subrange(p + a.len(), p + a.len() + b.len()) == b,
{
    assert forall|k: int| 0 <= k < a.len() implies s[p + k] == a[k] by {
        assert(s.subrange(p, p + a.len() + b.len())[k] == (a + b)[k]);
        assert(s.subrange(p, p + a.len() + b.len())[k] == s[p + k]);
        assert((a + b)[k] == a[k]);
    }
    assert forall|k: int| 0 <= k < b.len() implies s[p + a.len() + k] == b[k] by {
        assert(s.subrange(p, p + a.len() + b.len())[a.len() + k] == (a + b)[a.len() + k]);
        assert(s.subrange(p, p + a.len() + b.len())[a.len() + k] == s[p + a.len() + k]);
        assert((a + b)[a.len() + k] == b[k]);
    }
    assert(s.subrange(p, p + a.len()) =~= a);
    assert(s.subrange(p + a.len(), p + a.len() + b.len()) =~= b);
}

/// The fighter record's fields are machine integers.
pub open spec fn wf_fighter_v(f: FighterV) -> bool {
    &&& i32::MIN <= f.max_hp <= i32::MAX
    &&& i32::MIN <= f.hp <= i32::MAX
    &&& i32::MIN <= f.defense <= i32::MAX
    &&& i32::MIN <= f.base_damage <= i32::MAX
}

/// A fighter record: its four numbers, then its death policy.
pub open spec fn enc_fighter(f: FighterV) -> Seq<u8> {
    enc_i32(f.max_hp) + (enc_i32(f.hp) + (enc_i32(f.defense) + (enc_i32(f.base_damage)
        + enc_death(f.on_death))))
}

pub open spec fn parse_fighter(s: Seq<u8>, p: int) -> Option<(FighterV, int)> {
    match parse_i32(s, p) {
        Some((max_hp, p1)) => match parse_i32(s, p1) {
            Some((hp, p2)) => match parse_i32(s, p2) {
                Some((defense, p3)) => match parse_i32(s, p3) {
                    Some((base_damage, p4)) => match parse_death(s, p4) {
                        Some((on_death, p5)) => Some(
                            (FighterV { max_hp, hp, defense, base_damage, on_death }, p5),
                        ),
                        None => None,
                    },
                    None => None,
                },
                None => None,
            },
            None => None,
        },
        None => None,
    }
}

pub proof fn lemma_parse_enc_fighter(f: FighterV, s: Seq<u8>, p: int)
    requires
        wf_fighter_v(f),
        0 <= p,
        p + enc_fighter(f).len() <= s.len(),
        s.subrange(p, p + enc_fighter(f).len()) == enc_fighter(f),
    ensures
        enc_fighter(f).len() == 21,
        parse_fighter(s, p) == Some((f, p + 21)),
{
    let a1 = enc_i32(f.max_hp);
    let a2 = enc_i32(f.hp);
    let a3 = enc_i32(f.defense);
    let a4 = enc_i32(f.base_damage);
    let a5 = enc_death(f.on_death);
    lemma_split(s, p, a1, a2 + (a3 + (a4 + a5)));
    lemma_parse_enc_i32(f.max_hp, s, p);
    lemma_split(s, p + 5, a2, a3 + (a4 + a5));
    lemma_parse_enc_i32(f.hp, s, p + 5);
    lemma_split(s, p + 10, a3, a4 + a5);
    lemma_parse_enc_i32(f.defense, s, p + 10);
    lemma_split(s, p + 15, a4, a5);
    lemma_parse_enc_i32(f.base_damage, s, p + 15);
    lemma_parse_enc_death(f.on_death, s, p + 20);
}

/// The equipment record's bonus is a machine integer.
pub open spec fn wf_equipment_v(q: EquipmentV) -> bool {
    i32::MIN <= q.damage_bonus <= i32::MAX
}

/// An equipment record: its slot, worn flag, and bonus.
pub open spec fn enc_equipment(q: EquipmentV) -> Seq<u8> {
    enc_slot(q.slot) + (enc_bool(q.equipped) + enc_i32(q.damage_bonus))
}

pub open spec fn parse_equipment(s: Seq<u8>, p: int) -> Option<(EquipmentV, int)> {
    match parse_slot(s, p) {
        Some((slot, p1)) => match parse_bool(s, p1) {
            Some((equipped, p2)) => match parse_i32(s, p2) {
                Some((damage_bonus, p3)) => Some((EquipmentV { slot, equipped, damage_bonus }, p3)),
                None => None,
            },
            None => None,
        },
        None => None,
    }
}

pub proof fn lemma_parse_enc_equipment(q: EquipmentV, s: Seq<u8>, p: int)
    requires
        wf_equipment_v(q),
        0 <= p,
        p + enc_equipment(q).len() <= s.len(),
        s.subrange(p, p + enc_equipment(q).len()) == enc_equipment(q),
    ensures
        enc_equipment(q).len() == 7,
        parse_equipment(s, p) == Some((q, p + 7)),
{
    let a1 = enc_slot(q.slot);
    let a2 = enc_bool(q.equipped);
    let a3 = enc_i32(q.damage_bonus);
    lemma_split(s, p, a1, a2 + a3);
    lemma_parse_enc_slot(q.slot, s, p);
    lemma_split(s, p + 1, a2, a3);
    lemma_parse_enc_bool(q.equipped, s, p + 1);
    lemma_parse_enc_i32(q.damage_bonus, s, p + 2);
}

/// An optional fighter: a presence byte, then the record.
pub open spec fn enc_opt_fighter(o: Option<FighterV>) -> Seq<u8> {
    match o {
        None => seq![0u8],
        Some(f) => seq![1u8] + enc_fighter(f),
    }
}

pub open spec fn parse_opt_fighter(s: Seq<u8>, p: int) -> Option<(Option<FighterV>, int)> {
    if 0 <= p && p + 1 <= s.len() {
        if s[p] == 0 {
            Some((None, p + 1))
        } else if s[p] == 1 {
            match parse_fighter(s, p + 1) {
                Some((f, p2)) => Some((Some(f), p2)),
                None => None,
            }
        } else {
            None
        }
    } else {
        None
    }
}

pub proof fn lemma_parse_enc_opt_fighter(o: Option<FighterV>, s: Seq<u8>, p: int)
    requires
        o matches Some(f) ==> wf_fighter_v(f),
        0 <= p,
        p + enc_opt_fighter(o).len() <= s.len(),
        s.subrange(p, p + enc_opt_fighter(o).len()) == enc_opt_fighter(o),
    ensures
        parse_opt_fighter(s, p) == Some((o, p + enc_opt_fighter(o).len())),
{
    match o {
        None => {
            assert(s[p] == enc_opt_fighter(o)[0]);
        },
        Some(f) => {
            lemma_split(s, p, seq![1u8], enc_fighter(f));
            assert(s.subrange(p, p + 1)[0] == s[p]);
            assert(s[p] == 1);
            lemma_parse_enc_fighter(f, s, p + 1);
        },
    }
}

/// An optional AI tag: a presence byte, then the tag.
pub open spec fn enc_opt_ai(o: Option<Ai>) -> Seq<u8> {
    match o {
        None => seq![0u8],
        Some(a) => seq![1u8] + enc_ai(a),
    }
}

pub open spec fn parse_opt_ai(s: Seq<u8>, p: int) -> Option<(Option<Ai>, int)> {
    if 0 <= p && p + 1 <= s.len() {
        if s[p] == 0 {
            Some((None, p + 1))
        } else if s[p] == 1 {
            match parse_ai(s, p + 1) {
                Some((a, p2)) => Some((Some(a), p2)),
                None => None,
            }
        } else {
            None
        }
    } else {
        None
    }
}

pub proof fn lemma_parse_enc_opt_ai(o: Option<Ai>, s: Seq<u8>, p: int)
    requires
        0 <= p,
        p + enc_opt_ai(o).len() <= s.len(),
        s.subrange(p, p + enc_opt_ai(o).len()) == enc_opt_ai(o),
    ensures
        parse_opt_ai(s, p) == Some((o, p + enc_opt_ai(o).len())),
{
    match o {
        None => {
            assert(s[p] == enc_opt_ai(o)[0]);
        },
        Some(a) => {
            lemma_split(s, p, seq![1u8], enc_ai(a));
            assert(s.subrange(p, p + 1)[0] == s[p]);
            assert(s[p] == 1);
            lemma_parse_enc_ai(a, s, p + 1);
        },
    }
}

/// An optional item kind: a presence byte, then the kind.
pub open spec fn enc_opt_item(o: Option<Item>) -> Seq<u8> {
    match o {
        None => seq![0u8],
        Some(i) => seq![1u8] + enc_item(i),
    }
}

pub open spec fn parse_opt_item(s: Seq<u8>, p: int) -> Option<(Option<Item>, int)> {
    if 0 <= p && p + 1 <= s.len() {
        if s[p] == 0 {
            Some((None, p + 1))
        } else if s[p] == 1 {
            match parse_item(s, p + 1) {
                Some((i, p2)) => Some((Some(i), p2)),
                None => None,
            }
        } else {
            None
        }
    } else {
        None
    }
}

pub proof fn lemma_parse_enc_opt_item(o: Option<Item>, s: Seq<u8>, p: int)
    requires
        0 <= p,
        p + enc_opt_item(o).len() <= s.len(),
        s.subrange(p, p + enc_opt_item(o).len()) == enc_opt_item(o),
    ensures
        parse_opt_item(s, p) == Some((o, p + enc_opt_item(o).len())),
{
    match o {
        None => {
            assert(s[p] == enc_opt_item(o)[0]);
        },
        Some(i) => {
            lemma_split(s, p, seq![1u8], enc_item(i));
            assert(s.subrange(p, p + 1)[0] == s[p]);
            assert(s[p] == 1);
            lemma_parse_enc_item(i, s, p + 1);
        },
    }
}

/// An optional equipment record: a presence byte, then the record.
pub open spec fn enc_opt_equipment(o: Option<EquipmentV>) -> Seq<u8> {
    match o {
        None => seq![0u8],
        Some(q) => seq![1u8] + enc_equipment(q),
    }
}

pub open spec fn parse_opt_equipment(s: Seq<u8>, p: int) -> Option<(Option<EquipmentV>, int)> {
    if 0 <= p && p + 1 <= s.len() {
        if s[p] == 0 {
            Some((None, p + 1))
        } else if s[p] == 1 {
            match parse_equipment(s, p + 1) {
                Some((q, p2)) => Some((Some(q), p2)),
                None => None,
            }
        } else {
            None
        }
    } else {
        None
    }
}

pub proof fn lemma_parse_enc_opt_equipment(o: Option<EquipmentV>, s: Seq<u8>, p: int)
    requires
        o matches Some(q) ==> wf_equipment_v(q),
        0 <= p,
        p + enc_opt_equipment(o).len() <= s.len(),
        s.subrange(p, p + enc_opt_equipment(o).len()) == enc_opt_equipment(o),
    ensures
        parse_opt_equipment(s, p) == Some((o, p + enc_opt_equipment(o).len())),
{
    match o {
        None => {
            assert(s[p] == enc_opt_equipment(o)[0]);
        },
        Some(q) => {
            lemma_split(s, p, seq![1u8], enc_equipment(q));
            assert(s.subrange(p, p + 1)[0] == s[p]);
            assert(s[p] == 1);
            lemma_parse_enc_equipment(q, s, p + 1);
        },
    }
}

/// A character sequence, one code point after another.
pub open spec fn enc_chars(cs: Seq<char>) -> Seq<u8>
    decreases cs.len(),
{
    if cs.len() == 0 {
        Seq::empty()
    } else {
        enc_char(cs[0]) + enc_chars(cs.drop_first())
    }
}

/// Each character takes four bytes.
pub proof fn lemma_enc_chars_len(cs: Seq<char>)
    ensures
        enc_chars(cs).len() == 4 * cs.len(),
    decreases cs.len(),
{
    if cs.len() > 0 {
        lemma_enc_chars_len(cs.drop_first());
    }
}

pub open spec fn parse_chars(s: Seq<u8>, p: int, n: int) -> Option<(Seq<char>, int)>
    decreases n,
{
    if n <= 0 {
        Some((Seq::empty(), p))
    } else {
        match parse_char(s, p) {
            Some((c, p1)) => match parse_chars(s, p1, n - 1) {
                Some((cs, p2)) => Some((seq![c] + cs, p2)),
                None => None,
            },
            None => None,
        }
    }
}

pub proof fn lemma_parse_enc_chars(cs: Seq<char>, s: Seq<u8>, p: int)
    requires
        0 <= p,
        p + enc_chars(cs).len() <= s.len(),
        s.subrange(p, p + enc_chars(cs).len()) == enc_chars(cs),
    ensures
        parse_chars(s, p, cs.len() as int) == Some((cs, p + enc_chars(cs).len())),
    decreases cs.len(),
{
    lemma_enc_chars_len(cs);
    if cs.len() > 0 {
        let rest = cs.drop_first();
        lemma_enc_chars_len(rest);
        lemma_split(s, p, enc_char(cs[0]), enc_chars(rest));
        lemma_parse_enc_char(cs[0], s, p);
        lemma_parse_enc_chars(rest, s, p + 4);
        assert(seq![cs[0]] + rest =~= cs);
    }
}

/// A name: its character count, then its characters.
pub open spec fn enc_name(cs: Seq<char>) -> Seq<u8>
    recommends
        cs.len() <= u32::MAX,
{
    enc_u32(cs.len() as u32) + enc_chars(cs)
}

pub open spec fn parse_name(s: Seq<u8>, p: int) -> Option<(Seq<char>, int)> {
    match parse_u32(s, p) {
        Some((n, p1)) => parse_chars(s, p1, n as int),
        None => None,
    }
}

pub proof fn lemma_parse_enc_name(cs: Seq<char>, s: Seq<u8>, p: int)
    requires
        cs.len() <= u32::MAX,
        0 <= p,
        p + enc_name(cs).len() <= s.len(),
        s.subrange(p, p + enc_name(cs).len()) == enc_name(cs),
    ensures
        enc_name(cs).len() == 4 + 4 * cs.len(),
        parse_name(s, p) == Some((cs, p + enc_name(cs).len())),
{
    lemma_enc_chars_len(cs);
    lemma_split(s, p, enc_u32(cs.len() as u32), enc_chars(cs));
    lemma_parse_enc_u32(cs.len() as u32, s, p);
    lemma_parse_enc_chars(cs, s, p + 4);
}

/// The entity's numbers are machine integers and its name's length fits
/// the length field.
pub open spec fn wf_entity_v(v: EntityV) -> bool {
    &&& i32::MIN <= v.x <= i32::MAX
    &&& i32::MIN <= v.y <= i32::MAX
    &&& v.name.len() <= u32::MAX
    &&& (v.fighter matches Some(f) ==> wf_fighter_v(f))
    &&& (v.equipment matches Some(q) ==> wf_equipment_v(q))
}

/// A whole entity record, field after field.
pub open spec fn enc_entity(v: EntityV) -> Seq<u8> {
    enc_i32(v.x) + (enc_i32(v.y) + (enc_char(v.glyph) + (enc_name(v.name) + (enc_bool(v.blocks)
        + (enc_bool(v.alive) + (enc_opt_fighter(v.fighter) + (enc_opt_ai(v.ai) + (enc_opt_item(
        v.item,
    ) + enc_opt_equipment(v.equipment)))))))))
}

pub open spec fn parse_entity(s: Seq<u8>, p: int) -> Option<(EntityV, int)> {
    match parse_i32(s, p) {
        Some((x, p1)) => match parse_i32(s, p1) {
            Some((y, p2)) => match parse_char(s, p2) {
                Some((glyph, p3)) => match parse_name(s, p3) {
                    Some((name, p4)) => match parse_bool(s, p4) {
                        Some((blocks, p5)) => match parse_bool(s, p5) {
                            Some((alive, p6)) => match parse_opt_fighter(s, p6) {
                                Some((fighter, p7)) => match parse_opt_ai(s, p7) {
                                    Some((ai, p8)) => match parse_opt_item(s, p8) {
                                        Some((item, p9)) => match parse_opt_equipment(s, p9) {
                                            Some((equipment, p10)) => Some(
                                                (
                                                    EntityV {
                                                        x,
                                                        y,
                                                        glyph,
                                                        name,
                                                        blocks,
                                                        alive,
                                                        fighter,
                                                        ai,
                                                        item,
                                                        equipment,
                                                    },
                                                    p10,
                                                ),
                                            ),
                                            None => None,
                                        },
                                        None => None,
                                    },
                                    None => None,
                                },
                                None => None,
                            },
                            None => None,
                        },
                        None => None,
                    },
                    None => None,
                },
                None => None,
            },
            None => None,
        },
        None => None,
    }
}

#[verifier::rlimit(100)]
pub proof fn lemma_parse_enc_entity(v: EntityV, s: Seq<u8>, p: int)
    requires
        wf_entity_v(v),
        0 <= p,
        p + enc_entity(v).len() <= s.len(),
        s.subrange(p, p + enc_entity(v).len()) == enc_entity(v),
    ensures
        parse_entity(s, p) == Some((v, p + enc_entity(v).len())),
{
    let a1 = enc_i32(v.x);
    let a2 = enc_i32(v.y);
    let a3 = enc_char(v.glyph);
    let a4 = enc_name(v.name);
    let a5 = enc_bool(v.blocks);
    let a6 = enc_bool(v.alive);
    let a7 = enc_opt_fighter(v.fighter);
    let a8 = enc_opt_ai(v.ai);
    let a9 = enc_opt_item(v.item);
    let a10 = enc_opt_equipment(v.equipment);
    lemma_split(s, p, a1, a2 + (a3 + (a4 + (a5 + (a6 + (a7 + (a8 + (a9 + a10))))))));
    lemma_parse_enc_i32(v.x, s, p);
    let p1 = p + 5;
    lemma_split(s, p1, a2, a3 + (a4 + (a5 + (a6 + (a7 + (a8 + (a9 + a10)))))));
    lemma_parse_enc_i32(v.y, s, p1);
    let p2 = p1 + 5;
    lemma_split(s, p2, a3, a4 + (a5 + (a6 + (a7 + (a8 + (a9 + a10))))));
    lemma_parse_enc_char(v.glyph, s, p2);
    let p3 = p2 + 4;
    lemma_split(s, p3, a4, a5 + (a6 + (a7 + (a8 + (a9 + a10)))));
    lemma_parse_enc_name(v.name, s, p3);
    let p4 = p3 + a4.len();
    lemma_split(s, p4, a5, a6 + (a7 + (a8 + (a9 + a10))));
    lemma_parse_enc_bool(v.blocks, s, p4);
    let p5 = p4 + 1;
    lemma_split(s, p5, a6, a7 + (a8 + (a9 + a10)));
    lemma_parse_enc_bool(v.alive, s, p5);
    let p6 = p5 + 1;
    lemma_split(s, p6, a7, a8 + (a9 + a10));
    lemma_parse_enc_opt_fighter(v.fighter, s, p6);
    let p7 = p6 + a7.len();
    lemma_split(s, p7, a8, a9 + a10);
    lemma_parse_enc_opt_ai(v.ai, s, p7);
    let p8 = p7 + a8.len();
    lemma_split(s, p8, a9, a10);
    lemma_parse_enc_opt_item(v.item, s, p8);
    let p9 = p8 + a9.len();
    lemma_parse_enc_opt_equipment(v.equipment, s, p9);
}

/// The mathematical images of a sequence of entities.
pub open spec fn views_of(s: Seq<Entity>) -> Seq<EntityV> {
    s.map_values(|e: Entity| e@)
}

/// The mathematical image of the map grid.
pub open spec fn cols_of(m: GameMap) -> Seq<Seq<Tile>> {
    m.tiles@.map_values(|c: Vec<Tile>| c@)
}

/// Entity records, one after another.
pub open spec fn enc_entity_list(vs: Seq<EntityV>) -> Seq<u8>
    decreases vs.len(),
{
    if vs.len() == 0 {
        Seq::empty()
    } else {
        enc_entity(vs[0]) + enc_entity_list(vs.drop_first())
    }
}

/// Appending a record appends its bytes.
pub proof fn lemma_enc_entity_list_push(vs: Seq<EntityV>, v: EntityV)
    ensures
        enc_entity_list(vs.push(v)) == enc_entity_list(vs) + enc_entity(v),
    decreases vs.len(),
{
    if vs.len() == 0 {
        assert(vs.push(v).drop_first() =~= Seq::<EntityV>::empty());
        assert(enc_entity_list(Seq::<EntityV>::empty()) == Seq::<u8>::empty());
        assert(enc_entity_list(vs.push(v)) =~= enc_entity_list(vs) + enc_entity(v));
    } else {
        assert(vs.push(v).drop_first() =~= vs.drop_first().push(v));
        lemma_enc_entity_list_push(vs.drop_first(), v);
        assert(enc_entity_list(vs.push(v)) =~= enc_entity_list(vs) + enc_entity(v));
    }
}

/// A counted sequence of entity records.
pub open spec fn enc_entities(vs: Seq<EntityV>) -> Seq<u8>
    recommends
        vs.len() <= u32::MAX,
{
    enc_u32(vs.len() as u32) + enc_entity_list(vs)
}

pub open spec fn parse_entity_list(s: Seq<u8>, p: int, n: int) -> Option<(Seq<EntityV>, int)>
    decreases n,
{
    if n <= 0 {
        Some((Seq::empty(), p))
    } else {
        match parse_entity(s, p) {
            Some((v, p1)) => match parse_entity_list(s, p1, n - 1) {
                Some((vs, p2)) => Some((seq![v] + vs, p2)),
                None => None,
            },
            None => None,
        }
    }
}

pub open spec fn parse_entities(s: Seq<u8>, p: int) -> Option<(Seq<EntityV>, int)> {
    match parse_u32(s, p) {
        Some((n, p1)) => parse_entity_list(s, p1, n as int),
        None => None,
    }
}

/// Every record of the sequence is encodable.
pub open spec fn wf_entities_v(vs: Seq<EntityV>) -> bool {
    forall|k: int| 0 <= k < vs.len() ==> wf_entity_v(#[trigger] vs[k])
}

#[verifier::rlimit(100)]
pub proof fn lemma_parse_enc_entity_list(vs: Seq<EntityV>, s: Seq<u8>, p: int)
    requires
        wf_entities_v(vs),
        0 <= p,
        p + enc_entity_list(vs).len() <= s.len(),
        s.subrange(p, p + enc_entity_list(vs).len()) == enc_entity_list(vs),
    ensures
        parse_entity_list(s, p, vs.len() as int) == Some((vs, p + enc_entity_list(vs).len())),
    decreases vs.len(),
{
    if vs.len() > 0 {
        let rest = vs.drop_first();
        lemma_split(s, p, enc_entity(vs[0]), enc_entity_list(rest));
        lemma_parse_enc_entity(vs[0], s, p);
        assert(wf_entities_v(rest)) by {
            assert(forall|k: int| 0 <= k < rest.len() ==> rest[k] == vs[k + 1]);
        }
        lemma_parse_enc_entity_list(rest, s, p + enc_entity(vs[0]).len());
        assert(seq![vs[0]] + rest =~= vs);
    }
}

pub proof fn lemma_parse_enc_entities(vs: Seq<EntityV>, s: Seq<u8>, p: int)
    requires
        wf_entities_v(vs),
        vs.len() <= u32::MAX,
        0 <= p,
        p + enc_entities(vs).len() <= s.len(),
        s.subrange(p, p + enc_entities(vs).len()) == enc_entities(vs),
    ensures
        parse_entities(s, p) == Some((vs, p + enc_entities(vs).len())),
{
    lemma_split(s, p, enc_u32(vs.len() as u32), enc_entity_list(vs));
    lemma_parse_enc_u32(vs.len() as u32, s, p);
    lemma_parse_enc_entity_list(vs, s, p + 4);
}

/// A tile as its three flags.
pub open spec fn enc_tile(t: Tile) -> Seq<u8> {
    enc_bool(t.blocked) + (enc_bool(t.block_sight) + enc_bool(t.stairs))
}

pub open spec fn parse_tile(s: Seq<u8>, p: int) -> Option<(Tile, int)> {
    match parse_bool(s, p) {
        Some((blocked, p1)) => match parse_bool(s, p1) {
            Some((block_sight, p2)) => match parse_bool(s, p2) {
                Some((stairs, p3)) => Some((Tile { blocked, block_sight, stairs }, p3)),
                None => None,
            },
            None => None,
        },
        None => None,
    }
}

pub proof fn lemma_parse_enc_tile(t: Tile, s: Seq<u8>, p: int)
    requires
        0 <= p,
        p + 3 <= s.len(),
        s.subrange(p, p + 3) == enc_tile(t),
    ensures
        parse_tile(s, p) == Some((t, p + 3)),
{
    lemma_split(s, p, enc_bool(t.blocked), enc_bool(t.block_sight) + enc_bool(t.stairs));
    lemma_parse_enc_bool(t.blocked, s, p);
    lemma_split(s, p + 1, enc_bool(t.block_sight), enc_bool(t.stairs));
    lemma_parse_enc_bool(t.block_sight, s, p + 1);
    lemma_parse_enc_bool(t.stairs, s, p + 2);
}

/// Tiles, one after another.
pub open spec fn enc_tile_list(ts: Seq<Tile>) -> Seq<u8>
    decreases ts.len(),
{
    if ts.len() == 0 {
        Seq::empty()
    } else {
        enc_tile(ts[0]) + enc_tile_list(ts.drop_first())
    }
}

pub proof fn lemma_enc_tile_list_push(ts: Seq<Tile>, t: Tile)
    ensures
        enc_tile_list(ts.push(t)) == enc_tile_list(ts) + enc_tile(t),
    decreases ts.len(),
{
    if ts.len() == 0 {
        assert(ts.push(t).drop_first() =~= Seq::<Tile>::empty());
        assert(enc_tile_list(Seq::<Tile>::empty()) == Seq::<u8>::empty());
        assert(enc_tile_list(ts.push(t)) =~= enc_tile_list(ts) + enc_tile(t));
    } else {
        assert(ts.push(t).drop_first() =~= ts.drop_first().push(t));
        lemma_enc_tile_list_push(ts.drop_first(), t);
        assert(enc_tile_list(ts.push(t)) =~= enc_tile_list(ts) + enc_tile(t));
    }
}

pub open spec fn parse_tile_list(s: Seq<u8>, p: int, n: int) -> Option<(Seq<Tile>, int)>
    decreases n,
{
    if n <= 0 {
        Some((Seq::empty(), p))
    } else {
        match parse_tile(s, p) {
            Some((t, p1)) => match parse_tile_list(s, p1, n - 1) {
                Some((ts, p2)) => Some((seq![t] + ts, p2)),
                None => None,
            },
            None => None,
        }
    }
}

pub proof fn lemma_parse_enc_tile_list(ts: Seq<Tile>, s: Seq<u8>, p: int)
    requires
        0 <= p,
        p + enc_tile_list(ts).len() <= s.len(),
        s.subrange(p, p + enc_tile_list(ts).len()) == enc_tile_list(ts),
    ensures
        parse_tile_list(s, p, ts.len() as int) == Some((ts, p + enc_tile_list(ts).len())),
    decreases ts.len(),
{
    if ts.len() > 0 {
        let rest = ts.drop_first();
        lemma_split(s, p, enc_tile(ts[0]), enc_tile_list(rest));
        lemma_parse_enc_tile(ts[0], s, p);
        lemma_parse_enc_tile_list(rest, s, p + 3);
        assert(seq![ts[0]] + rest =~= ts);
    }
}

/// Map columns, one after another, each a fixed run of tiles.
pub open spec fn enc_col_list(cols: Seq<Seq<Tile>>) -> Seq<u8>
    decreases cols.len(),
{
    if cols.len() == 0 {
        Seq::empty()
    } else {
        enc_tile_list(cols[0]) + enc_col_list(cols.drop_first())
    }
}

pub proof fn lemma_enc_col_list_push(cols: Seq<Seq<Tile>>, c: Seq<Tile>)
    ensures
        enc_col_list(cols.push(c)) == enc_col_list(cols) + enc_tile_list(c),
    decreases cols.len(),
{
    if cols.len() == 0 {
        assert(cols.push(c).drop_first() =~= Seq::<Seq<Tile>>::empty());
        assert(enc_col_list(Seq::<Seq<Tile>>::empty()) == Seq::<u8>::empty());
        assert(enc_col_list(cols.push(c)) =~= enc_col_list(cols) + enc_tile_list(c));
    } else {
        assert(cols.push(c).drop_first() =~= cols.drop_first().push(c));
        lemma_enc_col_list_push(cols.drop_first(), c);
        assert(enc_col_list(cols.push(c)) =~= enc_col_list(cols) + enc_tile_list(c));
    }
}

pub open spec fn parse_col_list(s: Seq<u8>, p: int, n: int) -> Option<(Seq<Seq<Tile>>, int)>
    decreases n,
{
    if n <= 0 {
        Some((Seq::empty(), p))
    } else {
        match parse_tile_list(s, p, MAP_HEIGHT as int) {
            Some((c, p1)) => match parse_col_list(s, p1, n - 1) {
                Some((cols, p2)) => Some((seq![c] + cols, p2)),
                None => None,
            },
            None => None,
        }
    }
}

/// Every column has its fixed height.
pub open spec fn wf_cols(cols: Seq<Seq<Tile>>) -> bool {
    forall|k: int| 0 <= k < cols.len() ==> (#[trigger] cols[k]).len() == MAP_HEIGHT
}

pub proof fn lemma_parse_enc_col_list(cols: Seq<Seq<Tile>>, s: Seq<u8>, p: int)
    requires
        wf_cols(cols),
        0 <= p,
        p + enc_col_list(cols).len() <= s.len(),
        s.subrange(p, p + enc_col_list(cols).len()) == enc_col_list(cols),
    ensures
        parse_col_list(s, p, cols.len() as int) == Some((cols, p + enc_col_list(cols).len())),
    decreases cols.len(),
{
    if cols.len() > 0 {
        let rest = cols.drop_first();
        lemma_split(s, p, enc_tile_list(cols[0]), enc_col_list(rest));
        lemma_parse_enc_tile_list(cols[0], s, p);
        assert(wf_cols(rest)) by {
            assert(forall|k: int| 0 <= k < rest.len() ==> rest[k] == cols[k + 1]);
        }
        lemma_parse_enc_col_list(rest, s, p + enc_tile_list(cols[0]).len());
        assert(seq![cols[0]] + rest =~= cols);
    }
}

/// The whole map: its fixed number of columns.
pub open spec fn enc_map(cols: Seq<Seq<Tile>>) -> Seq<u8> {
    enc_col_list(cols)
}

pub open spec fn parse_map(s: Seq<u8>, p: int) -> Option<(Seq<Seq<Tile>>, int)> {
    parse_col_list(s, p, MAP_WIDTH as int)
}

/// The parsed image of a whole saved game.
pub struct SaveV {
    pub floor: Seq<EntityV>,
    pub map: Seq<Seq<Tile>>,
    pub inventory: Seq<EntityV>,
    pub dungeon_level: u32,
}

/// A whole saved game: the floor entities, the map, the inventory, and the
/// dungeon level.
pub open spec fn enc_save(entities: Seq<Entity>, g: Game) -> Seq<u8> {
    enc_entities(views_of(entities)) + (enc_map(cols_of(g.map)) + (enc_entities(
        views_of(g.inventory@),
    ) + enc_u32(g.dungeon_level)))
}

pub open spec fn parse_save(s: Seq<u8>, p: int) -> Option<(SaveV, int)> {
    match parse_entities(s, p) {
        Some((floor, p1)) => match parse_map(s, p1) {
            Some((map, p2)) => match parse_entities(s, p2) {
                Some((inventory, p3)) => match parse_u32(s, p3) {
                    Some((dungeon_level, p4)) => Some(
                        (SaveV { floor, map, inventory, dungeon_level }, p4),
                    ),
                    None => None,
                },
                None => None,
            },
            None => None,
        },
        None => None,
    }
}

/// What the encoder needs of a state: counts that fit the length fields,
/// encodable entities, and a map of the fixed dimensions.
pub open spec fn wf_save(entities: Seq<Entity>, g: Game) -> bool {
    &&& entities.len() <= u32::MAX
    &&& g.inventory@.len() <= u32::MAX
    &&& wf_entities_v(views_of(entities))
    &&& wf_entities_v(views_of(g.inventory@))
    &&& g.map.wf()
}

/// The saved image of a state: exactly its mathematical content.
pub open spec fn save_view(entities: Seq<Entity>, g: Game) -> SaveV {
    SaveV {
        floor: views_of(entities),
        map: cols_of(g.map),
        inventory: views_of(g.inventory@),
        dungeon_level: g.dungeon_level,
    }
}

/// The first two chunks of a save parse back to what was encoded.
#[verifier::rlimit(100)]
#[verifier::spinoff_prover]
proof fn lemma_parse_save_front(
    floor: Seq<EntityV>,
    cols: Seq<Seq<Tile>>,
    invv: Seq<EntityV>,
    lvl: u32,
    s: Seq<u8>,
)
    requires
        wf_entities_v(floor),
        floor.len() <= u32::MAX,
        wf_cols(cols),
        cols.len() == MAP_WIDTH,
        s == enc_entities(floor) + (enc_col_list(cols) + (enc_entities(invv) + enc_u32(lvl))),
    ensures
        parse_entities(s, 0) == Some((floor, enc_entities(floor).len() as int)),
        parse_map(s, enc_entities(floor).len() as int) == Some(
            (cols, enc_entities(floor).len() + enc_col_list(cols).len() as int),
        ),
{
    let a1 = enc_entities(floor);
    let a2 = enc_col_list(cols);
    let a3 = enc_entities(invv);
    let a4 = enc_u32(lvl);
    assert(s.subrange(0, s.len() as int) =~= s);
    lemma_split(s, 0, a1, a2 + (a3 + a4));
    lemma_parse_enc_entities(floor, s, 0);
    let p1 = a1.len() as int;
    lemma_split(s, p1, a2, a3 + a4);
    lemma_parse_enc_col_list(cols, s, p1);
}

/// The last two chunks of a save parse back to what was encoded.
#[verifier::rlimit(100)]
#[verifier::spinoff_prover]
proof fn lemma_parse_save_back(
    floor: Seq<EntityV>,
    cols: Seq<Seq<Tile>>,
    invv: Seq<EntityV>,
    lvl: u32,
    s: Seq<u8>,
)
    requires
        wf_entities_v(invv),
        invv.len() <= u32::MAX,
        s == enc_entities(floor) + (enc_col_list(cols) + (enc_entities(invv) + enc_u32(lvl))),
    ensures
        parse_entities(s, enc_entities(floor).len() + enc_col_list(cols).len() as int) == Some(
            (
                invv,
                enc_entities(floor).len() + enc_col_list(cols).len() + enc_entities(
                    invv,
                ).len() as int,
            ),
        ),
        parse_u32(
            s,
            enc_entities(floor).len() + enc_col_list(cols).len() + enc_entities(invv).len() as int,
        ) == Some((lvl, s.len() as int)),
{
    let a1 = enc_entities(floor);
    let a2 = enc_col_list(cols);
    let a3 = enc_entities(invv);
    let a4 = enc_u32(lvl);
    let p2 = a1.len() + a2.len() as int;
    let p3 = p2 + a3.len();
    lemma_save_back_layout(floor, cols, invv, lvl, s);
    lemma_parse_enc_entities(invv, s, p2);
    lemma_parse_enc_u32(lvl, s, p3);
}

/// In the save layout, the inventory chunk and the level chunk stand at
/// their own offsets.
#[verifier::rlimit(100)]
#[verifier::spinoff_prover]
proof fn lemma_save_back_layout(
    floor: Seq<EntityV>,
    cols: Seq<Seq<Tile>>,
    invv: Seq<EntityV>,
    lvl: u32,
    s: Seq<u8>,
)
    requires
        s == enc_entities(floor) + (enc_col_list(cols) + (enc_entities(invv) + enc_u32(lvl))),
    ensures
        s.subrange(
            enc_entities(floor).len() + enc_col_list(cols).len() as int,
            enc_entities(floor).len() + enc_col_list(cols).len() + enc_entities(invv).len() as int,
        ) == enc_entities(invv),
        s.subrange(
            enc_entities(floor).len() + enc_col_list(cols).len() + enc_entities(invv).len() as int,
            s.len() as int,
        ) == enc_u32(lvl),
        s.len() == enc_entities(floor).len() + enc_col_list(cols).len() + enc_entities(invv).len()
            + 4,
{
    let a1 = enc_entities(floor);
    let a2 = enc_col_list(cols);
    let a3 = enc_entities(invv);
    let a4 = enc_u32(lvl);
    assert(s.subrange(0, s.len() as int) =~= s);
    lemma_split(s, 0, a1, a2 + (a3 + a4));
    let p1 = a1.len() as int;
    lemma_split(s, p1, a2, a3 + a4);
    let p2 = p1 + a2.len();
    lemma_split(s, p2, a3, a4);
}

/// Parsing the four encoded chunks of a save, laid end to end, yields the
/// four components back.
proof fn lemma_parse_save_chunks(
    floor: Seq<EntityV>,
    cols: Seq<Seq<Tile>>,
    invv: Seq<EntityV>,
    lvl: u32,
    s: Seq<u8>,
)
    requires
        wf_entities_v(floor),
        floor.len() <= u32::MAX,
        wf_cols(cols),
        cols.len() == MAP_WIDTH,
        wf_entities_v(invv),
        invv.len() <= u32::MAX,
        s == enc_entities(floor) + (enc_col_list(cols) + (enc_entities(invv) + enc_u32(lvl))),
    ensures
        parse_save(s, 0) == Some(
            (SaveV { floor, map: cols, inventory: invv, dungeon_level: lvl }, s.len() as int),
        ),
{
    lemma_parse_save_front(floor, cols, invv, lvl, s);
    lemma_parse_save_back(floor, cols, invv, lvl, s);
}

/// Law: the save format round-trips. Parsing the encoding of any
/// well-formed game state yields back exactly the floor-entity sequence,
/// the map, the inventory, and the dungeon level that were encoded,
/// consuming the whole encoding.
pub proof fn lemma_save_round_trip(entities: Seq<Entity>, g: Game)
    requires
        wf_save(entities, g),
    ensures
        parse_save(enc_save(entities, g), 0) == Some(
            (save_view(entities, g), enc_save(entities, g).len() as int),
        ),
{
    assert(wf_cols(cols_of(g.map))) by {
        assert(forall|k: int|
            0 <= k < cols_of(g.map).len() ==> (#[trigger] cols_of(g.map)[k]) == g.map.tiles@[k]@);
    }
    lemma_parse_save_chunks(
        views_of(entities),
        cols_of(g.map),
        views_of(g.inventory@),
        g.dungeon_level,
        enc_save(entities, g),
    );
}

// ---------------------------------------------------------------------------
// Executable encoding and decoding of the compound structures.
// ---------------------------------------------------------------------------
/// Appending a character appends its bytes.
pub proof fn lemma_enc_chars_push(cs: Seq<char>, c: char)
    ensures
        enc_chars(cs.push(c)) == enc_chars(cs) + enc_char(c),
    decreases cs.len(),
{
    if cs.len() == 0 {
        assert(cs.push(c).drop_first() =~= Seq::<char>::empty());
        assert(enc_chars(Seq::<char>::empty()) == Seq::<u8>::empty());
        assert(enc_chars(cs.push(c)) =~= enc_chars(cs) + enc_char(c));
    } else {
        assert(cs.push(c).drop_first() =~= cs.drop_first().push(c));
        lemma_enc_chars_push(cs.drop_first(), c);
        assert(enc_chars(cs.push(c)) =~= enc_chars(cs) + enc_char(c));
    }
}

/// Append a death policy byte.
pub fn put_death(out: &mut Vec<u8>, d: DeathCallback)
    ensures
        final(out)@ == old(out)@ + enc_death(d),
{
    match d {
        DeathCallback::Player => out.push(0u8),
        DeathCallback::Monster => out.push(1u8),
    }
    proof {
        assert(final(out)@ =~= old(out)@ + enc_death(d));
    }
}

/// Read a death policy byte.
pub fn get_death(bytes: &Vec<u8>, pos: usize) -> (r: Option<(DeathCallback, usize)>)
    ensures
        parse_death(bytes@, pos as int) is None ==> r is None,
        parse_death(bytes@, pos as int) matches Some((v, p2)) ==> (r matches Some((rv, rp)) && rv
            == v && rp == p2),
{
    if pos >= bytes.len() {
        return None;
    }
    let b = bytes[pos];
    if b == 0 {
        Some((DeathCallback::Player, pos + 1))
    } else if b == 1 {
        Some((DeathCallback::Monster, pos + 1))
    } else {
        None
    }
}

/// Append a fighter record.
pub fn put_fighter(out: &mut Vec<u8>, f: &Fighter)
    ensures
        final(out)@ == old(out)@ + enc_fighter(f@),
{
    put_i32(out, f.max_hp);
    put_i32(out, f.hp);
    put_i32(out, f.defense);
    put_i32(out, f.base_damage);
    put_death(out, f.on_death);
    proof {
        assert(final(out)@ =~= old(out)@ + enc_fighter(f@));
    }
}

/// Read a fighter record.
pub fn get_fighter(bytes: &Vec<u8>, pos: usize) -> (r: Option<(Fighter, usize)>)
    ensures
        parse_fighter(bytes@, pos as int) is None ==> r is None,
        parse_fighter(bytes@, pos as int) matches Some((fv, p2)) ==> (r matches Some((f, rp))
            && f@ == fv && rp == p2),
{
    let (max_hp, p1) = match get_i32(bytes, pos) {
        Some(x) => x,
        None => {
            return None;
        },
    };
    let (hp, p2) = match get_i32(bytes, p1) {
        Some(x) => x,
        None => {
            return None;
        },
    };
    let (defense, p3) = match get_i32(bytes, p2) {
        Some(x) => x,
        None => {
            return None;
        },
    };
    let (base_damage, p4) = match get_i32(bytes, p3) {
        Some(x) => x,
        None => {
            return None;
        },
    };
    let (on_death, p5) = match get_death(bytes, p4) {
        Some(x) => x,
        None => {
            return None;
        },
    };
    Some((Fighter { max_hp, hp, defense, base_damage, on_death }, p5))
}

/// Append an equipment record.
pub fn put_equipment(out: &mut Vec<u8>, q: &Equipment)
    ensures
        final(out)@ == old(out)@ + enc_equipment(q@),
{
    match q.slot {
        Slot::LeftHand => out.push(0u8),
        Slot::RightHand => out.push(1u8),
        Slot::Head => out.push(2u8),
    }
    put_bool(out, q.equipped);
    put_i32(out, q.damage_bonus);
    proof {
        assert(final(out)@ =~= old(out)@ + enc_equipment(q@));
    }
}

/// Read an equipment record.
pub fn get_equipment(bytes: &Vec<u8>, pos: usize) -> (r: Option<(Equipment, usize)>)
    ensures
        parse_equipment(bytes@, pos as int) is None ==> r is None,
        parse_equipment(bytes@, pos as int) matches Some((qv, p2)) ==> (r matches Some((q, rp))
            && q@ == qv && rp == p2),
{
    if pos >= bytes.len() {
        return None;
    }
    let b = bytes[pos];
    let slot = if b == 0 {
        Slot::LeftHand
    } else if b == 1 {
        Slot::RightHand
    } else if b == 2 {
        Slot::Head
    } else {
        return None;
    };
    let (equipped, p2) = match get_bool(bytes, pos + 1) {
        Some(x) => x,
        None => {
            return None;
        },
    };
    let (damage_bonus, p3) = match get_i32(bytes, p2) {
        Some(x) => x,
        None => {
            return None;
        },
    };
    Some((Equipment { slot, equipped, damage_bonus }, p3))
}

/// Append a name: its character count, then its characters.
pub fn put_name(out: &mut Vec<u8>, name: &String)
    requires
        name@.len() <= u32::MAX,
    ensures
        final(out)@ == old(out)@ + enc_name(name@),
{
    let s = name.as_str();
    let n = s.unicode_len();
    put_u32(out, n as u32);
    let ghost mid = out@;
    let mut i: usize = 0;
    while i < n
        invariant
            i <= n,
            n == s@.len(),
            s@ == name@,
            out@ == mid + enc_chars(s@.take(i as int)),
        decreases n - i,
    {
        let c = s.get_char(i);
        put_char(out, c);
        proof {
            assert(s@.take(i + 1) =~= s@.take(i as int).push(s@[i as int]));
            lemma_enc_chars_push(s@.take(i as int), s@[i as int]);
        }
        i = i + 1;
    }
    proof {
        assert(s@.take(n as int) =~= s@);
        assert(final(out)@ =~= old(out)@ + enc_name(name@));
    }
}

/// Read a name.
pub fn get_name(bytes: &Vec<u8>, pos: usize) -> (r: Option<(String, usize)>)
    ensures
        parse_name(bytes@, pos as int) is None ==> r is None,
        parse_name(bytes@, pos as int) matches Some((cs, p2)) ==> (r matches Some((nm, rp))
            && nm@ == cs && rp == p2),
{
    let (n, p1) = match get_u32(bytes, pos) {
        Some(x) => x,
        None => {
            return None;
        },
    };
    let mut acc = String::new();
    let mut cur = p1;
    let mut i: u32 = 0;
    while i < n
        invariant
            i <= n,
            parse_name(bytes@, pos as int) == parse_chars(bytes@, p1 as int, n as int),
            parse_chars(bytes@, p1 as int, n as int) == (match parse_chars(
                bytes@,
                cur as int,
                n as int - i,
            ) {
                Some((cs, pe)) => Some((acc@ + cs, pe)),
                None => None::<(Seq<char>, int)>,
            }),
        decreases n - i,
    {
        match get_char(bytes, cur) {
            Some((c, p2)) => {
                proof {
                    assert(parse_char(bytes@, cur as int) == Some((c, p2 as int)));
                }
                let ghost prev = acc@;
                acc.push(c);
                proof {
                    assert(parse_chars(bytes@, cur as int, n as int - i) == (match parse_chars(
                        bytes@,
                        p2 as int,
                        n as int - i - 1,
                    ) {
                        Some((cs2, pe2)) => Some((seq![c] + cs2, pe2)),
                        None => None::<(Seq<char>, int)>,
                    }));
                    match parse_chars(bytes@, p2 as int, n as int - i - 1) {
                        Some((cs2, pe2)) => {
                            assert(prev + (seq![c] + cs2) =~= prev.push(c) + cs2);
                        },
                        None => {},
                    }
                }
                cur = p2;
            },
            None => {
                proof {
                    assert(parse_char(bytes@, cur as int) is None);
                    assert(parse_chars(bytes@, cur as int, n as int - i) is None);
                }
                return None;
            },
        }
        i = i + 1;
    }
    proof {
        assert(parse_chars(bytes@, cur as int, 0) == Some((Seq::<char>::empty(), cur as int)));
        assert(acc@ + Seq::<char>::empty() =~= acc@);
    }
    Some((acc, cur))
}

/// Append a whole entity record.
/// Append an optional fighter record.
pub fn put_opt_fighter(out: &mut Vec<u8>, o: &Option<Fighter>)
    ensures
        final(out)@ == old(out)@ + enc_opt_fighter(match o {
            Some(f) => Some(f@),
            None => None,
        }),
{
    match o {
        None => {
            out.push(0u8);
            proof {
                assert(final(out)@ =~= old(out)@ + enc_opt_fighter(None));
            }
        },
        Some(f) => {
            out.push(1u8);
            put_fighter(out, f);
            proof {
                assert(final(out)@ =~= old(out)@ + enc_opt_fighter(Some(f@)));
            }
        },
    }
}

/// Append an optional AI tag.
pub fn put_opt_ai(out: &mut Vec<u8>, o: &Option<Ai>)
    ensures
        final(out)@ == old(out)@ + enc_opt_ai(*o),
{
    match o {
        None => out.push(0u8),
        Some(a) => {
            out.push(1u8);
            match a {
                Ai::Normal => out.push(0u8),
            }
        },
    }
    proof {
        assert(final(out)@ =~= old(out)@ + enc_opt_ai(*o));
    }
}

/// Append an optional item kind.
pub fn put_opt_item(out: &mut Vec<u8>, o: &Option<Item>)
    ensures
        final(out)@ == old(out)@ + enc_opt_item(*o),
{
    match o {
        None => out.push(0u8),
        Some(i) => {
            out.push(1u8);
            match i {
                Item::Heal => out.push(0u8),
                Item::Equipment => out.push(1u8),
            }
        },
    }
    proof {
        assert(final(out)@ =~= old(out)@ + enc_opt_item(*o));
    }
}

/// Append an optional equipment record.
pub fn put_opt_equipment(out: &mut Vec<u8>, o: &Option<Equipment>)
    ensures
        final(out)@ == old(out)@ + enc_opt_equipment(match o {
            Some(q) => Some(q@),
            None => None,
        }),
{
    match o {
        None => {
            out.push(0u8);
            proof {
                assert(final(out)@ =~= old(out)@ + enc_opt_equipment(None));
            }
        },
        Some(q) => {
            out.push(1u8);
            put_equipment(out, q);
            proof {
                assert(final(out)@ =~= old(out)@ + enc_opt_equipment(Some(q@)));
            }
        },
    }
}

/// Append a whole entity record.
pub fn put_entity(out: &mut Vec<u8>, e: &Entity)
    requires
        e.name@.len() <= u32::MAX,
    ensures
        final(out)@ == old(out)@ + enc_entity(e@),
{
    put_i32(out, e.x);
    put_i32(out, e.y);
    put_char(out, e.glyph);
    put_name(out, &e.name);
    put_bool(out, e.blocks);
    put_bool(out, e.alive);
    put_opt_fighter(out, &e.fighter);
    put_opt_ai(out, &e.ai);
    put_opt_item(out, &e.item);
    put_opt_equipment(out, &e.equipment);
    proof {
        let base = old(out)@;
        let v = e@;
        let a1 = enc_i32(v.x);
        let a2 = enc_i32(v.y);
        let a3 = enc_char(v.glyph);
        let a4 = enc_name(v.name);
        let a5 = enc_bool(v.blocks);
        let a6 = enc_bool(v.alive);
        let a7 = enc_opt_fighter(v.fighter);
        let a8 = enc_opt_ai(v.ai);
        let a9 = enc_opt_item(v.item);
        let a10 = enc_opt_equipment(v.equipment);
        let t9 = a9 + a10;
        let t8 = a8 + t9;
        let t7 = a7 + t8;
        let t6 = a6 + t7;
        let t5 = a5 + t6;
        let t4 = a4 + t5;
        let t3 = a3 + t4;
        let t2 = a2 + t3;
        vstd::seq_lib::lemma_concat_associative(
            base + a1 + a2 + a3 + a4 + a5 + a6 + a7 + a8,
            a9,
            a10,
        );
        vstd::seq_lib::lemma_concat_associative(base + a1 + a2 + a3 + a4 + a5 + a6 + a7, a8, t9);
        vstd::seq_lib::lemma_concat_associative(base + a1 + a2 + a3 + a4 + a5 + a6, a7, t8);
        vstd::seq_lib::lemma_concat_associative(base + a1 + a2 + a3 + a4 + a5, a6, t7);
        vstd::seq_lib::lemma_concat_associative(base + a1 + a2 + a3 + a4, a5, t6);
        vstd::seq_lib::lemma_concat_associative(base + a1 + a2 + a3, a4, t5);
        vstd::seq_lib::lemma_concat_associative(base + a1 + a2, a3, t4);
        vstd::seq_lib::lemma_concat_associative(base + a1, a2, t3);
        vstd::seq_lib::lemma_concat_associative(base, a1, t2);
    }
}

/// Read a whole entity record.
pub fn get_entity(bytes: &Vec<u8>, pos: usize) -> (r: Option<(Entity, usize)>)
    ensures
        parse_entity(bytes@, pos as int) is None ==> r is None,
        parse_entity(bytes@, pos as int) matches Some((ev, p2)) ==> (r matches Some((e, rp))
            && e@ == ev && rp == p2),
{
    let (x, p1) = match get_i32(bytes, pos) {
        Some(v) => v,
        None => {
            return None;
        },
    };
    let (y, p2) = match get_i32(bytes, p1) {
        Some(v) => v,
        None => {
            return None;
        },
    };
    let (glyph, p3) = match get_char(bytes, p2) {
        Some(v) => v,
        None => {
            return None;
        },
    };
    let (name, p4) = match get_name(bytes, p3) {
        Some(v) => v,
        None => {
            return None;
        },
    };
    let (blocks, p5) = match get_bool(bytes, p4) {
        Some(v) => v,
        None => {
            return None;
        },
    };
    let (alive, p6) = match get_bool(bytes, p5) {
        Some(v) => v,
        None => {
            return None;
        },
    };
    if p6 >= bytes.len() {
        return None;
    }
    let ftag = bytes[p6];
    let (fighter, p7) = if ftag == 0 {
        (None, p6 + 1)
    } else if ftag == 1 {
        match get_fighter(bytes, p6 + 1) {
            Some((f, pp)) => (Some(f), pp),
            None => {
                return None;
            },
        }
    } else {
        return None;
    };
    if p7 >= bytes.len() {
        return None;
    }
    let atag = bytes[p7];
    let (ai, p8) = if atag == 0 {
        (None, p7 + 1)
    } else if atag == 1 {
        if p7 + 1 >= bytes.len() {
            return None;
        }
        if bytes[p7 + 1] == 0 {
            (Some(Ai::Normal), p7 + 2)
        } else {
            return None;
        }
    } else {
        return None;
    };
    if p8 >= bytes.len() {
        return None;
    }
    let itag = bytes[p8];
    let (item, p9) = if itag == 0 {
        (None, p8 + 1)
    } else if itag == 1 {
        if p8 + 1 >= bytes.len() {
            return None;
        }
        let ib = bytes[p8 + 1];
        if ib == 0 {
            (Some(Item::Heal), p8 + 2)
        } else if ib == 1 {
            (Some(Item::Equipment), p8 + 2)
        } else {
            return None;
        }
    } else {
        return None;
    };
    if p9 >= bytes.len() {
        return None;
    }
    let qtag = bytes[p9];
    let (equipment, p10) = if qtag == 0 {
        (None, p9 + 1)
    } else if qtag == 1 {
        match get_equipment(bytes, p9 + 1) {
            Some((q, pp)) => (Some(q), pp),
            None => {
                return None;
            },
        }
    } else {
        return None;
    };
    Some((Entity { x, y, glyph, name, blocks, alive, fighter, ai, item, equipment }, p10))
}

/// Append a counted sequence of entity records.
pub fn put_entities(out: &mut Vec<u8>, es: &Vec<Entity>)
    requires
        es@.len() <= u32::MAX,
        forall|k: int| 0 <= k < es@.len() ==> (#[trigger] es@[k]).name@.len() <= u32::MAX,
    ensures
        final(out)@ == old(out)@ + enc_entities(views_of(es@)),
{
    put_u32(out, es.len() as u32);
    let ghost mid = out@;
    let mut i: usize = 0;
    while i < es.len()
        invariant
            i <= es@.len(),
            forall|k: int| 0 <= k < es@.len() ==> (#[trigger] es@[k]).name@.len() <= u32::MAX,
            out@ == mid + enc_entity_list(views_of(es@.take(i as int))),
        decreases es@.len() - i,
    {
        put_entity(out, &es[i]);
        proof {
            assert(views_of(es@.take(i + 1)) =~= views_of(es@.take(i as int)).push(es@[i as int]@));
            lemma_enc_entity_list_push(views_of(es@.take(i as int)), es@[i as int]@);
        }
        i = i + 1;
    }
    proof {
        assert(es@.take(es@.len() as int) =~= es@);
        assert(final(out)@ =~= old(out)@ + enc_entities(views_of(es@)));
    }
}

/// Read a counted sequence of entity records.
pub fn get_entities(bytes: &Vec<u8>, pos: usize) -> (r: Option<(Vec<Entity>, usize)>)
    ensures
        parse_entities(bytes@, pos as int) is None ==> r is None,
        parse_entities(bytes@, pos as int) matches Some((vs, p2)) ==> (r matches Some((es, rp))
            && views_of(es@) == vs && rp == p2),
{
    let (n, p1) = match get_u32(bytes, pos) {
        Some(x) => x,
        None => {
            return None;
        },
    };
    let mut acc: Vec<Entity> = Vec::new();
    let mut cur = p1;
    let mut i: u32 = 0;
    while i < n
        invariant
            i <= n,
            parse_entities(bytes@, pos as int) == parse_entity_list(bytes@, p1 as int, n as int),
            parse_entity_list(bytes@, p1 as int, n as int) == (match parse_entity_list(
                bytes@,
                cur as int,
                n as int - i,
            ) {
                Some((vs, pe)) => Some((views_of(acc@) + vs, pe)),
                None => None::<(Seq<EntityV>, int)>,
            }),
        decreases n - i,
    {
        match get_entity(bytes, cur) {
            Some((e, p2)) => {
                proof {
                    assert(parse_entity(bytes@, cur as int) == Some((e@, p2 as int)));
                }
                let ghost prev = acc@;
                acc.push(e);
                proof {
                    assert(parse_entity_list(bytes@, cur as int, n as int - i) == (match
                        parse_entity_list(bytes@, p2 as int, n as int - i - 1) {
                        Some((vs2, pe2)) => Some((seq![acc@[acc@.len() - 1]@] + vs2, pe2)),
                        None => None::<(Seq<EntityV>, int)>,
                    }));
                    assert(views_of(acc@) =~= views_of(prev).push(acc@[acc@.len() - 1]@));
                    match parse_entity_list(bytes@, p2 as int, n as int - i - 1) {
                        Some((vs2, pe2)) => {
                            assert(views_of(prev) + (seq![acc@[acc@.len() - 1]@] + vs2) =~= views_of(
                                prev,
                            ).push(acc@[acc@.len() - 1]@) + vs2);
                        },
                        None => {},
                    }
                }
                cur = p2;
            },
            None => {
                proof {
                    assert(parse_entity(bytes@, cur as int) is None);
                    assert(parse_entity_list(bytes@, cur as int, n as int - i) is None);
                }
                return None;
            },
        }
        i = i + 1;
    }
    proof {
        assert(parse_entity_list(bytes@, cur as int, 0) == Some(
            (Seq::<EntityV>::empty(), cur as int),
        ));
        assert(views_of(acc@) + Seq::<EntityV>::empty() =~= views_of(acc@));
    }
    Some((acc, cur))
}

/// Append one tile.
pub fn put_tile(out: &mut Vec<u8>, t: Tile)
    ensures
        final(out)@ == old(out)@ + enc_tile(t),
{
    put_bool(out, t.blocked);
    put_bool(out, t.block_sight);
    put_bool(out, t.stairs);
    proof {
        assert(final(out)@ =~= old(out)@ + enc_tile(t));
    }
}

/// Read one tile.
pub fn get_tile(bytes: &Vec<u8>, pos: usize) -> (r: Option<(Tile, usize)>)
    ensures
        parse_tile(bytes@, pos as int) is None ==> r is None,
        parse_tile(bytes@, pos as int) matches Some((t, p2)) ==> (r matches Some((rt, rp)) && rt
            == t && rp == p2),
{
    let (blocked, p1) = match get_bool(bytes, pos) {
        Some(x) => x,
        None => {
            return None;
        },
    };
    let (block_sight, p2) = match get_bool(bytes, p1) {
        Some(x) => x,
        None => {
            return None;
        },
    };
    let (stairs, p3) = match get_bool(bytes, p2) {
        Some(x) => x,
        None => {
            return None;
        },
    };
    Some((Tile { blocked, block_sight, stairs }, p3))
}

/// Append one map column.
pub fn put_col(out: &mut Vec<u8>, col: &Vec<Tile>)
    requires
        col@.len() == MAP_HEIGHT,
    ensures
        final(out)@ == old(out)@ + enc_tile_list(col@),
{
    let mut i: usize = 0;
    while i < col.len()
        invariant
            i <= col@.len(),
            out@ == old(out)@ + enc_tile_list(col@.take(i as int)),
        decreases col@.len() - i,
    {
        put_tile(out, col[i]);
        proof {
            assert(col@.take(i + 1) =~= col@.take(i as int).push(col@[i as int]));
            lemma_enc_tile_list_push(col@.take(i as int), col@[i as int]);
        }
        i = i + 1;
    }
    proof {
        assert(col@.take(col@.len() as int) =~= col@);
    }
}

/// Read one map column: its fixed number of tiles.
pub fn get_col(bytes: &Vec<u8>, pos: usize) -> (r: Option<(Vec<Tile>, usize)>)
    ensures
        parse_tile_list(bytes@, pos as int, MAP_HEIGHT as int) is None ==> r is None,
        parse_tile_list(bytes@, pos as int, MAP_HEIGHT as int) matches Some((ts, p2)) ==> (
        r matches Some((col, rp)) && col@ == ts && rp == p2),
        r matches Some((col, rp)) ==> col@.len() == MAP_HEIGHT,
{
    let mut acc: Vec<Tile> = Vec::new();
    let mut cur = pos;
    let mut i: usize = 0;
    while i < MAP_HEIGHT as usize
        invariant
            i <= MAP_HEIGHT,
            acc@.len() == i,
            parse_tile_list(bytes@, pos as int, MAP_HEIGHT as int) == (match parse_tile_list(
                bytes@,
                cur as int,
                MAP_HEIGHT as int - i,
            ) {
                Some((ts, pe)) => Some((acc@ + ts, pe)),
                None => None::<(Seq<Tile>, int)>,
            }),
        decreases MAP_HEIGHT - i,
    {
        match get_tile(bytes, cur) {
            Some((t, p2)) => {
                proof {
                    assert(parse_tile(bytes@, cur as int) == Some((t, p2 as int)));
                }
                let ghost prev = acc@;
                acc.push(t);
                proof {
                    assert(parse_tile_list(bytes@, cur as int, MAP_HEIGHT as int - i) == (match
                        parse_tile_list(bytes@, p2 as int, MAP_HEIGHT as int - i - 1) {
                        Some((ts2, pe2)) => Some((seq![t] + ts2, pe2)),
                        None => None::<(Seq<Tile>, int)>,
                    }));
                    match parse_tile_list(bytes@, p2 as int, MAP_HEIGHT as int - i - 1) {
                        Some((ts2, pe2)) => {
                            assert(prev + (seq![t] + ts2) =~= prev.push(t) + ts2);
                        },
                        None => {},
                    }
                }
                cur = p2;
            },
            None => {
                proof {
                    assert(parse_tile(bytes@, cur as int) is None);
                    assert(parse_tile_list(bytes@, cur as int, MAP_HEIGHT as int - i) is None);
                }
                return None;
            },
        }
        i = i + 1;
    }
    proof {
        assert(parse_tile_list(bytes@, cur as int, 0) == Some((Seq::<Tile>::empty(), cur as int)));
        assert(acc@ + Seq::<Tile>::empty() =~= acc@);
    }
    Some((acc, cur))
}

/// Append the whole map grid.
pub fn put_map(out: &mut Vec<u8>, m: &GameMap)
    requires
        m.wf(),
    ensures
        final(out)@ == old(out)@ + enc_map(cols_of(*m)),
{
    let mut x: usize = 0;
    while x < m.tiles.len()
        invariant
            m.wf(),
            x <= cols_of(*m).len(),
            m.tiles@.len() == cols_of(*m).len(),
            out@ == old(out)@ + enc_col_list(cols_of(*m).take(x as int)),
        decreases m.tiles@.len() - x,
    {
        put_col(out, &m.tiles[x]);
        proof {
            assert(cols_of(*m).take(x + 1) =~= cols_of(*m).take(x as int).push(
                cols_of(*m)[x as int],
            ));
            assert(cols_of(*m)[x as int] == m.tiles@[x as int]@);
            lemma_enc_col_list_push(cols_of(*m).take(x as int), cols_of(*m)[x as int]);
        }
        x = x + 1;
    }
    proof {
        assert(cols_of(*m).take(cols_of(*m).len() as int) =~= cols_of(*m));
    }
}

/// Read the whole map grid.
pub fn get_map(bytes: &Vec<u8>, pos: usize) -> (r: Option<(GameMap, usize)>)
    ensures
        parse_map(bytes@, pos as int) is None ==> r is None,
        parse_map(bytes@, pos as int) matches Some((cols, p2)) ==> (r matches Some((m, rp))
            && cols_of(m) == cols && m.wf() && rp == p2),
{
    let mut acc: Vec<Vec<Tile>> = Vec::new();
    let mut cur = pos;
    let mut x: usize = 0;
    while x < MAP_WIDTH as usize
        invariant
            x <= MAP_WIDTH,
            acc@.len() == x,
            forall|k: int| 0 <= k < x ==> (#[trigger] acc@[k])@.len() == MAP_HEIGHT,
            parse_map(bytes@, pos as int) == (match parse_col_list(
                bytes@,
                cur as int,
                MAP_WIDTH as int - x,
            ) {
                Some((cols, pe)) => Some((acc@.map_values(|c: Vec<Tile>| c@) + cols, pe)),
                None => None::<(Seq<Seq<Tile>>, int)>,
            }),
        decreases MAP_WIDTH - x,
    {
        match get_col(bytes, cur) {
            Some((col, p2)) => {
                proof {
                    assert(parse_tile_list(bytes@, cur as int, MAP_HEIGHT as int) == Some(
                        (col@, p2 as int),
                    ));
                }
                let ghost prev = acc@;
                acc.push(col);
                proof {
                    assert(parse_col_list(bytes@, cur as int, MAP_WIDTH as int - x) == (match
                        parse_col_list(bytes@, p2 as int, MAP_WIDTH as int - x - 1) {
                        Some((cols2, pe2)) => Some((seq![acc@[acc@.len() - 1]@] + cols2, pe2)),
                        None => None::<(Seq<Seq<Tile>>, int)>,
                    }));
                    assert(acc@.map_values(|c: Vec<Tile>| c@) =~= prev.map_values(
                        |c: Vec<Tile>| c@,
                    ).push(acc@[acc@.len() - 1]@));
                    match parse_col_list(bytes@, p2 as int, MAP_WIDTH as int - x - 1) {
                        Some((cols2, pe2)) => {
                            assert(prev.map_values(|c: Vec<Tile>| c@) + (seq![acc@[acc@.len() - 1]@]
                                + cols2) =~= prev.map_values(|c: Vec<Tile>| c@).push(
                                acc@[acc@.len() - 1]@,
                            ) + cols2);
                        },
                        None => {},
                    }
                }
                cur = p2;
            },
            None => {
                proof {
                    assert(parse_tile_list(bytes@, cur as int, MAP_HEIGHT as int) is None);
                    assert(parse_col_list(bytes@, cur as int, MAP_WIDTH as int - x) is None);
                }
                return None;
            },
        }
        x = x + 1;
    }
    let m = GameMap { tiles: acc };
    proof {
        assert(parse_col_list(bytes@, cur as int, 0) == Some(
            (Seq::<Seq<Tile>>::empty(), cur as int),
        ));
        assert(cols_of(m) + Seq::<Seq<Tile>>::empty() =~= cols_of(m));
    }
    Some((m, cur))
}

/// Encode a whole game state: the floor entities, then the map, the
/// inventory, and the dungeon level.
pub fn encode_save(entities: &Vec<Entity>, game: &Game) -> (out: Vec<u8>)
    requires
        wf_save(entities@, *game),
    ensures
        out@ == enc_save(entities@, *game),
{
    let mut out: Vec<u8> = Vec::new();
    proof {
        assert forall|k: int|
            0 <= k < entities@.len() implies (#[trigger] entities@[k]).name@.len()
            <= u32::MAX by {
            assert(wf_entity_v(views_of(entities@)[k]));
        }
        assert forall|k: int|
            0 <= k < game.inventory@.len() implies (#[trigger] game.inventory@[k]).name@.len()
            <= u32::MAX by {
            assert(wf_entity_v(views_of(game.inventory@)[k]));
        }
    }
    put_entities(&mut out, entities);
    put_map(&mut out, &game.map);
    put_entities(&mut out, &game.inventory);
    put_u32(&mut out, game.dungeon_level);
    proof {
        let a1 = enc_entities(views_of(entities@));
        let a2 = enc_map(cols_of(game.map));
        let a3 = enc_entities(views_of(game.inventory@));
        let a4 = enc_u32(game.dungeon_level);
        vstd::seq_lib::lemma_concat_associative(a1 + a2, a3, a4);
        vstd::seq_lib::lemma_concat_associative(a1, a2, a3 + a4);
        assert(Seq::<u8>::empty() + a1 =~= a1);
    }
    out
}

/// Decode a whole game state. Succeeds exactly on byte sequences that
/// parse as a save and are consumed completely, and then returns entities
/// and a game whose content is exactly what was parsed.
pub fn decode_save(bytes: &Vec<u8>) -> (r: Option<(Vec<Entity>, Game)>)
    ensures
        parse_save(bytes@, 0) is None ==> r is None,
        parse_save(bytes@, 0) matches Some(t) ==> {
            &&& (t.1 != bytes@.len() ==> r is None)
            &&& (t.1 == bytes@.len() ==> (r matches Some((es, g)) && views_of(es@) == t.0.floor
                && cols_of(g.map) == t.0.map && g.map.wf() && views_of(g.inventory@)
                == t.0.inventory && g.dungeon_level == t.0.dungeon_level))
        },
{
    let (floor, p1) = match get_entities(bytes, 0) {
        Some(x) => x,
        None => {
            return None;
        },
    };
    let (map, p2) = match get_map(bytes, p1) {
        Some(x) => x,
        None => {
            return None;
        },
    };
    let (inventory, p3) = match get_entities(bytes, p2) {
        Some(x) => x,
        None => {
            return None;
        },
    };
    let (dungeon_level, p4) = match get_u32(bytes, p3) {
        Some(x) => x,
        None => {
            return None;
        },
    };
    if p4 != bytes.len() {
        return None;
    }
    Some((floor, Game { map, inventory, dungeon_level }))
}

} // verus!
