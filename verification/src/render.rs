use vstd::prelude::*;

use vstd::string::{StrSliceExecFns, StringExecFns};

use crate::entity::Entity;
use crate::entity::Slot;
use crate::inventory::is_equipped;
use crate::seen::SeenSet;
use crate::tile::{GameMap, MAP_HEIGHT, MAP_WIDTH};

verus! {

/// Relies on `String::push`: it appends the given character to the end of
/// the string.
pub assume_specification[ String::push ](s: &mut String, c: char)
    ensures
        final(s)@ == old(s)@.push(c),
;

/// The decimal digits of `n`, most significant first.
pub open spec fn dec_digits(n: int) -> Seq<char>
    decreases n,
{
    if n < 10 {
        seq![digit_char(n)]
    } else {
        dec_digits(n / 10).push(digit_char(n % 10))
    }
}

/// The character for one decimal digit.
pub open spec fn digit_char(d: int) -> char {
    ((48 + d) as u8) as char
}

/// The decimal rendering of `v`: a minus sign for negative values, then
/// the digits.
pub open spec fn dec_str(v: int) -> Seq<char> {
    if v < 0 {
        seq!['-'] + dec_digits(-v)
    } else {
        dec_digits(v)
    }
}

/// Append the decimal digits of `n`.
fn push_digits(out: &mut String, n: u64)
    ensures
        final(out)@ == old(out)@ + dec_digits(n as int),
    decreases n,
{
    if n < 10 {
        out.push((48 + n as u8) as char);
    } else {
        push_digits(out, n / 10);
        out.push((48 + (n % 10) as u8) as char);
    }
    proof {
        assert(final(out)@ =~= old(out)@ + dec_digits(n as int));
    }
}

/// Append the decimal rendering of `v`.
pub fn push_i32(out: &mut String, v: i32)
    ensures
        final(out)@ == old(out)@ + dec_str(v as int),
{
    if v < 0 {
        out.push('-');
        push_digits(out, (-(v as i64)) as u64);
        proof {
            assert(final(out)@ =~= old(out)@ + dec_str(v as int));
        }
    } else {
        push_digits(out, v as u64);
    }
}

/// `map` with the character at column `x` of line `y` replaced by `glyph`,
/// counting lines and in-line characters from zero; line breaks and lines
/// too short to reach column `x` are left alone.
pub open spec fn overlay(s: Seq<char>, glyph: char, x: int, y: int) -> Seq<char> {
    overlay_go(s, glyph, x, y, 0, 0)
}

/// The overlay walk: `row` and `col` locate the next character of `s`.
pub open spec fn overlay_go(s: Seq<char>, glyph: char, x: int, y: int, row: int, col: int) -> Seq<
    char,
>
    decreases s.len(),
{
    if s.len() == 0 {
        Seq::empty()
    } else if s[0] == '\n' {
        seq!['\n'] + overlay_go(s.drop_first(), glyph, x, y, row + 1, 0)
    } else {
        seq![if row == y && col == x {
            glyph
        } else {
            s[0]
        }] + overlay_go(s.drop_first(), glyph, x, y, row, col + 1)
    }
}

impl Entity {
    /// Render this entity over an already rendered map: if its cell is
    /// visible, its glyph replaces the character at its position;
    /// otherwise the text is returned unchanged.
    pub fn draw(&self, map: &String, seen: &SeenSet) -> (r: String)
        ensures
            seen.sees(self@.x, self@.y) ==> r@ == overlay(map@, self@.glyph, self@.x, self@.y),
            !seen.sees(self@.x, self@.y) ==> r@ == map@,
    {
        if !seen.contains(self.x, self.y) {
            return String::from_str(map.as_str());
        }
        let s = map.as_str();
        let n = s.unicode_len();
        let mut out = String::new();
        let mut i: usize = 0;
        let mut row: u64 = 0;
        let mut col: u64 = 0;
        proof {
            assert(s@.subrange(0, n as int) =~= s@);
        }
        while i < n
            invariant
                i <= n,
                n == s@.len(),
                s@ == map@,
                row <= i,
                col <= i,
                overlay(map@, self@.glyph, self@.x, self@.y) == out@ + overlay_go(
                    s@.subrange(i as int, n as int),
                    self@.glyph,
                    self@.x,
                    self@.y,
                    row as int,
                    col as int,
                ),
            decreases n - i,
        {
            let c = s.get_char(i);
            proof {
                assert(s@.subrange(i as int, n as int).drop_first() =~= s@.subrange(
                    i as int + 1,
                    n as int,
                ));
            }
            if c == '\n' {
                out.push('\n');
                row = row + 1;
                col = 0;
            } else {
                let replace = self.x >= 0 && self.y >= 0 && row == self.y as u64 && col == self.x
                    as u64;
                if replace {
                    out.push(self.glyph);
                } else {
                    out.push(c);
                }
                col = col + 1;
            }
            i = i + 1;
        }
        proof {
            assert(s@.subrange(n as int, n as int) =~= Seq::<char>::empty());
            assert(out@ =~= overlay(map@, self@.glyph, self@.x, self@.y));
        }
        out
    }
}

/// The characters one map cell contributes to the rendered grid: hidden
/// cells print as a blank; visible stairs print their marker before the
/// terrain character; walls and floor print as themselves.
pub open spec fn cell_chars(m: GameMap, seen: &SeenSet, x: int, y: int) -> Seq<char> {
    if seen.sees(x, y) {
        (if m.tile_at(x, y).stairs {
            seq!['>']
        } else {
            Seq::empty()
        }) + seq![
            if m.tile_at(x, y).block_sight {
                '#'
            } else {
                '.'
            },
        ]
    } else {
        seq![' ']
    }
}

/// One rendered grid line from column `x` on, closed by a line break.
pub open spec fn row_chars_from(m: GameMap, seen: &SeenSet, y: int, x: int) -> Seq<char>
    decreases MAP_WIDTH - x when x <= MAP_WIDTH
{
    if x >= MAP_WIDTH {
        seq!['\n']
    } else {
        cell_chars(m, seen, x, y) + row_chars_from(m, seen, y, x + 1)
    }
}

/// The rendered grid from line `y` down.
pub open spec fn grid_from(m: GameMap, seen: &SeenSet, y: int) -> Seq<char>
    decreases MAP_HEIGHT - y when y <= MAP_HEIGHT
{
    if y >= MAP_HEIGHT {
        Seq::empty()
    } else {
        row_chars_from(m, seen, y, 0) + grid_from(m, seen, y + 1)
    }
}

/// The rendered grid: every line of the map, visibility applied.
pub open spec fn grid_string(m: GameMap, seen: &SeenSet) -> Seq<char> {
    grid_from(m, seen, 0)
}

/// The grid with the entities from index `k` on drawn over it, in order.
pub open spec fn draw_all_from(s: Seq<char>, es: Seq<Entity>, seen: &SeenSet, k: int) -> Seq<char>
    decreases es.len() - k when 0 <= k <= es.len()
{
    if k >= es.len() {
        s
    } else {
        let e = es[k];
        let s2 = if seen.sees(e@.x, e@.y) {
            overlay(s, e@.glyph, e@.x, e@.y)
        } else {
            s
        };
        draw_all_from(s2, es, seen, k + 1)
    }
}

/// Render one frame: the visible grid with every entity drawn over it.
pub fn render_all(entities: &Vec<Entity>, map: &GameMap, seen: &SeenSet) -> (r: String)
    requires
        map.wf(),
    ensures
        r@ == draw_all_from(grid_string(*map, seen), entities@, seen, 0),
{
    let mut out = String::new();
    let mut y: i32 = 0;
    while y < MAP_HEIGHT
        invariant
            0 <= y <= MAP_HEIGHT,
            map.wf(),
            grid_string(*map, seen) == out@ + grid_from(*map, seen, y as int),
        decreases MAP_HEIGHT - y,
    {
        let mut x: i32 = 0;
        while x < MAP_WIDTH
            invariant
                0 <= x <= MAP_WIDTH,
                0 <= y < MAP_HEIGHT,
                map.wf(),
                grid_string(*map, seen) == out@ + row_chars_from(*map, seen, y as int, x as int)
                    + grid_from(*map, seen, y as int + 1),
            decreases MAP_WIDTH - x,
        {
            if seen.contains(x, y) {
                let t = map.get(x, y);
                if t.stairs {
                    out.push('>');
                }
                if t.block_sight {
                    out.push('#');
                } else {
                    out.push('.');
                }
            } else {
                out.push(' ');
            }
            proof {
                assert(grid_string(*map, seen) =~= out@ + row_chars_from(
                    *map,
                    seen,
                    y as int,
                    x as int + 1,
                ) + grid_from(*map, seen, y as int + 1));
            }
            x = x + 1;
        }
        out.push('\n');
        proof {
            assert(grid_string(*map, seen) =~= out@ + grid_from(*map, seen, y as int + 1));
        }
        y = y + 1;
    }
    let mut k: usize = 0;
    let ghost base = out@;
    proof {
        assert(base == grid_string(*map, seen));
    }
    let mut s = out;
    while k < entities.len()
        invariant
            k <= entities@.len(),
            draw_all_from(grid_string(*map, seen), entities@, seen, 0) == draw_all_from(
                s@,
                entities@,
                seen,
                k as int,
            ),
        decreases entities@.len() - k,
    {
        s = entities[k].draw(&s, seen);
        k = k + 1;
    }
    s
}

/// A textual gauge: the label, a filled bar of `value` out of `max` scaled
/// to `total_width`, then the numbers themselves.
pub open spec fn bar_string(
    name: Seq<char>,
    total_width: int,
    value: int,
    max: int,
) -> Seq<char> {
    let bw = bar_width(total_width, value, max);
    name + repeat_char('\u{2588}', bw + 1) + (if total_width > bw {
        repeat_char(' ', total_width - bw + 1)
    } else {
        Seq::empty()
    }) + seq![' '] + dec_str(value) + seq!['\\'] + dec_str(max)
}

/// The filled width of the gauge: `value / max` of the total, truncated
/// towards zero.
pub open spec fn bar_width(total_width: int, value: int, max: int) -> int
    recommends
        max > 0,
        total_width >= 0,
{
    if value >= 0 {
        value * total_width / max
    } else {
        -((-value) * total_width / max)
    }
}

/// `n` copies of `c`; none for a non-positive count.
pub open spec fn repeat_char(c: char, n: int) -> Seq<char>
    decreases n,
{
    if n <= 0 {
        Seq::empty()
    } else {
        repeat_char(c, n - 1).push(c)
    }
}

/// Build the textual gauge for `value` out of `max`.
pub fn draw_bar(name: &str, total_width: i32, value: i32, max: i32) -> (r: String)
    requires
        max > 0,
        0 <= total_width <= 10000,
    ensures
        r@ == bar_string(name@, total_width as int, value as int, max as int),
{
    let mut s = String::from_str(name);
    proof {
        assert(0 <= (value as int) * (total_width as int) <= 0x8000_0000 * 10000 || 0 <= (-(
        value as int)) * (total_width as int) <= 0x8000_0000 * 10000) by (nonlinear_arith)
            requires
                -0x8000_0000 <= (value as int),
                (value as int) < 0x8000_0000,
                0 <= (total_width as int),
                (total_width as int) <= 10000,
        ;
        assert((value as int) >= 0 ==> 0 <= (value as int) * (total_width as int) <= 0x8000_0000
            * 10000) by (nonlinear_arith)
            requires
                -0x8000_0000 <= (value as int),
                (value as int) < 0x8000_0000,
                0 <= (total_width as int),
                (total_width as int) <= 10000,
        ;
        assert((value as int) < 0 ==> 0 <= (-(value as int)) * (total_width as int) <= 0x8000_0000
            * 10000) by (nonlinear_arith)
            requires
                -0x8000_0000 <= (value as int),
                (value as int) < 0x8000_0000,
                0 <= (total_width as int),
                (total_width as int) <= 10000,
        ;
    }
    let num: i64 = if value >= 0 {
        (value as i64) * (total_width as i64)
    } else {
        (-(value as i64)) * (total_width as i64)
    };
    let q: i64 = num / (max as i64);
    let bw: i64 = if value >= 0 {
        q
    } else {
        -q
    };
    proof {
        assert(bw == bar_width(total_width as int, value as int, max as int));
    }
    let mut filled: i64 = 0;
    while filled < bw + 1
        invariant
            0 <= filled,
            bw <= 0x8000_0000 * 10000,
            filled <= if bw + 1 > 0 {
                bw + 1
            } else {
                0
            },
            s@ == name@ + repeat_char('\u{2588}', filled as int),
        decreases bw + 1 - filled,
    {
        s.push('\u{2588}');
        filled = filled + 1;
    }
    if total_width as i64 > bw {
        let gap = total_width as i64 - bw + 1;
        let mut pad: i64 = 0;
        while pad < gap
            invariant
                0 <= pad <= gap,
                gap == total_width as i64 - bw + 1,
                bw <= 0x8000_0000 * 10000,
                -0x8000_0000 * 10000 <= bw,
                s@ == name@ + repeat_char('\u{2588}', if bw + 1 > 0 {
                    bw + 1
                } else {
                    0
                }) + repeat_char(' ', pad as int),
            decreases gap - pad,
        {
            s.push(' ');
            pad = pad + 1;
        }
    }
    s.push(' ');
    push_i32(&mut s, value);
    s.push('\\');
    push_i32(&mut s, max);
    proof {
        assert(s@ =~= bar_string(name@, total_width as int, value as int, max as int));
    }
    s
}

/// The display name of an equipment slot.
pub open spec fn slot_name_spec(s: Slot) -> Seq<char> {
    match s {
        Slot::LeftHand => "left hand"@,
        Slot::RightHand => "right hand"@,
        Slot::Head => "head"@,
    }
}

impl Slot {
    /// The slot's display name.
    pub fn display_name(&self) -> (r: String)
        ensures
            r@ == slot_name_spec(*self),
    {
        match self {
            Slot::LeftHand => String::from_str("left hand"),
            Slot::RightHand => String::from_str("right hand"),
            Slot::Head => String::from_str("head"),
        }
    }
}

/// The menu label of one inventory entry: its name, annotated with the
/// slot it is worn on.
pub open spec fn label_of(e: Entity) -> Seq<char> {
    if is_equipped(e) {
        e.name@ + " (on "@ + slot_name_spec(e.equipment->0.slot) + ")"@
    } else {
        e.name@
    }
}

/// The menu labels for the whole inventory, in order.
pub fn inventory_labels(inventory: &Vec<Entity>) -> (r: Vec<String>)
    ensures
        r@.len() == inventory@.len(),
        forall|k: int| 0 <= k < inventory@.len() ==> (#[trigger] r@[k])@ == label_of(inventory@[k]),
{
    let mut r: Vec<String> = Vec::new();
    let mut i: usize = 0;
    while i < inventory.len()
        invariant
            i <= inventory@.len(),
            r@.len() == i,
            forall|k: int| 0 <= k < i ==> (#[trigger] r@[k])@ == label_of(inventory@[k]),
        decreases inventory@.len() - i,
    {
        let e = &inventory[i];
        let mut worn = false;
        if let Some(q) = e.equipment {
            if q.equipped {
                worn = true;
            }
        }
        if worn {
            let mut label = e.name.clone();
            label.append(" (on ");
            let slot = match e.equipment {
                Some(q) => q.slot,
                None => Slot::LeftHand,
            };
            let sn = slot.display_name();
            label.append(sn.as_str());
            label.append(")");
            r.push(label);
        } else {
            r.push(e.name.clone());
        }
        i = i + 1;
    }
    r
}

/// The inventory index a menu letter selects, if it lies within the menu.
pub fn menu_index(c: char, option_count: usize) -> (r: Option<usize>)
    ensures
        'a' <= c && (c as int) - ('a' as int) < option_count ==> r == Some(
            ((c as int) - ('a' as int)) as usize,
        ),
        !('a' <= c && (c as int) - ('a' as int) < option_count) ==> r is None,
{
    let code = c as u32;
    let base = 'a' as u32;
    if code >= base {
        let idx = (code - base) as usize;
        if idx < option_count {
            return Some(idx);
        }
    }
    None
}

} // verus!
