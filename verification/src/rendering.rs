//! The arithmetic behind drawing: number widths and digits, instruction
//! bullets, and the seeds that scramble gem colors while the game is paused.

use vstd::prelude::*;

use vstd::string::StrSliceExecFns;

use crate::blocks::block::{fmix64, gem_at, Gem, GemBlock, GEM_COUNT};
use crate::blocks::column::Column;
use crate::blocks::pile::cell_of;
use crate::game_state::GameState;

verus! {

/// Smallest terminal width, in columns, that the game is drawn in.
pub const MIN_WINDOW_WIDTH: u16 = 29;
/// Smallest terminal height, in rows, that the game is drawn in.
pub const MIN_WINDOW_HEIGHT: u16 = 27;

// -----------------------------------------------------------------------------
// Decimal numbers
// -----------------------------------------------------------------------------

/// Number of decimal digits of `value`.
pub open spec fn decimal_len(value: nat) -> nat
    decreases value,
{
    if value < 10 {
        1
    } else {
        1 + decimal_len(value / 10)
    }
}

/// The ASCII decimal digits of `value`, most significant first, with no
/// leading zero.
pub open spec fn decimal_repr(value: nat) -> Seq<u8>
    decreases value,
{
    if value < 10 {
        seq![(48 + value) as u8]
    } else {
        decimal_repr(value / 10).push((48 + value % 10) as u8)
    }
}

/// The written form of a number is as long as its digit count.
pub proof fn lemma_decimal_repr_len(value: nat)
    ensures
        decimal_repr(value).len() == decimal_len(value),
    decreases value,
{
    if value >= 10 {
        lemma_decimal_repr_len(value / 10);
    }
}

/// Number of decimal digits of `value`: the columns it takes when drawn.
pub fn decimal_width(value: u32) -> (width: u16)
    ensures
        width == decimal_len(value as nat),
        1 <= width <= 10,
{
    let ghost original = value;
    proof {
        lemma_decimal_len_bound(original as nat);
    }
    let mut value = value;
    let mut width: u16 = 1;
    while value >= 10
        invariant
            width + decimal_len(value as nat) == decimal_len(original as nat) + 1,
            1 <= decimal_len(original as nat) <= 10,
            1 <= width,
        decreases value,
    {
        value = value / 10;
        width = width + 1;
    }
    width
}

/// A 32-bit number has at most ten digits.
pub proof fn lemma_decimal_len_bound(value: nat)
    requires
        value <= u32::MAX,
    ensures
        1 <= decimal_len(value) <= 10,
{
    reveal_with_fuel(decimal_len, 11);
}

/// The ASCII decimal digits of `value`, as they are drawn.
pub fn decimal_text(value: u32) -> (digits: Vec<u8>)
    ensures
        digits@ == decimal_repr(value as nat),
    decreases value,
{
    if value < 10 {
        let digit: u8 = 48u8 + (value as u8);
        let mut digits: Vec<u8> = Vec::new();
        digits.push(digit);
        digits
    } else {
        let mut digits = decimal_text(value / 10);
        let digit: u8 = 48u8 + ((value % 10) as u8);
        digits.push(digit);
        digits
    }
}

// -----------------------------------------------------------------------------
// Instruction bullets
// -----------------------------------------------------------------------------

/// The six bullets of the instructions page, for terminals that draw emoji.
pub const EMOJI_BULLETS: &'static str = "👉✨🎯🚀🔧📬";

/// Number of bullets of the instructions page.
pub const NUM_BULLETS: usize = 6;

/// The emoji bullet at position `index`.
pub open spec fn emoji_bullet_char(index: int) -> char {
    if index == 0 {
        '👉'
    } else if index == 1 {
        '✨'
    } else if index == 2 {
        '🎯'
    } else if index == 3 {
        '🚀'
    } else if index == 4 {
        '🔧'
    } else {
        '📬'
    }
}

/// The emoji bullet at position `index` of `EMOJI_BULLETS`.
pub fn emoji_bullet(index: usize) -> (bullet: &'static str)
    requires
        index < NUM_BULLETS,
    ensures
        bullet@ == seq![emoji_bullet_char(index as int)],
{
    proof {
        reveal_strlit("👉✨🎯🚀🔧📬");
    }
    let bullet = EMOJI_BULLETS.substring_char(index, index + 1);
    proof {
        assert(bullet@ =~= seq![emoji_bullet_char(index as int)]);
    }
    bullet
}

/// The gem drawn as the bullet at position `index`, for terminals without
/// emoji.
pub open spec fn gem_bullet_at(index: int) -> Gem {
    if index == 0 {
        Gem::Amethyst
    } else if index == 1 {
        Gem::Ruby
    } else if index == 2 {
        Gem::Amber
    } else if index == 3 {
        Gem::Topaz
    } else if index == 4 {
        Gem::Emerald
    } else {
        Gem::Sapphire
    }
}

/// The gem drawn as the bullet at position `index`.
pub fn gem_bullet(index: usize) -> (gem: Gem)
    requires
        index < NUM_BULLETS,
    ensures
        gem == gem_bullet_at(index as int),
{
    match index {
        0 => Gem::Amethyst,
        1 => Gem::Ruby,
        2 => Gem::Amber,
        3 => Gem::Topaz,
        4 => Gem::Emerald,
        _ => Gem::Sapphire,
    }
}

// -----------------------------------------------------------------------------
// Seeds for scrambling gem colors
// -----------------------------------------------------------------------------

/// The seed that packs a kind flag, a tick and a position into one word:
/// bits 48..64 hold the flag, 32..48 the tick, 16..32 `y` and 0..16 `x`.
pub open spec fn packed_seed(flag: u64, tick: u64, y: u64, x: u64) -> u64 {
    (flag << 48u64) | (tick << 32u64) | (y << 16u64) | x
}

/// Packs a kind flag, a tick and a position into one seed. Bits of `tick`
/// beyond 16 overlap the flag, as the packing is a plain shift and `or`.
pub fn generate_seed(flag: u64, tick: u64, y: u64, x: u64) -> (seed: u64)
    ensures
        seed == packed_seed(flag, tick, y, x),
{
    (flag << 48u64) | (tick << 32u64) | (y << 16u64) | x
}

/// Where every part fits in its 16 bits, each part can be read back from the
/// seed.
pub proof fn lemma_packed_seed_fields(flag: u64, tick: u64, y: u64, x: u64)
    requires
        flag < 0x10000,
        tick < 0x10000,
        y < 0x10000,
        x < 0x10000,
    ensures
        packed_seed(flag, tick, y, x) >> 48u64 == flag,
        (packed_seed(flag, tick, y, x) >> 32u64) & 0xffffu64 == tick,
        (packed_seed(flag, tick, y, x) >> 16u64) & 0xffffu64 == y,
        packed_seed(flag, tick, y, x) & 0xffffu64 == x,
{
    assert(((flag << 48u64) | (tick << 32u64) | (y << 16u64) | x) >> 48u64 == flag
        && (((flag << 48u64) | (tick << 32u64) | (y << 16u64) | x) >> 32u64) & 0xffffu64 == tick
        && (((flag << 48u64) | (tick << 32u64) | (y << 16u64) | x) >> 16u64) & 0xffffu64 == y
        && ((flag << 48u64) | (tick << 32u64) | (y << 16u64) | x) & 0xffffu64 == x) by (bit_vector)
        requires
            flag < 0x10000,
            tick < 0x10000,
            y < 0x10000,
            x < 0x10000,
    ;
}

/// Seeds made of 16-bit parts are equal only where all their parts are: the
/// packing gives each kind, tick and position a seed of its own.
pub proof fn lemma_packed_seed_injective(
    flag1: u64,
    tick1: u64,
    y1: u64,
    x1: u64,
    flag2: u64,
    tick2: u64,
    y2: u64,
    x2: u64,
)
    requires
        flag1 < 0x10000,
        tick1 < 0x10000,
        y1 < 0x10000,
        x1 < 0x10000,
        flag2 < 0x10000,
        tick2 < 0x10000,
        y2 < 0x10000,
        x2 < 0x10000,
        packed_seed(flag1, tick1, y1, x1) == packed_seed(flag2, tick2, y2, x2),
    ensures
        flag1 == flag2,
        tick1 == tick2,
        y1 == y2,
        x1 == x2,
{
    lemma_packed_seed_fields(flag1, tick1, y1, x1);
    lemma_packed_seed_fields(flag2, tick2, y2, x2);
}

/// Absolute value of a row, as the seeds use it.
pub open spec fn row_magnitude(y: i8) -> u64 {
    if y < 0 {
        (-(y as int)) as u64
    } else {
        y as u64
    }
}

/// Absolute value of a row.
fn unsigned_row(y: i8) -> (m: u64)
    ensures
        m == row_magnitude(y),
{
    if y < 0 {
        let widened: i16 = y as i16;
        (-widened) as u64
    } else {
        y as u64
    }
}

/// Seed for a block of the next column while paused (flag 1).
pub fn seed_for_randomizing_next_column_blocks(tick: u64, x: u8, y: i8) -> (seed: u64)
    ensures
        seed == packed_seed(1, tick, row_magnitude(y), x as u64),
{
    generate_seed(1, tick, unsigned_row(y), x as u64)
}

/// Seed for a block of the falling column while paused (flag 2).
pub fn seed_for_randomizing_falling_column_blocks(tick: u64, x: u8, y: i8) -> (seed: u64)
    ensures
        seed == packed_seed(2, tick, row_magnitude(y), x as u64),
{
    generate_seed(2, tick, unsigned_row(y), x as u64)
}

/// Seed for a gem of the pile while paused (flag 3).
pub fn seed_for_randomizing_pile_blocks(tick: u64, x: u8, y: u8) -> (seed: u64)
    ensures
        seed == packed_seed(3, tick, y as u64, x as u64),
{
    generate_seed(3, tick, y as u64, x as u64)
}

// -----------------------------------------------------------------------------
// Screen areas
// -----------------------------------------------------------------------------

/// A rectangle of terminal cells.
#[derive(Copy, Clone, Debug, PartialEq, Eq, Structural)]
pub struct Area {
    pub x: u16,
    pub y: u16,
    pub width: u16,
    pub height: u16,
}

impl Area {
    /// An area with the given corner and size.
    pub fn new(x: u16, y: u16, width: u16, height: u16) -> (area: Area)
        ensures
            area == (Area { x, y, width, height }),
    {
        Area { x, y, width, height }
    }
}

/// Whether a terminal of this size is too small to draw the game in.
pub fn is_terminal_window_too_small(width: u16, height: u16) -> (too_small: bool)
    ensures
        too_small == (width < MIN_WINDOW_WIDTH || height < MIN_WINDOW_HEIGHT),
{
    width < MIN_WINDOW_WIDTH || height < MIN_WINDOW_HEIGHT
}

/// The areas that the screen is laid out in.
#[derive(Copy, Clone, Debug)]
pub struct LayoutAreas {
    pub level: Area,
    pub message: Area,
    pub next_column: Area,
    pub stats: Area,
    pub board: Area,
    pub keys_legend: Area,
    pub instructions: Area,
}

/// Width of the column of the screen that the game is drawn in.
pub const GAME_COLUMN_WIDTH: u16 = 29;

/// Height of the part of that column that holds the game itself.
pub const GAME_AREA_HEIGHT: u16 = 18;

/// The layout of a frame: a game column 29 cells wide at the frame's left,
/// padded by one cell, with the level and message rows on top, the next column
/// and the stats at the left, the board at the right, and the keys legend
/// below.
pub open spec fn layout_of(frame: Area) -> LayoutAreas {
    let px = frame.x + 1;
    let py = frame.y + 1;
    let pw = GAME_COLUMN_WIDTH - 2;
    let ph = frame.height - 2;
    LayoutAreas {
        level: Area { x: (px + 1) as u16, y: py as u16, width: pw as u16, height: 1 },
        message: Area { x: (px - 1) as u16, y: (py + 1) as u16, width: pw as u16, height: 2 },
        next_column: Area { x: px as u16, y: (py + 4) as u16, width: 11, height: 3 },
        stats: Area { x: (px + 1) as u16, y: (py + 8) as u16, width: 11, height: 11 },
        board: Area { x: (px + 13) as u16, y: (py + 3) as u16, width: (pw - 13) as u16, height: 15 },
        keys_legend: Area { x: px as u16, y: (py + 19) as u16, width: pw as u16, height: (ph - 19) as u16 },
        instructions: Area { x: frame.x, y: frame.y, width: GAME_COLUMN_WIDTH, height: frame.height },
    }
}

/// Lays out a frame that is large enough to play in.
pub fn get_layout_areas(frame: Area) -> (areas: LayoutAreas)
    requires
        frame.height >= 21,
        frame.x + GAME_COLUMN_WIDTH <= u16::MAX,
        frame.y + frame.height <= u16::MAX,
    ensures
        areas == layout_of(frame),
{
    let entire_area = Area { x: frame.x, y: frame.y, width: GAME_COLUMN_WIDTH, height: frame.height };
    let padded = Area {
        x: entire_area.x + 1,
        y: entire_area.y + 1,
        width: entire_area.width - 2,
        height: entire_area.height - 2,
    };
    let game_column = Area { x: padded.x, y: padded.y, width: padded.width, height: GAME_AREA_HEIGHT };
    let game_area = Area {
        x: game_column.x,
        y: game_column.y + 3,
        width: game_column.width,
        height: game_column.height - 3,
    };
    let left_side = Area { x: game_area.x, y: game_area.y, width: 11, height: game_area.height };
    LayoutAreas {
        level: Area { x: game_column.x + 1, y: game_column.y, width: game_column.width, height: 1 },
        message: Area { x: game_column.x - 1, y: game_column.y + 1, width: game_column.width, height: 2 },
        next_column: Area { x: left_side.x, y: left_side.y + 1, width: left_side.width, height: 3 },
        stats: Area {
            x: left_side.x + 1,
            y: left_side.y + 5,
            width: left_side.width,
            height: left_side.height - 4,
        },
        board: Area { x: game_area.x + 13, y: game_area.y, width: game_area.width - 13, height: game_area.height },
        keys_legend: Area { x: padded.x, y: padded.y + 19, width: padded.width, height: padded.height - 19 },
        instructions: entire_area,
    }
}

/// The column where text of `text_len` cells starts when centered in `area`;
/// text wider than the area is cut to its width.
pub open spec fn centered_x(area: Area, text_len: nat) -> int {
    let width = if text_len < area.width { text_len } else { area.width as nat };
    area.x + (area.width - width) / 2
}

/// The column where centered text starts.
pub fn centered_text_x(area: Area, text_len: usize) -> (x: u16)
    requires
        area.x + area.width <= u16::MAX,
    ensures
        x == centered_x(area, text_len as nat),
{
    let width: u16 = if text_len < area.width as usize { text_len as u16 } else { area.width };
    area.x + (area.width - width) / 2
}

/// The column where text of `text_len` cells starts when aligned to the right
/// edge of `area`; text wider than the area is cut to its width.
pub open spec fn right_aligned_x(area: Area, text_len: nat) -> int {
    let width = if text_len < area.width { text_len } else { area.width as nat };
    area.x + area.width - width
}

/// The column where right-aligned text starts.
pub fn right_aligned_text_x(area: Area, text_len: usize) -> (x: u16)
    requires
        area.x + area.width <= u16::MAX,
    ensures
        x == right_aligned_x(area, text_len as nat),
{
    let width: u16 = if text_len < area.width as usize { text_len as u16 } else { area.width };
    area.x + area.width - width
}

// -----------------------------------------------------------------------------
// Wrapping text into centered lines
// -----------------------------------------------------------------------------

/// ASCII whitespace as `u8::is_ascii_whitespace` has it: space, tab, line
/// feed, form feed and carriage return.
pub open spec fn is_ascii_ws(b: u8) -> bool {
    b == 32 || b == 9 || b == 10 || b == 12 || b == 13
}

/// The first index from `i` on that holds no whitespace (or the end).
pub open spec fn skip_ws(b: Seq<u8>, i: int) -> int
    decreases b.len() - i,
{
    if 0 <= i < b.len() && is_ascii_ws(b[i]) {
        skip_ws(b, i + 1)
    } else {
        i
    }
}

/// The last index in `lo..hi` that holds whitespace, or `lo - 1` where none
/// does.
pub open spec fn last_ws_before(b: Seq<u8>, lo: int, hi: int) -> int
    decreases hi - lo,
{
    if hi <= lo {
        lo - 1
    } else if is_ascii_ws(b[hi - 1]) {
        hi - 1
    } else {
        last_ws_before(b, lo, hi - 1)
    }
}

/// The end of `lo..hi` once trailing whitespace is dropped.
pub open spec fn trim_back(b: Seq<u8>, lo: int, hi: int) -> int
    decreases hi - lo,
{
    if hi > lo && is_ascii_ws(b[hi - 1]) {
        trim_back(b, lo, hi - 1)
    } else {
        hi
    }
}

/// Where the line that starts at `start` ends: at most `width` bytes; where the
/// text goes on past that, the line breaks at its last whitespace (unless that
/// is its first byte); trailing whitespace is dropped; and a line that would
/// come out empty is cut hard at `width`.
pub open spec fn wrap_line_end(b: Seq<u8>, start: int, width: int) -> int {
    let limit = if start + width < b.len() { start + width } else { b.len() as int };
    let brk = last_ws_before(b, start, limit);
    let broken = if limit < b.len() && brk > start { brk } else { limit };
    let trimmed = trim_back(b, start, broken);
    if trimmed == start {
        limit
    } else {
        trimmed
    }
}

/// The lines, as byte ranges, that text is wrapped into from `start` on, at
/// most `n` of them: each starts past leading whitespace, and wrapping stops
/// where only whitespace is left.
pub open spec fn wrapped_lines(b: Seq<u8>, start: int, width: int, n: nat) -> Seq<(int, int)>
    decreases n,
{
    if n == 0 {
        Seq::empty()
    } else {
        let s = skip_ws(b, start);
        if s >= b.len() {
            Seq::empty()
        } else {
            let e = wrap_line_end(b, s, width);
            seq![(s, e)] + wrapped_lines(b, e, width, (n - 1) as nat)
        }
    }
}

fn is_ascii_whitespace_byte(b: u8) -> (r: bool)
    ensures
        r == is_ascii_ws(b),
{
    b == 32 || b == 9 || b == 10 || b == 12 || b == 13
}

fn skip_whitespace(b: &[u8], i: usize) -> (r: usize)
    requires
        i <= b@.len(),
    ensures
        r == skip_ws(b@, i as int),
        i <= r <= b@.len(),
{
    let mut j = i;
    while j < b.len() && is_ascii_whitespace_byte(b[j])
        invariant
            i <= j <= b@.len(),
            skip_ws(b@, j as int) == skip_ws(b@, i as int),
        decreases b@.len() - j,
    {
        j = j + 1;
    }
    j
}

fn last_whitespace_before(b: &[u8], lo: usize, hi: usize) -> (r: Option<usize>)
    requires
        lo <= hi <= b@.len(),
    ensures
        match r {
            Some(j) => j as int == last_ws_before(b@, lo as int, hi as int) && lo <= j < hi,
            None => last_ws_before(b@, lo as int, hi as int) == lo - 1,
        },
{
    let mut j = hi;
    while j > lo
        invariant
            lo <= j <= hi <= b@.len(),
            last_ws_before(b@, lo as int, j as int) == last_ws_before(b@, lo as int, hi as int),
        decreases j,
    {
        if is_ascii_whitespace_byte(b[j - 1]) {
            return Some(j - 1);
        }
        j = j - 1;
    }
    None
}

fn trim_whitespace_back(b: &[u8], lo: usize, hi: usize) -> (r: usize)
    requires
        lo <= hi <= b@.len(),
    ensures
        r == trim_back(b@, lo as int, hi as int),
        lo <= r <= hi,
{
    let mut j = hi;
    while j > lo && is_ascii_whitespace_byte(b[j - 1])
        invariant
            lo <= j <= hi <= b@.len(),
            trim_back(b@, lo as int, j as int) == trim_back(b@, lo as int, hi as int),
        decreases j,
    {
        j = j - 1;
    }
    j
}

/// Where the line that starts at `start` ends.
fn line_end(b: &[u8], start: usize, width: u16) -> (end: usize)
    requires
        start < b@.len(),
        width > 0,
    ensures
        end == wrap_line_end(b@, start as int, width as int),
        start < end <= b@.len(),
{
    let limit: usize = if (width as usize) < b.len() - start { start + width as usize } else { b.len() };
    let mut broken = limit;
    if limit < b.len() {
        match last_whitespace_before(b, start, limit) {
            Some(brk) => {
                if brk > start {
                    broken = brk;
                }
            },
            None => {},
        }
    }
    let trimmed = trim_whitespace_back(b, start, broken);
    if trimmed == start {
        limit
    } else {
        trimmed
    }
}

/// The byte ranges of the lines that `text` is wrapped into for an area
/// `width` cells wide, at most `max_lines` of them; none where the width is 0.
/// Each line is drawn centered on a row of its own.
pub fn wrap_text(text: &[u8], width: u16, max_lines: u16) -> (lines: Vec<(usize, usize)>)
    ensures
        width == 0 ==> lines@.len() == 0,
        width > 0 ==> {
            let expected = wrapped_lines(text@, 0, width as int, max_lines as nat);
            &&& lines@.len() == expected.len()
            &&& forall|i: int|
                0 <= i < expected.len() ==> (#[trigger] lines@[i]).0 == expected[i].0 && lines@[i].1
                    == expected[i].1
        },
{
    let mut lines: Vec<(usize, usize)> = Vec::new();
    if width == 0 {
        return lines;
    }
    let ghost b = text@;
    let mut start: usize = 0;
    let mut left: u16 = max_lines;
    while left > 0
        invariant
            b == text@,
            width > 0,
            start <= b.len(),
            left <= max_lines,
            wrapped_lines(b, 0, width as int, max_lines as nat) == lines@.map_values(
                |p: (usize, usize)| (p.0 as int, p.1 as int),
            ) + wrapped_lines(b, start as int, width as int, left as nat),
        ensures
            b == text@,
            wrapped_lines(b, 0, width as int, max_lines as nat) == lines@.map_values(
                |p: (usize, usize)| (p.0 as int, p.1 as int),
            ),
        decreases left,
    {
        let s = skip_whitespace(text, start);
        if s >= text.len() {
            break;
        }
        let e = line_end(text, s, width);
        proof {
            assert(wrapped_lines(b, start as int, width as int, left as nat) == seq![(s as int, e as int)]
                + wrapped_lines(b, e as int, width as int, (left - 1) as nat));
        }
        let ghost before = lines@;
        lines.push((s, e));
        proof {
            assert(lines@.map_values(|p: (usize, usize)| (p.0 as int, p.1 as int)) =~= before.map_values(
                |p: (usize, usize)| (p.0 as int, p.1 as int),
            ) + seq![(s as int, e as int)]);
        }
        start = e;
        left = left - 1;
    }
    proof {
        let expected = wrapped_lines(b, 0, width as int, max_lines as nat);
        let mapped = lines@.map_values(|p: (usize, usize)| (p.0 as int, p.1 as int));
        assert(expected =~= mapped);
        assert forall|i: int| 0 <= i < expected.len() implies (#[trigger] lines@[i]).0 == expected[i].0
            && lines@[i].1 == expected[i].1 by {
            assert(mapped[i] == (lines@[i].0 as int, lines@[i].1 as int));
        }
    }
    lines
}

// -----------------------------------------------------------------------------
// Terminal dimensions, centered
// -----------------------------------------------------------------------------

/// Where a "prefix first x second" line is drawn.
#[derive(Copy, Clone, Debug, PartialEq, Eq, Structural)]
pub struct DimensionsPlacement {
    /// Column and row of the prefix.
    pub prefix_x: u16,
    pub prefix_y: u16,
    /// How many bytes of the prefix are drawn.
    pub prefix_len: usize,
    /// Row of the numbers, and the columns of the first number, of the `x`
    /// between them and of the second number.
    pub numbers_y: u16,
    pub first_x: u16,
    pub times_x: u16,
    pub second_x: u16,
    /// The row below what was drawn.
    pub next_y: u16,
}

/// The placement of "prefix first x second" centered in `area` from row `y`:
/// on one row where it fits; else the prefix, without its trailing
/// whitespace, centered on row `y` and the numbers centered on the next row.
pub open spec fn dimensions_placement(
    area: Area,
    y: u16,
    prefix: Seq<u8>,
    first: u32,
    second: u32,
) -> DimensionsPlacement {
    let dims = decimal_len(first as nat) + 1 + decimal_len(second as nat);
    let full = prefix.len() + dims;
    if full <= area.width {
        let x = area.x + (area.width - full) / 2;
        let first_x = x + prefix.len();
        DimensionsPlacement {
            prefix_x: x as u16,
            prefix_y: y,
            prefix_len: prefix.len() as usize,
            numbers_y: y,
            first_x: first_x as u16,
            times_x: (first_x + decimal_len(first as nat)) as u16,
            second_x: (first_x + decimal_len(first as nat) + 1) as u16,
            next_y: (y + 1) as u16,
        }
    } else {
        let label = trim_back(prefix, 0, prefix.len() as int);
        let label_x = area.x + (if label <= area.width { area.width - label } else { 0 }) / 2;
        let first_x = area.x + (if dims <= area.width { area.width - dims } else { 0 }) / 2;
        DimensionsPlacement {
            prefix_x: label_x as u16,
            prefix_y: y,
            prefix_len: label as usize,
            numbers_y: (y + 1) as u16,
            first_x: first_x as u16,
            times_x: (first_x + decimal_len(first as nat)) as u16,
            second_x: (first_x + decimal_len(first as nat) + 1) as u16,
            next_y: (y + 2) as u16,
        }
    }
}

/// Places "prefix first x second" centered in `area` from row `y`.
pub fn place_dimensions_centered(
    area: Area,
    y: u16,
    prefix: &[u8],
    first: u32,
    second: u32,
) -> (placement: DimensionsPlacement)
    requires
        area.x + area.width + prefix@.len() + 21 <= u16::MAX,
        y + 2 <= u16::MAX,
    ensures
        placement == dimensions_placement(area, y, prefix@, first, second),
{
    let prefix_width: u16 = prefix.len() as u16;
    let first_width = decimal_width(first);
    let dims_width: u16 = first_width + 1 + decimal_width(second);
    let full_width: u16 = prefix_width + dims_width;
    if full_width <= area.width {
        let x: u16 = area.x + (area.width - full_width) / 2;
        let first_x: u16 = x + prefix_width;
        DimensionsPlacement {
            prefix_x: x,
            prefix_y: y,
            prefix_len: prefix.len(),
            numbers_y: y,
            first_x,
            times_x: first_x + first_width,
            second_x: first_x + first_width + 1,
            next_y: y + 1,
        }
    } else {
        let label = trim_whitespace_back(prefix, 0, prefix.len());
        let label_width: u16 = label as u16;
        let label_x: u16 = area.x + area.width.saturating_sub(label_width) / 2;
        let first_x: u16 = area.x + area.width.saturating_sub(dims_width) / 2;
        DimensionsPlacement {
            prefix_x: label_x,
            prefix_y: y,
            prefix_len: label,
            numbers_y: y + 1,
            first_x,
            times_x: first_x + first_width,
            second_x: first_x + first_width + 1,
            next_y: y + 2,
        }
    }
}

// -----------------------------------------------------------------------------
// The instructions page
// -----------------------------------------------------------------------------

/// The text of the instructions page. A line that starts with `@` is drawn
/// after a bullet, without the `@`.
pub const INSTRUCTIONS: &'static str = "@Gain points by\nmatching colors in all\nfour directions.\n\n@The more blocks\nmatched in a line, the\nmore points you earn.\n\n@Multiple matches\nmultiply gained points.\n\n@Sequential, cascading\nmatches earn huge\nbonuses.\n\n--\n@Created by Rade Drmic\n@rdrmic@gmail.com";

/// One row of the instructions page: the byte range of its text, and the
/// bullet drawn before it, counted from 0, where it has one.
#[derive(Copy, Clone, Debug, PartialEq, Eq, Structural)]
pub struct InstructionRow {
    pub start: usize,
    pub end: usize,
    pub bullet: Option<usize>,
}

/// The byte ranges of the lines of `b` from index `i` on, the current line
/// having started at `line_start`; lines are split at line feeds.
pub open spec fn lines_from(b: Seq<u8>, i: int, line_start: int) -> Seq<(int, int)>
    decreases b.len() - i,
{
    if i >= b.len() {
        seq![(line_start, b.len() as int)]
    } else if b[i] == 10 {
        seq![(line_start, i)] + lines_from(b, i + 1, i + 1)
    } else {
        lines_from(b, i + 1, line_start)
    }
}

/// Whether the line `line` of `b` is a bullet line.
pub open spec fn is_bullet_line(b: Seq<u8>, line: (int, int)) -> bool {
    line.0 < line.1 && b[line.0] == 64
}

/// The row drawn for line `line`, `k` bullets having come before it.
pub open spec fn row_of(b: Seq<u8>, line: (int, int), k: int) -> InstructionRow {
    if is_bullet_line(b, line) {
        InstructionRow { start: (line.0 + 1) as usize, end: line.1 as usize, bullet: Some(k as usize) }
    } else {
        InstructionRow { start: line.0 as usize, end: line.1 as usize, bullet: None }
    }
}

/// The rows drawn for `lines`, `k` bullets having come before them.
pub open spec fn rows_of(b: Seq<u8>, lines: Seq<(int, int)>, k: int) -> Seq<InstructionRow>
    decreases lines.len(),
{
    if lines.len() == 0 {
        Seq::empty()
    } else {
        let next_k = if is_bullet_line(b, lines[0]) { k + 1 } else { k };
        seq![row_of(b, lines[0], k)] + rows_of(b, lines.drop_first(), next_k)
    }
}

/// The rows of a page with text `b`: one per line, bullets counted in order.
pub open spec fn instruction_rows_of(b: Seq<u8>) -> Seq<InstructionRow> {
    rows_of(b, lines_from(b, 0, 0), 0)
}

proof fn lemma_rows_of_cons(b: Seq<u8>, line: (int, int), rest: Seq<(int, int)>, k: int)
    ensures
        rows_of(b, seq![line] + rest, k) == seq![row_of(b, line, k)] + rows_of(
            b,
            rest,
            if is_bullet_line(b, line) { k + 1 } else { k },
        ),
{
    let all = seq![line] + rest;
    assert(all[0] == line);
    assert(all.drop_first() =~= rest);
}

/// Splits the page text into the rows drawn, one per line.
pub fn instruction_rows(text: &[u8]) -> (rows: Vec<InstructionRow>)
    ensures
        rows@ == instruction_rows_of(text@),
{
    let ghost b = text@;
    let mut rows: Vec<InstructionRow> = Vec::new();
    let mut bullets: usize = 0;
    let mut line_start: usize = 0;
    let mut i: usize = 0;
    while i < text.len()
        invariant
            b == text@,
            line_start <= i <= b.len(),
            bullets <= i,
            instruction_rows_of(b) == rows@ + rows_of(b, lines_from(b, i as int, line_start as int), bullets as int),
        decreases b.len() - i,
    {
        if text[i] == 10 {
            let ghost line = (line_start as int, i as int);
            proof {
                lemma_rows_of_cons(b, line, lines_from(b, i + 1, i + 1), bullets as int);
            }
            let row = if line_start < i && text[line_start] == 64 {
                let r = InstructionRow { start: line_start + 1, end: i, bullet: Some(bullets) };
                bullets = bullets + 1;
                r
            } else {
                InstructionRow { start: line_start, end: i, bullet: None }
            };
            let ghost before = rows@;
            rows.push(row);
            proof {
                assert(rows@ == before + seq![row]);
                assert(before + seq![row] + rows_of(b, lines_from(b, i + 1, i + 1), bullets as int) =~= before
                    + (seq![row] + rows_of(b, lines_from(b, i + 1, i + 1), bullets as int)));
            }
            line_start = i + 1;
        }
        i = i + 1;
    }
    let ghost line = (line_start as int, i as int);
    proof {
        lemma_rows_of_cons(b, line, Seq::empty(), bullets as int);
        assert(seq![line] + Seq::<(int, int)>::empty() =~= seq![line]);
    }
    let row = if line_start < i && text[line_start] == 64 {
        InstructionRow { start: line_start + 1, end: i, bullet: Some(bullets) }
    } else {
        InstructionRow { start: line_start, end: i, bullet: None }
    };
    let ghost before = rows@;
    rows.push(row);
    proof {
        assert(rows_of(b, Seq::<(int, int)>::empty(), if is_bullet_line(b, line) { bullets + 1 } else { bullets as int }) =~= Seq::empty());
        assert(rows@ =~= before + seq![row]);
        assert(before + (seq![row] + Seq::<InstructionRow>::empty()) =~= before + seq![row]);
    }
    rows
}

// -----------------------------------------------------------------------------
// The board's border
// -----------------------------------------------------------------------------

/// What is drawn at cell `(x, y)` of the border of `area`: nothing off the
/// border; on macOS a blank cell, filled by its background, all around;
/// elsewhere a lower half block on the top row, an upper half block on the
/// bottom row (which wins where the two rows are one), and half blocks facing
/// inwards on the sides between them.
pub open spec fn border_glyph(area: Area, x: int, y: int, macos: bool) -> Option<Seq<char>> {
    let left = area.x as int;
    let right = area.x + area.width - 1;
    let top = area.y as int;
    let bottom = area.y + area.height - 1;
    if x < left || x > right || y < top || y > bottom {
        None
    } else if macos {
        if y == top || y == bottom || x == left || x == right {
            Some(" "@)
        } else {
            None
        }
    } else if y == bottom {
        Some("▀"@)
    } else if y == top {
        Some("▄"@)
    } else if x == right {
        Some("▌"@)
    } else if x == left {
        Some("▐"@)
    } else {
        None
    }
}

/// The symbol drawn at cell `(x, y)` of the border of the board's `area`, if
/// any; `macos` picks the background-filled border that the macOS terminal
/// shows without gaps between rows.
pub fn border_cell(area: Area, x: u16, y: u16, macos: bool) -> (symbol: Option<&'static str>)
    requires
        area.width >= 1,
        area.height >= 1,
        area.x + area.width <= u16::MAX,
        area.y + area.height <= u16::MAX,
    ensures
        match symbol {
            Some(s) => border_glyph(area, x as int, y as int, macos) == Some(s@),
            None => border_glyph(area, x as int, y as int, macos) is None,
        },
{
    let left = area.x;
    let right = area.x + area.width - 1;
    let top = area.y;
    let bottom = area.y + area.height - 1;
    if x < left || x > right || y < top || y > bottom {
        None
    } else if macos {
        if y == top || y == bottom || x == left || x == right {
            Some(" ")
        } else {
            None
        }
    } else if y == bottom {
        Some("▀")
    } else if y == top {
        Some("▄")
    } else if x == right {
        Some("▌")
    } else if x == left {
        Some("▐")
    } else {
        None
    }
}

// -----------------------------------------------------------------------------
// What wrapping gives
// -----------------------------------------------------------------------------

proof fn lemma_skip_ws(b: Seq<u8>, i: int)
    requires
        0 <= i <= b.len(),
    ensures
        i <= skip_ws(b, i) <= b.len(),
        skip_ws(b, i) < b.len() ==> !is_ascii_ws(b[skip_ws(b, i)]),
    decreases b.len() - i,
{
    if i < b.len() && is_ascii_ws(b[i]) {
        lemma_skip_ws(b, i + 1);
    }
}

proof fn lemma_last_ws_before(b: Seq<u8>, lo: int, hi: int)
    requires
        lo <= hi,
    ensures
        lo - 1 <= last_ws_before(b, lo, hi) < hi,
    decreases hi - lo,
{
    if hi > lo && !is_ascii_ws(b[hi - 1]) {
        lemma_last_ws_before(b, lo, hi - 1);
    }
}

proof fn lemma_trim_back(b: Seq<u8>, lo: int, hi: int, k: int)
    requires
        lo <= k < hi,
        !is_ascii_ws(b[k]),
    ensures
        k < trim_back(b, lo, hi) <= hi,
        !is_ascii_ws(b[trim_back(b, lo, hi) - 1]),
    decreases hi - lo,
{
    if is_ascii_ws(b[hi - 1]) {
        lemma_trim_back(b, lo, hi - 1, k);
    }
}

proof fn lemma_wrap_line_end(b: Seq<u8>, s: int, width: int)
    requires
        0 <= s < b.len(),
        width > 0,
        !is_ascii_ws(b[s]),
    ensures
        s < wrap_line_end(b, s, width) <= b.len(),
        wrap_line_end(b, s, width) - s <= width,
        !is_ascii_ws(b[wrap_line_end(b, s, width) - 1]),
{
    let limit = if s + width < b.len() { s + width } else { b.len() as int };
    lemma_last_ws_before(b, s, limit);
    let brk = last_ws_before(b, s, limit);
    let broken = if limit < b.len() && brk > s { brk } else { limit };
    lemma_trim_back(b, s, broken, s);
}

/// Wrapped lines are what they should be: at most the number of lines asked
/// for, in order, each non-empty, no wider than the area, and starting and
/// ending with a byte that is not whitespace.
pub proof fn lemma_wrapped_lines_shape(b: Seq<u8>, start: int, width: int, n: nat)
    requires
        0 <= start <= b.len(),
        width > 0,
    ensures
        wrapped_lines(b, start, width, n).len() <= n,
        forall|i: int|
            0 <= i < wrapped_lines(b, start, width, n).len() ==> {
                let line = #[trigger] wrapped_lines(b, start, width, n)[i];
                &&& start <= line.0 < line.1 <= b.len()
                &&& line.1 - line.0 <= width
                &&& !is_ascii_ws(b[line.0])
                &&& !is_ascii_ws(b[line.1 - 1])
            },
        forall|i: int, j: int|
            0 <= i < j < wrapped_lines(b, start, width, n).len() ==> (#[trigger] wrapped_lines(b, start, width, n)[i]).1
                <= (#[trigger] wrapped_lines(b, start, width, n)[j]).0,
    decreases n,
{
    if n > 0 {
        lemma_skip_ws(b, start);
        let s = skip_ws(b, start);
        if s < b.len() {
            lemma_wrap_line_end(b, s, width);
            let e = wrap_line_end(b, s, width);
            lemma_wrapped_lines_shape(b, e, width, (n - 1) as nat);
            let rest = wrapped_lines(b, e, width, (n - 1) as nat);
            let all = wrapped_lines(b, start, width, n);
            assert(all == seq![(s, e)] + rest);
            assert forall|i: int| 0 <= i < all.len() implies {
                let line = #[trigger] all[i];
                &&& start <= line.0 < line.1 <= b.len()
                &&& line.1 - line.0 <= width
                &&& !is_ascii_ws(b[line.0])
                &&& !is_ascii_ws(b[line.1 - 1])
            } by {
                if i > 0 {
                    assert(all[i] == rest[i - 1]);
                }
            }
            assert forall|i: int, j: int| 0 <= i < j < all.len() implies (#[trigger] all[i]).1 <= (#[trigger] all[j]).0 by {
                assert(all[j] == rest[j - 1]);
                if i > 0 {
                    assert(all[i] == rest[i - 1]);
                }
            }
        }
    }
}

// -----------------------------------------------------------------------------
// The gems drawn on the board
// -----------------------------------------------------------------------------

/// The gem a seed scrambles to while the game is paused.
pub open spec fn pause_gem(seed: u64) -> Gem {
    gem_at(((fmix64(seed) as usize) % (GEM_COUNT as usize)) as int)
}

/// How block `b` of the falling column is drawn, if at all: while paused
/// (`flicker` holding the scramble's tick) only on the board and in a
/// scrambled color; else as it is, except that a falling column's rows above
/// the board are hidden.
pub open spec fn falling_block_drawn(column: Column, b: GemBlock, flicker: Option<u64>) -> Seq<GemBlock> {
    match flicker {
        Some(tick) => if b.y >= 0 {
            seq![GemBlock { x: b.x, y: b.y, gem: pause_gem(packed_seed(2, tick, row_magnitude(b.y), b.x as u64)) }]
        } else {
            Seq::empty()
        },
        None => if column.spec_is_falling() && b.y < 0 {
            Seq::empty()
        } else {
            seq![b]
        },
    }
}

/// The blocks of the falling column that are drawn, top to bottom.
pub open spec fn falling_blocks_drawn(column: Column, flicker: Option<u64>) -> Seq<GemBlock> {
    let blocks = column.spec_gem_blocks();
    falling_block_drawn(column, blocks[0], flicker) + falling_block_drawn(column, blocks[1], flicker)
        + falling_block_drawn(column, blocks[2], flicker)
}

/// The gems of the first `n` cells of the grid, row by row, that are drawn:
/// every gem, in a scrambled color while paused.
pub open spec fn pile_blocks_drawn(cells: Seq<Option<Gem>>, flicker: Option<u64>, n: nat) -> Seq<GemBlock>
    decreases n,
{
    if n == 0 {
        Seq::empty()
    } else {
        let i = n - 1;
        let x = i % 6;
        let y = i / 6;
        let prev = pile_blocks_drawn(cells, flicker, (n - 1) as nat);
        match cells[i] {
            Some(gem) => prev.push(
                GemBlock {
                    x: x as u8,
                    y: y as i8,
                    gem: match flicker {
                        Some(tick) => pause_gem(packed_seed(3, tick, y as u64, x as u64)),
                        None => gem,
                    },
                },
            ),
            None => prev,
        }
    }
}

fn falling_block(column: &Column, b: GemBlock, flicker: Option<u64>, blocks: &mut Vec<GemBlock>)
    ensures
        final(blocks)@ == old(blocks)@ + falling_block_drawn(*column, b, flicker),
{
    match flicker {
        Some(tick) => {
            if b.y >= 0 {
                let seed = seed_for_randomizing_falling_column_blocks(tick, b.x, b.y);
                blocks.push(GemBlock { x: b.x, y: b.y, gem: Gem::random_for_pause(seed) });
            }
        },
        None => {
            if !(column.is_falling() && b.y < 0) {
                blocks.push(b);
            }
        },
    }
}

/// The gem blocks drawn on the board, in drawing order: those of the falling
/// column, then the pile's, row by row; while paused (`flicker_tick` being the
/// scramble's tick) each in a scrambled color.
pub fn board_blocks(game: &GameState, flicker_tick: Option<u64>) -> (blocks: Vec<GemBlock>)
    requires
        game.wf(),
    ensures
        blocks@ == falling_blocks_drawn(game.spec_falling(), flicker_tick) + pile_blocks_drawn(
            game.spec_pile().cells(),
            flicker_tick,
            78,
        ),
{
    proof {
        game.lemma_wf_bounds();
        game.spec_pile().lemma_wf_len();
    }
    let column = game.get_falling_column();
    let column_blocks = column.gem_blocks();
    let mut blocks: Vec<GemBlock> = Vec::new();
    falling_block(&column, column_blocks[0], flicker_tick, &mut blocks);
    falling_block(&column, column_blocks[1], flicker_tick, &mut blocks);
    falling_block(&column, column_blocks[2], flicker_tick, &mut blocks);
    let ghost falling = blocks@;
    assert(falling == falling_blocks_drawn(game.spec_falling(), flicker_tick));
    let pile = game.get_pile();
    let ghost cells = pile.cells();
    let mut y: u8 = 0;
    while y < 13
        invariant
            y <= 13,
            pile.wf(),
            cells == pile.cells(),
            cells.len() == 78,
            blocks@ == falling + pile_blocks_drawn(cells, flicker_tick, (6 * y) as nat),
        decreases 13 - y,
    {
        let mut x: u8 = 0;
        while x < 6
            invariant
                x <= 6,
                y < 13,
                pile.wf(),
                cells == pile.cells(),
                cells.len() == 78,
                blocks@ == falling + pile_blocks_drawn(cells, flicker_tick, (6 * y + x) as nat),
            decreases 6 - x,
        {
            let ghost i: int = 6 * y + x;
            assert(i % 6 == x && i / 6 == y) by (nonlinear_arith)
                requires
                    i == 6 * y + x,
                    0 <= x < 6,
                    0 <= y,
            ;
            assert(cell_of(cells, x as int, y as int) == cells[i]);
            match pile.get(x, y) {
                Some(gem) => {
                    let shown = match flicker_tick {
                        Some(tick) => Gem::random_for_pause(seed_for_randomizing_pile_blocks(tick, x, y)),
                        None => gem,
                    };
                    blocks.push(GemBlock { x, y: y as i8, gem: shown });
                },
                None => {},
            }
            assert(blocks@ =~= falling + pile_blocks_drawn(cells, flicker_tick, (i + 1) as nat));
            x = x + 1;
        }
        y = y + 1;
    }
    blocks
}

/// The gem blocks of the next column that are drawn, top to bottom: while
/// paused at column 0 of their area and in scrambled colors, else as they are.
pub open spec fn next_blocks_drawn(column: Column, flicker: Option<u64>) -> Seq<GemBlock> {
    match flicker {
        Some(tick) => column.spec_gem_blocks().map_values(
            |b: GemBlock| GemBlock { x: 0, y: b.y, gem: pause_gem(packed_seed(1, tick, row_magnitude(b.y), b.x as u64)) },
        ),
        None => falling_blocks_drawn(column, None),
    }
}

/// The gem blocks of the next column that are drawn.
pub fn next_column_blocks(game: &GameState, flicker_tick: Option<u64>) -> (blocks: Vec<GemBlock>)
    requires
        game.wf(),
    ensures
        blocks@ == next_blocks_drawn(game.spec_next(), flicker_tick),
{
    proof {
        game.lemma_wf_bounds();
    }
    let column = game.get_next_column();
    let column_blocks = column.gem_blocks();
    let mut blocks: Vec<GemBlock> = Vec::new();
    match flicker_tick {
        Some(tick) => {
            let mut k: usize = 0;
            while k < 3
                invariant
                    k <= 3,
                    column_blocks@ == column.spec_gem_blocks(),
                    blocks@ == column.spec_gem_blocks().subrange(0, k as int).map_values(
                        |b: GemBlock| GemBlock { x: 0, y: b.y, gem: pause_gem(packed_seed(1, tick, row_magnitude(b.y), b.x as u64)) },
                    ),
                decreases 3 - k,
            {
                let b = column_blocks[k];
                let seed = seed_for_randomizing_next_column_blocks(tick, b.x, b.y);
                blocks.push(GemBlock { x: 0, y: b.y, gem: Gem::random_for_pause(seed) });
                assert(column.spec_gem_blocks().subrange(0, k + 1) =~= column.spec_gem_blocks().subrange(0, k as int).push(b));
                k = k + 1;
            }
            assert(column.spec_gem_blocks().subrange(0, 3) =~= column.spec_gem_blocks());
        },
        None => {
            falling_block(&column, column_blocks[0], None, &mut blocks);
            falling_block(&column, column_blocks[1], None, &mut blocks);
            falling_block(&column, column_blocks[2], None, &mut blocks);
        },
    }
    blocks
}

} // verus!
