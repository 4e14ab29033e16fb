//! The pile: the gems that have come to rest on the board.

use vstd::prelude::*;

use crate::blocks::block::{Gem, GemBlock};
use crate::blocks::column::Column;
use crate::blocks::matching::{dir_dx, dir_dy, Direction, MatchingStructure, MIN_CONSECUTIVE_GEMS_TO_MATCH};
use crate::clock::{elapsed_millis, instant_now};
use crate::game_state::{BOARD_HEIGHT, BOARD_WIDTH};

verus! {

/// Number of cells of the board.
pub const NUM_GRID_CELLS: usize = 78;

/// Whether `(x, y)` lies on the board.
pub open spec fn in_board(x: int, y: int) -> bool {
    0 <= x < 6 && 0 <= y < 13
}

/// Row-major index of the cell `(x, y)`.
pub open spec fn grid_idx(x: int, y: int) -> int {
    6 * y + x
}

/// The content of cell `(x, y)` of a grid; `None` off the board.
pub open spec fn cell_of(cells: Seq<Option<Gem>>, x: int, y: int) -> Option<Gem> {
    if in_board(x, y) {
        cells[grid_idx(x, y)]
    } else {
        None
    }
}

/// An empty board.
pub open spec fn empty_cells() -> Seq<Option<Gem>> {
    Seq::new(NUM_GRID_CELLS as nat, |i: int| None::<Gem>)
}

/// A mask with no cell marked.
pub open spec fn no_marks() -> Seq<bool> {
    Seq::new(NUM_GRID_CELLS as nat, |i: int| false)
}

/// Whether a block lies on the board.
pub open spec fn block_on_board(b: GemBlock) -> bool {
    in_board(b.x as int, b.y as int)
}

/// How many leading blocks of a column lie on the board.
pub open spec fn leading_on_board(blocks: Seq<GemBlock>) -> nat {
    if !block_on_board(blocks[0]) {
        0
    } else if !block_on_board(blocks[1]) {
        1
    } else if !block_on_board(blocks[2]) {
        2
    } else {
        3
    }
}

/// The grid with the first `n` of the listed gems written into it.
pub open spec fn place_gems(cells: Seq<Option<Gem>>, gems: Seq<(u8, u8, Gem)>, n: nat) -> Seq<Option<Gem>>
    decreases n,
{
    if n == 0 {
        cells
    } else {
        let (x, y, gem) = gems[n - 1];
        place_gems(cells, gems, (n - 1) as nat).update(grid_idx(x as int, y as int), Some(gem))
    }
}

/// The grid with the first `n` blocks written into it.
pub open spec fn place_blocks(cells: Seq<Option<Gem>>, blocks: Seq<GemBlock>, n: nat) -> Seq<Option<Gem>>
    decreases n,
{
    if n == 0 {
        cells
    } else {
        let b = blocks[n - 1];
        place_blocks(cells, blocks, (n - 1) as nat).update(grid_idx(b.x as int, b.y as int), Some(b.gem))
    }
}


// =============================================================================
// Matches: what a search computes
// =============================================================================

/// Longest distance a scan from one cell can run on the board, plus one.
pub open spec fn scan_fuel() -> nat {
    13
}

/// Whether cell `(x, y)` holds `gem`.
pub open spec fn cell_matches(cells: Seq<Option<Gem>>, x: int, y: int, gem: Gem) -> bool {
    cell_of(cells, x, y) == Some(gem)
}

/// How many consecutive cells after `(x, y)`, stepping by `(dx, dy)`, hold
/// `gem` (looking at most `fuel` cells ahead).
pub open spec fn scan_len(cells: Seq<Option<Gem>>, x: int, y: int, gem: Gem, dx: int, dy: int, fuel: nat) -> nat
    decreases fuel,
{
    if fuel == 0 || !cell_matches(cells, x + dx, y + dy, gem) {
        0
    } else {
        1 + scan_len(cells, x + dx, y + dy, gem, dx, dy, (fuel - 1) as nat)
    }
}

/// `mask` with the cells counted by `scan_len` marked.
pub open spec fn scan_mask(
    mask: Seq<bool>,
    cells: Seq<Option<Gem>>,
    x: int,
    y: int,
    gem: Gem,
    dx: int,
    dy: int,
    fuel: nat,
) -> Seq<bool>
    decreases fuel,
{
    if fuel == 0 || !cell_matches(cells, x + dx, y + dy, gem) {
        mask
    } else {
        scan_mask(mask.update(grid_idx(x + dx, y + dy), true), cells, x + dx, y + dy, gem, dx, dy, (fuel - 1) as nat)
    }
}

/// Length of the line of `b.gem` through block `b` along `(dx, dy)`, both ways.
pub open spec fn run_len(cells: Seq<Option<Gem>>, b: GemBlock, dx: int, dy: int) -> nat {
    1 + scan_len(cells, b.x as int, b.y as int, b.gem, dx, dy, scan_fuel()) + scan_len(
        cells,
        b.x as int,
        b.y as int,
        b.gem,
        -dx,
        -dy,
        scan_fuel(),
    )
}

/// The cells of that line.
pub open spec fn run_mask(cells: Seq<Option<Gem>>, b: GemBlock, dx: int, dy: int) -> Seq<bool> {
    let start = no_marks().update(grid_idx(b.x as int, b.y as int), true);
    let forward = scan_mask(start, cells, b.x as int, b.y as int, b.gem, dx, dy, scan_fuel());
    scan_mask(forward, cells, b.x as int, b.y as int, b.gem, -dx, -dy, scan_fuel())
}

/// Whether `run` marks a cell that `seen` does not.
pub open spec fn adds_new_cell(run: Seq<bool>, seen: Seq<bool>) -> bool {
    exists|i: int| 0 <= i < NUM_GRID_CELLS && run[i] && !seen[i]
}

/// The cells marked in either mask.
pub open spec fn mask_union(a: Seq<bool>, b: Seq<bool>) -> Seq<bool> {
    Seq::new(NUM_GRID_CELLS as nat, |i: int| a[i] || b[i])
}

/// `a * b`, held at `u32::MAX`.
pub open spec fn saturating_product(a: u32, b: u32) -> u32 {
    if a * b > u32::MAX {
        u32::MAX
    } else {
        (a * b) as u32
    }
}

/// The running result of a search: the cells matched in the current direction,
/// all cells marked so far, the product of the match lengths, and whether any
/// match was found.
pub struct MatchTally {
    pub seen: Seq<bool>,
    pub matched: Seq<bool>,
    pub points: u32,
    pub has_matches: bool,
}

/// Looks at one block in direction `d`: a line of three or more that covers a
/// cell not yet matched in this direction counts once, multiplying the points
/// by its length.
pub open spec fn tally_step(cells: Seq<Option<Gem>>, t: MatchTally, b: GemBlock, d: int) -> MatchTally {
    let len = run_len(cells, b, dir_dx(d), dir_dy(d));
    let run = run_mask(cells, b, dir_dx(d), dir_dy(d));
    if len >= MIN_CONSECUTIVE_GEMS_TO_MATCH && adds_new_cell(run, t.seen) {
        MatchTally {
            seen: mask_union(t.seen, run),
            matched: mask_union(t.matched, run),
            points: saturating_product(t.points, len as u32),
            has_matches: true,
        }
    } else {
        t
    }
}

/// The first `k` blocks looked at in direction `d`.
pub open spec fn tally_direction(
    cells: Seq<Option<Gem>>,
    checks: Seq<GemBlock>,
    d: int,
    k: nat,
    start: MatchTally,
) -> MatchTally
    decreases k,
{
    if k == 0 {
        start
    } else {
        tally_step(cells, tally_direction(cells, checks, d, (k - 1) as nat, start), checks[k - 1], d)
    }
}

/// All blocks looked at in the first `nd` directions; each direction starts
/// with nothing seen.
pub open spec fn tally_directions(cells: Seq<Option<Gem>>, checks: Seq<GemBlock>, nd: nat, marked: Seq<bool>) -> MatchTally
    decreases nd,
{
    if nd == 0 {
        MatchTally { seen: no_marks(), matched: marked, points: 1, has_matches: false }
    } else {
        let prev = tally_directions(cells, checks, (nd - 1) as nat, marked);
        tally_direction(
            cells,
            checks,
            nd - 1,
            checks.len(),
            MatchTally { seen: no_marks(), matched: prev.matched, points: prev.points, has_matches: prev.has_matches },
        )
    }
}

/// The blocks of a column that lie on the board, top to bottom.
pub open spec fn column_checks(blocks: Seq<GemBlock>, n: nat) -> Seq<GemBlock>
    decreases n,
{
    if n == 0 {
        Seq::empty()
    } else if block_on_board(blocks[n - 1]) {
        column_checks(blocks, (n - 1) as nat).push(blocks[n - 1])
    } else {
        column_checks(blocks, (n - 1) as nat)
    }
}

/// The gems of the first `rows` rows of column `x`, top to bottom.
pub open spec fn pile_column_checks(cells: Seq<Option<Gem>>, x: int, rows: nat) -> Seq<GemBlock>
    decreases rows,
{
    if rows == 0 {
        Seq::empty()
    } else {
        let prev = pile_column_checks(cells, x, (rows - 1) as nat);
        match cell_of(cells, x, rows - 1) {
            Some(gem) => prev.push(GemBlock { x: x as u8, y: (rows - 1) as i8, gem }),
            None => prev,
        }
    }
}

/// The gems of the first `cols` columns, column by column, top to bottom.
pub open spec fn pile_checks(cells: Seq<Option<Gem>>, cols: nat) -> Seq<GemBlock>
    decreases cols,
{
    if cols == 0 {
        Seq::empty()
    } else {
        pile_checks(cells, (cols - 1) as nat) + pile_column_checks(cells, cols - 1, BOARD_HEIGHT as nat)
    }
}

/// The blocks a search starts from.
pub open spec fn checks_for(structure: MatchingStructure, cells: Seq<Option<Gem>>) -> Seq<GemBlock> {
    match structure {
        MatchingStructure::Column(column) => column_checks(column.spec_gem_blocks(), 3),
        MatchingStructure::Pile => pile_checks(cells, BOARD_WIDTH as nat),
    }
}

/// What a search over `cells` from `structure` ends with.
pub open spec fn match_search(structure: MatchingStructure, cells: Seq<Option<Gem>>, marked: Seq<bool>) -> MatchTally {
    tally_directions(cells, checks_for(structure, cells), 4, marked)
}

/// The points a search ends with: their product where a match was found.
pub open spec fn search_points(t: MatchTally) -> Option<u32> {
    if t.has_matches {
        Some(t.points)
    } else {
        None
    }
}

proof fn lemma_column_checks_on_board(blocks: Seq<GemBlock>, n: nat)
    ensures
        forall|k: int| 0 <= k < column_checks(blocks, n).len() ==> block_on_board(#[trigger] column_checks(blocks, n)[k]),
    decreases n,
{
    if n > 0 {
        lemma_column_checks_on_board(blocks, (n - 1) as nat);
        let prev = column_checks(blocks, (n - 1) as nat);
        if block_on_board(blocks[n - 1]) {
            assert forall|k: int| 0 <= k < column_checks(blocks, n).len() implies block_on_board(
                #[trigger] column_checks(blocks, n)[k],
            ) by {
                if k < prev.len() {
                    assert(column_checks(blocks, n)[k] == prev[k]);
                }
            }
        }
    }
}

proof fn lemma_pile_column_checks_on_board(cells: Seq<Option<Gem>>, x: int, rows: nat)
    requires
        0 <= x < BOARD_WIDTH,
        rows <= BOARD_HEIGHT,
    ensures
        forall|k: int|
            0 <= k < pile_column_checks(cells, x, rows).len() ==> block_on_board(
                #[trigger] pile_column_checks(cells, x, rows)[k],
            ),
    decreases rows,
{
    if rows > 0 {
        lemma_pile_column_checks_on_board(cells, x, (rows - 1) as nat);
        let prev = pile_column_checks(cells, x, (rows - 1) as nat);
        if let Some(gem) = cell_of(cells, x, rows - 1) {
            assert forall|k: int| 0 <= k < pile_column_checks(cells, x, rows).len() implies block_on_board(
                #[trigger] pile_column_checks(cells, x, rows)[k],
            ) by {
                if k < prev.len() {
                    assert(pile_column_checks(cells, x, rows)[k] == prev[k]);
                }
            }
        }
    }
}

proof fn lemma_pile_checks_on_board(cells: Seq<Option<Gem>>, cols: nat)
    requires
        cols <= BOARD_WIDTH,
    ensures
        forall|k: int| 0 <= k < pile_checks(cells, cols).len() ==> block_on_board(#[trigger] pile_checks(cells, cols)[k]),
    decreases cols,
{
    if cols > 0 {
        lemma_pile_checks_on_board(cells, (cols - 1) as nat);
        lemma_pile_column_checks_on_board(cells, cols - 1, BOARD_HEIGHT as nat);
        let a = pile_checks(cells, (cols - 1) as nat);
        let b = pile_column_checks(cells, cols - 1, BOARD_HEIGHT as nat);
        assert forall|k: int| 0 <= k < (a + b).len() implies block_on_board(#[trigger] (a + b)[k]) by {
            if k < a.len() {
                assert((a + b)[k] == a[k]);
            } else {
                assert((a + b)[k] == b[k - a.len()]);
            }
        }
    }
}

proof fn lemma_checks_on_board(structure: MatchingStructure, cells: Seq<Option<Gem>>)
    ensures
        forall|k: int|
            0 <= k < checks_for(structure, cells).len() ==> block_on_board(#[trigger] checks_for(structure, cells)[k]),
{
    match structure {
        MatchingStructure::Column(column) => lemma_column_checks_on_board(column.spec_gem_blocks(), 3),
        MatchingStructure::Pile => lemma_pile_checks_on_board(cells, BOARD_WIDTH as nat),
    }
}


// =============================================================================
// Hanging gems and gravity
// =============================================================================

/// Whether some gem of the grid rests above an empty cell of its column.
pub open spec fn has_gap_below_gem(cells: Seq<Option<Gem>>) -> bool {
    exists|x: int, y1: int, y2: int|
        #![trigger cell_of(cells, x, y1), cell_of(cells, x, y2)]
        0 <= x < BOARD_WIDTH && 0 <= y1 < y2 < BOARD_HEIGHT && cell_of(cells, x, y1).is_some()
            && cell_of(cells, x, y2).is_none()
}

/// The gems of column `x` from row `y` down to the floor, top to bottom.
pub open spec fn gems_from(cells: Seq<Option<Gem>>, x: int, y: int) -> Seq<Gem>
    decreases BOARD_HEIGHT - y,
{
    if y < 0 || y >= BOARD_HEIGHT {
        Seq::empty()
    } else {
        match cell_of(cells, x, y) {
            Some(gem) => seq![gem] + gems_from(cells, x, y + 1),
            None => gems_from(cells, x, y + 1),
        }
    }
}

/// The content of cell `(x, y)` once the gems of column `x` have fallen to the
/// floor, keeping their order.
pub open spec fn settled_cell(cells: Seq<Option<Gem>>, x: int, y: int) -> Option<Gem> {
    let gems = gems_from(cells, x, 0);
    let top = BOARD_HEIGHT - gems.len();
    if y < top {
        None
    } else {
        Some(gems[y - top])
    }
}

proof fn lemma_gems_from_len(cells: Seq<Option<Gem>>, x: int, y: int)
    requires
        0 <= y <= BOARD_HEIGHT,
    ensures
        gems_from(cells, x, y).len() <= BOARD_HEIGHT - y,
    decreases BOARD_HEIGHT - y,
{
    if y < BOARD_HEIGHT {
        lemma_gems_from_len(cells, x, y + 1);
    }
}

/// Writing one cell of a grid changes what that cell holds and nothing else.
pub proof fn lemma_cell_after_update(c: Seq<Option<Gem>>, x0: int, y0: int, v: Option<Gem>, x: int, y: int)
    requires
        c.len() == NUM_GRID_CELLS,
        in_board(x0, y0),
    ensures
        cell_of(c.update(grid_idx(x0, y0), v), x, y) == (if x == x0 && y == y0 {
            v
        } else {
            cell_of(c, x, y)
        }),
{
    if in_board(x, y) && !(x == x0 && y == y0) {
        assert(grid_idx(x, y) != grid_idx(x0, y0));
    }
}

proof fn lemma_gems_from_column_only(c1: Seq<Option<Gem>>, c2: Seq<Option<Gem>>, x: int, y: int)
    requires
        forall|yy: int| 0 <= yy < BOARD_HEIGHT ==> #[trigger] cell_of(c1, x, yy) == cell_of(c2, x, yy),
    ensures
        gems_from(c1, x, y) == gems_from(c2, x, y),
    decreases BOARD_HEIGHT - y,
{
    if 0 <= y < BOARD_HEIGHT {
        lemma_gems_from_column_only(c1, c2, x, y + 1);
        assert(cell_of(c1, x, y) == cell_of(c2, x, y));
    }
}

// =============================================================================
// Blinking of cleared matches
// =============================================================================

/// How long each phase of the blink of matches lasts, in milliseconds.
pub const BLINK_DURATION_MS: u64 = 374;
/// Number of phases of the blink of matches.
pub const BLINK_NUM_PHASES: u64 = 4;

/// The marked gems of row `y` among its first `cols` cells, left to right.
pub open spec fn blink_row(cells: Seq<Option<Gem>>, marked: Seq<bool>, y: int, cols: nat) -> Seq<(u8, u8, Gem)>
    decreases cols,
{
    if cols == 0 {
        Seq::empty()
    } else {
        let prev = blink_row(cells, marked, y, (cols - 1) as nat);
        let x = cols - 1;
        match cell_of(cells, x, y) {
            Some(gem) => if marked[grid_idx(x, y)] {
                prev.push((x as u8, y as u8, gem))
            } else {
                prev
            },
            None => prev,
        }
    }
}

/// The marked gems of the first `rows` rows, row by row.
pub open spec fn blink_list(cells: Seq<Option<Gem>>, marked: Seq<bool>, rows: nat) -> Seq<(u8, u8, Gem)>
    decreases rows,
{
    if rows == 0 {
        Seq::empty()
    } else {
        blink_list(cells, marked, (rows - 1) as nat) + blink_row(cells, marked, rows - 1, BOARD_WIDTH as nat)
    }
}

/// Whether the blink is over `elapsed_ms` after it started.
pub open spec fn blink_finished(elapsed_ms: u64) -> bool {
    elapsed_ms >= BLINK_DURATION_MS * BLINK_NUM_PHASES
}

/// Whether the blinking gems are hidden `elapsed_ms` after the blink started:
/// in the odd phases, and for good once the blink is over.
pub open spec fn blink_dark(elapsed_ms: u64) -> bool {
    blink_finished(elapsed_ms) || (elapsed_ms / BLINK_DURATION_MS) % 2 == 1
}

/// The grid with the first `k` blinking gems hidden (`dark`) or shown.
pub open spec fn apply_blink(cells: Seq<Option<Gem>>, list: Seq<(u8, u8, Gem)>, k: nat, dark: bool) -> Seq<Option<Gem>>
    decreases k,
{
    if k == 0 {
        cells
    } else {
        let (x, y, gem) = list[k - 1];
        apply_blink(cells, list, (k - 1) as nat, dark).update(
            grid_idx(x as int, y as int),
            if dark {
                None
            } else {
                Some(gem)
            },
        )
    }
}

/// Whether some cell is marked.
pub open spec fn any_marked(marked: Seq<bool>) -> bool {
    exists|i: int| 0 <= i < NUM_GRID_CELLS && marked[i]
}

proof fn lemma_blink_row_on_board(cells: Seq<Option<Gem>>, marked: Seq<bool>, y: int, cols: nat)
    requires
        0 <= y < BOARD_HEIGHT,
        cols <= BOARD_WIDTH,
    ensures
        forall|i: int|
            0 <= i < blink_row(cells, marked, y, cols).len() ==> in_board(
                (#[trigger] blink_row(cells, marked, y, cols)[i]).0 as int,
                blink_row(cells, marked, y, cols)[i].1 as int,
            ) && cell_of(
                cells,
                blink_row(cells, marked, y, cols)[i].0 as int,
                blink_row(cells, marked, y, cols)[i].1 as int,
            ) == Some(blink_row(cells, marked, y, cols)[i].2),
    decreases cols,
{
    if cols > 0 {
        lemma_blink_row_on_board(cells, marked, y, (cols - 1) as nat);
        let prev = blink_row(cells, marked, y, (cols - 1) as nat);
        assert forall|i: int| 0 <= i < blink_row(cells, marked, y, cols).len() implies in_board(
            (#[trigger] blink_row(cells, marked, y, cols)[i]).0 as int,
            blink_row(cells, marked, y, cols)[i].1 as int,
        ) && cell_of(
            cells,
            blink_row(cells, marked, y, cols)[i].0 as int,
            blink_row(cells, marked, y, cols)[i].1 as int,
        ) == Some(blink_row(cells, marked, y, cols)[i].2) by {
            if i < prev.len() {
                assert(blink_row(cells, marked, y, cols)[i] == prev[i]);
            }
        }
    }
}

proof fn lemma_blink_list_on_board(cells: Seq<Option<Gem>>, marked: Seq<bool>, rows: nat)
    requires
        rows <= BOARD_HEIGHT,
    ensures
        forall|i: int|
            0 <= i < blink_list(cells, marked, rows).len() ==> in_board(
                (#[trigger] blink_list(cells, marked, rows)[i]).0 as int,
                blink_list(cells, marked, rows)[i].1 as int,
            ) && cell_of(
                cells,
                blink_list(cells, marked, rows)[i].0 as int,
                blink_list(cells, marked, rows)[i].1 as int,
            ) == Some(blink_list(cells, marked, rows)[i].2),
    decreases rows,
{
    if rows > 0 {
        lemma_blink_list_on_board(cells, marked, (rows - 1) as nat);
        lemma_blink_row_on_board(cells, marked, rows - 1, BOARD_WIDTH as nat);
        let a = blink_list(cells, marked, (rows - 1) as nat);
        let b = blink_row(cells, marked, rows - 1, BOARD_WIDTH as nat);
        assert forall|i: int| 0 <= i < (a + b).len() implies in_board(
            (#[trigger] (a + b)[i]).0 as int,
            (a + b)[i].1 as int,
        ) && cell_of(cells, (a + b)[i].0 as int, (a + b)[i].1 as int) == Some((a + b)[i].2) by {
            if i < a.len() {
                assert((a + b)[i] == a[i]);
            } else {
                assert((a + b)[i] == b[i - a.len()]);
            }
        }
    }
}

// =============================================================================
// Pile
// =============================================================================

/// The resting gems, the cells marked as matched, and the blinking of cleared
/// matches.
pub struct Pile {
    grid: Vec<Option<Gem>>,
    matched_positions: Vec<bool>,
    blinking_matches: BlinkingMatches,
}

impl Pile {
    /// The invariant of a pile: a full-size grid and mask, and blinking
    /// entries on the board.
    pub closed spec fn wf(&self) -> bool {
        &&& self.grid@.len() == NUM_GRID_CELLS
        &&& self.matched_positions@.len() == NUM_GRID_CELLS
        &&& self.blinking_matches.wf()
    }

    /// A well-formed pile has a cell and a mark for each of the 78 cells of
    /// the board.
    pub proof fn lemma_wf_len(&self)
        requires
            self.wf(),
        ensures
            self.cells().len() == NUM_GRID_CELLS,
            self.marked().len() == NUM_GRID_CELLS,
    {
    }

    /// The cells, row by row.
    pub closed spec fn cells(&self) -> Seq<Option<Gem>> {
        self.grid@
    }

    /// The cells marked as matched and not yet taken into a blink.
    pub closed spec fn marked(&self) -> Seq<bool> {
        self.matched_positions@
    }

    /// The gems being blinked before they are cleared, with their positions.
    pub closed spec fn blinking(&self) -> Seq<(u8, u8, Gem)> {
        self.blinking_matches.matched_gems@
    }

    /// Whether a blink of matches is under way.
    pub closed spec fn is_blinking(&self) -> bool {
        self.blinking_matches.blink_time.is_some()
    }

    /// The content of cell `(x, y)`; `None` off the board.
    pub open spec fn cell(&self, x: int, y: int) -> Option<Gem> {
        cell_of(self.cells(), x, y)
    }

    /// An empty pile.
    pub fn new() -> (pile: Pile)
        ensures
            pile.wf(),
            pile.cells() == empty_cells(),
            pile.marked() == no_marks(),
            pile.blinking() == Seq::<(u8, u8, Gem)>::empty(),
            !pile.is_blinking(),
    {
        Pile { grid: empty_grid(), matched_positions: empty_mask(), blinking_matches: BlinkingMatches::new() }
    }

    /// A pile holding the listed gems (a later gem at the same position
    /// wins), with nothing marked and no blink.
    pub fn with_gems(gems: &[(u8, u8, Gem)]) -> (pile: Pile)
        requires
            forall|i: int| 0 <= i < gems@.len() ==> in_board((#[trigger] gems@[i]).0 as int, gems@[i].1 as int),
        ensures
            pile.wf(),
            pile.cells() == place_gems(empty_cells(), gems@, gems@.len()),
            pile.marked() == no_marks(),
            !pile.is_blinking(),
    {
        let mut pile = Pile::new();
        let mut i: usize = 0;
        while i < gems.len()
            invariant
                i <= gems@.len(),
                pile.wf(),
                pile.cells() == place_gems(empty_cells(), gems@, i as nat),
                pile.marked() == no_marks(),
                !pile.is_blinking(),
                forall|j: int| 0 <= j < gems@.len() ==> in_board((#[trigger] gems@[j]).0 as int, gems@[j].1 as int),
            decreases gems@.len() - i,
        {
            let (x, y, gem) = gems[i];
            let idx = Self::calculate_grid_idx(x, y);
            pile.grid.set(idx, Some(gem));
            i = i + 1;
        }
        pile
    }

    /// Empties the pile, its marks and its blink.
    pub fn clear(&mut self)
        ensures
            final(self).wf(),
            final(self).cells() == empty_cells(),
            final(self).marked() == no_marks(),
            final(self).blinking() == Seq::<(u8, u8, Gem)>::empty(),
            !final(self).is_blinking(),
    {
        self.grid = empty_grid();
        self.matched_positions = empty_mask();
        self.blinking_matches.reset();
    }

    /// Row-major index of the cell `(x, y)`.
    pub fn calculate_grid_idx(x: u8, y: u8) -> (idx: usize)
        ensures
            idx == grid_idx(x as int, y as int),
    {
        assert(y as usize * BOARD_WIDTH as usize <= 255 * 6) by (nonlinear_arith)
            requires
                y <= 255,
                BOARD_WIDTH == 6,
        ;
        assert(y as usize * BOARD_WIDTH as usize == 6 * y) by (nonlinear_arith)
            requires
                BOARD_WIDTH == 6,
        ;
        y as usize * BOARD_WIDTH as usize + x as usize
    }

    /// The gem at `(x, y)`, or `None` for an empty cell or a position off the
    /// board.
    pub fn get(&self, x: u8, y: u8) -> (gem: Option<Gem>)
        requires
            self.wf(),
        ensures
            gem == self.cell(x as int, y as int),
    {
        if x >= BOARD_WIDTH || y >= BOARD_HEIGHT {
            return None;
        }
        self.grid[Self::calculate_grid_idx(x, y)]
    }

    /// Writes the column's gems into the grid, top to bottom, and reports
    /// whether all three lay on the board. Writing stops at the first gem off
    /// the board; the gems before it stay written.
    pub fn lock(&mut self, column: Column) -> (locked: bool)
        requires
            old(self).wf(),
            column.spec_y() <= i8::MAX - 2,
        ensures
            final(self).wf(),
            locked == (leading_on_board(column.spec_gem_blocks()) == 3),
            final(self).cells() == place_blocks(old(self).cells(), column.spec_gem_blocks(), leading_on_board(column.spec_gem_blocks())),
            final(self).marked() == old(self).marked(),
            final(self).blinking() == old(self).blinking(),
            final(self).is_blinking() == old(self).is_blinking(),
    {
        let blocks = column.gem_blocks();
        let ghost n = leading_on_board(column.spec_gem_blocks());
        let mut i: usize = 0;
        while i < 3
            invariant
                0 <= i <= 3,
                blocks@ == column.spec_gem_blocks(),
                self.wf(),
                forall|j: int| 0 <= j < i ==> block_on_board(#[trigger] blocks@[j]),
                self.cells() == place_blocks(old(self).cells(), blocks@, i as nat),
                self.marked() == old(self).marked(),
                self.blinking() == old(self).blinking(),
                self.is_blinking() == old(self).is_blinking(),
                n == leading_on_board(blocks@),
            decreases 3 - i,
        {
            let gem_block = blocks[i];
            if gem_block.y < 0 || gem_block.x >= BOARD_WIDTH || gem_block.y as u8 >= BOARD_HEIGHT {
                assert(n == i);
                return false;
            }
            let idx = Self::calculate_grid_idx(gem_block.x, gem_block.y as u8);
            self.grid.set(idx, Some(gem_block.gem));
            i = i + 1;
        }
        true
    }

    // =========================================================================
    // Matches
    // =========================================================================

    /// Searches for lines of three or more equal gems through the given
    /// blocks, in the four directions. Each line counts once per direction;
    /// the result is the product of the lengths of the lines found (held at
    /// `u32::MAX`), or `None` where there is none. The cells of the lines are
    /// marked for clearing.
    pub fn find_matches(&mut self, structure: MatchingStructure) -> (points: Option<u32>)
        requires
            old(self).wf(),
            structure matches MatchingStructure::Column(c) ==> c.spec_y() <= i8::MAX - 2,
        ensures
            final(self).wf(),
            final(self).cells() == old(self).cells(),
            final(self).blinking() == old(self).blinking(),
            final(self).is_blinking() == old(self).is_blinking(),
            final(self).marked() == match_search(structure, old(self).cells(), old(self).marked()).matched,
            points == (if match_search(structure, old(self).cells(), old(self).marked()).has_matches {
                Some(match_search(structure, old(self).cells(), old(self).marked()).points)
            } else {
                None
            }),
    {
        let ghost cells = self.cells();
        let ghost marked0 = self.marked();
        let checks = self.gems_to_check(structure);
        proof {
            lemma_checks_on_board(structure, cells);
        }
        let mut match_points: u32 = 1;
        let mut has_matches = false;
        let mut d: usize = 0;
        while d < 4
            invariant
                self.wf(),
                self.cells() == cells,
                self.blinking() == old(self).blinking(),
                self.is_blinking() == old(self).is_blinking(),
                checks@ == checks_for(structure, cells),
                forall|k: int| 0 <= k < checks@.len() ==> block_on_board(#[trigger] checks@[k]),
                d <= 4,
                self.marked() == tally_directions(cells, checks@, d as nat, marked0).matched,
                match_points == tally_directions(cells, checks@, d as nat, marked0).points,
                has_matches == tally_directions(cells, checks@, d as nat, marked0).has_matches,
            decreases 4 - d,
        {
            let direction = Direction::from_index(d);
            let ghost start = MatchTally {
                seen: no_marks(),
                matched: self.marked(),
                points: match_points,
                has_matches,
            };
            let mut seen = empty_mask();
            let mut k: usize = 0;
            while k < checks.len()
                invariant
                    self.wf(),
                    self.cells() == cells,
                    self.blinking() == old(self).blinking(),
                    self.is_blinking() == old(self).is_blinking(),
                    checks@ == checks_for(structure, cells),
                    forall|k: int| 0 <= k < checks@.len() ==> block_on_board(#[trigger] checks@[k]),
                    d < 4,
                    direction.dx == dir_dx(d as int),
                    direction.dy == dir_dy(d as int),
                    k <= checks@.len(),
                    seen@.len() == NUM_GRID_CELLS,
                    start == (MatchTally {
                        seen: no_marks(),
                        matched: tally_directions(cells, checks@, d as nat, marked0).matched,
                        points: tally_directions(cells, checks@, d as nat, marked0).points,
                        has_matches: tally_directions(cells, checks@, d as nat, marked0).has_matches,
                    }),
                    (MatchTally { seen: seen@, matched: self.marked(), points: match_points, has_matches })
                        == tally_direction(cells, checks@, d as int, k as nat, start),
                decreases checks@.len() - k,
            {
                let gem_block = checks[k];
                let ghost before = MatchTally { seen: seen@, matched: self.marked(), points: match_points, has_matches };
                match self.find_matches_from_gem_position(gem_block, direction) {
                    Some((length, run_positions)) => {
                        if adds_new_position(&run_positions, &seen) {
                            mark_union(&mut seen, &run_positions);
                            mark_union(&mut self.matched_positions, &run_positions);
                            match_points = match match_points.checked_mul(length as u32) {
                                Some(p) => p,
                                None => u32::MAX,
                            };
                            has_matches = true;
                        }
                    },
                    None => {},
                }
                proof {
                    let t = tally_direction(cells, checks@, d as int, k as nat, start);
                    assert(t == before);
                    assert(tally_direction(cells, checks@, d as int, (k + 1) as nat, start) == tally_step(cells, t, checks@[k as int], d as int));
                }
                k = k + 1;
            }
            d = d + 1;
        }
        if has_matches {
            Some(match_points)
        } else {
            None
        }
    }

    /// The blocks a search starts from.
    fn gems_to_check(&self, structure: MatchingStructure) -> (checks: Vec<GemBlock>)
        requires
            self.wf(),
            structure matches MatchingStructure::Column(c) ==> c.spec_y() <= i8::MAX - 2,
        ensures
            checks@ == checks_for(structure, self.cells()),
    {
        let mut checks: Vec<GemBlock> = Vec::new();
        match structure {
            MatchingStructure::Column(column) => {
                let blocks = column.gem_blocks();
                let mut i: usize = 0;
                while i < 3
                    invariant
                        i <= 3,
                        blocks@ == column.spec_gem_blocks(),
                        checks@ == column_checks(blocks@, i as nat),
                    decreases 3 - i,
                {
                    let gem_block = blocks[i];
                    if gem_block.x < BOARD_WIDTH && gem_block.y >= 0 && (gem_block.y as u8) < BOARD_HEIGHT {
                        checks.push(gem_block);
                    }
                    i = i + 1;
                }
            },
            MatchingStructure::Pile => {
                let mut x: u8 = 0;
                while x < BOARD_WIDTH
                    invariant
                        self.wf(),
                        x <= BOARD_WIDTH,
                        checks@ == pile_checks(self.cells(), x as nat),
                    decreases BOARD_WIDTH - x,
                {
                    let mut y: u8 = 0;
                    while y < BOARD_HEIGHT
                        invariant
                            self.wf(),
                            x < BOARD_WIDTH,
                            y <= BOARD_HEIGHT,
                            checks@ == pile_checks(self.cells(), x as nat) + pile_column_checks(self.cells(), x as int, y as nat),
                        decreases BOARD_HEIGHT - y,
                    {
                        let ghost prev = checks@;
                        match self.get(x, y) {
                            Some(gem) => {
                                checks.push(GemBlock::new(x, y as i8, gem));
                                assert(checks@ =~= pile_checks(self.cells(), x as nat) + pile_column_checks(self.cells(), x as int, (y + 1) as nat));
                            },
                            None => {},
                        }
                        y = y + 1;
                    }
                    x = x + 1;
                }
            },
        }
        checks
    }

    /// The line of `gem_block`'s gem through it along `direction` (both ways),
    /// if it is at least three gems long: its length and its cells.
    fn find_matches_from_gem_position(&self, gem_block: GemBlock, direction: Direction) -> (run: Option<(u8, Vec<bool>)>)
        requires
            self.wf(),
            block_on_board(gem_block),
            -1 <= direction.dx <= 1,
            -1 <= direction.dy <= 1,
            direction.dx != 0 || direction.dy != 0,
        ensures
            match run {
                Some((len, mask)) => {
                    &&& run_len(self.cells(), gem_block, direction.dx as int, direction.dy as int) >= MIN_CONSECUTIVE_GEMS_TO_MATCH
                    &&& len == run_len(self.cells(), gem_block, direction.dx as int, direction.dy as int)
                    &&& mask@ == run_mask(self.cells(), gem_block, direction.dx as int, direction.dy as int)
                    &&& mask@.len() == NUM_GRID_CELLS
                },
                None => run_len(self.cells(), gem_block, direction.dx as int, direction.dy as int) < MIN_CONSECUTIVE_GEMS_TO_MATCH,
            },
    {
        let mut run_positions = empty_mask();
        Self::mark_position(&mut run_positions, gem_block.x, gem_block.y as u8);
        let forward = self.scan_matching_gems(gem_block, direction, &mut run_positions);
        let backward = self.scan_matching_gems(gem_block, direction.neg(), &mut run_positions);
        let length = 1 + forward + backward;
        if length >= MIN_CONSECUTIVE_GEMS_TO_MATCH {
            Some((length, run_positions))
        } else {
            None
        }
    }

    /// Counts and marks the cells after `gem_block` along `direction` that
    /// hold its gem, up to the first that does not.
    fn scan_matching_gems(&self, gem_block: GemBlock, direction: Direction, run_positions: &mut Vec<bool>) -> (count: u8)
        requires
            self.wf(),
            block_on_board(gem_block),
            old(run_positions)@.len() == NUM_GRID_CELLS,
            -1 <= direction.dx <= 1,
            -1 <= direction.dy <= 1,
            direction.dx != 0 || direction.dy != 0,
        ensures
            count <= 12,
            final(run_positions)@.len() == NUM_GRID_CELLS,
            count == scan_len(self.cells(), gem_block.x as int, gem_block.y as int, gem_block.gem, direction.dx as int, direction.dy as int, scan_fuel()),
            final(run_positions)@ == scan_mask(
                old(run_positions)@,
                self.cells(),
                gem_block.x as int,
                gem_block.y as int,
                gem_block.gem,
                direction.dx as int,
                direction.dy as int,
                scan_fuel(),
            ),
    {
        let ghost cells = self.cells();
        let ghost x0 = gem_block.x as int;
        let ghost y0 = gem_block.y as int;
        let ghost dx = direction.dx as int;
        let ghost dy = direction.dy as int;
        let ghost gem = gem_block.gem;
        let ghost total = scan_len(cells, x0, y0, gem, dx, dy, scan_fuel());
        let ghost total_mask = scan_mask(old(run_positions)@, cells, x0, y0, gem, dx, dy, scan_fuel());
        let mut x: u8 = gem_block.x;
        let mut y: u8 = gem_block.y as u8;
        let mut count: u8 = 0;
        loop
            invariant_except_break
                in_board(x as int, y as int),
                count <= 12,
                dx == 1 ==> x == x0 + count,
                dx == -1 ==> x == x0 - count,
                dx == 0 ==> x == x0,
                dy == 1 ==> y == y0 + count,
                dy == -1 ==> y == y0 - count,
                dy == 0 ==> y == y0,
                count + scan_len(cells, x as int, y as int, gem, dx, dy, (scan_fuel() - count) as nat) == total,
                scan_mask(run_positions@, cells, x as int, y as int, gem, dx, dy, (scan_fuel() - count) as nat) == total_mask,
            invariant
                self.wf(),
                self.cells() == cells,
                run_positions@.len() == NUM_GRID_CELLS,
                block_on_board(gem_block),
                x0 == gem_block.x,
                gem == gem_block.gem,
                y0 == gem_block.y,
                dx == direction.dx,
                dy == direction.dy,
                -1 <= dx <= 1,
                -1 <= dy <= 1,
                dx != 0 || dy != 0,
            ensures
                count <= 12,
                run_positions@.len() == NUM_GRID_CELLS,
                count == total,
                run_positions@ == total_mask,
            decreases 12 - count,
        {
            let scan_x: i16 = x as i16 + direction.dx as i16;
            let scan_y: i16 = y as i16 + direction.dy as i16;
            if scan_x < 0 || scan_x >= BOARD_WIDTH as i16 || scan_y < 0 || scan_y >= BOARD_HEIGHT as i16 {
                break;
            }
            let found = self.get(scan_x as u8, scan_y as u8);
            match found {
                Some(g) => {
                    if !(g == gem_block.gem) {
                        assert(cell_of(cells, x + dx, y + dy) == Some(g));
                        assert(!cell_matches(cells, x + dx, y + dy, gem));
                        assert(scan_len(cells, x as int, y as int, gem, dx, dy, (scan_fuel() - count) as nat) == 0);
                        break;
                    }
                },
                None => {
                    break;
                },
            }
            Self::mark_position(run_positions, scan_x as u8, scan_y as u8);
            x = scan_x as u8;
            y = scan_y as u8;
            count = count + 1;
        }
        count
    }


    // =========================================================================
    // Hanging gems and gravity
    // =========================================================================

    /// Whether some gem rests above an empty cell of its column.
    pub fn has_hanging_gems(&self) -> (r: bool)
        requires
            self.wf(),
        ensures
            r == has_gap_below_gem(self.cells()),
    {
        let ghost cells = self.cells();
        let mut x: u8 = 0;
        while x < BOARD_WIDTH
            invariant
                self.wf(),
                self.cells() == cells,
                x <= BOARD_WIDTH,
                forall|cx: int, y1: int, y2: int|
                    #![trigger cell_of(cells, cx, y1), cell_of(cells, cx, y2)]
                    0 <= cx < x && 0 <= y1 < y2 < BOARD_HEIGHT ==> !(cell_of(cells, cx, y1).is_some()
                        && cell_of(cells, cx, y2).is_none()),
            decreases BOARD_WIDTH - x,
        {
            let mut occupied_seen = false;
            let mut y: u8 = 0;
            while y < BOARD_HEIGHT
                invariant
                    self.wf(),
                    self.cells() == cells,
                    x < BOARD_WIDTH,
                    y <= BOARD_HEIGHT,
                    occupied_seen == (exists|y1: int| 0 <= y1 < y && #[trigger] cell_of(cells, x as int, y1).is_some()),
                    forall|cx: int, y1: int, y2: int|
                        #![trigger cell_of(cells, cx, y1), cell_of(cells, cx, y2)]
                        0 <= cx < x && 0 <= y1 < y2 < BOARD_HEIGHT ==> !(cell_of(cells, cx, y1).is_some()
                            && cell_of(cells, cx, y2).is_none()),
                    forall|y1: int, y2: int|
                        #![trigger cell_of(cells, x as int, y1), cell_of(cells, x as int, y2)]
                        0 <= y1 < y2 < y ==> !(cell_of(cells, x as int, y1).is_some() && cell_of(
                            cells,
                            x as int,
                            y2,
                        ).is_none()),
                decreases BOARD_HEIGHT - y,
            {
                if self.get(x, y).is_some() {
                    occupied_seen = true;
                } else if occupied_seen {
                    proof {
                        let y1 = choose|y1: int| 0 <= y1 < y && #[trigger] cell_of(cells, x as int, y1).is_some();
                        assert(cell_of(cells, x as int, y1).is_some() && cell_of(cells, x as int, y as int).is_none());
                    }
                    return true;
                }
                y = y + 1;
            }
            x = x + 1;
        }
        false
    }

    /// Lets every gem fall to the lowest free cell of its column, keeping the
    /// order of the gems in each column.
    pub fn apply_hanging_gems_gravity(&mut self)
        requires
            old(self).wf(),
        ensures
            final(self).wf(),
            forall|x: int, y: int|
                in_board(x, y) ==> #[trigger] final(self).cell(x, y) == settled_cell(old(self).cells(), x, y),
            final(self).marked() == old(self).marked(),
            final(self).blinking() == old(self).blinking(),
            final(self).is_blinking() == old(self).is_blinking(),
    {
        let ghost cells0 = self.cells();
        let mut x: u8 = 0;
        while x < BOARD_WIDTH
            invariant
                self.wf(),
                x <= BOARD_WIDTH,
                self.marked() == old(self).marked(),
                self.blinking() == old(self).blinking(),
                self.is_blinking() == old(self).is_blinking(),
                forall|cx: int, y: int| 0 <= cx < x && 0 <= y < BOARD_HEIGHT ==> #[trigger] self.cell(cx, y) == settled_cell(cells0, cx, y),
                forall|cx: int, y: int| x <= cx < BOARD_WIDTH && 0 <= y < BOARD_HEIGHT ==> #[trigger] self.cell(cx, y) == cell_of(cells0, cx, y),
            decreases BOARD_WIDTH - x,
        {
            let ghost before = self.cells();
            assert forall|yy: int| 0 <= yy < BOARD_HEIGHT implies #[trigger] cell_of(before, x as int, yy) == cell_of(cells0, x as int, yy) by {
                assert(self.cell(x as int, yy) == cell_of(cells0, x as int, yy));
            }
            self.settle_column(x);
            proof {
                lemma_gems_from_column_only(before, cells0, x as int, 0);
            }
            x = x + 1;
        }
    }

    /// Lets the gems of column `x` fall to its floor.
    fn settle_column(&mut self, x: u8)
        requires
            old(self).wf(),
            x < BOARD_WIDTH,
        ensures
            final(self).wf(),
            final(self).marked() == old(self).marked(),
            final(self).blinking() == old(self).blinking(),
            final(self).is_blinking() == old(self).is_blinking(),
            forall|y: int| 0 <= y < BOARD_HEIGHT ==> #[trigger] final(self).cell(x as int, y) == settled_cell(old(self).cells(), x as int, y),
            forall|cx: int, y: int| cx != x ==> #[trigger] final(self).cell(cx, y) == old(self).cell(cx, y),
    {
        let ghost cells0 = self.cells();
        let ghost xi = x as int;
        let mut y_write: u8 = BOARD_HEIGHT - 1;
        let mut r: u8 = BOARD_HEIGHT;
        proof {
            assert(gems_from(cells0, xi, r as int) =~= Seq::empty());
        }
        while r > 0
            invariant
                self.wf(),
                x < BOARD_WIDTH,
                xi == x,
                r <= BOARD_HEIGHT,
                self.marked() == old(self).marked(),
                self.blinking() == old(self).blinking(),
                self.is_blinking() == old(self).is_blinking(),
                cells0 == old(self).cells(),
                gems_from(cells0, xi, r as int).len() <= BOARD_HEIGHT - r,
                y_write as int == (if 12 - gems_from(cells0, xi, r as int).len() < 0 {
                    0
                } else {
                    12 - gems_from(cells0, xi, r as int).len()
                }),
                forall|y: int| 0 <= y < r ==> #[trigger] self.cell(xi, y) == cell_of(cells0, xi, y),
                forall|y: int|
                    r <= y < BOARD_HEIGHT ==> #[trigger] self.cell(xi, y) == (if y <= 12 - gems_from(cells0, xi, r as int).len() {
                        None
                    } else {
                        Some(gems_from(cells0, xi, r as int)[y - (13 - gems_from(cells0, xi, r as int).len())])
                    }),
                forall|cx: int, y: int| cx != xi ==> #[trigger] self.cell(cx, y) == cell_of(cells0, cx, y),
            decreases r,
        {
            let y_read = r - 1;
            let ghost pre = *self;
            let ghost gs = gems_from(cells0, xi, r as int);
            let ghost w = 12 - gs.len();
            if let Some(gem) = self.get(x, y_read) {
                proof {
                    lemma_gems_from_len(cells0, xi, r as int);
                    assert(gems_from(cells0, xi, y_read as int) == seq![gem] + gs);
                }
                if y_read != y_write {
                    let write_idx = Self::calculate_grid_idx(x, y_write);
                    let read_idx = Self::calculate_grid_idx(x, y_read);
                    let ghost before = self.cells();
                    self.grid.set(write_idx, Some(gem));
                    let ghost mid = self.cells();
                    self.grid.set(read_idx, None);
                    proof {
                        assert forall|cx: int, y: int| #![trigger self.cell(cx, y)] true implies self.cell(cx, y) == (if cx == xi && y == y_read {
                            None
                        } else if cx == xi && y == y_write {
                            Some(gem)
                        } else {
                            cell_of(before, cx, y)
                        }) by {
                            lemma_cell_after_update(before, xi, y_write as int, Some(gem), cx, y);
                            lemma_cell_after_update(mid, xi, y_read as int, None, cx, y);
                        }
                        let gs2 = gems_from(cells0, xi, y_read as int);
                        assert(pre.cells() == before);
                        assert forall|y: int| y_read <= y < BOARD_HEIGHT implies #[trigger] self.cell(xi, y) == (if y <= 12 - gs2.len() {
                            None
                        } else {
                            Some(gs2[y - (13 - gs2.len())])
                        }) by {
                            if y != y_read && y != y_write {
                                assert(self.cell(xi, y) == cell_of(before, xi, y));
                                assert(pre.cell(xi, y) == cell_of(before, xi, y));
                                if y > y_write {
                                    assert(gs2[y - (13 - gs2.len())] == gs[y - (13 - gs.len())]);
                                }
                            }
                            if y == y_write {
                                assert(gs2[0] == gem);
                            }
                        }
                        assert forall|y: int| 0 <= y < y_read implies #[trigger] self.cell(xi, y) == cell_of(cells0, xi, y) by {
                            assert(self.cell(xi, y) == cell_of(before, xi, y));
                            assert(pre.cell(xi, y) == cell_of(before, xi, y));
                        }
                        assert forall|cx: int, y: int| cx != xi implies #[trigger] self.cell(cx, y) == cell_of(cells0, cx, y) by {
                            assert(self.cell(cx, y) == cell_of(before, cx, y));
                            assert(pre.cell(cx, y) == cell_of(before, cx, y));
                        }
                    }
                } else {
                    proof {
                        let gs2 = gems_from(cells0, xi, y_read as int);
                        assert forall|y: int| y_read <= y < BOARD_HEIGHT implies #[trigger] self.cell(xi, y) == (if y <= 12 - gs2.len() {
                            None
                        } else {
                            Some(gs2[y - (13 - gs2.len())])
                        }) by {
                            assert(pre.cell(xi, y) == self.cell(xi, y));
                            if y > y_read {
                                assert(gs2[y - (13 - gs2.len())] == gs[y - (13 - gs.len())]);
                            }
                        }
                    }
                }
                y_write = if y_write > 0 { y_write - 1 } else { 0 };
            } else {
                proof {
                    assert(gems_from(cells0, xi, y_read as int) == gs);
                    assert forall|y: int| y_read <= y < BOARD_HEIGHT implies #[trigger] self.cell(xi, y) == (if y <= 12 - gs.len() {
                        None
                    } else {
                        Some(gs[y - (13 - gs.len())])
                    }) by {
                        assert(pre.cell(xi, y) == self.cell(xi, y));
                    }
                }
            }
            r = r - 1;
        }
        proof {
            assert forall|y: int| 0 <= y < BOARD_HEIGHT implies #[trigger] self.cell(xi, y) == settled_cell(cells0, xi, y) by {
            }
        }
    }

    // =========================================================================
    // Clearing matches
    // =========================================================================

    /// Starts blinking the marked gems where no blink is under way, then lets
    /// the blink advance by the time elapsed since it started: the blinking
    /// gems are hidden in the odd phases and for good at the end, where the
    /// blink stops. Reports whether the blink goes on. The time read from the
    /// clock is not stated; the result holds for some elapsed time.
    pub fn clear_matches(&mut self) -> (blinking: bool)
        requires
            old(self).wf(),
        ensures
            final(self).wf(),
            ({
                let started = !old(self).is_blinking() && any_marked(old(self).marked());
                let list = if started {
                    blink_list(old(self).cells(), old(self).marked(), BOARD_HEIGHT as nat)
                } else {
                    old(self).blinking()
                };
                &&& final(self).marked() == (if started { no_marks() } else { old(self).marked() })
                &&& if old(self).is_blinking() || started {
                    exists|elapsed_ms: u64|
                        {
                            &&& final(self).cells() == apply_blink(old(self).cells(), list, list.len(), blink_dark(elapsed_ms))
                            &&& blinking == !blink_finished(elapsed_ms)
                            &&& blinking ==> final(self).blinking() == list && final(self).is_blinking()
                            &&& !blinking ==> final(self).blinking() == Seq::<(u8, u8, Gem)>::empty() && !final(self).is_blinking()
                        }
                } else {
                    &&& !blinking
                    &&& final(self).cells() == old(self).cells()
                    &&& final(self).blinking() == old(self).blinking()
                    &&& !final(self).is_blinking()
                }
            }),
    {
        if !self.blinking_matches.is_active() && has_marked(&self.matched_positions) {
            self.start_blinking();
        }
        let elapsed_ms = match &self.blinking_matches.blink_time {
            Some(blink_time) => elapsed_millis(blink_time),
            None => 0,
        };
        self.advance_blinking(elapsed_ms)
    }

    /// Takes the marked gems into a new blink, row by row, and clears the
    /// marks.
    fn start_blinking(&mut self)
        requires
            old(self).wf(),
            !old(self).is_blinking(),
        ensures
            final(self).wf(),
            final(self).cells() == old(self).cells(),
            final(self).marked() == no_marks(),
            final(self).blinking() == blink_list(old(self).cells(), old(self).marked(), BOARD_HEIGHT as nat),
            final(self).is_blinking(),
    {
        let ghost cells = self.cells();
        let ghost marked = self.marked();
        let mut matched_gems: Vec<(u8, u8, Gem)> = Vec::new();
        let mut y: u8 = 0;
        while y < BOARD_HEIGHT
            invariant
                self.wf(),
                self.cells() == cells,
                self.marked() == marked,
                y <= BOARD_HEIGHT,
                matched_gems@ == blink_list(cells, marked, y as nat),
            decreases BOARD_HEIGHT - y,
        {
            let mut x: u8 = 0;
            while x < BOARD_WIDTH
                invariant
                    self.wf(),
                    self.cells() == cells,
                    self.marked() == marked,
                    y < BOARD_HEIGHT,
                    x <= BOARD_WIDTH,
                    matched_gems@ == blink_list(cells, marked, y as nat) + blink_row(cells, marked, y as int, x as nat),
                decreases BOARD_WIDTH - x,
            {
                let idx = Self::calculate_grid_idx(x, y);
                if let Some(gem) = self.grid[idx] {
                    if self.matched_positions[idx] {
                        matched_gems.push((x, y, gem));
                        assert(matched_gems@ =~= blink_list(cells, marked, y as nat) + blink_row(cells, marked, y as int, (x + 1) as nat));
                    }
                }
                x = x + 1;
            }
            y = y + 1;
        }
        proof {
            lemma_blink_list_on_board(cells, marked, BOARD_HEIGHT as nat);
        }
        self.blinking_matches.matched_gems = matched_gems;
        self.matched_positions = empty_mask();
        self.blinking_matches.blink_time = Some(instant_now());
    }

    /// Lets a blink under way advance to `elapsed_ms` after its start: the
    /// blinking gems are hidden in the odd phases of 374 ms and shown in the
    /// even ones; after four phases they are hidden for good and the blink
    /// stops. Reports whether the blink goes on; without a blink nothing
    /// changes and the result is `false`.
    pub fn advance_blinking(&mut self, elapsed_ms: u64) -> (blinking: bool)
        requires
            old(self).wf(),
        ensures
            final(self).wf(),
            final(self).marked() == old(self).marked(),
            old(self).is_blinking() ==> {
                &&& final(self).cells() == apply_blink(
                    old(self).cells(),
                    old(self).blinking(),
                    old(self).blinking().len(),
                    blink_dark(elapsed_ms),
                )
                &&& blinking == !blink_finished(elapsed_ms)
                &&& blinking ==> final(self).blinking() == old(self).blinking() && final(self).is_blinking()
                &&& !blinking ==> final(self).blinking() == Seq::<(u8, u8, Gem)>::empty() && !final(self).is_blinking()
            },
            !old(self).is_blinking() ==> {
                &&& !blinking
                &&& final(self).cells() == old(self).cells()
                &&& final(self).blinking() == old(self).blinking()
                &&& !final(self).is_blinking()
            },
    {
        if !self.blinking_matches.is_active() {
            return false;
        }
        let is_finished = elapsed_ms >= BLINK_DURATION_MS * BLINK_NUM_PHASES;
        let is_dark_phase = is_finished || (elapsed_ms / BLINK_DURATION_MS) % 2 != 0;
        let ghost cells = self.cells();
        let ghost list = self.blinking();
        let mut i: usize = 0;
        while i < self.blinking_matches.matched_gems.len()
            invariant
                self.wf(),
                self.blinking() == list,
                self.is_blinking(),
                self.marked() == old(self).marked(),
                i <= list.len(),
                self.cells() == apply_blink(cells, list, i as nat, is_dark_phase),
            decreases list.len() - i,
        {
            let (x, y, original_gem) = self.blinking_matches.matched_gems[i];
            let idx = Self::calculate_grid_idx(x, y);
            if is_dark_phase {
                self.grid.set(idx, None);
            } else {
                self.grid.set(idx, Some(original_gem));
            }
            i = i + 1;
        }
        if is_finished {
            self.blinking_matches.reset();
            return false;
        }
        true
    }

    /// Marks the cell `(x, y)` in `positions`.
    pub fn mark_position(positions: &mut Vec<bool>, x: u8, y: u8)
        requires
            old(positions)@.len() == NUM_GRID_CELLS,
            in_board(x as int, y as int),
        ensures
            final(positions)@ == old(positions)@.update(grid_idx(x as int, y as int), true),
    {
        let idx = Self::calculate_grid_idx(x, y);
        positions.set(idx, true);
    }
}

/// Whether some cell of the mask is marked.
fn has_marked(mask: &Vec<bool>) -> (r: bool)
    requires
        mask@.len() == NUM_GRID_CELLS,
    ensures
        r == any_marked(mask@),
{
    let mut i: usize = 0;
    while i < NUM_GRID_CELLS
        invariant
            i <= NUM_GRID_CELLS,
            mask@.len() == NUM_GRID_CELLS,
            forall|j: int| 0 <= j < i ==> !mask@[j],
        decreases NUM_GRID_CELLS - i,
    {
        if mask[i] {
            return true;
        }
        i = i + 1;
    }
    false
}

/// Whether `run` marks a cell that `seen` does not.
fn adds_new_position(run: &Vec<bool>, seen: &Vec<bool>) -> (r: bool)
    requires
        run@.len() == NUM_GRID_CELLS,
        seen@.len() == NUM_GRID_CELLS,
    ensures
        r == adds_new_cell(run@, seen@),
{
    let mut i: usize = 0;
    while i < NUM_GRID_CELLS
        invariant
            i <= NUM_GRID_CELLS,
            run@.len() == NUM_GRID_CELLS,
            seen@.len() == NUM_GRID_CELLS,
            forall|j: int| 0 <= j < i ==> !(run@[j] && !seen@[j]),
        decreases NUM_GRID_CELLS - i,
    {
        if run[i] && !seen[i] {
            return true;
        }
        i = i + 1;
    }
    false
}

/// Adds the cells of `other` to `target`.
fn mark_union(target: &mut Vec<bool>, other: &Vec<bool>)
    requires
        old(target)@.len() == NUM_GRID_CELLS,
        other@.len() == NUM_GRID_CELLS,
    ensures
        final(target)@ == mask_union(old(target)@, other@),
{
    let mut union: Vec<bool> = Vec::new();
    let mut i: usize = 0;
    while i < NUM_GRID_CELLS
        invariant
            i <= NUM_GRID_CELLS,
            target@.len() == NUM_GRID_CELLS,
            other@.len() == NUM_GRID_CELLS,
            union@.len() == i,
            forall|j: int| 0 <= j < i ==> union@[j] == (target@[j] || other@[j]),
        decreases NUM_GRID_CELLS - i,
    {
        union.push(target[i] || other[i]);
        i = i + 1;
    }
    assert(union@ =~= mask_union(target@, other@));
    *target = union;
}

/// A grid of empty cells.
fn empty_grid() -> (grid: Vec<Option<Gem>>)
    ensures
        grid@ == empty_cells(),
{
    let mut grid: Vec<Option<Gem>> = Vec::new();
    let mut i: usize = 0;
    while i < NUM_GRID_CELLS
        invariant
            i <= NUM_GRID_CELLS,
            grid@.len() == i,
            forall|j: int| 0 <= j < i ==> grid@[j] == None::<Gem>,
        decreases NUM_GRID_CELLS - i,
    {
        grid.push(None);
        i = i + 1;
    }
    assert(grid@ =~= empty_cells());
    grid
}

/// A mask with no cell marked.
fn empty_mask() -> (mask: Vec<bool>)
    ensures
        mask@ == no_marks(),
{
    let mut mask: Vec<bool> = Vec::new();
    let mut i: usize = 0;
    while i < NUM_GRID_CELLS
        invariant
            i <= NUM_GRID_CELLS,
            mask@.len() == i,
            forall|j: int| 0 <= j < i ==> !mask@[j],
        decreases NUM_GRID_CELLS - i,
    {
        mask.push(false);
        i = i + 1;
    }
    assert(mask@ =~= no_marks());
    mask
}

// =============================================================================
// Blinking matches
// =============================================================================

/// Matched gems shown blinking before they are cleared.
struct BlinkingMatches {
    matched_gems: Vec<(u8, u8, Gem)>,
    blink_time: Option<std::time::Instant>,
}

impl BlinkingMatches {
    spec fn wf(&self) -> bool {
        &&& self.blink_time.is_none() ==> self.matched_gems@.len() == 0
        &&& forall|i: int|
            0 <= i < self.matched_gems@.len() ==> in_board(
                (#[trigger] self.matched_gems@[i]).0 as int,
                self.matched_gems@[i].1 as int,
            )
    }

    fn new() -> (b: BlinkingMatches)
        ensures
            b.wf(),
            b.matched_gems@ == Seq::<(u8, u8, Gem)>::empty(),
            b.blink_time.is_none(),
    {
        BlinkingMatches { matched_gems: Vec::new(), blink_time: None }
    }

    /// Whether a blink is under way.
    fn is_active(&self) -> (active: bool)
        ensures
            active == self.blink_time.is_some(),
    {
        self.blink_time.is_some()
    }

    fn reset(&mut self)
        ensures
            final(self).wf(),
            final(self).matched_gems@ == Seq::<(u8, u8, Gem)>::empty(),
            final(self).blink_time.is_none(),
    {
        self.matched_gems = Vec::new();
        self.blink_time = None;
    }
}

// =============================================================================
// Laws
// =============================================================================

proof fn lemma_scan_mask_keeps(
    mask: Seq<bool>,
    cells: Seq<Option<Gem>>,
    x: int,
    y: int,
    gem: Gem,
    dx: int,
    dy: int,
    fuel: nat,
)
    requires
        mask.len() == NUM_GRID_CELLS,
    ensures
        scan_mask(mask, cells, x, y, gem, dx, dy, fuel).len() == mask.len(),
        forall|i: int| 0 <= i < mask.len() && mask[i] ==> #[trigger] scan_mask(mask, cells, x, y, gem, dx, dy, fuel)[i],
    decreases fuel,
{
    if !(fuel == 0 || !cell_matches(cells, x + dx, y + dy, gem)) {
        let next = mask.update(grid_idx(x + dx, y + dy), true);
        lemma_scan_mask_keeps(next, cells, x + dx, y + dy, gem, dx, dy, (fuel - 1) as nat);
        assert forall|i: int| 0 <= i < mask.len() && mask[i] implies #[trigger] scan_mask(
            mask,
            cells,
            x,
            y,
            gem,
            dx,
            dy,
            fuel,
        )[i] by {
            if i != grid_idx(x + dx, y + dy) {
                assert(next[i] == mask[i]);
            }
        }
    }
}

proof fn lemma_run_mask_holds_own_cell(cells: Seq<Option<Gem>>, b: GemBlock, dx: int, dy: int)
    requires
        block_on_board(b),
    ensures
        run_mask(cells, b, dx, dy).len() == NUM_GRID_CELLS,
        run_mask(cells, b, dx, dy)[grid_idx(b.x as int, b.y as int)],
{
    let idx = grid_idx(b.x as int, b.y as int);
    let start = no_marks().update(idx, true);
    lemma_scan_mask_keeps(start, cells, b.x as int, b.y as int, b.gem, dx, dy, scan_fuel());
    let forward = scan_mask(start, cells, b.x as int, b.y as int, b.gem, dx, dy, scan_fuel());
    assert(start[idx]);
    assert(forward[idx]);
    lemma_scan_mask_keeps(forward, cells, b.x as int, b.y as int, b.gem, -dx, -dy, scan_fuel());
}

/// Whether a mask marks some cell.
pub open spec fn any_marked_cell(mask: Seq<bool>) -> bool {
    exists|i: int| 0 <= i < NUM_GRID_CELLS && #[trigger] mask[i]
}

/// Whether some block among the first `k` of `checks` lies in a line of three
/// or more equal gems in direction `d`.
pub open spec fn some_line_in_direction(cells: Seq<Option<Gem>>, checks: Seq<GemBlock>, d: int, k: int) -> bool {
    exists|j: int| 0 <= j < k && #[trigger] run_len(cells, checks[j], dir_dx(d), dir_dy(d)) >= MIN_CONSECUTIVE_GEMS_TO_MATCH
}

proof fn lemma_tally_direction_finds(
    cells: Seq<Option<Gem>>,
    checks: Seq<GemBlock>,
    d: int,
    k: nat,
    start: MatchTally,
)
    requires
        k <= checks.len(),
        forall|j: int| 0 <= j < checks.len() ==> block_on_board(#[trigger] checks[j]),
        start.seen.len() == NUM_GRID_CELLS,
        any_marked_cell(start.seen) ==> start.has_matches,
    ensures
        tally_direction(cells, checks, d, k, start).seen.len() == NUM_GRID_CELLS,
        any_marked_cell(tally_direction(cells, checks, d, k, start).seen) ==> tally_direction(
            cells,
            checks,
            d,
            k,
            start,
        ).has_matches,
        tally_direction(cells, checks, d, k, start).has_matches == (start.has_matches || some_line_in_direction(
            cells,
            checks,
            d,
            k as int,
        )),
    decreases k,
{
    if k > 0 {
        lemma_tally_direction_finds(cells, checks, d, (k - 1) as nat, start);
        let prev = tally_direction(cells, checks, d, (k - 1) as nat, start);
        let b = checks[k - 1];
        let len = run_len(cells, b, dir_dx(d), dir_dy(d));
        let run = run_mask(cells, b, dir_dx(d), dir_dy(d));
        lemma_run_mask_holds_own_cell(cells, b, dir_dx(d), dir_dy(d));
        let idx = grid_idx(b.x as int, b.y as int);
        if len >= MIN_CONSECUTIVE_GEMS_TO_MATCH {
            assert(some_line_in_direction(cells, checks, d, k as int));
            if !adds_new_cell(run, prev.seen) {
                assert(run[idx] && !(run[idx] && !prev.seen[idx]));
                assert(prev.seen[idx]);
                assert(any_marked_cell(prev.seen));
            }
        } else {
            assert(some_line_in_direction(cells, checks, d, k as int) == some_line_in_direction(
                cells,
                checks,
                d,
                k - 1,
            )) by {
                if some_line_in_direction(cells, checks, d, k as int) {
                    let j = choose|j: int|
                        0 <= j < k && #[trigger] run_len(cells, checks[j], dir_dx(d), dir_dy(d))
                            >= MIN_CONSECUTIVE_GEMS_TO_MATCH;
                    assert(j < k - 1);
                }
            }
        }
    }
}

/// Whether some block of `checks` lies in a line of three or more equal gems
/// in one of the first `nd` directions.
pub open spec fn some_line(cells: Seq<Option<Gem>>, checks: Seq<GemBlock>, nd: int) -> bool {
    exists|d: int| 0 <= d < nd && #[trigger] some_line_in_direction(cells, checks, d, checks.len() as int)
}

proof fn lemma_tally_directions_finds(cells: Seq<Option<Gem>>, checks: Seq<GemBlock>, nd: nat, marked: Seq<bool>)
    requires
        forall|j: int| 0 <= j < checks.len() ==> block_on_board(#[trigger] checks[j]),
    ensures
        tally_directions(cells, checks, nd, marked).has_matches == some_line(cells, checks, nd as int),
    decreases nd,
{
    if nd > 0 {
        lemma_tally_directions_finds(cells, checks, (nd - 1) as nat, marked);
        let prev = tally_directions(cells, checks, (nd - 1) as nat, marked);
        let start = MatchTally { seen: no_marks(), matched: prev.matched, points: prev.points, has_matches: prev.has_matches };
        assert(!any_marked_cell(no_marks()));
        lemma_tally_direction_finds(cells, checks, nd - 1, checks.len(), start);
        if some_line(cells, checks, nd as int) && !some_line(cells, checks, nd - 1) {
            let d = choose|d: int| 0 <= d < nd && #[trigger] some_line_in_direction(cells, checks, d, checks.len() as int);
            assert(d == nd - 1);
        }
        if some_line_in_direction(cells, checks, nd - 1, checks.len() as int) {
            assert(some_line(cells, checks, nd as int));
        }
        if some_line(cells, checks, nd - 1) {
            let d = choose|d: int| 0 <= d < nd - 1 && #[trigger] some_line_in_direction(cells, checks, d, checks.len() as int);
            assert(some_line(cells, checks, nd as int));
        }
    }
}

/// A search finds a match exactly when one of the gems it starts from lies in
/// a line of three or more equal gems, in one of the four directions.
pub proof fn lemma_match_found_iff_line_of_three(structure: MatchingStructure, cells: Seq<Option<Gem>>, marked: Seq<bool>)
    ensures
        search_points(match_search(structure, cells, marked)) is Some <==> some_line(
            cells,
            checks_for(structure, cells),
            4,
        ),
{
    lemma_checks_on_board(structure, cells);
    lemma_tally_directions_finds(cells, checks_for(structure, cells), 4, marked);
}

/// After gravity no gem hangs: a grid whose cells are those of `before`
/// settled has no gem above an empty cell.
pub proof fn lemma_settled_grid_has_no_gap(before: Seq<Option<Gem>>, after: Seq<Option<Gem>>)
    requires
        forall|x: int, y: int| in_board(x, y) ==> #[trigger] cell_of(after, x, y) == settled_cell(before, x, y),
    ensures
        !has_gap_below_gem(after),
{
    assert forall|x: int, y1: int, y2: int|
        0 <= x < BOARD_WIDTH && 0 <= y1 < y2 < BOARD_HEIGHT && #[trigger] cell_of(after, x, y1).is_some() implies #[trigger] cell_of(
        after,
        x,
        y2,
    ).is_some() by {
        assert(cell_of(after, x, y1) == settled_cell(before, x, y1));
        assert(cell_of(after, x, y2) == settled_cell(before, x, y2));
    }
}

/// Gravity keeps each column's gems and their order: the gems of a column,
/// read top to bottom, are the same before and after.
pub proof fn lemma_settled_column_keeps_gems(before: Seq<Option<Gem>>, x: int, y: int)
    requires
        0 <= x < BOARD_WIDTH,
        0 <= y < BOARD_HEIGHT,
        BOARD_HEIGHT - gems_from(before, x, 0).len() <= y,
    ensures
        settled_cell(before, x, y) == Some(gems_from(before, x, 0)[y - (BOARD_HEIGHT - gems_from(before, x, 0).len())]),
{
}

/// Locking a column that lies wholly on the board puts its three gems where
/// its blocks stand, and leaves every other cell as it was.
pub proof fn lemma_locked_column_reads_back(cells: Seq<Option<Gem>>, column: Column, x: int, y: int)
    requires
        cells.len() == NUM_GRID_CELLS,
        leading_on_board(column.spec_gem_blocks()) == 3,
    ensures
        ({
            let blocks = column.spec_gem_blocks();
            let placed = place_blocks(cells, blocks, 3);
            &&& forall|k: int| 0 <= k < 3 ==> cell_of(placed, #[trigger] blocks[k].x as int, blocks[k].y as int)
                == Some(blocks[k].gem)
            &&& (x != column.spec_x() || y < column.spec_y() || y > column.spec_y() + 2) ==> cell_of(placed, x, y)
                == cell_of(cells, x, y)
        }),
{
    let blocks = column.spec_gem_blocks();
    let p1 = place_blocks(cells, blocks, 1);
    let p2 = place_blocks(cells, blocks, 2);
    let p3 = place_blocks(cells, blocks, 3);
    assert(place_blocks(cells, blocks, 0) == cells);
    assert(p1 == cells.update(grid_idx(blocks[0].x as int, blocks[0].y as int), Some(blocks[0].gem)));
    assert(p2 == p1.update(grid_idx(blocks[1].x as int, blocks[1].y as int), Some(blocks[1].gem)));
    assert(p3 == p2.update(grid_idx(blocks[2].x as int, blocks[2].y as int), Some(blocks[2].gem)));
    lemma_cell_after_update(cells, blocks[0].x as int, blocks[0].y as int, Some(blocks[0].gem), x, y);
    lemma_cell_after_update(p1, blocks[1].x as int, blocks[1].y as int, Some(blocks[1].gem), x, y);
    lemma_cell_after_update(p2, blocks[2].x as int, blocks[2].y as int, Some(blocks[2].gem), x, y);
    assert forall|k: int| 0 <= k < 3 implies cell_of(p3, #[trigger] blocks[k].x as int, blocks[k].y as int) == Some(
        blocks[k].gem,
    ) by {
        let bx = blocks[k].x as int;
        let by_ = blocks[k].y as int;
        lemma_cell_after_update(cells, blocks[0].x as int, blocks[0].y as int, Some(blocks[0].gem), bx, by_);
        lemma_cell_after_update(p1, blocks[1].x as int, blocks[1].y as int, Some(blocks[1].gem), bx, by_);
        lemma_cell_after_update(p2, blocks[2].x as int, blocks[2].y as int, Some(blocks[2].gem), bx, by_);
    }
}

/// Once the blink of matches is over, every gem that blinked is gone: its
/// cell is empty.
pub proof fn lemma_finished_blink_clears(cells: Seq<Option<Gem>>, list: Seq<(u8, u8, Gem)>, k: nat)
    requires
        cells.len() == NUM_GRID_CELLS,
        k <= list.len(),
        forall|i: int| 0 <= i < list.len() ==> in_board((#[trigger] list[i]).0 as int, list[i].1 as int),
    ensures
        apply_blink(cells, list, k, true).len() == NUM_GRID_CELLS,
        forall|i: int| 0 <= i < k ==> cell_of(apply_blink(cells, list, k, true), (#[trigger] list[i]).0 as int, list[i].1 as int) is None,
    decreases k,
{
    if k > 0 {
        lemma_finished_blink_clears(cells, list, (k - 1) as nat);
        let prev = apply_blink(cells, list, (k - 1) as nat, true);
        let (x0, y0, g0) = list[k - 1];
        assert forall|i: int| 0 <= i < k implies cell_of(
            apply_blink(cells, list, k, true),
            (#[trigger] list[i]).0 as int,
            list[i].1 as int,
        ) is None by {
            lemma_cell_after_update(prev, x0 as int, y0 as int, None, list[i].0 as int, list[i].1 as int);
        }
    }
}

proof fn lemma_tally_direction_keeps_marks(
    cells: Seq<Option<Gem>>,
    checks: Seq<GemBlock>,
    d: int,
    k: nat,
    start: MatchTally,
)
    requires
        start.matched.len() == NUM_GRID_CELLS,
    ensures
        tally_direction(cells, checks, d, k, start).matched.len() == NUM_GRID_CELLS,
        forall|i: int| 0 <= i < NUM_GRID_CELLS && start.matched[i] ==> #[trigger] tally_direction(cells, checks, d, k, start).matched[i],
    decreases k,
{
    if k > 0 {
        lemma_tally_direction_keeps_marks(cells, checks, d, (k - 1) as nat, start);
    }
}

proof fn lemma_tally_directions_keeps_marks(cells: Seq<Option<Gem>>, checks: Seq<GemBlock>, nd: nat, marked: Seq<bool>)
    requires
        marked.len() == NUM_GRID_CELLS,
    ensures
        tally_directions(cells, checks, nd, marked).matched.len() == NUM_GRID_CELLS,
        forall|i: int| 0 <= i < NUM_GRID_CELLS && marked[i] ==> #[trigger] tally_directions(cells, checks, nd, marked).matched[i],
    decreases nd,
{
    if nd > 0 {
        lemma_tally_directions_keeps_marks(cells, checks, (nd - 1) as nat, marked);
        let prev = tally_directions(cells, checks, (nd - 1) as nat, marked);
        let start = MatchTally { seen: no_marks(), matched: prev.matched, points: prev.points, has_matches: prev.has_matches };
        lemma_tally_direction_keeps_marks(cells, checks, nd - 1, checks.len(), start);
    }
}

/// A search only adds marks: every cell marked before it stays marked.
pub proof fn lemma_search_keeps_marks(structure: MatchingStructure, cells: Seq<Option<Gem>>, marked: Seq<bool>)
    requires
        marked.len() == NUM_GRID_CELLS,
    ensures
        forall|i: int| 0 <= i < NUM_GRID_CELLS && marked[i] ==> #[trigger] match_search(structure, cells, marked).matched[i],
{
    lemma_tally_directions_keeps_marks(cells, checks_for(structure, cells), 4, marked);
}

proof fn lemma_gems_from_occupied(c: Seq<Option<Gem>>, x: int, y: int)
    requires
        0 <= x < BOARD_WIDTH,
        0 <= y <= BOARD_HEIGHT,
        forall|yy: int| y <= yy < BOARD_HEIGHT ==> (#[trigger] cell_of(c, x, yy)) is Some,
    ensures
        gems_from(c, x, y).len() == BOARD_HEIGHT - y,
        forall|k: int| 0 <= k < BOARD_HEIGHT - y ==> Some(#[trigger] gems_from(c, x, y)[k]) == cell_of(c, x, y + k),
    decreases BOARD_HEIGHT - y,
{
    if y < BOARD_HEIGHT {
        lemma_gems_from_occupied(c, x, y + 1);
        let rest = gems_from(c, x, y + 1);
        assert(cell_of(c, x, y) is Some);
        let gem = cell_of(c, x, y)->Some_0;
        assert(gems_from(c, x, y) == seq![gem] + rest);
        assert forall|k: int| 0 <= k < BOARD_HEIGHT - y implies Some(#[trigger] gems_from(c, x, y)[k]) == cell_of(
            c,
            x,
            y + k,
        ) by {
            if k > 0 {
                assert(gems_from(c, x, y)[k] == rest[k - 1]);
                assert(Some(rest[k - 1]) == cell_of(c, x, y + 1 + (k - 1)));
            }
        }
    }
}

proof fn lemma_gems_from_skips_empty(c: Seq<Option<Gem>>, x: int, y: int, t: int)
    requires
        0 <= y <= t <= BOARD_HEIGHT,
        forall|yy: int| y <= yy < t ==> (#[trigger] cell_of(c, x, yy)) is None,
    ensures
        gems_from(c, x, y) == gems_from(c, x, t),
    decreases t - y,
{
    if y < t {
        assert(cell_of(c, x, y) is None);
        lemma_gems_from_skips_empty(c, x, y + 1, t);
    }
}

/// The row of the topmost gem of column `x` from row `y` down; the floor
/// where there is none.
pub open spec fn first_gem_row(c: Seq<Option<Gem>>, x: int, y: int) -> int
    decreases BOARD_HEIGHT - y,
{
    if y >= BOARD_HEIGHT {
        BOARD_HEIGHT as int
    } else if cell_of(c, x, y) is Some {
        y
    } else {
        first_gem_row(c, x, y + 1)
    }
}

proof fn lemma_first_gem_row(c: Seq<Option<Gem>>, x: int, y: int)
    requires
        0 <= y <= BOARD_HEIGHT,
    ensures
        y <= first_gem_row(c, x, y) <= BOARD_HEIGHT,
        forall|yy: int| y <= yy < first_gem_row(c, x, y) ==> (#[trigger] cell_of(c, x, yy)) is None,
        first_gem_row(c, x, y) < BOARD_HEIGHT ==> cell_of(c, x, first_gem_row(c, x, y)) is Some,
    decreases BOARD_HEIGHT - y,
{
    if y < BOARD_HEIGHT && cell_of(c, x, y) is None {
        lemma_first_gem_row(c, x, y + 1);
    }
}

/// Gravity changes nothing where no gem hangs: each cell of a grid without a
/// gem above an empty cell is already where gravity would put it.
pub proof fn lemma_gravity_keeps_a_compact_grid(cells: Seq<Option<Gem>>, x: int, y: int)
    requires
        !has_gap_below_gem(cells),
        in_board(x, y),
    ensures
        settled_cell(cells, x, y) == cell_of(cells, x, y),
{
    lemma_first_gem_row(cells, x, 0);
    let t = first_gem_row(cells, x, 0);
    assert forall|yy: int| t <= yy < BOARD_HEIGHT implies (#[trigger] cell_of(cells, x, yy)) is Some by {
        if yy > t {
            assert(!(cell_of(cells, x, t).is_some() && cell_of(cells, x, yy).is_none()));
        }
    }
    lemma_gems_from_skips_empty(cells, x, 0, t);
    lemma_gems_from_occupied(cells, x, t);
    let gems = gems_from(cells, x, 0);
    if y >= t {
        assert(Some(gems[y - t]) == cell_of(cells, x, t + (y - t)));
    }
}

proof fn lemma_pile_column_checks_has(cells: Seq<Option<Gem>>, x: int, rows: nat, y: int)
    requires
        0 <= x < BOARD_WIDTH,
        rows <= BOARD_HEIGHT,
        0 <= y < rows,
        cell_of(cells, x, y) is Some,
    ensures
        pile_column_checks(cells, x, rows).contains(GemBlock { x: x as u8, y: y as i8, gem: cell_of(cells, x, y)->Some_0 }),
    decreases rows,
{
    let prev = pile_column_checks(cells, x, (rows - 1) as nat);
    let b = GemBlock { x: x as u8, y: y as i8, gem: cell_of(cells, x, y)->Some_0 };
    if y < rows - 1 {
        lemma_pile_column_checks_has(cells, x, (rows - 1) as nat, y);
        let k = choose|k: int| 0 <= k < prev.len() && prev[k] == b;
        match cell_of(cells, x, rows - 1) {
            Some(gem) => {
                let now = prev.push(GemBlock { x: x as u8, y: (rows - 1) as i8, gem });
                assert(now[k] == b);
            },
            None => {},
        }
    } else {
        let now = pile_column_checks(cells, x, rows);
        assert(now == prev.push(b));
        assert(now[prev.len() as int] == b);
    }
}

proof fn lemma_pile_checks_has(cells: Seq<Option<Gem>>, cols: nat, x: int, y: int)
    requires
        cols <= BOARD_WIDTH,
        0 <= x < cols,
        0 <= y < BOARD_HEIGHT,
        cell_of(cells, x, y) is Some,
    ensures
        pile_checks(cells, cols).contains(GemBlock { x: x as u8, y: y as i8, gem: cell_of(cells, x, y)->Some_0 }),
    decreases cols,
{
    let a = pile_checks(cells, (cols - 1) as nat);
    let b = pile_column_checks(cells, cols - 1, BOARD_HEIGHT as nat);
    let blk = GemBlock { x: x as u8, y: y as i8, gem: cell_of(cells, x, y)->Some_0 };
    if x < cols - 1 {
        lemma_pile_checks_has(cells, (cols - 1) as nat, x, y);
        let k = choose|k: int| 0 <= k < a.len() && a[k] == blk;
        assert((a + b)[k] == blk);
    } else {
        lemma_pile_column_checks_has(cells, x, BOARD_HEIGHT as nat, y);
        let k = choose|k: int| 0 <= k < b.len() && b[k] == blk;
        assert((a + b)[a.len() + k] == blk);
    }
}

/// A search through a column whose gems lie in the grid finds a match only
/// where a search of the whole pile of the same grid finds one too: every
/// line through the column's gems is a line through the pile's gems.
pub proof fn lemma_column_match_is_pile_match(column: Column, cells: Seq<Option<Gem>>, marked: Seq<bool>, pile_marked: Seq<bool>)
    requires
        forall|k: int|
            0 <= k < 3 && block_on_board(#[trigger] column.spec_gem_blocks()[k]) ==> cell_of(
                cells,
                column.spec_gem_blocks()[k].x as int,
                column.spec_gem_blocks()[k].y as int,
            ) == Some(column.spec_gem_blocks()[k].gem),
        search_points(match_search(MatchingStructure::Column(&column), cells, marked)) is Some,
    ensures
        search_points(match_search(MatchingStructure::Pile, cells, pile_marked)) is Some,
{
    let col_checks = checks_for(MatchingStructure::Column(&column), cells);
    let pile = checks_for(MatchingStructure::Pile, cells);
    lemma_match_found_iff_line_of_three(MatchingStructure::Column(&column), cells, marked);
    lemma_match_found_iff_line_of_three(MatchingStructure::Pile, cells, pile_marked);
    lemma_checks_on_board(MatchingStructure::Column(&column), cells);
    let d = choose|d: int| 0 <= d < 4 && #[trigger] some_line_in_direction(cells, col_checks, d, col_checks.len() as int);
    let j = choose|j: int|
        0 <= j < col_checks.len() && #[trigger] run_len(cells, col_checks[j], dir_dx(d), dir_dy(d))
            >= MIN_CONSECUTIVE_GEMS_TO_MATCH;
    let b = col_checks[j];
    lemma_column_checks_are_blocks(column.spec_gem_blocks(), 3);
    let k = choose|k: int| 0 <= k < 3 && column.spec_gem_blocks()[k] == b;
    assert(block_on_board(b));
    assert(cell_of(cells, b.x as int, b.y as int) == Some(b.gem));
    lemma_pile_checks_has(cells, BOARD_WIDTH as nat, b.x as int, b.y as int);
    let m = choose|m: int| 0 <= m < pile.len() && pile[m] == GemBlock { x: (b.x as int) as u8, y: (b.y as int) as i8, gem: b.gem };
    assert(pile[m] == b);
    assert(run_len(cells, pile[m], dir_dx(d), dir_dy(d)) >= MIN_CONSECUTIVE_GEMS_TO_MATCH);
    assert(some_line_in_direction(cells, pile, d, pile.len() as int));
}

/// Whether grid cell `i` lies on a line of three or more, in direction `d`,
/// through one of the first `k` checks.
pub open spec fn on_counted_line(cells: Seq<Option<Gem>>, checks: Seq<GemBlock>, d: int, k: int, i: int) -> bool {
    exists|j: int|
        0 <= j < k && run_len(cells, checks[j], dir_dx(d), dir_dy(d)) >= MIN_CONSECUTIVE_GEMS_TO_MATCH
            && #[trigger] run_mask(cells, checks[j], dir_dx(d), dir_dy(d))[i]
}

/// Whether grid cell `i` lies on a line of three or more, in one of the first
/// `nd` directions, through one of the checks.
pub open spec fn on_any_counted_line(cells: Seq<Option<Gem>>, checks: Seq<GemBlock>, nd: int, i: int) -> bool {
    exists|d: int| 0 <= d < nd && #[trigger] on_counted_line(cells, checks, d, checks.len() as int, i)
}

proof fn lemma_tally_direction_marks(cells: Seq<Option<Gem>>, checks: Seq<GemBlock>, d: int, k: nat, start: MatchTally)
    requires
        k <= checks.len(),
        start.seen.len() == NUM_GRID_CELLS,
        start.matched.len() == NUM_GRID_CELLS,
        forall|i: int| 0 <= i < NUM_GRID_CELLS && #[trigger] start.seen[i] ==> start.matched[i],
    ensures
        ({
            let r = tally_direction(cells, checks, d, k, start);
            &&& r.seen.len() == NUM_GRID_CELLS
            &&& r.matched.len() == NUM_GRID_CELLS
            &&& forall|i: int| 0 <= i < NUM_GRID_CELLS && #[trigger] r.seen[i] ==> r.matched[i]
            &&& forall|i: int|
                0 <= i < NUM_GRID_CELLS ==> #[trigger] r.seen[i] == (start.seen[i] || on_counted_line(
                    cells,
                    checks,
                    d,
                    k as int,
                    i,
                ))
            &&& forall|i: int|
                0 <= i < NUM_GRID_CELLS ==> #[trigger] r.matched[i] == (start.matched[i] || on_counted_line(
                    cells,
                    checks,
                    d,
                    k as int,
                    i,
                ))
        }),
    decreases k,
{
    if k > 0 {
        lemma_tally_direction_marks(cells, checks, d, (k - 1) as nat, start);
        let t = tally_direction(cells, checks, d, (k - 1) as nat, start);
        let r = tally_direction(cells, checks, d, k, start);
        let b = checks[k - 1];
        let len = run_len(cells, b, dir_dx(d), dir_dy(d));
        let run = run_mask(cells, b, dir_dx(d), dir_dy(d));
        assert(r == tally_step(cells, t, b, d));
        assert forall|i: int| 0 <= i < NUM_GRID_CELLS implies #[trigger] on_counted_line(cells, checks, d, k as int, i)
            == (on_counted_line(cells, checks, d, k - 1, i) || (len >= MIN_CONSECUTIVE_GEMS_TO_MATCH && run[i])) by {
            if on_counted_line(cells, checks, d, k as int, i) {
                let j = choose|j: int|
                    0 <= j < k && run_len(cells, checks[j], dir_dx(d), dir_dy(d)) >= MIN_CONSECUTIVE_GEMS_TO_MATCH
                        && #[trigger] run_mask(cells, checks[j], dir_dx(d), dir_dy(d))[i];
                if j < k - 1 {
                    assert(on_counted_line(cells, checks, d, k - 1, i));
                }
            }
            if on_counted_line(cells, checks, d, k - 1, i) {
                let j = choose|j: int|
                    0 <= j < k - 1 && run_len(cells, checks[j], dir_dx(d), dir_dy(d)) >= MIN_CONSECUTIVE_GEMS_TO_MATCH
                        && #[trigger] run_mask(cells, checks[j], dir_dx(d), dir_dy(d))[i];
                assert(on_counted_line(cells, checks, d, k as int, i));
            }
            if len >= MIN_CONSECUTIVE_GEMS_TO_MATCH && run[i] {
                assert(run_mask(cells, checks[k - 1], dir_dx(d), dir_dy(d))[i]);
                assert(on_counted_line(cells, checks, d, k as int, i));
            }
        }
        if len >= MIN_CONSECUTIVE_GEMS_TO_MATCH && !adds_new_cell(run, t.seen) {
            assert forall|i: int| 0 <= i < NUM_GRID_CELLS && run[i] implies t.matched[i] by {
                assert(!(run[i] && !t.seen[i]));
            }
        }
    }
}

proof fn lemma_tally_directions_marks(cells: Seq<Option<Gem>>, checks: Seq<GemBlock>, nd: nat, marked: Seq<bool>)
    requires
        marked.len() == NUM_GRID_CELLS,
    ensures
        tally_directions(cells, checks, nd, marked).matched.len() == NUM_GRID_CELLS,
        forall|i: int|
            0 <= i < NUM_GRID_CELLS ==> #[trigger] tally_directions(cells, checks, nd, marked).matched[i] == (marked[i]
                || on_any_counted_line(cells, checks, nd as int, i)),
    decreases nd,
{
    if nd > 0 {
        lemma_tally_directions_marks(cells, checks, (nd - 1) as nat, marked);
        let prev = tally_directions(cells, checks, (nd - 1) as nat, marked);
        let start = MatchTally { seen: no_marks(), matched: prev.matched, points: prev.points, has_matches: prev.has_matches };
        lemma_tally_direction_marks(cells, checks, nd - 1, checks.len(), start);
        assert forall|i: int| 0 <= i < NUM_GRID_CELLS implies #[trigger] on_any_counted_line(cells, checks, nd as int, i)
            == (on_any_counted_line(cells, checks, nd - 1, i) || on_counted_line(
            cells,
            checks,
            nd - 1,
            checks.len() as int,
            i,
        )) by {
            if on_any_counted_line(cells, checks, nd as int, i) {
                let d = choose|d: int| 0 <= d < nd && #[trigger] on_counted_line(cells, checks, d, checks.len() as int, i);
                if d < nd - 1 {
                    assert(on_any_counted_line(cells, checks, nd - 1, i));
                }
            }
            if on_any_counted_line(cells, checks, nd - 1, i) {
                let d = choose|d: int| 0 <= d < nd - 1 && #[trigger] on_counted_line(cells, checks, d, checks.len() as int, i);
                assert(on_any_counted_line(cells, checks, nd as int, i));
            }
        }
    }
}

/// The cells that a search through a column whose gems lie in the grid marks
/// as matched are all marked by a search of the whole pile of the same grid
/// (from marks that hold the column search's own): every line through the
/// column's gems is a line through the pile's gems. A search marks the cells
/// it started with and every cell of each line of three or more equal gems
/// through the blocks it looks at.
pub proof fn lemma_column_marks_are_pile_marks(
    column: Column,
    cells: Seq<Option<Gem>>,
    marked: Seq<bool>,
    pile_marked: Seq<bool>,
)
    requires
        forall|k: int|
            0 <= k < 3 && block_on_board(#[trigger] column.spec_gem_blocks()[k]) ==> cell_of(
                cells,
                column.spec_gem_blocks()[k].x as int,
                column.spec_gem_blocks()[k].y as int,
            ) == Some(column.spec_gem_blocks()[k].gem),
        marked.len() == NUM_GRID_CELLS,
        pile_marked.len() == NUM_GRID_CELLS,
        forall|i: int| 0 <= i < NUM_GRID_CELLS && #[trigger] marked[i] ==> pile_marked[i],
    ensures
        forall|i: int|
            0 <= i < NUM_GRID_CELLS ==> #[trigger] match_search(MatchingStructure::Column(&column), cells, marked).matched[i]
                == (marked[i] || on_any_counted_line(cells, checks_for(MatchingStructure::Column(&column), cells), 4, i)),
        forall|i: int|
            0 <= i < NUM_GRID_CELLS && #[trigger] match_search(MatchingStructure::Column(&column), cells, marked).matched[i]
                ==> match_search(MatchingStructure::Pile, cells, pile_marked).matched[i],
{
    let col_checks = checks_for(MatchingStructure::Column(&column), cells);
    let pile = checks_for(MatchingStructure::Pile, cells);
    lemma_tally_directions_marks(cells, col_checks, 4, marked);
    lemma_tally_directions_marks(cells, pile, 4, pile_marked);
    lemma_checks_on_board(MatchingStructure::Column(&column), cells);
    lemma_column_checks_are_blocks(column.spec_gem_blocks(), 3);
    assert forall|i: int|
        0 <= i < NUM_GRID_CELLS && #[trigger] match_search(MatchingStructure::Column(&column), cells, marked).matched[i]
            implies match_search(MatchingStructure::Pile, cells, pile_marked).matched[i] by {
        if !marked[i] {
            assert(on_any_counted_line(cells, col_checks, 4, i));
            let d = choose|d: int| 0 <= d < 4 && #[trigger] on_counted_line(cells, col_checks, d, col_checks.len() as int, i);
            let j = choose|j: int|
                0 <= j < col_checks.len() && run_len(cells, col_checks[j], dir_dx(d), dir_dy(d))
                    >= MIN_CONSECUTIVE_GEMS_TO_MATCH && #[trigger] run_mask(cells, col_checks[j], dir_dx(d), dir_dy(d))[i];
            let b = col_checks[j];
            let k = choose|k: int| 0 <= k < 3 && column.spec_gem_blocks()[k] == b;
            assert(block_on_board(b));
            assert(cell_of(cells, b.x as int, b.y as int) == Some(b.gem));
            lemma_pile_checks_has(cells, BOARD_WIDTH as nat, b.x as int, b.y as int);
            let m = choose|m: int|
                0 <= m < pile.len() && pile[m] == GemBlock { x: (b.x as int) as u8, y: (b.y as int) as i8, gem: b.gem };
            assert(pile[m] == b);
            assert(run_mask(cells, pile[m], dir_dx(d), dir_dy(d))[i]);
            assert(on_counted_line(cells, pile, d, pile.len() as int, i));
            assert(on_any_counted_line(cells, pile, 4, i));
        }
    }
}

// -----------------------------------------------------------------------------
// Lines of equal gems: each is a stretch of its row, column or diagonal
// -----------------------------------------------------------------------------

/// Whether the cell `t` steps of `(dx, dy)` away from `(x, y)` holds `gem`.
pub open spec fn holds_at(cells: Seq<Option<Gem>>, x: int, y: int, gem: Gem, dx: int, dy: int, t: int) -> bool {
    cell_matches(cells, x + t * dx, y + t * dy, gem)
}

/// The grid index of the cell `t` steps of `(dx, dy)` away from `(x, y)`.
pub open spec fn index_at(x: int, y: int, dx: int, dy: int, t: int) -> int {
    grid_idx(x + t * dx, y + t * dy)
}

proof fn lemma_shift(a: int, dx: int, s: int, t: int)
    ensures
        (a + s * dx) + t * dx == a + (s + t) * dx,
        a + t * (-dx) == a + (-t) * dx,
{
    assert((a + s * dx) + t * dx == a + (s + t) * dx) by (nonlinear_arith);
    assert(a + t * (-dx) == a + (-t) * dx) by (nonlinear_arith);
}

proof fn lemma_scan_len_facts(cells: Seq<Option<Gem>>, x: int, y: int, gem: Gem, dx: int, dy: int, fuel: nat)
    ensures
        scan_len(cells, x, y, gem, dx, dy, fuel) <= fuel,
        forall|t: int|
            1 <= t <= scan_len(cells, x, y, gem, dx, dy, fuel) ==> #[trigger] holds_at(cells, x, y, gem, dx, dy, t),
        scan_len(cells, x, y, gem, dx, dy, fuel) < fuel ==> !holds_at(
            cells,
            x,
            y,
            gem,
            dx,
            dy,
            scan_len(cells, x, y, gem, dx, dy, fuel) as int + 1,
        ),
    decreases fuel,
{
    if fuel == 0 || !cell_matches(cells, x + dx, y + dy, gem) {
        lemma_shift(x, dx, 0, 1);
        lemma_shift(y, dy, 0, 1);
    } else {
        lemma_scan_len_facts(cells, x + dx, y + dy, gem, dx, dy, (fuel - 1) as nat);
        let n1 = scan_len(cells, x + dx, y + dy, gem, dx, dy, (fuel - 1) as nat);
        assert forall|t: int| 1 <= t <= n1 + 1 implies #[trigger] holds_at(cells, x, y, gem, dx, dy, t) by {
            lemma_shift(x, dx, 1, t - 1);
            lemma_shift(y, dy, 1, t - 1);
            if t > 1 {
                assert(holds_at(cells, x + dx, y + dy, gem, dx, dy, t - 1));
            }
        }
        lemma_shift(x, dx, 1, n1 as int + 1);
        lemma_shift(y, dy, 1, n1 as int + 1);
    }
}

proof fn lemma_scan_mask_cells(
    mask: Seq<bool>,
    cells: Seq<Option<Gem>>,
    x: int,
    y: int,
    gem: Gem,
    dx: int,
    dy: int,
    fuel: nat,
)
    requires
        mask.len() == NUM_GRID_CELLS,
    ensures
        scan_mask(mask, cells, x, y, gem, dx, dy, fuel).len() == NUM_GRID_CELLS,
        forall|i: int|
            0 <= i < NUM_GRID_CELLS ==> #[trigger] scan_mask(mask, cells, x, y, gem, dx, dy, fuel)[i] == (mask[i]
                || exists|t: int|
                1 <= t <= scan_len(cells, x, y, gem, dx, dy, fuel) && i == #[trigger] index_at(x, y, dx, dy, t)),
    decreases fuel,
{
    if !(fuel == 0 || !cell_matches(cells, x + dx, y + dy, gem)) {
        let next = mask.update(grid_idx(x + dx, y + dy), true);
        lemma_scan_mask_cells(next, cells, x + dx, y + dy, gem, dx, dy, (fuel - 1) as nat);
        let n1 = scan_len(cells, x + dx, y + dy, gem, dx, dy, (fuel - 1) as nat);
        assert forall|i: int| 0 <= i < NUM_GRID_CELLS implies #[trigger] scan_mask(mask, cells, x, y, gem, dx, dy, fuel)[i]
            == (mask[i] || exists|t: int|
            1 <= t <= scan_len(cells, x, y, gem, dx, dy, fuel) && i == #[trigger] index_at(x, y, dx, dy, t)) by {
            lemma_shift(x, dx, 0, 1);
            lemma_shift(y, dy, 0, 1);
            assert(scan_mask(mask, cells, x, y, gem, dx, dy, fuel) == scan_mask(
                next,
                cells,
                x + dx,
                y + dy,
                gem,
                dx,
                dy,
                (fuel - 1) as nat,
            ));
            assert(scan_len(cells, x, y, gem, dx, dy, fuel) == n1 + 1);
            assert(index_at(x, y, dx, dy, 1) == grid_idx(x + dx, y + dy));
            let inner = exists|t: int| 1 <= t <= n1 && i == #[trigger] index_at(x + dx, y + dy, dx, dy, t);
            let outer = exists|t: int| 1 <= t <= n1 + 1 && i == #[trigger] index_at(x, y, dx, dy, t);
            if inner {
                let t = choose|t: int| 1 <= t <= n1 && i == #[trigger] index_at(x + dx, y + dy, dx, dy, t);
                lemma_shift(x, dx, 1, t);
                lemma_shift(y, dy, 1, t);
                assert(i == index_at(x, y, dx, dy, t + 1));
                assert(outer);
            }
            if i == grid_idx(x + dx, y + dy) {
                assert(outer);
            }
            if outer {
                let t = choose|t: int| 1 <= t <= n1 + 1 && i == #[trigger] index_at(x, y, dx, dy, t);
                if t > 1 {
                    lemma_shift(x, dx, 1, t - 1);
                    lemma_shift(y, dy, 1, t - 1);
                    assert(i == index_at(x + dx, y + dy, dx, dy, t - 1));
                    assert(inner);
                } else {
                    assert(i == grid_idx(x + dx, y + dy));
                }
            }
            assert(next[i] == (mask[i] || i == grid_idx(x + dx, y + dy)));
        }
    }
}

/// How far the line of `b.gem` through `b` runs on in direction `d`.
pub open spec fn run_ahead(cells: Seq<Option<Gem>>, b: GemBlock, d: int) -> int {
    scan_len(cells, b.x as int, b.y as int, b.gem, dir_dx(d), dir_dy(d), scan_fuel()) as int
}

/// How far the line of `b.gem` through `b` runs back against direction `d`.
pub open spec fn run_behind(cells: Seq<Option<Gem>>, b: GemBlock, d: int) -> int {
    scan_len(cells, b.x as int, b.y as int, b.gem, -dir_dx(d), -dir_dy(d), scan_fuel()) as int
}

proof fn lemma_scan_ends_on_board(cells: Seq<Option<Gem>>, x: int, y: int, gem: Gem, dx: int, dy: int)
    requires
        in_board(x, y),
        dx == 1 || dx == -1 || (dx == 0 && (dy == 1 || dy == -1)),
    ensures
        scan_len(cells, x, y, gem, dx, dy, scan_fuel()) < scan_fuel(),
{
    lemma_scan_len_facts(cells, x, y, gem, dx, dy, scan_fuel());
    if scan_len(cells, x, y, gem, dx, dy, scan_fuel()) == scan_fuel() {
        if dx != 0 {
            assert(holds_at(cells, x, y, gem, dx, dy, 6));
        } else {
            assert(holds_at(cells, x, y, gem, dx, dy, 13));
        }
    }
}

/// The line of `b.gem` through `b` in direction `d` is the stretch from
/// `run_behind` steps back to `run_ahead` steps ahead: all of it holds the
/// gem, the cells just beyond its ends do not.
proof fn lemma_run_shape(cells: Seq<Option<Gem>>, b: GemBlock, d: int)
    requires
        0 <= d < 4,
        block_on_board(b),
        cell_of(cells, b.x as int, b.y as int) == Some(b.gem),
    ensures
        run_len(cells, b, dir_dx(d), dir_dy(d)) == 1 + run_ahead(cells, b, d) + run_behind(cells, b, d),
        0 <= run_ahead(cells, b, d) < scan_fuel(),
        0 <= run_behind(cells, b, d) < scan_fuel(),
        run_mask(cells, b, dir_dx(d), dir_dy(d)).len() == NUM_GRID_CELLS,
        forall|i: int|
            0 <= i < NUM_GRID_CELLS ==> #[trigger] run_mask(cells, b, dir_dx(d), dir_dy(d))[i] == exists|t: int|
                -run_behind(cells, b, d) <= t <= run_ahead(cells, b, d) && i == #[trigger] index_at(
                    b.x as int,
                    b.y as int,
                    dir_dx(d),
                    dir_dy(d),
                    t,
                ),
        forall|t: int|
            -run_behind(cells, b, d) <= t <= run_ahead(cells, b, d) ==> #[trigger] holds_at(
                cells,
                b.x as int,
                b.y as int,
                b.gem,
                dir_dx(d),
                dir_dy(d),
                t,
            ),
        !holds_at(cells, b.x as int, b.y as int, b.gem, dir_dx(d), dir_dy(d), run_ahead(cells, b, d) + 1),
        !holds_at(cells, b.x as int, b.y as int, b.gem, dir_dx(d), dir_dy(d), -run_behind(cells, b, d) - 1),
{
    let (x, y, gem, dx, dy) = (b.x as int, b.y as int, b.gem, dir_dx(d), dir_dy(d));
    let f = run_ahead(cells, b, d);
    let k = run_behind(cells, b, d);
    lemma_scan_len_facts(cells, x, y, gem, dx, dy, scan_fuel());
    lemma_scan_len_facts(cells, x, y, gem, -dx, -dy, scan_fuel());
    lemma_scan_ends_on_board(cells, x, y, gem, dx, dy);
    lemma_scan_ends_on_board(cells, x, y, gem, -dx, -dy);
    let idx = grid_idx(x, y);
    let start = no_marks().update(idx, true);
    lemma_scan_mask_cells(start, cells, x, y, gem, dx, dy, scan_fuel());
    let forward = scan_mask(start, cells, x, y, gem, dx, dy, scan_fuel());
    lemma_scan_mask_cells(forward, cells, x, y, gem, -dx, -dy, scan_fuel());
    assert forall|t: int| -k <= t <= f implies #[trigger] holds_at(cells, x, y, gem, dx, dy, t) by {
        lemma_shift(x, dx, 0, t);
        lemma_shift(y, dy, 0, t);
        lemma_shift(x, dx, 0, -t);
        lemma_shift(y, dy, 0, -t);
        if t < 0 {
            assert(holds_at(cells, x, y, gem, -dx, -dy, -t));
        } else if t == 0 {
            assert(x + 0 * dx == x && y + 0 * dy == y);
        }
    }
    lemma_shift(x, dx, 0, k + 1);
    lemma_shift(y, dy, 0, k + 1);
    assert(!holds_at(cells, x, y, gem, -dx, -dy, k + 1));
    assert forall|i: int| 0 <= i < NUM_GRID_CELLS implies #[trigger] run_mask(cells, b, dx, dy)[i] == exists|t: int|
        -k <= t <= f && i == #[trigger] index_at(x, y, dx, dy, t) by {
        let rhs = exists|t: int| -k <= t <= f && i == #[trigger] index_at(x, y, dx, dy, t);
        let back = exists|t: int| 1 <= t <= k && i == #[trigger] index_at(x, y, -dx, -dy, t);
        let ahead = exists|t: int| 1 <= t <= f && i == #[trigger] index_at(x, y, dx, dy, t);
        assert(index_at(x, y, dx, dy, 0) == idx) by {
            assert(x + 0 * dx == x && y + 0 * dy == y);
        }
        if back {
            let t = choose|t: int| 1 <= t <= k && i == #[trigger] index_at(x, y, -dx, -dy, t);
            lemma_shift(x, dx, 0, t);
            lemma_shift(y, dy, 0, t);
            assert(i == index_at(x, y, dx, dy, -t));
            assert(rhs);
        }
        if ahead {
            assert(rhs);
        }
        if i == idx {
            assert(rhs);
        }
        if rhs {
            let t = choose|t: int| -k <= t <= f && i == #[trigger] index_at(x, y, dx, dy, t);
            if t < 0 {
                lemma_shift(x, dx, 0, -t);
                lemma_shift(y, dy, 0, -t);
                assert(i == index_at(x, y, -dx, -dy, -t));
                assert(back);
            } else if t > 0 {
                assert(ahead);
            }
        }
    }
}

/// Two lines of equal gems in one direction that share a cell are the same
/// line: same cells, same length.
#[verifier::rlimit(50)]
#[verifier::spinoff_prover]
proof fn lemma_lines_that_meet_are_one(cells: Seq<Option<Gem>>, b: GemBlock, c: GemBlock, d: int, i: int)
    requires
        0 <= d < 4,
        block_on_board(b),
        cell_of(cells, b.x as int, b.y as int) == Some(b.gem),
        block_on_board(c),
        cell_of(cells, c.x as int, c.y as int) == Some(c.gem),
        0 <= i < NUM_GRID_CELLS,
        run_mask(cells, b, dir_dx(d), dir_dy(d))[i],
        run_mask(cells, c, dir_dx(d), dir_dy(d))[i],
    ensures
        run_mask(cells, b, dir_dx(d), dir_dy(d)) == run_mask(cells, c, dir_dx(d), dir_dy(d)),
        run_len(cells, b, dir_dx(d), dir_dy(d)) == run_len(cells, c, dir_dx(d), dir_dy(d)),
{
    let (dx, dy) = (dir_dx(d), dir_dy(d));
    let (bx, by, cx, cy) = (b.x as int, b.y as int, c.x as int, c.y as int);
    lemma_run_shape(cells, b, d);
    lemma_run_shape(cells, c, d);
    let (fb, kb, fc, kc) = (run_ahead(cells, b, d), run_behind(cells, b, d), run_ahead(cells, c, d), run_behind(cells, c, d));
    let t = choose|t: int| -kb <= t <= fb && i == #[trigger] index_at(bx, by, dx, dy, t);
    let s = choose|s: int| -kc <= s <= fc && i == #[trigger] index_at(cx, cy, dx, dy, s);
    assert(holds_at(cells, bx, by, b.gem, dx, dy, t));
    assert(holds_at(cells, cx, cy, c.gem, dx, dy, s));
    // The shared cell is one point of the board.
    assert(bx + t * dx == cx + s * dx && by + t * dy == cy + s * dy);
    assert(b.gem == c.gem);
    let delta = t - s;
    lemma_shift(bx, dx, delta, s);
    lemma_shift(by, dy, delta, s);
    assert(cx == bx + delta * dx && cy == by + delta * dy);
    // A cell `u` steps from `c` is `delta + u` steps from `b`.
    assert forall|u: int| #[trigger] holds_at(cells, cx, cy, c.gem, dx, dy, u) == holds_at(
        cells,
        bx,
        by,
        b.gem,
        dx,
        dy,
        delta + u,
    ) by {
        lemma_shift(bx, dx, delta, u);
        lemma_shift(by, dy, delta, u);
    }
    assert forall|u: int| #[trigger] index_at(cx, cy, dx, dy, u) == index_at(bx, by, dx, dy, delta + u) by {
        lemma_shift(bx, dx, delta, u);
        lemma_shift(by, dy, delta, u);
    }
    if fb > fc + delta {
        assert(holds_at(cells, bx, by, b.gem, dx, dy, fc + delta + 1));
        assert(holds_at(cells, cx, cy, c.gem, dx, dy, fc + 1));
    }
    if fb < fc + delta {
        assert(holds_at(cells, cx, cy, c.gem, dx, dy, fb + 1 - delta));
        assert(holds_at(cells, bx, by, b.gem, dx, dy, fb + 1));
    }
    if -kb < delta - kc {
        assert(holds_at(cells, bx, by, b.gem, dx, dy, delta - kc - 1));
        assert(holds_at(cells, cx, cy, c.gem, dx, dy, -kc - 1));
    }
    if -kb > delta - kc {
        assert(holds_at(cells, cx, cy, c.gem, dx, dy, -kb - 1 - delta));
        assert(holds_at(cells, bx, by, b.gem, dx, dy, -kb - 1));
    }
    assert forall|j: int| 0 <= j < NUM_GRID_CELLS implies run_mask(cells, b, dx, dy)[j] == run_mask(cells, c, dx, dy)[j] by {
        assert(run_mask(cells, b, dx, dy)[j] == exists|t2: int| -kb <= t2 <= fb && j == #[trigger] index_at(bx, by, dx, dy, t2));
        assert(run_mask(cells, c, dx, dy)[j] == exists|s2: int| -kc <= s2 <= fc && j == #[trigger] index_at(cx, cy, dx, dy, s2));
        if exists|t2: int| -kb <= t2 <= fb && j == #[trigger] index_at(bx, by, dx, dy, t2) {
            let t2 = choose|t2: int| -kb <= t2 <= fb && j == #[trigger] index_at(bx, by, dx, dy, t2);
            assert(j == index_at(cx, cy, dx, dy, t2 - delta));
        }
        if exists|s2: int| -kc <= s2 <= fc && j == #[trigger] index_at(cx, cy, dx, dy, s2) {
            let s2 = choose|s2: int| -kc <= s2 <= fc && j == #[trigger] index_at(cx, cy, dx, dy, s2);
            assert(j == index_at(bx, by, dx, dy, delta + s2));
        }
    }
    assert(run_mask(cells, b, dx, dy) =~= run_mask(cells, c, dx, dy));
}

/// Whether every block of `checks` lies on the board and holds its gem.
pub open spec fn checks_in_grid(cells: Seq<Option<Gem>>, checks: Seq<GemBlock>) -> bool {
    forall|j: int|
        0 <= j < checks.len() ==> block_on_board(#[trigger] checks[j]) && cell_of(cells, checks[j].x as int, checks[j].y as int)
            == Some(checks[j].gem)
}

/// Whether check `j` lies on a line of three or more in direction `d` that
/// no earlier check lies on.
pub open spec fn first_on_line(cells: Seq<Option<Gem>>, checks: Seq<GemBlock>, d: int, j: int) -> bool {
    &&& run_len(cells, checks[j], dir_dx(d), dir_dy(d)) >= MIN_CONSECUTIVE_GEMS_TO_MATCH
    &&& forall|j2: int|
        0 <= j2 < j ==> !(run_len(cells, checks[j2], dir_dx(d), dir_dy(d)) >= MIN_CONSECUTIVE_GEMS_TO_MATCH
            && #[trigger] run_mask(cells, checks[j2], dir_dx(d), dir_dy(d)) == run_mask(
            cells,
            checks[j],
            dir_dx(d),
            dir_dy(d),
        ))
}

/// The product of the lengths of the distinct lines of three or more, in
/// direction `d`, through the first `k` checks.
pub open spec fn lines_product(cells: Seq<Option<Gem>>, checks: Seq<GemBlock>, d: int, k: nat) -> int
    decreases k,
{
    if k == 0 {
        1
    } else {
        lines_product(cells, checks, d, (k - 1) as nat) * (if first_on_line(cells, checks, d, k - 1) {
            run_len(cells, checks[k - 1], dir_dx(d), dir_dy(d)) as int
        } else {
            1
        })
    }
}

/// The product of those over the first `nd` directions.
pub open spec fn directions_product(cells: Seq<Option<Gem>>, checks: Seq<GemBlock>, nd: nat) -> int
    decreases nd,
{
    if nd == 0 {
        1
    } else {
        directions_product(cells, checks, (nd - 1) as nat) * lines_product(cells, checks, nd - 1, checks.len())
    }
}

/// `v`, held at `u32::MAX`.
pub open spec fn capped(v: int) -> int {
    if v > u32::MAX {
        u32::MAX as int
    } else {
        v
    }
}

proof fn lemma_capped_times(x: int, y: int)
    requires
        x >= 0,
        y >= 1,
    ensures
        capped(capped(x) * y) == capped(x * y),
        x * y >= x,
{
    assert(x * y >= x) by (nonlinear_arith)
        requires
            x >= 0,
            y >= 1,
    ;
    if x > u32::MAX {
        assert(u32::MAX * y >= u32::MAX) by (nonlinear_arith)
            requires
                y >= 1,
        ;
    }
}

proof fn lemma_product_at_least_one(a: int, b: int)
    requires
        a >= 1,
        b >= 1,
    ensures
        a * b >= 1,
        a * b >= a,
{
    assert(a * b >= a) by (nonlinear_arith)
        requires
            a >= 1,
            b >= 1,
    ;
}

proof fn lemma_lines_product_positive(cells: Seq<Option<Gem>>, checks: Seq<GemBlock>, d: int, k: nat)
    ensures
        lines_product(cells, checks, d, k) >= 1,
    decreases k,
{
    if k > 0 {
        lemma_lines_product_positive(cells, checks, d, (k - 1) as nat);
        lemma_product_at_least_one(
            lines_product(cells, checks, d, (k - 1) as nat),
            if first_on_line(cells, checks, d, k - 1) {
                run_len(cells, checks[k - 1], dir_dx(d), dir_dy(d)) as int
            } else {
                1
            },
        );
    }
}

proof fn lemma_directions_product_positive(cells: Seq<Option<Gem>>, checks: Seq<GemBlock>, nd: nat)
    ensures
        directions_product(cells, checks, nd) >= 1,
    decreases nd,
{
    if nd > 0 {
        lemma_directions_product_positive(cells, checks, (nd - 1) as nat);
        lemma_lines_product_positive(cells, checks, nd - 1, checks.len());
        lemma_product_at_least_one(
            directions_product(cells, checks, (nd - 1) as nat),
            lines_product(cells, checks, nd - 1, checks.len()),
        );
    }
}

/// In one direction, a check is counted exactly when it is the first on its
/// line: the points are multiplied by the length of each distinct line.
proof fn lemma_tally_direction_points(cells: Seq<Option<Gem>>, checks: Seq<GemBlock>, d: int, k: nat, start: MatchTally)
    requires
        0 <= d < 4,
        k <= checks.len(),
        checks_in_grid(cells, checks),
        start.seen == no_marks(),
        start.matched.len() == NUM_GRID_CELLS,
        start.points >= 1,
    ensures
        tally_direction(cells, checks, d, k, start).points == capped(start.points * lines_product(cells, checks, d, k)),
    decreases k,
{
    if k > 0 {
        lemma_tally_direction_points(cells, checks, d, (k - 1) as nat, start);
        lemma_tally_direction_marks(cells, checks, d, (k - 1) as nat, start);
        let t = tally_direction(cells, checks, d, (k - 1) as nat, start);
        let b = checks[k - 1];
        let (dx, dy) = (dir_dx(d), dir_dy(d));
        let len = run_len(cells, b, dx, dy);
        let run = run_mask(cells, b, dx, dy);
        let p = lines_product(cells, checks, d, (k - 1) as nat);
        lemma_lines_product_positive(cells, checks, d, (k - 1) as nat);
        lemma_run_mask_holds_own_cell(cells, b, dx, dy);
        lemma_run_shape(cells, b, d);
        if len >= MIN_CONSECUTIVE_GEMS_TO_MATCH {
            if first_on_line(cells, checks, d, k - 1) {
                let own = grid_idx(b.x as int, b.y as int);
                if t.seen[own] {
                    assert(on_counted_line(cells, checks, d, k - 1, own));
                    let j = choose|j: int|
                        0 <= j < k - 1 && run_len(cells, checks[j], dx, dy) >= MIN_CONSECUTIVE_GEMS_TO_MATCH
                            && #[trigger] run_mask(cells, checks[j], dx, dy)[own];
                    lemma_lines_that_meet_are_one(cells, checks[j], b, d, own);
                    assert(run_mask(cells, checks[j], dx, dy) == run_mask(cells, checks[k - 1], dx, dy));
                    assert(false);
                }
                assert(adds_new_cell(run, t.seen));
                lemma_capped_times(start.points * p, len as int);
                assert(start.points * (p * len) == (start.points * p) * len) by (nonlinear_arith);
                assert(saturating_product(t.points, len as u32) == capped(t.points * len));
            } else {
                let j2 = choose|j2: int|
                    0 <= j2 < k - 1 && (run_len(cells, checks[j2], dx, dy) >= MIN_CONSECUTIVE_GEMS_TO_MATCH
                        && #[trigger] run_mask(cells, checks[j2], dx, dy) == run_mask(cells, checks[k - 1], dx, dy));
                assert forall|i: int| 0 <= i < NUM_GRID_CELLS && run[i] implies t.seen[i] by {
                    assert(run_mask(cells, checks[j2], dx, dy)[i]);
                    assert(on_counted_line(cells, checks, d, k - 1, i));
                }
                assert(!adds_new_cell(run, t.seen));
            }
        }
    }
}

proof fn lemma_tally_directions_points(cells: Seq<Option<Gem>>, checks: Seq<GemBlock>, nd: nat, marked: Seq<bool>)
    requires
        nd <= 4,
        checks_in_grid(cells, checks),
        marked.len() == NUM_GRID_CELLS,
    ensures
        tally_directions(cells, checks, nd, marked).points == capped(directions_product(cells, checks, nd)),
    decreases nd,
{
    if nd > 0 {
        lemma_tally_directions_points(cells, checks, (nd - 1) as nat, marked);
        lemma_tally_directions_marks(cells, checks, (nd - 1) as nat, marked);
        let prev = tally_directions(cells, checks, (nd - 1) as nat, marked);
        let start = MatchTally { seen: no_marks(), matched: prev.matched, points: prev.points, has_matches: prev.has_matches };
        lemma_directions_product_positive(cells, checks, (nd - 1) as nat);
        lemma_lines_product_positive(cells, checks, nd - 1, checks.len());
        lemma_tally_direction_points(cells, checks, nd - 1, checks.len(), start);
        lemma_capped_times(directions_product(cells, checks, (nd - 1) as nat), lines_product(cells, checks, nd - 1, checks.len()));
    }
}

/// Whether some check among the first `k` lies on a line of three or more,
/// in direction `d`, whose cells are `line`.
pub open spec fn line_among(cells: Seq<Option<Gem>>, checks: Seq<GemBlock>, d: int, k: int, line: Seq<bool>) -> bool {
    exists|j: int|
        0 <= j < k && run_len(cells, checks[j], dir_dx(d), dir_dy(d)) >= MIN_CONSECUTIVE_GEMS_TO_MATCH
            && #[trigger] run_mask(cells, checks[j], dir_dx(d), dir_dy(d)) == line
}

/// The product of the lengths of the distinct lines through the first `n`
/// checks of `inner` that are also lines through the first `k` of `outer`.
pub open spec fn shared_lines_product(
    cells: Seq<Option<Gem>>,
    inner: Seq<GemBlock>,
    outer: Seq<GemBlock>,
    d: int,
    n: nat,
    k: int,
) -> int
    decreases n,
{
    if n == 0 {
        1
    } else {
        shared_lines_product(cells, inner, outer, d, (n - 1) as nat, k) * (if first_on_line(cells, inner, d, n - 1)
            && line_among(cells, outer, d, k, run_mask(cells, inner[n - 1], dir_dx(d), dir_dy(d))) {
            run_len(cells, inner[n - 1], dir_dx(d), dir_dy(d)) as int
        } else {
            1
        })
    }
}

proof fn lemma_shared_lines_step(
    cells: Seq<Option<Gem>>,
    inner: Seq<GemBlock>,
    outer: Seq<GemBlock>,
    d: int,
    n: nat,
    k: int,
)
    requires
        0 <= d < 4,
        n <= inner.len(),
        0 <= k < outer.len(),
        checks_in_grid(cells, inner),
        checks_in_grid(cells, outer),
    ensures
        shared_lines_product(cells, inner, outer, d, n, k) >= 1,
        shared_lines_product(cells, inner, outer, d, n, k + 1) <= shared_lines_product(cells, inner, outer, d, n, k) * (
        if first_on_line(cells, outer, d, k) {
            run_len(cells, outer[k], dir_dx(d), dir_dy(d)) as int
        } else {
            1
        }),
        (exists|j: int|
            0 <= j < n && first_on_line(cells, inner, d, j) && #[trigger] run_mask(cells, inner[j], dir_dx(d), dir_dy(d))
                == run_mask(cells, outer[k], dir_dx(d), dir_dy(d))) ==> shared_lines_product(cells, inner, outer, d, n, k + 1)
            == shared_lines_product(cells, inner, outer, d, n, k) * (if first_on_line(cells, outer, d, k) {
            run_len(cells, outer[k], dir_dx(d), dir_dy(d)) as int
        } else {
            1
        }),
        !(exists|j: int|
            0 <= j < n && first_on_line(cells, inner, d, j) && #[trigger] run_mask(cells, inner[j], dir_dx(d), dir_dy(d))
                == run_mask(cells, outer[k], dir_dx(d), dir_dy(d))) ==> shared_lines_product(cells, inner, outer, d, n, k + 1)
            == shared_lines_product(cells, inner, outer, d, n, k),
    decreases n,
{
    let (dx, dy) = (dir_dx(d), dir_dy(d));
    let ob = outer[k];
    let olen = run_len(cells, ob, dx, dy) as int;
    let oline = run_mask(cells, ob, dx, dy);
    let g = if first_on_line(cells, outer, d, k) { olen } else { 1 };
    lemma_run_shape(cells, ob, d);
    if n > 0 {
        lemma_shared_lines_step(cells, inner, outer, d, (n - 1) as nat, k);
        let ib = inner[n - 1];
        let iline = run_mask(cells, ib, dx, dy);
        let ilen = run_len(cells, ib, dx, dy) as int;
        let a0 = shared_lines_product(cells, inner, outer, d, (n - 1) as nat, k);
        let a1 = shared_lines_product(cells, inner, outer, d, (n - 1) as nat, k + 1);
        let before = line_among(cells, outer, d, k, iline);
        let after = line_among(cells, outer, d, k + 1, iline);
        let f0 = if first_on_line(cells, inner, d, n - 1) && before { ilen } else { 1 };
        let f1 = if first_on_line(cells, inner, d, n - 1) && after { ilen } else { 1 };
        lemma_run_shape(cells, ib, d);
        assert(after == (before || (olen >= MIN_CONSECUTIVE_GEMS_TO_MATCH && oline == iline))) by {
            if after {
                let j = choose|j: int|
                    0 <= j < k + 1 && run_len(cells, outer[j], dx, dy) >= MIN_CONSECUTIVE_GEMS_TO_MATCH
                        && #[trigger] run_mask(cells, outer[j], dx, dy) == iline;
                if j < k {
                    assert(before);
                }
            }
            if before {
                let j = choose|j: int|
                    0 <= j < k && run_len(cells, outer[j], dx, dy) >= MIN_CONSECUTIVE_GEMS_TO_MATCH
                        && #[trigger] run_mask(cells, outer[j], dx, dy) == iline;
                assert(after);
            }
            if olen >= MIN_CONSECUTIVE_GEMS_TO_MATCH && oline == iline {
                assert(run_mask(cells, outer[k], dx, dy) == iline);
                assert(after);
            }
        }
        let ex_prev = exists|j: int|
            0 <= j < n - 1 && first_on_line(cells, inner, d, j) && #[trigger] run_mask(cells, inner[j], dx, dy) == oline;
        let ex = exists|j: int|
            0 <= j < n && first_on_line(cells, inner, d, j) && #[trigger] run_mask(cells, inner[j], dx, dy) == oline;
        let this = first_on_line(cells, inner, d, n - 1) && iline == oline;
        assert(ex == (ex_prev || this)) by {
            if ex {
                let j = choose|j: int|
                    0 <= j < n && first_on_line(cells, inner, d, j) && #[trigger] run_mask(cells, inner[j], dx, dy) == oline;
                if j < n - 1 {
                    assert(ex_prev);
                }
            }
            if ex_prev {
                let j = choose|j: int|
                    0 <= j < n - 1 && first_on_line(cells, inner, d, j) && #[trigger] run_mask(cells, inner[j], dx, dy) == oline;
                assert(ex);
            }
        }
        if this {
            // The lines are the same, and so are their lengths.
            let own = grid_idx(ib.x as int, ib.y as int);
            lemma_run_mask_holds_own_cell(cells, ib, dx, dy);
            lemma_lines_that_meet_are_one(cells, ib, ob, d, own);
            assert(ilen == olen);
            assert(!ex_prev) by {
                if ex_prev {
                    let j = choose|j: int|
                        0 <= j < n - 1 && first_on_line(cells, inner, d, j) && #[trigger] run_mask(cells, inner[j], dx, dy)
                            == oline;
                    assert(run_mask(cells, inner[j], dx, dy) == run_mask(cells, inner[n - 1], dx, dy));
                }
            }
            // a1 == a0 here
            if first_on_line(cells, outer, d, k) {
                assert(!before) by {
                    if before {
                        let j = choose|j: int|
                            0 <= j < k && run_len(cells, outer[j], dx, dy) >= MIN_CONSECUTIVE_GEMS_TO_MATCH
                                && #[trigger] run_mask(cells, outer[j], dx, dy) == iline;
                        assert(run_mask(cells, outer[j], dx, dy) == run_mask(cells, outer[k], dx, dy));
                    }
                }
                assert(f0 == 1 && f1 == olen);
            } else {
                assert(before) by {
                    let j2 = choose|j2: int|
                        0 <= j2 < k && (run_len(cells, outer[j2], dx, dy) >= MIN_CONSECUTIVE_GEMS_TO_MATCH
                            && #[trigger] run_mask(cells, outer[j2], dx, dy) == run_mask(cells, outer[k], dx, dy));
                }
                assert(f0 == f1);
            }
            assert(a1 == a0);
            assert(a0 * f1 == a0 * f0 * g) by (nonlinear_arith)
                requires
                    (f0 == 1 && f1 == g) || (f0 == f1 && g == 1),
            ;
        } else {
            assert(f0 == f1) by {
                if first_on_line(cells, inner, d, n - 1) && !before && after {
                    assert(oline == iline);
                }
            }
        }
        let s0 = shared_lines_product(cells, inner, outer, d, n, k);
        let s1 = shared_lines_product(cells, inner, outer, d, n, k + 1);
        assert(s0 == a0 * f0);
        assert(s1 == a1 * f1);
        lemma_product_at_least_one(a0, f0);
        assert(g >= 1);
        if ex {
            if this {
                assert(s1 == s0 * g) by (nonlinear_arith)
                    requires
                        s1 == a1 * f1,
                        s0 == a0 * f0,
                        a1 == a0,
                        a0 * f1 == a0 * f0 * g,
                ;
            } else {
                assert(ex_prev);
                assert(a1 == a0 * g);
                assert(s1 == s0 * g) by (nonlinear_arith)
                    requires
                        s1 == a1 * f1,
                        s0 == a0 * f0,
                        a1 == a0 * g,
                        f0 == f1,
                ;
            }
        } else {
            assert(!ex_prev);
            assert(a1 == a0);
        }
        assert(s0 <= s0 * g) by (nonlinear_arith)
            requires
                s0 >= 1,
                g >= 1,
        ;
    } else {
        assert(g >= 1);
        assert(1 <= 1 * g) by (nonlinear_arith)
            requires
                g >= 1,
        ;
    }
}

proof fn lemma_shared_lines_none_yet(
    cells: Seq<Option<Gem>>,
    inner: Seq<GemBlock>,
    outer: Seq<GemBlock>,
    d: int,
    n: nat,
)
    ensures
        shared_lines_product(cells, inner, outer, d, n, 0) == 1,
    decreases n,
{
    if n > 0 {
        lemma_shared_lines_none_yet(cells, inner, outer, d, (n - 1) as nat);
    }
}

proof fn lemma_shared_lines_within(
    cells: Seq<Option<Gem>>,
    inner: Seq<GemBlock>,
    outer: Seq<GemBlock>,
    d: int,
    k: nat,
)
    requires
        0 <= d < 4,
        k <= outer.len(),
        checks_in_grid(cells, inner),
        checks_in_grid(cells, outer),
    ensures
        shared_lines_product(cells, inner, outer, d, inner.len(), k as int) <= lines_product(cells, outer, d, k),
    decreases k,
{
    if k == 0 {
        lemma_shared_lines_none_yet(cells, inner, outer, d, inner.len());
    } else {
        lemma_shared_lines_within(cells, inner, outer, d, (k - 1) as nat);
        lemma_shared_lines_step(cells, inner, outer, d, inner.len(), k - 1);
        let g = if first_on_line(cells, outer, d, k - 1) {
            run_len(cells, outer[k - 1], dir_dx(d), dir_dy(d)) as int
        } else {
            1
        };
        let s0 = shared_lines_product(cells, inner, outer, d, inner.len(), k - 1);
        let s1 = shared_lines_product(cells, inner, outer, d, inner.len(), k as int);
        let l0 = lines_product(cells, outer, d, (k - 1) as nat);
        assert(g >= 1);
        assert(s1 <= l0 * g) by (nonlinear_arith)
            requires
                s1 <= s0 * g,
                s0 <= l0,
                s0 >= 1,
                g >= 1,
        ;
    }
}

proof fn lemma_shared_lines_all(
    cells: Seq<Option<Gem>>,
    inner: Seq<GemBlock>,
    outer: Seq<GemBlock>,
    d: int,
    n: nat,
)
    requires
        n <= inner.len(),
        forall|j: int| 0 <= j < inner.len() ==> #[trigger] outer.contains(inner[j]),
    ensures
        shared_lines_product(cells, inner, outer, d, n, outer.len() as int) == lines_product(cells, inner, d, n),
    decreases n,
{
    if n > 0 {
        lemma_shared_lines_all(cells, inner, outer, d, (n - 1) as nat);
        let ib = inner[n - 1];
        if first_on_line(cells, inner, d, n - 1) {
            assert(outer.contains(ib));
            let m = choose|m: int| 0 <= m < outer.len() && outer[m] == ib;
            assert(run_mask(cells, outer[m], dir_dx(d), dir_dy(d)) == run_mask(cells, ib, dir_dx(d), dir_dy(d)));
            assert(line_among(cells, outer, d, outer.len() as int, run_mask(cells, ib, dir_dx(d), dir_dy(d))));
        }
    }
}

proof fn lemma_directions_product_within(
    cells: Seq<Option<Gem>>,
    inner: Seq<GemBlock>,
    outer: Seq<GemBlock>,
    nd: nat,
)
    requires
        nd <= 4,
        checks_in_grid(cells, inner),
        checks_in_grid(cells, outer),
        forall|j: int| 0 <= j < inner.len() ==> #[trigger] outer.contains(inner[j]),
    ensures
        directions_product(cells, inner, nd) <= directions_product(cells, outer, nd),
    decreases nd,
{
    if nd > 0 {
        let d = nd - 1;
        lemma_directions_product_within(cells, inner, outer, (nd - 1) as nat);
        lemma_shared_lines_within(cells, inner, outer, d, outer.len());
        lemma_shared_lines_all(cells, inner, outer, d, inner.len());
        lemma_directions_product_positive(cells, inner, (nd - 1) as nat);
        lemma_lines_product_positive(cells, inner, d, inner.len());
        let (a, b) = (directions_product(cells, inner, (nd - 1) as nat), directions_product(cells, outer, (nd - 1) as nat));
        let (x, y) = (lines_product(cells, inner, d, inner.len()), lines_product(cells, outer, d, outer.len()));
        assert(a * x <= b * y) by (nonlinear_arith)
            requires
                1 <= a <= b,
                1 <= x <= y,
        ;
    }
}

proof fn lemma_pile_checks_in_grid(cells: Seq<Option<Gem>>)
    ensures
        checks_in_grid(cells, pile_checks(cells, BOARD_WIDTH as nat)),
{
    let pile = pile_checks(cells, BOARD_WIDTH as nat);
    lemma_pile_checks_on_board(cells, BOARD_WIDTH as nat);
    assert forall|j: int| 0 <= j < pile.len() implies block_on_board(#[trigger] pile[j]) && cell_of(
        cells,
        pile[j].x as int,
        pile[j].y as int,
    ) == Some(pile[j].gem) by {
        lemma_pile_checks_hold_gems(cells, BOARD_WIDTH as nat, j);
    }
}

proof fn lemma_pile_checks_hold_gems(cells: Seq<Option<Gem>>, cols: nat, j: int)
    requires
        cols <= BOARD_WIDTH,
        0 <= j < pile_checks(cells, cols).len(),
    ensures
        cell_of(cells, pile_checks(cells, cols)[j].x as int, pile_checks(cells, cols)[j].y as int) == Some(
            pile_checks(cells, cols)[j].gem,
        ),
    decreases cols,
{
    let a = pile_checks(cells, (cols - 1) as nat);
    let b = pile_column_checks(cells, cols - 1, BOARD_HEIGHT as nat);
    if j < a.len() {
        lemma_pile_checks_hold_gems(cells, (cols - 1) as nat, j);
        assert((a + b)[j] == a[j]);
    } else {
        lemma_pile_column_checks_hold_gems(cells, cols - 1, BOARD_HEIGHT as nat, j - a.len());
        assert((a + b)[j] == b[j - a.len()]);
    }
}

proof fn lemma_pile_column_checks_hold_gems(cells: Seq<Option<Gem>>, x: int, rows: nat, j: int)
    requires
        0 <= x < BOARD_WIDTH,
        rows <= BOARD_HEIGHT,
        0 <= j < pile_column_checks(cells, x, rows).len(),
    ensures
        cell_of(cells, pile_column_checks(cells, x, rows)[j].x as int, pile_column_checks(cells, x, rows)[j].y as int)
            == Some(pile_column_checks(cells, x, rows)[j].gem),
    decreases rows,
{
    let prev = pile_column_checks(cells, x, (rows - 1) as nat);
    if j < prev.len() {
        lemma_pile_column_checks_hold_gems(cells, x, (rows - 1) as nat, j);
        if let Some(gem) = cell_of(cells, x, rows - 1) {
            assert(pile_column_checks(cells, x, rows)[j] == prev[j]);
        }
    }
}

/// A search through a column whose gems lie in the grid scores no more than
/// a search of the whole pile of the same grid: each search multiplies the
/// lengths of the distinct lines of three or more equal gems through the
/// blocks it looks at, in each of the four directions (held at `u32::MAX`),
/// and every line through the column's gems is a line through the pile's.
pub proof fn lemma_column_points_within_pile_points(
    column: Column,
    cells: Seq<Option<Gem>>,
    marked: Seq<bool>,
    pile_marked: Seq<bool>,
)
    requires
        forall|k: int|
            0 <= k < 3 && block_on_board(#[trigger] column.spec_gem_blocks()[k]) ==> cell_of(
                cells,
                column.spec_gem_blocks()[k].x as int,
                column.spec_gem_blocks()[k].y as int,
            ) == Some(column.spec_gem_blocks()[k].gem),
        marked.len() == NUM_GRID_CELLS,
        pile_marked.len() == NUM_GRID_CELLS,
    ensures
        match_search(MatchingStructure::Column(&column), cells, marked).points == capped(
            directions_product(cells, checks_for(MatchingStructure::Column(&column), cells), 4),
        ),
        match_search(MatchingStructure::Pile, cells, pile_marked).points == capped(
            directions_product(cells, checks_for(MatchingStructure::Pile, cells), 4),
        ),
        match_search(MatchingStructure::Column(&column), cells, marked).points <= match_search(
            MatchingStructure::Pile,
            cells,
            pile_marked,
        ).points,
        search_points(match_search(MatchingStructure::Column(&column), cells, marked)) matches Some(a) ==> search_points(
            match_search(MatchingStructure::Pile, cells, pile_marked),
        ) matches Some(b) && a <= b,
{
    let col_checks = checks_for(MatchingStructure::Column(&column), cells);
    let pile = checks_for(MatchingStructure::Pile, cells);
    lemma_checks_on_board(MatchingStructure::Column(&column), cells);
    lemma_column_checks_are_blocks(column.spec_gem_blocks(), 3);
    assert forall|j: int| 0 <= j < col_checks.len() implies block_on_board(#[trigger] col_checks[j]) && cell_of(
        cells,
        col_checks[j].x as int,
        col_checks[j].y as int,
    ) == Some(col_checks[j].gem) by {
        let k = choose|k: int| 0 <= k < 3 && column.spec_gem_blocks()[k] == col_checks[j];
    }
    lemma_pile_checks_in_grid(cells);
    assert forall|j: int| 0 <= j < col_checks.len() implies #[trigger] pile.contains(col_checks[j]) by {
        let b = col_checks[j];
        lemma_pile_checks_has(cells, BOARD_WIDTH as nat, b.x as int, b.y as int);
        let m = choose|m: int|
            0 <= m < pile.len() && pile[m] == GemBlock { x: (b.x as int) as u8, y: (b.y as int) as i8, gem: b.gem };
        assert(pile[m] == b);
    }
    lemma_tally_directions_points(cells, col_checks, 4, marked);
    lemma_tally_directions_points(cells, pile, 4, pile_marked);
    lemma_directions_product_within(cells, col_checks, pile, 4);
    if search_points(match_search(MatchingStructure::Column(&column), cells, marked)) is Some {
        lemma_column_match_is_pile_match(column, cells, marked, pile_marked);
    }
}

/// What a search over a grid computes, for checks that lie on the board and
/// hold their gems (always so for the pile; for a column, where its gems lie
/// in the grid): its points are the product of the lengths of the distinct
/// lines of three or more equal gems through the checks, over the four
/// directions, held at `u32::MAX`; it marks the cells it started with and the
/// cells of those lines; it finds a match where one such line exists.
pub proof fn lemma_search_counts_distinct_lines(structure: MatchingStructure, cells: Seq<Option<Gem>>, marked: Seq<bool>)
    requires
        checks_in_grid(cells, checks_for(structure, cells)),
        marked.len() == NUM_GRID_CELLS,
    ensures
        match_search(structure, cells, marked).points == capped(directions_product(cells, checks_for(structure, cells), 4)),
        forall|i: int|
            0 <= i < NUM_GRID_CELLS ==> #[trigger] match_search(structure, cells, marked).matched[i] == (marked[i]
                || on_any_counted_line(cells, checks_for(structure, cells), 4, i)),
{
    let checks = checks_for(structure, cells);
    lemma_tally_directions_points(cells, checks, 4, marked);
    lemma_tally_directions_marks(cells, checks, 4, marked);
}

/// Every check of a pile search lies on the board and holds its gem.
pub proof fn lemma_pile_search_checks_in_grid(cells: Seq<Option<Gem>>)
    ensures
        checks_in_grid(cells, checks_for(MatchingStructure::Pile, cells)),
{
    lemma_pile_checks_in_grid(cells);
}

proof fn lemma_column_checks_has(blocks: Seq<GemBlock>, n: nat, k: int)
    requires
        n <= blocks.len(),
        0 <= k < n,
        block_on_board(blocks[k]),
    ensures
        column_checks(blocks, n).contains(blocks[k]),
    decreases n,
{
    let prev = column_checks(blocks, (n - 1) as nat);
    if k == n - 1 {
        assert(column_checks(blocks, n) == prev.push(blocks[k]));
        assert(column_checks(blocks, n)[prev.len() as int] == blocks[k]);
    } else {
        lemma_column_checks_has(blocks, (n - 1) as nat, k);
        let j = choose|j: int| 0 <= j < prev.len() && prev[j] == blocks[k];
        if block_on_board(blocks[n - 1]) {
            assert(column_checks(blocks, n)[j] == prev[j]);
        }
    }
}

/// Whether `b` is one of the column's gems, and lies on the board.
pub open spec fn is_gem_on_board_of(column: Column, b: GemBlock) -> bool {
    block_on_board(b) && exists|k: int| 0 <= k < 3 && column.spec_gem_blocks()[k] == b
}

/// A search from a column starts from every gem of the column that lies on
/// the board, and from nothing else.
pub proof fn lemma_column_search_starts_from_each_gem(column: Column, cells: Seq<Option<Gem>>)
    ensures
        forall|k: int|
            0 <= k < 3 && block_on_board(#[trigger] column.spec_gem_blocks()[k]) ==> checks_for(
                MatchingStructure::Column(&column),
                cells,
            ).contains(column.spec_gem_blocks()[k]),
        forall|j: int|
            0 <= j < checks_for(MatchingStructure::Column(&column), cells).len() ==> is_gem_on_board_of(
                column,
                #[trigger] checks_for(MatchingStructure::Column(&column), cells)[j],
            ),
{
    let blocks = column.spec_gem_blocks();
    assert(blocks.len() == 3);
    assert forall|k: int| 0 <= k < 3 && block_on_board(#[trigger] blocks[k]) implies checks_for(
        MatchingStructure::Column(&column),
        cells,
    ).contains(blocks[k]) by {
        lemma_column_checks_has(blocks, 3, k);
    }
    lemma_column_checks_are_blocks(blocks, 3);
    lemma_column_checks_on_board(blocks, 3);
    let checks = column_checks(blocks, 3);
    assert(checks_for(MatchingStructure::Column(&column), cells) == checks);
    assert forall|j: int| 0 <= j < checks.len() implies is_gem_on_board_of(column, #[trigger] checks[j]) by {
        let k = choose|k: int| 0 <= k < 3 && blocks[k] == #[trigger] checks[j];
        assert(block_on_board(checks[j]));
    }
}

/// A search from a column finds a match whenever one of the column's gems on
/// the board lies, with two more of its kind, on three consecutive cells of a
/// row, a column or a diagonal.
pub proof fn lemma_column_search_finds_line_through_its_gems(
    column: Column,
    cells: Seq<Option<Gem>>,
    marked: Seq<bool>,
    k: int,
    d: int,
    t: int,
)
    requires
        0 <= k < 3,
        0 <= d < 4,
        -2 <= t <= 0,
        block_on_board(column.spec_gem_blocks()[k]),
        ({
            let b = column.spec_gem_blocks()[k];
            &&& holds_at(cells, b.x as int, b.y as int, b.gem, dir_dx(d), dir_dy(d), t)
            &&& holds_at(cells, b.x as int, b.y as int, b.gem, dir_dx(d), dir_dy(d), t + 1)
            &&& holds_at(cells, b.x as int, b.y as int, b.gem, dir_dx(d), dir_dy(d), t + 2)
        }),
    ensures
        search_points(match_search(MatchingStructure::Column(&column), cells, marked)) is Some,
{
    let b = column.spec_gem_blocks()[k];
    let checks = checks_for(MatchingStructure::Column(&column), cells);
    assert(holds_at(cells, b.x as int, b.y as int, b.gem, dir_dx(d), dir_dy(d), 0));
    assert(cell_of(cells, b.x as int, b.y as int) == Some(b.gem)) by {
        assert(b.x as int + 0 * dir_dx(d) == b.x as int && b.y as int + 0 * dir_dy(d) == b.y as int);
    }
    lemma_run_shape(cells, b, d);
    let f = run_ahead(cells, b, d);
    let kb = run_behind(cells, b, d);
    if f < t + 2 {
        assert(holds_at(cells, b.x as int, b.y as int, b.gem, dir_dx(d), dir_dy(d), f + 1));
    }
    if -kb > t {
        assert(holds_at(cells, b.x as int, b.y as int, b.gem, dir_dx(d), dir_dy(d), -kb - 1));
    }
    assert(run_len(cells, b, dir_dx(d), dir_dy(d)) >= MIN_CONSECUTIVE_GEMS_TO_MATCH);
    lemma_column_search_starts_from_each_gem(column, cells);
    assert(checks.contains(b));
    let j = choose|j: int| 0 <= j < checks.len() && checks[j] == b;
    assert(some_line_in_direction(cells, checks, d, checks.len() as int));
    assert(some_line(cells, checks, 4));
    lemma_match_found_iff_line_of_three(MatchingStructure::Column(&column), cells, marked);
}

proof fn lemma_blink_row_has(cells: Seq<Option<Gem>>, marked: Seq<bool>, y: int, cols: nat, x: int)
    requires
        0 <= x < cols,
        marked[grid_idx(x, y)],
        cell_of(cells, x, y) is Some,
    ensures
        blink_row(cells, marked, y, cols).contains((x as u8, y as u8, cell_of(cells, x, y)->Some_0)),
    decreases cols,
{
    let prev = blink_row(cells, marked, y, (cols - 1) as nat);
    if x == cols - 1 {
        assert(blink_row(cells, marked, y, cols) == prev.push((x as u8, y as u8, cell_of(cells, x, y)->Some_0)));
        assert(blink_row(cells, marked, y, cols)[prev.len() as int] == (x as u8, y as u8, cell_of(cells, x, y)->Some_0));
    } else {
        lemma_blink_row_has(cells, marked, y, (cols - 1) as nat, x);
        let j = choose|j: int| 0 <= j < prev.len() && prev[j] == (x as u8, y as u8, cell_of(cells, x, y)->Some_0);
        assert(blink_row(cells, marked, y, cols)[j] == prev[j]);
    }
}

proof fn lemma_blink_list_has(cells: Seq<Option<Gem>>, marked: Seq<bool>, rows: nat, x: int, y: int)
    requires
        0 <= x < BOARD_WIDTH,
        0 <= y < rows,
        marked[grid_idx(x, y)],
        cell_of(cells, x, y) is Some,
    ensures
        blink_list(cells, marked, rows).contains((x as u8, y as u8, cell_of(cells, x, y)->Some_0)),
    decreases rows,
{
    let e = (x as u8, y as u8, cell_of(cells, x, y)->Some_0);
    let a = blink_list(cells, marked, (rows - 1) as nat);
    let b = blink_row(cells, marked, rows - 1, BOARD_WIDTH as nat);
    assert(blink_list(cells, marked, rows) == a + b);
    if y == rows - 1 {
        lemma_blink_row_has(cells, marked, y, BOARD_WIDTH as nat, x);
        let j = choose|j: int| 0 <= j < b.len() && b[j] == e;
        assert((a + b)[a.len() + j] == e);
    } else {
        lemma_blink_list_has(cells, marked, (rows - 1) as nat, x, y);
        let j = choose|j: int| 0 <= j < a.len() && a[j] == e;
        assert((a + b)[j] == e);
    }
}

/// A blink takes in every marked cell that holds a gem, with its position and
/// gem; so once the blink is over (1496 ms and later) every such cell is
/// empty, whatever the grid holds by then.
pub proof fn lemma_blink_takes_every_marked_gem(
    start: Seq<Option<Gem>>,
    marked: Seq<bool>,
    now: Seq<Option<Gem>>,
    elapsed_ms: u64,
    x: int,
    y: int,
)
    requires
        now.len() == NUM_GRID_CELLS,
        in_board(x, y),
        marked[grid_idx(x, y)],
        cell_of(start, x, y) is Some,
    ensures
        blink_list(start, marked, BOARD_HEIGHT as nat).contains((x as u8, y as u8, cell_of(start, x, y)->Some_0)),
        elapsed_ms >= 1496 ==> cell_of(
            apply_blink(
                now,
                blink_list(start, marked, BOARD_HEIGHT as nat),
                blink_list(start, marked, BOARD_HEIGHT as nat).len(),
                blink_dark(elapsed_ms),
            ),
            x,
            y,
        ) is None,
{
    let list = blink_list(start, marked, BOARD_HEIGHT as nat);
    lemma_blink_list_has(start, marked, BOARD_HEIGHT as nat, x, y);
    lemma_blink_step(start, marked, now, elapsed_ms);
    let i = choose|i: int| 0 <= i < list.len() && list[i] == (x as u8, y as u8, cell_of(start, x, y)->Some_0);
    assert(list[i].0 as int == x && list[i].1 as int == y);
}

proof fn lemma_column_checks_are_blocks(blocks: Seq<GemBlock>, n: nat)
    requires
        n <= blocks.len(),
    ensures
        forall|j: int|
            0 <= j < column_checks(blocks, n).len() ==> exists|k: int| 0 <= k < n && blocks[k] == #[trigger] column_checks(blocks, n)[j],
    decreases n,
{
    if n > 0 {
        lemma_column_checks_are_blocks(blocks, (n - 1) as nat);
        let prev = column_checks(blocks, (n - 1) as nat);
        assert forall|j: int| 0 <= j < column_checks(blocks, n).len() implies exists|k: int|
            0 <= k < n && blocks[k] == #[trigger] column_checks(blocks, n)[j] by {
            if j < prev.len() {
                assert(column_checks(blocks, n)[j] == prev[j]);
                let k = choose|k: int| 0 <= k < n - 1 && blocks[k] == #[trigger] prev[j];
                assert(blocks[k] == column_checks(blocks, n)[j]);
            } else {
                assert(column_checks(blocks, n)[j] == blocks[n - 1]);
            }
        }
    }
}

proof fn lemma_apply_blink_cells(cells: Seq<Option<Gem>>, list: Seq<(u8, u8, Gem)>, k: nat, dark: bool)
    requires
        cells.len() == NUM_GRID_CELLS,
        k <= list.len(),
        forall|i: int| 0 <= i < list.len() ==> in_board((#[trigger] list[i]).0 as int, list[i].1 as int),
        forall|i: int, j: int|
            0 <= i < list.len() && 0 <= j < list.len() && (#[trigger] list[i]).0 == (#[trigger] list[j]).0
                && list[i].1 == list[j].1 ==> list[i].2 == list[j].2,
    ensures
        apply_blink(cells, list, k, dark).len() == NUM_GRID_CELLS,
        forall|i: int|
            0 <= i < k ==> cell_of(apply_blink(cells, list, k, dark), (#[trigger] list[i]).0 as int, list[i].1 as int)
                == (if dark { None } else { Some(list[i].2) }),
        forall|x: int, y: int|
            (forall|i: int| 0 <= i < k ==> !((#[trigger] list[i]).0 == x && list[i].1 == y)) ==> #[trigger] cell_of(
                apply_blink(cells, list, k, dark),
                x,
                y,
            ) == cell_of(cells, x, y),
    decreases k,
{
    if k > 0 {
        lemma_apply_blink_cells(cells, list, (k - 1) as nat, dark);
        let prev = apply_blink(cells, list, (k - 1) as nat, dark);
        let (x0, y0, g0) = list[k - 1];
        let v = if dark { None } else { Some(g0) };
        assert forall|i: int| 0 <= i < k implies cell_of(
            apply_blink(cells, list, k, dark),
            (#[trigger] list[i]).0 as int,
            list[i].1 as int,
        ) == (if dark { None } else { Some(list[i].2) }) by {
            lemma_cell_after_update(prev, x0 as int, y0 as int, v, list[i].0 as int, list[i].1 as int);
            if list[i].0 == x0 && list[i].1 == y0 {
                assert(list[i].2 == list[k - 1].2);
            }
        }
        assert forall|x: int, y: int|
            (forall|i: int| 0 <= i < k ==> !((#[trigger] list[i]).0 == x && list[i].1 == y)) implies #[trigger] cell_of(
            apply_blink(cells, list, k, dark),
            x,
            y,
        ) == cell_of(cells, x, y) by {
            lemma_cell_after_update(prev, x0 as int, y0 as int, v, x, y);
            assert(!(list[k - 1].0 == x && list[k - 1].1 == y));
            assert forall|i: int| 0 <= i < k - 1 implies !((#[trigger] list[i]).0 == x && list[i].1 == y) by {
                assert(!(list[i].0 == x && list[i].1 == y));
            }
        }
    }
}

/// Each step of the blink of the gems marked in `start`, whatever the grid
/// `now` holds by then, `elapsed_ms` after the blink began: the blinked gems
/// are hidden in the odd 374 ms phases and for good once four phases are
/// over, and shown as they were in the even phases; every other cell stays as
/// it is.
pub proof fn lemma_blink_step(start: Seq<Option<Gem>>, marked: Seq<bool>, now: Seq<Option<Gem>>, elapsed_ms: u64)
    requires
        now.len() == NUM_GRID_CELLS,
    ensures
        ({
            let list = blink_list(start, marked, BOARD_HEIGHT as nat);
            let after = apply_blink(now, list, list.len(), blink_dark(elapsed_ms));
            &&& blink_finished(elapsed_ms) == (elapsed_ms >= 1496)
            &&& blink_finished(elapsed_ms) ==> blink_dark(elapsed_ms)
            &&& blink_dark(elapsed_ms) == (elapsed_ms >= 1496 || (elapsed_ms / 374) % 2 == 1)
            &&& forall|i: int|
                0 <= i < list.len() ==> cell_of(after, (#[trigger] list[i]).0 as int, list[i].1 as int) == (if blink_dark(
                    elapsed_ms,
                ) {
                    None
                } else {
                    cell_of(start, list[i].0 as int, list[i].1 as int)
                })
            &&& forall|x: int, y: int|
                (forall|i: int| 0 <= i < list.len() ==> !((#[trigger] list[i]).0 == x && list[i].1 == y))
                    ==> #[trigger] cell_of(after, x, y) == cell_of(now, x, y)
        }),
{
    let list = blink_list(start, marked, BOARD_HEIGHT as nat);
    lemma_blink_list_on_board(start, marked, BOARD_HEIGHT as nat);
    assert forall|i: int, j: int|
        0 <= i < list.len() && 0 <= j < list.len() && (#[trigger] list[i]).0 == (#[trigger] list[j]).0 && list[i].1
            == list[j].1 implies list[i].2 == list[j].2 by {
        assert(cell_of(start, list[i].0 as int, list[i].1 as int) == Some(list[i].2));
        assert(cell_of(start, list[j].0 as int, list[j].1 as int) == Some(list[j].2));
    }
    lemma_apply_blink_cells(now, list, list.len(), blink_dark(elapsed_ms));
}

} // verus!
