use vstd::prelude::*;
use crate::glyph::{blank_glyph, blanks, Cell, StyledGlyph};
use crate::layout::{lay_out, layout, lemma_layout_fills, lemma_layout_of_empty};
use crate::message::glyphs_of;
use crate::queue::{cycled, MessageQueue, QueueView};
use crate::random::draw;

verus! {

/// What a streak is: its screen column, the row of its head, how many rows
/// behind the head stay lit, and its buffer of glyphs, one per screen row.
pub struct StreakView {
    pub x: i32,
    pub head: int,
    pub tail: int,
    pub text: Seq<StyledGlyph>,
}

/// The number of rows of a screen `height` rows high (none when it is not
/// positive).
pub open spec fn rows_of(height: i32) -> nat {
    if height > 0 {
        height as nat
    } else {
        0
    }
}

/// The streak one tick later: its head one row further down.
pub open spec fn advanced(s: StreakView) -> StreakView {
    StreakView { head: s.head + 1, ..s }
}

/// Whether the whole lit window has left a screen `h` rows high.
pub open spec fn is_finished(s: StreakView, h: int) -> bool {
    s.head >= h + s.tail
}

/// The row just above the lit window, which is erased before a move.
pub open spec fn trailing_row(s: StreakView) -> int {
    s.head - s.tail - 1
}

/// The cell that erases the row above the lit window.
pub open spec fn erase_cell(s: StreakView, background: u32) -> Cell {
    Cell { row: trailing_row(s) as i32, col: s.x, glyph: blank_glyph(background) }
}

/// The first row of the lit window that is on screen.
pub open spec fn window_start(s: StreakView) -> int {
    if s.head - s.tail > 0 {
        s.head - s.tail
    } else {
        0
    }
}

/// One past the last row of the lit window that is on a screen `h` rows
/// high and in the buffer.
pub open spec fn window_end(s: StreakView, h: int) -> int {
    let e = if s.head + 1 < h {
        s.head + 1
    } else {
        h
    };
    if e < s.text.len() {
        e
    } else {
        s.text.len() as int
    }
}

/// The buffer's glyph at `row`, placed at the streak's column.
pub open spec fn cell_at(s: StreakView, row: int) -> Cell {
    Cell { row: row as i32, col: s.x, glyph: s.text[row] }
}

/// The cells that draw the streak: the rows of the window
/// `(head - tail - 1, head]` that lie on a screen `h` rows high, top down.
pub open spec fn render_cells(s: StreakView, h: int) -> Seq<Cell> {
    let lo = window_start(s);
    let hi = window_end(s, h);
    Seq::new(
        if lo < hi {
            (hi - lo) as nat
        } else {
            0
        },
        |k: int| cell_at(s, lo + k),
    )
}

/// Whether `start` is a row the first message may start at: from the row
/// that shows only its last glyph down to `max_padding` blank rows above it.
pub open spec fn start_in_range(q: QueueView, max_padding: int, start: int) -> bool {
    q.items.len() == 0 || {
        let lo = 1 - glyphs_of(q.items[0]).len();
        let lo = if lo < max_padding {
            lo
        } else {
            max_padding
        };
        lo <= start <= max_padding
    }
}

/// Whether `gap` is a gap between messages that `max_padding` allows:
/// from 1 up to below `max_padding`, or none when it is at most 1.
pub open spec fn gap_in_range(gap: int, max_padding: int) -> bool {
    if max_padding > 1 {
        1 <= gap < max_padding
    } else {
        gap == 0
    }
}

/// Whether `text` is a buffer of `h` rows that `Streak::new_with_queue`
/// may lay out from queue `q` with padding bound `max_padding`: the layout
/// for some start row and some `h` gaps that the bound allows.
pub open spec fn laid_out_from(text: Seq<StyledGlyph>, q: QueueView, h: nat, max_padding: int) -> bool {
    exists|start: int, gaps: Seq<usize>|
        {
            &&& start_in_range(q, max_padding, start)
            &&& gaps.len() == h
            &&& forall|j: int| 0 <= j < gaps.len() ==> gap_in_range(#[trigger] gaps[j] as int, max_padding)
            &&& text == layout(q, h, start, gaps).0
        }
}

/// The lit window of a streak shows only glyphs of its buffer, each at its
/// own row, and only rows that are on screen.
pub proof fn lemma_window_shows_buffer(s: StreakView, h: i32, k: int)
    requires
        0 <= k < render_cells(s, h as int).len(),
    ensures
        0 <= render_cells(s, h as int)[k].row < h,
        s.head - s.tail <= render_cells(s, h as int)[k].row <= s.head,
        render_cells(s, h as int)[k].row < s.text.len(),
        render_cells(s, h as int)[k].col == s.x,
        render_cells(s, h as int)[k].glyph == s.text[render_cells(s, h as int)[k].row as int],
{
}

/// Once a streak has finished it stays finished as it moves on.
pub proof fn lemma_finished_stays(s: StreakView, h: int)
    requires
        is_finished(s, h),
    ensures
        is_finished(advanced(s), h),
{
}

/// One vertical trail of text at a fixed column, falling one row per tick.
pub struct Streak {
    head_x: i32,
    head_y: i32,
    length: i32,
    inner_text: Vec<StyledGlyph>,
}

impl View for Streak {
    type V = StreakView;

    closed spec fn view(&self) -> StreakView {
        StreakView {
            x: self.head_x,
            head: self.head_y as int,
            tail: self.length as int,
            text: self.inner_text@,
        }
    }
}

impl Streak {
    /// A streak at column `head_x` with `length` lit rows behind its head,
    /// whose buffer of `screen_height` rows is laid out from the queue with
    /// the first message starting at row `start` and the given gaps between
    /// messages (see `layout`). Its head starts at row 0.
    pub fn new_with_draws(
        queue: &mut MessageQueue,
        head_x: i32,
        length: i32,
        screen_height: i32,
        start: i128,
        gaps: &Vec<usize>,
    ) -> (s: Streak)
        ensures
            s@ == (StreakView {
                x: head_x,
                head: 0,
                tail: length as int,
                text: layout(old(queue)@, rows_of(screen_height), start as int, gaps@).0,
            }),
            final(queue)@ == layout(old(queue)@, rows_of(screen_height), start as int, gaps@).1,
            s@.text.len() == rows_of(screen_height),
            exists|k: nat| final(queue)@ == cycled(old(queue)@, k),
            old(queue)@.items.len() == 0 ==> s@.text == blanks(rows_of(screen_height) as int)
                && final(queue)@ == old(queue)@,
    {
        proof {
            lemma_layout_fills(old(queue)@, rows_of(screen_height), start as int, gaps@);
        }
        let h: usize = if screen_height > 0 {
            screen_height as usize
        } else {
            0
        };
        proof {
            if old(queue)@.items.len() == 0 {
                lemma_layout_of_empty(old(queue)@, h as nat, start as int, gaps@);
            }
        }
        let inner_text = lay_out(queue, h, start, gaps);
        Streak { head_x, head_y: 0, length, inner_text }
    }

    /// A streak at column `head_x` with `length` lit rows behind its head,
    /// whose buffer of `screen_height` rows is laid out from the queue with
    /// random draws: the first message starts at a row from the one that
    /// shows only its last glyph down to `max_padding` blank rows above it,
    /// and each gap between messages is from 1 up to below `max_padding`
    /// rows (none when `max_padding` is at most 1).
    pub fn new_with_queue(
        queue: &mut MessageQueue,
        head_x: i32,
        length: i32,
        screen_height: i32,
        max_padding: i32,
    ) -> (s: Streak)
        ensures
            s@.x == head_x,
            s@.head == 0,
            s@.tail == length,
            s@.text.len() == rows_of(screen_height),
            exists|start: int, gaps: Seq<usize>|
                {
                    &&& start_in_range(old(queue)@, max_padding as int, start)
                    &&& gaps.len() == rows_of(screen_height)
                    &&& forall|j: int|
                        0 <= j < gaps.len() ==> gap_in_range(#[trigger] gaps[j] as int, max_padding as int)
                    &&& s@.text == layout(old(queue)@, rows_of(screen_height), start, gaps).0
                    &&& final(queue)@ == layout(old(queue)@, rows_of(screen_height), start, gaps).1
                },
            laid_out_from(s@.text, old(queue)@, rows_of(screen_height), max_padding as int),
            exists|k: nat| final(queue)@ == cycled(old(queue)@, k),
            old(queue)@.items.len() == 0 ==> s@.text == blanks(rows_of(screen_height) as int)
                && final(queue)@ == old(queue)@,
    {
        let mut rng = rand::thread_rng();
        let start: i128 = match queue.front_len() {
            None => 0,
            Some(len) => {
                let hi = max_padding as i128;
                let lo = 1 - (len as i128);
                let lo = if lo < hi {
                    lo
                } else {
                    hi
                };
                draw(&mut rng, lo, hi + 1)
            },
        };
        let h: usize = if screen_height > 0 {
            screen_height as usize
        } else {
            0
        };
        let mut gaps: Vec<usize> = Vec::new();
        for i in 0..h
            invariant
                gaps@.len() == i,
                forall|j: int| 0 <= j < gaps@.len() ==> gap_in_range(#[trigger] gaps@[j] as int, max_padding as int),
        {
            let gap: usize = if max_padding > 1 {
                draw(&mut rng, 1, max_padding as i128) as usize
            } else {
                0
            };
            gaps.push(gap);
        }
        let s = Streak::new_with_draws(queue, head_x, length, screen_height, start, &gaps);
        assert(start_in_range(old(queue)@, max_padding as int, start as int));
        s
    }

    /// The cells that draw the streak's lit window on a screen
    /// `screen_height` rows high.
    pub fn render(&self, screen_height: i32) -> (cells: Vec<Cell>)
        ensures
            cells@ == render_cells(self@, screen_height as int),
    {
        let len = self.inner_text.len();
        let top = self.head_y as i128 - self.length as i128;
        let lo: i128 = if top > 0 {
            top
        } else {
            0
        };
        let e: i128 = if (self.head_y as i128) + 1 < screen_height as i128 {
            self.head_y as i128 + 1
        } else {
            screen_height as i128
        };
        let hi: i128 = if e < len as i128 {
            e
        } else {
            len as i128
        };
        let hi: i128 = if hi < lo {
            lo
        } else {
            hi
        };
        let mut cells: Vec<Cell> = Vec::new();
        let mut row: i128 = lo;
        while row < hi
            invariant
                0 <= lo <= row <= hi,
                lo == window_start(self@),
                hi == lo || hi == window_end(self@, screen_height as int),
                window_end(self@, screen_height as int) <= lo ==> hi == lo,
                hi <= lo || hi <= screen_height,
                hi <= lo || hi <= self.inner_text@.len(),
                cells@ == Seq::new((row - lo) as nat, |k: int| cell_at(self@, lo + k)),
            decreases hi - row,
        {
            cells.push(Cell { row: row as i32, col: self.head_x, glyph: self.inner_text[row as usize] });
            assert(cells@ =~= Seq::new((row + 1 - lo) as nat, |k: int| cell_at(self@, lo + k)));
            row = row + 1;
        }
        assert(cells@ =~= render_cells(self@, screen_height as int));
        cells
    }

    /// The cell that erases the row just above the lit window, drawn with
    /// the `background` style before the streak moves.
    pub fn derender(&self, background: u32) -> (c: Cell)
        requires
            i32::MIN <= trailing_row(self@) <= i32::MAX,
        ensures
            c == erase_cell(self@, background),
    {
        Cell {
            row: (self.head_y as i64 - self.length as i64 - 1) as i32,
            col: self.head_x,
            glyph: StyledGlyph::blank(background),
        }
    }

    /// Moves the head one row down; the buffer is unchanged.
    pub fn advance(&mut self)
        requires
            old(self)@.head < i32::MAX,
        ensures
            final(self)@ == advanced(old(self)@),
    {
        self.head_y = self.head_y + 1;
    }

    /// Whether the whole lit window has left a screen `screen_height` rows
    /// high, that is, whether the head is at least `screen_height + length`.
    pub fn finished(&self, screen_height: i32) -> (r: bool)
        ensures
            r == is_finished(self@, screen_height as int),
    {
        self.head_y as i64 - self.length as i64 >= screen_height as i64
    }

    /// The number of rows between the top of the screen and the top of the
    /// lit window: `head - length + 1`.
    pub fn top_space(&self) -> (r: i32)
        requires
            i32::MIN <= self@.head - self@.tail + 1 <= i32::MAX,
        ensures
            r == self@.head - self@.tail + 1,
    {
        (self.head_y as i64 - self.length as i64 + 1) as i32
    }

    /// The screen column.
    pub fn head_x(&self) -> (r: i32)
        ensures
            r == self@.x,
    {
        self.head_x
    }

    /// The row of the head.
    pub fn head(&self) -> (r: i32)
        ensures
            r == self@.head,
    {
        self.head_y
    }

    /// How many rows behind the head stay lit.
    pub fn length(&self) -> (r: i32)
        ensures
            r == self@.tail,
    {
        self.length
    }

    /// The buffer of glyphs, one per screen row.
    pub fn text(&self) -> (r: &Vec<StyledGlyph>)
        ensures
            r@ == self@.text,
    {
        &self.inner_text
    }
}

} // verus!
