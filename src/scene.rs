use vstd::prelude::*;
use crate::glyph::Cell;
use crate::message::Message;
use crate::queue::{cycled, lemma_cycled_add, MessageQueue, QueueView};
use crate::random::draw;
use crate::streak::{
    advanced, erase_cell, is_finished, laid_out_from, render_cells, Streak, StreakView,
};

verus! {

/// The tallest scene: every head row and tail length of its streaks then
/// fits in an `i32`.
pub const MAX_HEIGHT: i32 = 0x1000_0000;

/// The shortest tail a spawned streak gets.
pub const MIN_TAIL: i32 = 5;

/// A column spawns a streak only when every streak in it has more than
/// this many rows free above its lit window.
pub const SPAWN_SPACE: i32 = 5;

/// One past the longest tail a spawned streak gets on a screen `h` rows
/// high: `2 * h`, and never less than one past `MIN_TAIL`.
pub open spec fn tail_limit(h: int) -> int {
    if 2 * h > MIN_TAIL + 1 {
        2 * h
    } else {
        MIN_TAIL + 1
    }
}

/// What a scene is: its columns of streaks, left to right, its height, the
/// bound on the padding around messages, the style that erases cells, and
/// its queue of messages.
pub struct SceneView {
    pub columns: Seq<Seq<StreakView>>,
    pub height: int,
    pub max_padding: int,
    pub background: u32,
    pub queue: QueueView,
}

/// A streak as a scene keeps it: in column `x`, with a tail the scene could
/// have drawn, a buffer of `h` rows, and a lit window not yet past the
/// bottom of the screen.
pub open spec fn streak_ok(s: StreakView, x: int, h: int) -> bool {
    &&& s.x == x
    &&& 0 <= s.head
    &&& MIN_TAIL <= s.tail < tail_limit(h)
    &&& s.text.len() == h
    &&& s.head - s.tail < h
}

/// Every streak of a column is one that the scene keeps in column `x`.
pub open spec fn column_ok(col: Seq<StreakView>, x: int, h: int) -> bool {
    forall|j: int| 0 <= j < col.len() ==> streak_ok(#[trigger] col[j], x, h)
}

/// The invariant of a scene.
pub open spec fn scene_ok(v: SceneView) -> bool {
    &&& v.height <= MAX_HEIGHT
    &&& v.columns.len() > 0 ==> 1 <= v.height
    &&& v.columns.len() <= i32::MAX
    &&& forall|i: int| 0 <= i < v.columns.len() ==> column_ok(#[trigger] v.columns[i], i, v.height)
}

/// The streaks of a column after each moved one row down, without those
/// that have then left a screen `h` rows high; the order is kept.
pub open spec fn survivors(col: Seq<StreakView>, h: int) -> Seq<StreakView>
    decreases col.len(),
{
    if col.len() == 0 {
        Seq::empty()
    } else {
        let rest = survivors(col.drop_last(), h);
        let s = advanced(col.last());
        if is_finished(s, h) {
            rest
        } else {
            rest.push(s)
        }
    }
}

/// Whether a column with these streaks spawns one: it has none, or each
/// has more than `SPAWN_SPACE` rows free above its lit window.
pub open spec fn needs_spawn(col: Seq<StreakView>) -> bool {
    forall|j: int| 0 <= j < col.len() ==> #[trigger] col[j].head - col[j].tail + 1 > SPAWN_SPACE
}

/// Whether `s` is a streak that a scene `h` rows high may spawn in column
/// `x`: head at row 0, a tail from `MIN_TAIL` up to below `tail_limit(h)`,
/// and a buffer of `h` rows.
pub open spec fn spawned_ok(s: StreakView, x: int, h: int) -> bool {
    &&& s.x == x
    &&& s.head == 0
    &&& MIN_TAIL <= s.tail < tail_limit(h)
    &&& s.text.len() == h
}

/// Column `x` of a scene `h` rows high went from `old` to `new` in one tick
/// that began with queue `q`: the survivors, then one spawned streak when
/// they call for it, laid out from the queue as it then stood.
pub open spec fn column_step(
    old: Seq<StreakView>,
    new: Seq<StreakView>,
    x: int,
    h: int,
    q: QueueView,
    max_padding: int,
) -> bool {
    let surv = survivors(old, h);
    if needs_spawn(surv) {
        &&& new.len() == surv.len() + 1
        &&& new.take(surv.len() as int) == surv
        &&& spawned_ok(new.last(), x, h)
        &&& exists|k: nat| laid_out_from(new.last().text, cycled(q, k), h as nat, max_padding)
    } else {
        new == surv
    }
}

/// The cells that erase the row above each streak's lit window, in order.
pub open spec fn erase_cells(col: Seq<StreakView>, background: u32) -> Seq<Cell> {
    Seq::new(col.len(), |j: int| erase_cell(col[j], background))
}

/// The cells that draw each streak of a column, in order.
pub open spec fn draw_cells(col: Seq<StreakView>, h: int) -> Seq<Cell>
    decreases col.len(),
{
    if col.len() == 0 {
        Seq::empty()
    } else {
        draw_cells(col.drop_last(), h) + render_cells(col.last(), h)
    }
}

/// The cells of one tick for the first `n` columns: for each column, left
/// to right, the erasing cells of its old streaks, then the cells that draw
/// its new ones.
pub open spec fn frame_cells(
    old: Seq<Seq<StreakView>>,
    new: Seq<Seq<StreakView>>,
    background: u32,
    h: int,
    n: nat,
) -> Seq<Cell>
    decreases n,
{
    if n == 0 {
        Seq::empty()
    } else {
        frame_cells(old, new, background, h, (n - 1) as nat) + erase_cells(old[n - 1], background)
            + draw_cells(new[n - 1], h)
    }
}

proof fn lemma_frame_prefix(
    old: Seq<Seq<StreakView>>,
    a: Seq<Seq<StreakView>>,
    b: Seq<Seq<StreakView>>,
    background: u32,
    h: int,
    n: nat,
)
    requires
        n <= a.len(),
        n <= b.len(),
        forall|i: int| 0 <= i < n ==> a[i] == b[i],
    ensures
        frame_cells(old, a, background, h, n) == frame_cells(old, b, background, h, n),
    decreases n,
{
    if n > 0 {
        lemma_frame_prefix(old, a, b, background, h, (n - 1) as nat);
    }
}

proof fn lemma_survivors_len(col: Seq<StreakView>, h: int)
    ensures
        survivors(col, h).len() <= col.len(),
    decreases col.len(),
{
    if col.len() > 0 {
        lemma_survivors_len(col.drop_last(), h);
    }
}

proof fn lemma_survivors_gone(col: Seq<StreakView>, h: int)
    requires
        forall|j: int| 0 <= j < col.len() ==> is_finished(advanced(#[trigger] col[j]), h),
    ensures
        survivors(col, h).len() == 0,
    decreases col.len(),
{
    if col.len() > 0 {
        let d = col.drop_last();
        assert forall|j: int| 0 <= j < d.len() implies is_finished(advanced(#[trigger] d[j]), h) by {
            assert(d[j] == col[j]);
        }
        lemma_survivors_gone(d, h);
        assert(is_finished(advanced(col[col.len() - 1]), h));
    }
}

/// A column spawns at most one streak per tick: it ends the tick with at
/// most one streak more than it started with.
pub proof fn lemma_spawns_at_most_one(
    old: Seq<StreakView>,
    new: Seq<StreakView>,
    x: int,
    h: int,
    q: QueueView,
    max_padding: int,
)
    requires
        column_step(old, new, x, h, q, max_padding),
    ensures
        new.len() <= survivors(old, h).len() + 1,
        new.len() <= old.len() + 1,
{
    lemma_survivors_len(old, h);
}

/// When every streak of a column leaves the screen in a tick, the column is
/// left empty and then spawns exactly one new streak in that same tick.
pub proof fn lemma_refills_when_all_finish(
    old: Seq<StreakView>,
    new: Seq<StreakView>,
    x: int,
    h: int,
    q: QueueView,
    max_padding: int,
)
    requires
        column_step(old, new, x, h, q, max_padding),
        forall|j: int| 0 <= j < old.len() ==> is_finished(advanced(#[trigger] old[j]), h),
    ensures
        survivors(old, h).len() == 0,
        new.len() == 1,
        spawned_ok(new[0], x, h),
{
    lemma_survivors_gone(old, h);
}

/// The streaks sharing one screen column.
struct Column {
    streaks: Vec<Streak>,
}

impl View for Column {
    type V = Seq<StreakView>;

    closed spec fn view(&self) -> Seq<StreakView> {
        self.streaks@.map_values(|s: Streak| s@)
    }
}

impl Column {
    fn new() -> (c: Column)
        ensures
            c@ == Seq::<StreakView>::empty(),
    {
        let c = Column { streaks: Vec::new() };
        assert(c@ =~= Seq::<StreakView>::empty());
        c
    }

    /// Erases the row above each streak, moves each one down and drops those
    /// that have left the screen.
    fn retire(&mut self, Ghost(x): Ghost<int>, h: i32, background: u32, cells: &mut Vec<Cell>)
        requires
            1 <= h <= MAX_HEIGHT,
            column_ok(old(self)@, x, h as int),
        ensures
            final(self)@ == survivors(old(self)@, h as int),
            column_ok(final(self)@, x, h as int),
            final(cells)@ == old(cells)@ + erase_cells(old(self)@, background),
    {
        let ghost orig = self@;
        let ghost cells0 = cells@;
        let mut olds: Vec<Streak> = Vec::new();
        std::mem::swap(&mut self.streaks, &mut olds);
        let n = olds.len();
        assert(self@ =~= survivors(orig.take(0), h as int));
        assert(cells@ =~= cells0 + erase_cells(orig.take(0), background));
        for i in 0..n
            invariant
                n == orig.len(),
                1 <= h <= MAX_HEIGHT,
                column_ok(orig, x, h as int),
                olds@.len() == n - i,
                forall|j: int| 0 <= j < n - i ==> #[trigger] olds@[j]@ == orig[i + j],
                self@ == survivors(orig.take(i as int), h as int),
                column_ok(self@, x, h as int),
                cells@ == cells0 + erase_cells(orig.take(i as int), background),
        {
            let ghost prev = olds@;
            let mut s = olds.remove(0);
            assert(s@ == orig[i as int]);
            assert(streak_ok(orig[i as int], x, h as int));
            cells.push(s.derender(background));
            s.advance();
            let ghost before = self@;
            if !s.finished(h) {
                self.streaks.push(s);
                assert(self@ =~= before.push(advanced(orig[i as int])));
            }
            assert(orig.take(i + 1).drop_last() =~= orig.take(i as int));
            assert(olds@.len() == n - i - 1);
            assert forall|j: int| 0 <= j < n - i - 1 implies #[trigger] olds@[j]@ == orig[i + 1 + j] by {
                assert(olds@[j] == prev[j + 1]);
            }
            assert(cells@ =~= cells0 + erase_cells(orig.take(i + 1), background));
        }
        assert(orig.take(n as int) =~= orig);
    }

    /// Whether the column spawns a streak, as `needs_spawn` says.
    fn needs_spawn(&self, Ghost(x): Ghost<int>, h: i32) -> (r: bool)
        requires
            1 <= h <= MAX_HEIGHT,
            column_ok(self@, x, h as int),
        ensures
            r == needs_spawn(self@),
    {
        let n = self.streaks.len();
        for j in 0..n
            invariant
                n == self@.len(),
                1 <= h <= MAX_HEIGHT,
                column_ok(self@, x, h as int),
                forall|k: int| 0 <= k < j ==> #[trigger] self@[k].head - self@[k].tail + 1 > SPAWN_SPACE,
        {
            assert(self.streaks@[j as int]@ == self@[j as int]);
            assert(streak_ok(self@[j as int], x, h as int));
            if self.streaks[j].top_space() <= SPAWN_SPACE {
                return false;
            }
        }
        true
    }

    /// Appends the cells that draw each streak of the column.
    fn render(&self, h: i32, cells: &mut Vec<Cell>)
        ensures
            final(cells)@ == old(cells)@ + draw_cells(self@, h as int),
    {
        let ghost cells0 = cells@;
        let n = self.streaks.len();
        assert(self@.take(0) =~= Seq::<StreakView>::empty());
        assert(cells@ =~= cells0 + draw_cells(self@.take(0), h as int));
        for j in 0..n
            invariant
                n == self@.len(),
                cells@ == cells0 + draw_cells(self@.take(j as int), h as int),
        {
            let mut drawn = self.streaks[j].render(h);
            assert(self.streaks@[j as int]@ == self@[j as int]);
            cells.append(&mut drawn);
            assert(self@.take(j + 1).drop_last() =~= self@.take(j as int));
            assert(cells@ =~= cells0 + draw_cells(self@.take(j + 1), h as int));
        }
        assert(self@.take(n as int) =~= self@);
    }

    /// Adds a streak at the bottom of the column's order.
    fn add(&mut self, s: Streak)
        ensures
            final(self)@ == old(self)@.push(s@),
    {
        self.streaks.push(s);
        assert(self@ =~= old(self)@.push(s@));
    }

    /// The streaks of the column.
    fn streaks(&self) -> (r: &Vec<Streak>)
        ensures
            r@.map_values(|s: Streak| s@) == self@,
    {
        &self.streaks
    }
}

/// One tick took the scene from `old` to `new`: its settings are kept,
/// each column stepped as `column_step` says, and the queue is what it was
/// after some messages were taken and recycled.
pub open spec fn scene_step(old: SceneView, new: SceneView) -> bool {
    &&& new.height == old.height
    &&& new.max_padding == old.max_padding
    &&& new.background == old.background
    &&& new.columns.len() == old.columns.len()
    &&& forall|i: int|
        0 <= i < old.columns.len() ==> column_step(
            old.columns[i],
            #[trigger] new.columns[i],
            i,
            old.height,
            old.queue,
            old.max_padding,
        )
    &&& exists|k: nat| new.queue == cycled(old.queue, k)
}

/// The whole display: one column of streaks per screen column, the queue
/// that feeds them, and the settings they are laid out with.
pub struct Scene {
    columns: Vec<Column>,
    height: i32,
    queue: MessageQueue,
    background: u32,
    max_padding: i32,
}

impl View for Scene {
    type V = SceneView;

    closed spec fn view(&self) -> SceneView {
        SceneView {
            columns: self.columns@.map_values(|c: Column| c@),
            height: self.height as int,
            max_padding: self.max_padding as int,
            background: self.background,
            queue: self.queue@,
        }
    }
}

impl Scene {
    /// The scene's invariant.
    pub open spec fn wf(&self) -> bool {
        scene_ok(self@)
    }

    /// A scene `width` columns wide and `height` rows high with no streaks
    /// and an empty queue, closed or open as `is_closed` says. A scene with
    /// no width or no height has no columns, and its ticks do nothing.
    pub fn new(width: i32, height: i32, max_padding: i32, background: u32, is_closed: bool) -> (s:
        Scene)
        requires
            height <= MAX_HEIGHT,
        ensures
            s.wf(),
            s@.columns == Seq::new(
                if width > 0 && height > 0 {
                    width as nat
                } else {
                    0
                },
                |i: int| Seq::<StreakView>::empty(),
            ),
            s@.height == height,
            s@.max_padding == max_padding,
            s@.background == background,
            s@.queue == (QueueView { items: Seq::empty(), closed: is_closed }),
    {
        let n: usize = if width > 0 && height > 0 {
            width as usize
        } else {
            0
        };
        let mut columns: Vec<Column> = Vec::new();
        for i in 0..n
            invariant
                columns@.len() == i,
                forall|j: int| 0 <= j < i ==> #[trigger] columns@[j]@ == Seq::<StreakView>::empty(),
        {
            columns.push(Column::new());
        }
        let s = Scene {
            columns,
            height,
            queue: MessageQueue::new(n, is_closed),
            background,
            max_padding,
        };
        assert(s@.columns =~= Seq::new(n as nat, |i: int| Seq::<StreakView>::empty()));
        assert forall|i: int| 0 <= i < s@.columns.len() implies column_ok(#[trigger] s@.columns[i], i, s@.height) by {
            assert(s@.columns[i].len() == 0);
        }
        s
    }

    /// Adds a message at the back of the queue.
    pub fn push(&mut self, message: Message)
        requires
            old(self).wf(),
        ensures
            final(self).wf(),
            final(self)@ == (SceneView {
                queue: QueueView {
                    items: old(self)@.queue.items.push(message@),
                    closed: old(self)@.queue.closed,
                },
                ..old(self)@
            }),
    {
        self.queue.push(message);
    }

    /// One tick of the animation. Column by column, left to right: erase the
    /// row above each streak's lit window, move each streak one row down,
    /// drop those that have left the screen, spawn one new streak from the
    /// queue when `needs_spawn` says so (with a random tail from `MIN_TAIL`
    /// up to below `tail_limit(height)`), then draw every streak. Returns the
    /// cells to draw, in that order.
    pub fn advance(&mut self) -> (cells: Vec<Cell>)
        requires
            old(self).wf(),
        ensures
            final(self).wf(),
            scene_step(old(self)@, final(self)@),
            cells@ == frame_cells(
                old(self)@.columns,
                final(self)@.columns,
                old(self)@.background,
                old(self)@.height,
                old(self)@.columns.len(),
            ),
    {
        let ghost old_v = self@;
        let mut cells: Vec<Cell> = Vec::new();
        let mut rng = rand::thread_rng();
        let n = self.columns.len();
        let h = self.height;
        proof {
            assert(self.queue@ == cycled(old_v.queue, 0));
        }
        for i in 0..n
            invariant
                n == old_v.columns.len(),
                scene_ok(old_v),
                self.height == h,
                h == old_v.height,
                self.background == old_v.background,
                self.max_padding == old_v.max_padding,
                self.columns@.len() == n,
                forall|c: int|
                    0 <= c < i ==> column_step(
                        old_v.columns[c],
                        #[trigger] self@.columns[c],
                        c,
                        h as int,
                        old_v.queue,
                        old_v.max_padding,
                    )
                        && column_ok(self@.columns[c], c, h as int),
                forall|c: int| i <= c < n ==> #[trigger] self@.columns[c] == old_v.columns[c],
                cells@ == frame_cells(old_v.columns, self@.columns, old_v.background, h as int, i as nat),
                exists|k: nat| self.queue@ == cycled(old_v.queue, k),
        {
            let ghost before = self@;
            assert(column_ok(old_v.columns[i as int], i as int, h as int));
            assert(self@.columns[i as int] == old_v.columns[i as int]);
            assert(self.columns@[i as int]@ == old_v.columns[i as int]);
            self.columns[i].retire(Ghost(i as int), h, self.background, &mut cells);
            let ghost surv = self.columns@[i as int]@;
            assert(surv == survivors(old_v.columns[i as int], h as int));
            if self.columns[i].needs_spawn(Ghost(i as int), h) {
                let limit: i128 = if 2 * (h as i128) > MIN_TAIL as i128 + 1 {
                    2 * (h as i128)
                } else {
                    MIN_TAIL as i128 + 1
                };
                let tail = draw(&mut rng, MIN_TAIL as i128, limit) as i32;
                let ghost q0 = self.queue@;
                let s = Streak::new_with_queue(&mut self.queue, i as i32, tail, h, self.max_padding);
                proof {
                    let k1 = choose|k: nat| q0 == cycled(old_v.queue, k);
                    let k2 = choose|k: nat| self.queue@ == cycled(q0, k);
                    lemma_cycled_add(old_v.queue, k1, k2);
                    assert(laid_out_from(s@.text, cycled(old_v.queue, k1), h as nat, old_v.max_padding));
                }
                self.columns[i].add(s);
                assert(self.columns@[i as int]@.take(surv.len() as int) =~= surv);
                assert(spawned_ok(s@, i as int, h as int));
            }
            let ghost stepped = self.columns@[i as int]@;
            proof {
                assert(column_step(
                    old_v.columns[i as int],
                    stepped,
                    i as int,
                    h as int,
                    old_v.queue,
                    old_v.max_padding,
                ));
                assert(column_ok(stepped, i as int, h as int)) by {
                    if needs_spawn(survivors(old_v.columns[i as int], h as int)) {
                        assert forall|j: int| 0 <= j < stepped.len() implies streak_ok(#[trigger] stepped[j], i as int, h as int) by {
                            if j < stepped.len() - 1 {
                                assert(stepped[j] == stepped.take(stepped.len() - 1)[j]);
                            }
                        }
                    }
                }
            }
            self.columns[i].render(h, &mut cells);
            proof {
                let after = self@;
                assert(after.columns[i as int] == stepped);
                assert forall|c: int| i < c < n implies before.columns[c] == after.columns[c] by {}
                assert forall|c: int| 0 <= c < i implies before.columns[c] == after.columns[c] by {}
                lemma_frame_prefix(old_v.columns, before.columns, after.columns, old_v.background, h as int, i as nat);
            }
        }
        cells
    }

    /// The number of columns.
    pub fn width(&self) -> (r: usize)
        ensures
            r == self@.columns.len(),
    {
        self.columns.len()
    }

    /// The height in rows.
    pub fn height(&self) -> (r: i32)
        ensures
            r == self@.height,
    {
        self.height
    }

    /// The streaks of column `x`, top of the order first.
    pub fn streaks(&self, x: usize) -> (r: &Vec<Streak>)
        requires
            x < self@.columns.len(),
        ensures
            r@.map_values(|s: Streak| s@) == self@.columns[x as int],
    {
        self.columns[x].streaks()
    }

    /// The queue of messages waiting to be shown.
    pub fn queue(&self) -> (r: &MessageQueue)
        ensures
            r@ == self@.queue,
    {
        &self.queue
    }
}

} // verus!
