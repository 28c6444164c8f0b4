use vstd::prelude::*;
use crate::glyph::{blanks, StyledGlyph};
use crate::message::glyphs_of;
use crate::queue::{after_pop, cycled, lemma_cycled_add, MessageQueue, QueueView};

verus! {

/// `buf` padded with blank rows up to `h` rows.
pub open spec fn fill(buf: Seq<StyledGlyph>, h: nat) -> Seq<StyledGlyph> {
    buf + blanks(h - buf.len())
}

/// The rows that the first message `t` fills when it starts at row
/// `start`: a positive start leaves that many blank rows above it (at most
/// `h`), a negative one scrolls the message up so that only its tail shows;
/// what does not fit in `h` rows is cut off.
pub open spec fn first_rows(t: Seq<StyledGlyph>, h: nat, start: int) -> Seq<StyledGlyph> {
    let lead = if start <= 0 {
        0
    } else if start >= h {
        h as int
    } else {
        start
    };
    let from = if start < 0 {
        -start
    } else {
        0
    };
    let end = if t.len() < from + (h - lead) {
        t.len() as int
    } else {
        from + (h - lead)
    };
    if from < end {
        blanks(lead) + t.subrange(from, end)
    } else {
        blanks(lead)
    }
}

/// The buffer and queue after the first message is placed; with no message
/// the whole buffer is blank.
pub open spec fn lay_first(q: QueueView, h: nat, start: int) -> (Seq<StyledGlyph>, QueueView) {
    if q.items.len() == 0 {
        (blanks(h as int), q)
    } else {
        (first_rows(glyphs_of(q.items[0]), h, start), after_pop(q))
    }
}

/// One round after the first message: `gap` blank rows, then the next
/// message, cut off at `h` rows. The flag says whether the buffer is done:
/// it is full, the queue ran dry, or the round added nothing (no gap and an
/// empty message); the rest of a finished buffer is blank.
pub open spec fn lay_step(buf: Seq<StyledGlyph>, q: QueueView, h: nat, gap: nat) -> (
    Seq<StyledGlyph>,
    QueueView,
    bool,
) {
    if buf.len() + gap >= h {
        (fill(buf, h), q, true)
    } else {
        let b2 = buf + blanks(gap as int);
        if q.items.len() == 0 {
            (fill(b2, h), q, true)
        } else {
            let t = glyphs_of(q.items[0]);
            if b2.len() + t.len() >= h {
                (b2 + t.take(h - b2.len()), after_pop(q), true)
            } else if gap == 0 && t.len() == 0 {
                (fill(b2, h), after_pop(q), true)
            } else {
                (b2 + t, after_pop(q), false)
            }
        }
    }
}

/// Rounds of `lay_step` with the gaps in order until the buffer is done;
/// when the gaps run out first the rest is blank.
pub open spec fn lay_rest(buf: Seq<StyledGlyph>, q: QueueView, h: nat, gaps: Seq<usize>) -> (
    Seq<StyledGlyph>,
    QueueView,
)
    decreases gaps.len(),
{
    if buf.len() >= h {
        (buf, q)
    } else if gaps.len() == 0 {
        (fill(buf, h), q)
    } else {
        let r = lay_step(buf, q, h, gaps[0] as nat);
        if r.2 {
            (r.0, r.1)
        } else {
            lay_rest(r.0, r.1, h, gaps.drop_first())
        }
    }
}

/// A streak's buffer of `h` rows laid out from queue `q`, with the first
/// message starting at row `start` and the given gaps between messages,
/// and the queue afterwards.
pub open spec fn layout(q: QueueView, h: nat, start: int, gaps: Seq<usize>) -> (
    Seq<StyledGlyph>,
    QueueView,
) {
    let f = lay_first(q, h, start);
    lay_rest(f.0, f.1, h, gaps)
}

proof fn lemma_first_rows_fit(t: Seq<StyledGlyph>, h: nat, start: int)
    ensures
        first_rows(t, h, start).len() <= h,
{
}

proof fn lemma_step_len(buf: Seq<StyledGlyph>, q: QueueView, h: nat, gap: nat)
    requires
        buf.len() < h,
    ensures
        lay_step(buf, q, h, gap).2 ==> lay_step(buf, q, h, gap).0.len() == h,
        !lay_step(buf, q, h, gap).2 ==> buf.len() < lay_step(buf, q, h, gap).0.len() < h,
        lay_step(buf, q, h, gap).1 == q || lay_step(buf, q, h, gap).1 == cycled(q, 1),
{
    assert(cycled(q, 1) == cycled(after_pop(q), 0));
}

proof fn lemma_rest_len(buf: Seq<StyledGlyph>, q: QueueView, h: nat, gaps: Seq<usize>)
    requires
        buf.len() <= h,
    ensures
        lay_rest(buf, q, h, gaps).0.len() == h,
        exists|k: nat| lay_rest(buf, q, h, gaps).1 == cycled(q, k),
    decreases gaps.len(),
{
    if buf.len() >= h {
        assert(lay_rest(buf, q, h, gaps).1 == cycled(q, 0));
    } else if gaps.len() == 0 {
        assert(lay_rest(buf, q, h, gaps).1 == cycled(q, 0));
    } else {
        let r = lay_step(buf, q, h, gaps[0] as nat);
        lemma_step_len(buf, q, h, gaps[0] as nat);
        let k1: nat = if r.1 == q { 0 } else { 1 };
        assert(r.1 == cycled(q, k1));
        if r.2 {
            assert(lay_rest(buf, q, h, gaps).1 == cycled(q, k1));
        } else {
            lemma_rest_len(r.0, r.1, h, gaps.drop_first());
            let k2 = choose|k: nat| lay_rest(r.0, r.1, h, gaps.drop_first()).1 == cycled(r.1, k);
            lemma_cycled_add(q, k1, k2);
            assert(lay_rest(buf, q, h, gaps).1 == cycled(q, k1 + k2));
        }
    }
}

/// Every layout fills exactly `h` rows, and leaves the queue as it would be
/// after some number of messages were taken and recycled.
pub proof fn lemma_layout_fills(q: QueueView, h: nat, start: int, gaps: Seq<usize>)
    ensures
        layout(q, h, start, gaps).0.len() == h,
        exists|k: nat| layout(q, h, start, gaps).1 == cycled(q, k),
{
    let f = lay_first(q, h, start);
    if q.items.len() > 0 {
        lemma_first_rows_fit(glyphs_of(q.items[0]), h, start);
    }
    lemma_rest_len(f.0, f.1, h, gaps);
    let k2 = choose|k: nat| lay_rest(f.0, f.1, h, gaps).1 == cycled(f.1, k);
    if q.items.len() > 0 {
        assert(f.1 == cycled(q, 1)) by {
            assert(cycled(q, 1) == cycled(after_pop(q), 0));
        }
        lemma_cycled_add(q, 1, k2);
        assert(layout(q, h, start, gaps).1 == cycled(q, 1 + k2));
    } else {
        assert(layout(q, h, start, gaps).1 == cycled(q, k2));
    }
}

/// From an empty queue the buffer is all blank and the queue stays empty.
pub proof fn lemma_layout_of_empty(q: QueueView, h: nat, start: int, gaps: Seq<usize>)
    requires
        q.items.len() == 0,
    ensures
        layout(q, h, start, gaps) == (blanks(h as int), q),
{
}

/// Appends `n` blank rows.
fn push_blanks(buf: &mut Vec<StyledGlyph>, n: usize)
    ensures
        final(buf)@ == old(buf)@ + blanks(n as int),
{
    let ghost start = buf@;
    for i in 0..n
        invariant
            buf@ == start + blanks(i as int),
    {
        buf.push(StyledGlyph::blank(0));
        assert(buf@ =~= start + blanks(i + 1));
    }
}

/// Appends the glyphs `t[from..to]`.
fn push_glyphs(buf: &mut Vec<StyledGlyph>, t: &Vec<StyledGlyph>, from: usize, to: usize)
    requires
        from <= to <= t@.len(),
    ensures
        final(buf)@ == old(buf)@ + t@.subrange(from as int, to as int),
{
    let ghost start = buf@;
    for i in from..to
        invariant
            from <= to <= t@.len(),
            buf@ == start + t@.subrange(from as int, i as int),
    {
        buf.push(t[i]);
        assert(buf@ =~= start + t@.subrange(from as int, i + 1));
    }
}

/// Places the first message of the queue, as `lay_first` says.
fn place_first(queue: &mut MessageQueue, h: usize, start: i128) -> (buf: Vec<StyledGlyph>)
    ensures
        (buf@, final(queue)@) == lay_first(old(queue)@, h as nat, start as int),
{
    let mut buf: Vec<StyledGlyph> = Vec::new();
    match queue.pop() {
        None => {
            push_blanks(&mut buf, h);
            assert(buf@ =~= blanks(h as int));
        },
        Some(m) => {
            let t = m.glyphs();
            let len = t.len();
            let lead: usize = if start <= 0 {
                0
            } else if start >= h as i128 {
                h
            } else {
                start as usize
            };
            let from: usize = if start >= 0 {
                0
            } else if start + (len as i128) <= 0 {
                len
            } else {
                (0 - start) as usize
            };
            let room = h - lead;
            let end: usize = if len - from <= room {
                len
            } else {
                from + room
            };
            push_blanks(&mut buf, lead);
            push_glyphs(&mut buf, t, from, end);
            assert(buf@ =~= first_rows(glyphs_of(old(queue)@.items[0]), h as nat, start as int));
            queue.recycle(m);
        },
    }
    buf
}

/// One round of `lay_step`; returns whether the buffer is done.
fn place_next(buf: &mut Vec<StyledGlyph>, queue: &mut MessageQueue, h: usize, gap: usize) -> (done: bool)
    requires
        old(buf)@.len() < h,
    ensures
        (final(buf)@, final(queue)@, done) == lay_step(old(buf)@, old(queue)@, h as nat, gap as nat),
{
    let room = h - buf.len();
    if gap >= room {
        push_blanks(buf, room);
        return true;
    }
    push_blanks(buf, gap);
    let ghost b2 = buf@;
    match queue.pop() {
        None => {
            let rest = h - buf.len();
            push_blanks(buf, rest);
            true
        },
        Some(m) => {
            let t = m.glyphs();
            let len = t.len();
            let rest = h - buf.len();
            if len >= rest {
                push_glyphs(buf, t, 0, rest);
                queue.recycle(m);
                true
            } else if gap == 0 && len == 0 {
                queue.recycle(m);
                push_blanks(buf, rest);
                true
            } else {
                push_glyphs(buf, t, 0, len);
                assert(t@.subrange(0, len as int) =~= t@);
                queue.recycle(m);
                false
            }
        },
    }
}

/// Lays out a buffer of `h` rows from the queue, as `layout` says.
pub(crate) fn lay_out(queue: &mut MessageQueue, h: usize, start: i128, gaps: &Vec<usize>) -> (buf: Vec<
    StyledGlyph,
>)
    ensures
        (buf@, final(queue)@) == layout(old(queue)@, h as nat, start as int, gaps@),
        buf@.len() == h,
{
    proof {
        lemma_layout_fills(old(queue)@, h as nat, start as int, gaps@);
    }
    let mut buf = place_first(queue, h, start);
    let ghost b1 = buf@;
    let ghost q1 = queue@;
    proof {
        if old(queue)@.items.len() > 0 {
            lemma_first_rows_fit(glyphs_of(old(queue)@.items[0]), h as nat, start as int);
        }
        assert(gaps@.subrange(0, gaps@.len() as int) =~= gaps@);
    }
    let mut j: usize = 0;
    while j < gaps.len() && buf.len() < h
        invariant
            j <= gaps@.len(),
            buf@.len() <= h,
            lay_rest(buf@, queue@, h as nat, gaps@.subrange(j as int, gaps@.len() as int))
                == lay_rest(b1, q1, h as nat, gaps@),
        decreases gaps@.len() - j,
    {
        let ghost bj = buf@;
        let ghost qj = queue@;
        let done = place_next(&mut buf, queue, h, gaps[j]);
        proof {
            lemma_step_len(bj, qj, h as nat, gaps@[j as int] as nat);
            let rest = gaps@.subrange(j as int, gaps@.len() as int);
            assert(rest[0] == gaps@[j as int]);
            assert(rest.drop_first() =~= gaps@.subrange(j + 1, gaps@.len() as int));
        }
        j = j + 1;
    }
    if buf.len() < h {
        let rest = h - buf.len();
        push_blanks(&mut buf, rest);
        proof {
            assert(gaps@.subrange(j as int, gaps@.len() as int).len() == 0);
        }
    }
    buf
}

} // verus!
