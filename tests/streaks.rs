use ticker_rain::{Message, MessageQueue, Streak, StyledGlyph};

fn chars(text: &Vec<StyledGlyph>) -> String {
    text.iter().map(|g| g.ch).collect()
}

fn message(title: &str, body: &str) -> Message {
    Message::new(title.to_string(), body.to_string(), 3)
}

#[test]
fn scenario_single_message_without_padding() {
    let mut queue = MessageQueue::new(1, true);
    queue.push(message("AAA", "1"));
    let gaps = vec![0usize; 10];
    let s = Streak::new_with_draws(&mut queue, 0, 5, 10, 0, &gaps);
    let text = s.text();
    assert_eq!(text.len(), 10);
    // rows 0-3 hold the message; with no gap the closed queue hands it out again
    assert_eq!(chars(text), "AAA1AAA1AA");
    assert!(text[0].bold && text[1].bold && text[2].bold && !text[3].bold);
    assert_eq!(text[3].style, 3);
    assert_eq!(queue.len(), 1);
}

#[test]
fn scenario_single_message_open_queue_leaves_rest_blank() {
    let mut queue = MessageQueue::new(1, false);
    queue.push(message("AAA", "1"));
    let gaps = vec![0usize; 10];
    let s = Streak::new_with_draws(&mut queue, 0, 5, 10, 0, &gaps);
    assert_eq!(chars(s.text()), "AAA1      ");
    for g in &s.text()[4..] {
        assert_eq!(*g, StyledGlyph::blank(0));
    }
    assert_eq!(queue.len(), 0);
}

#[test]
fn scenario_long_message_is_truncated() {
    let mut queue = MessageQueue::new(2, false);
    queue.push(message("ABC", "DEFGH"));
    queue.push(message("XY", "Z"));
    let gaps = vec![1usize; 5];
    let s = Streak::new_with_draws(&mut queue, 2, 5, 5, 0, &gaps);
    assert_eq!(chars(s.text()), "ABCDE");
    // the second message was never taken
    assert_eq!(queue.len(), 1);
    assert_eq!(queue.front_len(), Some(3));
}

#[test]
fn negative_start_shows_the_tail_of_the_message() {
    let mut queue = MessageQueue::new(1, false);
    queue.push(message("ABC", "DEFGH"));
    let gaps = vec![1usize; 6];
    let s = Streak::new_with_draws(&mut queue, 0, 5, 6, -5, &gaps);
    assert_eq!(chars(s.text()), "FGH   ");
    let s2 = {
        let mut q = MessageQueue::new(1, false);
        q.push(message("ABC", "DEFGH"));
        Streak::new_with_draws(&mut q, 0, 5, 4, -2, &gaps)
    };
    assert_eq!(chars(s2.text()), "CDEF");
}

#[test]
fn positive_start_leaves_blank_rows_above() {
    let mut queue = MessageQueue::new(2, false);
    queue.push(message("AB", ""));
    queue.push(message("C", "D"));
    let gaps = vec![2usize, 1, 1, 1, 1, 1, 1, 1, 1, 1];
    let s = Streak::new_with_draws(&mut queue, 0, 5, 10, 3, &gaps);
    assert_eq!(chars(s.text()), "   AB  CD ");
    assert_eq!(queue.len(), 0);
}

#[test]
fn start_below_the_screen_gives_a_blank_buffer() {
    let mut queue = MessageQueue::new(1, true);
    queue.push(message("AB", "C"));
    let gaps = vec![1usize; 4];
    let s = Streak::new_with_draws(&mut queue, 0, 5, 4, 9, &gaps);
    assert_eq!(chars(s.text()), "    ");
    assert_eq!(queue.len(), 1);
}

#[test]
fn gap_that_reaches_the_bottom_ends_the_buffer() {
    let mut queue = MessageQueue::new(2, false);
    queue.push(message("AB", ""));
    queue.push(message("CD", ""));
    let gaps = vec![6usize];
    let s = Streak::new_with_draws(&mut queue, 0, 5, 7, 0, &gaps);
    assert_eq!(chars(s.text()), "AB     ");
    assert_eq!(queue.len(), 1);
}

#[test]
fn draws_that_run_out_leave_the_rest_blank() {
    let mut queue = MessageQueue::new(2, true);
    queue.push(message("AB", ""));
    let gaps: Vec<usize> = vec![1];
    let s = Streak::new_with_draws(&mut queue, 0, 5, 9, 0, &gaps);
    assert_eq!(chars(s.text()), "AB AB    ");
}

#[test]
fn empty_messages_without_gaps_end_the_buffer() {
    let mut queue = MessageQueue::new(1, true);
    queue.push(message("", ""));
    let gaps = vec![0usize; 6];
    let s = Streak::new_with_draws(&mut queue, 0, 5, 6, 0, &gaps);
    assert_eq!(chars(s.text()), "      ");
    assert_eq!(queue.len(), 1);
}

#[test]
fn empty_open_queue_gives_blank_buffer_and_stays_empty() {
    let mut queue = MessageQueue::new(1, false);
    queue.push(message("AB", "C"));
    assert!(queue.pop().is_some());
    assert!(queue.pop().is_none());
    assert!(queue.pop().is_none());
    let s = Streak::new_with_queue(&mut queue, 1, 5, 8, 4);
    assert_eq!(s.text().len(), 8);
    assert!(s.text().iter().all(|g| *g == StyledGlyph::blank(0)));
    assert_eq!(queue.len(), 0);
}

#[test]
fn buffer_length_is_the_screen_height() {
    for h in 1..40 {
        for pad in [0, 1, 2, 5] {
            let mut queue = MessageQueue::new(2, true);
            queue.push(message("ABCD", "12"));
            queue.push(message("X", ""));
            let s = Streak::new_with_queue(&mut queue, 0, 7, h, pad);
            assert_eq!(s.text().len(), h as usize);
            assert_eq!(s.head(), 0);
            assert_eq!(s.length(), 7);
            assert_eq!(queue.len(), 2);
        }
    }
    let mut queue = MessageQueue::new(1, true);
    let s = Streak::new_with_queue(&mut queue, 0, 7, 0, 3);
    assert_eq!(s.text().len(), 0);
    let s = Streak::new_with_queue(&mut queue, 0, 7, -4, 3);
    assert_eq!(s.text().len(), 0);
}

#[test]
fn random_start_stays_in_range() {
    let mut seen = std::collections::HashSet::new();
    for _ in 0..300 {
        let mut queue = MessageQueue::new(1, false);
        queue.push(message("ABC", "D"));
        let s = Streak::new_with_queue(&mut queue, 0, 5, 12, 3);
        let text = chars(s.text());
        // start in [-3, 3]: either some blank rows then "ABCD", or a tail of it
        let trimmed = text.trim_start();
        let lead = text.len() - trimmed.len();
        assert!(lead <= 3, "{:?}", text);
        assert!(trimmed.starts_with("ABCD") || "ABCD".ends_with(trimmed.trim_end()), "{:?}", text);
        seen.insert(text);
    }
    // the random draws do vary
    assert!(seen.len() > 1);
}

#[test]
fn padding_of_one_means_no_gap() {
    let mut queue = MessageQueue::new(1, true);
    queue.push(message("AB", ""));
    for _ in 0..20 {
        let s = Streak::new_with_queue(&mut queue, 0, 5, 9, 1);
        let text = chars(s.text());
        assert!(!text.contains("A A") && !text.contains("B A") && !text.contains("B  "), "{:?}", text);
    }
}

#[test]
fn finished_exactly_when_head_reaches_height_plus_tail() {
    let mut queue = MessageQueue::new(1, true);
    queue.push(message("AB", "C"));
    let mut s = Streak::new_with_draws(&mut queue, 0, 5, 10, 0, &vec![1usize; 10]);
    for tick in 0..40 {
        assert_eq!(s.head(), tick);
        assert_eq!(s.finished(10), tick >= 15);
        assert_eq!(s.top_space(), tick - 5 + 1);
        s.advance();
    }
    assert!(s.finished(10));
}

#[test]
fn render_shows_the_window_below_the_head() {
    let mut queue = MessageQueue::new(1, false);
    queue.push(message("ABCDEF", "GH"));
    let mut s = Streak::new_with_draws(&mut queue, 4, 3, 6, 0, &vec![1usize; 6]);
    assert!(s.render(6).len() == 1);
    assert_eq!(s.render(6)[0].row, 0);
    for _ in 0..4 {
        s.advance();
    }
    // head at row 4, window rows 1..=4
    let cells = s.render(6);
    let rows: Vec<i32> = cells.iter().map(|c| c.row).collect();
    assert_eq!(rows, vec![1, 2, 3, 4]);
    for c in &cells {
        assert_eq!(c.col, 4);
        assert_eq!(c.glyph, s.text()[c.row as usize]);
    }
    assert_eq!(cells[0].glyph.ch, 'B');
    // a shorter screen cuts the window
    let cells = s.render(3);
    let rows: Vec<i32> = cells.iter().map(|c| c.row).collect();
    assert_eq!(rows, vec![1, 2]);
    for _ in 0..10 {
        s.advance();
    }
    assert!(s.render(6).is_empty());
}

#[test]
fn derender_erases_the_row_above_the_window() {
    let mut queue = MessageQueue::new(1, false);
    let mut s = Streak::new_with_draws(&mut queue, 2, 3, 6, 0, &vec![]);
    let c = s.derender(9);
    assert_eq!((c.row, c.col), (-4, 2));
    assert_eq!(c.glyph, StyledGlyph::blank(9));
    assert_eq!(c.glyph.ch, ' ');
    for _ in 0..7 {
        s.advance();
    }
    assert_eq!(s.derender(9).row, 3);
}
