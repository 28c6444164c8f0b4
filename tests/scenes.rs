use ticker_rain::scene::{MAX_HEIGHT, MIN_TAIL};
use ticker_rain::{Message, Scene};

fn message(title: &str, body: &str) -> Message {
    Message::new(title.to_string(), body.to_string(), 1)
}

#[test]
fn degenerate_scenes_have_no_columns() {
    let mut s = Scene::new(0, 10, 3, 0, true);
    s.push(message("A", "1"));
    assert_eq!(s.width(), 0);
    assert!(s.advance().is_empty());
    let mut s = Scene::new(5, 0, 3, 0, true);
    s.push(message("A", "1"));
    assert_eq!(s.width(), 0);
    assert!(s.advance().is_empty());
    assert_eq!(s.queue().len(), 1);
    let s = Scene::new(-3, -3, 0, 0, false);
    assert_eq!(s.width(), 0);
    assert_eq!(s.height(), -3);
}

#[test]
fn first_tick_spawns_one_streak_per_column() {
    let mut s = Scene::new(3, 10, 0, 7, true);
    s.push(message("AAA", "1"));
    for x in 0..3 {
        assert!(s.streaks(x).is_empty());
    }
    let cells = s.advance();
    for x in 0..3 {
        let st = s.streaks(x);
        assert_eq!(st.len(), 1);
        assert_eq!(st[0].head(), 0);
        assert_eq!(st[0].head_x(), x as i32);
        assert!(st[0].length() >= MIN_TAIL && st[0].length() < 20);
        assert_eq!(st[0].text().len(), 10);
    }
    // each column draws its new streak's head row
    assert_eq!(cells.len(), 3);
    for (x, c) in cells.iter().enumerate() {
        assert_eq!((c.row, c.col), (0, x as i32));
    }
    assert_eq!(s.queue().len(), 1);
}

#[test]
fn each_tick_spawns_at_most_one_streak_per_column() {
    let mut s = Scene::new(4, 12, 4, 0, true);
    s.push(message("AB", "12"));
    s.push(message("XYZ", ""));
    let mut before: Vec<usize> = (0..4).map(|x| s.streaks(x).len()).collect();
    for _ in 0..300 {
        s.advance();
        for x in 0..4 {
            let n = s.streaks(x).len();
            assert!(n >= 1 && n <= before[x] + 1);
            for st in s.streaks(x) {
                assert!(!st.finished(12));
                assert_eq!(st.head_x(), x as i32);
            }
            before[x] = n;
        }
        assert_eq!(s.queue().len(), 2);
    }
}

#[test]
fn scenario_column_refills_after_all_streaks_finish() {
    let mut s = Scene::new(1, 20, 5, 0, true);
    s.push(message("AB", "12"));
    s.push(message("CD", "34"));
    s.advance();
    for _ in 0..2000 {
        // the streaks that finish during the next tick are those whose
        // head + 1 - tail reaches 20
        let all_finish = s.streaks(0).iter().all(|st| st.finished(19));
        let n = s.streaks(0).len();
        s.advance();
        assert!(s.streaks(0).len() <= n + 1);
        assert!(s.streaks(0).len() >= 1);
        if all_finish {
            assert_eq!(s.streaks(0).len(), 1);
            assert_eq!(s.streaks(0)[0].head(), 0);
        }
    }
}

#[test]
fn short_column_empties_and_refills_with_one_streak() {
    // three rows high: every tail is 5, a streak finishes at head 8 while
    // the next one would only spawn at head 10
    let mut s = Scene::new(1, 3, 5, 0, true);
    s.push(message("AB", "12"));
    s.push(message("CD", "34"));
    s.advance();
    let mut refills = 0;
    for _ in 0..100 {
        let all_finish = s.streaks(0).iter().all(|st| st.finished(2));
        s.advance();
        if all_finish {
            refills += 1;
            assert_eq!(s.streaks(0).len(), 1);
            assert_eq!(s.streaks(0)[0].head(), 0);
        } else {
            assert!(s.streaks(0).iter().all(|st| st.head() > 0));
        }
    }
    assert_eq!(refills, 12);
}

#[test]
fn a_lone_streak_runs_off_and_the_column_refills() {
    // a short screen: the tail is between 5 and 5, so every streak is alike
    let mut s = Scene::new(1, 3, 0, 0, false);
    s.push(message("AB", "C"));
    s.advance();
    assert_eq!(s.streaks(0).len(), 1);
    assert_eq!(s.streaks(0)[0].length(), 5);
    let mut counts = Vec::new();
    for _ in 0..20 {
        s.advance();
        counts.push(s.streaks(0).len());
    }
    assert!(counts.iter().all(|&n| n >= 1 && n <= 2));
    // after the first streak is gone the open queue has run dry
    assert_eq!(s.queue().len(), 0);
}

#[test]
fn advance_erases_then_draws() {
    let mut s = Scene::new(1, 6, 0, 9, false);
    s.push(message("ABCDEF", ""));
    let first = s.advance();
    assert_eq!(first.len(), 1);
    assert_eq!(first[0].glyph.style, 1);
    let cells = s.advance();
    // one erase for the old streak, then its window rows 0..=1
    assert_eq!(cells[0].glyph.ch, ' ');
    assert_eq!(cells[0].glyph.style, 9);
    assert_eq!(cells[0].row, -s.streaks(0)[0].length() - 1 + 0);
    let rows: Vec<i32> = cells[1..].iter().map(|c| c.row).collect();
    assert_eq!(rows, vec![0, 1]);
}

#[test]
fn tallest_scene_is_accepted() {
    let s = Scene::new(1, MAX_HEIGHT, 3, 0, true);
    assert_eq!(s.height(), MAX_HEIGHT);
}
