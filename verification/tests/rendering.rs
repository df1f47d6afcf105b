use dungeon_core::colors::{black, cyan, white, Color};
use dungeon_core::config::{PANEL_Y, SCREEN_HEIGHT, SCREEN_WIDTH};
use dungeon_core::draw::{Tcod, TextAlignment};
use dungeon_core::object::Object;
use dungeon_core::rng::Pcg32;
use dungeon_core::ui::render_bar;

#[test]
fn render_to_string_shows_glyphs_and_blanks() {
    let mut t = Tcod::new(3, 2);
    t.stroke(white());
    t.put_char(0, 0, '@');
    t.put_char(2, 1, 'o');
    assert_eq!(t.render_to_string(), "@  \n  o\n");
}

#[test]
fn render_to_string_shades_backgrounds() {
    let mut t = Tcod::new(2, 1);
    t.background(black());
    assert_eq!(t.render_to_string(), "\u{2588}\u{2588}\n");
}

#[test]
fn clear_chars_keeps_backgrounds() {
    let mut t = Tcod::new(2, 1);
    t.background(black());
    t.stroke(white());
    t.put_char(0, 0, '@');
    t.clear_chars();
    assert_eq!(t.render_to_string(), "\u{2588}\u{2588}\n");
}

#[test]
fn print_ex_centers_text() {
    let mut t = Tcod::new(11, 1);
    t.stroke(white());
    t.print_ex(&"abcd".to_string(), 5, 0, TextAlignment::Center);
    // Centre alignment backs up by half the length: 5 - 2 = 3.
    assert_eq!(t.render_to_string(), "   abcd    \n");
}

#[test]
fn print_rect_wraps_at_the_given_width() {
    let mut t = Tcod::new(4, 3);
    t.stroke(white());
    t.print_rect(&"abcde".to_string(), 0, 0, 3, 0);
    assert_eq!(t.render_to_string(), "abc \nde  \n    \n");
}

#[test]
fn get_height_rect_counts_wrapped_lines() {
    let mut t = Tcod::new(4, 3);
    assert_eq!(t.get_height_rect(&"abcde".to_string(), 0, 0, 3, 0), 2);
    assert_eq!(t.get_height_rect(&"ab".to_string(), 0, 0, 3, 0), 1);
    assert_eq!(t.get_height_rect(&"".to_string(), 0, 0, 3, 0), 1);
}

#[test]
fn render_bar_splits_fill_and_back() {
    let bar = Color { r: 200, g: 0, b: 0 };
    let back = Color { r: 50, g: 0, b: 0 };
    let mut t = Tcod::new(SCREEN_WIDTH, SCREEN_HEIGHT);
    render_bar(&mut t, 1, 1, 20, "HP", 15, 30, bar, back);
    let row = PANEL_Y + 1;
    // 15/30 of twenty cells: the first ten carry the bar colour.
    for i in 1..11 {
        assert_eq!(t.bg[i as usize][row as usize], Some(bar));
    }
    for i in 11..21 {
        assert_eq!(t.bg[i as usize][row as usize], Some(back));
    }
    // The label is centred over the bar.
    let s = t.render_to_string();
    let line = s.lines().nth(row as usize).unwrap();
    assert!(line.contains("HP: 15/30"));
}

#[test]
fn entity_draw_places_glyph_and_attack_marker() {
    let mut t = Tcod::new(10, 10);
    let mut o = Object::new(4, 4, '@', white(), "player", false);
    o.start_attacking(0, -1);
    o.draw(&mut t);
    assert_eq!(t.chars[4][4], Some(('@', white())));
    assert_eq!(t.chars[4][3], Some(('|', cyan())));
    let mut t2 = Tcod::new(10, 10);
    let mut o2 = Object::new(4, 4, '@', white(), "player", false);
    o2.start_attacking(1, 0);
    o2.draw(&mut t2);
    assert_eq!(t2.chars[5][4], Some(('-', cyan())));
}

#[test]
fn fill_render_buffer_writes_seven_bytes_per_cell() {
    let mut t = Tcod::new(2, 2);
    t.stroke(white());
    t.put_char(1, 0, 'A');
    t.put_char_background(0, 1, Color { r: 9, g: 8, b: 7 });
    let mut buf = vec![0u8; 7 * 4 + 3];
    t.fill_render_buffer(&mut buf);
    // Cell (1, 0) is the second record: black background, white glyph 'A'.
    assert_eq!(&buf[7..14], &[0, 0, 0, 255, 255, 255, b'A']);
    // Cell (0, 1) is the third record: coloured background, no glyph.
    assert_eq!(&buf[14..21], &[9, 8, 7, 0, 0, 0, 0]);
    // Bytes past the used prefix are untouched.
    assert_eq!(&buf[28..31], &[0, 0, 0]);
}

#[test]
fn generator_streams_are_reproducible() {
    let mut a = Pcg32::new(99);
    let mut b = Pcg32::new(99);
    for _ in 0..100 {
        assert_eq!(a.next_u32(), b.next_u32());
    }
    let mut c = Pcg32::new(100);
    let mut differs = false;
    let mut a2 = Pcg32::new(99);
    for _ in 0..10 {
        if a2.next_u32() != c.next_u32() {
            differs = true;
        }
    }
    assert!(differs);
}

#[test]
fn generator_ranges_stay_in_bounds() {
    let mut r = Pcg32::new(5);
    for _ in 0..1000 {
        let v = r.gen_range(3, 11);
        assert!((3..11).contains(&v));
    }
    let mut any_true = false;
    let mut any_false = false;
    for _ in 0..1000 {
        if r.gen_bool() {
            any_true = true;
        } else {
            any_false = true;
        }
    }
    assert!(any_true && any_false);
}
