use localbeam::table::KeyedTable;
use localbeam::text::{
    chars_of, code_point, push_decimal, replace_text, same_text, text_in_order, trim_text,
    white_space,
};
use localbeam::window::{
    bottom_right, focus_lost, keep_open, placement_fits, position_once, toggle, tray_click, Monitor,
    WindowAction,
};

#[test]
fn white_space_is_that_of_unicode() {
    for n in 0..=0x10ffffu32 {
        if let Some(c) = char::from_u32(n) {
            assert_eq!(white_space(c), c.is_whitespace(), "{n:x}");
        }
    }
}

#[test]
fn trimming_agrees_with_std() {
    for s in ["", " ", "a", " a ", "\u{3000}a b\u{85}\n", "\u{200b}x", "\t\r\n"] {
        assert_eq!(trim_text(s), s.trim());
        assert_eq!(trim_text(&trim_text(s)), s.trim());
    }
}

#[test]
fn replacing_agrees_with_std() {
    for (s, pat, with) in [("", "a", "b"), ("aaa", "aa", "b"), ("abcabc", "bc", ""), ("...", "..", "_"), ("x{{N}}y{{N}}", "{{N}}", "{{N}}{{N}}"), ("é✓é", "é", "e")] {
        assert_eq!(replace_text(s, pat, with), s.replace(pat, with));
    }
}

#[test]
fn order_agrees_with_std() {
    let words = ["", "a", "ab", "b", "B", "é", "z", "\u{ffff}", "\u{10000}"];
    for a in words {
        for b in words {
            assert_eq!(text_in_order(a, b), a <= b, "{a} {b}");
            assert_eq!(same_text(a, b), a == b);
        }
    }
}

#[test]
fn numbers_are_written_in_decimal() {
    for n in [0u64, 7, 10, 99, 100, 65_535, u64::MAX] {
        let mut s = "n=".to_string();
        push_decimal(&mut s, n);
        assert_eq!(s, format!("n={n}"));
    }
    assert_eq!(chars_of("é✓"), vec!['é', '✓']);
    assert_eq!(code_point('✓'), 0x2713);
}

#[test]
fn a_table_holds_one_record_per_key() {
    let mut t: KeyedTable<u32> = KeyedTable::new();
    assert_eq!(t.count(), 0);
    t.insert("b".to_string(), 1);
    t.insert("a".to_string(), 2);
    t.insert("b".to_string(), 3);
    assert_eq!(t.count(), 2);
    assert_eq!((*t.nth(0), *t.nth(1)), (3, 2));
    assert_eq!(t.get("b"), Some(&3));
    assert_eq!(t.get("c"), None);
    assert!(t.contains("a") && !t.contains(""));
    assert!(!t.retain(|_: &u32| true));
    assert!(t.retain(|v: &u32| *v > 2));
    assert_eq!(t.remove("a"), None);
    assert_eq!(t.remove("b"), Some(3));
    assert_eq!(t.count(), 0);
}

#[test]
fn the_window_follows_clicks_and_focus() {
    assert_eq!(toggle(true), WindowAction::Hide);
    assert_eq!(toggle(false), WindowAction::Show);
    assert_eq!(tray_click(true, true), WindowAction::Hide);
    assert_eq!(tray_click(true, false), WindowAction::Show);
    assert_eq!(tray_click(false, true), WindowAction::ShowInPlace);
    assert_eq!(tray_click(false, false), WindowAction::ShowInPlace);
    assert_eq!(focus_lost(true), WindowAction::Hide);
    assert_eq!(focus_lost(false), WindowAction::Leave);
    assert_eq!(keep_open(true), (false, WindowAction::ShowInPlace));
    assert_eq!(keep_open(false), (true, WindowAction::Leave));
    let mut positioned = false;
    assert!(position_once(&mut positioned));
    assert!(!position_once(&mut positioned));
}

#[test]
fn the_window_stands_at_the_bottom_right() {
    let m = Monitor { x: 100, y: -50, width: 1920, height: 1080 };
    assert!(placement_fits(&m, 380, 560, 12));
    assert_eq!(bottom_right(&m, 380, 560, 12), (100 + 1920 - 380 - 12, -50 + 1080 - 560 - 12));
    assert_eq!(bottom_right(&m, 3000, 2000, 12), (100, -50));
    assert!(placement_fits(&m, u32::MAX, 560, 12));
    assert_eq!(bottom_right(&m, u32::MAX, 560, 12), (100 + 1920 + 1 - 12, -50 + 1080 - 560 - 12));
    let far = Monitor { x: i32::MAX, y: 0, width: 1, height: 1 };
    assert!(!placement_fits(&far, 1, 1, 0));
}
