use fractalx::journal::{after_save, comes_before, entry_name, is_png, newest_first};
use fractalx::text::decimal;

#[test]
fn a_saved_entry_comes_first_in_a_listed_journal() {
    let mut entries = Some(vec![1, 2]);
    after_save(&mut entries, 3);
    assert_eq!(entries, Some(vec![3, 1, 2]));
    let mut unlisted = None;
    after_save(&mut unlisted, 3);
    assert_eq!(unlisted, None);
}

#[test]
fn entries_are_named_by_time() {
    assert_eq!(entry_name(0), "bm-0.png");
    assert_eq!(entry_name(1_752_000_000_123), "bm-1752000000123.png");
    assert_eq!(decimal(u128::MAX), u128::MAX.to_string());
    assert_eq!(decimal(10), "10");
}

#[test]
fn later_names_come_later() {
    let mut names: Vec<String> = (0..2000u128)
        .map(|i| entry_name(1_000_000_000_000 + i * 7919))
        .collect();
    let by_time = names.clone();
    names.sort();
    assert_eq!(names, by_time);
    assert!(comes_before(by_time[0].as_bytes(), by_time[1].as_bytes()));
    assert!(!comes_before(by_time[1].as_bytes(), by_time[0].as_bytes()));
}

#[test]
fn byte_strings_are_ordered_as_usual() {
    let words: [&[u8]; 6] = [b"", b"a", b"ab", b"b", b"ba", b"\xff"];
    for (i, a) in words.iter().enumerate() {
        for (j, b) in words.iter().enumerate() {
            assert_eq!(comes_before(a, b), i < j);
        }
    }
}

#[test]
fn only_png_files_are_listed() {
    assert!(is_png(b"bm-1.png"));
    assert!(is_png(b"..png"));
    assert!(!is_png(b".png"));
    assert!(!is_png(b"png"));
    assert!(!is_png(b"bm-1.PNG"));
    assert!(!is_png(b"bm-1.png.tmp"));
    assert!(!is_png(b""));
}

#[test]
fn the_newest_entry_is_first() {
    let names: Vec<Vec<u8>> = ["bm-2.png", "notes.txt", "bm-3.png", "bm-1.png", ".png"]
        .iter()
        .map(|n| n.as_bytes().to_vec())
        .collect();
    assert_eq!(newest_first(&names), vec![2, 0, 3]);
    assert!(newest_first(&Vec::new()).is_empty());
}
