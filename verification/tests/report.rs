use myfind::report::report;
use myfind::sort::{sort, str_le};

fn words(tokens: &[&str]) -> Vec<String> {
    tokens.iter().map(|t| t.to_string()).collect()
}

#[test]
fn report_of_nothing() {
    assert_eq!(report(Vec::new()), words(&["no matches found"]));
}

#[test]
fn report_of_one_match() {
    assert_eq!(report(words(&["a/c.rs"])), words(&["matches found:", "\ta/c.rs"]));
}

#[test]
fn report_is_sorted_whatever_the_order_found() {
    let expected = words(&["matches found:", "\t./a/c.rs", "\t./b/a.rs", "\t./d.rs"]);
    assert_eq!(report(words(&["./d.rs", "./a/c.rs", "./b/a.rs"])), expected);
    assert_eq!(report(words(&["./b/a.rs", "./d.rs", "./a/c.rs"])), expected);
    assert_eq!(report(words(&["./a/c.rs", "./b/a.rs", "./d.rs"])), expected);
}

#[test]
fn report_keeps_duplicates() {
    assert_eq!(
        report(words(&["b", "a", "b"])),
        words(&["matches found:", "\ta", "\tb", "\tb"])
    );
}

#[test]
fn str_le_orders_by_bytes() {
    assert!(str_le("", ""));
    assert!(str_le("", "a"));
    assert!(!str_le("a", ""));
    assert!(str_le("a", "a"));
    assert!(str_le("a", "b"));
    assert!(!str_le("b", "a"));
    assert!(str_le("a", "ab"));
    assert!(!str_le("ab", "a"));
    assert!(str_le("B", "a"));
    assert!(!str_le("a", "B"));
    assert!(str_le("a.rs", "a/b"));
    assert!(str_le("z", "\u{e9}"));
    assert!(!str_le("\u{e9}", "z"));
    assert!(str_le("\u{e9}", "\u{20ac}"));
}

#[test]
fn str_le_agrees_with_std() {
    let samples = ["", "a", "A", "ab", "a/b", "a.b", "b", "\u{e9}", "\u{10348}", "~", "a b"];
    for x in samples {
        for y in samples {
            assert_eq!(str_le(x, y), x <= y, "{:?} {:?}", x, y);
        }
    }
}

#[test]
fn sort_of_nothing_and_of_one() {
    assert_eq!(sort(Vec::new()), Vec::<String>::new());
    assert_eq!(sort(words(&["x"])), words(&["x"]));
}

#[test]
fn sort_orders_paths() {
    assert_eq!(
        sort(words(&["b/c", "a", "b", "B", "a/z", "a.z", "ab", ""])),
        words(&["", "B", "a", "a.z", "a/z", "ab", "b", "b/c"])
    );
}

#[test]
fn sort_agrees_with_std() {
    let mut input = Vec::new();
    let mut seed: u32 = 7;
    for _ in 0..200 {
        seed = seed.wrapping_mul(1664525).wrapping_add(1013904223);
        input.push(format!("p{}/{}", (seed >> 8) % 13, (seed >> 16) % 7));
    }
    let mut expected = input.clone();
    expected.sort();
    assert_eq!(sort(input), expected);
}
