use watcher::diff::{diff, diff_lines, fits, plain_diff, replays, settle, DiffLine, Tag};
use watcher::text::{decimal_text, pad_end_text, pad_start_text, split_lines};

fn line(tag: Tag, text: &str) -> DiffLine {
    DiffLine { tag, text: text.to_string() }
}

fn strings(items: &[&str]) -> Vec<String> {
    items.iter().map(|s| s.to_string()).collect()
}

fn old_side(d: &[DiffLine]) -> Vec<String> {
    d.iter().filter(|l| l.tag != Tag::Added).map(|l| l.text.clone()).collect()
}

fn new_side(d: &[DiffLine]) -> Vec<String> {
    d.iter().filter(|l| l.tag != Tag::Removed).map(|l| l.text.clone()).collect()
}

#[test]
fn split_lines_of_empty_text_is_empty() {
    assert_eq!(split_lines(""), Vec::<String>::new());
}

#[test]
fn split_lines_drops_final_line_feed() {
    assert_eq!(split_lines("hello\n"), strings(&["hello"]));
    assert_eq!(split_lines("hello"), strings(&["hello"]));
}

#[test]
fn split_lines_keeps_empty_lines() {
    assert_eq!(split_lines("\n"), strings(&[""]));
    assert_eq!(split_lines("a\n\nb"), strings(&["a", "", "b"]));
    assert_eq!(split_lines("a\n\n"), strings(&["a", ""]));
}

#[test]
fn split_lines_strips_carriage_return_before_line_feed_only() {
    assert_eq!(split_lines("a\r\nb\r\n"), strings(&["a", "b"]));
    assert_eq!(split_lines("a\r"), strings(&["a\r"]));
    assert_eq!(split_lines("a\rb\n"), strings(&["a\rb"]));
    assert_eq!(split_lines("a\r\r\n"), strings(&["a\r"]));
    assert_eq!(split_lines("\r\n"), strings(&[""]));
}

#[test]
fn split_lines_agrees_with_std() {
    let samples = [
        "",
        "\n",
        "\r",
        "\r\n",
        "a",
        "a\n",
        "a\r\n",
        "a\n\r",
        "one\ntwo\r\nthree",
        "\n\n\n",
        "x\r\r\ny\r",
        "héllo\nwörld\n",
    ];
    for sample in samples {
        let want: Vec<String> = sample.lines().map(|l| l.to_string()).collect();
        assert_eq!(split_lines(sample), want, "{:?}", sample);
    }
}

#[test]
fn tag_directions() {
    assert_eq!(Tag::Removed.direction(), -1);
    assert_eq!(Tag::Common.direction(), 0);
    assert_eq!(Tag::Added.direction(), 1);
}

#[test]
fn diff_of_appended_line() {
    let d = diff("hello\n", "hello\nworld\n");
    assert_eq!(d, vec![line(Tag::Common, "hello"), line(Tag::Added, "world")]);
}

#[test]
fn diff_of_equal_texts_is_all_common() {
    let d = diff("a\nb\nc\n", "a\nb\nc\n");
    assert_eq!(d, vec![line(Tag::Common, "a"), line(Tag::Common, "b"), line(Tag::Common, "c")]);
}

#[test]
fn diff_of_empty_texts_is_empty() {
    assert_eq!(diff("", ""), Vec::<DiffLine>::new());
}

#[test]
fn diff_from_empty_adds_everything() {
    assert_eq!(diff("", "a\nb"), vec![line(Tag::Added, "a"), line(Tag::Added, "b")]);
}

#[test]
fn diff_to_empty_removes_everything() {
    assert_eq!(diff("a\nb", ""), vec![line(Tag::Removed, "a"), line(Tag::Removed, "b")]);
}

#[test]
fn diff_of_swapped_lines() {
    let d = diff("foo\nbar\nbaz\nquux", "foo\nbaz\nbar\nquux");
    assert_eq!(
        d,
        vec![
            line(Tag::Common, "foo"),
            line(Tag::Removed, "bar"),
            line(Tag::Common, "baz"),
            line(Tag::Added, "bar"),
            line(Tag::Common, "quux"),
        ]
    );
}

#[test]
fn diff_is_exact_per_line() {
    let d = diff("a \n", "a\n");
    assert_eq!(d.len(), 2);
    assert_eq!(old_side(&d), strings(&["a "]));
    assert_eq!(new_side(&d), strings(&["a"]));
}

#[test]
fn diff_replays_both_sides() {
    let cases = [
        ("", ""),
        ("a\nb\nc", "a\nc"),
        ("a\nb\nc", "x\ny"),
        ("one\ntwo\nthree\n", "zero\none\nthree\nfour\n"),
        ("same\nsame\nsame", "same\nsame"),
        ("k\r\nl\r\n", "l\nk\n"),
    ];
    for (old, new) in cases {
        let d = diff(old, new);
        assert_eq!(old_side(&d), split_lines(old), "{:?} {:?}", old, new);
        assert_eq!(new_side(&d), split_lines(new), "{:?} {:?}", old, new);
    }
}

#[test]
fn diff_lines_keeps_a_longest_common_part() {
    let old = strings(&["a", "b", "c", "d", "e"]);
    let new = strings(&["b", "x", "d", "e", "f"]);
    let d = diff_lines(&old, &new);
    let common = d.iter().filter(|l| l.tag == Tag::Common).count();
    assert_eq!(common, 3);
    assert_eq!(old_side(&d), old);
    assert_eq!(new_side(&d), new);
}

#[test]
fn plain_diff_removes_then_adds() {
    let d = plain_diff(&strings(&["a", "b"]), &strings(&["c"]));
    assert_eq!(d, vec![line(Tag::Removed, "a"), line(Tag::Removed, "b"), line(Tag::Added, "c")]);
}

#[test]
fn replays_accepts_a_diff_of_the_texts() {
    let old = strings(&["a", "b"]);
    let new = strings(&["b", "c"]);
    let d = vec![line(Tag::Removed, "a"), line(Tag::Common, "b"), line(Tag::Added, "c")];
    assert!(replays(&old, &new, &d));
}

#[test]
fn replays_refuses_a_diff_of_other_texts() {
    let old = strings(&["a", "b"]);
    let new = strings(&["b", "c"]);
    assert!(!replays(&old, &new, &vec![line(Tag::Removed, "a"), line(Tag::Common, "b")]));
    assert!(!replays(&old, &new, &vec![line(Tag::Common, "a"), line(Tag::Common, "b")]));
    assert!(!replays(
        &old,
        &new,
        &vec![
            line(Tag::Removed, "a"),
            line(Tag::Common, "b"),
            line(Tag::Added, "c"),
            line(Tag::Added, "d"),
        ]
    ));
    assert!(!replays(&old, &new, &Vec::new()));
    assert!(replays(&Vec::new(), &Vec::new(), &Vec::new()));
}

#[test]
fn settle_keeps_an_alignment_that_replays() {
    let old = strings(&["a", "b"]);
    let new = strings(&["b"]);
    let raw = vec![line(Tag::Removed, "a"), line(Tag::Common, "b")];
    assert_eq!(settle(&old, &new, raw.clone()), raw);
}

#[test]
fn settle_replaces_an_alignment_that_does_not_replay() {
    let old = strings(&["a", "b"]);
    let new = strings(&["b"]);
    let raw = vec![line(Tag::Common, "a"), line(Tag::Common, "b")];
    assert_eq!(
        settle(&old, &new, raw),
        vec![line(Tag::Removed, "a"), line(Tag::Removed, "b"), line(Tag::Added, "b")]
    );
}

#[test]
fn fits_bounds_the_table() {
    assert!(fits(0, 0));
    assert!(fits(1000, 1000));
    assert!(!fits(usize::MAX, 0));
    assert!(!fits(0, usize::MAX));
    assert!(!fits(usize::MAX / 2, usize::MAX / 2));
    let side = (isize::MAX as usize / 4) - 1;
    assert!(fits(side, 0));
    assert!(!fits(side + 1, 0));
}

#[test]
fn decimal_text_writes_base_ten() {
    assert_eq!(decimal_text(0), "0");
    assert_eq!(decimal_text(7), "7");
    assert_eq!(decimal_text(10), "10");
    assert_eq!(decimal_text(1234567890), "1234567890");
    assert_eq!(decimal_text(u128::MAX), "340282366920938463463374607431768211455");
}

#[test]
fn padding_fills_up_to_the_width() {
    assert_eq!(pad_end_text("ab", 5, '.'), "ab...");
    assert_eq!(pad_end_text("abcdef", 5, '.'), "abcdef");
    assert_eq!(pad_end_text("", 0, '.'), "");
    assert_eq!(pad_start_text("42", 5, '0'), "00042");
    assert_eq!(pad_start_text("123456", 5, '0'), "123456");
    assert_eq!(pad_end_text("é└", 4, '.'), "é└..");
}
