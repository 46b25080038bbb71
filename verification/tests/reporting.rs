use watcher::diff::{DiffLine, Tag};
use watcher::notification::{Notification, Timestamp};

fn line(tag: Tag, text: &str) -> DiffLine {
    DiffLine { tag, text: text.to_string() }
}

fn sample() -> Notification {
    Notification {
        time: Timestamp { secs: 0, nanos: 0 },
        path: "/w/a.txt".to_string(),
        diff: vec![
            line(Tag::Common, "hello"),
            line(Tag::Removed, "old \"line\""),
            line(Tag::Added, "new\tline\\"),
        ],
    }
}

#[test]
fn new_notification_has_no_diff() {
    let n = Notification::new("/w/a.txt", Timestamp { secs: 7, nanos: 8 });
    assert_eq!(
        n,
        Notification { time: Timestamp { secs: 7, nanos: 8 }, path: "/w/a.txt".to_string(), diff: Vec::new() }
    );
}

#[test]
fn display_writes_header_and_changed_lines() {
    let rows = sample().display("2024-05-06 07:08:09");
    assert_eq!(
        rows,
        vec![
            "[2024-05-06 07:08:09] - /w/a.txt".to_string(),
            "00002 - |  old \"line\"".to_string(),
            "00003 + |  new\tline\\".to_string(),
        ]
    );
}

#[test]
fn display_of_an_empty_diff_is_the_header() {
    let n = Notification::new("/w/a.txt", Timestamp { secs: 0, nanos: 0 });
    assert_eq!(n.display("t"), vec!["[t] - /w/a.txt".to_string()]);
}

#[test]
fn display_counts_common_lines_too() {
    let mut diff = Vec::new();
    for i in 0..99_999 {
        diff.push(line(Tag::Common, &format!("{}", i)));
    }
    diff.push(line(Tag::Added, "last"));
    let n = Notification { time: Timestamp { secs: 0, nanos: 0 }, path: "p".to_string(), diff };
    assert_eq!(n.display("t"), vec!["[t] - p".to_string(), "100000 + |  last".to_string()]);
}

#[test]
fn payload_is_compact_json_with_sorted_members() {
    let text = sample().payload("1970-01-01T00:00:00+00:00");
    assert_eq!(
        text,
        "{\"diff\":[{\"change\":\"hello\",\"direction\":0},{\"change\":\"old \\\"line\\\"\",\"direction\":-1},{\"change\":\"new\\tline\\\\\",\"direction\":1}],\"path\":\"/w/a.txt\",\"time\":\"1970-01-01T00:00:00+00:00\"}"
    );
}

#[test]
fn payload_of_an_empty_diff() {
    let n = Notification::new("p", Timestamp { secs: 0, nanos: 0 });
    assert_eq!(n.payload("t"), "{\"diff\":[],\"path\":\"p\",\"time\":\"t\"}");
}

#[test]
fn payload_is_what_serde_json_writes() {
    let n = Notification {
        time: Timestamp { secs: 0, nanos: 0 },
        path: "/w/ä \"q\".txt".to_string(),
        diff: vec![
            line(Tag::Removed, "a\u{1}b\n"),
            line(Tag::Common, ""),
            line(Tag::Added, "ünï\u{7f}\u{2028}"),
        ],
    };
    let mut changes = Vec::new();
    for l in &n.diff {
        let mut change = serde_json::Map::new();
        change.insert(
            "direction".to_string(),
            serde_json::Value::Number(serde_json::Number::from(l.tag.direction())),
        );
        change.insert("change".to_string(), serde_json::Value::String(l.text.clone()));
        changes.push(serde_json::Value::Object(change));
    }
    let mut top = serde_json::Map::new();
    top.insert("time".to_string(), serde_json::Value::String("when".to_string()));
    top.insert("path".to_string(), serde_json::Value::String(n.path.clone()));
    top.insert("diff".to_string(), serde_json::Value::Array(changes));
    let want = serde_json::to_string(&serde_json::Value::Object(top)).unwrap();
    assert_eq!(n.payload("when"), want);
}

#[test]
fn payload_parses_back() {
    let text = sample().payload("when");
    let value: serde_json::Value = serde_json::from_str(&text).unwrap();
    assert_eq!(value["time"], "when");
    assert_eq!(value["path"], "/w/a.txt");
    let diff = value["diff"].as_array().unwrap();
    assert_eq!(diff.len(), 3);
    assert_eq!(diff[0]["direction"], 0);
    assert_eq!(diff[0]["change"], "hello");
    assert_eq!(diff[1]["direction"], -1);
    assert_eq!(diff[1]["change"], "old \"line\"");
    assert_eq!(diff[2]["direction"], 1);
    assert_eq!(diff[2]["change"], "new\tline\\");
}

#[test]
fn json_stamps_the_time_in_utc() {
    let text = sample().json().unwrap();
    let value: serde_json::Value = serde_json::from_str(&text).unwrap();
    assert_eq!(value["time"], "1970-01-01T00:00:00+00:00");
    assert_eq!(text, sample().payload("1970-01-01T00:00:00+00:00"));
}

#[test]
fn json_writes_fractions_of_a_second() {
    let mut n = sample();
    n.time = Timestamp { secs: 1_700_000_000, nanos: 123_000_000 };
    let value: serde_json::Value = serde_json::from_str(&n.json().unwrap()).unwrap();
    assert_eq!(value["time"], "2023-11-14T22:13:20.123+00:00");
    n.time = Timestamp { secs: -1, nanos: 1 };
    let value: serde_json::Value = serde_json::from_str(&n.json().unwrap()).unwrap();
    assert_eq!(value["time"], "1969-12-31T23:59:59.000000001+00:00");
}

#[test]
fn json_gives_nothing_for_a_time_out_of_range() {
    let mut n = sample();
    n.time = Timestamp { secs: 0, nanos: 2_000_000_000 };
    assert_eq!(n.json(), None);
    n.time = Timestamp { secs: i64::MAX, nanos: 0 };
    assert_eq!(n.json(), None);
    n.time = Timestamp { secs: i64::MIN, nanos: 0 };
    assert_eq!(n.json(), None);
}
