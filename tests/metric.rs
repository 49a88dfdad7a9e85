use statsd_frame::decimal::decimal_bytes;
use statsd_frame::{Metric, Tag};

#[test]
fn test_into_bytes() {
    assert_eq!(Metric::increase("test").into_bytes().as_ref(), b"test:1|c");
    assert_eq!(Metric::decrease("test").into_bytes().as_ref(), b"test:-1|c");
    assert_eq!(Metric::count(2, "test").into_bytes().as_ref(), b"test:2|c");
    assert_eq!(
        Metric::gauge("1.2", "test").into_bytes().as_ref(),
        b"test:1.2|g"
    );
    assert_eq!(
        Metric::histogram("1.2", "test").into_bytes().as_ref(),
        b"test:1.2|h"
    );
    assert_eq!(
        Metric::distribution("1.2", "test").into_bytes().as_ref(),
        b"test:1.2|d"
    );
    assert_eq!(
        Metric::set("1.2", "test").into_bytes().as_ref(),
        b"test:1.2|s"
    );

    let val = String::from("b");
    assert_eq!(
        Metric::increase("test")
            .add_key_value("a", &val)
            .add_tag("c")
            .into_bytes()
            .as_ref(),
        b"test:1|c|#a:b,c"
    );
}

fn count_value_of(n: isize) -> isize {
    let frame = Metric::count(n, "n").into_bytes();
    let text = std::str::from_utf8(frame.as_ref()).unwrap();
    let value = text.strip_prefix("n:").unwrap().strip_suffix("|c").unwrap();
    value.parse::<isize>().unwrap()
}

#[test]
fn count_decimal_round_trips() {
    assert_eq!(count_value_of(0), 0);
    assert_eq!(count_value_of(isize::MAX), isize::MAX);
    assert_eq!(count_value_of(isize::MIN), isize::MIN);
    assert_eq!(count_value_of(-17), -17);
}

#[test]
fn count_formats_like_std() {
    for n in [0isize, 7, 10, 99, 100, -1, -10, 123456789, isize::MAX, isize::MIN] {
        assert_eq!(decimal_bytes(n), n.to_string().into_bytes());
    }
    assert_eq!(
        Metric::count(-42, "hits").into_bytes().as_ref(),
        b"hits:-42|c"
    );
}

#[test]
fn untagged_frame_has_no_tag_marker() {
    let frame = Metric::histogram("250", "latency").into_bytes();
    assert_eq!(frame.as_ref(), b"latency:250|h");
    assert!(!frame.as_ref().windows(2).any(|w| w == b"|#"));
}

#[test]
fn tags_keep_their_order_and_single_commas() {
    let frame = Metric::gauge("3", "queue")
        .add_tag("urgent")
        .add_key_value("env", "prod")
        .add_tag("x")
        .into_bytes();
    assert_eq!(frame.as_ref(), b"queue:3|g|#urgent,env:prod,x");
    let markers = frame.as_ref().windows(2).filter(|w| *w == b"|#").count();
    assert_eq!(markers, 1);
}

#[test]
fn one_tag_has_no_comma() {
    let frame = Metric::decrease("jobs").add_tag("solo").into_bytes();
    assert_eq!(frame.as_ref(), b"jobs:-1|c|#solo");
}

#[test]
fn encoded_len_is_frame_length() {
    let m = Metric::set("user7", "visitors").add_key_value("k", "v");
    let n = m.encoded_len();
    let frame = m.into_bytes();
    assert_eq!(n, Some(frame.len()));
    assert_eq!(frame.as_ref(), b"visitors:user7|s|#k:v");
}

#[test]
fn tag_renders() {
    assert_eq!(Tag::Single(String::from("urgent")).render(), "urgent");
    assert_eq!(
        Tag::KeyValue(String::from("env"), String::from("prod")).render(),
        "env:prod"
    );
}

#[test]
fn non_ascii_text_is_written_as_utf8() {
    let frame = Metric::gauge("é", "naïve").into_bytes();
    assert_eq!(frame.as_ref(), "naïve:é|g".as_bytes());
}
