use tty_overwriter::{Body, EscapeStyle, Sink};

fn printable() -> Body {
    Body::with_style(EscapeStyle::Printable)
}

fn text(buf: &[u8]) -> String {
    String::from_utf8(buf.to_vec()).unwrap()
}

#[test]
fn initial() {
    let mut body = printable();
    let mut buf = Vec::new();
    body.overwrite("content", &mut buf, 80).unwrap();

    let string = text(&buf);
    assert_eq!("content\\e[0K\\e[0J", string);

    body.overwrite("content + content", &mut buf, 80).unwrap();
    let string = text(&buf);
    assert_eq!("content\\e[0K\\e[0J\\e[0Gcontent + content\\e[0K\\e[0J", string);

    body.overwrite("none", &mut buf, 80).unwrap();
    let string = text(&buf);

    let mut expected = String::new();
    expected.push_str("content"); // first content
    expected.push_str("\\e[0K"); // clear til EOL
    expected.push_str("\\e[0J"); // clear til EOF
    expected.push_str("\\e[0G"); // go far left
    expected.push_str("content + content"); // second content
    expected.push_str("\\e[0K"); // clear til EOL
    expected.push_str("\\e[0J"); // clear til EOF
    expected.push_str("\\e[0G"); // go far left
    expected.push_str("none"); // third content
    expected.push_str("\\e[0K"); // clear til EOL
    expected.push_str("\\e[0J"); // clear til EOF

    assert_eq!(expected, string);

    body.overwrite("", &mut buf, 80).unwrap();

    expected.push_str("\\e[0G"); // go far left
    expected.push_str("\\e[0K"); // clear til EOL
    expected.push_str("\\e[0J"); // clear til EOF

    let string = text(&buf);

    assert_eq!(expected, string,);
}

#[test]
fn first_single_line_has_no_positioning() {
    let mut body = printable();
    let mut buf = Vec::new();
    body.overwrite("progress 10%", &mut buf, 20).unwrap();
    assert_eq!(text(&buf), "progress 10%\\e[0K\\e[0J");
}

#[test]
fn control_style_writes_escape_bytes() {
    let mut body = Body::new();
    let mut buf = Vec::new();
    body.overwrite("a", &mut buf, 80).unwrap();
    body.overwrite("b", &mut buf, 80).unwrap();
    assert_eq!(text(&buf), "a\u{1b}[0K\u{1b}[0J\u{1b}[0Gb\u{1b}[0K\u{1b}[0J");
}

#[test]
fn height_of_a_full_width_line_is_two() {
    let mut body = printable();
    let mut buf = Vec::new();
    assert_eq!(body.guess_previous_body_height(80), 0);
    body.overwrite(&"x".repeat(80), &mut buf, 80).unwrap();
    assert_eq!(body.guess_previous_body_height(80), 2);
    body.overwrite(&"x".repeat(79), &mut buf, 80).unwrap();
    assert_eq!(body.guess_previous_body_height(80), 1);
    body.overwrite(&"x".repeat(200), &mut buf, 80).unwrap();
    assert_eq!(body.guess_previous_body_height(80), 3);
    assert_eq!(body.guess_previous_body_height(1), 201);
}

#[test]
fn multi_line_frames_move_up_over_wrapped_rows() {
    let mut body = printable();
    let mut buf = Vec::new();
    body.overwrite("ab\ncdefg\n\nh", &mut buf, 4).unwrap();
    assert_eq!(text(&buf), "ab\\e[0K\ncdefg\\e[0K\n\\e[0K\nh\\e[0K\\e[0J");
    // rows: 1 + 2 + 1 + 1
    assert_eq!(body.guess_previous_body_height(4), 5);
    let mut next = Vec::new();
    body.overwrite("z", &mut next, 4).unwrap();
    assert_eq!(text(&next), "\\e[0G\\e[4Fz\\e[0K\\e[0J");
}

#[test]
fn crlf_and_final_line_break() {
    let mut body = printable();
    let mut buf = Vec::new();
    body.overwrite("one\r\ntwo\n", &mut buf, 80).unwrap();
    assert_eq!(text(&buf), "one\\e[0K\ntwo\\e[0K\\e[0J");
    assert_eq!(body.guess_previous_body_height(80), 2);
}

#[test]
fn lengths_count_characters() {
    let mut body = printable();
    let mut buf = Vec::new();
    body.overwrite("\u{e9}\u{e9}\u{e9}", &mut buf, 3).unwrap();
    assert_eq!(text(&buf), "\u{e9}\u{e9}\u{e9}\\e[0K\\e[0J");
    assert_eq!(body.guess_previous_body_height(3), 2);
}

#[test]
fn empty_after_draw_writes_no_content() {
    let mut body = printable();
    let mut buf = Vec::new();
    body.overwrite("a\nb\nc", &mut buf, 80).unwrap();
    let mut next = Vec::new();
    body.overwrite("", &mut next, 80).unwrap();
    assert_eq!(text(&next), "\\e[0G\\e[2F\\e[0K\\e[0J");
    assert_eq!(body.guess_previous_body_height(80), 1);
}

#[test]
fn empty_first_frame() {
    let mut body = Body::default();
    let mut buf = Vec::new();
    body.overwrite("", &mut buf, 80).unwrap();
    assert_eq!(text(&buf), "\u{1b}[0K\u{1b}[0J");
    assert_eq!(body.guess_previous_body_height(80), 1);
}

struct Broken;

impl Sink for Broken {
    type Error = String;

    fn write_all(&mut self, _bytes: &[u8]) -> Result<(), String> {
        Err("closed".to_string())
    }
}

#[test]
fn failed_write_keeps_the_remembered_frame() {
    let mut body = printable();
    let mut buf = Vec::new();
    body.overwrite("a\nb", &mut buf, 80).unwrap();

    let mut twin = printable();
    let mut twin_buf = Vec::new();
    twin.overwrite("a\nb", &mut twin_buf, 80).unwrap();

    let failed = body.overwrite("c\nd\ne\nf", &mut Broken, 80);
    assert_eq!(failed, Err("closed".to_string()));
    assert_eq!(body.guess_previous_body_height(80), 2);

    let mut after = Vec::new();
    body.overwrite("x", &mut after, 80).unwrap();
    let mut expected = Vec::new();
    twin.overwrite("x", &mut expected, 80).unwrap();
    assert_eq!(after, expected);
    assert_eq!(text(&after), "\\e[0G\\e[1Fx\\e[0K\\e[0J");
}

#[test]
fn compose_matches_what_overwrite_writes() {
    let mut body = printable();
    let mut buf = Vec::new();
    body.overwrite("abc", &mut buf, 2).unwrap();
    let (frame, profile) = body.compose("de\nf", 2);
    assert_eq!(frame, "\\e[0G\\e[1Fde\\e[0K\nf\\e[0K\\e[0J");
    assert_eq!(profile, vec![2, 1]);
}

#[test]
fn tall_frames_move_up_in_several_steps() {
    let mut body = printable();
    let mut buf = Vec::new();
    body.overwrite(&"\n".repeat(65537), &mut buf, 80).unwrap();
    assert_eq!(body.guess_previous_body_height(80), 65537);
    let mut next = Vec::new();
    body.overwrite("x", &mut next, 80).unwrap();
    assert_eq!(text(&next), "\\e[0G\\e[65535F\\e[1Fx\\e[0K\\e[0J");

    body.overwrite(&"\n".repeat(65536), &mut buf, 80).unwrap();
    let mut exact = Vec::new();
    body.overwrite("w", &mut exact, 80).unwrap();
    assert_eq!(text(&exact), "\\e[0G\\e[65535Fw\\e[0K\\e[0J");

    body.overwrite(&"\n".repeat(3), &mut buf, 80).unwrap();
    let mut again = Vec::new();
    body.overwrite("y", &mut again, 80).unwrap();
    assert_eq!(text(&again), "\\e[0G\\e[2Fy\\e[0K\\e[0J");
}

#[test]
fn vec_sink_appends_to_what_it_holds() {
    let mut body = printable();
    let mut buf = b"before|".to_vec();
    body.overwrite("a", &mut buf, 80).unwrap();
    assert_eq!(text(&buf), "before|a\\e[0K\\e[0J");
}
