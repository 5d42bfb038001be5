use xiangqi_arbiter::framer::LineFramer;

fn feed(framer: &mut LineFramer, bytes: &[u8]) -> Vec<String> {
    let mut lines = Vec::new();
    for &b in bytes {
        if let Some(line) = framer.push_byte(b) {
            lines.push(line);
        }
    }
    lines
}

#[test]
fn framer_basic_line() {
    let mut framer = LineFramer::new();
    assert_eq!(feed(&mut framer, b"init 1\n"), ["init 1"]);
}

#[test]
fn framer_collapses_whitespace() {
    let mut framer = LineFramer::new();
    assert_eq!(
        feed(&mut framer, b"  init \t\t  1   \n"),
        ["init 1"]
    );
}

#[test]
fn framer_drops_blank_lines() {
    let mut framer = LineFramer::new();
    assert_eq!(feed(&mut framer, b"\n \t\n\r\na\n"), ["a"]);
}

#[test]
fn framer_drops_nongraphic_bytes() {
    let mut framer = LineFramer::new();
    assert_eq!(feed(&mut framer, b"a\x01b\x7f\xffc\n"), ["abc"]);
}

#[test]
fn framer_keeps_state_between_reads() {
    let mut framer = LineFramer::new();
    assert_eq!(feed(&mut framer, b"play h"), Vec::<String>::new());
    assert_eq!(feed(&mut framer, b"2e2\nready\n"), ["play h2e2", "ready"]);
}

#[test]
fn framer_carriage_return_is_whitespace() {
    let mut framer = LineFramer::new();
    assert_eq!(feed(&mut framer, b"ready\r\n"), ["ready"]);
}
