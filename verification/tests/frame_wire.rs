use postgresql_rust::cmd::{Cmd, Method};
use postgresql_rust::frame::Frame;
use postgresql_rust::line::get_line;

fn frame_bytes(cmd: &mut Cmd) -> Vec<u8> {
    cmd.into_frame().to_bytes().expect("flat frame")
}

#[test]
fn query_frame_matches_the_documented_layout() {
    let mut cmd = Cmd::build(Method::Query);
    cmd.set_table("test")
        .set_columns(vec!["first_name", "last_name"])
        .set_condition("order by first_name");
    let mut expected: Vec<u8> = Vec::new();
    expected.extend_from_slice(b"&\r\n");
    expected.extend_from_slice(b"#test\r\n");
    expected.extend_from_slice(&[b'@', 2, b'\r', b'\n']);
    expected.extend_from_slice(b"^first_name\r\n^last_name\r\n");
    expected.extend_from_slice(&[b'%', 0, b'\r', b'\n']);
    expected.extend_from_slice(b"?order by first_name\r\n");
    assert_eq!(frame_bytes(&mut cmd), expected);
}

#[test]
fn frame_without_expression_has_no_expression_line() {
    let mut cmd = Cmd::build(Method::Delete);
    cmd.set_table("t");
    let mut expected: Vec<u8> = Vec::new();
    expected.extend_from_slice(b"-\r\n#t\r\n");
    expected.extend_from_slice(&[b'@', 0, b'\r', b'\n', b'%', 0, b'\r', b'\n']);
    assert_eq!(frame_bytes(&mut cmd), expected);
}

#[test]
fn frame_writes_text_as_utf8() {
    let mut cmd = Cmd::build(Method::Insert);
    cmd.set_table("é");
    let bytes = frame_bytes(&mut cmd);
    assert_eq!(&bytes[0..7], &[b'+', b'\r', b'\n', b'#', 0xC3, 0xA9, b'\r']);
}

#[test]
fn column_count_is_one_byte() {
    let names: Vec<String> = (0..300).map(|i| format!("c{}", i)).collect();
    let refs: Vec<&str> = names.iter().map(|s| s.as_str()).collect();
    let mut cmd = Cmd::build(Method::Query);
    cmd.set_columns(refs);
    let bytes = frame_bytes(&mut cmd);
    // "&\r\n#\r\n@" then the count
    assert_eq!(bytes[7], 300u16 as u8);
    assert_eq!(bytes[7], 44);
}

#[test]
fn update_round_trip_through_bytes() {
    let mut cmd = Cmd::build(Method::Update);
    cmd.set_table("customer")
        .set_columns(vec!["first_name", "last_name"])
        .set_values(vec!["berry", "lin"])
        .set_condition("where first_name = 'Berry'");
    let bytes = frame_bytes(&mut cmd);
    let back = Cmd::from_vec(&bytes);
    assert_eq!(back.method, Method::Update);
    assert!(back.update_fits());
    assert_eq!(
        back.update_execution(),
        "UPDATE customer SET first_name = 'berry',last_name = 'lin' where first_name = 'Berry'"
    );
}

#[test]
fn round_trip_keeps_every_statement() {
    let mut cmd = Cmd::build(Method::Insert);
    cmd.set_table("clients")
        .set_columns(vec!["nom", "ville"])
        .set_values(vec!["Zoë", "a\rb"])
        .set_condition("x\n");
    let bytes = frame_bytes(&mut cmd);
    let back = Cmd::from_vec(&bytes);
    assert_eq!(back.method, Method::Insert);
    assert_eq!(back.query_execution(), cmd.query_execution());
    assert_eq!(back.insert_execution(), cmd.insert_execution());
    assert_eq!(back.delete_execution(), cmd.delete_execution());
}

#[test]
fn text_with_crlf_does_not_round_trip() {
    let mut cmd = Cmd::build(Method::Query);
    cmd.set_table("a\r\nb");
    let bytes = frame_bytes(&mut cmd);
    // the table line ends early and "b" reads as an unknown tag
    assert!(Cmd::try_from_vec(&bytes).is_none());
}

#[test]
fn unknown_tag_is_refused() {
    assert!(Cmd::try_from_vec(b"&\r\nXtable\r\n").is_none());
}

#[test]
fn empty_count_line_is_refused() {
    assert!(Cmd::try_from_vec(b"&\r\n@\r\n").is_none());
    assert!(Cmd::try_from_vec(b"&\r\n%\r\n").is_none());
}

#[test]
fn invalid_utf8_is_refused() {
    assert!(Cmd::try_from_vec(&[b'#', 0xFF, b'\r', b'\n']).is_none());
}

#[test]
fn empty_input_gives_an_empty_command() {
    let cmd = Cmd::from_vec(b"");
    assert_eq!(cmd.method, Method::Null);
    assert_eq!(cmd.query_execution(), "SELECT * FROM  ");
}

#[test]
fn last_line_may_lack_its_separator() {
    let cmd = Cmd::from_vec(b"-\r\n#people\r\n?where id = 1");
    assert_eq!(cmd.method, Method::Delete);
    assert_eq!(cmd.delete_execution(), "DELETE FROM people where id = 1");
}

#[test]
fn lone_trailing_tag_is_ignored() {
    let cmd = Cmd::from_vec(b"&\r\n#t\r\n?");
    assert_eq!(cmd.query_execution(), "SELECT * FROM t ");
}

#[test]
fn count_lines_set_the_update_count() {
    let cmd = Cmd::from_vec(&[
        b'*', b'\r', b'\n', b'#', b't', b'\r', b'\n', b'@', 1, b'\r', b'\n', b'^', b'a', b'\r',
        b'\n', b'%', 1, b'\r', b'\n', b'!', b'v', b'\r', b'\n',
    ]);
    assert_eq!(cmd.update_execution(), "UPDATE t SET a = 'v' ");
}

#[test]
fn update_count_beyond_the_columns_does_not_fit() {
    let cmd = Cmd::from_vec(&[b'*', b'\r', b'\n', b'@', 2, b'\r', b'\n', b'^', b'a']);
    assert!(!cmd.update_fits());
}

#[test]
fn get_line_reads_one_line_at_a_time() {
    let src: &[u8] = b"#ab\r\n^c";
    let mut pos: usize = 0;
    assert_eq!(get_line(src, &mut pos), Some((b'#', b"ab".to_vec())));
    assert_eq!(pos, 5);
    assert_eq!(get_line(src, &mut pos), Some((b'^', b"c".to_vec())));
    assert_eq!(pos, 7);
    assert_eq!(get_line(src, &mut pos), None);
}

#[test]
fn get_line_keeps_a_lone_carriage_return() {
    let src: &[u8] = b"#a\r\r\n";
    let mut pos: usize = 0;
    assert_eq!(get_line(src, &mut pos), Some((b'#', b"a\r".to_vec())));
    assert_eq!(pos, 5);
}

#[test]
fn get_line_on_an_empty_line() {
    let src: &[u8] = b"&\r\n";
    let mut pos: usize = 0;
    assert_eq!(get_line(src, &mut pos), Some((b'&', Vec::new())));
    assert_eq!(pos, 3);
}

#[test]
fn push_functions_build_an_array() {
    let mut frame = Frame::array();
    frame.push_Sign(b'+');
    frame.push_table("t");
    frame.push_columns(&vec!["c".to_string()]);
    frame.push_values(&vec!["v".to_string()]);
    frame.push_expression(&None);
    frame.push_expression(&Some("e".to_string()));
    let bytes = frame.to_bytes().unwrap();
    let mut expected: Vec<u8> = Vec::new();
    expected.extend_from_slice(b"+\r\n#t\r\n");
    expected.extend_from_slice(&[b'@', 1, b'\r', b'\n']);
    expected.extend_from_slice(b"^c\r\n");
    expected.extend_from_slice(&[b'%', 1, b'\r', b'\n']);
    expected.extend_from_slice(b"!v\r\n?e\r\n");
    assert_eq!(bytes, expected);
}

#[test]
fn nested_array_has_no_bytes() {
    let frame = Frame::Array(vec![Frame::Sign(1), Frame::Array(Vec::new())]);
    assert!(frame.to_bytes().is_none());
}

#[test]
fn non_array_frame_writes_nothing() {
    assert_eq!(Frame::Sign(7).to_bytes(), Some(Vec::new()));
    assert_eq!(Frame::Interger(7).to_bytes(), Some(Vec::new()));
}

#[test]
fn get_line_past_the_end_reads_nothing() {
    let src: &[u8] = b"&\r\n";
    let mut pos: usize = 10;
    assert_eq!(get_line(src, &mut pos), None);
    assert_eq!(pos, 10);
    let empty: &[u8] = b"";
    let mut pos: usize = 0;
    assert_eq!(get_line(empty, &mut pos), None);
    let lone: &[u8] = b"&";
    let mut pos: usize = 0;
    assert_eq!(get_line(lone, &mut pos), None);
    assert_eq!(pos, 1);
}

#[test]
fn statement_follows_the_method() {
    let mut cmd = Cmd::build(Method::Delete);
    cmd.set_table("t").set_condition("where a = 1");
    assert_eq!(cmd.statement(), Some("DELETE FROM t where a = 1".to_string()));
    let mut cmd = Cmd::build(Method::Query);
    cmd.set_table("t");
    assert_eq!(cmd.statement(), Some("SELECT * FROM t ".to_string()));
    let mut cmd = Cmd::build(Method::Insert);
    cmd.set_table("t").set_columns(vec!["a"]).set_values(vec!["1"]);
    assert_eq!(cmd.statement(), Some("INSERT INTO t(a) values('1')".to_string()));
    let cmd = Cmd::from_vec(b"*\r\n#t\r\n");
    assert_eq!(cmd.statement(), Some("UPDATE t SET  ".to_string()));
    assert_eq!(Cmd::build(Method::Null).statement(), None);
}
