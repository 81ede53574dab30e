use trsh::protocol::{
    build_exec_command, encode_get, encode_put, encode_shell, parse_command, parse_u16,
    split_fields, Command, ParseError,
};

#[test]
fn parses_get() {
    let r = parse_command(b"GET|/etc/hostname").unwrap();
    assert_eq!(r, Command::Get(b"/etc/hostname".to_vec()));
}

#[test]
fn parses_put() {
    let r = parse_command(b"PUT|a.txt|/tmp").unwrap();
    assert_eq!(r, Command::Put(b"a.txt".to_vec(), b"/tmp".to_vec()));
}

#[test]
fn parses_shell() {
    let r = parse_command(b"SHELL|80|24").unwrap();
    assert_eq!(r, Command::Shell(80, 24));
}

#[test]
fn shell_with_nonnumeric_width_is_an_error() {
    let r = parse_command(b"SHELL|x|24");
    assert_eq!(r, Err(ParseError::InvalidNumber));
}

#[test]
fn shell_with_oversized_width_is_an_error() {
    let r = parse_command(b"SHELL|99999|24");
    assert_eq!(r, Err(ParseError::InvalidNumber));
}

#[test]
fn shell_with_missing_height_is_an_error() {
    let r = parse_command(b"SHELL|80");
    assert_eq!(r, Err(ParseError::MissingField));
}

#[test]
fn get_without_field_is_an_error() {
    let r = parse_command(b"GET");
    assert_eq!(r, Err(ParseError::MissingField));
}

#[test]
fn put_with_one_field_is_an_error() {
    let r = parse_command(b"PUT|a.txt");
    assert_eq!(r, Err(ParseError::MissingField));
}

#[test]
fn unrecognized_prefix_is_exec() {
    let r = parse_command(b"uname -a").unwrap();
    assert_eq!(r, Command::Exec(b"uname -a".to_vec()));
    let r = parse_command(b"w").unwrap();
    assert_eq!(r, Command::Exec(b"w".to_vec()));
}

#[test]
fn shell_tolerates_a_leading_plus() {
    let r = parse_command(b"SHELL|+80|24").unwrap();
    assert_eq!(r, Command::Shell(80, 24));
}

#[test]
fn encoders_produce_the_wire_frames() {
    assert_eq!(encode_get(b"/etc/hostname"), b"GET|/etc/hostname".to_vec());
    assert_eq!(encode_put(b"a.txt", b"/tmp"), b"PUT|a.txt|/tmp".to_vec());
    assert_eq!(encode_shell(80, 24), b"SHELL|80|24".to_vec());
    assert_eq!(encode_shell(0, 65535), b"SHELL|0|65535".to_vec());
}

#[test]
fn encoded_frames_parse_back() {
    let g = encode_get(b"/var/log/syslog");
    assert_eq!(
        parse_command(&g).unwrap(),
        Command::Get(b"/var/log/syslog".to_vec())
    );
    let p = encode_put(b"notes.txt", b"/home/op");
    assert_eq!(
        parse_command(&p).unwrap(),
        Command::Put(b"notes.txt".to_vec(), b"/home/op".to_vec())
    );
    let s = encode_shell(132, 43);
    assert_eq!(parse_command(&s).unwrap(), Command::Shell(132, 43));
}

#[test]
fn split_keeps_empty_fields() {
    let v = split_fields(b"a|b||c");
    let v: Vec<&[u8]> = v.iter().map(|f| f.as_slice()).collect();
    assert_eq!(v, vec![&b"a"[..], &b"b"[..], &b""[..], &b"c"[..]]);
    let v = split_fields(b"");
    assert_eq!(v.len(), 1);
    assert!(v[0].is_empty());
}

#[test]
fn parse_u16_edges() {
    assert_eq!(parse_u16(b"0"), Some(0));
    assert_eq!(parse_u16(b"65535"), Some(65535));
    assert_eq!(parse_u16(b"65536"), None);
    assert_eq!(parse_u16(b""), None);
    assert_eq!(parse_u16(b"+"), None);
    assert_eq!(parse_u16(b"+24"), Some(24));
    assert_eq!(parse_u16(b"-1"), None);
    assert_eq!(parse_u16(b"2 4"), None);
}

#[test]
fn exec_command_redirection() {
    assert_eq!(build_exec_command(b"w", false), b"w".to_vec());
    assert_eq!(build_exec_command(b"w", true), b"w 2>&1".to_vec());
}
