use gustc::project::comptime::{
    decode_comptime_value, glob_matches, path_pattern_matches, permission_allows_name,
    ComptimeReader, ComptimeValue, PermissionValue,
};

fn artifact(body: &[u8]) -> Vec<u8> {
    let mut bytes = b"GCT1".to_vec();
    bytes.extend_from_slice(body);
    bytes
}

fn string_bytes(text: &str) -> Vec<u8> {
    let mut bytes = (text.len() as u64).to_le_bytes().to_vec();
    bytes.extend_from_slice(text.as_bytes());
    bytes
}

#[test]
fn decode_rejects_missing_magic() {
    let error = decode_comptime_value(b"GCT").unwrap_err();
    assert_eq!(error, "comptime runner wrote an invalid result artifact");
    let error = decode_comptime_value(b"XCT1\x00").unwrap_err();
    assert_eq!(error, "comptime runner wrote an invalid result artifact");
}

#[test]
fn decode_reads_scalars() {
    assert!(matches!(decode_comptime_value(&artifact(&[0])), Ok(ComptimeValue::Void)));
    assert!(matches!(decode_comptime_value(&artifact(&[1, 5])), Ok(ComptimeValue::Bool(true))));
    assert!(matches!(decode_comptime_value(&artifact(&[1, 0])), Ok(ComptimeValue::Bool(false))));
    assert!(matches!(
        decode_comptime_value(&artifact(&[4, 0x41, 0, 0, 0])),
        Ok(ComptimeValue::Char(65))
    ));
    let mut body = vec![3];
    body.extend(string_bytes("hi"));
    match decode_comptime_value(&artifact(&body)) {
        Ok(ComptimeValue::String(text)) => assert_eq!(text, "hi"),
        other => panic!("unexpected {:?}", other),
    }
    let mut body = vec![2];
    body.extend(string_bytes("Int"));
    body.extend(string_bytes("42"));
    match decode_comptime_value(&artifact(&body)) {
        Ok(ComptimeValue::Number(text)) => assert_eq!(text, "42"),
        other => panic!("unexpected {:?}", other),
    }
}

#[test]
fn decode_reads_struct_and_enum() {
    let mut body = vec![6];
    body.extend(string_bytes("Point"));
    body.extend(1u64.to_le_bytes());
    body.extend(string_bytes("x"));
    body.extend([1, 1]);
    match decode_comptime_value(&artifact(&body)) {
        Ok(ComptimeValue::Struct { name, fields }) => {
            assert_eq!(name, "Point");
            assert_eq!(fields.len(), 1);
            assert_eq!(fields[0].0, "x");
            assert!(matches!(fields[0].1, ComptimeValue::Bool(true)));
        }
        other => panic!("unexpected {:?}", other),
    }
    let mut body = vec![7];
    body.extend(string_bytes("Option"));
    body.extend(string_bytes("Some"));
    body.extend([1, 4, 0x61, 0, 0, 0]);
    match decode_comptime_value(&artifact(&body)) {
        Ok(ComptimeValue::Enum { name, variant, payload }) => {
            assert_eq!(name, "Option");
            assert_eq!(variant, "Some");
            assert!(matches!(payload.as_deref(), Some(ComptimeValue::Char(0x61))));
        }
        other => panic!("unexpected {:?}", other),
    }
}

#[test]
fn decode_reports_each_error() {
    assert_eq!(
        decode_comptime_value(&artifact(&[])).unwrap_err(),
        "truncated comptime result artifact"
    );
    assert_eq!(
        decode_comptime_value(&artifact(&[5])).unwrap_err(),
        "unknown comptime result tag 5"
    );
    let mut body = vec![3];
    body.extend(5u64.to_le_bytes());
    body.extend(b"ab");
    assert_eq!(
        decode_comptime_value(&artifact(&body)).unwrap_err(),
        "truncated comptime result string"
    );
    let mut body = vec![3];
    body.extend(1u64.to_le_bytes());
    body.push(0xff);
    assert_eq!(
        decode_comptime_value(&artifact(&body)).unwrap_err(),
        "comptime result string is not valid UTF-8"
    );
    let mut body = vec![255];
    body.extend(string_bytes("closure over a file"));
    match decode_comptime_value(&artifact(&body)) {
        Ok(ComptimeValue::Unsupported(text)) => assert_eq!(text, "closure over a file"),
        other => panic!("unexpected {:?}", other),
    }
}

#[test]
fn reader_reads_little_endian_numbers() {
    let bytes = [0x78, 0x56, 0x34, 0x12, 1, 0, 0, 0, 0, 0, 0, 0x80];
    let mut reader = ComptimeReader { bytes: &bytes, position: 0 };
    assert_eq!(reader.read_u32().unwrap(), 0x1234_5678);
    assert_eq!(reader.read_u64().unwrap(), 0x8000_0000_0000_0001);
    assert_eq!(reader.position, 12);
    assert_eq!(reader.read_byte().unwrap_err(), "truncated comptime result artifact");
}

#[test]
fn glob_double_star_matches_everything() {
    assert!(glob_matches(b"**", b""));
    assert!(glob_matches(b"**", b"a/b/c.gs"));
    assert!(glob_matches(b"src/**", b"src/a/b.gs"));
}

#[test]
fn glob_single_star_stops_at_slash() {
    assert!(glob_matches(b"*.gs", b"main.gs"));
    assert!(!glob_matches(b"*.gs", b"src/main.gs"));
    assert!(glob_matches(b"src/*/x", b"src/a/x"));
}

#[test]
fn glob_plain_pattern_matches_only_itself() {
    assert!(glob_matches(b"data/in.txt", b"data/in.txt"));
    assert!(!glob_matches(b"data/in.txt", b"data/in.txt2"));
    assert!(!glob_matches(b"data/in.txt", b"data/in.tx"));
    assert!(path_pattern_matches("config.json", "config.json"));
    assert!(!path_pattern_matches("config.json", "other.json"));
}

#[test]
fn permission_names_must_match_exactly() {
    assert!(permission_allows_name(&PermissionValue::All, "HOME"));
    assert!(!permission_allows_name(&PermissionValue::Nothing, "HOME"));
    let patterns = PermissionValue::Patterns(vec!["HOME".to_string(), "USER".to_string()]);
    assert!(permission_allows_name(&patterns, "USER"));
    assert!(!permission_allows_name(&patterns, "PATH"));
    assert!(!permission_allows_name(&patterns, "HOM*"));
}
