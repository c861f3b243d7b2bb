use gustc::project::comptime::{decode_comptime_value, ComptimeValue};

fn le(n: u64) -> Vec<u8> {
    n.to_le_bytes().to_vec()
}

fn artifact(parts: &[&[u8]]) -> Vec<u8> {
    let mut bytes = b"GCT1".to_vec();
    for part in parts {
        bytes.extend_from_slice(part);
    }
    bytes
}

#[test]
fn numbers_structs_and_chars_are_read() {
    let number = artifact(&[&[2], &le(3), b"i32", &le(2), b"42"]);
    match decode_comptime_value(&number) {
        Ok(ComptimeValue::Number(text)) => assert_eq!(text, "42"),
        other => panic!("unexpected {:?}", other),
    }
    let structure = artifact(&[&[6], &le(1), b"P", &le(1), &le(1), b"x", &[1, 1]]);
    match decode_comptime_value(&structure) {
        Ok(ComptimeValue::Struct { name, fields }) => {
            assert_eq!(name, "P");
            assert_eq!(fields.len(), 1);
            assert_eq!(fields[0].0, "x");
            assert!(matches!(fields[0].1, ComptimeValue::Bool(true)));
        }
        other => panic!("unexpected {:?}", other),
    }
    let character = artifact(&[&[4, 0x41, 0, 0, 0]]);
    assert!(matches!(decode_comptime_value(&character), Ok(ComptimeValue::Char(65))));
}

#[test]
fn each_failure_has_its_message() {
    assert_eq!(decode_comptime_value(b"GCT0\x00").unwrap_err(), "comptime runner wrote an invalid result artifact");
    assert_eq!(decode_comptime_value(b"GCT1").unwrap_err(), "truncated comptime result artifact");
    assert_eq!(decode_comptime_value(b"GCT1\x08").unwrap_err(), "unknown comptime result tag 8");
    let short = artifact(&[&[3], &le(5), b"hi"]);
    assert_eq!(decode_comptime_value(&short).unwrap_err(), "truncated comptime result string");
    let bad = artifact(&[&[3], &le(1), &[0xff]]);
    assert_eq!(decode_comptime_value(&bad).unwrap_err(), "comptime result string is not valid UTF-8");
}
