use starry::record::{check_info, decode_record, encode_record};

#[test]
fn encode_injects_file_name_field() {
    let r = encode_record("{\"name\":\"demo\"}", "libdemo.so");
    assert_eq!(r, "{\"__file_name\":\"libdemo.so\",\"name\":\"demo\"}");
}

#[test]
fn encode_empty_object() {
    let r = encode_record("{}", "a.so");
    assert_eq!(r, "{\"__file_name\":\"a.so\"}");
}

#[test]
fn round_trip_plain() {
    let enc = encode_record("{\"name\":\"demo\",\"version\":3}", "plugin.dll");
    let dec = decode_record(enc.as_str()).unwrap();
    assert_eq!(dec.0, "{\"name\":\"demo\",\"version\":3}");
    assert_eq!(dec.1, "plugin.dll");
}

#[test]
fn round_trip_escaped_file_name() {
    let name = "we\"ird\\path.so";
    let enc = encode_record("{\"a\":1}", name);
    let dec = decode_record(enc.as_str()).unwrap();
    assert_eq!(dec.0, "{\"a\":1}");
    assert_eq!(dec.1, name);
}

#[test]
fn round_trip_empty_info() {
    let enc = encode_record("{}", "x");
    let dec = decode_record(enc.as_str()).unwrap();
    assert_eq!(dec.0, "{}");
    assert_eq!(dec.1, "x");
}

#[test]
fn decode_rejects_non_records() {
    assert!(decode_record("").is_none());
    assert!(decode_record("{}").is_none());
    assert!(decode_record("{\"name\":\"demo\"}").is_none());
    assert!(decode_record("{\"__file_name\":\"unterminated").is_none());
    assert!(decode_record("{\"__file_name\":\"a\"junk}").is_none());
    assert!(decode_record("{\"__file_name\":\"a\",no-close").is_none());
}

#[test]
fn check_info_accepts_objects_only() {
    assert!(check_info("{\"name\":\"demo\"}"));
    assert!(check_info("{}"));
    assert!(!check_info(""));
    assert!(!check_info("42"));
    assert!(!check_info("[1,2]"));
    assert!(!check_info("{\"name\":}"));
    assert!(!check_info(" {\"name\":\"demo\"} "));
}
