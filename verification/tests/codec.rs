use swapbytes::codec::{parse_rooms_record, rooms_record_value};

#[test]
fn rooms_record_round_trip() {
    let rooms = vec!["Global".to_string(), "COSC401".to_string()];
    let bytes = rooms_record_value(&rooms).unwrap();
    assert_eq!(parse_rooms_record(&bytes), Some(rooms));
}

#[test]
fn rooms_record_value_is_cbor() {
    // A one-element list of the one-character string "a":
    // array(1), then text(1) "a".
    let bytes = rooms_record_value(&vec!["a".to_string()]).unwrap();
    assert_eq!(bytes, vec![0x81u8, 0x61, 0x61]);
}

#[test]
fn empty_catalog_round_trips() {
    let rooms: Vec<String> = Vec::new();
    let bytes = rooms_record_value(&rooms).unwrap();
    assert_eq!(parse_rooms_record(&bytes), Some(rooms));
}

#[test]
fn malformed_record_is_refused() {
    assert_eq!(parse_rooms_record(&vec![0xffu8, 0x00]), None);
}

#[test]
fn non_list_record_is_refused() {
    // text(1) "a" is valid CBOR but not a list of strings.
    assert_eq!(parse_rooms_record(&vec![0x61u8, 0x61]), None);
}
