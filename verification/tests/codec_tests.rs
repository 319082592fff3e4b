use scratchback::alphabet::EncodingTable;
use scratchback::codec::{EncodedSequence, Encoding};

#[test]
fn table_decode_encode_every_index() {
    for i in 0..98usize {
        let c = EncodingTable::decode(i).expect("index below 98 names a symbol");
        assert_eq!(EncodingTable::encode(c), Some(i));
    }
}

#[test]
fn table_known_entries() {
    assert_eq!(EncodingTable::decode(1), Some('0'));
    assert_eq!(EncodingTable::decode(11), Some('a'));
    assert_eq!(EncodingTable::decode(37), Some('A'));
    assert_eq!(EncodingTable::decode(95), Some(' '));
    assert_eq!(EncodingTable::decode(96), Some('\n'));
    assert_eq!(EncodingTable::decode(97), Some('\u{2022}'));
    assert_eq!(EncodingTable::encode('z'), Some(36));
    assert_eq!(EncodingTable::encode('~'), Some(94));
}

#[test]
fn table_rejects_outside() {
    assert_eq!(EncodingTable::decode(98), None);
    assert_eq!(EncodingTable::decode(usize::MAX), None);
    assert_eq!(EncodingTable::encode('\u{00e9}'), None);
    assert_eq!(EncodingTable::encode('\t'), None);
}

#[test]
fn encode_known_text() {
    let enc = Encoding::new();
    assert_eq!(enc.encode("hi").unwrap(), "1819");
    assert_eq!(enc.encode("0").unwrap(), "01");
    assert_eq!(enc.encode("").unwrap(), "");
    assert_eq!(enc.encode("\u{2022}").unwrap(), "97");
}

#[test]
fn encode_rejects_outside_alphabet() {
    let enc = Encoding::new();
    assert_eq!(enc.encode("h\u{00e9}llo"), None);
    assert_eq!(enc.encode("\t"), None);
}

#[test]
fn decode_known_wire() {
    let enc = Encoding::new();
    assert_eq!(enc.decode("1819").unwrap(), "hi");
    assert_eq!(enc.decode("").unwrap(), "");
}

#[test]
fn decode_rejects_malformed() {
    let enc = Encoding::new();
    assert_eq!(enc.decode("9"), None);
    assert_eq!(enc.decode("99"), None);
    assert_eq!(enc.decode("181"), None);
    assert_eq!(enc.decode("1x"), None);
    assert_eq!(enc.decode("98"), None);
}

#[test]
fn text_round_trip() {
    let enc = Encoding::new();
    let samples = [
        "Hello, World! 123",
        "line one\nline two",
        "a\u{2022}b",
        "0123456789abcxyzABCXYZ!\"#$%&'()*+,-./:;<=>?@[\\]^_`{|}~ \n",
    ];
    for s in samples {
        let wire = enc.encode(s).expect("alphabet text encodes");
        assert_eq!(wire.len() % 2, 0);
        assert_eq!(enc.decode(&wire).unwrap(), s);
    }
}

#[test]
fn items_round_trip() {
    let enc = Encoding::new();
    let items = ["ab", "c", "Hello World"];
    let wire = enc.encode_items(&items).unwrap();
    assert_eq!(enc.decode_items(&wire).unwrap(), vec!["ab", "c", "Hello World"]);
}

#[test]
fn items_empty_list() {
    let enc = Encoding::new();
    let items: [&str; 0] = [];
    let wire = enc.encode_items(&items).unwrap();
    assert_eq!(wire, "");
    assert_eq!(enc.decode_items("").unwrap(), Vec::<String>::new());
}

#[test]
fn items_inner_empty_kept_trailing_empty_absorbed() {
    let enc = Encoding::new();
    let wire = enc.encode_items(&["a", "", "b"]).unwrap();
    assert_eq!(enc.decode_items(&wire).unwrap(), vec!["a", "", "b"]);
    // a trailing empty item is absorbed by the join: the separator is not
    // escapable and nothing marks an empty tail
    let wire = enc.encode_items(&["a", ""]).unwrap();
    assert_eq!(enc.decode_items(&wire).unwrap(), vec!["a"]);
}

#[test]
fn items_separator_inside_item_splits() {
    // the separator is not escapable: an item holding it comes back as two
    let enc = Encoding::new();
    let wire = enc.encode_items(&["a\u{2022}b"]).unwrap();
    assert_eq!(enc.decode_items(&wire).unwrap(), vec!["a", "b"]);
}

#[test]
fn items_rejects_outside_alphabet() {
    let enc = Encoding::new();
    assert_eq!(enc.encode_items(&["ok", "h\u{00e9}"]), None);
}

#[test]
fn items_to_array_enforces_arity() {
    let enc = Encoding::new();
    let wire = enc.encode_items(&["a", "b"]).unwrap();
    let two = enc.decode_items_to_array(&wire, 2).unwrap();
    assert_eq!(two, vec!["a", "b"]);
    assert_eq!(enc.decode_items_to_array(&wire, 1), None);
    assert_eq!(enc.decode_items_to_array(&wire, 3), None);
    assert_eq!(enc.decode_items_to_array("9", 1), None);
}

#[test]
fn cloud_method_carries_its_fields() {
    let m = scratchback::CloudMethod::SetVar {
        name: "score".to_string(),
        user: "alice".to_string(),
        project_id: "123".to_string(),
        value: "0506".to_string(),
    };
    match m {
        scratchback::CloudMethod::SetVar { name, value, .. } => {
            assert_eq!(name, "score");
            assert_eq!(value, "0506");
        }
        scratchback::CloudMethod::Handshake { .. } => panic!("wrong variant"),
    }
}

#[test]
fn encoded_sequence_assembles_numerals() {
    let mut seq = EncodedSequence::new();
    seq.add(5);
    seq.add(97);
    seq.add(0);
    assert_eq!(seq.get(), "059700");
}
