use rs_hp4x::consts::DOEXT3;
use rs_hp4x::{get_extable, Blob, Error, Extable, HashTable, Library, Obj};

/// A library value with the given extra objects and nothing else.
fn library_with_extras(extras: Vec<Obj>) -> Library {
    Library {
        name: None,
        number: 0,
        message_table: Vec::new(),
        hash_table: HashTable::new(),
        xlib: Vec::new(),
        hidden_objects: Vec::new(),
        config_object: None,
        extra_objects: extras,
        crc: 0,
    }
}

/// A symbol blob holding one entry: "AB" at 0x3816b.
fn symbol_blob() -> Vec<u8> {
    let mut n: Vec<u8> = Vec::new();
    n.extend_from_slice(&[0x5, 0x0, 0x0, 0x0, 0x0]); // address table offset
    n.extend_from_slice(&[0x5, 0x0, 0x0, 0x0, 0x0]); // name table at 10
    n.extend_from_slice(&[0x0, 0x0, 0x0, 0x0, 0x0]); // fixed skipped field
    n.extend_from_slice(&[0x2, 0x0, 0x1, 0x4, 0x2, 0x4]); // name "AB"
    n.extend_from_slice(&[0xb, 0x6, 0x1, 0x8, 0x3]); // address 0x3816b
    n
}

#[test]
fn test_from_library_builds_both_directions() {
    let lib = library_with_extras(vec![
        Obj::ExtObj(DOEXT3, Blob(symbol_blob()), "DOEXT3".to_string()),
    ]);
    let table = Extable::from_library(lib).unwrap();
    assert_eq!(table.len(), 1);
    assert_eq!(table.addr_to_name(0x3816b).as_deref(), Some("AB"));
    assert_eq!(table.name_to_addr(&"AB".to_string()), Some(0x3816b));
    assert_eq!(table.addr_to_name(0x1234), None);
    assert_eq!(table.name_to_addr(&"ZZ".to_string()), None);
}

#[test]
fn test_from_library_without_blob() {
    let lib = library_with_extras(Vec::new());
    let err = Extable::from_library(lib).unwrap_err();
    assert!(matches!(err, Error::NoExtable));
}

#[test]
fn test_from_library_wrong_kind() {
    // The first extra object must be the library-data blob.
    let lib = library_with_extras(vec![
        Obj::ExtObj(0x02b1e, Blob(symbol_blob()), "DOGROB".to_string()),
    ]);
    let err = Extable::from_library(lib).unwrap_err();
    assert!(matches!(err, Error::NoExtable));
}

#[test]
fn test_from_library_null_in_name_ends_entries() {
    // An entry whose name bytes hold a null is rejected, which ends the
    // entry run: whatever was read before it stays.
    let mut n: Vec<u8> = Vec::new();
    n.extend_from_slice(&[0x5, 0x0, 0x0, 0x0, 0x0]);
    n.extend_from_slice(&[0x5, 0x0, 0x0, 0x0, 0x0]);
    n.extend_from_slice(&[0x0, 0x0, 0x0, 0x0, 0x0]);
    n.extend_from_slice(&[0x2, 0x0, 0x1, 0x4, 0x2, 0x4]); // "AB"
    n.extend_from_slice(&[0x1, 0x0, 0x0, 0x0, 0x0]); // address 1
    n.extend_from_slice(&[0x2, 0x0, 0x0, 0x0, 0x2, 0x4]); // "\0B": rejected
    n.extend_from_slice(&[0x2, 0x0, 0x0, 0x0, 0x0]); // address 2, never read
    let lib = library_with_extras(vec![Obj::ExtObj(DOEXT3, Blob(n), "DOEXT3".to_string())]);
    let table = Extable::from_library(lib).unwrap();
    assert_eq!(table.len(), 1);
    assert_eq!(table.addr_to_name(1).as_deref(), Some("AB"));
}

#[test]
fn test_insert_last_write_wins() {
    let mut table = Extable::new();
    table.insert("A".to_string(), 1);
    table.insert("A".to_string(), 2);
    table.insert("B".to_string(), 2);
    assert_eq!(table.name_to_addr(&"A".to_string()), Some(2));
    assert_eq!(table.addr_to_name(2).as_deref(), Some("B"));
}

#[test]
fn test_get_extable_on_non_library() {
    // A file that decodes to a plain object has no symbol table.
    let mut bytes: Vec<u8> = b"HPHP48\x00\x00".to_vec();
    // a real: tag and 16 nibbles of fields, packed low nibble first
    let nibs: Vec<u8> = vec![
        0x3, 0x3, 0x9, 0x2, 0x0, 0x0, 0x0, 0x0, 0x0, 0x0, 0x0, 0x1, 0x0, 0x0, 0x0, 0x0, 0x0,
        0x0, 0x0, 0x0, 0x0, 0x0,
    ];
    let mut i: usize = 0;
    while i < nibs.len() {
        let lo = nibs[i];
        let hi = if i + 1 < nibs.len() { nibs[i + 1] } else { 0 };
        bytes.push(lo | (hi << 4));
        i += 2;
    }
    let err = get_extable(&bytes).unwrap_err();
    assert!(matches!(err, Error::NoExtable));
}

#[test]
fn test_get_extable_end_to_end() {
    // A library with two link targets whose gap embeds the symbol blob:
    // decoding the whole file yields a symbol table of the expected size
    // with the known name mapped to the known address.
    let mut n: Vec<u8> = vec![0x0, 0x4, 0xb, 0x2, 0x0]; // DOLIB
    n.extend_from_slice(&[0xc, 0xa, 0x0, 0x0, 0x0]); // length 172 = 167 + 5
    // payload, 167 nibbles
    n.extend_from_slice(&[0x2, 0x0, 0xc, 0x4, 0x2, 0x4, 0x2, 0x0]); // name "LB" + echo
    n.extend_from_slice(&[0x5, 0x0, 0x0]); // library id 5
    n.extend_from_slice(&[0x0, 0x0, 0x0, 0x0, 0x0]); // hash table: absent
    n.extend_from_slice(&[0x0, 0x0, 0x0, 0x0, 0x0]); // message table: absent
    n.extend_from_slice(&[0xa, 0x0, 0x0, 0x0, 0x0]); // link table at payload 31
    n.extend_from_slice(&[0x0, 0x0, 0x0, 0x0, 0x0]); // config object: absent
    // link table: tag, size 15 (two addresses), offsets to 60 and 142
    n.extend_from_slice(&[0xe, 0x4, 0xa, 0x2, 0x0]);
    n.extend_from_slice(&[0xf, 0x0, 0x0, 0x0, 0x0]);
    n.extend_from_slice(&[0x3, 0x1, 0x0, 0x0, 0x0]);
    n.extend_from_slice(&[0x0, 0x6, 0x0, 0x0, 0x0]);
    // first target: header (kind 0x801, owner 5, command 1), then a real
    n.extend_from_slice(&[0x1, 0x0, 0x8, 0x5, 0x0, 0x0, 0x1, 0x0, 0x0]);
    n.extend_from_slice(&[0x3, 0x3, 0x9, 0x2, 0x0]); // DOREAL
    n.extend_from_slice(&[0x0, 0x0, 0x0, 0x0, 0x0, 0x0, 0x1, 0x0, 0x0, 0x0, 0x0, 0x0, 0x0, 0x0, 0x0, 0x0]);
    // the gap: a fixed 16-nibble skip, then the embedded symbol blob
    n.extend_from_slice(&[0x0; 16]);
    n.extend_from_slice(&[0xe, 0xe, 0xb, 0x2, 0x0]); // DOEXT3
    n.extend_from_slice(&[0xf, 0x1, 0x0, 0x0, 0x0]); // length 31 = 26 + 5
    n.extend_from_slice(&symbol_blob());
    // second target: header (kind 0x801, owner 5, command 2), then a real
    n.extend_from_slice(&[0x1, 0x0, 0x8, 0x5, 0x0, 0x0, 0x2, 0x0, 0x0]);
    n.extend_from_slice(&[0x3, 0x3, 0x9, 0x2, 0x0]); // DOREAL
    n.extend_from_slice(&[0x0, 0x0, 0x0, 0x0, 0x0, 0x0, 0x1, 0x0, 0x0, 0x0, 0x0, 0x0, 0x0, 0x0, 0x0, 0x0]);
    // CRC trailer
    n.extend_from_slice(&[0xf, 0xe, 0xe, 0xb]);
    let mut bytes: Vec<u8> = b"HPHP48\x00\x00".to_vec();
    let mut i: usize = 0;
    while i < n.len() {
        let lo = n[i];
        let hi = if i + 1 < n.len() { n[i + 1] } else { 0 };
        bytes.push(lo | (hi << 4));
        i += 2;
    }
    // the decoded library holds both visible commands and the extra object
    let obj = rs_hp4x::parse_hp4x(&bytes).unwrap();
    match &obj {
        Obj::Library(l) => {
            assert_eq!(l.xlib.len(), 2);
            assert_eq!(l.extra_objects.len(), 1);
        },
        other => panic!("expected a library, got {:?}", other),
    }
    // and the symbol table is recovered from the embedded blob
    let table = get_extable(&bytes).unwrap();
    assert_eq!(table.len(), 1);
    assert_eq!(table.addr_to_name(0x3816b).as_deref(), Some("AB"));
}

#[test]
fn test_prolog_labels() {
    assert_eq!(rs_hp4x::prolog_to_string(0x02933), "Real");
    assert_eq!(rs_hp4x::prolog_to_id(0x02933), "DOREAL");
    assert_eq!(rs_hp4x::prolog_to_string(0x02b40), "Library");
    assert_eq!(rs_hp4x::prolog_to_id(0x9999999), "Unknown prolog");
}

#[test]
fn test_next_integer_bcd() {
    // A length-value framed binary-coded-decimal payload.
    let arena: Vec<u8> = vec![0xb, 0x0, 0x0, 0x0, 0x0, 0x1, 0x2, 0x3, 0x4, 0x5, 0x6];
    let mut c = rs_hp4x::Cursor::over(&arena);
    let v = rs_hp4x::next_integer(&arena, &mut c).unwrap();
    assert_eq!(v, 123456);
}
