use rs_hp4x::{parse_hp4x, Decompiled, Error, Extable, Obj};

/// Pack a nibble stream (low nibble first) behind a file header, padding an
/// odd trailing nibble with zero.
fn make_file(nibbles: &[u8]) -> Vec<u8> {
    let mut bytes: Vec<u8> = b"HPHP48\x00\x00".to_vec();
    let mut i: usize = 0;
    while i < nibbles.len() {
        let lo = nibbles[i];
        let hi = if i + 1 < nibbles.len() { nibbles[i + 1] } else { 0 };
        bytes.push(lo | (hi << 4));
        i += 2;
    }
    bytes
}

/// The 21 nibbles of a real object with the given fields.
fn real_nibbles(exponent: u16, mantissa: u64, sign: u8) -> Vec<u8> {
    let mut n: Vec<u8> = vec![0x3, 0x3, 0x9, 0x2, 0x0]; // DOREAL
    let mut e = exponent;
    for _ in 0..3 {
        n.push((e & 0xf) as u8);
        e >>= 4;
    }
    let mut m = mantissa;
    for _ in 0..12 {
        n.push((m & 0xf) as u8);
        m >>= 4;
    }
    n.push(sign & 0xf);
    n
}

#[test]
fn test_parse_real() {
    let file = make_file(&real_nibbles(0, 0x1000, 0));
    let obj = parse_hp4x(&file).unwrap();
    match obj {
        Obj::Real(r) => {
            assert_eq!(r.exponent, 0);
            assert_eq!(r.mantissa, 0x1000);
            assert_eq!(r.sign, 0);
        },
        other => panic!("expected a real, got {:?}", other),
    }
}

#[test]
fn test_parse_bad_header() {
    let err = parse_hp4x(b"XXXX48\x00\x00\x00").unwrap_err();
    assert!(matches!(err, Error::BadHeader));
    let err = parse_hp4x(b"HPHP").unwrap_err();
    assert!(matches!(err, Error::BadHeader));
}

#[test]
fn test_parse_truncated() {
    // A real tag with no payload behind it.
    let file = make_file(&[0x3, 0x3, 0x9, 0x2, 0x0]);
    let err = parse_hp4x(&file).unwrap_err();
    assert!(matches!(err, Error::OutOfData));
}

#[test]
fn test_parse_illegal_prolog() {
    // A tag below the reserved threshold that no rule matches.
    let file = make_file(&[0x3, 0x2, 0x1, 0x0, 0x0, 0x0]);
    let err = parse_hp4x(&file).unwrap_err();
    assert!(matches!(err, Error::IllegalProlog(0x123)));
}

#[test]
fn test_parse_external_reference_fallback() {
    // An unmatched tag at or above the threshold is an unresolved external
    // reference, not an error.
    let file = make_file(&[0x5, 0x4, 0x3, 0x2, 0x1]);
    let obj = parse_hp4x(&file).unwrap();
    match obj {
        Obj::Ext(code) => assert_eq!(code, 0x12345),
        other => panic!("expected an external reference, got {:?}", other),
    }
    let extable = Extable::new();
    assert_eq!(obj.decompile(&extable), "Ext12345");
}

#[test]
fn test_parse_cstr() {
    // DOCSTR, length includes the 5-nibble length field; payload "Hi".
    let mut n: Vec<u8> = vec![0xc, 0x2, 0xa, 0x2, 0x0];
    n.extend_from_slice(&[0x9, 0x0, 0x0, 0x0, 0x0]);
    n.extend_from_slice(&[0x8, 0x4, 0x9, 0x6]);
    let file = make_file(&n);
    let obj = parse_hp4x(&file).unwrap();
    let extable = Extable::new();
    assert_eq!(obj.decompile(&extable), "Hi");
}

#[test]
fn test_parse_program() {
    // A program holding one real, closed by exactly one terminator.
    let mut n: Vec<u8> = vec![0xd, 0x9, 0xd, 0x2, 0x0]; // DOCOL
    n.extend_from_slice(&real_nibbles(0, 0x1000, 0));
    n.extend_from_slice(&[0xb, 0x2, 0x1, 0x3, 0x0]); // SEMI
    let file = make_file(&n);
    let obj = parse_hp4x(&file).unwrap();
    match &obj {
        Obj::Prg(items) => assert_eq!(items.len(), 1),
        other => panic!("expected a program, got {:?}", other),
    }
    let extable = Extable::new();
    assert_eq!(obj.decompile(&extable), "// Program:\n1\n");
}

#[test]
fn test_parse_program_missing_terminator() {
    let mut n: Vec<u8> = vec![0xd, 0x9, 0xd, 0x2, 0x0]; // DOCOL
    n.extend_from_slice(&real_nibbles(0, 0x1000, 0));
    let file = make_file(&n);
    let err = parse_hp4x(&file).unwrap_err();
    assert!(matches!(err, Error::OutOfData));
}

/// Build a two-entry directory: header, then "AB" and "CD", each holding a
/// real, a back-link between them, the bound pointing at the second entry.
fn dir_nibbles(echo_ok: bool) -> Vec<u8> {
    let mut n: Vec<u8> = vec![0x6, 0x9, 0xa, 0x2, 0x0]; // DORRP
    n.extend_from_slice(&[0x0, 0x0, 0x0]); // attached libraries
    n.extend_from_slice(&[0xc, 0x2, 0x0, 0x0, 0x0]); // offset 44: bound = 13 + 34
    n.extend_from_slice(&[0x0, 0x0, 0x0, 0x0, 0x0]); // padding
    // entry one: "AB"
    n.extend_from_slice(&[0x2, 0x0, 0x1, 0x4, 0x2, 0x4]);
    if echo_ok {
        n.extend_from_slice(&[0x2, 0x0]);
    } else {
        n.extend_from_slice(&[0x3, 0x0]);
    }
    n.extend_from_slice(&real_nibbles(0, 0x1000, 0));
    // back-link
    n.extend_from_slice(&[0x0, 0x0, 0x0, 0x0, 0x0]);
    // entry two: "CD"
    n.extend_from_slice(&[0x2, 0x0, 0x3, 0x4, 0x4, 0x4]);
    n.extend_from_slice(&[0x2, 0x0]);
    n.extend_from_slice(&real_nibbles(0, 0x1000, 0));
    n
}

#[test]
fn test_parse_directory_two_entries() {
    // The decode stops exactly when the cursor reaches the backward bound:
    // the entry count equals the number of physically present pairs.
    let file = make_file(&dir_nibbles(true));
    let obj = parse_hp4x(&file).unwrap();
    match obj {
        Obj::Dir(d) => {
            assert_eq!(d.entities.len(), 2);
            assert_eq!(d.entities[0].name, "AB");
            assert_eq!(d.entities[1].name, "CD");
            assert!(matches!(d.entities[0].obj, Obj::Real(_)));
            assert!(matches!(d.entities[1].obj, Obj::Real(_)));
        },
        other => panic!("expected a directory, got {:?}", other),
    }
}

#[test]
fn test_parse_directory_echo_mismatch() {
    // A disagreeing redundant length echo is a structural failure.
    let file = make_file(&dir_nibbles(false));
    let err = parse_hp4x(&file).unwrap_err();
    assert!(matches!(err, Error::Mismatch));
}

/// Build a one-command library: name "LB", id 5, a link table with one
/// target whose backward header carries the given owning id.
fn library_nibbles(owner: u16) -> Vec<u8> {
    let mut n: Vec<u8> = vec![0x0, 0x4, 0xb, 0x2, 0x0]; // DOLIB
    n.extend_from_slice(&[0x5, 0x5, 0x0, 0x0, 0x0]); // length 85 = 80 + 5
    // payload, 80 nibbles
    n.extend_from_slice(&[0x2, 0x0, 0xc, 0x4, 0x2, 0x4, 0x2, 0x0]); // name "LB" + echo
    n.extend_from_slice(&[0x5, 0x0, 0x0]); // library id 5
    n.extend_from_slice(&[0x0, 0x0, 0x0, 0x0, 0x0]); // hash table: absent
    n.extend_from_slice(&[0x0, 0x0, 0x0, 0x0, 0x0]); // message table: absent
    n.extend_from_slice(&[0xa, 0x0, 0x0, 0x0, 0x0]); // link table at payload 31
    n.extend_from_slice(&[0x0, 0x0, 0x0, 0x0, 0x0]); // config object: absent
    // link table: binary-integer tag, size 10 (one address), one offset
    n.extend_from_slice(&[0xe, 0x4, 0xa, 0x2, 0x0]);
    n.extend_from_slice(&[0xa, 0x0, 0x0, 0x0, 0x0]);
    n.extend_from_slice(&[0xe, 0x0, 0x0, 0x0, 0x0]); // target at payload 55
    // backward header of the target: kind 0x801, owner, command 0x042
    n.extend_from_slice(&[0x1, 0x0, 0x8]);
    n.push((owner & 0xf) as u8);
    n.push(((owner >> 4) & 0xf) as u8);
    n.push(((owner >> 8) & 0xf) as u8);
    n.extend_from_slice(&[0x2, 0x4, 0x0]);
    // the object itself
    n.extend_from_slice(&real_nibbles(0, 0x1000, 0));
    // CRC trailer
    n.extend_from_slice(&[0xf, 0xe, 0xe, 0xb]);
    n
}

#[test]
fn test_parse_library_visible_command() {
    let file = make_file(&library_nibbles(5));
    let obj = parse_hp4x(&file).unwrap();
    match obj {
        Obj::Library(l) => {
            assert_eq!(l.name.as_deref(), Some("LB"));
            assert_eq!(l.number, 5);
            assert_eq!(l.xlib.len(), 1);
            assert_eq!(l.xlib[0].kind, 0x801);
            assert_eq!(l.xlib[0].library_number, 5);
            assert_eq!(l.xlib[0].command_number, 0x42);
            assert!(matches!(*l.xlib[0].object, Obj::Real(_)));
            assert_eq!(l.hidden_objects.len(), 0);
            assert_eq!(l.extra_objects.len(), 0);
            assert!(l.config_object.is_none());
            assert_eq!(l.hash_table.pairs.len(), 0);
            assert_eq!(l.message_table.len(), 0);
            assert_eq!(l.crc, 0xbeef);
        },
        other => panic!("expected a library, got {:?}", other),
    }
}

#[test]
fn test_parse_list_decompiles_structurally() {
    let mut n: Vec<u8> = vec![0x4, 0x7, 0xa, 0x2, 0x0]; // DOLIST
    n.extend_from_slice(&real_nibbles(0, 0x1000, 0));
    n.extend_from_slice(&real_nibbles(0, 0x1800, 0));
    n.extend_from_slice(&[0xb, 0x2, 0x1, 0x3, 0x0]); // SEMI
    let file = make_file(&n);
    let obj = parse_hp4x(&file).unwrap();
    match &obj {
        Obj::List(items) => assert_eq!(items.len(), 2),
        other => panic!("expected a list, got {:?}", other),
    }
    let extable = Extable::new();
    assert_eq!(obj.decompile(&extable), "List(2 items)");
}

/// Build a library whose message table is an array of two objects with the
/// given element type tag (the string tag makes them the messages "A" and
/// "B"; any other kind is a structural failure).
fn library_with_messages(element_tag: u32) -> Vec<u8> {
    let elem_size: usize = if element_tag == 0x02a2c { 7 } else { 16 };
    let payload_len = 31 + 25 + 2 * elem_size + 4;
    let mut n: Vec<u8> = vec![0x0, 0x4, 0xb, 0x2, 0x0]; // DOLIB
    let mut lv = payload_len + 5;
    for _ in 0..5 {
        n.push((lv & 0xf) as u8);
        lv >>= 4;
    }
    n.extend_from_slice(&[0x2, 0x0, 0xc, 0x4, 0x2, 0x4, 0x2, 0x0]); // name "LB" + echo
    n.extend_from_slice(&[0x5, 0x0, 0x0]); // library id 5
    n.extend_from_slice(&[0x0, 0x0, 0x0, 0x0, 0x0]); // hash table: absent
    n.extend_from_slice(&[0xf, 0x0, 0x0, 0x0, 0x0]); // message table at payload 31
    n.extend_from_slice(&[0x0, 0x0, 0x0, 0x0, 0x0]); // link table: absent
    n.extend_from_slice(&[0x0, 0x0, 0x0, 0x0, 0x0]); // config object: absent
    // the message array: verified tag, size (unused), element type tag,
    // one dimension of two elements
    n.extend_from_slice(&[0x8, 0xe, 0x9, 0x2, 0x0]); // DOARRY
    n.extend_from_slice(&[0x0, 0x0, 0x0, 0x0, 0x0]);
    let mut t = element_tag;
    for _ in 0..5 {
        n.push((t & 0xf) as u8);
        t >>= 4;
    }
    n.extend_from_slice(&[0x1, 0x0, 0x0, 0x0, 0x0]);
    n.extend_from_slice(&[0x2, 0x0, 0x0, 0x0, 0x0]);
    if element_tag == 0x02a2c {
        n.extend_from_slice(&[0x7, 0x0, 0x0, 0x0, 0x0, 0x1, 0x4]); // "A"
        n.extend_from_slice(&[0x7, 0x0, 0x0, 0x0, 0x0, 0x2, 0x4]); // "B"
    } else {
        // elements share the pre-known tag, so only their field nibbles appear
        n.extend_from_slice(&real_nibbles(0, 0x1000, 0)[5..]);
        n.extend_from_slice(&real_nibbles(0, 0x1000, 0)[5..]);
    }
    n.extend_from_slice(&[0xf, 0xe, 0xe, 0xb]); // CRC trailer
    n
}

#[test]
fn test_parse_library_message_table() {
    let file = make_file(&library_with_messages(0x02a2c));
    let obj = parse_hp4x(&file).unwrap();
    match obj {
        Obj::Library(l) => {
            assert_eq!(l.message_table, vec!["A".to_string(), "B".to_string()]);
        },
        other => panic!("expected a library, got {:?}", other),
    }
}

#[test]
fn test_parse_library_message_table_wrong_element_kind() {
    // Any message-table element that is not a character string is a
    // structural failure.
    let file = make_file(&library_with_messages(0x02933));
    let err = parse_hp4x(&file).unwrap_err();
    assert!(matches!(err, Error::Mismatch));
}

#[test]
fn test_parse_library_hash_table() {
    // A library whose hash table holds one populated bucket (name length
    // two) with two command pairs; the reverse-table position bounds it.
    let mut n: Vec<u8> = vec![0x0, 0x4, 0xb, 0x2, 0x0]; // DOLIB
    n.extend_from_slice(&[0xe, 0x9, 0x0, 0x0, 0x0]); // length 158 = 153 + 5
    // payload, 153 nibbles
    n.extend_from_slice(&[0x2, 0x0, 0xc, 0x4, 0x2, 0x4, 0x2, 0x0]); // name "LB" + echo
    n.extend_from_slice(&[0x5, 0x0, 0x0]); // library id 5
    n.extend_from_slice(&[0x4, 0x1, 0x0, 0x0, 0x0]); // hash table at payload 31
    n.extend_from_slice(&[0x0, 0x0, 0x0, 0x0, 0x0]); // message table: absent
    n.extend_from_slice(&[0x0, 0x0, 0x0, 0x0, 0x0]); // link table: absent
    n.extend_from_slice(&[0x0, 0x0, 0x0, 0x0, 0x0]); // config object: absent
    // hash table: tag, window length 108
    n.extend_from_slice(&[0xe, 0x4, 0xa, 0x2, 0x0]);
    n.extend_from_slice(&[0xc, 0x6, 0x0, 0x0, 0x0]);
    // 16 bucket offsets: only the second (name length 2) is present
    n.extend_from_slice(&[0x0, 0x0, 0x0, 0x0, 0x0]);
    n.extend_from_slice(&[0x0, 0x5, 0x0, 0x0, 0x0]); // to the bucket data
    for _ in 0..14 {
        n.extend_from_slice(&[0x0, 0x0, 0x0, 0x0, 0x0]);
    }
    n.extend_from_slice(&[0x7, 0x1, 0x0, 0x0, 0x0]); // reverse table bound
    // the bucket: ("AB", 10) and ("CD", 11)
    n.extend_from_slice(&[0x2, 0x0, 0x1, 0x4, 0x2, 0x4, 0xa, 0x0, 0x0]);
    n.extend_from_slice(&[0x2, 0x0, 0x3, 0x4, 0x4, 0x4, 0xb, 0x0, 0x0]);
    // the reverse table itself, unused by this decoder
    n.extend_from_slice(&[0x0, 0x0, 0x0, 0x0, 0x0]);
    // CRC trailer
    n.extend_from_slice(&[0xf, 0xe, 0xe, 0xb]);
    let file = make_file(&n);
    let obj = parse_hp4x(&file).unwrap();
    match obj {
        Obj::Library(l) => {
            assert_eq!(l.hash_table.pairs.len(), 2);
            assert_eq!(l.hash_table.pairs[0].0, "AB");
            assert_eq!(l.hash_table.pairs[0].1, 10);
            assert_eq!(l.hash_table.pairs[1].0, "CD");
            assert_eq!(l.hash_table.pairs[1].1, 11);
            assert_eq!(l.hash_table.name_to_cmd(&"CD".to_string()), Some(11));
            assert_eq!(l.hash_table.cmd_to_name(10).as_deref(), Some("AB"));
            assert_eq!(l.hash_table.name_to_cmd(&"ZZ".to_string()), None);
        },
        other => panic!("expected a library, got {:?}", other),
    }
}

#[test]
fn test_parse_library_hidden_object() {
    // A stored owner id that differs from the library's own id makes the
    // target a hidden object, not a visible command.
    let file = make_file(&library_nibbles(6));
    let obj = parse_hp4x(&file).unwrap();
    match obj {
        Obj::Library(l) => {
            assert_eq!(l.xlib.len(), 0);
            assert_eq!(l.hidden_objects.len(), 1);
            assert!(matches!(l.hidden_objects[0], Obj::Real(_)));
        },
        other => panic!("expected a library, got {:?}", other),
    }
}
