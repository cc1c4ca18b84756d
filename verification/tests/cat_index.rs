use x4_trading::parsers::cat_dat::{is_extension_cat_name, parse_cat_index, CatDatReader, CatIndexError};

#[test]
fn reader_derives_dat_path_from_cat_path() {
    let r = CatDatReader::new("game/01.cat");
    assert_eq!(r.cat_path(), "game/01.cat");
    assert_eq!(r.dat_path(), "game/01.dat");
}

#[test]
fn reader_replaces_every_cat_occurrence() {
    let r = CatDatReader::new("x.cat/ext_01.cat");
    assert_eq!(r.dat_path(), "x.dat/ext_01.dat");
    let plain = CatDatReader::new("nothing");
    assert_eq!(plain.dat_path(), "nothing");
}

#[test]
fn index_lists_xml_files_with_offsets() {
    let text = "libraries/wares.xml 100 1700000000 abc\nassets/tex.dds 50 1700000000 def\nt/0001-l044.xml 20 1700000000 ghi\n";
    let entries = parse_cat_index(text).ok().unwrap();
    assert_eq!(entries.len(), 2);
    assert_eq!(entries[0].name, "libraries/wares.xml");
    assert_eq!(entries[0].offset, 0);
    assert_eq!(entries[0].size, 100);
    assert_eq!(entries[1].name, "t/0001-l044.xml");
    assert_eq!(entries[1].offset, 150);
    assert_eq!(entries[1].size, 20);
}

#[test]
fn index_keeps_spaces_in_names_and_skips_short_lines() {
    let text = "my dir/a b.xml 7 1 h\r\nshort line\n\nc.xml 3 1 h";
    let entries = parse_cat_index(text).ok().unwrap();
    assert_eq!(entries.len(), 2);
    assert_eq!(entries[0].name, "my dir/a b.xml");
    assert_eq!(entries[0].offset, 0);
    assert_eq!(entries[1].name, "c.xml");
    assert_eq!(entries[1].offset, 7);
    assert_eq!(entries[1].size, 3);
}

#[test]
fn index_of_empty_text_is_empty() {
    assert_eq!(parse_cat_index("").ok().unwrap().len(), 0);
}

#[test]
fn index_entries_do_not_overlap() {
    let text = "a.xml 10 0 h\nb.bin 5 0 h\nc.xml 0 0 h\nd.xml 8 0 h\n";
    let entries = parse_cat_index(text).ok().unwrap();
    assert_eq!(entries.len(), 3);
    for w in entries.windows(2) {
        assert!(w[0].offset + w[0].size <= w[1].offset);
    }
    assert_eq!(entries[2].offset, 15);
}

#[test]
fn index_rejects_bad_size() {
    match parse_cat_index("ok.xml 1 0 h\nbad file.xml x1 0 h\n") {
        Err(CatIndexError::BadSize(name)) => assert_eq!(name, "bad file.xml"),
        _ => panic!("expected a size error"),
    }
    match parse_cat_index("neg.xml -1 0 h\n") {
        Err(CatIndexError::BadSize(name)) => assert_eq!(name, "neg.xml"),
        _ => panic!("expected a size error"),
    }
}

#[test]
fn index_rejects_offset_overflow() {
    let text = format!("a.bin {} 0 h\nb.bin 1 0 h\n", u64::MAX);
    assert!(matches!(parse_cat_index(&text), Err(CatIndexError::OffsetOverflow)));
    let fits = format!("a.bin {} 0 h\nb.xml 0 0 h\n", u64::MAX);
    let entries = parse_cat_index(&fits).ok().unwrap();
    assert_eq!(entries.len(), 1);
    assert_eq!(entries[0].offset, u64::MAX);
}

#[test]
fn extension_cat_names() {
    assert!(is_extension_cat_name("ext_01.cat"));
    assert!(is_extension_cat_name("ext_whatever.cat"));
    assert!(!is_extension_cat_name("ext_01_sig.cat"));
    assert!(is_extension_cat_name("01.cat"));
    assert!(is_extension_cat_name("42.cat"));
    assert!(!is_extension_cat_name("1.cat"));
    assert!(!is_extension_cat_name("ab.cat"));
    assert!(!is_extension_cat_name("001.cat"));
    assert!(!is_extension_cat_name("01.dat"));
    assert!(!is_extension_cat_name("ext_01.dat"));
}
