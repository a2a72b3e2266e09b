use rustle::params::{OSSL_PARAM, ParamData, ParamTable, Params, ParamsMut};

#[test]
fn descriptor_table_requires_final_terminator() {
    let missing_end = vec![OSSL_PARAM::defn(b"size", OSSL_PARAM::UNSIGNED_INTEGER)];
    let early_end = vec![OSSL_PARAM::end(), OSSL_PARAM::defn(b"size", OSSL_PARAM::UNSIGNED_INTEGER)];
    assert!(ParamTable::new(Vec::new()).is_none());
    assert!(ParamTable::new(missing_end).is_none());
    assert!(ParamTable::new(early_end).is_none());

    let empty = ParamTable::empty();
    assert_eq!(empty.entries().len(), 1);
    let params = Params::from_ptr(Some(empty.entries())).unwrap();
    let mut iter = params.iter();
    let mut count = 0;
    while iter.next().is_some() {
        count += 1;
    }
    assert_eq!(count, 0);
}

#[test]
fn descriptor_table_preserves_names_and_first_match() {
    let raw = vec![
        OSSL_PARAM::defn(b"size", OSSL_PARAM::UNSIGNED_INTEGER),
        OSSL_PARAM::defn(b"size", OSSL_PARAM::INTEGER),
        OSSL_PARAM::defn(b"size-extra", OSSL_PARAM::INTEGER),
        OSSL_PARAM::end(),
    ];
    let table = ParamTable::new(raw).unwrap();
    let keys: Vec<Option<&[u8]>> = table.entries().iter().map(|entry| entry.key()).collect();
    assert_eq!(keys, vec![Some(&b"size"[..]), Some(&b"size"[..]), Some(&b"size-extra"[..]), None]);
    let params = Params::from_ptr(Some(table.entries())).unwrap();
    let mut iter = params.iter();
    let mut count = 0;
    while iter.next().is_some() {
        count += 1;
    }
    assert_eq!(count, 3);
    assert!(!params.locate(b"size").unwrap().is_integer());
    assert!(params.locate(b"size-extra").unwrap().is_integer());
    assert!(params.locate(b"siz").is_none());
}

#[test]
fn writable_cell_preserves_first_match_and_metadata() {
    let mut raw = vec![
        OSSL_PARAM::cell(b"size", OSSL_PARAM::UNSIGNED_INTEGER, ParamData::SizeT(0)),
        OSSL_PARAM::cell(b"size", OSSL_PARAM::UNSIGNED_INTEGER, ParamData::SizeT(7)),
        OSSL_PARAM::end(),
    ];
    {
        let mut params = ParamsMut::from_ptr(Some(&mut raw)).unwrap();
        assert!(params.locate(b"missing").is_none());
        let mut cell = params.locate(b"size").unwrap();
        assert_eq!(cell.key(), Some(&b"size"[..]));
        assert!(!cell.set_int(42));
        assert!(cell.set_size_t(32));
    }
    assert_eq!(raw[0].get_size_t(), Some(32));
    assert_eq!(raw[1].get_size_t(), Some(7));
    assert_eq!(raw[0].return_size(), core::mem::size_of::<usize>());
    assert_eq!(raw[1].return_size(), 0);
    assert_eq!(raw[0].key(), Some(&b"size"[..]));
    assert!(raw[2].is_end());
}

#[test]
fn string_setter_respects_buffer_bounds() {
    let mut raw = vec![
        OSSL_PARAM::cell(b"text", OSSL_PARAM::UTF8_STRING, ParamData::Bytes(vec![0xa5; 4])),
        OSSL_PARAM::end(),
    ];
    {
        let mut params = ParamsMut::from_ptr(Some(&mut raw)).unwrap();
        let mut cell = params.locate(b"text").unwrap();
        assert!(cell.is_utf8_string());
        assert!(!cell.set_utf8_string("abcde"));
    }
    assert_eq!(raw[0].data(), &ParamData::Bytes(vec![0xa5; 4]));
    assert_eq!(raw[0].return_size(), 5);
    {
        let mut params = ParamsMut::from_ptr(Some(&mut raw)).unwrap();
        assert!(params.locate(b"text").unwrap().set_utf8_string("abc"));
    }
    assert_eq!(raw[0].data(), &ParamData::Bytes(vec![b'a', b'b', b'c', 0]));
    assert_eq!(raw[0].return_size(), 3);
}

#[test]
fn int_setter_round_trips_and_reports_width() {
    let mut cell = OSSL_PARAM::cell(b"value", OSSL_PARAM::INTEGER, ParamData::Int(0));
    {
        let mut raw = vec![cell, OSSL_PARAM::end()];
        let mut params = ParamsMut::from_ptr(Some(&mut raw)).unwrap();
        let mut writable = params.locate(b"value").unwrap();
        assert!(writable.set_int(-5));
        assert!(!writable.set_size_t(5));
        cell = raw.remove(0);
    }
    assert_eq!(cell.get_int(), Some(-5));
    assert_eq!(cell.get_size_t(), None);
    assert_eq!(cell.return_size(), 0);
}

#[test]
fn size_query_on_null_storage_reports_width_only() {
    let mut raw = vec![
        OSSL_PARAM::defn(b"size", OSSL_PARAM::UNSIGNED_INTEGER),
        OSSL_PARAM::defn(b"text", OSSL_PARAM::UTF8_STRING),
        OSSL_PARAM::end(),
    ];
    {
        let mut params = ParamsMut::from_ptr(Some(&mut raw)).unwrap();
        assert!(params.locate(b"size").unwrap().set_size_t(9));
        assert!(params.locate(b"text").unwrap().set_utf8_string("hello"));
    }
    assert_eq!(raw[0].get_size_t(), None);
    assert_eq!(raw[0].return_size(), core::mem::size_of::<usize>());
    assert_eq!(raw[1].return_size(), 5);
    assert_eq!(raw[1].data(), &ParamData::Null);
}

#[test]
fn utf8_getter_reads_back_exact_fit_text() {
    let mut raw = vec![
        OSSL_PARAM::cell(b"text", OSSL_PARAM::UTF8_STRING, ParamData::Bytes(vec![0xff; 4])),
        OSSL_PARAM::cell(b"full", OSSL_PARAM::UTF8_STRING, ParamData::Bytes(vec![0xff; 3])),
        OSSL_PARAM::end(),
    ];
    assert_eq!(raw[0].get_utf8_string(), None);
    {
        let mut params = ParamsMut::from_ptr(Some(&mut raw)).unwrap();
        assert!(params.locate(b"text").unwrap().set_utf8_string("abc"));
        assert!(params.locate(b"full").unwrap().set_utf8_string("xyz"));
    }
    assert_eq!(raw[0].get_utf8_string(), Some("abc"));
    // No room for the NUL: the text fills the buffer exactly.
    assert_eq!(raw[1].get_utf8_string(), Some("xyz"));
}

#[test]
fn octet_getter_and_kind_checks() {
    let cell = OSSL_PARAM::cell(b"salt", OSSL_PARAM::OCTET_STRING, ParamData::Bytes(vec![1, 2, 3]));
    assert!(cell.is_octet_string());
    assert!(!cell.is_integer());
    assert!(!cell.is_utf8_string());
    assert_eq!(cell.get_octet_string(), Some(&[1u8, 2, 3][..]));
    assert_eq!(cell.get_utf8_string(), None);
    assert_eq!(cell.get_int(), None);
    let empty = OSSL_PARAM::cell(b"salt", OSSL_PARAM::OCTET_STRING, ParamData::Bytes(Vec::new()));
    assert_eq!(empty.get_octet_string(), Some(&[][..]));
}

#[test]
fn utf8_pointer_setter_stores_address_and_length() {
    let mut raw = vec![
        OSSL_PARAM::cell(b"name", OSSL_PARAM::UTF8_PTR, ParamData::Pointer(None)),
        OSSL_PARAM::cell(b"size", OSSL_PARAM::UNSIGNED_INTEGER, ParamData::SizeT(0)),
        OSSL_PARAM::end(),
    ];
    {
        let mut params = ParamsMut::from_ptr(Some(&mut raw)).unwrap();
        assert!(params.locate(b"name").unwrap().set_utf8_ptr(b"bc_rust"));
        assert!(!params.locate(b"size").unwrap().set_utf8_ptr(b"bc_rust"));
    }
    assert_eq!(raw[0].data(), &ParamData::Pointer(Some(b"bc_rust".to_vec())));
    assert_eq!(raw[0].return_size(), 7);
    assert_eq!(raw[1].return_size(), 0);
    assert_eq!(raw[1].get_size_t(), Some(0));
}

#[test]
fn views_of_null_arrays_are_absent() {
    assert!(Params::from_ptr(None).is_none());
    assert!(ParamsMut::from_ptr(None).is_none());
    let raw = vec![
        OSSL_PARAM::defn(b"a", OSSL_PARAM::INTEGER),
        OSSL_PARAM::end(),
        OSSL_PARAM::defn(b"b", OSSL_PARAM::INTEGER),
    ];
    let params = Params::from_ptr(Some(&raw)).unwrap();
    // Entries after the first terminator are never consulted.
    assert!(params.locate(b"a").is_some());
    assert!(params.locate(b"b").is_none());
}

#[test]
fn cells_from_the_core_keep_their_reported_size() {
    let cell = OSSL_PARAM::from_core(b"size", OSSL_PARAM::UNSIGNED_INTEGER, ParamData::SizeT(3), usize::MAX).unwrap();
    assert_eq!(cell.return_size(), usize::MAX);
    assert_eq!(cell.get_size_t(), Some(3));
    assert!(OSSL_PARAM::from_core(b"size", OSSL_PARAM::INTEGER, ParamData::SizeT(3), 0).is_none());
    let width = core::mem::size_of::<usize>();
    assert!(OSSL_PARAM::from_core(b"size", OSSL_PARAM::UNSIGNED_INTEGER, ParamData::Bytes(vec![0; width]), 0).is_none());
    assert!(OSSL_PARAM::from_core(b"size", OSSL_PARAM::UNSIGNED_INTEGER, ParamData::Bytes(vec![0; 2]), 0).is_some());
    assert!(OSSL_PARAM::from_core(b"name", OSSL_PARAM::UTF8_PTR, ParamData::Bytes(vec![0; 2]), 0).is_none());
    assert!(OSSL_PARAM::from_core(b"name", OSSL_PARAM::UTF8_PTR, ParamData::Pointer(None), 0).is_some());
}
