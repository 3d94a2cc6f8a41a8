use h2wire::error::H2Error;
use h2wire::header::hpack::decoder::Decoder;
use h2wire::header::hpack::table::dyn_table::DynTable;
use h2wire::header::hpack::table::static_table::{StaticTable, TableEntry, STATIC_TABLE};
use h2wire::header::hpack::table::Table;
use h2wire::header::list::{HeaderEntry, HeaderList};
use h2wire::krserr::{ErrLink, ErrorChain, Kresult};
use h2wire::request::Request;

fn s(text: &str) -> Vec<u8> {
    text.as_bytes().to_vec()
}

#[test]
fn decoder_tmp_decoder_test() {
    let mut decoder = Decoder::new(100, 10);

    let list = decoder
        .get_header_list(&[0x82, 0x84, 0x48, 0x03, 0x35, 0x30, 0x30, 0x0F, 0x00, 0x01, 0x31])
        .unwrap();

    for e in list.iter() {
        println!("{:?}", e);
    }

    assert_eq!(list.get_value_by_name(":method"), Some("GET".as_bytes()));
    assert_eq!(list.get_value_by_name(":path"), Some("/".as_bytes()));
    assert_eq!(list.get_value_by_name(":status"), Some("500".as_bytes()));
    assert_eq!(list.get_value_by_name("accept-charset"), Some("1".as_bytes()));

    // the fields come in the order of their representations
    let names: Vec<&[u8]> = list.iter().iter().map(|e| e.name()).collect();
    assert_eq!(
        names,
        vec![&b":method"[..], &b":path"[..], &b":status"[..], &b"accept-charset"[..]]
    );
    let values: Vec<&[u8]> = list.iter().iter().map(|e| e.value()).collect();
    assert_eq!(values, vec![&b"GET"[..], &b"/"[..], &b"500"[..], &b"1"[..]]);
    // only the literal with incremental indexing went into the table
    assert_eq!(decoder.table().num_dyn_entries(), 1);
    assert_eq!(decoder.table().get_header_entry(62).unwrap(), (":status", "500").into());
}

#[test]
fn tmp_decoder_test() {
    let mut decoder = Decoder::new(100, 10);

    let list = decoder
        .get_header_list(&[0x82, 0x84, 0x48, 0x03, 0x35, 0x30, 0x30, 0x0F, 0x00, 0x01, 0x31])
        .unwrap();

    for e in list.iter() {
        println!("{:?}", e);
    }

    assert_eq!(list.get_value_by_name(":method"), Some("GET".as_bytes()));
    assert_eq!(list.get_value_by_name(":path"), Some("/".as_bytes()));
    assert_eq!(list.get_value_by_name(":status"), Some("500".as_bytes()));
    assert_eq!(list.get_value_by_name("accept-charset"), Some("1".as_bytes()));
}

#[test]
fn comp_decoder_test() {
    let mut decoder = Decoder::new(4096, 10);

    let list = decoder.get_header_list(&[
        0x82, 0x41, 0x8A, 0xA0, 0xE4, 0x1D, 0x13, 0x9D, 0x09, 0xB8, 0xF0, 0x1E, 0x07, 0x87, 0x84, 0x40, 0x92, 0xB6, 0xB9, 0xAC, 0x1C, 0x85, 0x58, 0xD5, 0x20, 0xA4, 0xB6, 0xC2, 0xAD, 0x61, 0x7B, 0x5A, 0x54, 0x25, 0x1F, 0x01, 0x31, 0x7A, 0xD1, 0xD0, 0x7F, 0x66, 0xA2, 0x81, 0xB0, 0xDA, 0xE0, 0x53, 0xFA, 0xFC, 0x08, 0x7E, 0xD4, 0xCE, 0x6A, 0xAD, 0xF2, 0xA7, 0x97, 0x9C, 0x89, 0xC6, 0xBF, 0xB5, 0x21, 0xAE, 0xBA, 0x0B, 0xC8, 0xB1, 0xE6, 0x32, 0x58, 0x6D, 0x97, 0x57, 0x65, 0xC5, 0x3F, 0xAC, 0xD8, 0xF7, 0xE8, 0xCF, 0xF4, 0xA5, 0x06, 0xEA, 0x55, 0x31, 0x14, 0x9D, 0x4F, 0xFD, 0xA9, 0x7A, 0x7B, 0x0F, 0x49, 0x58, 0x6D, 0xF5, 0xC0, 0xBB, 0x20, 0x74, 0x2B, 0x84, 0x0D, 0x29, 0xB8, 0x72, 0x8E, 0xC3, 0x30, 0xDB, 0x2E, 0xAE, 0xCB, 0x9F, 0x53, 0xC0, 0x49, 0x7C, 0xA5, 0x89, 0xD3, 0x4D, 0x1F, 0x43, 0xAE, 0xBA, 0x0C, 0x41, 0xA4, 0xC7, 0xA9, 0x8F, 0x33, 0xA6, 0x9A, 0x3F, 0xDF, 0x9A, 0x68, 0xFA, 0x1D, 0x75, 0xD0, 0x62, 0x0D, 0x26, 0x3D, 0x4C, 0x79, 0xA6, 0x8F, 0xBE, 0xD0, 0x01, 0x77, 0xFE, 0x8D, 0x48, 0xE6, 0x2B, 0x1E, 0x0B, 0x1D, 0x7F, 0x46, 0xA4, 0x73, 0x15, 0x81, 0xD7, 0x54, 0xDF, 0x5F, 0x2C, 0x7C, 0xFD, 0xF6, 0x80, 0x0B, 0xBD, 0x50, 0x8D, 0x9B, 0xD9, 0xAB, 0xFA, 0x52, 0x42, 0xCB, 0x40, 0xD2, 0x5F, 0xA5, 0x23, 0xB3, 0x51, 0x8B, 0x2D, 0x4B, 0x70, 0xDD, 0xF4, 0x5A, 0xBE, 0xFB, 0x40, 0x05, 0xDE
    ]).unwrap();

    for e in list.iter() {
        println!("{:?}", e);
    }

    assert_eq!(list.get_value_by_name(":method"), Some("GET".as_bytes()));
    assert_eq!(list.get_value_by_name(":authority"), Some("localhost:8080".as_bytes()));
    assert_eq!(list.get_value_by_name(":scheme"), Some("https".as_bytes()));
    assert_eq!(list.get_value_by_name(":path"), Some("/".as_bytes()));
    assert_eq!(list.get_value_by_name("upgrade-insecure-requests"), Some("1".as_bytes()));
    assert_eq!(list.get_value_by_name("user-agent"), Some("Mozilla/5.0 (X11; Linux x86_64) AppleWebKit/537.36 (KHTML, like Gecko) Chrome/59.0.3071.104 Safari/537.36".as_bytes()));
    assert_eq!(list.get_value_by_name("accept"), Some("text/html,application/xhtml+xml,application/xml;q=0.9,image/webp,image/apng,*/*;q=0.8".as_bytes()));
    assert_eq!(list.get_value_by_name("accept-encoding"), Some("gzip, deflate, br".as_bytes()));
    assert_eq!(list.get_value_by_name("accept-language"), Some("en-US,en;q=0.8".as_bytes()));
}

#[test]
fn mod_test_add() {
    let mut table = Table::new(100, 10);

    table.add_entry_literal(s("name1"), s("value1"));
    table.add_entry_id(1, s("value2")).unwrap();

    assert_eq!(table.num_dyn_entries(), 2);
    assert_eq!(table.get_header_entry(62).unwrap(), (":authority", "value2").into());
    assert_eq!(table.get_header_entry(63).unwrap(), ("name1", "value1").into());
}

#[test]
#[should_panic]
fn mod_test_evictions() {
    let mut table = Table::new(37, 10); // test add

    table.add_entry_literal(s("nm"), s("val"));
    assert_eq!(table.get_header_entry(62).unwrap(), ("nm", "val").into());

    table.add_entry_id(62, s("ttt")).unwrap(); // will evict the first entry
    assert_eq!(table.num_dyn_entries(), 1);
    assert_eq!(table.get_header_entry(62).unwrap(), ("nm", "ttt").into());

    table.add_entry_id(62, s("XXXX")).unwrap(); // will evict and not be enough room to add
    assert_eq!(table.num_dyn_entries(), 0);
    let _entry = table.get_header_entry(62).unwrap(); // panic here
}

#[test]
#[should_panic]
fn mod_test_max_size_set() {
    let mut table = Table::new(200, 10);

    table.add_entry_literal(s("n"), s("v"));
    table.add_entry_id(62, s("z")).unwrap();

    assert_eq!(table.get_header_entry(62).unwrap(), ("n", "z").into());
    assert_eq!(table.get_header_entry(63).unwrap(), ("n", "v").into());

    table.max_size_update(10).unwrap(); // should evict
    assert_eq!(table.num_dyn_entries(), 0);
    let _entry = table.get_header_entry(62).unwrap(); // panic here
}

#[test]
fn static_table_valid_static_table() {
    assert_eq!(STATIC_TABLE.len(), 61);
}

#[test]
fn valid_static_table() {
    assert_eq!(STATIC_TABLE.len(), 61);
}

#[test]
fn dyn_table_test_add() {
    let mut table = DynTable::new(100, 10);

    table.add_entry_literal(s("name1"), s("value1"));
    table.add_entry_id(0, s("value2")).unwrap();

    assert_eq!(table.get_header_entry(0).unwrap(), ("name1", "value2").into());
}

#[test]
#[should_panic]
fn dyn_table_test_evictions() {
    let mut table = DynTable::new(37, 10); // test add

    table.add_entry_literal(s("nm"), s("val"));
    assert_eq!(table.get_header_entry(0).unwrap(), ("nm", "val").into());

    table.add_entry_id(0, s("ttt")).unwrap(); // will evict the first entry
    assert_eq!(table.get_header_entry(0).unwrap(), ("nm", "ttt").into());

    table.add_entry_id(0, s("XXXX")).unwrap(); // will evict and not be enough room to add
    let _entry = table.get_header_entry(0).unwrap(); // panic here
}

#[test]
#[should_panic]
fn dyn_table_test_max_size_set() {
    let mut table = DynTable::new(200, 10);
    table.add_entry_literal(s("n"), s("v"));
    table.add_entry_id(0, s("z")).unwrap();

    assert_eq!(table.get_header_entry(0).unwrap(), ("n", "z").into());
    assert_eq!(table.get_header_entry(1).unwrap(), ("n", "v").into());

    table.max_size_update(10); // should evict

    let _entry = table.get_header_entry(0).unwrap(); // panic here
}

#[test]
fn request_create() {
    let req = Request::new();
    assert_eq!("test", req.headers[0]);
}

#[test]
fn static_table_rows() {
    let t = StaticTable::new();
    assert_eq!(t.len(), 61);
    assert_eq!(t.index(0), TableEntry::new(s(":authority"), s("")));
    assert_eq!(t.index(1), TableEntry::new(s(":method"), s("GET")));
    assert_eq!(t.index(60), TableEntry::new(s("www-authenticate"), s("")));
    assert_eq!(t.index(1).duplicate(), t.index(1));
}

#[test]
fn unified_index() {
    let mut table = Table::new(4096, 4);
    assert_eq!(table.get_header_entry(0), Err(H2Error::CompressionError));
    assert_eq!(table.get_header_entry(1).unwrap(), (":authority", "").into());
    assert_eq!(table.get_header_entry(61).unwrap(), ("www-authenticate", "").into());
    assert_eq!(table.get_header_entry(62), Err(H2Error::CompressionError));
    assert_eq!(table.get_name_rc(2), Ok(s(":method")));
    assert_eq!(table.get_name_rc(0), Err(H2Error::CompressionError));
    assert_eq!(table.add_entry_id(0, s("v")), Err(H2Error::CompressionError));
    assert_eq!(table.add_entry_id(62, s("v")), Err(H2Error::CompressionError));
    assert_eq!(table.num_dyn_entries(), 0);

    table.add_entry_literal(s("a"), s("1"));
    table.add_entry_literal(s("b"), s("2"));
    // the newest entry has the index 62, and the older ones move up
    assert_eq!(table.get_header_entry(62).unwrap(), ("b", "2").into());
    assert_eq!(table.get_header_entry(63).unwrap(), ("a", "1").into());
    assert_eq!(table.get_header_entry(64), Err(H2Error::CompressionError));
    assert_eq!(table.get_dyn_front(), ("b", "2").into());
    assert_eq!(table.get_entry(63), Ok(TableEntry::new(s("a"), s("1"))));
    assert_eq!(table.size(), 2 * 34);
}

#[test]
fn sizes_stay_within_the_maximum() {
    let mut table = Table::new(100, 4);
    for i in 0..20u8 {
        table.add_entry_literal(vec![b'n', i], vec![b'v'; i as usize]);
        assert!(table.size() <= table.max_size());
    }
    // 34 + 19 = 53 for the newest, and the one before would take 52 more
    assert_eq!(table.num_dyn_entries(), 1);
    assert_eq!(table.size(), 53);

    // an entry of exactly the maximum size fits
    table.add_entry_literal(vec![b'x'; 60], vec![b'y'; 8]);
    assert_eq!(table.num_dyn_entries(), 1);
    assert_eq!(table.size(), 100);

    // an entry above the maximum size empties the table
    table.add_entry_literal(vec![b'x'; 60], vec![b'y'; 9]);
    assert_eq!(table.num_dyn_entries(), 0);
    assert_eq!(table.size(), 0);
}

#[test]
fn eviction_is_from_the_oldest_end() {
    let mut table = DynTable::new(34 * 3, 4);
    table.add_entry_literal(s("a"), s("1"));
    table.add_entry_literal(s("b"), s("2"));
    table.add_entry_literal(s("c"), s("3"));
    assert_eq!(table.len(), 3);
    assert_eq!(table.size(), 102);
    table.add_entry_literal(s("d"), s("4"));
    assert_eq!(table.len(), 3);
    assert_eq!(table.get_header_entry(0).unwrap(), ("d", "4").into());
    assert_eq!(table.get_header_entry(2).unwrap(), ("b", "2").into());
    table.max_size_update(70);
    assert_eq!(table.max_size(), 70);
    assert_eq!(table.len(), 2);
    assert_eq!(table.get_entry(1), Some(TableEntry::new(s("c"), s("3"))));
    assert_eq!(table.get_entry(2), None);
    assert_eq!(table.add_entry_id(2, s("v")), Err(H2Error::CompressionError));
    assert_eq!(table.get_header_entry(2), Err(H2Error::CompressionError));
}

#[test]
fn size_update_above_the_limit() {
    let mut table = Table::new(100, 4);
    table.add_entry_literal(s("a"), s("1"));
    assert_eq!(table.max_size_update(101), Err(H2Error::CompressionError));
    assert_eq!(table.max_size(), 100);
    assert_eq!(table.num_dyn_entries(), 1);
    assert_eq!(table.max_size_update(100), Ok(()));
    assert_eq!(table.max_size_update(0), Ok(()));
    assert_eq!(table.num_dyn_entries(), 0);

    table.set_size_limit(200);
    assert_eq!(table.size_limit(), 200);
    assert_eq!(table.max_size(), 0);
    assert_eq!(table.max_size_update(150), Ok(()));
    table.add_entry_literal(vec![b'a'; 50], vec![b'b'; 50]);
    assert_eq!(table.num_dyn_entries(), 1);
    // a lower limit lowers the maximum size with it
    table.set_size_limit(120);
    assert_eq!(table.max_size(), 120);
    assert_eq!(table.num_dyn_entries(), 0);

    // in a header block: 0x3F 0x46 is a size update to 31 + 70 = 101
    let mut decoder = Decoder::new(100, 4);
    assert_eq!(decoder.get_header_list(&[0x3F, 0x46]), Err(H2Error::CompressionError));
    // and 0x3F 0x45 one to 100
    assert_eq!(decoder.get_header_list(&[0x3F, 0x45, 0x82]).unwrap().len(), 1);
    decoder.set_size_limit(4096);
    assert_eq!(decoder.get_header_list(&[0x3F, 0x46]).unwrap().len(), 0);
    assert_eq!(decoder.table().max_size(), 101);
}

#[test]
fn index_zero_is_an_error() {
    let mut decoder = Decoder::new(100, 4);
    assert_eq!(decoder.get_header_list(&[0x80]), Err(H2Error::CompressionError));
    assert_eq!(decoder.get_header_list(&[0x82, 0x80]), Err(H2Error::CompressionError));
    // an index behind the tables
    assert_eq!(decoder.get_header_list(&[0xBE]), Err(H2Error::CompressionError));
    // a name from an index that addresses nothing
    assert_eq!(decoder.get_header_list(&[0x7E, 0x01, 0x31]), Err(H2Error::CompressionError));
}

#[test]
fn size_updates_stand_at_the_start() {
    let mut decoder = Decoder::new(100, 4);
    // two updates, then a field
    assert_eq!(decoder.get_header_list(&[0x20, 0x3F, 0x00, 0x82]).unwrap().len(), 1);
    assert_eq!(decoder.table().max_size(), 31);
    // three updates
    assert_eq!(decoder.get_header_list(&[0x20, 0x21, 0x22]), Err(H2Error::CompressionError));
    // the two that were well formed have been applied
    assert_eq!(decoder.table().max_size(), 1);
    // an update behind a field
    assert_eq!(decoder.get_header_list(&[0x82, 0x20]), Err(H2Error::CompressionError));
}

#[test]
fn literal_forms() {
    let mut decoder = Decoder::new(4096, 4);
    // with incremental indexing, new name: "ab" -> "c"
    // never indexed, name from the index 62: value "d"
    // without indexing, new name: "e" -> ""
    let list = decoder
        .get_header_list(&[
            0x40, 0x02, b'a', b'b', 0x01, b'c', 0x1F, 0x2F, 0x01, b'd', 0x00, 0x01, b'e', 0x00,
        ])
        .unwrap();
    assert_eq!(list.len(), 3);
    assert_eq!(list.get(0), Some(&HeaderEntry::new(s("ab"), s("c"))));
    assert_eq!(list.get(1), Some(&HeaderEntry::new_never_indexed(s("ab"), s("d"))));
    assert_eq!(list.get(2), Some(&HeaderEntry::new(s("e"), s(""))));
    assert_eq!(list.get(3), None);
    assert_eq!(decoder.table().num_dyn_entries(), 1);
    assert_eq!(decoder.table().get_header_entry(62).unwrap(), ("ab", "c").into());
}

#[test]
fn malformed_literal_leaves_the_table_alone() {
    let mut decoder = Decoder::new(4096, 4);
    // a well-formed insertion, then one whose value is cut short
    let block = [0x40, 0x01, b'a', 0x01, b'b', 0x40, 0x01, b'c', 0x05, b'd'];
    assert_eq!(decoder.get_header_list(&block), Err(H2Error::CompressionError));
    assert_eq!(decoder.table().num_dyn_entries(), 1);
    assert_eq!(decoder.table().get_header_entry(62).unwrap(), ("a", "b").into());
    // a Huffman literal with bad padding
    assert_eq!(decoder.get_header_list(&[0x40, 0x81, 0x00, 0x01, b'b']), Err(H2Error::CompressionError));
    // a Huffman literal: '0' is 00000, padded with ones
    let list = decoder.get_header_list(&[0x00, 0x81, 0x07, 0x81, 0x07]).unwrap();
    assert_eq!(list.get(0), Some(&HeaderEntry::new(s("0"), s("0"))));
    // an integer of more than five octets
    assert_eq!(
        decoder.get_header_list(&[0xFF, 0x80, 0x80, 0x80, 0x80, 0x01]),
        Err(H2Error::CompressionError)
    );
    // the empty block gives the empty list
    assert_eq!(decoder.get_header_list(&[]).unwrap().len(), 0);
}

#[test]
fn insertion_too_large_for_the_table_still_gives_the_field() {
    let mut decoder = Decoder::new(40, 4);
    let list = decoder
        .get_header_list(&[0x40, 0x01, b'a', 0x01, b'b', 0x40, 0x05, b'a', b'b', b'c', b'd', b'e', 0x04, b'1', b'2', b'3', b'4'])
        .unwrap();
    assert_eq!(list.len(), 2);
    assert_eq!(list.get(1), Some(&HeaderEntry::new(s("abcde"), s("1234"))));
    assert_eq!(decoder.table().num_dyn_entries(), 0);
}

#[test]
fn header_list_keeps_order_and_duplicates() {
    let mut list = HeaderList::new();
    list.add_entry(HeaderEntry::new(s("a"), s("1")));
    list.add_entry(HeaderEntry::new(s("b"), s("2")));
    list.add_entry(HeaderEntry::new(s("a"), s("3")));
    assert_eq!(list.len(), 3);
    assert_eq!(list.find_first(b"a"), Some(&b"1"[..]));
    assert_eq!(list.find_first(b"b"), Some(&b"2"[..]));
    assert_eq!(list.find_first(b"c"), None);
    assert_eq!(list.find_first(b""), None);
    assert_eq!(list.get_value_by_name("a"), Some(&b"1"[..]));
    assert_eq!(list.iter()[2], HeaderEntry::new(s("a"), s("3")));
    assert_eq!(list.get(1).unwrap().duplicate(), HeaderEntry::new(s("b"), s("2")));
    let from_entry: HeaderEntry = TableEntry::new(s("n"), s("v")).into();
    assert_eq!(from_entry, HeaderEntry::new(s("n"), s("v")));
    assert_eq!(h2wire::header::list::octets_eq(b"ab", b"ab"), true);
    assert_eq!(h2wire::header::list::octets_eq(b"ab", b"ac"), false);
    assert_eq!(h2wire::header::list::octets_eq(b"ab", b"abc"), false);
}

#[test]
fn error_chain() {
    let base = ErrLink::new("disk full".to_string());
    let chained = base.attach_links("could not save".to_string());
    assert_eq!(chained.message(0), Some(&"could not save".to_string()));
    assert_eq!(chained.message(1), Some(&"disk full".to_string()));
    assert_eq!(chained.message(2), None);

    let ok: Kresult<u8> = Ok(3);
    assert_eq!(ok.chain_err(|| "unused".to_string()).unwrap(), 3);
    let failed: Kresult<u8> = Err(chained);
    let e = failed.chain_err(|| "request failed".to_string()).unwrap_err();
    assert_eq!(e.message(0), Some(&"request failed".to_string()));
    assert_eq!(e.message(2), Some(&"disk full".to_string()));
}

#[test]
fn decoding_in_parts_gives_the_same() {
    // three representations: an insertion, a field from the new entry, a literal
    let block = [0x40u8, 0x01, b'a', 0x01, b'b', 0xBE, 0x00, 0x01, b'c', 0x01, b'd'];
    let mut whole = Decoder::new(4096, 4);
    let all = whole.get_header_list(&block).unwrap();
    assert_eq!(all.len(), 3);

    for cut in [0usize, 5, 6, 11] {
        let mut parts = Decoder::new(4096, 4);
        let first = parts.get_header_list(&block[..cut]).unwrap();
        let second = parts.get_header_list(&block[cut..]).unwrap();
        let mut joined: Vec<HeaderEntry> = Vec::new();
        for e in first.iter() {
            joined.push(e.duplicate());
        }
        for e in second.iter() {
            joined.push(e.duplicate());
        }
        assert_eq!(&joined[..], all.iter());
        assert_eq!(parts.table().num_dyn_entries(), whole.table().num_dyn_entries());
        assert_eq!(parts.table().get_header_entry(62), whole.table().get_header_entry(62));
    }

    // a cut in the middle of a representation fails the first part
    let mut parts = Decoder::new(4096, 4);
    assert_eq!(parts.get_header_list(&block[..3]), Err(H2Error::CompressionError));
}
