use tabstate::{
    apply_chunk, checksum, decode_utf16, hex_string, replay, ByteReader, CRType, Chunk,
    ChunkApplyError, Encoding, ParseError, TabState,
};

fn utf16(s: &str) -> Vec<u8> {
    let mut out = Vec::new();
    for u in s.encode_utf16() {
        out.push((u & 0xff) as u8);
        out.push((u >> 8) as u8);
    }
    out
}

fn leb(mut v: u64) -> Vec<u8> {
    let mut out = Vec::new();
    loop {
        let b = (v & 0x7f) as u8;
        v >>= 7;
        if v == 0 {
            out.push(b);
            return out;
        }
        out.push(b | 0x80);
    }
}

/// Header of an untitled tab, then the body with the given text and cursor.
fn untitled(content: &str, a: u64, b: u64) -> Vec<u8> {
    let mut d = vec![0x4E, 0x50, 0x00, 0x00, 0x01];
    d.extend(leb(a));
    d.extend(leb(b));
    d.extend([1, 0, 1]);
    d.extend(leb(1));
    d.extend([0, 0]);
    d.extend(leb(content.encode_utf16().count() as u64));
    d.extend(utf16(content));
    d.push(0);
    d.extend([0xde, 0xad, 0xbe, 0xef]);
    d
}

fn chunk(pos: u64, del: u64, text: &str) -> Vec<u8> {
    let mut d = leb(pos);
    d.extend(leb(del));
    d.extend(leb(text.encode_utf16().count() as u64));
    d.extend(utf16(text));
    d.extend([1, 2, 3, 4]);
    d
}

fn encoded(enc: u8, content: &str) -> (u64, Vec<u8>) {
    match enc {
        0x01 => (content.chars().count() as u64, content.chars().map(|c| c as u32 as u8).collect()),
        0x03 => {
            let mut out = Vec::new();
            for u in content.encode_utf16() {
                out.push((u >> 8) as u8);
                out.push((u & 0xff) as u8);
            }
            (content.encode_utf16().count() as u64, out)
        }
        0x04 | 0x05 => (content.len() as u64, content.as_bytes().to_vec()),
        _ => (content.encode_utf16().count() as u64, utf16(content)),
    }
}

fn saved(path: &str, enc: u8, cr: u8, content: &str) -> Vec<u8> {
    let (n, bytes) = encoded(enc, content);
    saved_raw(path, enc, cr, n, &bytes)
}

fn saved_raw(path: &str, enc: u8, cr: u8, n: u64, bytes: &[u8]) -> Vec<u8> {
    let mut d = vec![0x4E, 0x50, 0x01, 0x01];
    d.extend(leb(path.encode_utf16().count() as u64));
    d.extend(utf16(path));
    d.extend(leb(1234));
    d.push(enc);
    d.push(cr);
    d.extend(leb(133_000_000_000_000_000));
    d.extend((0u8..32).collect::<Vec<u8>>());
    d.extend([0, 1]);
    d.extend(leb(0));
    d.extend(leb(0));
    d.extend([0, 0, 0]);
    d.extend(leb(1));
    d.extend([0, 0]);
    d.extend(leb(n));
    d.extend(bytes);
    d.push(1);
    d.extend([0, 0, 0, 0]);
    d
}

#[test]
fn saved_only_round_trip() {
    let t = TabState::from_bytes(untitled("hello", 3, 1)).unwrap();
    assert_eq!(t.file_content, "hello");
    assert!(!t.contain_unsaved_data);
    assert!(!t.is_saved_file);
    assert_eq!(t.path, None);
    assert_eq!(t.file_size, None);
    assert_eq!(t.encoding, Some(Encoding::UTF16LE));
    assert_eq!(t.cr_type, Some(CRType::UNKNOWN(0)));
    assert_eq!(t.file_hash, None);
    assert_eq!(t.cursor_start, Some(1));
    assert_eq!(t.cursor_end, Some(3));
    assert!(t.word_wrap);
    assert!(!t.rtl);
    assert!(t.show_unicode);
    assert_eq!(t.version, 1);
    assert_eq!(t.unsaved_chunks_str, None);
    assert_eq!(t.chunk_error, None);
    assert_eq!(t.stored_checksum, "DEADBEEF");
    assert_eq!(t.checksum, "A430D84680AABD0B");
    assert_eq!(t.tabstate_path, None);
}

#[test]
fn saved_file_header_fields() {
    let t = TabState::from_bytes(saved("C:\\notes.txt", 0x05, 0x01, "abc")).unwrap();
    assert!(t.is_saved_file);
    assert_eq!(t.path.as_deref(), Some("C:\\notes.txt"));
    assert_eq!(t.file_size, Some(1234));
    assert_eq!(t.encoding, Some(Encoding::UTF8));
    assert_eq!(t.cr_type, Some(CRType::CRLF));
    assert_eq!(
        t.file_hash.as_deref(),
        Some("000102030405060708090A0B0C0D0E0F101112131415161718191A1B1C1D1E1F")
    );
    assert_eq!(t.file_content, "abc");
    assert_eq!(t.version, 1);
    assert!(!t.word_wrap);
}

#[test]
fn unknown_encoding_code_is_kept() {
    let t = TabState::from_bytes(saved("a", 0x7F, 0x09, "")).unwrap();
    assert_eq!(t.encoding, Some(Encoding::UNKNOWN(0x7F)));
    assert_eq!(t.cr_type, Some(CRType::UNKNOWN(0x09)));
    assert_eq!(Encoding::from_code(0x7F), Encoding::UNKNOWN(0x7F));
    assert_eq!(Encoding::from_code(0), Encoding::UNKNOWN(0));
    assert_eq!(Encoding::from_code(2), Encoding::UTF16LE);
    assert_eq!(CRType::from_code(3), CRType::LF);
}

#[test]
fn chunk_replay_insert() {
    let mut d = untitled("hello", 0, 0);
    d.extend(chunk(5, 0, " world"));
    let t = TabState::from_bytes(d).unwrap();
    assert_eq!(t.file_content, "hello world");
    assert!(t.contain_unsaved_data);
    assert_eq!(t.chunk_error, None);
    assert_eq!(t.checksum, "779A65E7023CD2E7");
}

#[test]
fn chunk_replay_delete() {
    let mut d = untitled("hello world", 0, 0);
    d.extend(chunk(5, 6, "!"));
    let t = TabState::from_bytes(d).unwrap();
    assert_eq!(t.file_content, "hello!");
    assert!(t.contain_unsaved_data);
    assert_eq!(t.checksum, "A9BCA9CCA21F6E5E");
}

#[test]
fn chunk_replay_no_op_counts_as_edit() {
    let mut d = untitled("ab", 0, 0);
    d.extend(chunk(1, 0, "x"));
    d.extend(chunk(1, 1, ""));
    let t = TabState::from_bytes(d).unwrap();
    assert_eq!(t.file_content, "ab");
    assert!(t.contain_unsaved_data);
}

#[test]
fn out_of_range_chunk_keeps_partial_text() {
    let mut d = untitled("hello", 0, 0);
    let c1 = chunk(5, 0, "!");
    let c2 = chunk(10, 0, "?");
    let c3 = chunk(0, 0, "z");
    let mut raw = c1.clone();
    raw.extend(c2.clone());
    raw.extend(c3.clone());
    d.extend(raw.clone());
    let t = TabState::from_bytes(d).unwrap();
    assert_eq!(t.file_content, "hello!");
    assert!(t.contain_unsaved_data);
    assert_eq!(
        t.chunk_error,
        Some(ChunkApplyError { index: 1, offset: 10, deleted: 0, buffer_len: 6 })
    );
    let expected: String = raw.iter().map(|b| format!("{:02X}", b)).collect();
    assert_eq!(t.unsaved_chunks_str, Some(expected));
    assert_eq!(t.checksum, checksum(&"hello!".chars().collect::<Vec<char>>()));
}

#[test]
fn deletion_past_end_is_chunk_error() {
    let mut d = untitled("abc", 0, 0);
    d.extend(chunk(2, 2, ""));
    let t = TabState::from_bytes(d).unwrap();
    assert_eq!(t.file_content, "abc");
    assert_eq!(
        t.chunk_error,
        Some(ChunkApplyError { index: 0, offset: 2, deleted: 2, buffer_len: 3 })
    );
}

#[test]
fn bad_signature() {
    let mut d = untitled("hello", 0, 0);
    d[0] = b'X';
    assert_eq!(TabState::from_bytes(d).err(), Some(ParseError::BadSignature));
    assert_eq!(TabState::from_bytes(vec![0x50, 0x4E]).err(), Some(ParseError::BadSignature));
    assert_eq!(
        TabState::from_bytes(vec![0x4E]).err(),
        Some(ParseError::UnexpectedEof { offset: 0, len: 2 })
    );
    assert_eq!(
        TabState::from_bytes(vec![]).err(),
        Some(ParseError::UnexpectedEof { offset: 0, len: 2 })
    );
}

#[test]
fn truncated_content_reports_offset() {
    let d = untitled("hello", 0, 0);
    // The text starts after 5 header bytes, 2 cursor bytes, 6 config bytes and 1 length byte.
    let cut = d[..14 + 4].to_vec();
    assert_eq!(
        TabState::from_bytes(cut).err(),
        Some(ParseError::UnexpectedEof { offset: 14, len: 10 })
    );
    let cut = d[..3].to_vec();
    assert_eq!(
        TabState::from_bytes(cut).err(),
        Some(ParseError::UnexpectedEof { offset: 3, len: 1 })
    );
}

#[test]
fn truncated_chunk_is_eof() {
    let mut d = untitled("hello", 0, 0);
    let n = d.len();
    d.extend(chunk(5, 0, "!"));
    d.pop();
    assert_eq!(
        TabState::from_bytes(d).err(),
        Some(ParseError::UnexpectedEof { offset: n + 5, len: 4 })
    );
}

#[test]
fn invalid_flag_byte() {
    let mut d = untitled("hello", 0, 0);
    d[3] = 5;
    assert_eq!(TabState::from_bytes(d).err(), Some(ParseError::InvalidValue { offset: 3 }));
    let mut e = untitled("hello", 0, 0);
    e[7] = 2;
    assert_eq!(TabState::from_bytes(e).err(), Some(ParseError::InvalidValue { offset: 7 }));
}

#[test]
fn leb_too_long_is_invalid() {
    let mut d = vec![0x4E, 0x50];
    d.extend([0xff; 10]);
    d.push(0x01);
    assert_eq!(TabState::from_bytes(d).err(), Some(ParseError::InvalidValue { offset: 2 }));
    let mut r = ByteReader::new(vec![0xff, 0xff, 0xff, 0xff, 0xff, 0xff, 0xff, 0xff, 0xff, 0x02]);
    assert_eq!(r.read_uleb128(), Err(ParseError::InvalidValue { offset: 0 }));
    let mut r = ByteReader::new(vec![0xff, 0xff, 0xff, 0xff, 0xff, 0xff, 0xff, 0xff, 0xff, 0x01]);
    assert_eq!(r.read_uleb128(), Ok(u64::MAX));
}

#[test]
fn multi_byte_cursor() {
    let t = TabState::from_bytes(untitled("", 300, 300)).unwrap();
    assert_eq!(t.cursor_start, Some(300));
    assert_eq!(t.cursor_end, Some(300));
    assert_eq!(t.file_content, "");
    assert_eq!(t.encoding, None);
    assert_eq!(t.cr_type, None);
    assert_eq!(t.checksum, "CBF29CE484222325");
}

#[test]
fn old_config_version_clears_flags() {
    let mut d = untitled("x", 0, 0);
    // config flags at 7..10, version at 10
    d[10] = 0;
    let t = TabState::from_bytes(d).unwrap();
    assert_eq!(t.version, 0);
    assert!(!t.word_wrap);
    assert!(!t.show_unicode);
}

#[test]
fn unpaired_surrogate_is_encoding_error() {
    let mut d = untitled("ab", 0, 0);
    // second unit of the text, at byte 14 + 2
    d[16] = 0x00;
    d[17] = 0xD8;
    assert_eq!(
        TabState::from_bytes(d).err(),
        Some(ParseError::EncodingError { offset: 16, encoding: None })
    );
    let mut s = saved("p", 0x02, 0x01, "ab");
    let n = s.len();
    s[n - 7] = 0x00;
    s[n - 6] = 0xDC;
    assert_eq!(
        TabState::from_bytes(s).err(),
        Some(ParseError::EncodingError { offset: n - 7, encoding: Some(Encoding::UTF16LE) })
    );
}

#[test]
fn surrogate_pairs_decode() {
    let t = TabState::from_bytes(untitled("a\u{1F600}b", 0, 0)).unwrap();
    assert_eq!(t.file_content, "a\u{1F600}b");
    assert_eq!(decode_utf16(&vec![0x68, 0x69]), Ok(vec!['h', 'i']));
    assert_eq!(decode_utf16(&vec![0x61, 0xDC00]), Err(1));
    assert_eq!(decode_utf16(&vec![0xD800, 0x61]), Err(0));
    assert_eq!(decode_utf16(&vec![]), Ok(vec![]));
}

#[test]
fn parse_is_deterministic() {
    let mut d = untitled("hello", 2, 7);
    d.extend(chunk(0, 1, "J"));
    let a = TabState::from_bytes(d.clone()).unwrap();
    let b = TabState::from_bytes(d).unwrap();
    assert_eq!(a.file_content, b.file_content);
    assert_eq!(a.checksum, b.checksum);
    assert_eq!(a.unsaved_chunks_str, b.unsaved_chunks_str);
    assert_eq!(a.file_content, "Jello");
}

#[test]
fn hex_and_checksum_values() {
    assert_eq!(hex_string(&vec![0x00, 0xab, 0x7f]), "00AB7F");
    assert_eq!(checksum(&vec!['a']), "AF63DC4C8601EC8C");
    assert_eq!(checksum(&vec![]), "CBF29CE484222325");
}

#[test]
fn apply_and_replay_directly() {
    let c = Chunk { position: 1, deletions: 1, additions: 2, data: vec!['x', 'y'], checksum: vec![0; 4] };
    assert_eq!(apply_chunk(&vec!['a', 'b', 'c'], &c), Some(vec!['a', 'x', 'y', 'c']));
    assert_eq!(apply_chunk(&vec!['a'], &c), None);
    let (text, err) = replay(&vec!['a', 'b', 'c'], &vec![c]);
    assert_eq!(text, vec!['a', 'x', 'y', 'c']);
    assert_eq!(err, None);
}

#[test]
fn byte_reader_bounds() {
    let mut r = ByteReader::new(vec![1, 2, 3]);
    assert_eq!(r.remaining(), 3);
    assert_eq!(r.read_u8(), Ok(1));
    assert_eq!(r.read_bytes(3), Err(ParseError::UnexpectedEof { offset: 1, len: 3 }));
    assert_eq!(r.read_bytes(2), Ok(vec![2, 3]));
    assert_eq!(r.read_u8(), Err(ParseError::UnexpectedEof { offset: 3, len: 1 }));
    assert_eq!(r.seek(1), Ok(()));
    assert_eq!(r.read_u8(), Ok(2));
    assert_eq!(r.seek(5), Err(ParseError::UnexpectedEof { offset: 3, len: 2 }));
}

#[test]
fn utf8_bom_mark_is_stripped() {
    let mut bytes = vec![0xEF, 0xBB, 0xBF];
    bytes.extend("abc".as_bytes());
    let t = TabState::from_bytes(saved_raw("p", 0x04, 0x01, 6, &bytes)).unwrap();
    assert_eq!(t.file_content, "abc");
    let t = TabState::from_bytes(saved_raw("p", 0x05, 0x01, 6, &bytes)).unwrap();
    assert_eq!(t.file_content, "\u{FEFF}abc");
    let t = TabState::from_bytes(saved("p", 0x04, 0x01, "abc")).unwrap();
    assert_eq!(t.file_content, "abc");
}

#[test]
fn content_follows_declared_encoding() {
    let t = TabState::from_bytes(saved("p", 0x05, 0x01, "h\u{e9}llo")).unwrap();
    assert_eq!(t.file_content, "h\u{e9}llo");
    let t = TabState::from_bytes(saved("p", 0x03, 0x01, "h\u{e9}\u{1F600}")).unwrap();
    assert_eq!(t.file_content, "h\u{e9}\u{1F600}");
    let t = TabState::from_bytes(saved("p", 0x01, 0x01, "caf\u{e9}")).unwrap();
    assert_eq!(t.file_content, "caf\u{e9}");
    let t = TabState::from_bytes(saved("p", 0x7F, 0x01, "plain")).unwrap();
    assert_eq!(t.file_content, "plain");
}

#[test]
fn invalid_utf8_is_encoding_error() {
    let d = saved_raw("p", 0x05, 0x01, 2, &[0xE9, 0x00]);
    let start = d.len() - 5 - 2;
    assert_eq!(
        TabState::from_bytes(d).err(),
        Some(ParseError::EncodingError { offset: start, encoding: Some(Encoding::UTF8) })
    );
    let mut bytes = vec![0xEF, 0xBB, 0xBF, b'o', b'k'];
    bytes.push(0xFF);
    let d = saved_raw("p", 0x04, 0x01, 6, &bytes);
    let start = d.len() - 5 - 6;
    assert_eq!(
        TabState::from_bytes(d).err(),
        Some(ParseError::EncodingError { offset: start + 5, encoding: Some(Encoding::UTF8BOM) })
    );
}

#[test]
fn utf8_tab_edits_are_utf8() {
    let mut d = saved("p", 0x05, 0x01, "hello");
    d.extend(leb(5));
    d.extend(leb(0));
    d.extend(leb(3));
    d.extend(" \u{e9}".as_bytes());
    d.extend([0, 0, 0, 0]);
    let t = TabState::from_bytes(d).unwrap();
    assert_eq!(t.file_content, "hello \u{e9}");
    assert!(t.contain_unsaved_data);
}

#[test]
fn enum_names() {
    assert_eq!(Encoding::UTF8BOM.name(), "UTF8BOM");
    assert_eq!(Encoding::ANSI.name(), "ANSI");
    assert_eq!(Encoding::UNKNOWN(0x7F).name(), "UNKNOWN");
    assert_eq!(CRType::CR.name(), "CR");
    assert_eq!(CRType::UNKNOWN(9).name(), "UNKNOWN");
}
