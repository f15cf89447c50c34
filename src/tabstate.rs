use vstd::prelude::*;

use crate::chunks::{chunks_view, read_chunks, replay, replay_model, spec_chunks, ChunkModel};
use crate::types::{CRType, ChunkApplyError, Encoding, ParseError};
use crate::reader::{spec_bool, spec_bytes, spec_content, spec_leb, spec_text, spec_u8, ByteReader};
use crate::text::{checksum, checksum_of, hex_of, hex_string, string_of};

verus! {

pub open spec fn encoding_of(code: u8) -> Encoding {
    if code == 1 {
        Encoding::ANSI
    } else if code == 2 {
        Encoding::UTF16LE
    } else if code == 3 {
        Encoding::UTF16BE
    } else if code == 4 {
        Encoding::UTF8BOM
    } else if code == 5 {
        Encoding::UTF8
    } else {
        Encoding::UNKNOWN(code)
    }
}

pub open spec fn cr_type_of(code: u8) -> CRType {
    if code == 1 {
        CRType::CRLF
    } else if code == 2 {
        CRType::CR
    } else if code == 3 {
        CRType::LF
    } else {
        CRType::UNKNOWN(code)
    }
}

pub open spec fn encoding_name(e: Encoding) -> Seq<char> {
    match e {
        Encoding::ANSI => "ANSI"@,
        Encoding::UTF16LE => "UTF16LE"@,
        Encoding::UTF16BE => "UTF16BE"@,
        Encoding::UTF8BOM => "UTF8BOM"@,
        Encoding::UTF8 => "UTF8"@,
        Encoding::UNKNOWN(_) => "UNKNOWN"@,
    }
}

pub open spec fn cr_type_name(c: CRType) -> Seq<char> {
    match c {
        CRType::CRLF => "CRLF"@,
        CRType::CR => "CR"@,
        CRType::LF => "LF"@,
        CRType::UNKNOWN(_) => "UNKNOWN"@,
    }
}

impl Encoding {
    /// The variant's name; every unknown code is named `UNKNOWN`.
    pub fn name(&self) -> (r: &'static str)
        ensures
            r@ == encoding_name(*self),
    {
        match self {
            Encoding::ANSI => "ANSI",
            Encoding::UTF16LE => "UTF16LE",
            Encoding::UTF16BE => "UTF16BE",
            Encoding::UTF8BOM => "UTF8BOM",
            Encoding::UTF8 => "UTF8",
            Encoding::UNKNOWN(_) => "UNKNOWN",
        }
    }

    /// The encoding that a code byte names; a code outside 1..=5 is kept as `UNKNOWN`.
    pub fn from_code(code: u8) -> (r: Encoding)
        ensures
            r == encoding_of(code),
            (code == 0 || code > 5) ==> r == Encoding::UNKNOWN(code),
    {
        match code {
            1 => Encoding::ANSI,
            2 => Encoding::UTF16LE,
            3 => Encoding::UTF16BE,
            4 => Encoding::UTF8BOM,
            5 => Encoding::UTF8,
            x => Encoding::UNKNOWN(x),
        }
    }
}

impl CRType {
    /// The variant's name; every unknown code is named `UNKNOWN`.
    pub fn name(&self) -> (r: &'static str)
        ensures
            r@ == cr_type_name(*self),
    {
        match self {
            CRType::CRLF => "CRLF",
            CRType::CR => "CR",
            CRType::LF => "LF",
            CRType::UNKNOWN(_) => "UNKNOWN",
        }
    }

    /// The line ending that a code byte names; a code outside 1..=3 is kept as `UNKNOWN`.
    pub fn from_code(code: u8) -> (r: CRType)
        ensures
            r == cr_type_of(code),
            (code == 0 || code > 3) ==> r == CRType::UNKNOWN(code),
    {
        match code {
            1 => CRType::CRLF,
            2 => CRType::CR,
            3 => CRType::LF,
            x => CRType::UNKNOWN(x),
        }
    }
}

/// The lowest configuration version whose display flags are read.
pub const MIN_CONFIG_VERSION: u64 = 1;

/// Display flags of a tab and the version of their record.
#[derive(Clone, Copy, Debug, PartialEq, Eq, Structural)]
pub struct ConfigBlock {
    pub word_wrap: bool,
    pub rtl: bool,
    pub show_unicode: bool,
    pub version: u64,
}

/// The configuration record at `p`: three flag bytes, a LEB128 version and two
/// reserved bytes. Below `MIN_CONFIG_VERSION` the flags count as false.
pub open spec fn spec_config(d: Seq<u8>, p: int) -> Result<(ConfigBlock, int), ParseError> {
    match spec_bool(d, p) {
        Err(e) => Err(e),
        Ok((w, p1)) => match spec_bool(d, p1) {
            Err(e) => Err(e),
            Ok((r, p2)) => match spec_bool(d, p2) {
                Err(e) => Err(e),
                Ok((u, p3)) => match spec_leb(d, p3) {
                    Err(e) => Err(e),
                    Ok((v, p4)) => match spec_bytes(d, p4, 2) {
                        Err(e) => Err(e),
                        Ok((_, p5)) => {
                            let known = v >= MIN_CONFIG_VERSION;
                            Ok((ConfigBlock { word_wrap: known && w, rtl: known && r, show_unicode: known && u, version: v }, p5))
                        },
                    },
                },
            },
        },
    }
}

impl ConfigBlock {
    pub fn read(r: &mut ByteReader) -> (res: Result<ConfigBlock, ParseError>)
        requires
            old(r).wf(),
        ensures
            final(r).wf(),
            final(r).data == old(r).data,
            match res {
                Ok(c) => spec_config(old(r).data@, old(r).pos as int) == Ok::<(ConfigBlock, int), ParseError>((c, final(r).pos as int)),
                Err(e) => spec_config(old(r).data@, old(r).pos as int) == Err::<(ConfigBlock, int), ParseError>(e),
            },
    {
        let w = r.read_bool()?;
        let rtl = r.read_bool()?;
        let u = r.read_bool()?;
        let version = r.read_uleb128()?;
        let _reserved = r.read_bytes(2)?;
        let known = version >= MIN_CONFIG_VERSION;
        Ok(ConfigBlock { word_wrap: known && w, rtl: known && rtl, show_unicode: known && u, version })
    }
}

/// What the header holds of a tab backed by a file on disk.
pub ghost struct SavedModel {
    pub path: Seq<char>,
    pub file_size: u64,
    pub encoding: Encoding,
    pub cr_type: CRType,
    pub last_write_time: u64,
    pub file_hash: Seq<u8>,
}

pub struct SavedHeader {
    pub path: Vec<char>,
    pub file_size: u64,
    pub encoding: Encoding,
    pub cr_type: CRType,
    pub last_write_time: u64,
    pub file_hash: Vec<u8>,
}

impl View for SavedHeader {
    type V = SavedModel;

    open spec fn view(&self) -> SavedModel {
        SavedModel {
            path: self.path@,
            file_size: self.file_size,
            encoding: self.encoding,
            cr_type: self.cr_type,
            last_write_time: self.last_write_time,
            file_hash: self.file_hash@,
        }
    }
}

pub open spec fn saved_view(h: Option<SavedHeader>) -> Option<SavedModel> {
    match h {
        Some(s) => Some(s@),
        None => None,
    }
}

/// The file fields at `p` that follow a path of `n` UTF-16 units: the path, the
/// file size, the encoding and line-ending codes, the last write time and the
/// 32-byte hash, then two reserved bytes.
pub open spec fn spec_saved(d: Seq<u8>, p: int, n: int) -> Result<(SavedModel, int), ParseError> {
    match spec_text(d, p, n, None, false) {
        Err(e) => Err(e),
        Ok((path, p1)) => match spec_leb(d, p1) {
            Err(e) => Err(e),
            Ok((file_size, p2)) => match spec_u8(d, p2) {
                Err(e) => Err(e),
                Ok((enc, p3)) => match spec_u8(d, p3) {
                    Err(e) => Err(e),
                    Ok((cr, p4)) => match spec_leb(d, p4) {
                        Err(e) => Err(e),
                        Ok((last_write_time, p5)) => match spec_bytes(d, p5, 32) {
                            Err(e) => Err(e),
                            Ok((file_hash, p6)) => match spec_bytes(d, p6, 2) {
                                Err(e) => Err(e),
                                Ok((_, p7)) => Ok((
                                    SavedModel {
                                        path,
                                        file_size,
                                        encoding: encoding_of(enc),
                                        cr_type: cr_type_of(cr),
                                        last_write_time,
                                        file_hash,
                                    },
                                    p7,
                                )),
                            },
                        },
                    },
                },
            },
        },
    }
}

/// The header: the magic `NP`, a LEB128 sequence number, the saved-file flag, a
/// LEB128 path length and, for a saved file, the file fields.
pub open spec fn spec_header(d: Seq<u8>) -> Result<(Option<SavedModel>, int), ParseError> {
    match spec_bytes(d, 0, 2) {
        Err(e) => Err(e),
        Ok((sig, p1)) => if sig != seq![0x4Eu8, 0x50u8] {
            Err(ParseError::BadSignature)
        } else {
            match spec_leb(d, p1) {
                Err(e) => Err(e),
                Ok((_, p2)) => match spec_bool(d, p2) {
                    Err(e) => Err(e),
                    Ok((saved, p3)) => match spec_leb(d, p3) {
                        Err(e) => Err(e),
                        Ok((n, p4)) => if saved {
                            match spec_saved(d, p4, n as int) {
                                Err(e) => Err(e),
                                Ok((s, p5)) => Ok((Some(s), p5)),
                            }
                        } else {
                            Ok((None, p4))
                        },
                    },
                },
            }
        },
    }
}

fn read_saved(r: &mut ByteReader, n: u64) -> (res: Result<SavedHeader, ParseError>)
    requires
        old(r).wf(),
    ensures
        final(r).wf(),
        final(r).data == old(r).data,
        match res {
            Ok(s) => spec_saved(old(r).data@, old(r).pos as int, n as int) == Ok::<(SavedModel, int), ParseError>((s@, final(r).pos as int)),
            Err(e) => spec_saved(old(r).data@, old(r).pos as int, n as int) == Err::<(SavedModel, int), ParseError>(e),
        },
{
    let path = r.read_text(n, None, false)?;
    let file_size = r.read_uleb128()?;
    let enc = r.read_u8()?;
    let cr = r.read_u8()?;
    let last_write_time = r.read_uleb128()?;
    let file_hash = r.read_bytes(32)?;
    let _reserved = r.read_bytes(2)?;
    Ok(SavedHeader {
        path,
        file_size,
        encoding: Encoding::from_code(enc),
        cr_type: CRType::from_code(cr),
        last_write_time,
        file_hash,
    })
}

fn read_header(r: &mut ByteReader) -> (res: Result<Option<SavedHeader>, ParseError>)
    requires
        old(r).wf(),
        old(r).pos == 0,
    ensures
        final(r).wf(),
        final(r).data == old(r).data,
        match res {
            Ok(h) => spec_header(old(r).data@) == Ok::<(Option<SavedModel>, int), ParseError>((saved_view(h), final(r).pos as int)),
            Err(e) => spec_header(old(r).data@) == Err::<(Option<SavedModel>, int), ParseError>(e),
        },
{
    let sig = r.read_bytes(2)?;
    if sig[0] != 0x4E || sig[1] != 0x50 {
        assert(sig@ != seq![0x4Eu8, 0x50u8]) by {
            assert(sig@[0] != 0x4Eu8 || sig@[1] != 0x50u8);
        };
        return Err(ParseError::BadSignature);
    }
    assert(sig@ =~= seq![0x4Eu8, 0x50u8]);
    let _seq_number = r.read_uleb128()?;
    let saved = r.read_bool()?;
    let n = r.read_uleb128()?;
    if saved {
        let s = read_saved(r, n)?;
        Ok(Some(s))
    } else {
        Ok(None)
    }
}

/// The block after the header, read the same way for every tab.
pub ghost struct BodyModel {
    pub cursor_a: u64,
    pub cursor_b: u64,
    pub config: ConfigBlock,
    pub content: Seq<char>,
    pub unsaved_flag: bool,
    pub stored_checksum: Seq<u8>,
}

pub struct Body {
    pub cursor_a: u64,
    pub cursor_b: u64,
    pub config: ConfigBlock,
    pub content: Vec<char>,
    pub unsaved_flag: bool,
    pub stored_checksum: Vec<u8>,
}

impl View for Body {
    type V = BodyModel;

    open spec fn view(&self) -> BodyModel {
        BodyModel {
            cursor_a: self.cursor_a,
            cursor_b: self.cursor_b,
            config: self.config,
            content: self.content@,
            unsaved_flag: self.unsaved_flag,
            stored_checksum: self.stored_checksum@,
        }
    }
}

/// The two selection offsets, the configuration record, the LEB128 length of the
/// saved text in UTF-16 units, the text, an unsaved-data flag and a four-byte
/// checksum.
pub open spec fn spec_body(d: Seq<u8>, p: int, enc: Option<Encoding>) -> Result<(BodyModel, int), ParseError> {
    match spec_leb(d, p) {
        Err(e) => Err(e),
        Ok((a, p1)) => match spec_leb(d, p1) {
            Err(e) => Err(e),
            Ok((b, p2)) => match spec_config(d, p2) {
                Err(e) => Err(e),
                Ok((config, p3)) => match spec_leb(d, p3) {
                    Err(e) => Err(e),
                    Ok((n, p4)) => match spec_content(d, p4, n as int, enc) {
                        Err(e) => Err(e),
                        Ok((content, p5)) => match spec_bool(d, p5) {
                            Err(e) => Err(e),
                            Ok((unsaved_flag, p6)) => match spec_bytes(d, p6, 4) {
                                Err(e) => Err(e),
                                Ok((stored_checksum, p7)) => Ok((
                                    BodyModel { cursor_a: a, cursor_b: b, config, content, unsaved_flag, stored_checksum },
                                    p7,
                                )),
                            },
                        },
                    },
                },
            },
        },
    }
}

fn read_body(r: &mut ByteReader, enc: Option<Encoding>) -> (res: Result<Body, ParseError>)
    requires
        old(r).wf(),
    ensures
        final(r).wf(),
        final(r).data == old(r).data,
        match res {
            Ok(b) => spec_body(old(r).data@, old(r).pos as int, enc) == Ok::<(BodyModel, int), ParseError>((b@, final(r).pos as int)),
            Err(e) => spec_body(old(r).data@, old(r).pos as int, enc) == Err::<(BodyModel, int), ParseError>(e),
        },
{
    let cursor_a = r.read_uleb128()?;
    let cursor_b = r.read_uleb128()?;
    let config = ConfigBlock::read(r)?;
    let n = r.read_uleb128()?;
    let content = r.read_content(n, enc)?;
    let unsaved_flag = r.read_bool()?;
    let stored_checksum = r.read_bytes(4)?;
    Ok(Body { cursor_a, cursor_b, config, content, unsaved_flag, stored_checksum })
}

/// A tab as a value: what `TabState` holds, with texts as character sequences.
pub ghost struct TabStateModel {
    pub is_saved_file: bool,
    pub path: Option<Seq<char>>,
    pub file_size: Option<u64>,
    pub encoding: Option<Encoding>,
    pub cr_type: Option<CRType>,
    pub file_hash: Option<Seq<char>>,
    pub cursor_start: Option<u64>,
    pub cursor_end: Option<u64>,
    pub word_wrap: bool,
    pub rtl: bool,
    pub show_unicode: bool,
    pub version: u64,
    pub file_content: Seq<char>,
    pub contain_unsaved_data: bool,
    pub checksum: Seq<char>,
    pub stored_checksum: Seq<char>,
    pub unsaved_chunks_str: Option<Seq<char>>,
    pub chunk_error: Option<ChunkApplyError>,
}

/// The state of one editor tab, read from its tab-state file.
pub struct TabState {
    /// Path of the tab-state file itself, where the caller knows it.
    pub tabstate_path: Option<String>,
    pub is_saved_file: bool,
    /// Path of the file on disk that the tab edits.
    pub path: Option<String>,
    pub file_size: Option<u64>,
    pub encoding: Option<Encoding>,
    pub cr_type: Option<CRType>,
    /// Hash of the file on disk at its last save, in hex.
    pub file_hash: Option<String>,
    pub cursor_start: Option<u64>,
    pub cursor_end: Option<u64>,
    pub word_wrap: bool,
    pub rtl: bool,
    pub show_unicode: bool,
    pub version: u64,
    /// The text as the editor shows it: the saved text with the unsaved edits replayed.
    pub file_content: String,
    /// Whether the file holds at least one unsaved edit.
    pub contain_unsaved_data: bool,
    /// FNV-1a checksum of `file_content`, in hex.
    pub checksum: String,
    /// The checksum stored in the file after the saved text, in hex.
    pub stored_checksum: String,
    /// The raw bytes of the unsaved edits in hex, where there are any.
    pub unsaved_chunks_str: Option<String>,
    /// The first edit that did not fit the text it was replayed on.
    pub chunk_error: Option<ChunkApplyError>,
}

impl View for TabState {
    type V = TabStateModel;

    open spec fn view(&self) -> TabStateModel {
        TabStateModel {
            is_saved_file: self.is_saved_file,
            path: opt_view(self.path),
            file_size: self.file_size,
            encoding: self.encoding,
            cr_type: self.cr_type,
            file_hash: opt_view(self.file_hash),
            cursor_start: self.cursor_start,
            cursor_end: self.cursor_end,
            word_wrap: self.word_wrap,
            rtl: self.rtl,
            show_unicode: self.show_unicode,
            version: self.version,
            file_content: self.file_content@,
            contain_unsaved_data: self.contain_unsaved_data,
            checksum: self.checksum@,
            stored_checksum: self.stored_checksum@,
            unsaved_chunks_str: opt_view(self.unsaved_chunks_str),
            chunk_error: self.chunk_error,
        }
    }
}

pub open spec fn opt_view(s: Option<String>) -> Option<Seq<char>> {
    match s {
        Some(t) => Some(t@),
        None => None,
    }
}

pub open spec fn min_u64(a: u64, b: u64) -> u64 {
    if a <= b { a } else { b }
}

pub open spec fn max_u64(a: u64, b: u64) -> u64 {
    if a <= b { b } else { a }
}

/// Puts the parts of a tab together: the edits `cs` are replayed over the saved
/// text, and `raw` holds the bytes they were read from. An untitled tab with
/// text is stored as UTF-16LE and records no line ending.
pub open spec fn assemble(h: Option<SavedModel>, b: BodyModel, cs: Seq<ChunkModel>, raw: Seq<u8>) -> TabStateModel {
    let (text, err) = replay_model(b.content, cs);
    TabStateModel {
        is_saved_file: h is Some,
        path: match h { Some(s) => Some(s.path), None => None },
        file_size: match h { Some(s) => Some(s.file_size), None => None },
        encoding: match h {
            Some(s) => Some(s.encoding),
            None => if b.content.len() > 0 { Some(Encoding::UTF16LE) } else { None },
        },
        cr_type: match h {
            Some(s) => Some(s.cr_type),
            None => if b.content.len() > 0 { Some(CRType::UNKNOWN(0)) } else { None },
        },
        file_hash: match h { Some(s) => Some(hex_of(s.file_hash)), None => None },
        cursor_start: Some(min_u64(b.cursor_a, b.cursor_b)),
        cursor_end: Some(max_u64(b.cursor_a, b.cursor_b)),
        word_wrap: b.config.word_wrap,
        rtl: b.config.rtl,
        show_unicode: b.config.show_unicode,
        version: b.config.version,
        file_content: text,
        contain_unsaved_data: cs.len() > 0,
        checksum: checksum_of(text),
        stored_checksum: hex_of(b.stored_checksum),
        unsaved_chunks_str: if raw.len() > 0 { Some(hex_of(raw)) } else { None },
        chunk_error: err,
    }
}

pub open spec fn encoding_in(h: Option<SavedModel>) -> Option<Encoding> {
    match h {
        Some(s) => Some(s.encoding),
        None => None,
    }
}

/// A whole tab-state buffer: header, body, then edit records to the end.
pub open spec fn parse_model(d: Seq<u8>) -> Result<TabStateModel, ParseError> {
    match spec_header(d) {
        Err(e) => Err(e),
        Ok((h, p)) => match spec_body(d, p, encoding_in(h)) {
            Err(e) => Err(e),
            Ok((b, q)) => match spec_chunks(d, q, encoding_in(h)) {
                Err(e) => Err(e),
                Ok(cs) => Ok(assemble(h, b, cs, d.subrange(q, d.len() as int))),
            },
        },
    }
}

fn opt_string(v: Option<Vec<char>>) -> (r: Option<String>)
    ensures
        opt_view(r) == match v { Some(x) => Some(x@), None => None::<Seq<char>> },
{
    match v {
        Some(x) => Some(string_of(&x)),
        None => None,
    }
}

impl TabState {
    /// Reads a tab-state file held in memory. An edit that does not fit the text
    /// is no failure: the text built before it is kept and the edit is named in
    /// `chunk_error`.
    ///
    /// The layout is read here rather than through `notepad_parser`: that crate
    /// reports errors as strings without offsets and keeps the fields of its
    /// edit records private, so its records cannot be replayed.
    pub fn from_bytes(data: Vec<u8>) -> (r: Result<TabState, ParseError>)
        ensures
            match r {
                Ok(t) => parse_model(data@) == Ok::<TabStateModel, ParseError>(t@) && t.tabstate_path is None,
                Err(e) => parse_model(data@) == Err::<TabStateModel, ParseError>(e),
            },
    {
        let mut r = ByteReader::new(data);
        let h = read_header(&mut r)?;
        let enc = match &h {
            Some(s) => Some(s.encoding),
            None => None,
        };
        let body = read_body(&mut r, enc)?;
        let start = r.pos;
        let rest = r.remaining();
        let raw = r.read_bytes(rest)?;
        let _ = r.seek(start);
        let chunks = read_chunks(&mut r, enc)?;
        let (text, chunk_error) = replay(&body.content, &chunks);
        let (is_saved_file, path, file_size, encoding, cr_type, file_hash) = match h {
            Some(s) => (true, Some(s.path), Some(s.file_size), Some(s.encoding), Some(s.cr_type), Some(hex_string(&s.file_hash))),
            None => if body.content.len() > 0 {
                (false, None, None, Some(Encoding::UTF16LE), Some(CRType::UNKNOWN(0)), None)
            } else {
                (false, None, None, None, None, None)
            },
        };
        let (cursor_start, cursor_end) = if body.cursor_a <= body.cursor_b {
            (body.cursor_a, body.cursor_b)
        } else {
            (body.cursor_b, body.cursor_a)
        };
        let unsaved_chunks_str = if raw.len() > 0 {
            Some(hex_string(&raw))
        } else {
            None
        };
        let sum = checksum(&text);
        let t = TabState {
            tabstate_path: None,
            is_saved_file,
            path: opt_string(path),
            file_size,
            encoding,
            cr_type,
            file_hash,
            cursor_start: Some(cursor_start),
            cursor_end: Some(cursor_end),
            word_wrap: body.config.word_wrap,
            rtl: body.config.rtl,
            show_unicode: body.config.show_unicode,
            version: body.config.version,
            file_content: string_of(&text),
            contain_unsaved_data: chunks.len() > 0,
            checksum: sum,
            stored_checksum: hex_string(&body.stored_checksum),
            unsaved_chunks_str,
            chunk_error,
        };
        assert(t@.path == assemble(saved_view(h), body@, chunks_view(chunks@), raw@).path);
        assert(t@ == assemble(saved_view(h), body@, chunks_view(chunks@), raw@));
        Ok(t)
    }
}

} // verus!
