use vstd::prelude::*;

use crate::chunks::{apply, replay_model, replay_prefix, spec_chunk, spec_chunks, lemma_replay_stops, ChunkModel};
use crate::types::{ChunkApplyError, Encoding, ParseError};
use crate::reader::{cap, leb_from, units_of, spec_bool, spec_bytes, spec_content, spec_leb, spec_text, spec_u8};
use crate::tabstate::{
    encoding_in, parse_model, spec_body, spec_config, spec_header, spec_saved, ConfigBlock, SavedModel, TabStateModel,
};
use crate::text::{utf16_text, utf16_valid};

verus! {

/// An end-of-buffer error names a field that starts inside the buffer and
/// reaches past its end.
pub open spec fn eof_in(d: Seq<u8>, e: ParseError) -> bool {
    match e {
        ParseError::UnexpectedEof { offset, len } => offset <= d.len() && d.len() < offset + len,
        _ => true,
    }
}

/// A read step at `p` either ends within the buffer or fails as `eof_in` says.
pub open spec fn step_ok<T>(d: Seq<u8>, p: int, r: Result<(T, int), ParseError>) -> bool {
    match r {
        Ok((_, q)) => p <= q <= d.len(),
        Err(e) => eof_in(d, e),
    }
}

proof fn lemma_u8(d: Seq<u8>, p: int)
    requires 0 <= p <= d.len() <= usize::MAX,
    ensures step_ok(d, p, spec_u8(d, p)),
{
}

proof fn lemma_bytes(d: Seq<u8>, p: int, n: int)
    requires 0 <= p <= d.len() <= usize::MAX, 0 <= n <= 2 * u64::MAX,
    ensures step_ok(d, p, spec_bytes(d, p, n)),
{
}

proof fn lemma_bool(d: Seq<u8>, p: int)
    requires 0 <= p <= d.len() <= usize::MAX,
    ensures step_ok(d, p, spec_bool(d, p)),
{
}

proof fn lemma_leb_from(d: Seq<u8>, s: int, i: nat)
    requires 0 <= s, s + i <= d.len() <= usize::MAX,
    ensures
        match leb_from(d, s, i) {
            Ok((_, e)) => s < e <= d.len(),
            Err(x) => eof_in(d, x),
        },
    decreases 10 - i,
{
    if i < 10 && s + i < d.len() && d[s + i] >= 128 {
        lemma_leb_from(d, s, i + 1);
    }
}

proof fn lemma_leb(d: Seq<u8>, p: int)
    requires 0 <= p <= d.len() <= usize::MAX,
    ensures step_ok(d, p, spec_leb(d, p)),
{
    lemma_leb_from(d, p, 0);
}

proof fn lemma_text(d: Seq<u8>, p: int, n: int, enc: Option<Encoding>, big: bool)
    requires 0 <= p <= d.len() <= usize::MAX, 0 <= n <= u64::MAX,
    ensures step_ok(d, p, spec_text(d, p, n, enc, big)),
{
    lemma_bytes(d, p, 2 * n);
}

proof fn lemma_content(d: Seq<u8>, p: int, n: int, enc: Option<Encoding>)
    requires 0 <= p <= d.len() <= usize::MAX, 0 <= n <= u64::MAX,
    ensures step_ok(d, p, spec_content(d, p, n, enc)),
{
    lemma_bytes(d, p, n);
    lemma_text(d, p, n, enc, true);
    lemma_text(d, p, n, enc, false);
}

proof fn lemma_chunk(d: Seq<u8>, p: int, enc: Option<Encoding>)
    requires 0 <= p <= d.len() <= usize::MAX,
    ensures step_ok(d, p, spec_chunk(d, p, enc)),
{
    lemma_leb(d, p);
    if let Ok((_, p1)) = spec_leb(d, p) {
        lemma_leb(d, p1);
        if let Ok((_, p2)) = spec_leb(d, p1) {
            lemma_leb(d, p2);
            if let Ok((a, p3)) = spec_leb(d, p2) {
                lemma_content(d, p3, a as int, enc);
                if let Ok((_, p4)) = spec_content(d, p3, a as int, enc) {
                    lemma_bytes(d, p4, 4);
                }
            }
        }
    }
}

proof fn lemma_chunks(d: Seq<u8>, p: int, enc: Option<Encoding>)
    requires 0 <= p <= d.len() <= usize::MAX,
    ensures
        match spec_chunks(d, p, enc) {
            Ok(_) => true,
            Err(e) => eof_in(d, e),
        },
    decreases d.len() - p,
{
    if p < d.len() {
        lemma_chunk(d, p, enc);
        if let Ok((_, q)) = spec_chunk(d, p, enc) {
            if p < q <= d.len() {
                lemma_chunks(d, q, enc);
            }
        }
    }
}

proof fn lemma_config(d: Seq<u8>, p: int)
    requires 0 <= p <= d.len() <= usize::MAX,
    ensures step_ok(d, p, spec_config(d, p)),
{
    lemma_bool(d, p);
    if let Ok((_, p1)) = spec_bool(d, p) {
        lemma_bool(d, p1);
        if let Ok((_, p2)) = spec_bool(d, p1) {
            lemma_bool(d, p2);
            if let Ok((_, p3)) = spec_bool(d, p2) {
                lemma_leb(d, p3);
                if let Ok((_, p4)) = spec_leb(d, p3) {
                    lemma_bytes(d, p4, 2);
                }
            }
        }
    }
}

proof fn lemma_saved(d: Seq<u8>, p: int, n: int)
    requires 0 <= p <= d.len() <= usize::MAX, 0 <= n <= u64::MAX,
    ensures step_ok(d, p, spec_saved(d, p, n)),
{
    lemma_text(d, p, n, None, false);
    if let Ok((_, p1)) = spec_text(d, p, n, None, false) {
        lemma_leb(d, p1);
        if let Ok((_, p2)) = spec_leb(d, p1) {
            lemma_u8(d, p2);
            if let Ok((_, p3)) = spec_u8(d, p2) {
                lemma_u8(d, p3);
                if let Ok((_, p4)) = spec_u8(d, p3) {
                    lemma_leb(d, p4);
                    if let Ok((_, p5)) = spec_leb(d, p4) {
                        lemma_bytes(d, p5, 32);
                        if let Ok((_, p6)) = spec_bytes(d, p5, 32) {
                            lemma_bytes(d, p6, 2);
                        }
                    }
                }
            }
        }
    }
}

proof fn lemma_header(d: Seq<u8>)
    requires d.len() <= usize::MAX,
    ensures step_ok(d, 0, spec_header(d)),
{
    lemma_bytes(d, 0, 2);
    if let Ok((_, p1)) = spec_bytes(d, 0, 2) {
        lemma_leb(d, p1);
        if let Ok((_, p2)) = spec_leb(d, p1) {
            lemma_bool(d, p2);
            if let Ok((_, p3)) = spec_bool(d, p2) {
                lemma_leb(d, p3);
                if let Ok((n, p4)) = spec_leb(d, p3) {
                    lemma_saved(d, p4, n as int);
                }
            }
        }
    }
}

proof fn lemma_body(d: Seq<u8>, p: int, enc: Option<Encoding>)
    requires 0 <= p <= d.len() <= usize::MAX,
    ensures step_ok(d, p, spec_body(d, p, enc)),
{
    lemma_leb(d, p);
    if let Ok((_, p1)) = spec_leb(d, p) {
        lemma_leb(d, p1);
        if let Ok((_, p2)) = spec_leb(d, p1) {
            lemma_config(d, p2);
            if let Ok((_, p3)) = spec_config(d, p2) {
                lemma_leb(d, p3);
                if let Ok((n, p4)) = spec_leb(d, p3) {
                    lemma_content(d, p4, n as int, enc);
                    if let Ok((_, p5)) = spec_content(d, p4, n as int, enc) {
                        lemma_bool(d, p5);
                        if let Ok((_, p6)) = spec_bool(d, p5) {
                            lemma_bytes(d, p6, 4);
                        }
                    }
                }
            }
        }
    }
}

/// Where a buffer is refused for ending early, the field that the error names
/// starts inside the buffer and reaches past its end.
pub proof fn lemma_truncation_offset(d: Seq<u8>)
    requires
        d.len() <= usize::MAX,
    ensures
        parse_model(d) matches Err(e) ==> eof_in(d, e),
{
    lemma_header(d);
    if let Ok((h, p)) = spec_header(d) {
        let enc = encoding_in(h);
        lemma_body(d, p, enc);
        if let Ok((_, q)) = spec_body(d, p, enc) {
            lemma_chunks(d, q, enc);
        }
    }
}

/// Reading is a function of the bytes alone: equal buffers give equal results.
pub proof fn lemma_parse_deterministic(a: Seq<u8>, b: Seq<u8>)
    requires
        a == b,
    ensures
        parse_model(a) == parse_model(b),
{
}

/// A buffer whose first two bytes are not the magic `NP` is refused as a bad
/// signature, whatever follows.
pub proof fn lemma_bad_signature(d: Seq<u8>)
    requires
        d.len() >= 2,
        d[0] != 0x4E || d[1] != 0x50,
    ensures
        parse_model(d) == Err::<TabStateModel, ParseError>(ParseError::BadSignature),
{
    assert(d.subrange(0, 2) != seq![0x4Eu8, 0x50u8]) by {
        assert(d.subrange(0, 2)[0] == d[0] && d.subrange(0, 2)[1] == d[1]);
    };
}

/// An edit whose offset lies past the end of the text it is replayed on stops
/// the replay: the text built by the edits before it is kept, and the error
/// names the edit, its offset and the length of that text.
pub proof fn lemma_out_of_range_chunk(base: Seq<char>, cs: Seq<ChunkModel>, i: nat, b: Seq<char>)
    requires
        i < cs.len(),
        replay_prefix(base, cs, i) == Ok::<Seq<char>, (Seq<char>, nat)>(b),
        cs[i as int].position > b.len(),
        b.len() <= usize::MAX,
        i <= usize::MAX,
    ensures
        replay_model(base, cs) == (b, Some(ChunkApplyError {
            index: i as usize,
            offset: cs[i as int].position,
            deleted: cs[i as int].deletions,
            buffer_len: b.len() as usize,
        })),
{
    assert(apply(b, cs[i as int]) is None);
    lemma_replay_stops(base, cs, i);
    assert(replay_prefix(base, cs, cs.len()) == Err::<Seq<char>, (Seq<char>, nat)>((b, i)));
}

/// Bytes per unit of text in the encoding `enc`.
pub open spec fn unit_width(enc: Option<Encoding>) -> int {
    match enc {
        Some(Encoding::ANSI) | Some(Encoding::UTF8) | Some(Encoding::UTF8BOM) => 1,
        _ => 2,
    }
}

/// A file whose header, selection offsets and configuration record are whole,
/// and whose saved text declares `n` units that run past the end of the buffer,
/// is refused with an end-of-buffer error at the start of that text, asking for
/// the bytes it declares.
pub proof fn lemma_truncated_content(
    d: Seq<u8>,
    h: Option<SavedModel>,
    p: int,
    a: u64,
    p1: int,
    b: u64,
    p2: int,
    c: ConfigBlock,
    p3: int,
    n: u64,
    p4: int,
)
    requires
        d.len() <= usize::MAX,
        spec_header(d) == Ok::<(Option<SavedModel>, int), ParseError>((h, p)),
        spec_leb(d, p) == Ok::<(u64, int), ParseError>((a, p1)),
        spec_leb(d, p1) == Ok::<(u64, int), ParseError>((b, p2)),
        spec_config(d, p2) == Ok::<(ConfigBlock, int), ParseError>((c, p3)),
        spec_leb(d, p3) == Ok::<(u64, int), ParseError>((n, p4)),
        p4 + unit_width(encoding_in(h)) * n > d.len(),
    ensures
        parse_model(d) == Err::<TabStateModel, ParseError>(
            ParseError::UnexpectedEof { offset: p4 as usize, len: (unit_width(encoding_in(h)) * n) as u128 },
        ),
{
    lemma_header(d);
    lemma_leb(d, p);
    lemma_leb(d, p1);
    lemma_config(d, p2);
    lemma_leb(d, p3);
}

/// The LEB128 encoding of `v`: seven bits per byte, low bits first.
pub open spec fn leb_bytes(v: nat) -> Seq<u8>
    decreases v,
{
    if v < 128 {
        seq![v as u8]
    } else {
        seq![((v % 128) + 128) as u8] + leb_bytes(v / 128)
    }
}

proof fn lemma_leb_bytes_len(v: nat, k: nat)
    requires
        k >= 1,
        v < cap(k),
    ensures
        leb_bytes(v).len() <= k,
    decreases v,
{
    if v >= 128 {
        assert(k >= 2) by {
            if k == 1 {
                reveal_with_fuel(cap, 2);
            }
        };
        assert(cap(k) == 128 * cap((k - 1) as nat));
        assert(v / 128 < cap((k - 1) as nat));
        lemma_leb_bytes_len(v / 128, (k - 1) as nat);
    }
}

proof fn lemma_leb_decode(d: Seq<u8>, s: int, i: nat, v: nat)
    requires
        0 <= s,
        i + leb_bytes(v).len() <= 10,
        s + i + leb_bytes(v).len() <= d.len(),
        d.subrange(s + i, s + i + leb_bytes(v).len()) == leb_bytes(v),
    ensures
        leb_from(d, s, i) == Ok::<(nat, int), ParseError>((v, s + i + leb_bytes(v).len())),
    decreases v,
{
    assert(d[s + i] == leb_bytes(v)[0]);
    if v >= 128 {
        let t = leb_bytes(v / 128);
        assert(d.subrange(s + i + 1, s + i + 1 + t.len()) =~= t) by {
            assert forall|j: int| 0 <= j < t.len() implies d.subrange(s + i + 1, s + i + 1 + t.len())[j] == t[j] by {
                assert(d.subrange(s + i, s + i + leb_bytes(v).len())[j + 1] == leb_bytes(v)[j + 1]);
            };
        };
        lemma_leb_decode(d, s, i + 1, v / 128);
    }
}

proof fn lemma_leb_at(d: Seq<u8>, p: int, v: u64)
    requires
        0 <= p,
        p + leb_bytes(v as nat).len() <= d.len(),
        d.subrange(p, p + leb_bytes(v as nat).len()) == leb_bytes(v as nat),
    ensures
        spec_leb(d, p) == Ok::<(u64, int), ParseError>((v, p + leb_bytes(v as nat).len())),
{
    crate::reader::lemma_cap_ten();
    lemma_leb_bytes_len(v as nat, 10);
    lemma_leb_decode(d, p, 0, v as nat);
}

/// Little-endian bytes of UTF-16 units.
pub open spec fn le_bytes(u: Seq<u16>) -> Seq<u8> {
    Seq::new(2 * u.len(), |j: int| if j % 2 == 0 { (u[j / 2] % 256) as u8 } else { (u[j / 2] / 256) as u8 })
}

pub open spec fn flag(b: bool) -> u8 {
    if b { 1 } else { 0 }
}

/// An untitled tab with no edits: the magic, sequence number, the cleared
/// saved-file flag and path length, the selection offsets, the configuration
/// record, the text as UTF-16LE units, the unsaved-data flag and the checksum.
pub open spec fn untitled_bytes(
    seq_number: u64,
    path_size: u64,
    a: u64,
    b: u64,
    config: ConfigBlock,
    reserved: Seq<u8>,
    units: Seq<u16>,
    stored: Seq<u8>,
) -> Seq<u8> {
    seq![0x4Eu8, 0x50u8] + leb_bytes(seq_number as nat) + seq![0u8] + leb_bytes(path_size as nat)
        + leb_bytes(a as nat) + leb_bytes(b as nat)
        + seq![flag(config.word_wrap), flag(config.rtl), flag(config.show_unicode)]
        + leb_bytes(config.version as nat) + reserved
        + leb_bytes(units.len()) + le_bytes(units) + seq![0u8] + stored
}

proof fn lemma_field(d: Seq<u8>, x: Seq<u8>, y: Seq<u8>)
    requires
        x.len() + y.len() <= d.len(),
        d.subrange(0, (x.len() + y.len()) as int) == x + y,
    ensures
        d.subrange(x.len() as int, (x.len() + y.len()) as int) == y,
        d.subrange(0, x.len() as int) == x,
{
    let n = (x.len() + y.len()) as int;
    assert forall|j: int| 0 <= j < y.len() implies d[x.len() + j] == y[j] by {
        let k = x.len() + j;
        assert(d.subrange(0, n)[k] == d[k]);
        assert((x + y)[k] == y[j]);
    };
    assert forall|j: int| 0 <= j < x.len() implies d[j] == x[j] by {
        assert(d.subrange(0, n)[j] == d[j]);
        assert((x + y)[j] == x[j]);
    };
    assert(d.subrange(x.len() as int, (x.len() + y.len()) as int) =~= y);
    assert(d.subrange(0, x.len() as int) =~= x);
}

proof fn lemma_units_round(u: Seq<u16>)
    ensures
        units_of(le_bytes(u), false) == u,
{
    let b = le_bytes(u);
    assert forall|i: int| 0 <= i < u.len() implies #[trigger] units_of(b, false)[i] == u[i] by {
        assert((2 * i) % 2 == 0 && (2 * i) / 2 == i);
        assert((2 * i + 1) % 2 == 1 && (2 * i + 1) / 2 == i);
        assert(b[2 * i] == (u[i] % 256) as u8);
        assert(b[2 * i + 1] == (u[i] / 256) as u8);
    };
    assert(units_of(b, false) =~= u);
}

proof fn lemma_content_read(d: Seq<u8>, q: int, u: Seq<u16>)
    requires
        0 <= q,
        q + 2 * u.len() <= d.len(),
        d.subrange(q, q + 2 * u.len()) == le_bytes(u),
        utf16_valid(u),
    ensures
        spec_content(d, q, u.len() as int, None) == Ok::<(Seq<char>, int), ParseError>((utf16_text(u), q + 2 * u.len())),
{
    lemma_units_round(u);
}

proof fn lemma_header_read(d: Seq<u8>, q1: int, q3: int)
    requires
        spec_bytes(d, 0, 2) == Ok::<(Seq<u8>, int), ParseError>((seq![0x4Eu8, 0x50u8], 2)),
        spec_leb(d, 2) matches Ok((_, e)) && e == q1,
        0 <= q1 < d.len(),
        d[q1] == 0,
        spec_leb(d, q1 + 1) matches Ok((_, e)) && e == q3,
    ensures
        spec_header(d) == Ok::<(Option<SavedModel>, int), ParseError>((None, q3)),
{
}

proof fn lemma_byte_at(d: Seq<u8>, x: int, y: Seq<u8>, j: int)
    requires
        0 <= x,
        0 <= j < y.len(),
        x + y.len() <= d.len(),
        d.subrange(x, x + y.len()) == y,
    ensures
        d[x + j] == y[j],
{
    assert(d.subrange(x, x + y.len())[j] == d[x + j]);
}

proof fn lemma_config_read(d: Seq<u8>, q: int, c: ConfigBlock, r: int)
    requires
        0 <= q,
        q + 3 <= d.len(),
        d[q] == flag(c.word_wrap),
        d[q + 1] == flag(c.rtl),
        d[q + 2] == flag(c.show_unicode),
        spec_leb(d, q + 3) == Ok::<(u64, int), ParseError>((c.version, r)),
        r + 2 <= d.len(),
    ensures
        spec_config(d, q) matches Ok((_, e)) && e == r + 2,
{
}

proof fn lemma_body_read(d: Seq<u8>, q0: int, a: u64, b: u64, q2: int, q3: int, n: u64, q4: int, txt: Seq<char>, q5: int)
    requires
        0 <= q0,
        spec_leb(d, q0) matches Ok((v, q1)) && v == a && spec_leb(d, q1) == Ok::<(u64, int), ParseError>((b, q2)),
        spec_config(d, q2) matches Ok((_, e)) && e == q3,
        spec_leb(d, q3) == Ok::<(u64, int), ParseError>((n, q4)),
        spec_content(d, q4, n as int, None) == Ok::<(Seq<char>, int), ParseError>((txt, q5)),
        0 <= q5 && q5 + 5 == d.len(),
        d[q5] == 0,
    ensures
        spec_body(d, q0, None) matches Ok((m, e)) && e == d.len() && m.cursor_a == a && m.cursor_b == b && m.content == txt,
{
}

proof fn lemma_assembled(d: Seq<u8>, p: int, txt: Seq<char>, a: u64, b: u64)
    requires
        spec_header(d) == Ok::<(Option<SavedModel>, int), ParseError>((None, p)),
        spec_body(d, p, None) matches Ok((m, e)) && e == d.len() && m.cursor_a == a && m.cursor_b == b && m.content == txt,
    ensures
        parse_model(d) matches Ok(t)
            && t.file_content == txt
            && !t.contain_unsaved_data
            && !t.is_saved_file
            && t.cursor_start == Some(if a <= b { a } else { b })
            && t.cursor_end == Some(if a <= b { b } else { a })
            && t.chunk_error is None
            && t.unsaved_chunks_str is None,
{
    assert(spec_chunks(d, d.len() as int, None) == Ok::<Seq<ChunkModel>, ParseError>(Seq::empty()));
    assert(replay_prefix(txt, Seq::<ChunkModel>::empty(), 0) == Ok::<Seq<char>, (Seq<char>, nat)>(txt));
}

/// Reading back an untitled tab with no edits gives the text that was written,
/// the selection ordered, no unsaved changes, no edit error and no edit dump.
#[verifier::rlimit(100)]
pub proof fn lemma_round_trip(
    seq_number: u64,
    path_size: u64,
    a: u64,
    b: u64,
    config: ConfigBlock,
    reserved: Seq<u8>,
    units: Seq<u16>,
    stored: Seq<u8>,
)
    requires
        reserved.len() == 2,
        stored.len() == 4,
        units.len() <= u64::MAX,
        utf16_valid(units),
        untitled_bytes(seq_number, path_size, a, b, config, reserved, units, stored).len() <= usize::MAX,
    ensures
        parse_model(untitled_bytes(seq_number, path_size, a, b, config, reserved, units, stored)) matches Ok(t)
            && t.file_content == utf16_text(units)
            && !t.contain_unsaved_data
            && !t.is_saved_file
            && t.cursor_start == Some(if a <= b { a } else { b })
            && t.cursor_end == Some(if a <= b { b } else { a })
            && t.chunk_error is None
            && t.unsaved_chunks_str is None,
{
    let d = untitled_bytes(seq_number, path_size, a, b, config, reserved, units, stored);
    let e1 = leb_bytes(seq_number as nat);
    let e2 = leb_bytes(path_size as nat);
    let e3 = leb_bytes(a as nat);
    let e4 = leb_bytes(b as nat);
    let fl = seq![flag(config.word_wrap), flag(config.rtl), flag(config.show_unicode)];
    let e5 = leb_bytes(config.version as nat);
    let e6 = leb_bytes(units.len());
    let t = le_bytes(units);
    let z = seq![0u8];
    let x0 = seq![0x4Eu8, 0x50u8];
    let x1 = x0 + e1;
    let x2 = x1 + z;
    let x3 = x2 + e2;
    let x4 = x3 + e3;
    let x5 = x4 + e4;
    let x6 = x5 + fl;
    let x7 = x6 + e5;
    let x8 = x7 + reserved;
    let x9 = x8 + e6;
    let x10 = x9 + t;
    let x11 = x10 + z;
    assert(d =~= x11 + stored);
    assert(d.subrange(0, d.len() as int) =~= x11 + stored);
    lemma_field(d, x11, stored);
    lemma_field(d, x10, z);
    lemma_field(d, x9, t);
    lemma_field(d, x8, e6);
    lemma_field(d, x7, reserved);
    lemma_field(d, x6, e5);
    lemma_field(d, x5, fl);
    lemma_field(d, x4, e4);
    lemma_field(d, x3, e3);
    lemma_field(d, x2, e2);
    lemma_field(d, x1, z);
    lemma_field(d, x0, e1);
    lemma_field(d, Seq::empty(), x0);
    assert(Seq::<u8>::empty() + x0 =~= x0);
    assert(d.subrange(0, 2) == x0);
    lemma_leb_at(d, x0.len() as int, seq_number);
    lemma_leb_at(d, x2.len() as int, path_size);
    lemma_leb_at(d, x3.len() as int, a);
    lemma_leb_at(d, x4.len() as int, b);
    lemma_leb_at(d, x6.len() as int, config.version);
    lemma_leb_at(d, x8.len() as int, units.len() as u64);
    lemma_byte_at(d, x1.len() as int, z, 0);
    lemma_byte_at(d, x5.len() as int, fl, 0);
    lemma_byte_at(d, x5.len() as int, fl, 1);
    lemma_byte_at(d, x5.len() as int, fl, 2);
    lemma_byte_at(d, x10.len() as int, z, 0);
    lemma_header_read(d, x1.len() as int, x3.len() as int);
    lemma_content_read(d, x9.len() as int, units);
    lemma_config_read(d, x5.len() as int, config, x7.len() as int);
    lemma_body_read(d, x3.len() as int, a, b, x5.len() as int, x8.len() as int, units.len() as u64, x9.len() as int, utf16_text(units), x10.len() as int);
    lemma_assembled(d, x3.len() as int, utf16_text(units), a, b);
}

} // verus!
