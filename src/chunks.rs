use vstd::prelude::*;

use crate::types::{ChunkApplyError, Encoding, ParseError};
use crate::reader::{spec_bytes, spec_content, spec_leb, ByteReader};

verus! {

/// One edit record as a value: at `position`, delete `deletions` characters and
/// insert `data`.
pub ghost struct ChunkModel {
    pub position: u64,
    pub deletions: u64,
    pub additions: u64,
    pub data: Seq<char>,
    pub checksum: Seq<u8>,
}

/// One unsaved edit, as recorded after the last save.
pub struct Chunk {
    pub position: u64,
    pub deletions: u64,
    pub additions: u64,
    pub data: Vec<char>,
    pub checksum: Vec<u8>,
}

impl View for Chunk {
    type V = ChunkModel;

    open spec fn view(&self) -> ChunkModel {
        ChunkModel {
            position: self.position,
            deletions: self.deletions,
            additions: self.additions,
            data: self.data@,
            checksum: self.checksum@,
        }
    }
}

pub open spec fn chunks_view(v: Seq<Chunk>) -> Seq<ChunkModel> {
    v.map_values(|c: Chunk| c@)
}

/// One record at `p`: position, deleted count and inserted count as LEB128
/// numbers, the inserted text in the tab's encoding, and a four-byte checksum.
pub open spec fn spec_chunk(d: Seq<u8>, p: int, enc: Option<Encoding>) -> Result<(ChunkModel, int), ParseError> {
    match spec_leb(d, p) {
        Err(e) => Err(e),
        Ok((position, p1)) => match spec_leb(d, p1) {
            Err(e) => Err(e),
            Ok((deletions, p2)) => match spec_leb(d, p2) {
                Err(e) => Err(e),
                Ok((additions, p3)) => match spec_content(d, p3, additions as int, enc) {
                    Err(e) => Err(e),
                    Ok((data, p4)) => match spec_bytes(d, p4, 4) {
                        Err(e) => Err(e),
                        Ok((checksum, p5)) => Ok(
                            (ChunkModel { position, deletions, additions, data, checksum }, p5),
                        ),
                    },
                },
            },
        },
    }
}

/// Records from `p` to the end of the buffer, in file order.
pub open spec fn spec_chunks(d: Seq<u8>, p: int, enc: Option<Encoding>) -> Result<Seq<ChunkModel>, ParseError>
    decreases d.len() - p,
{
    if p >= d.len() {
        Ok(Seq::empty())
    } else {
        match spec_chunk(d, p, enc) {
            Err(e) => Err(e),
            Ok((c, q)) => if q <= p || q > d.len() {
                Ok(seq![c])
            } else {
                match spec_chunks(d, q, enc) {
                    Ok(cs) => Ok(seq![c] + cs),
                    Err(e) => Err(e),
                }
            },
        }
    }
}

pub open spec fn prepend(a: Seq<ChunkModel>, r: Result<Seq<ChunkModel>, ParseError>) -> Result<Seq<ChunkModel>, ParseError> {
    match r {
        Ok(cs) => Ok(a + cs),
        Err(e) => Err(e),
    }
}

pub fn read_chunk(r: &mut ByteReader, enc: Option<Encoding>) -> (res: Result<Chunk, ParseError>)
    requires
        old(r).wf(),
    ensures
        final(r).wf(),
        final(r).data == old(r).data,
        match res {
            Ok(c) => spec_chunk(old(r).data@, old(r).pos as int, enc) == Ok::<(ChunkModel, int), ParseError>((c@, final(r).pos as int))
                && final(r).pos > old(r).pos,
            Err(e) => spec_chunk(old(r).data@, old(r).pos as int, enc) == Err::<(ChunkModel, int), ParseError>(e),
        },
{
    let position = r.read_uleb128()?;
    let deletions = r.read_uleb128()?;
    let additions = r.read_uleb128()?;
    let data = r.read_content(additions, enc)?;
    let checksum = r.read_bytes(4)?;
    Ok(Chunk { position, deletions, additions, data, checksum })
}

/// Reads edit records until the buffer ends.
pub fn read_chunks(r: &mut ByteReader, enc: Option<Encoding>) -> (res: Result<Vec<Chunk>, ParseError>)
    requires
        old(r).wf(),
    ensures
        final(r).wf(),
        final(r).data == old(r).data,
        match res {
            Ok(v) => spec_chunks(old(r).data@, old(r).pos as int, enc) == Ok::<Seq<ChunkModel>, ParseError>(chunks_view(v@)),
            Err(e) => spec_chunks(old(r).data@, old(r).pos as int, enc) == Err::<Seq<ChunkModel>, ParseError>(e),
        },
{
    let ghost d = r.data@;
    let ghost p0 = r.pos as int;
    let mut out: Vec<Chunk> = Vec::new();
    while r.remaining() > 0
        invariant
            r.wf(),
            r.data == old(r).data,
            r.data@ == d,
            d == old(r).data@,
            p0 == old(r).pos,
            spec_chunks(d, p0, enc) == prepend(chunks_view(out@), spec_chunks(d, r.pos as int, enc)),
        decreases r.data.len() - r.pos,
    {
        let ghost p = r.pos as int;
        let c = match read_chunk(r, enc) {
            Ok(c) => c,
            Err(e) => {
                assert(spec_chunks(d, p, enc) == Err::<Seq<ChunkModel>, ParseError>(e));
                return Err(e);
            },
        };
        assert(spec_chunks(d, p, enc) == prepend(seq![c@], spec_chunks(d, r.pos as int, enc)));
        let ghost prev = out@;
        out.push(c);
        assert(chunks_view(out@) =~= chunks_view(prev) + seq![c@]);
        assert forall|a: Seq<ChunkModel>| chunks_view(out@) + a =~= chunks_view(prev) + (seq![c@] + a) by {}
    }
    assert(chunks_view(out@) + Seq::<ChunkModel>::empty() =~= chunks_view(out@));
    Ok(out)
}

/// The buffer after one edit, or `None` where the edit does not fit it.
pub open spec fn apply(buf: Seq<char>, c: ChunkModel) -> Option<Seq<char>> {
    if c.position <= buf.len() && c.position + c.deletions <= buf.len() {
        Some(buf.take(c.position as int) + c.data + buf.skip(c.position + c.deletions))
    } else {
        None
    }
}

/// The buffer after the first `n` edits in order; where one does not fit, the
/// buffer just before it and its index.
pub open spec fn replay_prefix(base: Seq<char>, cs: Seq<ChunkModel>, n: nat) -> Result<Seq<char>, (Seq<char>, nat)>
    decreases n,
{
    if n == 0 {
        Ok(base)
    } else {
        match replay_prefix(base, cs, (n - 1) as nat) {
            Ok(b) => match apply(b, cs[n - 1]) {
                Some(b2) => Ok(b2),
                None => Err((b, (n - 1) as nat)),
            },
            Err(x) => Err(x),
        }
    }
}

/// The text after every edit, or the text before the first edit that does not
/// fit together with the error that names it.
pub open spec fn replay_model(base: Seq<char>, cs: Seq<ChunkModel>) -> (Seq<char>, Option<ChunkApplyError>) {
    match replay_prefix(base, cs, cs.len()) {
        Ok(b) => (b, None),
        Err((b, i)) => (b, Some(ChunkApplyError {
            index: i as usize,
            offset: cs[i as int].position,
            deleted: cs[i as int].deletions,
            buffer_len: b.len() as usize,
        })),
    }
}

/// Applies one edit: deletes `deletions` characters at `position`, then inserts the chunk's text there.
pub fn apply_chunk(buf: &Vec<char>, c: &Chunk) -> (r: Option<Vec<char>>)
    ensures
        match r {
            Some(v) => apply(buf@, c@) == Some(v@),
            None => apply(buf@, c@) is None,
        },
{
    let len = buf.len();
    if c.position > len as u64 || c.deletions > len as u64 - c.position {
        return None;
    }
    let p = c.position as usize;
    let e = p + c.deletions as usize;
    let mut out: Vec<char> = Vec::new();
    let mut i: usize = 0;
    while i < p
        invariant
            i <= p <= e <= len == buf.len(),
            out@ == buf@.take(i as int),
        decreases p - i,
    {
        out.push(buf[i]);
        i = i + 1;
        assert(out@ =~= buf@.take(i as int));
    }
    let mut j: usize = 0;
    while j < c.data.len()
        invariant
            j <= c.data.len(),
            out@ == buf@.take(p as int) + c.data@.take(j as int),
        decreases c.data.len() - j,
    {
        out.push(c.data[j]);
        j = j + 1;
        assert(out@ =~= buf@.take(p as int) + c.data@.take(j as int));
    }
    assert(c.data@.take(c.data@.len() as int) =~= c.data@);
    let mut k: usize = e;
    while k < len
        invariant
            e <= k <= len == buf.len(),
            out@ == buf@.take(p as int) + c.data@ + buf@.subrange(e as int, k as int),
        decreases len - k,
    {
        out.push(buf[k]);
        k = k + 1;
        assert(out@ =~= buf@.take(p as int) + c.data@ + buf@.subrange(e as int, k as int));
    }
    assert(buf@.subrange(e as int, len as int) =~= buf@.skip(e as int));
    Some(out)
}

/// Replays the edits in file order over `base`; stops at the first edit that
/// does not fit, keeping the text built so far.
pub fn replay(base: &Vec<char>, chunks: &Vec<Chunk>) -> (r: (Vec<char>, Option<ChunkApplyError>))
    ensures
        (r.0@, r.1) == replay_model(base@, chunks_view(chunks@)),
{
    let ghost cs = chunks_view(chunks@);
    let ghost b0 = base@;
    let mut buf = base.clone();
    assert(buf@ =~= b0);
    let mut i: usize = 0;
    while i < chunks.len()
        invariant
            i <= chunks.len(),
            cs == chunks_view(chunks@),
            b0 == base@,
            replay_prefix(b0, cs, i as nat) == Ok::<Seq<char>, (Seq<char>, nat)>(buf@),
        decreases chunks.len() - i,
    {
        assert(cs[i as int] == chunks@[i as int]@);
        match apply_chunk(&buf, &chunks[i]) {
            Some(next) => {
                buf = next;
            },
            None => {
                let err = ChunkApplyError {
                    index: i,
                    offset: chunks[i].position,
                    deleted: chunks[i].deletions,
                    buffer_len: buf.len(),
                };
                proof {
                    lemma_replay_stops(b0, cs, i as nat);
                    assert(replay_prefix(b0, cs, cs.len()) == Err::<Seq<char>, (Seq<char>, nat)>((buf@, i as nat)));
                }
                return (buf, Some(err));
            },
        }
        i = i + 1;
    }
    (buf, None)
}

/// Once an edit does not fit, the replay of all edits ends there, with the text
/// built before it.
pub proof fn lemma_replay_stops(base: Seq<char>, cs: Seq<ChunkModel>, i: nat)
    requires
        i < cs.len(),
        replay_prefix(base, cs, i) is Ok,
        apply(replay_prefix(base, cs, i)->Ok_0, cs[i as int]) is None,
    ensures
        forall|n: nat| i < n <= cs.len() ==> #[trigger] replay_prefix(base, cs, n) == Err::<Seq<char>, (Seq<char>, nat)>(
            (replay_prefix(base, cs, i)->Ok_0, i),
        ),
{
    assert forall|n: nat| i < n <= cs.len() implies #[trigger] replay_prefix(base, cs, n) == Err::<Seq<char>, (Seq<char>, nat)>(
        (replay_prefix(base, cs, i)->Ok_0, i),
    ) by {
        lemma_replay_stops_at(base, cs, i, n);
    }
}

proof fn lemma_replay_stops_at(base: Seq<char>, cs: Seq<ChunkModel>, i: nat, n: nat)
    requires
        i < n <= cs.len(),
        replay_prefix(base, cs, i) is Ok,
        apply(replay_prefix(base, cs, i)->Ok_0, cs[i as int]) is None,
    ensures
        replay_prefix(base, cs, n) == Err::<Seq<char>, (Seq<char>, nat)>((replay_prefix(base, cs, i)->Ok_0, i)),
    decreases n,
{
    if n > i + 1 {
        lemma_replay_stops_at(base, cs, i, (n - 1) as nat);
    }
}

} // verus!
