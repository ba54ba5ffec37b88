use vstd::prelude::*;

use crate::chunk::{be32, chunk_bytes, crc_of, lemma_read_be32, parse_chunk_prefix, push_all, read_be32, Chunk, ChunkView};
use crate::chunk_type::{type_text, ChunkType};
use crate::error::PngError;

verus! {

/// The eight bytes that open every PNG file.
pub open spec fn png_signature() -> Seq<u8> {
    seq![137u8, 80u8, 78u8, 71u8, 13u8, 10u8, 26u8, 10u8]
}

/// `cs` put before the chunks of `r`, or the error of `r`.
pub open spec fn prepend(cs: Seq<ChunkView>, r: Result<Seq<ChunkView>, PngError>) -> Result<Seq<ChunkView>, PngError> {
    match r {
        Ok(rest) => Ok(cs + rest),
        Err(e) => Err(e),
    }
}

/// Reads `s` as a run of whole chunks.
pub open spec fn parse_chunks(s: Seq<u8>) -> Result<Seq<ChunkView>, PngError>
    decreases s.len(),
{
    if s.len() == 0 {
        Ok(seq![])
    } else {
        match parse_chunk_prefix(s) {
            Ok((c, n)) => if 0 < n <= s.len() {
                prepend(seq![c], parse_chunks(s.skip(n)))
            } else {
                Err(PngError::Truncated)
            },
            Err(e) => Err(e),
        }
    }
}

/// Reads a whole file: the signature, then chunks to the end.
pub open spec fn parse_png(b: Seq<u8>) -> Result<Seq<ChunkView>, PngError> {
    if b.len() < 8 || b.take(8) != png_signature() {
        Err(PngError::BadSignature)
    } else {
        parse_chunks(b.skip(8))
    }
}

/// The bytes of a run of chunks, one after the other.
pub open spec fn chunks_bytes(cs: Seq<ChunkView>) -> Seq<u8>
    decreases cs.len(),
{
    if cs.len() == 0 {
        seq![]
    } else {
        chunk_bytes(cs[0]) + chunks_bytes(cs.drop_first())
    }
}

/// The bytes of a file: the signature, then each chunk.
pub open spec fn png_bytes(cs: Seq<ChunkView>) -> Seq<u8> {
    png_signature() + chunks_bytes(cs)
}

/// The chunk has the type whose text is `t`.
pub open spec fn has_type(c: ChunkView, t: Seq<char>) -> bool {
    type_text(c.0) == t
}

/// Index of the first chunk of type `t`.
pub open spec fn first_match(cs: Seq<ChunkView>, t: Seq<char>) -> Option<int>
    decreases cs.len(),
{
    if cs.len() == 0 {
        None
    } else if has_type(cs[0], t) {
        Some(0)
    } else {
        match first_match(cs.drop_first(), t) {
            Some(i) => Some(i + 1),
            None => None,
        }
    }
}

/// The chunks of type `t`, in order.
pub open spec fn matching(cs: Seq<ChunkView>, t: Seq<char>) -> Seq<ChunkView>
    decreases cs.len(),
{
    if cs.len() == 0 {
        seq![]
    } else if has_type(cs.last(), t) {
        matching(cs.drop_last(), t).push(cs.last())
    } else {
        matching(cs.drop_last(), t)
    }
}

/// The chunks whose type is not `t`, in order.
pub open spec fn without(cs: Seq<ChunkView>, t: Seq<char>) -> Seq<ChunkView>
    decreases cs.len(),
{
    if cs.len() == 0 {
        seq![]
    } else if has_type(cs[0], t) {
        without(cs.drop_first(), t)
    } else {
        seq![cs[0]] + without(cs.drop_first(), t)
    }
}

proof fn lemma_without_remove(cs: Seq<ChunkView>, t: Seq<char>)
    ensures
        match first_match(cs, t) {
            Some(i) => 0 <= i < cs.len() && without(cs.remove(i), t) == without(cs, t),
            None => without(cs, t) == cs,
        },
    decreases cs.len(),
{
    if cs.len() > 0 {
        let rest = cs.drop_first();
        lemma_without_remove(rest, t);
        if has_type(cs[0], t) {
            assert(cs.remove(0) =~= rest);
        } else {
            match first_match(rest, t) {
                Some(i) => {
                    assert(cs.remove(i + 1) =~= seq![cs[0]] + rest.remove(i));
                    assert((seq![cs[0]] + rest.remove(i)).drop_first() =~= rest.remove(i));
                },
                None => {
                    assert(cs =~= seq![cs[0]] + rest);
                },
            }
        }
    }
}

pub open spec fn views(v: Seq<Chunk>) -> Seq<ChunkView> {
    v.map_values(|c: Chunk| c@)
}

pub open spec fn ref_views(v: Seq<&Chunk>) -> Seq<ChunkView> {
    v.map_values(|c: &Chunk| c@)
}

proof fn lemma_first_match(cs: Seq<ChunkView>, t: Seq<char>, i: int)
    requires
        0 <= i <= cs.len(),
        forall|j: int| 0 <= j < i ==> !has_type(#[trigger] cs[j], t),
        i < cs.len() ==> has_type(cs[i], t),
    ensures
        first_match(cs, t) == (if i < cs.len() { Some(i) } else { None::<int> }),
    decreases cs.len(),
{
    if cs.len() > 0 && i > 0 {
        let rest = cs.drop_first();
        assert forall|j: int| 0 <= j < i - 1 implies !has_type(#[trigger] rest[j], t) by {
            assert(rest[j] == cs[j + 1]);
        }
        lemma_first_match(rest, t, i - 1);
    }
}

proof fn lemma_chunks_bytes_push(cs: Seq<ChunkView>, c: ChunkView)
    ensures
        chunks_bytes(cs.push(c)) == chunks_bytes(cs) + chunk_bytes(c),
    decreases cs.len(),
{
    if cs.len() == 0 {
        assert(cs.push(c).drop_first() =~= seq![]);
        assert(chunks_bytes(cs.push(c).drop_first()) == Seq::<u8>::empty());
        assert(chunks_bytes(cs.push(c)) =~= chunk_bytes(c));
    } else {
        assert(cs.push(c).drop_first() =~= cs.drop_first().push(c));
        lemma_chunks_bytes_push(cs.drop_first(), c);
        assert(chunks_bytes(cs.push(c)) =~= chunks_bytes(cs) + chunk_bytes(c));
    }
}

proof fn lemma_prefix_bytes(s: Seq<u8>)
    requires
        parse_chunk_prefix(s) is Ok,
    ensures
        12 <= parse_chunk_prefix(s)->Ok_0.1 <= s.len(),
        chunk_bytes(parse_chunk_prefix(s)->Ok_0.0) == s.take(parse_chunk_prefix(s)->Ok_0.1),
{
    reveal(parse_chunk_prefix);
    let (c, n) = parse_chunk_prefix(s)->Ok_0;
    let len = read_be32(s) as int;
    lemma_read_be32(s);
    lemma_read_be32(s.subrange(8 + len, 12 + len));
    assert(c.1.len() == len);
    assert(be32(c.1.len() as u32) =~= s.take(4));
    assert(be32(crc_of(c.0, c.1)) =~= s.subrange(8 + len, 12 + len));
    assert(chunk_bytes(c) =~= s.take(n));
}

proof fn lemma_parse_chunks_bytes(s: Seq<u8>)
    requires
        parse_chunks(s) is Ok,
    ensures
        chunks_bytes(parse_chunks(s)->Ok_0) == s,
    decreases s.len(),
{
    if s.len() > 0 {
        let p = parse_chunk_prefix(s);
        assert(p is Ok);
        let c = p->Ok_0.0;
        let n = p->Ok_0.1;
        lemma_prefix_bytes(s);
        let tail = s.skip(n);
        let rest = parse_chunks(tail);
        assert(parse_chunks(s) == prepend(seq![c], rest));
        assert(rest is Ok);
        lemma_parse_chunks_bytes(tail);
        let cs = parse_chunks(s)->Ok_0;
        assert(cs == seq![c] + rest->Ok_0);
        assert(cs[0] == c);
        assert(cs.drop_first() =~= rest->Ok_0);
        assert(chunks_bytes(cs) == chunk_bytes(c) + chunks_bytes(rest->Ok_0));
        assert(s =~= s.take(n) + tail);
    }
}

proof fn lemma_prefix_extend(s: Seq<u8>, t: Seq<u8>)
    requires
        parse_chunk_prefix(s) is Ok,
    ensures
        parse_chunk_prefix(s + t) == parse_chunk_prefix(s),
{
    reveal(parse_chunk_prefix);
    let u = s + t;
    let n = read_be32(s) as int;
    assert(u[0] == s[0] && u[1] == s[1] && u[2] == s[2] && u[3] == s[3]);
    assert(u.subrange(4, 8) =~= s.subrange(4, 8));
    assert(u.subrange(8, 8 + n) =~= s.subrange(8, 8 + n));
    assert(u.subrange(8 + n, 12 + n) =~= s.subrange(8 + n, 12 + n));
}

proof fn lemma_prepend_assoc(a: Seq<ChunkView>, b: Seq<ChunkView>, r: Result<Seq<ChunkView>, PngError>)
    ensures
        prepend(a + b, r) == prepend(a, prepend(b, r)),
{
    match r {
        Ok(x) => {
            assert((a + b) + x =~= a + (b + x));
        },
        Err(_) => {},
    }
}

proof fn lemma_parse_chunks_append(pre: Seq<u8>, t: Seq<u8>)
    requires
        parse_chunks(pre) is Ok,
    ensures
        parse_chunks(pre + t) == prepend(parse_chunks(pre)->Ok_0, parse_chunks(t)),
    decreases pre.len(),
{
    if pre.len() == 0 {
        assert(pre + t =~= t);
        assert(parse_chunks(pre)->Ok_0 =~= Seq::<ChunkView>::empty());
        lemma_prepend_assoc(seq![], seq![], parse_chunks(t));
        match parse_chunks(t) {
            Ok(x) => {
                assert(Seq::<ChunkView>::empty() + x =~= x);
            },
            Err(_) => {},
        }
    } else {
        let p = parse_chunk_prefix(pre);
        let c = p->Ok_0.0;
        let n = p->Ok_0.1;
        lemma_prefix_bytes(pre);
        lemma_prefix_extend(pre, t);
        let tail = pre.skip(n);
        assert((pre + t).skip(n) =~= tail + t);
        assert(parse_chunks(pre) == prepend(seq![c], parse_chunks(tail)));
        lemma_parse_chunks_append(tail, t);
        let rest = parse_chunks(tail)->Ok_0;
        assert(parse_chunks(pre + t) == prepend(seq![c], parse_chunks(tail + t)));
        lemma_prepend_assoc(seq![c], rest, parse_chunks(t));
    }
}

/// A buffer that does not open with the PNG signature is refused as such,
/// whatever follows.
pub proof fn lemma_bad_signature(b: Seq<u8>)
    requires
        b.len() < 8 || b.take(8) != png_signature(),
    ensures
        parse_png(b) == Err::<Seq<ChunkView>, PngError>(PngError::BadSignature),
{
}

/// After the signature and whole chunks, a last piece shorter than a chunk's fixed
/// part, or shorter than its declared length asks, makes the file truncated.
pub proof fn lemma_truncated(pre: Seq<u8>, t: Seq<u8>)
    requires
        parse_chunks(pre) is Ok,
        t.len() > 0,
        t.len() < 12 || t.len() < 12 + read_be32(t),
    ensures
        parse_png(png_signature() + pre + t) == Err::<Seq<ChunkView>, PngError>(PngError::Truncated),
{
    reveal(parse_chunk_prefix);
    let b = png_signature() + pre + t;
    assert(b.take(8) =~= png_signature());
    assert(b.skip(8) =~= pre + t);
    assert(parse_chunk_prefix(t) == Err::<(ChunkView, int), PngError>(PngError::Truncated));
    assert(parse_chunks(t) == Err::<Seq<ChunkView>, PngError>(PngError::Truncated));
    lemma_parse_chunks_append(pre, t);
}

/// Reading a file and writing it back gives the same bytes.
pub proof fn lemma_png_round_trip(b: Seq<u8>)
    requires
        parse_png(b) is Ok,
    ensures
        png_bytes(parse_png(b)->Ok_0) == b,
{
    let rest = b.skip(8);
    assert(parse_png(b) == parse_chunks(rest));
    lemma_parse_chunks_bytes(rest);
    let cs = parse_chunks(rest)->Ok_0;
    assert(chunks_bytes(cs) == rest);
    assert(b.take(8) == png_signature());
    assert(png_bytes(cs) == b.take(8) + rest);
    assert(b =~= b.take(8) + rest);
}

/// A chunk appended to a file without chunks of its type is the first of its type,
/// and once it is taken out again no chunk of that type is left.
pub proof fn lemma_append_then_remove(cs: Seq<ChunkView>, c: ChunkView)
    requires
        first_match(cs, type_text(c.0)) is None,
    ensures
        first_match(cs.push(c), type_text(c.0)) == Some(cs.len() as int),
        cs.push(c)[cs.len() as int] == c,
        cs.push(c).remove(cs.len() as int) == cs,
        first_match(cs.push(c).remove(cs.len() as int), type_text(c.0)) is None,
{
    let t = type_text(c.0);
    let i = cs.len() as int;
    assert forall|j: int| 0 <= j < i implies !has_type(#[trigger] cs[j], t) by {
        if has_type(cs[j], t) {
            lemma_first_match_none(cs, t, j);
        }
    }
    lemma_first_match(cs.push(c), t, i);
    assert(cs.push(c).remove(i) =~= cs);
}

proof fn lemma_first_match_none(cs: Seq<ChunkView>, t: Seq<char>, j: int)
    requires
        0 <= j < cs.len(),
        has_type(cs[j], t),
    ensures
        first_match(cs, t) is Some,
    decreases cs.len(),
{
    if j > 0 && !has_type(cs[0], t) {
        assert(cs.drop_first()[j - 1] == cs[j]);
        lemma_first_match_none(cs.drop_first(), t, j - 1);
    }
}

/// Whether the chunk's type, read as text, is `t`.
fn chunk_has_type(c: &Chunk, t: &str) -> (r: bool)
    ensures
        r == has_type(c@, t@),
{
    let ty = c.chunk_type();
    let b = ty.bytes();
    proof {
        ty.lemma_len();
    }
    if t.unicode_len() != 4 {
        return false;
    }
    let mut i: usize = 0;
    while i < 4
        invariant
            i <= 4,
            t@.len() == 4,
            b@ == c@.0,
            b@.len() == 4,
            forall|j: int| 0 <= j < i ==> t@[j] == (#[trigger] b@[j]) as char,
        decreases 4 - i,
    {
        if t.get_char(i) != b[i] as char {
            assert(type_text(c@.0)[i as int] != t@[i as int]);
            return false;
        }
        i = i + 1;
    }
    assert(type_text(c@.0) =~= t@);
    true
}

fn signature() -> (r: Vec<u8>)
    ensures
        r@ == png_signature(),
{
    let r = vec![137u8, 80u8, 78u8, 71u8, 13u8, 10u8, 26u8, 10u8];
    assert(r@ =~= png_signature());
    r
}

/// A PNG file as its ordered list of chunks.
#[derive(Debug)]
pub struct Png {
    chunks: Vec<Chunk>,
}

impl View for Png {
    type V = Seq<ChunkView>;

    closed spec fn view(&self) -> Seq<ChunkView> {
        views(self.chunks@)
    }
}

impl Png {
    /// A file made of these chunks, in this order.
    pub fn from_chunks(chunks: Vec<Chunk>) -> (r: Png)
        ensures
            r@ == views(chunks@),
    {
        Png { chunks }
    }

    /// Reads a whole file: the signature, then chunks until the bytes end.
    pub fn try_from(bytes: &[u8]) -> (r: Result<Png, PngError>)
        ensures
            match parse_png(bytes@) {
                Ok(cs) => r matches Ok(p) && p@ == cs,
                Err(e) => r matches Err(e2) && e2 == e,
            },
    {
        if bytes.len() < 8 {
            return Err(PngError::BadSignature);
        }
        let sig = signature();
        let mut k: usize = 0;
        while k < 8
            invariant
                k <= 8,
                bytes@.len() >= 8,
                sig@ == png_signature(),
                forall|j: int| 0 <= j < k ==> bytes@[j] == #[trigger] sig@[j],
            decreases 8 - k,
        {
            if bytes[k] != sig[k] {
                assert(bytes@.take(8)[k as int] != png_signature()[k as int]);
                return Err(PngError::BadSignature);
            }
            k = k + 1;
        }
        assert(bytes@.take(8) =~= png_signature());
        let mut chunks: Vec<Chunk> = Vec::new();
        let mut pos: usize = 8;
        assert(prepend(seq![], parse_chunks(bytes@.skip(8))) =~= parse_chunks(bytes@.skip(8)));
        while pos < bytes.len()
            invariant
                8 <= pos <= bytes@.len(),
                parse_png(bytes@) == parse_chunks(bytes@.skip(8)),
                parse_chunks(bytes@.skip(8)) == prepend(views(chunks@), parse_chunks(bytes@.skip(pos as int))),
            decreases bytes@.len() - pos,
        {
            let ghost s = bytes@.skip(pos as int);
            match Chunk::parse_at(bytes, pos) {
                Ok((c, n)) => {
                    proof {
                        assert(s.skip(n as int) =~= bytes@.skip(pos + n));
                        let rest = parse_chunks(s.skip(n as int));
                        assert(parse_chunks(s) == prepend(seq![c@], rest));
                        match rest {
                            Ok(r) => {
                                assert(views(chunks@) + (seq![c@] + r) =~= views(chunks@.push(c)) + r);
                            },
                            Err(_) => {},
                        }
                    }
                    chunks.push(c);
                    pos = pos + n;
                },
                Err(e) => {
                    return Err(e);
                },
            }
        }
        assert(bytes@.skip(pos as int) =~= Seq::<u8>::empty());
        assert(views(chunks@) + Seq::<ChunkView>::empty() =~= views(chunks@));
        Ok(Png { chunks })
    }

    /// The chunks, in file order.
    pub fn chunks(&self) -> (r: &[Chunk])
        ensures
            views(r@) == self@,
    {
        self.chunks.as_slice()
    }

    /// Adds a chunk at the end.
    pub fn append_chunk(&mut self, chunk: Chunk)
        ensures
            final(self)@ == old(self)@.push(chunk@),
    {
        self.chunks.push(chunk);
        assert(views(self.chunks@) =~= views(old(self).chunks@).push(chunk@));
    }

    /// The first chunk whose type reads as `ctype`.
    pub fn chunk_by_type(&self, ctype: &str) -> (r: Option<&Chunk>)
        ensures
            match first_match(self@, ctype@) {
                Some(i) => r matches Some(c) && c@ == self@[i],
                None => r is None,
            },
    {
        let mut i: usize = 0;
        while i < self.chunks.len()
            invariant
                i <= self.chunks@.len(),
                forall|j: int| 0 <= j < i ==> !has_type(#[trigger] self@[j], ctype@),
            decreases self.chunks@.len() - i,
        {
            if chunk_has_type(&self.chunks[i], ctype) {
                proof {
                    lemma_first_match(self@, ctype@, i as int);
                }
                return Some(&self.chunks[i]);
            }
            i = i + 1;
        }
        proof {
            lemma_first_match(self@, ctype@, i as int);
        }
        None
    }

    /// All chunks whose type reads as `ctype`, in file order; `None` if there are none.
    pub fn chunks_by_type(&self, ctype: &str) -> (r: Option<Vec<&Chunk>>)
        ensures
            matching(self@, ctype@).len() == 0 ==> r is None,
            matching(self@, ctype@).len() > 0 ==> (r matches Some(v) && ref_views(v@) == matching(
                self@,
                ctype@,
            )),
    {
        let mut found: Vec<&Chunk> = Vec::new();
        let mut i: usize = 0;
        while i < self.chunks.len()
            invariant
                i <= self.chunks@.len(),
                ref_views(found@) == matching(self@.take(i as int), ctype@),
            decreases self.chunks@.len() - i,
        {
            let c = &self.chunks[i];
            let m = chunk_has_type(c, ctype);
            proof {
                assert(self@.take(i + 1).drop_last() =~= self@.take(i as int));
                assert(self@.take(i + 1).last() == c@);
            }
            if m {
                found.push(c);
                assert(ref_views(found@) =~= matching(self@.take(i as int), ctype@).push(c@));
            }
            i = i + 1;
        }
        assert(self@.take(i as int) =~= self@);
        if found.len() == 0 {
            None
        } else {
            Some(found)
        }
    }

    /// Takes out the first chunk whose type reads as `ctype`, keeping the others in order.
    pub fn remove_chunk(&mut self, ctype: &str) -> (r: Result<Chunk, PngError>)
        ensures
            match first_match(old(self)@, ctype@) {
                Some(i) => r matches Ok(c) && c@ == old(self)@[i] && final(self)@ == old(self)@.remove(i),
                None => r matches Err(e) && e == PngError::NotFound && final(self)@ == old(self)@,
            },
    {
        let mut i: usize = 0;
        while i < self.chunks.len()
            invariant
                i <= self.chunks@.len(),
                self.chunks@ == old(self).chunks@,
                forall|j: int| 0 <= j < i ==> !has_type(#[trigger] self@[j], ctype@),
            decreases self.chunks@.len() - i,
        {
            if chunk_has_type(&self.chunks[i], ctype) {
                proof {
                    lemma_first_match(self@, ctype@, i as int);
                }
                let c = self.chunks.remove(i);
                assert(views(self.chunks@) =~= views(old(self).chunks@).remove(i as int));
                return Ok(c);
            }
            i = i + 1;
        }
        proof {
            lemma_first_match(self@, ctype@, i as int);
        }
        Err(PngError::NotFound)
    }

    /// Takes out every chunk whose type reads as `ctype`, keeping the others in order,
    /// and tells how many were taken out.
    pub fn remove_all_chunks(&mut self, ctype: &str) -> (r: usize)
        ensures
            final(self)@ == without(old(self)@, ctype@),
            r == old(self)@.len() - final(self)@.len(),
    {
        let total = self.chunks.len();
        let mut count: usize = 0;
        loop
            invariant
                old(self)@.len() == total,
                without(self@, ctype@) == without(old(self)@, ctype@),
                count == old(self)@.len() - self@.len(),
            decreases self@.len(),
        {
            let ghost before = self@;
            proof {
                lemma_without_remove(before, ctype@);
            }
            match self.remove_chunk(ctype) {
                Ok(_) => {
                    count = count + 1;
                },
                Err(_) => {
                    return count;
                },
            }
        }
    }

    /// The file's bytes: the signature, then each chunk.
    pub fn as_bytes(&self) -> (r: Vec<u8>)
        ensures
            r@ == png_bytes(self@),
    {
        let mut out = signature();
        let mut i: usize = 0;
        while i < self.chunks.len()
            invariant
                i <= self.chunks@.len(),
                out@ == png_signature() + chunks_bytes(self@.take(i as int)),
            decreases self.chunks@.len() - i,
        {
            let b = self.chunks[i].as_bytes();
            proof {
                assert(self@.take(i + 1) =~= self@.take(i as int).push(self@[i as int]));
                lemma_chunks_bytes_push(self@.take(i as int), self@[i as int]);
            }
            push_all(&mut out, b.as_slice());
            assert(out@ =~= png_signature() + chunks_bytes(self@.take(i + 1)));
            i = i + 1;
        }
        assert(self@.take(i as int) =~= self@);
        out
    }
}

} // verus!
