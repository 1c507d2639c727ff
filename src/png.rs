//! A whole PNG stream: the signature followed by a sequence of chunks.
use vstd::prelude::*;
use vstd::slice::slice_subrange;
use vstd::string::StringSliceAdditionalSpecFns;
use crate::chunk::{Chunk, ChunkError, chunk_bytes, parse_chunk, wire_len, lemma_parse_chunk_ok, lemma_parse_chunk_prefix};
use crate::chunk_type::ChunkType;

verus! {

/// A chunk as (type bytes, data).
pub type ChunkView = (Seq<u8>, Seq<u8>);

/// The eight bytes that open every PNG stream.
pub open spec fn png_signature() -> Seq<u8> {
    seq![137u8, 80u8, 78u8, 71u8, 13u8, 10u8, 26u8, 10u8]
}

/// The wire forms of `cs`, one after the other.
pub open spec fn chunks_bytes(cs: Seq<ChunkView>) -> Seq<u8>
    decreases cs.len(),
{
    if cs.len() == 0 {
        Seq::empty()
    } else {
        chunk_bytes(cs[0].0, cs[0].1) + chunks_bytes(cs.drop_first())
    }
}

/// The wire form of a PNG stream holding `cs`.
pub open spec fn png_bytes(cs: Seq<ChunkView>) -> Seq<u8> {
    png_signature() + chunks_bytes(cs)
}

/// `acc` put in front of the chunks of `r`, where `r` is a success.
pub open spec fn prepend(acc: Seq<ChunkView>, r: Result<Seq<ChunkView>, ChunkError>) -> Result<
    Seq<ChunkView>,
    ChunkError,
> {
    match r {
        Ok(s) => Ok(acc + s),
        Err(e) => Err(e),
    }
}

/// The chunks that fill `b` exactly, one after the other, or the first reason
/// why one cannot be read.
pub open spec fn parse_chunks(b: Seq<u8>) -> Result<Seq<ChunkView>, ChunkError>
    decreases b.len(),
    via parse_chunks_decreases
{
    if b.len() == 0 {
        Ok(Seq::empty())
    } else {
        match parse_chunk(b) {
            Err(e) => Err(e),
            Ok(c) => prepend(seq![c], parse_chunks(b.subrange(wire_len(c.1), b.len() as int))),
        }
    }
}

#[via_fn]
proof fn parse_chunks_decreases(b: Seq<u8>) {
    lemma_parse_chunk_ok(b);
}

/// The chunks of the PNG stream `b`, or why it cannot be read.
pub open spec fn parse_png(b: Seq<u8>) -> Result<Seq<ChunkView>, PngError> {
    if b.len() < 8 || b.subrange(0, 8) != png_signature() {
        Err(PngError::SignatureMismatch)
    } else {
        match parse_chunks(b.subrange(8, b.len() as int)) {
            Ok(cs) => Ok(cs),
            Err(e) => Err(PngError::Chunk(e)),
        }
    }
}

/// True iff every chunk of `cs` has a four-byte type and data whose length
/// fits the length field.
pub open spec fn well_sized(cs: Seq<ChunkView>) -> bool {
    forall|i: int| 0 <= i < cs.len() ==> (#[trigger] cs[i]).0.len() == 4 && cs[i].1.len() <= u32::MAX
}

/// True iff `i` is the first position in `cs` of a chunk of type `key`.
pub open spec fn is_first_of_type(cs: Seq<ChunkView>, key: Seq<u8>, i: int) -> bool {
    &&& 0 <= i < cs.len()
    &&& cs[i].0 == key
    &&& forall|j: int| 0 <= j < i ==> (#[trigger] cs[j]).0 != key
}

/// True iff no chunk of `cs` has type `key`.
pub open spec fn has_no_type(cs: Seq<ChunkView>, key: Seq<u8>) -> bool {
    forall|j: int| 0 <= j < cs.len() ==> (#[trigger] cs[j]).0 != key
}

/// Why a PNG stream cannot be read or changed.
#[derive(Debug, Clone, Copy, PartialEq, Eq)]
pub enum PngError {
    /// The stream does not open with the PNG signature.
    SignatureMismatch,
    /// A chunk of the stream cannot be read.
    Chunk(ChunkError),
    /// An insertion position lies past the end of the chunks.
    IndexOutOfRange,
    /// No chunk has the requested type.
    ChunkNotFound,
}

/// A PNG stream: the signature followed by an ordered sequence of chunks.
#[derive(Debug, Clone)]
pub struct Png {
    chunks: Vec<Chunk>,
}

/// The views of a sequence of chunks.
pub open spec fn views(cs: Seq<Chunk>) -> Seq<ChunkView> {
    cs.map_values(|c: Chunk| c@)
}

impl View for Png {
    type V = Seq<ChunkView>;

    /// The chunks, in order.
    closed spec fn view(&self) -> Seq<ChunkView> {
        views(self.chunks@)
    }
}

/// Putting `acc` and then `c` in front of a result is putting `acc + [c]` there.
proof fn lemma_prepend_push(acc: Seq<ChunkView>, c: ChunkView, r: Result<Seq<ChunkView>, ChunkError>)
    ensures
        prepend(acc, prepend(seq![c], r)) == prepend(acc.push(c), r),
{
    if let Ok(s) = r {
        assert(acc + (seq![c] + s) =~= acc.push(c) + s);
    }
}

/// The wire form of `cs` followed by `c` is that of `cs + [c]`.
proof fn lemma_chunks_bytes_push(cs: Seq<ChunkView>, c: ChunkView)
    ensures
        chunks_bytes(cs.push(c)) == chunks_bytes(cs) + chunk_bytes(c.0, c.1),
    decreases cs.len(),
{
    let s = cs.push(c);
    assert(s[0] == if cs.len() == 0 { c } else { cs[0] });
    if cs.len() == 0 {
        assert(s.drop_first() =~= Seq::<ChunkView>::empty());
        assert(chunks_bytes(s.drop_first()) =~= Seq::<u8>::empty());
        assert(chunks_bytes(cs) =~= Seq::<u8>::empty());
        assert(chunks_bytes(cs.push(c)) =~= chunks_bytes(cs) + chunk_bytes(c.0, c.1));
    } else {
        lemma_chunks_bytes_push(cs.drop_first(), c);
        assert(cs.push(c).drop_first() =~= cs.drop_first().push(c));
        assert(chunks_bytes(cs.push(c)) =~= chunks_bytes(cs) + chunk_bytes(c.0, c.1));
    }
}

/// Reading the wire forms of well-sized chunks gives the chunks back.
proof fn lemma_parse_chunks_round_trip(cs: Seq<ChunkView>)
    requires
        well_sized(cs),
    ensures
        parse_chunks(chunks_bytes(cs)) == Ok::<Seq<ChunkView>, ChunkError>(cs),
    decreases cs.len(),
{
    if cs.len() == 0 {
        assert(chunks_bytes(cs) =~= Seq::<u8>::empty());
        assert(cs =~= Seq::<ChunkView>::empty());
    } else {
        let c = cs[0];
        let rest = cs.drop_first();
        let b = chunks_bytes(cs);
        assert(well_sized(rest)) by {
            assert forall|i: int| 0 <= i < rest.len() implies (#[trigger] rest[i]).0.len() == 4
                && rest[i].1.len() <= u32::MAX by {
                assert(rest[i] == cs[i + 1]);
            }
        }
        lemma_parse_chunks_round_trip(rest);
        lemma_parse_chunk_prefix(c.0, c.1, chunks_bytes(rest));
        assert(b == chunk_bytes(c.0, c.1) + chunks_bytes(rest));
        assert(b.len() > 0);
        assert(parse_chunk(b) == Ok::<ChunkView, ChunkError>(c));
        assert(b.subrange(wire_len(c.1), b.len() as int) =~= chunks_bytes(rest));
        assert(seq![c] + rest =~= cs);
    }
}

/// Chunks that are read are well-sized.
pub proof fn lemma_parse_chunks_well_sized(b: Seq<u8>)
    ensures
        parse_chunks(b) is Ok ==> well_sized(parse_chunks(b)->Ok_0),
    decreases b.len(),
{
    if b.len() > 0 {
        lemma_parse_chunk_ok(b);
        if let Ok(c) = parse_chunk(b) {
            let tail = b.subrange(wire_len(c.1), b.len() as int);
            lemma_parse_chunks_well_sized(tail);
            if let Ok(s) = parse_chunks(tail) {
                let all = seq![c] + s;
                assert forall|i: int| 0 <= i < all.len() implies (#[trigger] all[i]).0.len() == 4
                    && all[i].1.len() <= u32::MAX by {
                    if i > 0 {
                        assert(all[i] == s[i - 1]);
                    }
                }
            }
        }
    }
}

/// Reading the wire form of a PNG stream gives its chunks back, in order.
pub proof fn lemma_png_round_trip(cs: Seq<ChunkView>)
    requires
        well_sized(cs),
    ensures
        parse_png(png_bytes(cs)) == Ok::<Seq<ChunkView>, PngError>(cs),
{
    let b = png_bytes(cs);
    lemma_parse_chunks_round_trip(cs);
    assert(b.subrange(0, 8) =~= png_signature());
    assert(b.subrange(8, b.len() as int) =~= chunks_bytes(cs));
}

/// Appending `x` and then inserting `y` at the front gives `[y] + cs + [x]`,
/// and the stream written from that reads back in the same order.
pub proof fn lemma_append_then_insert_front(cs: Seq<ChunkView>, x: ChunkView, y: ChunkView)
    requires
        well_sized(cs),
        x.0.len() == 4,
        x.1.len() <= u32::MAX,
        y.0.len() == 4,
        y.1.len() <= u32::MAX,
    ensures
        cs.push(x).insert(0, y) == seq![y] + cs + seq![x],
        parse_png(png_bytes(cs.push(x).insert(0, y))) == Ok::<Seq<ChunkView>, PngError>(
            seq![y] + cs + seq![x],
        ),
{
    let s = cs.push(x).insert(0, y);
    assert(s =~= seq![y] + cs + seq![x]);
    assert(well_sized(s)) by {
        assert forall|i: int| 0 <= i < s.len() implies (#[trigger] s[i]).0.len() == 4
            && s[i].1.len() <= u32::MAX by {
            if 0 < i < s.len() - 1 {
                assert(s[i] == cs[i - 1]);
            }
        }
    }
    lemma_png_round_trip(s);
}

/// True iff the type of `t` is the byte string `key`.
fn type_is(t: &ChunkType, key: &[u8]) -> (r: bool)
    ensures
        r == (t@ == key@),
{
    let b = t.bytes();
    if key.len() != 4 {
        return false;
    }
    let mut i: usize = 0;
    while i < 4
        invariant
            0 <= i <= 4,
            key@.len() == 4,
            b@ == t@,
            t@.len() == 4,
            forall|j: int| 0 <= j < i ==> b@[j] == key@[j],
        decreases 4 - i,
    {
        if b[i] != key[i] {
            return false;
        }
        i = i + 1;
    }
    assert(t@ =~= key@);
    true
}

impl Png {
    /// The eight-byte PNG signature.
    pub fn header(&self) -> (r: [u8; 8])
        ensures
            r@ == png_signature(),
    {
        let r: [u8; 8] = [137, 80, 78, 71, 13, 10, 26, 10];
        assert(r@ =~= png_signature());
        r
    }

    /// A stream holding `chunks`, in order.
    pub fn from_chunks(chunks: Vec<Chunk>) -> (r: Png)
        ensures
            r@ == views(chunks@),
    {
        Png { chunks }
    }

    /// The chunks, in order.
    pub fn chunks(&self) -> (r: &[Chunk])
        ensures
            views(r@) == self@,
    {
        self.chunks.as_slice()
    }

    /// Adds `chunk` after the last chunk.
    pub fn append_chunk(&mut self, chunk: Chunk)
        ensures
            final(self)@ == old(self)@.push(chunk@),
    {
        self.chunks.push(chunk);
        assert(views(self.chunks@) =~= views(old(self).chunks@).push(chunk@));
    }

    /// Inserts `chunk` at position `index`, shifting the chunks from there on;
    /// fails, changing nothing, where `index` is past the last chunk.
    pub fn insert_chunk(&mut self, index: usize, chunk: Chunk) -> (r: Result<(), PngError>)
        ensures
            index <= old(self)@.len() ==> r is Ok && final(self)@ == old(self)@.insert(
                index as int,
                chunk@,
            ),
            index > old(self)@.len() ==> r == Err::<(), PngError>(PngError::IndexOutOfRange)
                && final(self)@ == old(self)@,
    {
        if index > self.chunks.len() {
            return Err(PngError::IndexOutOfRange);
        }
        self.chunks.insert(index, chunk);
        assert(views(self.chunks@) =~= views(old(self).chunks@).insert(index as int, chunk@));
        Ok(())
    }

    /// The position of the first chunk whose type is `key`, if any.
    fn position_of(&self, key: &[u8]) -> (r: Option<usize>)
        ensures
            r is None ==> has_no_type(self@, key@),
            r is Some ==> is_first_of_type(self@, key@, r->Some_0 as int),
    {
        let mut i: usize = 0;
        while i < self.chunks.len()
            invariant
                0 <= i <= self.chunks@.len(),
                self@ == views(self.chunks@),
                forall|j: int| 0 <= j < i ==> (#[trigger] self@[j]).0 != key@,
            decreases self.chunks@.len() - i,
        {
            if type_is(self.chunks[i].chunk_type(), key) {
                return Some(i);
            }
            i = i + 1;
        }
        None
    }

    /// The first chunk whose type, as text, is `chunk_type`, if any.
    pub fn chunk_by_type(&self, chunk_type: &str) -> (r: Option<&Chunk>)
        ensures
            r is None <==> has_no_type(self@, chunk_type.spec_bytes()),
            r is Some ==> exists|i: int|
                is_first_of_type(self@, chunk_type.spec_bytes(), i) && r->Some_0@ == self@[i],
    {
        match self.position_of(chunk_type.as_bytes()) {
            Some(i) => Some(&self.chunks[i]),
            None => None,
        }
    }

    /// Removes and returns the first chunk whose type, as text, is
    /// `chunk_type`; fails, changing nothing, where there is none.
    pub fn remove_chunk(&mut self, chunk_type: &str) -> (r: Result<Chunk, PngError>)
        ensures
            has_no_type(old(self)@, chunk_type.spec_bytes()) ==> r == Err::<Chunk, PngError>(
                PngError::ChunkNotFound,
            ) && final(self)@ == old(self)@,
            !has_no_type(old(self)@, chunk_type.spec_bytes()) ==> r is Ok && exists|i: int|
                is_first_of_type(old(self)@, chunk_type.spec_bytes(), i) && r->Ok_0@ == old(
                    self,
                )@[i] && final(self)@ == old(self)@.remove(i),
    {
        match self.position_of(chunk_type.as_bytes()) {
            Some(i) => {
                let c = self.chunks.remove(i);
                assert(views(self.chunks@) =~= views(old(self).chunks@).remove(i as int));
                Ok(c)
            },
            None => Err(PngError::ChunkNotFound),
        }
    }

    /// The wire form: the signature, then each chunk's wire form in order.
    pub fn as_bytes(&self) -> (r: Vec<u8>)
        requires
            forall|i: int| 0 <= i < self@.len() ==> (#[trigger] self@[i]).1.len() <= u32::MAX,
        ensures
            r@ == png_bytes(self@),
    {
        let h = self.header();
        let mut out: Vec<u8> = Vec::new();
        let mut k: usize = 0;
        while k < 8
            invariant
                0 <= k <= 8,
                h@ == png_signature(),
                out@ == h@.subrange(0, k as int),
            decreases 8 - k,
        {
            out.push(h[k]);
            k = k + 1;
            assert(out@ =~= h@.subrange(0, k as int));
        }
        assert(out@ =~= png_signature() + chunks_bytes(self@.subrange(0, 0)));
        let mut i: usize = 0;
        while i < self.chunks.len()
            invariant
                0 <= i <= self.chunks@.len(),
                self@ == views(self.chunks@),
                forall|j: int| 0 <= j < self@.len() ==> (#[trigger] self@[j]).1.len() <= u32::MAX,
                out@ == png_signature() + chunks_bytes(self@.subrange(0, i as int)),
            decreases self.chunks@.len() - i,
        {
            assert(self.chunks@[i as int]@ == self@[i as int]);
            let b = self.chunks[i].as_bytes();
            proof {
                lemma_chunks_bytes_push(self@.subrange(0, i as int), self@[i as int]);
                assert(self@.subrange(0, i as int).push(self@[i as int]) =~= self@.subrange(
                    0,
                    i + 1,
                ));
            }
            let mut j: usize = 0;
            let ghost before = out@;
            while j < b.len()
                invariant
                    0 <= j <= b@.len(),
                    out@ == before + b@.subrange(0, j as int),
                decreases b@.len() - j,
            {
                out.push(b[j]);
                j = j + 1;
                assert(out@ =~= before + b@.subrange(0, j as int));
            }
            assert(b@.subrange(0, b@.len() as int) =~= b@);
            assert(out@ =~= png_signature() + chunks_bytes(self@.subrange(0, i + 1)));
            i = i + 1;
        }
        assert(self@.subrange(0, self@.len() as int) =~= self@);
        out
    }

    /// Reads a whole PNG stream: the signature, then chunks until the bytes
    /// run out.
    pub fn try_from(bytes: &[u8]) -> (r: Result<Png, PngError>)
        ensures
            parse_png(bytes@) == match r {
                Ok(p) => Ok(p@),
                Err(e) => Err::<Seq<ChunkView>, PngError>(e),
            },
    {
        let len = bytes.len();
        let h: [u8; 8] = [137, 80, 78, 71, 13, 10, 26, 10];
        assert(h@ =~= png_signature());
        if len < 8 {
            return Err(PngError::SignatureMismatch);
        }
        let mut k: usize = 0;
        while k < 8
            invariant
                0 <= k <= 8,
                8 <= len == bytes@.len(),
                h@ == png_signature(),
                forall|j: int| 0 <= j < k ==> bytes@[j] == h@[j],
            decreases 8 - k,
        {
            if bytes[k] != h[k] {
                assert(bytes@.subrange(0, 8)[k as int] != png_signature()[k as int]);
                return Err(PngError::SignatureMismatch);
            }
            k = k + 1;
        }
        assert(bytes@.subrange(0, 8) =~= png_signature());
        let ghost whole = bytes@.subrange(8, len as int);
        let mut chunks: Vec<Chunk> = Vec::new();
        let mut pos: usize = 8;
        assert(views(chunks@) =~= Seq::<ChunkView>::empty());
        assert(bytes@.subrange(pos as int, len as int) == whole);
        assert(prepend(Seq::empty(), parse_chunks(whole)) == parse_chunks(whole)) by {
            if let Ok(s) = parse_chunks(whole) {
                assert(Seq::<ChunkView>::empty() + s =~= s);
            }
        }
        while pos < len
            invariant
                8 <= pos <= len == bytes@.len(),
                whole == bytes@.subrange(8, len as int),
                bytes@.subrange(0, 8) == png_signature(),
                prepend(views(chunks@), parse_chunks(bytes@.subrange(pos as int, len as int)))
                    == parse_chunks(whole),
            decreases len - pos,
        {
            let ghost acc = views(chunks@);
            let rest = slice_subrange(bytes, pos, len);
            match Chunk::try_from(rest) {
                Err(e) => {
                    return Err(PngError::Chunk(e));
                },
                Ok(c) => {
                    proof {
                        lemma_parse_chunk_ok(rest@);
                    }
                    let w = c.data().len() + 12;
                    proof {
                        let r2 = parse_chunks(rest@.subrange(wire_len(c@.1), rest@.len() as int));
                        lemma_prepend_push(acc, c@, r2);
                        assert(rest@.subrange(wire_len(c@.1), rest@.len() as int) =~= bytes@.subrange(
                            pos + w,
                            len as int,
                        ));
                    }
                    pos = pos + w;
                    chunks.push(c);
                    assert(views(chunks@) =~= acc.push(c@));
                },
            }
        }
        assert(bytes@.subrange(pos as int, len as int) =~= Seq::<u8>::empty());
        assert(views(chunks@) + Seq::<ChunkView>::empty() =~= views(chunks@));
        Ok(Png { chunks })
    }
}

} // verus!
