//! Hiding a message in a PNG stream as an extra chunk, and finding it again.
use vstd::prelude::*;
use vstd::string::StringSliceAdditionalSpecFns;
use crate::chunk::Chunk;
use crate::chunk_type::{ChunkType, ChunkTypeError, all_letters};
use crate::png::{
    ChunkView,
    Png,
    PngError,
    has_no_type,
    is_first_of_type,
    parse_png,
    png_bytes,
    well_sized,
    lemma_parse_chunks_well_sized,
};

verus! {

/// Why a message cannot be hidden in a PNG stream.
#[derive(Debug, Clone, Copy, PartialEq, Eq)]
pub enum EncodeError {
    /// No message was given.
    MissingMessage,
    /// The stream cannot be read, or the insertion position is past its end.
    Png(PngError),
    /// The chunk type text is not four ASCII letters.
    ChunkType(ChunkTypeError),
    /// The message is longer than a chunk's length field can state.
    MessageTooLong,
}

/// The view of an optional byte vector.
pub open spec fn opt_view(m: Option<Vec<u8>>) -> Option<Seq<u8>> {
    match m {
        Some(v) => Some(v@),
        None => None,
    }
}

/// The stream `png` with a chunk of type `key` holding `message` added: at
/// position `index` where one is given, else at the end. Or why that cannot be.
pub open spec fn embed_spec(
    png: Seq<u8>,
    key: Seq<u8>,
    message: Option<Seq<u8>>,
    index: Option<usize>,
) -> Result<Seq<u8>, EncodeError> {
    match parse_png(png) {
        Err(e) => Err(EncodeError::Png(e)),
        Ok(cs) => match message {
            None => Err(EncodeError::MissingMessage),
            Some(m) => if key.len() != 4 {
                Err(EncodeError::ChunkType(ChunkTypeError::UnexpectedLength(key.len() as usize)))
            } else if !all_letters(key) {
                Err(EncodeError::ChunkType(ChunkTypeError::InvalidCharacter))
            } else if m.len() > u32::MAX {
                Err(EncodeError::MessageTooLong)
            } else {
                match index {
                    None => Ok(png_bytes(cs.push((key, m)))),
                    Some(i) => if i > cs.len() {
                        Err(EncodeError::Png(PngError::IndexOutOfRange))
                    } else {
                        Ok(png_bytes(cs.insert(i as int, (key, m))))
                    },
                }
            },
        },
    }
}

/// Hides `message` in the PNG stream `png` as a chunk of type `chunk_type`,
/// inserted at `index` where one is given and appended otherwise, and returns
/// the new stream.
pub fn embed_message(png: &[u8], chunk_type: &str, message: Option<Vec<u8>>, index: Option<
    usize,
>) -> (r: Result<Vec<u8>, EncodeError>)
    ensures
        embed_spec(png@, chunk_type.spec_bytes(), opt_view(message), index) == match r {
            Ok(b) => Ok(b@),
            Err(e) => Err::<Seq<u8>, EncodeError>(e),
        },
{
    let mut p = match Png::try_from(png) {
        Ok(p) => p,
        Err(e) => return Err(EncodeError::Png(e)),
    };
    proof {
        lemma_parse_chunks_well_sized(png@.subrange(8, png@.len() as int));
    }
    let ghost cs = p@;
    let m = match message {
        Some(m) => m,
        None => return Err(EncodeError::MissingMessage),
    };
    let t = match ChunkType::from_str(chunk_type) {
        Ok(t) => t,
        Err(e) => return Err(EncodeError::ChunkType(e)),
    };
    if m.len() > 0xffff_ffffusize {
        return Err(EncodeError::MessageTooLong);
    }
    let chunk = Chunk::new(t, m);
    match index {
        Some(i) => {
            match p.insert_chunk(i, chunk) {
                Ok(()) => {},
                Err(e) => return Err(EncodeError::Png(e)),
            }
        },
        None => p.append_chunk(chunk),
    }
    assert forall|j: int| 0 <= j < p@.len() implies (#[trigger] p@[j]).1.len() <= u32::MAX by {
        assert(well_sized(cs));
        if index is Some {
            let i = index->Some_0 as int;
            if j > i {
                assert(p@[j] == cs[j - 1]);
            } else if j < i {
                assert(p@[j] == cs[j]);
            }
        } else if j < cs.len() {
            assert(p@[j] == cs[j]);
        }
    }
    Ok(p.as_bytes())
}

/// Finds, in the PNG stream `png`, the first chunk whose type, as text, is
/// `chunk_type`: `None` where there is none.
pub fn find_message(png: &[u8], chunk_type: &str) -> (r: Result<Option<Chunk>, PngError>)
    ensures
        parse_png(png@) is Err ==> r == Err::<Option<Chunk>, PngError>(parse_png(png@)->Err_0),
        parse_png(png@) is Ok ==> r is Ok,
        r is Ok && r->Ok_0 is None ==> has_no_type(parse_png(png@)->Ok_0, chunk_type.spec_bytes()),
        r is Ok && r->Ok_0 is Some ==> exists|i: int|
            is_first_of_type(parse_png(png@)->Ok_0, chunk_type.spec_bytes(), i)
                && r->Ok_0->Some_0@ == parse_png(png@)->Ok_0[i],
{
    let mut p = match Png::try_from(png) {
        Ok(p) => p,
        Err(e) => return Err(e),
    };
    let ghost cs = p@;
    match p.remove_chunk(chunk_type) {
        Ok(c) => {
            proof {
                let i = choose|i: int|
                    is_first_of_type(cs, chunk_type.spec_bytes(), i) && c@ == cs[i];
                assert(is_first_of_type(parse_png(png@)->Ok_0, chunk_type.spec_bytes(), i));
            }
            Ok(Some(c))
        },
        Err(_) => Ok(None),
    }
}

} // verus!
