//! Selector parsing for the two caller-chosen knobs: the merge-algorithm
//! name and the numeric pixel type name.  Both are pure lookups over a
//! closed set of byte strings, rejected exactly when the name is unknown.

use crate::grid::MergeAlgorithm;
use crate::raster::RasterError;
use vstd::prelude::*;

verus! {

/// The supported numeric pixel kinds, one per instantiation of the
/// engine.
#[derive(Clone, Copy, PartialEq, Eq, Structural, Debug)]
pub enum PixelKind {
    U8,
    U16,
    U32,
    U64,
    I8,
    I16,
    I32,
    I64,
}

/// The bytes of the selector "replace".
pub open spec fn replace_selector() -> Seq<u8> {
    seq![114u8, 101u8, 112u8, 108u8, 97u8, 99u8, 101u8]
}

/// The bytes of the selector "add".
pub open spec fn add_selector() -> Seq<u8> {
    seq![97u8, 100u8, 100u8]
}

/// What a merge-algorithm selector means: "replace", "add", or an error.
pub open spec fn spec_parse_algorithm(s: Seq<u8>) -> Result<MergeAlgorithm, RasterError> {
    if s == replace_selector() {
        Ok(MergeAlgorithm::Replace)
    } else if s == add_selector() {
        Ok(MergeAlgorithm::Add)
    } else {
        Err(RasterError::UnsupportedAlgorithm)
    }
}

/// Parse a merge-algorithm selector: only "replace" and "add" are
/// accepted; anything else is rejected before any work starts.
pub fn parse_algorithm(s: &[u8]) -> (r: Result<MergeAlgorithm, RasterError>)
    ensures
        r == spec_parse_algorithm(s@),
{
    if s.len() == 7 && s[0] == 114 && s[1] == 101 && s[2] == 112 && s[3] == 108 && s[4] == 97
        && s[5] == 99 && s[6] == 101 {
        proof {
            assert(s@ =~= replace_selector());
        }
        Ok(MergeAlgorithm::Replace)
    } else if s.len() == 3 && s[0] == 97 && s[1] == 100 && s[2] == 100 {
        proof {
            assert(s@ =~= add_selector());
        }
        Ok(MergeAlgorithm::Add)
    } else {
        proof {
            if s@ == replace_selector() {
                assert(s@.len() == 7);
                assert(s@[0] == 114u8 && s@[1] == 101u8 && s@[2] == 112u8 && s@[3] == 108u8
                    && s@[4] == 97u8 && s@[5] == 99u8 && s@[6] == 101u8);
            }
            if s@ == add_selector() {
                assert(s@.len() == 3);
                assert(s@[0] == 97u8 && s@[1] == 100u8 && s@[2] == 100u8);
            }
        }
        Err(RasterError::UnsupportedAlgorithm)
    }
}

/// The bytes of the dtype selector for each supported kind.
pub open spec fn kind_selector(k: PixelKind) -> Seq<u8> {
    match k {
        PixelKind::U8 => seq![117u8, 105u8, 110u8, 116u8, 56u8],
        PixelKind::U16 => seq![117u8, 105u8, 110u8, 116u8, 49u8, 54u8],
        PixelKind::U32 => seq![117u8, 105u8, 110u8, 116u8, 51u8, 50u8],
        PixelKind::U64 => seq![117u8, 105u8, 110u8, 116u8, 54u8, 52u8],
        PixelKind::I8 => seq![105u8, 110u8, 116u8, 56u8],
        PixelKind::I16 => seq![105u8, 110u8, 116u8, 49u8, 54u8],
        PixelKind::I32 => seq![105u8, 110u8, 116u8, 51u8, 50u8],
        PixelKind::I64 => seq![105u8, 110u8, 116u8, 54u8, 52u8],
    }
}

/// What a dtype selector means: one of the eight fixed-width integer
/// kind names ("uint8" through "int64"), or an error.  Floating-point
/// buffers are outside the supported set, so their names are rejected
/// like any other unknown name.
pub open spec fn spec_parse_pixel_kind(s: Seq<u8>) -> Result<PixelKind, RasterError> {
    if s == kind_selector(PixelKind::U8) {
        Ok(PixelKind::U8)
    } else if s == kind_selector(PixelKind::U16) {
        Ok(PixelKind::U16)
    } else if s == kind_selector(PixelKind::U32) {
        Ok(PixelKind::U32)
    } else if s == kind_selector(PixelKind::U64) {
        Ok(PixelKind::U64)
    } else if s == kind_selector(PixelKind::I8) {
        Ok(PixelKind::I8)
    } else if s == kind_selector(PixelKind::I16) {
        Ok(PixelKind::I16)
    } else if s == kind_selector(PixelKind::I32) {
        Ok(PixelKind::I32)
    } else if s == kind_selector(PixelKind::I64) {
        Ok(PixelKind::I64)
    } else {
        Err(RasterError::UnsupportedType)
    }
}

/// Parse a dtype selector into the pixel kind to instantiate the engine
/// at, rejecting names outside the supported set before dispatch.
pub fn parse_pixel_kind(s: &[u8]) -> (r: Result<PixelKind, RasterError>)
    ensures
        r == spec_parse_pixel_kind(s@),
{
    let r: Result<PixelKind, RasterError> = if s.len() == 5 && s[0] == 117 && s[1] == 105 && s[2]
        == 110 && s[3] == 116 && s[4] == 56 {
        proof {
            assert(s@ =~= kind_selector(PixelKind::U8));
        }
        Ok(PixelKind::U8)
    } else if s.len() == 6 && s[0] == 117 && s[1] == 105 && s[2] == 110 && s[3] == 116 && s[4]
        == 49 && s[5] == 54 {
        proof {
            assert(s@ =~= kind_selector(PixelKind::U16));
        }
        Ok(PixelKind::U16)
    } else if s.len() == 6 && s[0] == 117 && s[1] == 105 && s[2] == 110 && s[3] == 116 && s[4]
        == 51 && s[5] == 50 {
        proof {
            assert(s@ =~= kind_selector(PixelKind::U32));
        }
        Ok(PixelKind::U32)
    } else if s.len() == 6 && s[0] == 117 && s[1] == 105 && s[2] == 110 && s[3] == 116 && s[4]
        == 54 && s[5] == 52 {
        proof {
            assert(s@ =~= kind_selector(PixelKind::U64));
        }
        Ok(PixelKind::U64)
    } else if s.len() == 4 && s[0] == 105 && s[1] == 110 && s[2] == 116 && s[3] == 56 {
        proof {
            assert(s@ =~= kind_selector(PixelKind::I8));
        }
        Ok(PixelKind::I8)
    } else if s.len() == 5 && s[0] == 105 && s[1] == 110 && s[2] == 116 && s[3] == 49 && s[4]
        == 54 {
        proof {
            assert(s@ =~= kind_selector(PixelKind::I16));
        }
        Ok(PixelKind::I16)
    } else if s.len() == 5 && s[0] == 105 && s[1] == 110 && s[2] == 116 && s[3] == 51 && s[4]
        == 50 {
        proof {
            assert(s@ =~= kind_selector(PixelKind::I32));
        }
        Ok(PixelKind::I32)
    } else if s.len() == 5 && s[0] == 105 && s[1] == 110 && s[2] == 116 && s[3] == 54 && s[4]
        == 52 {
        proof {
            assert(s@ =~= kind_selector(PixelKind::I64));
        }
        Ok(PixelKind::I64)
    } else {
        proof {
            lemma_selector_bytes_decide(s@, PixelKind::U8);
            lemma_selector_bytes_decide(s@, PixelKind::U16);
            lemma_selector_bytes_decide(s@, PixelKind::U32);
            lemma_selector_bytes_decide(s@, PixelKind::U64);
            lemma_selector_bytes_decide(s@, PixelKind::I8);
            lemma_selector_bytes_decide(s@, PixelKind::I16);
            lemma_selector_bytes_decide(s@, PixelKind::I32);
            lemma_selector_bytes_decide(s@, PixelKind::I64);
        }
        Err(RasterError::UnsupportedType)
    };
    r
}

/// Equality with a kind's selector is decided by its length and bytes.
proof fn lemma_selector_bytes_decide(s: Seq<u8>, k: PixelKind)
    ensures
        s == kind_selector(k) ==> s.len() == kind_selector(k).len() && (forall|j: int|
            0 <= j < s.len() ==> s[j] == kind_selector(k)[j]),
{
}

} // verus!
