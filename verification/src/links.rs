//! Derived web links: the docs-site address of a document and the pinned
//! source address of its definition, built from the corpus revision and a
//! source position.

use vstd::prelude::*;

use crate::CoreError;
use crate::data::{Doc, DocMeta, Position};
use crate::text::{
    append_bytes, contains_seq, dec_rep, find_first, join, join_bytes, matches_at, seqs_of,
    subrange_bytes, u64_to_dec,
};

verus! {

/// The docs-site address prefix, up to the joined document path.
pub open spec fn noogle_prefix() -> Seq<u8> {
    seq![104u8, 116u8, 116u8, 112u8, 115u8, 58u8, 47u8, 47u8, 110u8, 111u8, 111u8, 103u8, 108u8, 101u8, 46u8, 100u8, 101u8, 118u8, 47u8, 102u8, 47u8]
}

/// The source-hosting address prefix, up to the revision.
pub open spec fn github_prefix() -> Seq<u8> {
    seq![104u8, 116u8, 116u8, 112u8, 115u8, 58u8, 47u8, 47u8, 103u8, 105u8, 116u8, 104u8, 117u8, 98u8, 46u8, 99u8, 111u8, 109u8, 47u8, 78u8, 105u8, 120u8, 79u8, 83u8, 47u8, 110u8, 105u8, 120u8, 112u8, 107u8, 103u8, 115u8, 47u8, 98u8, 108u8, 111u8, 98u8, 47u8]
}

/// The `-source/` marker; everything up to and including its first
/// occurrence is stripped from a store file path.
pub open spec fn source_marker() -> Seq<u8> {
    seq![45u8, 115u8, 111u8, 117u8, 114u8, 99u8, 101u8, 47u8]
}

/// The `/` that joins path segments.
pub open spec fn slash() -> Seq<u8> {
    seq![47u8]
}

/// The `#L` fragment prefix in front of the line number.
pub open spec fn line_fragment() -> Seq<u8> {
    seq![35u8, 76u8]
}

/// The position of the first occurrence of `p` in `s`, if any.
pub open spec fn first_occ(s: Seq<u8>, p: Seq<u8>) -> Option<int> {
    if contains_seq(s, p) {
        Some(
            choose|i: int|
                matches_at(s, p, i) && forall|j: int| 0 <= j < i ==> !matches_at(s, p, j),
        )
    } else {
        None
    }
}

/// A position where `p` occurs, with no occurrence before it, is the first
/// occurrence.
pub proof fn lemma_first_occ_unique(s: Seq<u8>, p: Seq<u8>, i: int)
    requires
        matches_at(s, p, i),
        forall|j: int| 0 <= j < i ==> !matches_at(s, p, j),
    ensures
        first_occ(s, p) == Some(i),
{
    assert(contains_seq(s, p));
    let c = choose|c: int|
        matches_at(s, p, c) && forall|j: int| 0 <= j < c ==> !matches_at(s, p, j);
    if c < i {
        assert(!matches_at(s, p, c));
    }
    if c > i {
        assert(!matches_at(s, p, i));
    }
}

/// A store file path with any prefix up to and including the first
/// `-source/` marker stripped; paths without the marker stay whole.
pub open spec fn strip_source_marker(f: Seq<u8>) -> Seq<u8> {
    match first_occ(f, source_marker()) {
        None => f,
        Some(i) => f.skip(i + source_marker().len()),
    }
}

/// The docs-site address of a document: the fixed prefix followed by the
/// path segments joined with `/`.
pub fn noogle_url(path: &Vec<Vec<u8>>) -> (r: Vec<u8>)
    ensures
        r@ == noogle_prefix() + join(seqs_of(*path), slash()),
{
    let mut r: Vec<u8> = vec![104u8, 116u8, 116u8, 112u8, 115u8, 58u8, 47u8, 47u8, 110u8, 111u8, 111u8, 103u8, 108u8, 101u8, 46u8, 100u8, 101u8, 118u8, 47u8, 102u8, 47u8];
    proof {
        assert(r@ =~= noogle_prefix());
    }
    let mut sep: Vec<u8> = Vec::new();
    sep.push(47);
    proof {
        assert(sep@ =~= slash());
    }
    let joined = join_bytes(path, &sep);
    append_bytes(&mut r, &joined);
    r
}

/// The pinned source address of a position: repository prefix, revision,
/// stripped file path, and the 1-based line as a `#L` fragment.
pub fn source_url(rev: &Vec<u8>, pos: &Position) -> (r: Vec<u8>)
    ensures
        r@ == github_prefix() + rev@ + slash() + strip_source_marker(pos.file@) + line_fragment()
            + dec_rep(pos.line as int),
{
    let mut r: Vec<u8> = vec![104u8, 116u8, 116u8, 112u8, 115u8, 58u8, 47u8, 47u8, 103u8, 105u8, 116u8, 104u8, 117u8, 98u8, 46u8, 99u8, 111u8, 109u8, 47u8, 78u8, 105u8, 120u8, 79u8, 83u8, 47u8, 110u8, 105u8, 120u8, 112u8, 107u8, 103u8, 115u8, 47u8, 98u8, 108u8, 111u8, 98u8, 47u8];
    proof {
        assert(r@ =~= github_prefix());
    }
    append_bytes(&mut r, rev);
    r.push(47);
    proof {
        assert(r@ =~= github_prefix() + rev@ + slash());
    }
    let marker: Vec<u8> = vec![45u8, 115u8, 111u8, 117u8, 114u8, 99u8, 101u8, 47u8];
    proof {
        assert(marker@ =~= source_marker());
    }
    let stripped = match find_first(&pos.file, &marker) {
        Some(i) => {
            let n = pos.file.len();
            proof {
                lemma_first_occ_unique(pos.file@, marker@, i as int);
                assert(marker@.len() == 8);
                assert(i + 8 <= pos.file@.len());
            }
            subrange_bytes(&pos.file, i + 8, n)
        },
        None => crate::text::copy_bytes(&pos.file),
    };
    proof {
        assert(stripped@ == strip_source_marker(pos.file@));
    }
    append_bytes(&mut r, &stripped);
    r.push(35);
    r.push(76);
    let line_digits = u64_to_dec(pos.line as u64);
    append_bytes(&mut r, &line_digits);
    proof {
        assert(r@ =~= github_prefix() + rev@ + slash() + strip_source_marker(pos.file@)
            + line_fragment() + dec_rep(pos.line as int));
    }
    r
}

/// The position a source link is built from: the lambda position when
/// present, else the attribute position.
pub open spec fn preferred_position(meta: DocMeta) -> Option<Position> {
    match meta.lambda_position {
        Some(p) => Some(p),
        None => meta.attr_position,
    }
}

/// Picks the position a source link is built from, preferring the lambda
/// position; fails when the document carries neither.
pub fn source_position(doc: &Doc) -> (r: Result<&Position, CoreError>)
    ensures
        match r {
            Ok(p) => preferred_position(doc.meta) == Some(*p),
            Err(e) => e == CoreError::SourceUnavailable && preferred_position(doc.meta) is None,
        },
{
    match &doc.meta.lambda_position {
        Some(p) => Ok(p),
        None => match &doc.meta.attr_position {
            Some(p) => Ok(p),
            None => Err(CoreError::SourceUnavailable),
        },
    }
}

} // verus!
