//! Local lookup and cache layer for a remote documentation corpus, with a
//! line-oriented renderer for a document's narrative text.
//!
//! Text is handled as UTF-8 bytes (`Vec<u8>`) throughout, so that every
//! comparison and transformation can be stated over `Seq<u8>`.

use vstd::prelude::*;

verus! {

/// Errors the library reports, mirroring the failure taxonomy of the tool:
/// cache I/O, network fetch, malformed data, unresolvable names, documents
/// without a source position, and external tools that failed to launch.
#[derive(Debug, PartialEq, Eq)]
pub enum CoreError {
    CacheIo,
    Fetch,
    Parse,
    NotFound { name: Vec<u8> },
    SourceUnavailable,
    Subprocess,
}

/// The fixed texts of the error messages.
pub open spec fn message_prefix_spec(e: CoreError) -> Seq<u8> {
    match e {
        CoreError::CacheIo => seq![70u8, 97u8, 105u8, 108u8, 101u8, 100u8, 32u8, 116u8, 111u8, 32u8, 114u8, 101u8, 97u8, 100u8, 32u8, 111u8, 114u8, 32u8, 119u8, 114u8, 105u8, 116u8, 101u8, 32u8, 116u8, 104u8, 101u8, 32u8, 99u8, 97u8, 99u8, 104u8, 101u8],
        CoreError::Fetch => seq![70u8, 97u8, 105u8, 108u8, 101u8, 100u8, 32u8, 116u8, 111u8, 32u8, 102u8, 101u8, 116u8, 99u8, 104u8, 32u8, 102u8, 114u8, 111u8, 109u8, 32u8, 78u8, 111u8, 111u8, 103u8, 108u8, 101u8, 32u8, 65u8, 80u8, 73u8],
        CoreError::Parse => seq![70u8, 97u8, 105u8, 108u8, 101u8, 100u8, 32u8, 116u8, 111u8, 32u8, 112u8, 97u8, 114u8, 115u8, 101u8, 32u8, 99u8, 97u8, 99u8, 104u8, 101u8, 100u8, 32u8, 100u8, 97u8, 116u8, 97u8],
        CoreError::NotFound { .. } => seq![70u8, 117u8, 110u8, 99u8, 116u8, 105u8, 111u8, 110u8, 32u8, 39u8],
        CoreError::SourceUnavailable => seq![78u8, 111u8, 32u8, 115u8, 111u8, 117u8, 114u8, 99u8, 101u8, 32u8, 112u8, 111u8, 115u8, 105u8, 116u8, 105u8, 111u8, 110u8, 32u8, 97u8, 118u8, 97u8, 105u8, 108u8, 97u8, 98u8, 108u8, 101u8],
        CoreError::Subprocess => seq![70u8, 97u8, 105u8, 108u8, 101u8, 100u8, 32u8, 116u8, 111u8, 32u8, 108u8, 97u8, 117u8, 110u8, 99u8, 104u8, 32u8, 101u8, 120u8, 116u8, 101u8, 114u8, 110u8, 97u8, 108u8, 32u8, 116u8, 111u8, 111u8, 108u8],
    }
}

/// The whole message of an error: for an unresolved name the fixed words
/// around the name that failed to resolve, else the fixed text alone.
pub open spec fn message_spec(e: CoreError) -> Seq<u8> {
    match e {
        CoreError::NotFound { name } => message_prefix_spec(e) + name@ + seq![39u8, 32u8, 110u8, 111u8, 116u8, 32u8, 102u8, 111u8, 117u8, 110u8, 100u8],
        _ => message_prefix_spec(e),
    }
}

impl CoreError {
    /// The user-visible message of this error.
    pub fn message(&self) -> (r: Vec<u8>)
        ensures
            r@ == message_spec(*self),
    {
        match self {
            CoreError::CacheIo => {
                let r: Vec<u8> = vec![70u8, 97u8, 105u8, 108u8, 101u8, 100u8, 32u8, 116u8, 111u8, 32u8, 114u8, 101u8, 97u8, 100u8, 32u8, 111u8, 114u8, 32u8, 119u8, 114u8, 105u8, 116u8, 101u8, 32u8, 116u8, 104u8, 101u8, 32u8, 99u8, 97u8, 99u8, 104u8, 101u8];
                proof {
                    assert(r@ =~= message_spec(*self));
                }
                r
            },
            CoreError::Fetch => {
                let r: Vec<u8> = vec![70u8, 97u8, 105u8, 108u8, 101u8, 100u8, 32u8, 116u8, 111u8, 32u8, 102u8, 101u8, 116u8, 99u8, 104u8, 32u8, 102u8, 114u8, 111u8, 109u8, 32u8, 78u8, 111u8, 111u8, 103u8, 108u8, 101u8, 32u8, 65u8, 80u8, 73u8];
                proof {
                    assert(r@ =~= message_spec(*self));
                }
                r
            },
            CoreError::Parse => {
                let r: Vec<u8> = vec![70u8, 97u8, 105u8, 108u8, 101u8, 100u8, 32u8, 116u8, 111u8, 32u8, 112u8, 97u8, 114u8, 115u8, 101u8, 32u8, 99u8, 97u8, 99u8, 104u8, 101u8, 100u8, 32u8, 100u8, 97u8, 116u8, 97u8];
                proof {
                    assert(r@ =~= message_spec(*self));
                }
                r
            },
            CoreError::NotFound { name } => {
                let mut r: Vec<u8> = vec![70u8, 117u8, 110u8, 99u8, 116u8, 105u8, 111u8, 110u8, 32u8, 39u8];
                proof {
                    assert(r@ =~= message_prefix_spec(*self));
                }
                crate::text::append_bytes(&mut r, name);
                let tail: Vec<u8> = vec![39u8, 32u8, 110u8, 111u8, 116u8, 32u8, 102u8, 111u8, 117u8, 110u8, 100u8];
                proof {
                    assert(tail@ =~= seq![39u8, 32u8, 110u8, 111u8, 116u8, 32u8, 102u8, 111u8, 117u8, 110u8, 100u8]);
                }
                crate::text::append_bytes(&mut r, &tail);
                r
            },
            CoreError::SourceUnavailable => {
                let r: Vec<u8> = vec![78u8, 111u8, 32u8, 115u8, 111u8, 117u8, 114u8, 99u8, 101u8, 32u8, 112u8, 111u8, 115u8, 105u8, 116u8, 105u8, 111u8, 110u8, 32u8, 97u8, 118u8, 97u8, 105u8, 108u8, 97u8, 98u8, 108u8, 101u8];
                proof {
                    assert(r@ =~= message_spec(*self));
                }
                r
            },
            CoreError::Subprocess => {
                let r: Vec<u8> = vec![70u8, 97u8, 105u8, 108u8, 101u8, 100u8, 32u8, 116u8, 111u8, 32u8, 108u8, 97u8, 117u8, 110u8, 99u8, 104u8, 32u8, 101u8, 120u8, 116u8, 101u8, 114u8, 110u8, 97u8, 108u8, 32u8, 116u8, 111u8, 111u8, 108u8];
                proof {
                    assert(r@ =~= message_spec(*self));
                }
                r
            },
        }
    }
}

} // verus!

pub mod cache;
pub mod data;
pub mod links;
pub mod preview;
pub mod render;
pub mod resolve;
pub mod text;
pub mod timestamp;
