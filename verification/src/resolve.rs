//! Name resolution: free-text user input, optionally carrying a namespace
//! qualifier after a tab, is resolved to exactly one document of the corpus,
//! preferring an exact title hit over an alias hit, first in corpus order.

use vstd::prelude::*;

use crate::CoreError;
use crate::data::{matches_name_spec, NoogleResponse};
use crate::text::{append_bytes, copy_bytes, dot, eq_bytes, subrange_bytes};

verus! {

/// The position of the first tab in `s`, if any.
pub open spec fn first_tab(s: Seq<u8>) -> Option<int> {
    if exists|i: int| 0 <= i < s.len() && s[i] == 9 {
        Some(
            choose|i: int|
                0 <= i < s.len() && s[i] == 9 && forall|j: int| 0 <= j < i ==> s[j] != 9,
        )
    } else {
        None
    }
}

/// Input split at the first tab: `(name, namespace)` when a tab is present,
/// `(input, none)` otherwise.
pub open spec fn parse_input_spec(s: Seq<u8>) -> (Seq<u8>, Option<Seq<u8>>) {
    match first_tab(s) {
        None => (s, None),
        Some(i) => (s.take(i), Some(s.skip(i + 1))),
    }
}

/// The name a document is looked up under: `namespace.name` when the input
/// carried a namespace qualifier, the input itself otherwise.
pub open spec fn full_name_spec(s: Seq<u8>) -> Seq<u8> {
    match first_tab(s) {
        None => s,
        Some(i) => s.skip(i + 1) + dot() + s.take(i),
    }
}

/// Splits user input at the first tab into a name and an optional namespace
/// qualifier.
pub fn parse_input(input: &Vec<u8>) -> (r: (Vec<u8>, Option<Vec<u8>>))
    ensures
        ({
            let (name, ns) = parse_input_spec(input@);
            &&& r.0@ == name
            &&& match (r.1, ns) {
                (Some(a), Some(b)) => a@ == b,
                (None, None) => true,
                _ => false,
            }
        }),
{
    let mut i: usize = 0;
    while i < input.len()
        invariant
            i <= input@.len(),
            forall|j: int| 0 <= j < i ==> input@[j] != 9,
        decreases input.len() - i,
    {
        if input[i] == 9 {
            proof {
                lemma_first_tab_unique(input@, i as int);
            }
            let name = subrange_bytes(input, 0, i);
            let ns = subrange_bytes(input, i + 1, input.len());
            proof {
                assert(input@.subrange(i as int + 1, input@.len() as int) =~= input@.skip(
                    i as int + 1,
                ));
            }
            return (name, Some(ns));
        }
        i = i + 1;
    }
    let name = copy_bytes(input);
    (name, None)
}

/// A position that holds a tab and has none before it is the first tab.
proof fn lemma_first_tab_unique(s: Seq<u8>, i: int)
    requires
        0 <= i < s.len(),
        s[i] == 9,
        forall|j: int| 0 <= j < i ==> s[j] != 9,
    ensures
        first_tab(s) == Some(i),
{
    assert(exists|k: int| 0 <= k < s.len() && s[k] == 9);
    let c = choose|k: int|
        0 <= k < s.len() && s[k] == 9 && forall|j: int| 0 <= j < k ==> s[j] != 9;
    if c < i {
        assert(s[c] != 9);
    }
    if c > i {
        assert(s[i] != 9);
    }
}

/// The name the input resolves to, built from the parsed parts.
pub fn full_name(input: &Vec<u8>) -> (r: Vec<u8>)
    ensures
        r@ == full_name_spec(input@),
{
    let (name, ns) = parse_input(input);
    match ns {
        None => name,
        Some(ns) => {
            let mut r = ns;
            let mut sep: Vec<u8> = Vec::new();
            sep.push(46);
            proof {
                assert(sep@ =~= dot());
            }
            append_bytes(&mut r, &sep);
            append_bytes(&mut r, &name);
            r
        },
    }
}

/// Finds the document the input refers to, by index into the corpus order.
///
/// An exact title hit wins over an alias hit even when both exist; among
/// several hits of the same rank the first in corpus order wins. When no
/// document matches, the lookup fails naming the resolved name.
pub fn find_doc(response: &NoogleResponse, input: &Vec<u8>) -> (r: Result<usize, CoreError>)
    ensures
        ({
            let docs = response.data@;
            let f = full_name_spec(input@);
            match r {
                Ok(i) => {
                    &&& 0 <= i < docs.len()
                    &&& matches_name_spec(docs[i as int], f)
                    &&& (exists|j: int| 0 <= j < docs.len() && docs[j].meta.title@ == f) ==> (
                    docs[i as int].meta.title@ == f && forall|j: int|
                        0 <= j < i ==> docs[j].meta.title@ != f)
                    &&& !(exists|j: int| 0 <= j < docs.len() && docs[j].meta.title@ == f)
                        ==> forall|j: int| 0 <= j < i ==> !matches_name_spec(docs[j], f)
                },
                Err(e) => {
                    &&& (e matches CoreError::NotFound { name } && name@ == f)
                    &&& forall|j: int| 0 <= j < docs.len() ==> !matches_name_spec(docs[j], f)
                },
            }
        }),
{
    let full = full_name(input);
    let n = response.data.len();
    let mut i: usize = 0;
    while i < n
        invariant
            n == response.data@.len(),
            i <= n,
            full@ == full_name_spec(input@),
            forall|j: int| 0 <= j < i ==> response.data@[j].meta.title@ != full@,
        decreases n - i,
    {
        if eq_bytes(&response.data[i].meta.title, &full) {
            return Ok(i);
        }
        i = i + 1;
    }
    let mut i: usize = 0;
    while i < n
        invariant
            n == response.data@.len(),
            i <= n,
            full@ == full_name_spec(input@),
            forall|j: int| 0 <= j < n ==> response.data@[j].meta.title@ != full@,
            forall|j: int| 0 <= j < i ==> !matches_name_spec(response.data@[j], full@),
        decreases n - i,
    {
        if response.data[i].matches_name(&full) {
            return Ok(i);
        }
        i = i + 1;
    }
    Err(CoreError::NotFound { name: full })
}

} // verus!
