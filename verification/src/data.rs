//! The document model: one fetched corpus and its documents, with
//! name and alias matching and the listing used by the name list printer.
//!
//! A document is found by its title or by any alias; an alias is an ordered
//! sequence of name segments that refers to the document when joined with `.`.

use vstd::prelude::*;

use crate::text::{
    append_bytes, copy_bytes, dot, eq_bytes, join, join_bytes, seqs2_of, seqs_of, starts_with,
    starts_with_bytes, subrange_bytes, tab,
};

verus! {

/// A 1-based source position inside a file.
#[derive(Debug)]
pub struct Position {
    pub file: Vec<u8>,
    pub line: u32,
    pub column: u32,
}

/// Where a document's narrative content came from.
#[derive(Debug)]
pub struct SourceInfo {
    pub position: Option<Position>,
    pub path: Vec<Vec<u8>>,
    pub pos_type: Option<Vec<u8>>,
}

/// Source metadata attached to a document's metadata record.
#[derive(Debug)]
pub struct ContentMeta {
    pub position: Option<Position>,
    pub path: Vec<Vec<u8>>,
    pub pos_type: Option<Vec<u8>>,
}

/// A document's free narrative text with its optional source record.
#[derive(Debug)]
pub struct Content {
    pub content: Option<Vec<u8>>,
    pub source: Option<SourceInfo>,
}

/// A repository revision identifier with its last-modified epoch timestamp.
#[derive(Debug)]
pub struct RepoInfo {
    pub rev: Vec<u8>,
    pub last_modified: u64,
}

/// The metadata record of one document.
///
/// `primop_meta` is an opaque structural value; it is carried as its raw
/// JSON text and never inspected here.
#[derive(Debug)]
pub struct DocMeta {
    pub title: Vec<u8>,
    pub path: Vec<Vec<u8>>,
    pub aliases: Option<Vec<Vec<Vec<u8>>>>,
    pub signature: Option<Vec<u8>>,
    pub is_primop: bool,
    pub primop_meta: Option<Vec<u8>>,
    pub is_functor: Option<bool>,
    pub attr_position: Option<Position>,
    pub attr_expr: Option<Vec<u8>>,
    pub lambda_position: Option<Position>,
    pub lambda_expr: Option<Vec<u8>>,
    pub count_applied: Option<u32>,
    pub content_meta: Option<ContentMeta>,
}

/// One named entry of the corpus.
#[derive(Debug)]
pub struct Doc {
    pub meta: DocMeta,
    pub content: Option<Content>,
}

/// A builtin-type entry: a name and its opaque structural value, carried
/// as raw JSON text.
#[derive(Debug)]
pub struct BuiltinType {
    pub name: Vec<u8>,
    pub value: Vec<u8>,
}

/// The full fetched corpus.
#[derive(Debug)]
pub struct NoogleResponse {
    pub data: Vec<Doc>,
    pub builtin_types: Vec<BuiltinType>,
    pub upstream_info: RepoInfo,
    pub nix_info: RepoInfo,
}

/// The aliases of a document, as sequences of name segments; empty when the
/// alias list is absent.
pub open spec fn aliases_of(doc: Doc) -> Seq<Seq<Seq<u8>>> {
    match doc.meta.aliases {
        Some(a) => seqs2_of(a),
        None => Seq::empty(),
    }
}

/// Every name of a document: the title first, then each alias joined
/// with `.`, in stored order.
pub open spec fn all_names_spec(doc: Doc) -> Seq<Seq<u8>> {
    Seq::new(
        1 + aliases_of(doc).len(),
        |i: int|
            if i == 0 {
                doc.meta.title@
            } else {
                join(aliases_of(doc)[i - 1], dot())
            },
    )
}

/// A candidate name refers to the document: it equals the title exactly or
/// equals some alias joined with `.`. Exact equality only.
pub open spec fn matches_name_spec(doc: Doc, name: Seq<u8>) -> bool {
    ||| name == doc.meta.title@
    ||| exists|k: int|
        0 <= k < aliases_of(doc).len() && join(aliases_of(doc)[k], dot()) == name
}

/// A candidate matches a document exactly when it is one of the document's
/// names.
pub proof fn lemma_matches_name_iff_all_names(doc: Doc, name: Seq<u8>)
    ensures
        matches_name_spec(doc, name) <==> all_names_spec(doc).contains(name),
{
    if matches_name_spec(doc, name) {
        if name == doc.meta.title@ {
            assert(all_names_spec(doc)[0] == name);
        } else {
            let k = choose|k: int|
                0 <= k < aliases_of(doc).len() && join(aliases_of(doc)[k], dot()) == name;
            assert(all_names_spec(doc)[k + 1] == name);
        }
    }
    if all_names_spec(doc).contains(name) {
        let i = choose|i: int| 0 <= i < all_names_spec(doc).len() && all_names_spec(doc)[i] == name;
        if i != 0 {
            assert(join(aliases_of(doc)[i - 1], dot()) == name);
        }
    }
}

impl Doc {
    /// The title, then each alias joined with `.`, in stable order:
    /// `1 + |aliases|` entries in all.
    pub fn all_names(&self) -> (r: Vec<Vec<u8>>)
        ensures
            r@.len() == 1 + aliases_of(*self).len(),
            r@[0]@ == self.meta.title@,
            forall|i: int| 1 <= i < r@.len() ==> r@[i]@ == join(aliases_of(*self)[i - 1], dot()),
            seqs_of(r) == all_names_spec(*self),
    {
        let mut r: Vec<Vec<u8>> = Vec::new();
        r.push(copy_bytes(&self.meta.title));
        if let Some(aliases) = &self.meta.aliases {
            let sep = dot_bytes();
            let mut k: usize = 0;
            while k < aliases.len()
                invariant
                    k <= aliases@.len(),
                    self.meta.aliases == Some(*aliases),
                    sep@ == dot(),
                    r@.len() == 1 + k,
                    r@[0]@ == self.meta.title@,
                    forall|i: int|
                        1 <= i < r@.len() ==> r@[i]@ == join(aliases_of(*self)[i - 1], dot()),
                decreases aliases.len() - k,
            {
                let name = join_bytes(&aliases[k], &sep);
                r.push(name);
                k = k + 1;
            }
        }
        proof {
            assert(seqs_of(r) =~= all_names_spec(*self));
        }
        r
    }

    /// Whether `name` refers to this document, by exact title or alias match.
    pub fn matches_name(&self, name: &Vec<u8>) -> (r: bool)
        ensures
            r == matches_name_spec(*self, name@),
    {
        if eq_bytes(&self.meta.title, name) {
            return true;
        }
        if let Some(aliases) = &self.meta.aliases {
            let sep = dot_bytes();
            let mut k: usize = 0;
            while k < aliases.len()
                invariant
                    k <= aliases@.len(),
                    self.meta.aliases == Some(*aliases),
                    sep@ == dot(),
                    forall|m: int| 0 <= m < k ==> join(aliases_of(*self)[m], dot()) != name@,
                decreases aliases.len() - k,
            {
                let joined = join_bytes(&aliases[k], &sep);
                if eq_bytes(&joined, name) {
                    proof {
                        assert(aliases_of(*self)[k as int] == seqs_of(aliases@[k as int]));
                        assert(join(aliases_of(*self)[k as int], dot()) == name@);
                    }
                    return true;
                }
                k = k + 1;
            }
        }
        false
    }
}

/// The `.` separator used between alias segments.
pub fn dot_bytes() -> (r: Vec<u8>)
    ensures
        r@ == dot(),
{
    let r: Vec<u8> = vec![46u8];
    proof {
        assert(r@ =~= dot());
    }
    r
}

/// The `\t` separator used between a stripped display name and its namespace.
pub fn tab_bytes() -> (r: Vec<u8>)
    ensures
        r@ == tab(),
{
    let r: Vec<u8> = vec![9u8];
    proof {
        assert(r@ =~= tab());
    }
    r
}

/// The lines the name list printer emits for one document: with a namespace
/// filter, documents whose title begins with `namespace.` produce one line
/// `stripped-title TAB namespace`; without a filter every name of the
/// document is listed on its own line.
pub open spec fn doc_list_lines(doc: Doc, filter: Option<Seq<u8>>) -> Seq<Seq<u8>> {
    match filter {
        None => all_names_spec(doc),
        Some(ns) => {
            let prefix = ns + dot();
            if starts_with(doc.meta.title@, prefix) {
                seq![doc.meta.title@.skip(prefix.len() as int) + tab() + ns]
            } else {
                Seq::empty()
            }
        },
    }
}

/// The lines the name list printer emits for a corpus, in corpus order.
pub open spec fn list_lines_spec(docs: Seq<Doc>, filter: Option<Seq<u8>>) -> Seq<Seq<u8>>
    decreases docs.len(),
{
    if docs.len() == 0 {
        Seq::empty()
    } else {
        list_lines_spec(docs.drop_last(), filter) + doc_list_lines(docs.last(), filter)
    }
}

/// The view of an optional namespace filter.
pub open spec fn opt_bytes_view(filter: Option<&Vec<u8>>) -> Option<Seq<u8>> {
    match filter {
        Some(f) => Some(f@),
        None => None,
    }
}

/// The full name list (or namespace-filtered list) of a corpus, one line per
/// entry, in corpus order.
pub fn list_lines(response: &NoogleResponse, filter: Option<&Vec<u8>>) -> (r: Vec<Vec<u8>>)
    ensures
        seqs_of(r) == list_lines_spec(response.data@, opt_bytes_view(filter)),
{
    let mut r: Vec<Vec<u8>> = Vec::new();
    let mut i: usize = 0;
    while i < response.data.len()
        invariant
            i <= response.data@.len(),
            seqs_of(r) == list_lines_spec(response.data@.take(i as int), opt_bytes_view(filter)),
        decreases response.data.len() - i,
    {
        let ghost pre = seqs_of(r);
        let doc = &response.data[i];
        match filter {
            None => {
                let names = doc.all_names();
                proof {
                    assert(pre + seqs_of(names).take(0) =~= pre);
                }
                let mut k: usize = 0;
                while k < names.len()
                    invariant
                        k <= names@.len(),
                        seqs_of(r) == pre + seqs_of(names).take(k as int),
                    decreases names.len() - k,
                {
                    let ghost rs = seqs_of(r);
                    let line = copy_bytes(&names[k]);
                    r.push(line);
                    proof {
                        assert(seqs_of(r) =~= rs.push(names@[k as int]@));
                        assert(rs.push(names@[k as int]@) =~= pre + seqs_of(names).take(
                            k as int + 1,
                        ));
                    }
                    k = k + 1;
                }
                proof {
                    assert(seqs_of(names).take(names@.len() as int) =~= seqs_of(names));
                    assert(seqs_of(names) == doc_list_lines(response.data@[i as int], None));
                }
            },
            Some(ns) => {
                let mut prefix = copy_bytes(ns);
                let sep = dot_bytes();
                append_bytes(&mut prefix, &sep);
                if starts_with_bytes(&doc.meta.title, &prefix) {
                    let mut line = subrange_bytes(
                        &doc.meta.title,
                        prefix.len(),
                        doc.meta.title.len(),
                    );
                    let t = tab_bytes();
                    append_bytes(&mut line, &t);
                    append_bytes(&mut line, ns);
                    r.push(line);
                    proof {
                        assert(seqs_of(r) =~= pre + doc_list_lines(
                            response.data@[i as int],
                            opt_bytes_view(filter),
                        ));
                    }
                } else {
                    proof {
                        assert(seqs_of(r) =~= pre + doc_list_lines(
                            response.data@[i as int],
                            opt_bytes_view(filter),
                        ));
                    }
                }
            },
        }
        proof {
            assert(response.data@.take(i as int + 1).drop_last() =~= response.data@.take(i as int));
            assert(response.data@.take(i as int + 1).last() == response.data@[i as int]);
        }
        i = i + 1;
    }
    proof {
        assert(response.data@.take(response.data@.len() as int) =~= response.data@);
    }
    r
}

} // verus!
