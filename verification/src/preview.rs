//! The document preview: fixed sections in fixed order, each present only
//! when the underlying data exists — title, type signature, definition, the
//! rendered narrative content, the source line, and the alias list.

use vstd::prelude::*;

use crate::data::{aliases_of, Doc};
use crate::links::preferred_position;
use crate::render::{items_view, render_content, render_spec, ItemView, RenderItem};
use crate::text::{copy_bytes, dot, join, join_bytes, trim, trim_bytes};

verus! {

/// The position of the last `/` in `s`, if any.
pub open spec fn last_slash(s: Seq<u8>) -> Option<int> {
    if exists|i: int| 0 <= i < s.len() && s[i] == 47 {
        Some(
            choose|i: int|
                0 <= i < s.len() && s[i] == 47 && forall|j: int| i < j < s.len() ==> s[j] != 47,
        )
    } else {
        None
    }
}

/// A position that holds a `/` with none after it is the last one.
proof fn lemma_last_slash_unique(s: Seq<u8>, i: int)
    requires
        0 <= i < s.len(),
        s[i] == 47,
        forall|j: int| i < j < s.len() ==> s[j] != 47,
    ensures
        last_slash(s) == Some(i),
{
    assert(exists|k: int| 0 <= k < s.len() && s[k] == 47);
    let c = choose|k: int|
        0 <= k < s.len() && s[k] == 47 && forall|j: int| k < j < s.len() ==> s[j] != 47;
    if c < i {
        assert(s[i] != 47);
    }
    if c > i {
        assert(s[c] != 47);
    }
}

/// The last path segment of a file path: everything after the last `/`, or
/// the whole path when it holds none.
pub open spec fn short_file(s: Seq<u8>) -> Seq<u8> {
    match last_slash(s) {
        None => s,
        Some(i) => s.skip(i + 1),
    }
}

/// The last path segment of a file path.
pub fn short_file_bytes(s: &Vec<u8>) -> (r: Vec<u8>)
    ensures
        r@ == short_file(s@),
{
    let mut k: usize = s.len();
    while k > 0
        invariant
            k <= s@.len(),
            forall|j: int| k <= j < s@.len() ==> s@[j] != 47,
        decreases k,
    {
        if s[k - 1] == 47 {
            proof {
                lemma_last_slash_unique(s@, k as int - 1);
            }
            let r = crate::text::subrange_bytes(s, k, s.len());
            proof {
                assert(r@ =~= s@.skip(k as int));
            }
            return r;
        }
        k = k - 1;
    }
    let r = copy_bytes(s);
    proof {
        assert(forall|j: int| 0 <= j < s@.len() ==> s@[j] != 47);
        assert(last_slash(s@) is None);
    }
    r
}

/// The title section of a preview.
pub open spec fn title_items(doc: Doc) -> Seq<ItemView> {
    seq![ItemView::Title(doc.meta.title@)]
}

/// The type-signature section: caption, the trimmed signature as code, and
/// a separating blank line; absent without a signature.
pub open spec fn signature_items(doc: Doc) -> Seq<ItemView> {
    match doc.meta.signature {
        Some(sig) => seq![
            ItemView::SignatureLabel,
            ItemView::Code(trim(sig@)),
            ItemView::Blank,
        ],
        None => Seq::empty(),
    }
}

/// The definition section: caption and the literal callable expression as
/// code; absent without a recorded expression.
pub open spec fn definition_items(doc: Doc) -> Seq<ItemView> {
    match doc.meta.lambda_expr {
        Some(l) => seq![ItemView::DefinitionLabel, ItemView::Code(l@)],
        None => Seq::empty(),
    }
}

/// The rendered narrative content; absent without content.
pub open spec fn content_items(doc: Doc) -> Seq<ItemView> {
    match doc.content {
        Some(c) => match c.content {
            Some(t) => render_spec(t@),
            None => Seq::empty(),
        },
        None => Seq::empty(),
    }
}

/// The source section: a separating blank line and the short file name with
/// line and column, from the preferred position; absent without one.
pub open spec fn source_items(doc: Doc) -> Seq<ItemView> {
    match preferred_position(doc.meta) {
        Some(p) => seq![
            ItemView::Blank,
            ItemView::SourceLine { file: short_file(p.file@), line: p.line, column: p.column },
        ],
        None => Seq::empty(),
    }
}

/// The alias section: a separating blank line, the caption, and each alias
/// dot-joined on its own line; absent when the alias list is absent or
/// empty.
pub open spec fn alias_items(doc: Doc) -> Seq<ItemView> {
    if aliases_of(doc).len() > 0 {
        seq![ItemView::Blank, ItemView::AliasesLabel] + Seq::new(
            aliases_of(doc).len(),
            |i: int| ItemView::AliasLine(join(aliases_of(doc)[i], dot())),
        )
    } else {
        Seq::empty()
    }
}

/// Everything a preview of one document shows, in order.
pub open spec fn preview_spec(doc: Doc) -> Seq<ItemView> {
    title_items(doc) + signature_items(doc) + definition_items(doc) + content_items(doc)
        + source_items(doc) + alias_items(doc)
}

/// Builds the preview of one document: the fixed sections in fixed order,
/// each present only when its data exists.
#[verifier::rlimit(100)]
pub fn preview_items(doc: &Doc) -> (r: Vec<RenderItem>)
    ensures
        items_view(r) == preview_spec(*doc),
{
    let mut out: Vec<RenderItem> = Vec::new();
    out.push(RenderItem::Title(copy_bytes(&doc.meta.title)));
    proof {
        assert(items_view(out) =~= title_items(*doc));
    }
    let ghost acc1 = items_view(out);
    if let Some(sig) = &doc.meta.signature {
        out.push(RenderItem::SignatureLabel);
        out.push(RenderItem::Code(trim_bytes(sig)));
        out.push(RenderItem::Blank);
    }
    proof {
        assert(items_view(out) =~= acc1 + signature_items(*doc));
    }
    let ghost acc2 = items_view(out);
    if let Some(l) = &doc.meta.lambda_expr {
        out.push(RenderItem::DefinitionLabel);
        out.push(RenderItem::Code(copy_bytes(l)));
    }
    proof {
        assert(items_view(out) =~= acc2 + definition_items(*doc));
    }
    let ghost acc3 = items_view(out);
    if let Some(c) = &doc.content {
        if let Some(t) = &c.content {
            let mut rendered = render_content(t);
            let ghost rv = items_view(rendered);
            out.append(&mut rendered);
            proof {
                assert(items_view(out) =~= acc3 + rv);
            }
        }
    }
    proof {
        assert(items_view(out) =~= acc3 + content_items(*doc));
    }
    let ghost acc4 = items_view(out);
    match crate::links::source_position(doc) {
        Ok(p) => {
            let file = short_file_bytes(&p.file);
            out.push(RenderItem::Blank);
            out.push(RenderItem::SourceLine { file, line: p.line, column: p.column });
        },
        Err(_) => {},
    }
    proof {
        assert(items_view(out) =~= acc4 + source_items(*doc));
    }
    let ghost acc5 = items_view(out);
    if let Some(aliases) = &doc.meta.aliases {
        if aliases.len() > 0 {
            out.push(RenderItem::Blank);
            out.push(RenderItem::AliasesLabel);
            let sep = crate::data::dot_bytes();
            let ghost base = items_view(out);
            let mut k: usize = 0;
            while k < aliases.len()
                invariant
                    k <= aliases@.len(),
                    doc.meta.aliases == Some(*aliases),
                    sep@ == dot(),
                    items_view(out) == base + Seq::new(
                        k as nat,
                        |i: int| ItemView::AliasLine(join(aliases_of(*doc)[i], dot())),
                    ),
                decreases aliases.len() - k,
            {
                let ghost before = items_view(out);
                let line = join_bytes(&aliases[k], &sep);
                out.push(RenderItem::AliasLine(line));
                proof {
                    assert(aliases_of(*doc)[k as int] == crate::text::seqs_of(
                        aliases@[k as int],
                    ));
                    assert(items_view(out) =~= before.push(
                        ItemView::AliasLine(join(aliases_of(*doc)[k as int], dot())),
                    ));
                    assert(items_view(out) =~= base + Seq::new(
                        k as nat + 1,
                        |i: int| ItemView::AliasLine(join(aliases_of(*doc)[i], dot())),
                    ));
                }
                k = k + 1;
            }
        }
    }
    proof {
        assert(items_view(out) =~= acc5 + alias_items(*doc));
        assert(items_view(out) =~= preview_spec(*doc));
    }
    out
}

} // verus!
