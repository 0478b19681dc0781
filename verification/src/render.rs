//! The content renderer: a line-classification state machine that turns a
//! document's semi-structured narrative text into a sequence of output items.
//!
//! The machine tracks whether it is inside a fenced code block, a pending
//! code buffer, and whether the last emitted line was blank or a heading, so
//! that consecutive blank lines collapse, a blank line directly after a
//! heading is suppressed, and the boilerplate caption after an `Examples`
//! heading is dropped.

use vstd::prelude::*;

use crate::text::{
    append_bytes, contains_bytes, contains_seq, eq_bytes, starts_with, starts_with_bytes,
    subrange_bytes, trim, trim_bytes,
};

verus! {

/// One formatted output item. How an item is styled and printed is the
/// caller's business; the renderer only decides what is emitted, with which
/// role, in which order.
#[derive(Debug, PartialEq, Eq)]
pub enum RenderItem {
    /// An ordinary text line, inline code markers stripped and markdown
    /// escapes undone.
    Plain(Vec<u8>),
    /// One blank line.
    Blank,
    /// A top-level heading.
    Heading1(Vec<u8>),
    /// A second-level heading.
    Heading2(Vec<u8>),
    /// A definition-list item.
    Bullet(Vec<u8>),
    /// A code block to run through syntax highlighting.
    Code(Vec<u8>),
    /// The document title line.
    Title(Vec<u8>),
    /// The fixed `Type Signature:` caption.
    SignatureLabel,
    /// The fixed `Definition:` caption.
    DefinitionLabel,
    /// The fixed `Aliases:` caption.
    AliasesLabel,
    /// The `Source:` line: short file name, 1-based line and column.
    SourceLine { file: Vec<u8>, line: u32, column: u32 },
    /// One alias, dot-joined, listed under the `Aliases:` caption.
    AliasLine(Vec<u8>),
}

/// The mathematical value of a `RenderItem`.
pub enum ItemView {
    Plain(Seq<u8>),
    Blank,
    Heading1(Seq<u8>),
    Heading2(Seq<u8>),
    Bullet(Seq<u8>),
    Code(Seq<u8>),
    Title(Seq<u8>),
    SignatureLabel,
    DefinitionLabel,
    AliasesLabel,
    SourceLine { file: Seq<u8>, line: u32, column: u32 },
    AliasLine(Seq<u8>),
}

impl View for RenderItem {
    type V = ItemView;

    open spec fn view(&self) -> ItemView {
        match self {
            RenderItem::Plain(t) => ItemView::Plain(t@),
            RenderItem::Blank => ItemView::Blank,
            RenderItem::Heading1(t) => ItemView::Heading1(t@),
            RenderItem::Heading2(t) => ItemView::Heading2(t@),
            RenderItem::Bullet(t) => ItemView::Bullet(t@),
            RenderItem::Code(t) => ItemView::Code(t@),
            RenderItem::Title(t) => ItemView::Title(t@),
            RenderItem::SignatureLabel => ItemView::SignatureLabel,
            RenderItem::DefinitionLabel => ItemView::DefinitionLabel,
            RenderItem::AliasesLabel => ItemView::AliasesLabel,
            RenderItem::SourceLine { file, line, column } => ItemView::SourceLine {
                file: file@,
                line: *line,
                column: *column,
            },
            RenderItem::AliasLine(t) => ItemView::AliasLine(t@),
        }
    }
}

/// The element views of a list of items.
pub open spec fn items_view(v: Vec<RenderItem>) -> Seq<ItemView> {
    Seq::new(v@.len(), |i: int| v@[i]@)
}

/// A character that may stand after a backslash as a markdown escape:
/// `. - * _ # [ ] ( ) { } | \`.
pub open spec fn is_escapable(b: u8) -> bool {
    ||| b == 46
    ||| b == 45
    ||| b == 42
    ||| b == 95
    ||| b == 35
    ||| b == 91
    ||| b == 93
    ||| b == 40
    ||| b == 41
    ||| b == 123
    ||| b == 125
    ||| b == 124
    ||| b == 92
}

/// `s` with every backslash escape of the fixed character set undone, in one
/// left-to-right pass.
pub open spec fn unescape(s: Seq<u8>) -> Seq<u8>
    decreases s.len(),
{
    if s.len() == 0 {
        Seq::empty()
    } else if s.len() >= 2 && s[0] == 92 && is_escapable(s[1]) {
        seq![s[1]] + unescape(s.skip(2))
    } else {
        seq![s[0]] + unescape(s.skip(1))
    }
}

/// `s` with every backtick removed.
pub open spec fn strip_ticks(s: Seq<u8>) -> Seq<u8>
    decreases s.len(),
{
    if s.len() == 0 {
        Seq::empty()
    } else if s[0] == 96 {
        strip_ticks(s.skip(1))
    } else {
        seq![s[0]] + strip_ticks(s.skip(1))
    }
}

/// Inline code markers removed, then markdown escapes undone.
pub open spec fn strip_inline_spec(s: Seq<u8>) -> Seq<u8> {
    unescape(strip_ticks(s))
}

/// Undoes the backslash escapes for the fixed markdown character set.
pub fn unescape_markdown(s: &Vec<u8>) -> (r: Vec<u8>)
    ensures
        r@ == unescape(s@),
{
    let mut r: Vec<u8> = Vec::new();
    proof {
        assert(s@.skip(0) =~= s@);
        assert(r@ + unescape(s@) =~= unescape(s@));
    }
    let mut i: usize = 0;
    while i < s.len()
        invariant
            i <= s@.len(),
            r@ + unescape(s@.skip(i as int)) == unescape(s@),
        decreases s.len() - i,
    {
        let ghost rem = s@.skip(i as int);
        if s[i] == 92 && i + 1 < s.len() && is_escapable_byte(s[i + 1]) {
            r.push(s[i + 1]);
            proof {
                assert(rem[0] == s@[i as int] && rem[1] == s@[i as int + 1]);
                assert(rem.skip(2) =~= s@.skip(i as int + 2));
                assert(r@ + unescape(s@.skip(i as int + 2)) =~= unescape(s@));
            }
            i = i + 2;
        } else {
            r.push(s[i]);
            proof {
                assert(rem[0] == s@[i as int]);
                assert(rem.skip(1) =~= s@.skip(i as int + 1));
                if rem.len() >= 2 && rem[0] == 92 && is_escapable(rem[1]) {
                    assert(false);
                }
                assert(r@ + unescape(s@.skip(i as int + 1)) =~= unescape(s@));
            }
            i = i + 1;
        }
    }
    proof {
        assert(s@.skip(s@.len() as int) =~= Seq::<u8>::empty());
        assert(r@ =~= unescape(s@));
    }
    r
}

/// Exec mirror of `is_escapable`.
pub fn is_escapable_byte(b: u8) -> (r: bool)
    ensures
        r == is_escapable(b),
{
    b == 46 || b == 45 || b == 42 || b == 95 || b == 35 || b == 91 || b == 93 || b == 40 || b == 41
        || b == 123 || b == 125 || b == 124 || b == 92
}

/// Removes every backtick, then undoes markdown escapes. Backtick spans are
/// not preserved; only the marker characters are dropped.
pub fn strip_inline_code(s: &Vec<u8>) -> (r: Vec<u8>)
    ensures
        r@ == strip_inline_spec(s@),
{
    let mut t: Vec<u8> = Vec::new();
    proof {
        assert(s@.skip(0) =~= s@);
        assert(t@ + strip_ticks(s@) =~= strip_ticks(s@));
    }
    let mut i: usize = 0;
    while i < s.len()
        invariant
            i <= s@.len(),
            t@ + strip_ticks(s@.skip(i as int)) == strip_ticks(s@),
        decreases s.len() - i,
    {
        let ghost rem = s@.skip(i as int);
        if s[i] != 96 {
            t.push(s[i]);
        }
        proof {
            assert(rem[0] == s@[i as int]);
            assert(rem.skip(1) =~= s@.skip(i as int + 1));
            assert(t@ + strip_ticks(s@.skip(i as int + 1)) =~= strip_ticks(s@));
        }
        i = i + 1;
    }
    proof {
        assert(s@.skip(s@.len() as int) =~= Seq::<u8>::empty());
        assert(t@ =~= strip_ticks(s@));
    }
    unescape_markdown(&t)
}

/// The position of the first newline in `s`, if any.
pub open spec fn first_nl(s: Seq<u8>) -> Option<int> {
    if exists|i: int| 0 <= i < s.len() && s[i] == 10 {
        Some(
            choose|i: int|
                0 <= i < s.len() && s[i] == 10 && forall|j: int| 0 <= j < i ==> s[j] != 10,
        )
    } else {
        None
    }
}

/// A position that holds a newline and has none before it is the first one.
proof fn lemma_first_nl_unique(s: Seq<u8>, i: int)
    requires
        0 <= i < s.len(),
        s[i] == 10,
        forall|j: int| 0 <= j < i ==> s[j] != 10,
    ensures
        first_nl(s) == Some(i),
{
    assert(exists|k: int| 0 <= k < s.len() && s[k] == 10);
    let c = choose|k: int|
        0 <= k < s.len() && s[k] == 10 && forall|j: int| 0 <= j < k ==> s[j] != 10;
    if c < i {
        assert(s[c] != 10);
    }
    if c > i {
        assert(s[i] != 10);
    }
}

/// One split-off line with a trailing carriage return removed.
pub open spec fn drop_cr(line: Seq<u8>) -> Seq<u8> {
    if line.len() > 0 && line.last() == 13 {
        line.drop_last()
    } else {
        line
    }
}

/// The lines of `s`: split at each newline, one trailing carriage return
/// stripped per line, and no final empty line when `s` ends with a newline.
#[verifier::opaque]
pub open spec fn lines_spec(s: Seq<u8>) -> Seq<Seq<u8>>
    decreases s.len(),
{
    if s.len() == 0 {
        Seq::empty()
    } else {
        match first_nl(s) {
            None => seq![drop_cr(s)],
            // The first newline always lies inside `s`; the range test only
            // makes the recursion visibly well-founded.
            Some(i) => if 0 <= i < s.len() {
                seq![drop_cr(s.take(i))] + lines_spec(s.skip(i + 1))
            } else {
                seq![drop_cr(s)]
            },
        }
    }
}

/// The lines of the tail starting at `pos` begin with the segment that runs
/// to the next newline at `e` (or to the end), carriage return stripped.
/// Splitting nothing yields no lines.
proof fn lemma_lines_empty(s: Seq<u8>)
    requires
        s.len() == 0,
    ensures
        lines_spec(s) == Seq::<Seq<u8>>::empty(),
{
    reveal(lines_spec);
}

proof fn lemma_lines_step(t: Seq<u8>, pos: int, e: int)
    requires
        0 <= pos <= e <= t.len(),
        pos < t.len(),
        forall|j: int| pos <= j < e ==> t[j] != 10,
        e < t.len() ==> t[e] == 10,
    ensures
        e < t.len() ==> lines_spec(t.skip(pos)) == seq![drop_cr(t.subrange(pos, e))]
            + lines_spec(t.skip(e + 1)),
        e == t.len() ==> lines_spec(t.skip(pos)) == seq![drop_cr(t.subrange(pos, e))],
{
    reveal(lines_spec);
    let rem = t.skip(pos);
    let seg = t.subrange(pos, e);
    if e < t.len() {
        assert(rem[e - pos] == 10);
        assert(forall|j: int| 0 <= j < e - pos ==> rem[j] != 10);
        lemma_first_nl_unique(rem, e - pos);
        assert(rem.take(e - pos) =~= seg);
        assert(rem.skip(e - pos + 1) =~= t.skip(e + 1));
    } else {
        assert(forall|j: int| 0 <= j < rem.len() ==> rem[j] != 10);
        assert(first_nl(rem) is None);
        assert(rem =~= seg);
    }
}

/// Splits text into lines as `str::lines` does.
#[verifier::rlimit(100)]
pub fn split_lines(text: &Vec<u8>) -> (r: Vec<Vec<u8>>)
    ensures
        crate::text::seqs_of(r) == lines_spec(text@),
{
    let mut r: Vec<Vec<u8>> = Vec::new();
    let mut pos: usize = 0;
    proof {
        assert(text@.skip(0) =~= text@);
        assert(crate::text::seqs_of(r) + lines_spec(text@.skip(0)) =~= lines_spec(text@));
    }
    while pos < text.len()
        invariant
            pos <= text@.len(),
            crate::text::seqs_of(r) + lines_spec(text@.skip(pos as int)) == lines_spec(text@),
        decreases text.len() - pos,
    {
        let ghost rv = crate::text::seqs_of(r);
        let ghost rem = text@.skip(pos as int);
        let mut e: usize = pos;
        while e < text.len() && text[e] != 10
            invariant
                pos <= e <= text@.len(),
                forall|j: int| pos <= j < e ==> text@[j] != 10,
            decreases text.len() - e,
        {
            e = e + 1;
        }
        let mut line = subrange_bytes(text, pos, e);
        if line.len() > 0 && line[line.len() - 1] == 13 {
            line.pop();
        }
        proof {
            lemma_lines_step(text@, pos as int, e as int);
            assert(line@ == drop_cr(text@.subrange(pos as int, e as int)));
        }
        r.push(line);
        if e < text.len() {
            pos = e + 1;
        } else {
            pos = e;
            proof {
                assert(text@.skip(pos as int) =~= Seq::<u8>::empty());
                lemma_lines_empty(text@.skip(pos as int));
                assert(seq![line@] + lines_spec(text@.skip(pos as int)) =~= seq![line@]);
            }
        }
        proof {
            assert(crate::text::seqs_of(r) =~= rv + seq![line@]);
            assert((rv + seq![line@]) + lines_spec(text@.skip(pos as int)) =~= rv + (seq![line@]
                + lines_spec(text@.skip(pos as int))));
        }
    }
    proof {
        assert(text@.skip(pos as int) =~= Seq::<u8>::empty());
        lemma_lines_empty(text@.skip(pos as int));
        assert(crate::text::seqs_of(r) + lines_spec(text@.skip(pos as int)) =~= crate::text::seqs_of(
            r,
        ));
    }
    r
}


/// The `\u{60}``\u{60}``\u{60}` code fence.
pub open spec fn fence() -> Seq<u8> {
    seq![96u8, 96u8, 96u8]
}

/// A code fence opening a `nix` block.
pub open spec fn fence_nix() -> Seq<u8> {
    seq![96u8, 96u8, 96u8, 110u8, 105u8, 120u8]
}

/// The `:::` structural marker that is silently dropped.
pub open spec fn marker() -> Seq<u8> {
    seq![58u8, 58u8, 58u8]
}

/// The `: ` prefix of a definition-list item.
pub open spec fn bullet_prefix() -> Seq<u8> {
    seq![58u8, 32u8]
}

/// The `# ` prefix of a top-level heading.
pub open spec fn h1_prefix() -> Seq<u8> {
    seq![35u8, 32u8]
}

/// The `## ` prefix of a second-level heading.
pub open spec fn h2_prefix() -> Seq<u8> {
    seq![35u8, 35u8, 32u8]
}

/// The phrase `usage example` that marks the boilerplate caption after an
/// `Examples` heading.
pub open spec fn usage_phrase() -> Seq<u8> {
    seq![117u8, 115u8, 97u8, 103u8, 101u8, 32u8, 101u8, 120u8, 97u8, 109u8, 112u8, 108u8, 101u8]
}

/// The heading text `Examples`.
pub open spec fn examples_word() -> Seq<u8> {
    seq![69u8, 120u8, 97u8, 109u8, 112u8, 108u8, 101u8, 115u8]
}

/// A trimmed line that opens or closes a code block: exactly three
/// backticks, or a backtick fence carrying the `nix` tag.
pub open spec fn is_fence_line(t: Seq<u8>) -> bool {
    t == fence() || starts_with(t, fence_nix())
}

/// The renderer state threaded through one pass over the lines.
pub struct RenderState {
    /// Inside a fenced code block.
    pub in_code: bool,
    /// The pending code buffer, filled while inside a code block.
    pub buffer: Vec<u8>,
    /// The previously emitted line was blank.
    pub last_was_empty: bool,
    /// The previously emitted line was a heading.
    pub last_was_heading: bool,
    /// Drop the next line holding the boilerplate caption.
    pub skip_next_usage: bool,
}

/// The mathematical value of a `RenderState`.
#[verifier::ext_equal]
pub struct StateView {
    pub in_code: bool,
    pub buffer: Seq<u8>,
    pub last_was_empty: bool,
    pub last_was_heading: bool,
    pub skip_next_usage: bool,
}

impl View for RenderState {
    type V = StateView;

    open spec fn view(&self) -> StateView {
        StateView {
            in_code: self.in_code,
            buffer: self.buffer@,
            last_was_empty: self.last_was_empty,
            last_was_heading: self.last_was_heading,
            skip_next_usage: self.skip_next_usage,
        }
    }
}

/// The state the renderer starts in.
pub open spec fn init_state() -> StateView {
    StateView {
        in_code: false,
        buffer: Seq::empty(),
        last_was_empty: false,
        last_was_heading: false,
        skip_next_usage: false,
    }
}

impl RenderState {
    /// A fresh renderer state.
    pub fn new() -> (r: RenderState)
        ensures
            r@ == init_state(),
    {
        let r = RenderState {
            in_code: false,
            buffer: Vec::new(),
            last_was_empty: false,
            last_was_heading: false,
            skip_next_usage: false,
        };
        proof {
            assert(r@ =~= init_state());
        }
        r
    }
}

/// One transition of the renderer: the next state and the items emitted for
/// one line, with the rules tried in priority order. Matching looks at the
/// trimmed line; a plain line and the code buffer keep the original line.
pub open spec fn step(s: StateView, line: Seq<u8>) -> (StateView, Seq<ItemView>) {
    let t = trim(line);
    if is_fence_line(t) {
        if !s.in_code {
            (
                StateView {
                    in_code: true,
                    buffer: Seq::empty(),
                    last_was_empty: s.last_was_empty,
                    last_was_heading: false,
                    skip_next_usage: false,
                },
                Seq::empty(),
            )
        } else {
            (
                StateView {
                    in_code: false,
                    buffer: s.buffer,
                    last_was_empty: s.last_was_empty,
                    last_was_heading: false,
                    skip_next_usage: false,
                },
                if s.buffer.len() > 0 {
                    seq![ItemView::Code(trim(s.buffer))]
                } else {
                    Seq::empty()
                },
            )
        }
    } else if s.in_code {
        (
            StateView {
                in_code: s.in_code,
                buffer: s.buffer + line + seq![10u8],
                last_was_empty: s.last_was_empty,
                last_was_heading: s.last_was_heading,
                skip_next_usage: s.skip_next_usage,
            },
            Seq::empty(),
        )
    } else if starts_with(t, marker()) {
        (s, Seq::empty())
    } else if t.len() == 0 {
        if !s.last_was_empty && !s.last_was_heading {
            (
                StateView {
                    in_code: s.in_code,
                    buffer: s.buffer,
                    last_was_empty: true,
                    last_was_heading: false,
                    skip_next_usage: s.skip_next_usage,
                },
                seq![ItemView::Blank],
            )
        } else {
            (
                StateView {
                    in_code: s.in_code,
                    buffer: s.buffer,
                    last_was_empty: s.last_was_empty,
                    last_was_heading: false,
                    skip_next_usage: s.skip_next_usage,
                },
                Seq::empty(),
            )
        }
    } else if s.skip_next_usage && contains_seq(t, usage_phrase()) {
        (
            StateView {
                in_code: s.in_code,
                buffer: s.buffer,
                last_was_empty: s.last_was_empty,
                last_was_heading: s.last_was_heading,
                skip_next_usage: false,
            },
            Seq::empty(),
        )
    } else if starts_with(t, bullet_prefix()) {
        (
            StateView {
                in_code: s.in_code,
                buffer: s.buffer,
                last_was_empty: false,
                last_was_heading: false,
                skip_next_usage: false,
            },
            seq![ItemView::Bullet(strip_inline_spec(t.skip(2)))],
        )
    } else if starts_with(t, h1_prefix()) {
        (
            StateView {
                in_code: s.in_code,
                buffer: s.buffer,
                last_was_empty: false,
                last_was_heading: true,
                skip_next_usage: t.skip(2) == examples_word(),
            },
            seq![ItemView::Heading1(strip_inline_spec(t.skip(2)))],
        )
    } else if starts_with(t, h2_prefix()) {
        (
            StateView {
                in_code: s.in_code,
                buffer: s.buffer,
                last_was_empty: false,
                last_was_heading: true,
                skip_next_usage: t.skip(3) == examples_word(),
            },
            seq![ItemView::Heading2(strip_inline_spec(t.skip(3)))],
        )
    } else {
        (
            StateView {
                in_code: s.in_code,
                buffer: s.buffer,
                last_was_empty: false,
                last_was_heading: false,
                skip_next_usage: false,
            },
            seq![ItemView::Plain(strip_inline_spec(line))],
        )
    }
}

/// The state and output after running the machine over all lines, starting
/// from the initial state.
pub open spec fn run_machine(lines: Seq<Seq<u8>>) -> (StateView, Seq<ItemView>)
    decreases lines.len(),
{
    if lines.len() == 0 {
        (init_state(), Seq::empty())
    } else {
        let prev = run_machine(lines.drop_last());
        let st = step(prev.0, lines.last());
        (st.0, prev.1 + st.1)
    }
}

/// What the renderer emits for a whole narrative text.
pub open spec fn render_spec(text: Seq<u8>) -> Seq<ItemView> {
    run_machine(lines_spec(text)).1
}


/// Exec value of `fence`.
fn fence_pat() -> (r: Vec<u8>)
    ensures
        r@ == fence(),
{
    let r: Vec<u8> = vec![96u8, 96u8, 96u8];
    proof {
        assert(r@ =~= fence());
    }
    r
}

/// Exec value of `fence_nix`.
fn fence_nix_pat() -> (r: Vec<u8>)
    ensures
        r@ == fence_nix(),
{
    let r: Vec<u8> = vec![96u8, 96u8, 96u8, 110u8, 105u8, 120u8];
    proof {
        assert(r@ =~= fence_nix());
    }
    r
}

/// Exec value of `marker`.
fn marker_pat() -> (r: Vec<u8>)
    ensures
        r@ == marker(),
{
    let r: Vec<u8> = vec![58u8, 58u8, 58u8];
    proof {
        assert(r@ =~= marker());
    }
    r
}

/// Exec value of `bullet_prefix`.
fn bullet_prefix_pat() -> (r: Vec<u8>)
    ensures
        r@ == bullet_prefix(),
{
    let r: Vec<u8> = vec![58u8, 32u8];
    proof {
        assert(r@ =~= bullet_prefix());
    }
    r
}

/// Exec value of `h1_prefix`.
fn h1_prefix_pat() -> (r: Vec<u8>)
    ensures
        r@ == h1_prefix(),
{
    let r: Vec<u8> = vec![35u8, 32u8];
    proof {
        assert(r@ =~= h1_prefix());
    }
    r
}

/// Exec value of `h2_prefix`.
fn h2_prefix_pat() -> (r: Vec<u8>)
    ensures
        r@ == h2_prefix(),
{
    let r: Vec<u8> = vec![35u8, 35u8, 32u8];
    proof {
        assert(r@ =~= h2_prefix());
    }
    r
}

/// Exec value of `usage_phrase`.
fn usage_phrase_pat() -> (r: Vec<u8>)
    ensures
        r@ == usage_phrase(),
{
    let r: Vec<u8> = vec![
        117u8, 115u8, 97u8, 103u8, 101u8, 32u8, 101u8, 120u8, 97u8, 109u8, 112u8, 108u8, 101u8,
    ];
    proof {
        assert(r@ =~= usage_phrase());
    }
    r
}

/// Exec value of `examples_word`.
fn examples_word_pat() -> (r: Vec<u8>)
    ensures
        r@ == examples_word(),
{
    let r: Vec<u8> = vec![69u8, 120u8, 97u8, 109u8, 112u8, 108u8, 101u8, 115u8];
    proof {
        assert(r@ =~= examples_word());
    }
    r
}

/// Feeds one line to the renderer: the state advances by one `step` and the
/// emitted items are appended to `out`.
#[verifier::rlimit(100)]
pub fn render_line(state: &mut RenderState, line: &Vec<u8>, out: &mut Vec<RenderItem>)
    ensures
        final(state)@ == step(old(state)@, line@).0,
        items_view(*final(out)) == items_view(*old(out)) + step(old(state)@, line@).1,
{
    let t = trim_bytes(line);
    let fence_p = fence_pat();
    let fence_nix_p = fence_nix_pat();
    if eq_bytes(&t, &fence_p) || starts_with_bytes(&t, &fence_nix_p) {
        if !state.in_code {
            state.in_code = true;
            state.buffer.clear();
            state.last_was_heading = false;
            state.skip_next_usage = false;
            proof {
                assert(state@ =~= step(old(state)@, line@).0);
                assert(items_view(*out) =~= items_view(*old(out)) + step(old(state)@, line@).1);
            }
        } else {
            state.in_code = false;
            state.last_was_heading = false;
            state.skip_next_usage = false;
            if state.buffer.len() > 0 {
                let code = trim_bytes(&state.buffer);
                out.push(RenderItem::Code(code));
                proof {
                    assert(state@ =~= step(old(state)@, line@).0);
                    assert(items_view(*out) =~= items_view(*old(out)) + step(old(state)@, line@).1);
                }
            } else {
                proof {
                    assert(state@ =~= step(old(state)@, line@).0);
                    assert(items_view(*out) =~= items_view(*old(out)) + step(old(state)@, line@).1);
                }
            }
        }
    } else if state.in_code {
        append_bytes(&mut state.buffer, line);
        state.buffer.push(10);
        proof {
            assert(state@.buffer =~= old(state)@.buffer + line@ + seq![10u8]);
            assert(state@ =~= step(old(state)@, line@).0);
            assert(items_view(*out) =~= items_view(*old(out)) + step(old(state)@, line@).1);
        }
    } else {
        let marker_p = marker_pat();
        if starts_with_bytes(&t, &marker_p) {
            proof {
                assert(state@ =~= step(old(state)@, line@).0);
                assert(items_view(*out) =~= items_view(*old(out)) + step(old(state)@, line@).1);
            }
        } else if t.len() == 0 {
            if !state.last_was_empty && !state.last_was_heading {
                out.push(RenderItem::Blank);
                state.last_was_empty = true;
                state.last_was_heading = false;
                proof {
                    assert(state@ =~= step(old(state)@, line@).0);
                    assert(items_view(*out) =~= items_view(*old(out)) + step(old(state)@, line@).1);
                }
            } else {
                state.last_was_heading = false;
                proof {
                    assert(state@ =~= step(old(state)@, line@).0);
                    assert(items_view(*out) =~= items_view(*old(out)) + step(old(state)@, line@).1);
                }
            }
        } else {
            let usage_p = usage_phrase_pat();
            let skip_this = state.skip_next_usage && contains_bytes(&t, &usage_p);
            if skip_this {
                state.skip_next_usage = false;
                proof {
                    assert(state@ =~= step(old(state)@, line@).0);
                    assert(items_view(*out) =~= items_view(*old(out)) + step(old(state)@, line@).1);
                }
            } else {
                let bullet_p = bullet_prefix_pat();
                let h1_p = h1_prefix_pat();
                let h2_p = h2_prefix_pat();
                if starts_with_bytes(&t, &bullet_p) {
                    let rest = subrange_bytes(&t, 2, t.len());
                    proof {
                        assert(rest@ =~= trim(line@).skip(2));
                    }
                    let item = strip_inline_code(&rest);
                    out.push(RenderItem::Bullet(item));
                    state.last_was_empty = false;
                    state.last_was_heading = false;
                    state.skip_next_usage = false;
                    proof {
                        assert(state@ =~= step(old(state)@, line@).0);
                        assert(items_view(*out) =~= items_view(*old(out)) + step(
                            old(state)@,
                            line@,
                        ).1);
                    }
                } else if starts_with_bytes(&t, &h1_p) {
                    let rest = subrange_bytes(&t, 2, t.len());
                    proof {
                        assert(rest@ =~= trim(line@).skip(2));
                    }
                    let examples_p = examples_word_pat();
                    let is_examples = eq_bytes(&rest, &examples_p);
                    let item = strip_inline_code(&rest);
                    out.push(RenderItem::Heading1(item));
                    state.last_was_empty = false;
                    state.last_was_heading = true;
                    state.skip_next_usage = is_examples;
                    proof {
                        assert(state@ =~= step(old(state)@, line@).0);
                        assert(items_view(*out) =~= items_view(*old(out)) + step(
                            old(state)@,
                            line@,
                        ).1);
                    }
                } else if starts_with_bytes(&t, &h2_p) {
                    let rest = subrange_bytes(&t, 3, t.len());
                    proof {
                        assert(rest@ =~= trim(line@).skip(3));
                    }
                    let examples_p = examples_word_pat();
                    let is_examples = eq_bytes(&rest, &examples_p);
                    let item = strip_inline_code(&rest);
                    out.push(RenderItem::Heading2(item));
                    state.last_was_empty = false;
                    state.last_was_heading = true;
                    state.skip_next_usage = is_examples;
                    proof {
                        assert(state@ =~= step(old(state)@, line@).0);
                        assert(items_view(*out) =~= items_view(*old(out)) + step(
                            old(state)@,
                            line@,
                        ).1);
                    }
                } else {
                    let item = strip_inline_code(line);
                    out.push(RenderItem::Plain(item));
                    state.last_was_empty = false;
                    state.last_was_heading = false;
                    state.skip_next_usage = false;
                    proof {
                        assert(state@ =~= step(old(state)@, line@).0);
                        assert(items_view(*out) =~= items_view(*old(out)) + step(
                            old(state)@,
                            line@,
                        ).1);
                    }
                }
            }
        }
    }
}

/// Renders a document's narrative text: one pass of the line machine over
/// the split lines, from the initial state.
pub fn render_content(text: &Vec<u8>) -> (r: Vec<RenderItem>)
    ensures
        items_view(r) == render_spec(text@),
{
    let lines = split_lines(text);
    let mut state = RenderState::new();
    let mut out: Vec<RenderItem> = Vec::new();
    proof {
        assert(crate::text::seqs_of(lines).take(0) =~= Seq::<Seq<u8>>::empty());
        assert(items_view(out) =~= Seq::<ItemView>::empty());
    }
    let mut i: usize = 0;
    while i < lines.len()
        invariant
            i <= lines@.len(),
            crate::text::seqs_of(lines) == lines_spec(text@),
            state@ == run_machine(crate::text::seqs_of(lines).take(i as int)).0,
            items_view(out) == run_machine(crate::text::seqs_of(lines).take(i as int)).1,
        decreases lines.len() - i,
    {
        render_line(&mut state, &lines[i], &mut out);
        proof {
            let lv = crate::text::seqs_of(lines);
            assert(lv.take(i as int + 1).drop_last() =~= lv.take(i as int));
            assert(lv.take(i as int + 1).last() == lines@[i as int]@);
        }
        i = i + 1;
    }
    proof {
        assert(crate::text::seqs_of(lines).take(lines@.len() as int) =~= crate::text::seqs_of(
            lines,
        ));
    }
    out
}

} // verus!
