//! Inlay hints the editor shows: inferred types, ownership modifiers at call arguments,
//! copy points, auto-promotion opportunities, suspension points and thread-pool routing,
//! and where a hint is placed on a source line.
use vstd::prelude::*;

use crate::diagnostics::SourceSpan;
use crate::syntax::OwnershipModifier;
use crate::types::{Type, TypeView};
use vstd::string::StringSliceAdditionalSpecFns;

verus! {

/// Inferred type annotation for an un-annotated `let` binding, rendered as `: TypeName`
/// at `position` (the byte offset after the binding name).
#[derive(Debug)]
pub struct TypeHint {
    pub position: usize,
    /// The inferred type as a Yinz type-name string, e.g. `int` or `Player`.
    pub type_text: String,
}

/// Ownership modifier hint at a function-call argument: `share`, `lend` or `give`.
#[derive(Debug)]
pub struct OwnershipHint {
    pub position: usize,
    pub modifier: String,
}

/// Trivially-copyable copy-point hint at a function-call argument.
#[derive(Debug)]
pub struct CopyHint {
    pub position: usize,
    /// Human-readable size annotation, e.g. `8 bytes`.
    pub size_text: String,
}

/// Auto-promotion hint kind.
#[derive(Clone, Copy, Debug, PartialEq, Eq)]
pub enum PromotionKind {
    /// `array<T>` → `fixed<T>` (binding never grown).
    ArrayToFixed,
    /// `let` → `const` (binding never reassigned or mutated).
    LetToConst,
}

/// Decoration hint for an auto-promotion opportunity.
#[derive(Debug)]
pub struct PromotionHint {
    /// Byte offset of the `let` keyword.
    pub position: usize,
    pub kind: PromotionKind,
    /// Short label shown in the hint.
    pub label: String,
    /// For `ArrayToFixed`: the span of the `array` keyword in the annotation.
    pub type_keyword_span: Option<SourceSpan>,
}

/// Suspension-point hint: a muted `wait` before a call whose callee suspends.
#[derive(Debug)]
pub struct WaitPointHint {
    /// Byte offset just before the call expression.
    pub position: usize,
    /// The callee name, for the contextual explanation.
    pub callee_name: String,
}

/// Thread-pool routing hint after a `background` statement.
#[derive(Debug)]
pub struct BackgroundRoutingHint {
    /// Byte offset at the end of the `background` expression.
    pub position: usize,
    /// The rendered muted comment label.
    pub label: String,
}

/// The inferred modifier of a `background` argument.
#[derive(Clone, Copy, Debug, PartialEq, Eq)]
pub enum BgOwnership {
    Give,
    Copy,
}

/// The size text a copy hint shows for a trivially-copyable type.
pub open spec fn spec_copy_size_text(t: TypeView) -> Seq<char> {
    match t {
        TypeView::Bool => "1 byte"@,
        TypeView::Int | TypeView::Float => "8 bytes"@,
        TypeView::Number { .. } => "16 bytes"@,
        _ => "N bytes"@,
    }
}

/// The size annotation of a copy hint.
pub fn copy_size_text(ty: &Type) -> (s: &'static str)
    ensures
        s@ == spec_copy_size_text(ty@),
{
    match ty {
        Type::Bool => "1 byte",
        Type::Int | Type::Float => "8 bytes",
        Type::Number { .. } => "16 bytes",
        _ => "N bytes",
    }
}

/// The keyword a declared modifier is shown as.
pub open spec fn spec_ownership_modifier_str(own: OwnershipModifier) -> Seq<char> {
    match own {
        OwnershipModifier::Share => "share"@,
        OwnershipModifier::Lend => "lend"@,
        OwnershipModifier::Give => "give"@,
    }
}

/// Map an ownership modifier to the keyword shown in the hint.
pub fn ownership_modifier_str(own: &OwnershipModifier) -> (s: &'static str)
    ensures
        s@ == spec_ownership_modifier_str(*own),
{
    match own {
        OwnershipModifier::Share => "share",
        OwnershipModifier::Lend => "lend",
        OwnershipModifier::Give => "give",
    }
}

/// Map the inferred modifier of a `background` argument to the hint string.
pub fn bg_ownership_modifier_str(own: &BgOwnership) -> (s: &'static str)
    ensures
        s@ == match *own {
            BgOwnership::Give => "give"@,
            BgOwnership::Copy => "copy"@,
        },
{
    match own {
        BgOwnership::Give => "give",
        BgOwnership::Copy => "copy",
    }
}

/// The start of the line holding byte `s`: just after the last newline before it, or 0.
pub open spec fn line_start_of(b: Seq<u8>, s: int) -> int
    decreases s,
{
    if s <= 0 {
        0
    } else if b[s - 1] == 10u8 {
        s
    } else {
        line_start_of(b, s - 1)
    }
}

/// The end of the line starting at `i`: the next newline, or the end of the text.
pub open spec fn line_end_from(b: Seq<u8>, i: int) -> int
    decreases b.len() - i,
{
    if i >= b.len() {
        b.len() as int
    } else if b[i] == 10u8 {
        i
    } else {
        line_end_from(b, i + 1)
    }
}

/// Scanning the line `b[i..end)` with the given open-string state, the offset of the first
/// `//` outside backtick and double-quoted strings (a backslash inside a string skips the
/// next byte).
pub open spec fn comment_start(b: Seq<u8>, end: int, i: int, in_bt: bool, in_dq: bool) -> Option<int>
    decreases (if i < end {
        end - i
    } else {
        0
    }),
{
    if i >= end {
        None
    } else {
        let c = b[i];
        if c == 92u8 && (in_bt || in_dq) {
            comment_start(b, end, i + 2, in_bt, in_dq)
        } else if c == 96u8 && !in_dq {
            comment_start(b, end, i + 1, !in_bt, in_dq)
        } else if c == 34u8 && !in_bt {
            comment_start(b, end, i + 1, in_bt, !in_dq)
        } else if c == 47u8 && !in_bt && !in_dq && i + 1 < end && b[i + 1] == 47u8 {
            Some(i)
        } else {
            comment_start(b, end, i + 1, in_bt, in_dq)
        }
    }
}

/// Where a replacement hint for the statement starting at byte `s` goes: before the
/// line's trailing `//` comment when it has one, else at the end of the line.
pub open spec fn spec_hint_position(b: Seq<u8>, s: int) -> int {
    let ls = line_start_of(b, s);
    let le = line_end_from(b, ls);
    match comment_start(b, le, ls, false, false) {
        Some(i) => i,
        None => le,
    }
}

proof fn lemma_line_start_bounds(b: Seq<u8>, s: int)
    requires
        0 <= s <= b.len(),
    ensures
        0 <= line_start_of(b, s) <= s,
        forall|j: int| line_start_of(b, s) <= j < s ==> b[j] != 10u8,
    decreases s,
{
    if s > 0 && b[s - 1] != 10u8 {
        lemma_line_start_bounds(b, s - 1);
    }
}

proof fn lemma_line_end_bounds(b: Seq<u8>, i: int)
    requires
        0 <= i <= b.len(),
    ensures
        i <= line_end_from(b, i) <= b.len(),
    decreases b.len() - i,
{
    if i < b.len() && b[i] != 10u8 {
        lemma_line_end_bounds(b, i + 1);
    }
}

/// The byte offset where a replacement hint for the `let` starting at `stmt_start` goes:
/// just before a trailing `//` line comment outside string literals, or at end of line.
pub fn hint_position_end_of_stmt_or_before_comment(text: &str, stmt_start: usize) -> (r: usize)
    requires
        stmt_start <= text.spec_bytes().len(),
    ensures
        r == spec_hint_position(text.spec_bytes(), stmt_start as int),
{
    let b = text.as_bytes();
    let ghost bs = text.spec_bytes();
    let n = b.len();
    let mut ls = stmt_start;
    while ls > 0 && b[ls - 1] != 10u8
        invariant
            ls <= stmt_start,
            n == bs.len(),
            b@ == bs,
            stmt_start <= n,
            line_start_of(bs, stmt_start as int) == line_start_of(bs, ls as int),
        decreases ls,
    {
        ls = ls - 1;
    }
    let mut le = ls;
    while le < n && b[le] != 10u8
        invariant
            ls <= le <= n,
            n == bs.len(),
            b@ == bs,
            line_end_from(bs, ls as int) == line_end_from(bs, le as int),
        decreases n - le,
    {
        le = le + 1;
    }
    proof {
        assert(line_start_of(bs, stmt_start as int) == ls);
        assert(line_end_from(bs, ls as int) == le);
    }
    let mut in_bt = false;
    let mut in_dq = false;
    let mut i = ls;
    while i < le
        invariant
            ls <= le <= n,
            n == bs.len(),
            b@ == bs,
            i >= ls,
            bs == text.spec_bytes(),
            ls == line_start_of(bs, stmt_start as int),
            le == line_end_from(bs, ls as int),
            comment_start(bs, le as int, ls as int, false, false) == comment_start(bs, le as int, i as int, in_bt, in_dq),
        decreases le - i,
    {
        let c = b[i];
        if c == 92u8 && (in_bt || in_dq) {
            if le - i <= 2 {
                proof {
                    assert(comment_start(bs, le as int, i + 2, in_bt, in_dq) is None);
                }
                return le;
            }
            i = i + 2;
        } else if c == 96u8 && !in_dq {
            in_bt = !in_bt;
            i = i + 1;
        } else if c == 34u8 && !in_bt {
            in_dq = !in_dq;
            i = i + 1;
        } else if c == 47u8 && !in_bt && !in_dq && i + 1 < le && b[i + 1] == 47u8 {
            proof {
                assert(bs[i as int] == 47u8);
                assert(bs[i + 1] == 47u8);
                assert(comment_start(bs, le as int, i as int, in_bt, in_dq) == Some(i as int));
                assert(spec_hint_position(bs, stmt_start as int) == i);
            }
            return i;
        } else {
            i = i + 1;
        }
    }
    le
}

} // verus!
