//! The one answer to "what is an owned, independent copy of a value of this type?".
//!
//! `.copy()` returns a genuinely independent value for every type where independence is
//! meaningful and is refused at compile time where it is not: every type lands in exactly
//! one of two buckets, a real copy or a [`CopyRefusal`] with teaching text. For a type whose
//! contents can never change (`int`, `string`, an `options` tag, a `range`) the receiver
//! already is an independent value, so handing it back is a copy, not an alias.
//!
//! Known residuals, named rather than hidden: [`OwnedCopy::ShapeMemcpy`] copies a shape's
//! own bytes (pointer fields stay shared) and [`OwnedCopy::MapClone`] copies a map's buffers
//! (pointer value cells stay shared). `array<T>` is followed all the way down through
//! [`ElemCopy::Nested`].
use vstd::prelude::*;

use crate::text::lit;
use crate::types::{render_type, spec_render_type, Type, TypeView};

verus! {

/// How to produce an owned, independent copy of a value of some type — or why one cannot
/// exist.
#[derive(Clone, Debug, PartialEq, Eq)]
pub enum OwnedCopy {
    /// The receiver's bits are the copy: an immediate or a pointer to immutable bytes.
    ReceiverIsCopy,
    /// Immutable contents in the producing frame's storage; `heap_cell` names how a
    /// `background` spawn re-homes it.
    FrameLocalImmutable { heap_cell: HeapCell },
    /// A `shape`: copy the struct's own bytes.
    ShapeMemcpy,
    /// `fixed<T>`: copy the inline cells.
    FixedMemcpy,
    /// `array<T>`: a fresh header and buffer; `elem` says whether the cells need copying too.
    ArrayClone { elem: ElemCopy },
    /// `map<K, V>`: a fresh header and buffers.
    MapClone,
    /// `maybe<T>`: a fresh envelope cell.
    MaybeCellClone,
    /// No independent copy exists: a compile-time refusal.
    Refused(CopyRefusal),
}

/// Whether a container's element cells are finished once the buffer is byte-copied.
#[derive(Clone, Copy, Debug, PartialEq, Eq)]
pub enum ElemCopy {
    /// The cell holds the whole element (or a pointer to immutable bytes).
    Inline,
    /// The cell points at a separate allocation that must itself be copied.
    Nested,
}

/// The re-homing mechanism a `background` spawn has for frame-local immutable storage.
#[derive(Clone, Copy, Debug, PartialEq, Eq)]
pub enum HeapCell {
    /// The 16-byte decimal cell the spawn path mints.
    Number,
    /// No mechanism: a spawn of this type must be refused.
    Unavailable,
}

/// Why a type has no independent copy: the three teaching slots.
#[derive(Clone, Debug, PartialEq, Eq)]
pub struct CopyRefusal {
    /// Trails the WHAT sentence; may be empty.
    pub detail: String,
    /// The WHAT-INSTEAD slot.
    pub fix: String,
    /// The WHY slot.
    pub why: String,
}

/// The model of a [`CopyRefusal`].
pub struct RefusalView {
    pub detail: Seq<char>,
    pub fix: Seq<char>,
    pub why: Seq<char>,
}

/// The model of an [`OwnedCopy`].
pub enum OwnedCopyView {
    ReceiverIsCopy,
    FrameLocalImmutable { heap_cell: HeapCell },
    ShapeMemcpy,
    FixedMemcpy,
    ArrayClone { elem: ElemCopy },
    MapClone,
    MaybeCellClone,
    Refused(RefusalView),
}

impl View for CopyRefusal {
    type V = RefusalView;

    open spec fn view(&self) -> RefusalView {
        RefusalView { detail: self.detail@, fix: self.fix@, why: self.why@ }
    }
}

impl View for OwnedCopy {
    type V = OwnedCopyView;

    open spec fn view(&self) -> OwnedCopyView {
        match self {
            OwnedCopy::ReceiverIsCopy => OwnedCopyView::ReceiverIsCopy,
            OwnedCopy::FrameLocalImmutable { heap_cell } => OwnedCopyView::FrameLocalImmutable { heap_cell: *heap_cell },
            OwnedCopy::ShapeMemcpy => OwnedCopyView::ShapeMemcpy,
            OwnedCopy::FixedMemcpy => OwnedCopyView::FixedMemcpy,
            OwnedCopy::ArrayClone { elem } => OwnedCopyView::ArrayClone { elem: *elem },
            OwnedCopy::MapClone => OwnedCopyView::MapClone,
            OwnedCopy::MaybeCellClone => OwnedCopyView::MaybeCellClone,
            OwnedCopy::Refused(r) => OwnedCopyView::Refused(r@),
        }
    }
}

/// The refusal text for the `channel` case.
pub open spec fn spec_refusal_channel(elem: TypeView) -> RefusalView {
    RefusalView { detail: " — a channel is the line two tasks talk over, not a value you hold"@, fix: "Pass the channel itself to the task and every task holding it reads and writes the same line. If you want a second, separate line, make one: `let replies: channel<"@ + spec_render_type(elem) + "> = channel<"@ + spec_render_type(elem) + ">()`."@, why: "A second channel holding the same messages would not help you: the task on the other end is listening on the first one. Anything you sent into the copy would go nowhere, and nothing would tell you."@ }
}

fn refusal_channel(elem: &Type) -> (r: CopyRefusal)
    ensures
        r@ == spec_refusal_channel(elem@),
{
    let elem_text = render_type(elem);
    let detail = lit(" — a channel is the line two tasks talk over, not a value you hold");
    let mut fix = lit("Pass the channel itself to the task and every task holding it reads and writes the same line. If you want a second, separate line, make one: `let replies: channel<");
    fix.append(elem_text.as_str());
    fix.append("> = channel<");
    fix.append(elem_text.as_str());
    fix.append(">()`.");
    let why = lit("A second channel holding the same messages would not help you: the task on the other end is listening on the first one. Anything you sent into the copy would go nowhere, and nothing would tell you.");
    CopyRefusal { detail, fix, why }
}

/// The refusal text for the `handle` case.
pub open spec fn spec_refusal_handle() -> RefusalView {
    RefusalView { detail: " — a handle names one running task"@, fix: "Use the handle you already have; you can pass it along and call `.receive()` on it wherever you need the task's answer. To get a second task, start one: `let second = background worker(orders)`."@, why: "There is only one task running. A second handle would still name that same task, so it would not be a copy of anything — and both handles would be waiting for the one answer the task sends back, where only one of them can get it."@ }
}

fn refusal_handle() -> (r: CopyRefusal)
    ensures
        r@ == spec_refusal_handle(),
{
    let detail = lit(" — a handle names one running task");
    let fix = lit("Use the handle you already have; you can pass it along and call `.receive()` on it wherever you need the task's answer. To get a second task, start one: `let second = background worker(orders)`.");
    let why = lit("There is only one task running. A second handle would still name that same task, so it would not be a copy of anything — and both handles would be waiting for the one answer the task sends back, where only one of them can get it.");
    CopyRefusal { detail, fix, why }
}

/// The refusal text for the `dynamic` case.
pub open spec fn spec_refusal_dynamic(contract: Seq<char>) -> RefusalView {
    RefusalView { detail: ""@, fix: "Copy the value before you store it as a `"@ + contract + "`: `const backup = player.copy()`, then use `backup` where you need the second one."@, why: "A `dynamic "@ + contract + "` value keeps which shape is really inside it until the program runs. Nothing here can know yet how big that shape is or which fields it carries, so there is no honest set of bytes to copy."@ }
}

fn refusal_dynamic(contract: &str) -> (r: CopyRefusal)
    ensures
        r@ == spec_refusal_dynamic(contract@),
{
    proof {
        reveal_strlit("");
    }
    let detail = lit("");
    let mut fix = lit("Copy the value before you store it as a `");
    fix.append(contract);
    fix.append("`: `const backup = player.copy()`, then use `backup` where you need the second one.");
    let mut why = lit("A `dynamic ");
    why.append(contract);
    why.append("` value keeps which shape is really inside it until the program runs. Nothing here can know yet how big that shape is or which fields it carries, so there is no honest set of bytes to copy.");
    CopyRefusal { detail, fix, why }
}

/// The refusal text for the `union` case.
pub open spec fn spec_refusal_union() -> RefusalView {
    RefusalView { detail: ""@, fix: "Check which one it is first, then copy that: `if (order is Delivery) { const backup = order.copy() }`."@, why: "A value written with `|` could be either choice at this point in the program, and each choice is a different size and a different set of fields. There is no single set of bytes that copying could mean here."@ }
}

fn refusal_union() -> (r: CopyRefusal)
    ensures
        r@ == spec_refusal_union(),
{
    proof {
        reveal_strlit("");
    }
    let detail = lit("");
    let fix = lit("Check which one it is first, then copy that: `if (order is Delivery) { const backup = order.copy() }`.");
    let why = lit("A value written with `|` could be either choice at this point in the program, and each choice is a different size and a different set of fields. There is no single set of bytes that copying could mean here.");
    CopyRefusal { detail, fix, why }
}

/// The refusal text for the `bignum` case.
pub open spec fn spec_refusal_bignum() -> RefusalView {
    RefusalView { detail: " with more than 34 digits of precision"@, fix: "Use a plain `number`, which carries 34 digits: `let total: number = 12.5`. Copying works on those."@, why: "Numbers wider than that are still being designed and are not ready in this version, so nothing here knows yet how their digits are stored — a copy could not be made honestly."@ }
}

fn refusal_bignum() -> (r: CopyRefusal)
    ensures
        r@ == spec_refusal_bignum(),
{
    let detail = lit(" with more than 34 digits of precision");
    let fix = lit("Use a plain `number`, which carries 34 digits: `let total: number = 12.5`. Copying works on those.");
    let why = lit("Numbers wider than that are still being designed and are not ready in this version, so nothing here knows yet how their digits are stored — a copy could not be made honestly.");
    CopyRefusal { detail, fix, why }
}

/// The refusal text for the `nothing` case.
pub open spec fn spec_refusal_nothing() -> RefusalView {
    RefusalView { detail: " — there is no value here to copy"@, fix: "Call `.copy()` on a value instead. If this came from a function call, that function hands back `nothing`, so store the value you actually meant to copy in a binding first."@, why: "`nothing` means no value was produced at all, so there is nothing here to make a second one of."@ }
}

fn refusal_nothing() -> (r: CopyRefusal)
    ensures
        r@ == spec_refusal_nothing(),
{
    let detail = lit(" — there is no value here to copy");
    let fix = lit("Call `.copy()` on a value instead. If this came from a function call, that function hands back `nothing`, so store the value you actually meant to copy in a binding first.");
    let why = lit("`nothing` means no value was produced at all, so there is nothing here to make a second one of.");
    CopyRefusal { detail, fix, why }
}

/// The refusal text for the `entry` case.
pub open spec fn spec_refusal_entry() -> RefusalView {
    RefusalView { detail: " — an entry is the loop's view of one slot, not a value of its own"@, fix: "Copy the piece you want: `const savedKey = entry.key`, or `const savedValue = entry.value.copy()`."@, why: "The loop rewrites that view on its next turn, so a copy of the view would stop being about the slot you were looking at. Copying `entry.key` or `entry.value` keeps the part you actually wanted."@ }
}

fn refusal_entry() -> (r: CopyRefusal)
    ensures
        r@ == spec_refusal_entry(),
{
    let detail = lit(" — an entry is the loop's view of one slot, not a value of its own");
    let fix = lit("Copy the piece you want: `const savedKey = entry.key`, or `const savedValue = entry.value.copy()`.");
    let why = lit("The loop rewrites that view on its next turn, so a copy of the view would stop being about the slot you were looking at. Copying `entry.key` or `entry.value` keeps the part you actually wanted.");
    CopyRefusal { detail, fix, why }
}

/// The refusal text for the `errors` case.
pub open spec fn spec_refusal_errors() -> RefusalView {
    RefusalView { detail: " — it has not been checked for failure yet"@, fix: "Check it first, then copy what came back: `if (result.failed()) { return }` and then `const backup = result.copy()`."@, why: "Until that check runs, this is either the answer or a failure, and those are not the same thing to copy. Once it is checked the value is just the answer, and copying it is ordinary."@ }
}

fn refusal_errors() -> (r: CopyRefusal)
    ensures
        r@ == spec_refusal_errors(),
{
    let detail = lit(" — it has not been checked for failure yet");
    let fix = lit("Check it first, then copy what came back: `if (result.failed()) { return }` and then `const backup = result.copy()`.");
    let why = lit("Until that check runs, this is either the answer or a failure, and those are not the same thing to copy. Once it is checked the value is just the answer, and copying it is ordinary.");
    CopyRefusal { detail, fix, why }
}

/// The refusal text for the `typeparam` case.
pub open spec fn spec_refusal_typeparam(name: Seq<char>) -> RefusalView {
    RefusalView { detail: " — `"@ + name + "` is not a real type until this function is called"@, fix: "Call `.copy()` where the real type is known, or hand the value over with `give` instead of copying it."@, why: "Which type stands in for a type placeholder is decided at each call, so nothing here can say what copying it would have to do."@ }
}

fn refusal_typeparam(name: &str) -> (r: CopyRefusal)
    ensures
        r@ == spec_refusal_typeparam(name@),
{
    let mut detail = lit(" — `");
    detail.append(name);
    detail.append("` is not a real type until this function is called");
    let fix = lit("Call `.copy()` where the real type is known, or hand the value over with `give` instead of copying it.");
    let why = lit("Which type stands in for a type placeholder is decided at each call, so nothing here can say what copying it would have to do.");
    CopyRefusal { detail, fix, why }
}

/// The refusal text for the `generic` case.
pub open spec fn spec_refusal_generic(name: Seq<char>) -> RefusalView {
    RefusalView { detail: ""@, fix: "Copy the fields you need out of it into a new `"@ + name + "` value instead of copying the whole thing."@, why: "This shape is built fresh for the types you filled in, and copying one is not supported in this version — copying it silently while sharing its contents is the thing this refusal replaces."@ }
}

fn refusal_generic(name: &str) -> (r: CopyRefusal)
    ensures
        r@ == spec_refusal_generic(name@),
{
    proof {
        reveal_strlit("");
    }
    let detail = lit("");
    let mut fix = lit("Copy the fields you need out of it into a new `");
    fix.append(name);
    fix.append("` value instead of copying the whole thing.");
    let why = lit("This shape is built fresh for the types you filled in, and copying one is not supported in this version — copying it silently while sharing its contents is the thing this refusal replaces.");
    CopyRefusal { detail, fix, why }
}

/// The refusal text for the `error` case.
pub open spec fn spec_refusal_error() -> RefusalView {
    RefusalView { detail: " — the type of this value could not be worked out"@, fix: "Fix the error reported above this one; the copy is fine once the value has a type."@, why: "Something earlier in this expression did not have a type the compiler could work out, so there is no way to say what copying it would do."@ }
}

fn refusal_error() -> (r: CopyRefusal)
    ensures
        r@ == spec_refusal_error(),
{
    let detail = lit(" — the type of this value could not be worked out");
    let fix = lit("Fix the error reported above this one; the copy is fine once the value has a type.");
    let why = lit("Something earlier in this expression did not have a type the compiler could work out, so there is no way to say what copying it would do.");
    CopyRefusal { detail, fix, why }
}

/// The refusal text for the `items` case.
pub open spec fn spec_refusal_items(container: TypeView, label: Seq<char>, item: TypeView) -> RefusalView {
    RefusalView { detail: ", because its "@ + label + " are `"@ + spec_render_type(item) + "` values and a `"@ + spec_render_type(item) + "` cannot be copied"@, fix: "Build a new `"@ + spec_render_type(container) + "` holding new items, or copy the pieces you actually need one at a time."@, why: "A copy of a collection is only separate if every item in it is separate too. Copying the collection while sharing its items would leave two collections changing the same items — the surprise this refusal exists to prevent."@ }
}

fn refusal_items(container: &Type, label: &str, item: &Type) -> (r: CopyRefusal)
    ensures
        r@ == spec_refusal_items(container@, label@, item@),
{
    let container_text = render_type(container);
    let item_text = render_type(item);
    let mut detail = lit(", because its ");
    detail.append(label);
    detail.append(" are `");
    detail.append(item_text.as_str());
    detail.append("` values and a `");
    detail.append(item_text.as_str());
    detail.append("` cannot be copied");
    let mut fix = lit("Build a new `");
    fix.append(container_text.as_str());
    fix.append("` holding new items, or copy the pieces you actually need one at a time.");
    let why = lit("A copy of a collection is only separate if every item in it is separate too. Copying the collection while sharing its items would leave two collections changing the same items — the surprise this refusal exists to prevent.");
    CopyRefusal { detail, fix, why }
}

/// THE per-type owned-copy table.
pub open spec fn spec_owned_copy_plan(t: TypeView) -> OwnedCopyView
    decreases t, 0nat,
{
    match t {
        TypeView::Int | TypeView::Float | TypeView::Bool => OwnedCopyView::ReceiverIsCopy,
        TypeView::String => OwnedCopyView::ReceiverIsCopy,
        TypeView::Options { .. } => OwnedCopyView::ReceiverIsCopy,
        TypeView::Number { precision } => if precision <= 34 {
            OwnedCopyView::FrameLocalImmutable { heap_cell: HeapCell::Number }
        } else {
            OwnedCopyView::Refused(spec_refusal_bignum())
        },
        TypeView::Range { .. } => OwnedCopyView::FrameLocalImmutable { heap_cell: HeapCell::Unavailable },
        TypeView::Shape { .. } => OwnedCopyView::ShapeMemcpy,
        TypeView::BuiltinFixed { elem, .. } => match spec_elem_copy(*elem) {
            Some(ElemCopy::Inline) => OwnedCopyView::FixedMemcpy,
            _ => OwnedCopyView::Refused(spec_refusal_items(t, "items"@, *elem)),
        },
        TypeView::BuiltinArray { elem } => match spec_elem_copy(*elem) {
            Some(kind) => OwnedCopyView::ArrayClone { elem: kind },
            None => OwnedCopyView::Refused(spec_refusal_items(t, "items"@, *elem)),
        },
        TypeView::BuiltinMap { .. } => OwnedCopyView::MapClone,
        TypeView::Maybe { inner } => match spec_owned_copy_plan(*inner) {
            OwnedCopyView::ReceiverIsCopy
            | OwnedCopyView::FrameLocalImmutable { .. }
            | OwnedCopyView::ShapeMemcpy => OwnedCopyView::MaybeCellClone,
            _ => OwnedCopyView::Refused(spec_refusal_items(t, "contents"@, *inner)),
        },
        TypeView::Sensitive { inner } => match spec_owned_copy_plan(*inner) {
            OwnedCopyView::ReceiverIsCopy => OwnedCopyView::ReceiverIsCopy,
            _ => OwnedCopyView::Refused(spec_refusal_items(t, "contents"@, *inner)),
        },
        TypeView::BuiltinChannel { elem } => OwnedCopyView::Refused(spec_refusal_channel(*elem)),
        TypeView::BackgroundHandle { .. } => OwnedCopyView::Refused(spec_refusal_handle()),
        TypeView::Dynamic { contract } => OwnedCopyView::Refused(spec_refusal_dynamic(contract)),
        TypeView::Union { .. } => OwnedCopyView::Refused(spec_refusal_union()),
        TypeView::Nothing => OwnedCopyView::Refused(spec_refusal_nothing()),
        TypeView::MapEntry { .. } => OwnedCopyView::Refused(spec_refusal_entry()),
        TypeView::ErrorsCapable { .. } => OwnedCopyView::Refused(spec_refusal_errors()),
        TypeView::TypeParam { name } => OwnedCopyView::Refused(spec_refusal_typeparam(name)),
        TypeView::Generic { name, .. } => OwnedCopyView::Refused(spec_refusal_generic(name)),
        TypeView::Error => OwnedCopyView::Refused(spec_refusal_error()),
    }
}

/// How a container's cells behave for `t` as its element type; `None` when an element of
/// this type has no independent copy at all.
pub open spec fn spec_elem_copy(t: TypeView) -> Option<ElemCopy>
    decreases t, 1nat,
{
    match spec_owned_copy_plan(t) {
        OwnedCopyView::ReceiverIsCopy | OwnedCopyView::ShapeMemcpy => Some(ElemCopy::Inline),
        OwnedCopyView::FrameLocalImmutable { .. } => Some(ElemCopy::Inline),
        OwnedCopyView::ArrayClone { .. } | OwnedCopyView::MapClone | OwnedCopyView::MaybeCellClone => Some(ElemCopy::Nested),
        OwnedCopyView::FixedMemcpy => None,
        OwnedCopyView::Refused(_) => None,
    }
}

/// THE per-type owned-copy table: a real copy for every type whose contents can be made
/// independent, a refusal with teaching text for every other.
pub fn owned_copy_plan(ty: &Type) -> (plan: OwnedCopy)
    ensures
        plan@ == spec_owned_copy_plan(ty@),
    decreases ty, 0nat,
{
    match ty {
        Type::Int | Type::Float | Type::Bool => OwnedCopy::ReceiverIsCopy,
        Type::String => OwnedCopy::ReceiverIsCopy,
        Type::Options { .. } => OwnedCopy::ReceiverIsCopy,
        Type::Number { precision } => {
            if *precision <= 34 {
                OwnedCopy::FrameLocalImmutable { heap_cell: HeapCell::Number }
            } else {
                OwnedCopy::Refused(refusal_bignum())
            }
        },
        Type::Range { .. } => OwnedCopy::FrameLocalImmutable { heap_cell: HeapCell::Unavailable },
        Type::Shape { .. } => OwnedCopy::ShapeMemcpy,
        Type::BuiltinFixed { elem, .. } => match elem_copy(&**elem) {
            Some(ElemCopy::Inline) => OwnedCopy::FixedMemcpy,
            _ => OwnedCopy::Refused(refusal_items(ty, "items", &**elem)),
        },
        Type::BuiltinArray { elem } => match elem_copy(&**elem) {
            Some(kind) => OwnedCopy::ArrayClone { elem: kind },
            None => OwnedCopy::Refused(refusal_items(ty, "items", &**elem)),
        },
        Type::BuiltinMap { .. } => OwnedCopy::MapClone,
        Type::Maybe { inner } => match owned_copy_plan(&**inner) {
            OwnedCopy::ReceiverIsCopy
            | OwnedCopy::FrameLocalImmutable { .. }
            | OwnedCopy::ShapeMemcpy => OwnedCopy::MaybeCellClone,
            _ => OwnedCopy::Refused(refusal_items(ty, "contents", &**inner)),
        },
        Type::Sensitive { inner } => match owned_copy_plan(&**inner) {
            OwnedCopy::ReceiverIsCopy => OwnedCopy::ReceiverIsCopy,
            _ => OwnedCopy::Refused(refusal_items(ty, "contents", &**inner)),
        },
        Type::BuiltinChannel { elem } => OwnedCopy::Refused(refusal_channel(&**elem)),
        Type::BackgroundHandle { .. } => OwnedCopy::Refused(refusal_handle()),
        Type::Dynamic { contract } => OwnedCopy::Refused(refusal_dynamic(contract.as_str())),
        Type::Union { .. } => OwnedCopy::Refused(refusal_union()),
        Type::Nothing => OwnedCopy::Refused(refusal_nothing()),
        Type::MapEntry { .. } => OwnedCopy::Refused(refusal_entry()),
        Type::ErrorsCapable { .. } => OwnedCopy::Refused(refusal_errors()),
        Type::TypeParam { name } => OwnedCopy::Refused(refusal_typeparam(name.as_str())),
        Type::Generic { name, .. } => OwnedCopy::Refused(refusal_generic(name.as_str())),
        Type::Error => OwnedCopy::Refused(refusal_error()),
    }
}

fn elem_copy(ty: &Type) -> (r: Option<ElemCopy>)
    ensures
        r == spec_elem_copy(ty@),
    decreases ty, 1nat,
{
    match owned_copy_plan(ty) {
        OwnedCopy::ReceiverIsCopy | OwnedCopy::ShapeMemcpy => Some(ElemCopy::Inline),
        OwnedCopy::FrameLocalImmutable { .. } => Some(ElemCopy::Inline),
        OwnedCopy::ArrayClone { .. } | OwnedCopy::MapClone | OwnedCopy::MaybeCellClone => Some(ElemCopy::Nested),
        OwnedCopy::FixedMemcpy => None,
        OwnedCopy::Refused(_) => None,
    }
}

/// The `background` path's own re-homing mechanisms, applied before the owned-copy table.
#[derive(Clone, Copy, Debug, PartialEq, Eq)]
pub enum SpawnRehoming {
    /// A channel is shared with the task on purpose.
    ShareChannel,
    /// A map-entry loop view is stabilized into its own cell.
    StabilizeLoopView,
    /// A decimal number is copied into a heap cell.
    DecimalCell,
}

pub open spec fn spec_spawn_rehoming(t: TypeView) -> Option<SpawnRehoming> {
    match t {
        TypeView::BuiltinChannel { .. } => Some(SpawnRehoming::ShareChannel),
        TypeView::MapEntry { .. } => Some(SpawnRehoming::StabilizeLoopView),
        TypeView::Number { precision } => if precision <= 34 {
            Some(SpawnRehoming::DecimalCell)
        } else {
            None
        },
        _ => None,
    }
}

/// Does the `background` path re-home this type with a mechanism of its own?
pub fn spawn_rehoming(ty: &Type) -> (r: Option<SpawnRehoming>)
    ensures
        r == spec_spawn_rehoming(ty@),
{
    match ty {
        Type::BuiltinChannel { .. } => Some(SpawnRehoming::ShareChannel),
        Type::MapEntry { .. } => Some(SpawnRehoming::StabilizeLoopView),
        Type::Number { precision } => {
            if *precision <= 34 {
                Some(SpawnRehoming::DecimalCell)
            } else {
                None
            }
        },
        _ => None,
    }
}

/// Is `.copy()` on a value of this type an independent copy? Derived from the table: every
/// plan but a refusal produces one.
pub open spec fn spec_copy_is_independent(t: TypeView) -> bool {
    !(spec_owned_copy_plan(t) is Refused)
}

/// Can a `background` task be given a value of this type that the spawner does not share?
pub fn spawn_arg_can_be_independent(ty: &Type) -> (r: bool)
    ensures
        r == (spec_spawn_rehoming(ty@) is Some || spec_copy_is_independent(ty@)),
{
    spawn_rehoming(ty).is_some() || !matches!(owned_copy_plan(ty), OwnedCopy::Refused(_))
}

/// Is `.copy()` on a value of this type a genuinely independent copy?
pub fn copy_is_independent(ty: &Type) -> (r: bool)
    ensures
        r == spec_copy_is_independent(ty@),
{
    !matches!(owned_copy_plan(ty), OwnedCopy::Refused(_))
}

/// The types whose contents nothing can change: the only ones for which handing back the
/// receiver may count as a copy.
pub open spec fn immutable_contents(t: TypeView) -> bool {
    t is Int || t is Float || t is Bool || t is String || t is Options || t is Number
        || t is Range || t is Sensitive
}

/// Never a silent alias: the plan hands back the receiver (as the copy itself, or as
/// frame-local immutable storage) only for a type whose contents nothing can change.
pub proof fn lemma_receiver_is_copy_only_for_immutable(t: TypeView)
    ensures
        (spec_owned_copy_plan(t) is ReceiverIsCopy || spec_owned_copy_plan(t) is FrameLocalImmutable)
            ==> immutable_contents(t),
{
}

/// `array<array<T>>` copies its items too: an array whose elements are arrays is cloned with
/// nested element copies whenever the inner array is copyable.
pub proof fn lemma_array_of_arrays_is_nested(inner: TypeView)
    ensures
        spec_copy_is_independent(TypeView::BuiltinArray { elem: Box::new(inner) })
            ==> spec_owned_copy_plan(TypeView::BuiltinArray {
            elem: Box::new(TypeView::BuiltinArray { elem: Box::new(inner) }),
        }) == (OwnedCopyView::ArrayClone { elem: ElemCopy::Nested }),
{
    let a = TypeView::BuiltinArray { elem: Box::new(inner) };
    assert(spec_elem_copy(a) == spec_elem_copy(a));
}


/// How a collection copies its items follows from how each item copies on its own: items
/// whose copy allocates fresh storage (an array, a map or a `maybe` cell) are copied one by
/// one inside an array, and a fixed list of them is refused; items copied by bytes (a
/// scalar, a string, an options value, a shape, a frame-local number or range) are
/// byte-copied inside an array and make a fixed list a single memcpy; items with no
/// independent copy (or fixed lists) make both collections refuse.
pub proof fn lemma_items_copy_as_they_copy_alone(t: TypeView, size: Option<u64>)
    ensures
        ({
            let arr = spec_owned_copy_plan(TypeView::BuiltinArray { elem: Box::new(t) });
            let fixed = spec_owned_copy_plan(TypeView::BuiltinFixed { elem: Box::new(t), size });
            &&& (spec_owned_copy_plan(t) is ArrayClone || spec_owned_copy_plan(t) is MapClone
                || spec_owned_copy_plan(t) is MaybeCellClone) ==> arr == (OwnedCopyView::ArrayClone {
                elem: ElemCopy::Nested,
            }) && fixed is Refused
            &&& (spec_owned_copy_plan(t) is ReceiverIsCopy || spec_owned_copy_plan(t) is ShapeMemcpy
                || spec_owned_copy_plan(t) is FrameLocalImmutable) ==> arr == (OwnedCopyView::ArrayClone {
                elem: ElemCopy::Inline,
            }) && fixed == OwnedCopyView::FixedMemcpy
            &&& (spec_owned_copy_plan(t) is Refused || spec_owned_copy_plan(t) is FixedMemcpy) ==> arr is Refused
                && fixed is Refused
        }),
{
    let e = spec_elem_copy(t);
    assert(spec_owned_copy_plan(TypeView::BuiltinArray { elem: Box::new(t) }) == match e {
        Some(kind) => OwnedCopyView::ArrayClone { elem: kind },
        None => OwnedCopyView::Refused(spec_refusal_items(TypeView::BuiltinArray { elem: Box::new(t) }, "items"@, t)),
    });
    assert(spec_owned_copy_plan(TypeView::BuiltinFixed { elem: Box::new(t), size }) == match e {
        Some(ElemCopy::Inline) => OwnedCopyView::FixedMemcpy,
        _ => OwnedCopyView::Refused(spec_refusal_items(TypeView::BuiltinFixed { elem: Box::new(t), size }, "items"@, t)),
    });
}

/// `s` opens with a character that is not blank.
pub open spec fn opens_visibly(s: Seq<char>) -> bool {
    s.len() > 0 && s[0] != ' ' && s[0] != '\n' && s[0] != '\t' && s[0] != '\r'
}

/// `s` holds at least one character that is not blank.
pub open spec fn has_visible_char(s: Seq<char>) -> bool {
    exists|i: int| 0 <= i < s.len() && s[i] != ' ' && s[i] != '\n' && s[i] != '\t' && s[i] != '\r'
}

proof fn lemma_opening_survives_concat(a: Seq<char>, b: Seq<char>)
    requires
        opens_visibly(a),
    ensures
        #[trigger] opens_visibly(a + b),
{
    assert((a + b)[0] == a[0]);
}

proof fn lemma_opening_is_visible(s: Seq<char>)
    requires
        opens_visibly(s),
    ensures
        has_visible_char(s),
{
    assert(s[0] == s[0]);
}

proof fn lemma_refusal_channel_filled(elem: TypeView)
    ensures
        opens_visibly(spec_refusal_channel(elem).fix),
        opens_visibly(spec_refusal_channel(elem).why),
{
    reveal_strlit("Pass the channel itself to the task and every task holding it reads and writes the same line. If you want a second, separate line, make one: `let replies: channel<");
    lemma_opening_survives_concat("Pass the channel itself to the task and every task holding it reads and writes the same line. If you want a second, separate line, make one: `let replies: channel<"@, spec_render_type(elem));
    lemma_opening_survives_concat("Pass the channel itself to the task and every task holding it reads and writes the same line. If you want a second, separate line, make one: `let replies: channel<"@ + spec_render_type(elem), "> = channel<"@);
    lemma_opening_survives_concat("Pass the channel itself to the task and every task holding it reads and writes the same line. If you want a second, separate line, make one: `let replies: channel<"@ + spec_render_type(elem) + "> = channel<"@, spec_render_type(elem));
    lemma_opening_survives_concat("Pass the channel itself to the task and every task holding it reads and writes the same line. If you want a second, separate line, make one: `let replies: channel<"@ + spec_render_type(elem) + "> = channel<"@ + spec_render_type(elem), ">()`."@);
    reveal_strlit("A second channel holding the same messages would not help you: the task on the other end is listening on the first one. Anything you sent into the copy would go nowhere, and nothing would tell you.");
}

proof fn lemma_refusal_handle_filled()
    ensures
        opens_visibly(spec_refusal_handle().fix),
        opens_visibly(spec_refusal_handle().why),
{
    reveal_strlit("Use the handle you already have; you can pass it along and call `.receive()` on it wherever you need the task's answer. To get a second task, start one: `let second = background worker(orders)`.");
    reveal_strlit("There is only one task running. A second handle would still name that same task, so it would not be a copy of anything — and both handles would be waiting for the one answer the task sends back, where only one of them can get it.");
}

proof fn lemma_refusal_dynamic_filled(contract: Seq<char>)
    ensures
        opens_visibly(spec_refusal_dynamic(contract).fix),
        opens_visibly(spec_refusal_dynamic(contract).why),
{
    reveal_strlit("Copy the value before you store it as a `");
    lemma_opening_survives_concat("Copy the value before you store it as a `"@, contract);
    lemma_opening_survives_concat("Copy the value before you store it as a `"@ + contract, "`: `const backup = player.copy()`, then use `backup` where you need the second one."@);
    reveal_strlit("A `dynamic ");
    lemma_opening_survives_concat("A `dynamic "@, contract);
    lemma_opening_survives_concat("A `dynamic "@ + contract, "` value keeps which shape is really inside it until the program runs. Nothing here can know yet how big that shape is or which fields it carries, so there is no honest set of bytes to copy."@);
}

proof fn lemma_refusal_union_filled()
    ensures
        opens_visibly(spec_refusal_union().fix),
        opens_visibly(spec_refusal_union().why),
{
    reveal_strlit("Check which one it is first, then copy that: `if (order is Delivery) { const backup = order.copy() }`.");
    reveal_strlit("A value written with `|` could be either choice at this point in the program, and each choice is a different size and a different set of fields. There is no single set of bytes that copying could mean here.");
}

proof fn lemma_refusal_bignum_filled()
    ensures
        opens_visibly(spec_refusal_bignum().fix),
        opens_visibly(spec_refusal_bignum().why),
{
    reveal_strlit("Use a plain `number`, which carries 34 digits: `let total: number = 12.5`. Copying works on those.");
    reveal_strlit("Numbers wider than that are still being designed and are not ready in this version, so nothing here knows yet how their digits are stored — a copy could not be made honestly.");
}

proof fn lemma_refusal_nothing_filled()
    ensures
        opens_visibly(spec_refusal_nothing().fix),
        opens_visibly(spec_refusal_nothing().why),
{
    reveal_strlit("Call `.copy()` on a value instead. If this came from a function call, that function hands back `nothing`, so store the value you actually meant to copy in a binding first.");
    reveal_strlit("`nothing` means no value was produced at all, so there is nothing here to make a second one of.");
}

proof fn lemma_refusal_entry_filled()
    ensures
        opens_visibly(spec_refusal_entry().fix),
        opens_visibly(spec_refusal_entry().why),
{
    reveal_strlit("Copy the piece you want: `const savedKey = entry.key`, or `const savedValue = entry.value.copy()`.");
    reveal_strlit("The loop rewrites that view on its next turn, so a copy of the view would stop being about the slot you were looking at. Copying `entry.key` or `entry.value` keeps the part you actually wanted.");
}

proof fn lemma_refusal_errors_filled()
    ensures
        opens_visibly(spec_refusal_errors().fix),
        opens_visibly(spec_refusal_errors().why),
{
    reveal_strlit("Check it first, then copy what came back: `if (result.failed()) { return }` and then `const backup = result.copy()`.");
    reveal_strlit("Until that check runs, this is either the answer or a failure, and those are not the same thing to copy. Once it is checked the value is just the answer, and copying it is ordinary.");
}

proof fn lemma_refusal_typeparam_filled(name: Seq<char>)
    ensures
        opens_visibly(spec_refusal_typeparam(name).fix),
        opens_visibly(spec_refusal_typeparam(name).why),
{
    reveal_strlit("Call `.copy()` where the real type is known, or hand the value over with `give` instead of copying it.");
    reveal_strlit("Which type stands in for a type placeholder is decided at each call, so nothing here can say what copying it would have to do.");
}

proof fn lemma_refusal_generic_filled(name: Seq<char>)
    ensures
        opens_visibly(spec_refusal_generic(name).fix),
        opens_visibly(spec_refusal_generic(name).why),
{
    reveal_strlit("Copy the fields you need out of it into a new `");
    lemma_opening_survives_concat("Copy the fields you need out of it into a new `"@, name);
    lemma_opening_survives_concat("Copy the fields you need out of it into a new `"@ + name, "` value instead of copying the whole thing."@);
    reveal_strlit("This shape is built fresh for the types you filled in, and copying one is not supported in this version — copying it silently while sharing its contents is the thing this refusal replaces.");
}

proof fn lemma_refusal_error_filled()
    ensures
        opens_visibly(spec_refusal_error().fix),
        opens_visibly(spec_refusal_error().why),
{
    reveal_strlit("Fix the error reported above this one; the copy is fine once the value has a type.");
    reveal_strlit("Something earlier in this expression did not have a type the compiler could work out, so there is no way to say what copying it would do.");
}

proof fn lemma_refusal_items_filled(container: TypeView, label: Seq<char>, item: TypeView)
    ensures
        opens_visibly(spec_refusal_items(container, label, item).fix),
        opens_visibly(spec_refusal_items(container, label, item).why),
{
    reveal_strlit("Build a new `");
    lemma_opening_survives_concat("Build a new `"@, spec_render_type(container));
    lemma_opening_survives_concat("Build a new `"@ + spec_render_type(container), "` holding new items, or copy the pieces you actually need one at a time."@);
    reveal_strlit("A copy of a collection is only separate if every item in it is separate too. Copying the collection while sharing its items would leave two collections changing the same items — the surprise this refusal exists to prevent.");
}

/// Every refusal fills its WHAT-INSTEAD and WHY slots with readable text.
pub proof fn lemma_every_refusal_fills_its_slots(t: TypeView)
    ensures
        spec_owned_copy_plan(t) is Refused ==> {
            let r = spec_owned_copy_plan(t)->Refused_0;
            has_visible_char(r.fix) && has_visible_char(r.why)
        },
{
    if spec_owned_copy_plan(t) is Refused {
        let r = spec_owned_copy_plan(t)->Refused_0;
        match t {
            TypeView::Number { .. } => lemma_refusal_bignum_filled(),
            TypeView::BuiltinFixed { elem, .. } => lemma_refusal_items_filled(t, "items"@, *elem),
            TypeView::BuiltinArray { elem } => lemma_refusal_items_filled(t, "items"@, *elem),
            TypeView::Maybe { inner } => lemma_refusal_items_filled(t, "contents"@, *inner),
            TypeView::Sensitive { inner } => lemma_refusal_items_filled(t, "contents"@, *inner),
            TypeView::BuiltinChannel { elem } => lemma_refusal_channel_filled(*elem),
            TypeView::BackgroundHandle { .. } => lemma_refusal_handle_filled(),
            TypeView::Dynamic { contract } => lemma_refusal_dynamic_filled(contract),
            TypeView::Union { .. } => lemma_refusal_union_filled(),
            TypeView::Nothing => lemma_refusal_nothing_filled(),
            TypeView::MapEntry { .. } => lemma_refusal_entry_filled(),
            TypeView::ErrorsCapable { .. } => lemma_refusal_errors_filled(),
            TypeView::TypeParam { name } => lemma_refusal_typeparam_filled(name),
            TypeView::Generic { name, .. } => lemma_refusal_generic_filled(name),
            TypeView::Error => lemma_refusal_error_filled(),
            _ => {},
        }
        lemma_opening_is_visible(r.fix);
        lemma_opening_is_visible(r.why);
    }
}

} // verus!
