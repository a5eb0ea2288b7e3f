//! The one answer to two questions about an `errors`-capable value's dot-property surface:
//! which four names are gated behind a `.failed()` check, and which of them codegen can
//! build a value for. `.message` is lowered; `.suggestions`, `.trace` and `.source` are
//! refused at compile time with teaching text.
use vstd::prelude::*;

use crate::text::str_eq;

verus! {

/// One of the four `errors` dot-properties gated behind a `.failed()` check.
#[derive(Clone, Copy, Debug, PartialEq, Eq)]
pub enum EcField {
    Message,
    Suggestions,
    Trace,
    Source,
}

/// The field name as written in source.
pub open spec fn spec_ec_field_name(f: EcField) -> Seq<char> {
    match f {
        EcField::Message => "message"@,
        EcField::Suggestions => "suggestions"@,
        EcField::Trace => "trace"@,
        EcField::Source => "source"@,
    }
}

/// The admission list: the gated field whose name is `name`, if any.
pub open spec fn spec_ec_field_from_name(name: Seq<char>) -> Option<EcField> {
    if name == "message"@ {
        Some(EcField::Message)
    } else if name == "suggestions"@ {
        Some(EcField::Suggestions)
    } else if name == "trace"@ {
        Some(EcField::Trace)
    } else if name == "source"@ {
        Some(EcField::Source)
    } else {
        None
    }
}

impl EcField {
    /// Parse a dot-property name into its `EcField`, or `None` when `name` is not one of the
    /// four gated fields.
    pub fn from_field_name(name: &str) -> (r: Option<EcField>)
        ensures
            r == spec_ec_field_from_name(name@),
    {
        if str_eq(name, "message") {
            Some(EcField::Message)
        } else if str_eq(name, "suggestions") {
            Some(EcField::Suggestions)
        } else if str_eq(name, "trace") {
            Some(EcField::Trace)
        } else if str_eq(name, "source") {
            Some(EcField::Source)
        } else {
            None
        }
    }

    /// The field name as written in source — for diagnostic slots.
    pub fn name(self) -> (r: &'static str)
        ensures
            r@ == spec_ec_field_name(self),
    {
        match self {
            EcField::Message => "message",
            EcField::Suggestions => "suggestions",
            EcField::Trace => "trace",
            EcField::Source => "source",
        }
    }
}

/// Whether codegen has a real lowering for a field, or must refuse it.
#[derive(Clone, Copy, Debug, PartialEq, Eq)]
pub enum EcFieldLowering {
    /// Codegen builds a real value for this field.
    Lowered,
    /// No codegen exists for this field yet; refused at compile time.
    Refused,
}

pub open spec fn spec_ec_field_lowering(f: EcField) -> EcFieldLowering {
    match f {
        EcField::Message => EcFieldLowering::Lowered,
        _ => EcFieldLowering::Refused,
    }
}

/// THE lowering-status table both the admission gate and the field lowering consume.
pub fn ec_field_lowering(field: EcField) -> (r: EcFieldLowering)
    ensures
        r == spec_ec_field_lowering(field),
{
    match field {
        EcField::Message => EcFieldLowering::Lowered,
        EcField::Suggestions | EcField::Trace | EcField::Source => EcFieldLowering::Refused,
    }
}

/// Parsing a field's own name gives the field back: the admission list and the names agree.
pub proof fn lemma_field_name_round_trip(f: EcField)
    ensures
        spec_ec_field_from_name(spec_ec_field_name(f)) == Some(f),
{
    reveal_strlit("message");
    reveal_strlit("suggestions");
    reveal_strlit("trace");
    reveal_strlit("source");
    assert("message"@[0] != "suggestions"@[0]);
    assert("message"@[0] != "trace"@[0]);
    assert("message"@[0] != "source"@[0]);
    assert("suggestions"@[0] != "trace"@[0]);
    assert("suggestions"@[1] != "source"@[1]);
    assert("trace"@[0] != "source"@[0]);
}

} // verus!
