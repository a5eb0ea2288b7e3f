//! Resolved signatures of user-defined functions.
use vstd::prelude::*;

use crate::diagnostics::SourceSpan;
use crate::names::{find_row, lookup};
use crate::syntax::OwnershipModifier;
use crate::types::Type;

verus! {

/// The resolved signature of a user-defined function.
#[derive(Debug)]
pub struct FunctionSig {
    /// (parameter name, resolved type) pairs, in declaration order.
    pub params: Vec<(String, Type)>,
    /// Ownership modifier of each parameter (`None` = bare).
    pub param_ownerships: Vec<Option<OwnershipModifier>>,
    pub ret: Type,
    pub decl_span: SourceSpan,
    /// The body contains an explicit `wait`.
    pub contains_wait: bool,
    /// The function transitively suspends.
    pub suspends: bool,
    /// The function transitively does real work.
    pub does_real_work: bool,
    /// The declared name when this signature is registered under an alias.
    pub original_name: Option<String>,
}

/// All user-defined function signatures of a module, by name (a lookup reads the first
/// entry with the name).
pub struct SignatureTable {
    pub fns: Vec<(String, FunctionSig)>,
}

impl SignatureTable {
    /// An empty table.
    pub fn empty() -> (t: SignatureTable)
        ensures
            t.fns@.len() == 0,
    {
        SignatureTable { fns: Vec::new() }
    }

    /// The signature of `name`, if the table holds one.
    pub fn get(&self, name: &str) -> (r: Option<&FunctionSig>)
        ensures
            match r {
                Some(s) => lookup(self.fns@, name@) == Some(*s),
                None => lookup(self.fns@, name@) is None,
            },
    {
        match find_row(&self.fns, name) {
            Some(i) => Some(&self.fns[i].1),
            None => None,
        }
    }

    /// All function names in the table.
    pub fn all_names(&self) -> (r: Vec<&str>)
        ensures
            r@.len() == self.fns@.len(),
            forall|i: int| 0 <= i < r@.len() ==> r@[i]@ == self.fns@[i].0@,
    {
        let mut r: Vec<&str> = Vec::new();
        let mut i: usize = 0;
        while i < self.fns.len()
            invariant
                i <= self.fns@.len(),
                r@.len() == i,
                forall|j: int| 0 <= j < i ==> r@[j]@ == self.fns@[j].0@,
            decreases self.fns@.len() - i,
        {
            r.push(self.fns[i].0.as_str());
            i = i + 1;
        }
        r
    }
}

/// The signature `name` resolves to: the local table first, then the imported ones.
pub open spec fn resolve_sig(
    local: Seq<(String, FunctionSig)>,
    imported: Seq<(String, FunctionSig)>,
    name: Seq<char>,
) -> Option<FunctionSig> {
    match lookup(local, name) {
        Some(s) => Some(s),
        None => lookup(imported, name),
    }
}

/// The signature `name` resolves to in the local table or, failing that, the imported one.
pub fn resolve_signature<'a>(
    local: &'a SignatureTable,
    imported: &'a Vec<(String, FunctionSig)>,
    name: &str,
) -> (r: Option<&'a FunctionSig>)
    ensures
        match r {
            Some(s) => resolve_sig(local.fns@, imported@, name@) == Some(*s),
            None => resolve_sig(local.fns@, imported@, name@) is None,
        },
{
    match local.get(name) {
        Some(s) => Some(s),
        None => match find_row(imported, name) {
            Some(i) => Some(&imported[i].1),
            None => None,
        },
    }
}

} // verus!
