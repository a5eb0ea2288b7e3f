//! The symbols a module exposes to importers: only its `export`-prefixed declarations,
//! with the fully resolved definitions from the module's tables.
use vstd::prelude::*;

use crate::options_table::{OptionsEntry, OptionsEntryView, OptionsTable};
use crate::shape_passes::{put_row, put_view, row_views};
use crate::shapes::{ShapeDef, ShapeTable, ShapeView};
use crate::signature_collection::FunctionSigView;
use crate::signatures::{FunctionSig, SignatureTable};
use crate::names::lookup;
use crate::syntax::{Item, Module};

verus! {

/// The exported shapes, options types and functions, each by its declared name (a lookup
/// reads the first row).
pub struct ExportTable {
    pub shapes: Vec<(String, ShapeDef)>,
    pub options: Vec<(String, OptionsEntry)>,
    pub functions: Vec<(String, FunctionSig)>,
}

/// The model of an [`ExportTable`].
pub struct ExportView {
    pub shapes: Seq<(Seq<char>, ShapeView)>,
    pub options: Seq<(Seq<char>, OptionsEntryView)>,
    pub functions: Seq<(Seq<char>, FunctionSigView)>,
}

impl View for ExportTable {
    type V = ExportView;

    open spec fn view(&self) -> ExportView {
        ExportView {
            shapes: row_views(self.shapes@),
            options: row_views(self.options@),
            functions: row_views(self.functions@),
        }
    }
}

impl ExportTable {
    /// A table exporting nothing.
    pub fn empty() -> (t: ExportTable)
        ensures
            t@.shapes.len() == 0 && t@.options.len() == 0 && t@.functions.len() == 0,
    {
        let t = ExportTable { shapes: Vec::new(), options: Vec::new(), functions: Vec::new() };
        proof {
            assert(t@.shapes =~= Seq::<(Seq<char>, ShapeView)>::empty());
            assert(t@.options =~= Seq::<(Seq<char>, OptionsEntryView)>::empty());
            assert(t@.functions =~= Seq::<(Seq<char>, FunctionSigView)>::empty());
        }
        t
    }

    /// Does the table export nothing?
    pub fn is_empty(&self) -> (b: bool)
        ensures
            b == (self@.shapes.len() == 0 && self@.options.len() == 0 && self@.functions.len() == 0),
    {
        self.shapes.len() == 0 && self.options.len() == 0 && self.functions.len() == 0
    }
}

/// The exports after the first items: an exported shape (not a union alias) the shape
/// table holds, an exported options type the options table holds, an exported function
/// the signature table holds, each set under its name.
pub open spec fn exports_fold(
    items: Seq<Item>,
    shapes: ShapeTable,
    options: Map<Seq<char>, OptionsEntryView>,
    sigs: SignatureTable,
) -> ExportView
    decreases items.len(),
{
    if items.len() == 0 {
        ExportView { shapes: Seq::empty(), options: Seq::empty(), functions: Seq::empty() }
    } else {
        export_step(exports_fold(items.drop_last(), shapes, options, sigs), items.last(), shapes, options, sigs)
    }
}

/// The exports after one more item.
pub open spec fn export_step(
    e: ExportView,
    it: Item,
    shapes: ShapeTable,
    options: Map<Seq<char>, OptionsEntryView>,
    sigs: SignatureTable,
) -> ExportView {
    match it {
        Item::ShapeDecl(s) => if s.is_exported && s.alias_ty is None {
            match lookup(shapes.shapes@, s.name@) {
                Some(d) => ExportView { shapes: put_view(e.shapes, s.name@, d@), ..e },
                None => e,
            }
        } else {
            e
        },
        Item::OptionsDecl(o) => if o.is_exported && options.contains_key(o.name@) {
            ExportView { options: put_view(e.options, o.name@, options[o.name@]), ..e }
        } else {
            e
        },
        Item::Function(f) => if f.is_exported {
            match lookup(sigs.fns@, f.name@) {
                Some(sig) => ExportView { functions: put_view(e.functions, f.name@, sig@), ..e },
                None => e,
            }
        } else {
            e
        },
    }
}

fn add_export(
    t: &mut ExportTable,
    it: &Item,
    shape_table: &ShapeTable,
    options_table: &OptionsTable,
    sig_table: &SignatureTable,
)
    ensures
        final(t)@ == export_step(old(t)@, *it, *shape_table, options_table@, *sig_table),
{
    match it {
        Item::ShapeDecl(s) => {
            if s.is_exported && s.alias_ty.is_none() {
                match shape_table.get(s.name.as_str()) {
                    Some(def) => put_row(&mut t.shapes, s.name.clone(), def.duplicate()),
                    None => {},
                }
            }
        },
        Item::OptionsDecl(o) => {
            if o.is_exported {
                match options_table.get(o.name.as_str()) {
                    Some(entry) => put_row(&mut t.options, o.name.clone(), entry.duplicate()),
                    None => {},
                }
            }
        },
        Item::Function(f) => {
            if f.is_exported {
                match sig_table.get(f.name.as_str()) {
                    Some(sig) => put_row(&mut t.functions, f.name.clone(), sig.duplicate()),
                    None => {},
                }
            }
        },
    }
}

/// Build the export table of a module from its resolved tables: only declarations marked
/// `export` appear, with the definitions the tables hold for them.
pub fn collect_exports(
    module: &Module,
    shape_table: &ShapeTable,
    options_table: &OptionsTable,
    sig_table: &SignatureTable,
) -> (t: ExportTable)
    ensures
        t@ == exports_fold(module.items@, *shape_table, options_table@, *sig_table),
{
    let ghost items = module.items@;
    let mut t = ExportTable::empty();
    let mut i: usize = 0;
    proof {
        assert(items.take(0) =~= Seq::<Item>::empty());
        assert(t@ == exports_fold(items.take(0), *shape_table, options_table@, *sig_table)) by {
            assert(t@.shapes =~= Seq::<(Seq<char>, ShapeView)>::empty());
            assert(t@.options =~= Seq::<(Seq<char>, OptionsEntryView)>::empty());
            assert(t@.functions =~= Seq::<(Seq<char>, FunctionSigView)>::empty());
        }
    }
    while i < module.items.len()
        invariant
            i <= items.len(),
            items == module.items@,
            t@ == exports_fold(items.take(i as int), *shape_table, options_table@, *sig_table),
        decreases items.len() - i,
    {
        proof {
            assert(items.take(i + 1).drop_last() =~= items.take(i as int));
            assert(items.take(i + 1).last() == items[i as int]);
        }
        add_export(&mut t, &module.items[i], shape_table, options_table, sig_table);
        i = i + 1;
    }
    proof {
        assert(items.take(items.len() as int) =~= items);
    }
    t
}

} // verus!
