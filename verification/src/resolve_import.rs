//! Import resolution: the check that keeps an import anchored to the project root, and
//! the decisions made once the imported module has been looked up (the file system is
//! consulted by the caller).
use vstd::prelude::*;

use crate::diagnostics::{diag_views, error_view, Diagnostic, DiagnosticView, SourceSpan, SpanView};
use crate::exports::{ExportTable, ExportView};
use crate::names::NameSet;
use crate::options_table::{OptionsEntry, OptionsEntryView};
use crate::shape_collection::push_diag;
use crate::shape_passes::{put_row, put_view, row_index, row_position, row_views};
use crate::shapes::{insert_by_name_exec, sort_by_name, ShapeDef, ShapeView};
use crate::signature_collection::FunctionSigView;
use crate::signatures::FunctionSig;
use crate::syntax::{ImportDecl, ImportItem, ImportKind};
use crate::text::{join_with, lit, spec_join_with, string_views};

verus! {

/// `s[i..j]` is one `/`-separated segment of `s`: bounded by the ends of `s` or by `/`,
/// with no `/` inside.
pub open spec fn is_segment(s: Seq<char>, i: int, j: int) -> bool {
    &&& 0 <= i <= j <= s.len()
    &&& (i == 0 || s[i - 1] == '/')
    &&& (j == s.len() || s[j] == '/')
    &&& forall|k: int| i <= k < j ==> s[k] != '/'
}

/// A segment that is exactly `.` or `..`.
pub open spec fn is_dot_segment(seg: Seq<char>) -> bool {
    seg == seq!['.'] || seg == seq!['.', '.']
}

/// Some `/`-separated segment of `s` is exactly `.` or `..`.
pub open spec fn spec_has_traversal_segments(s: Seq<char>) -> bool {
    exists|i: int, j: int| is_segment(s, i, j) && #[trigger] is_dot_segment(s.subrange(i, j))
}

fn segment_is_dot(s: &str, start: usize, end: usize) -> (b: bool)
    requires
        start <= end <= s@.len(),
    ensures
        b == is_dot_segment(s@.subrange(start as int, end as int)),
{
    let ghost seg = s@.subrange(start as int, end as int);
    if end - start == 1 {
        let c = s.get_char(start);
        proof {
            assert(seg[0] == c);
            if c == '.' {
                assert(seg =~= seq!['.']);
            }
            assert(seg.len() != 2);
        }
        c == '.'
    } else if end - start == 2 {
        let c0 = s.get_char(start);
        let c1 = s.get_char(start + 1);
        proof {
            assert(seg[0] == c0 && seg[1] == c1);
            if c0 == '.' && c1 == '.' {
                assert(seg =~= seq!['.', '.']);
            }
            assert(seg.len() != 1);
        }
        c0 == '.' && c1 == '.'
    } else {
        proof {
            assert(seg.len() != 1 && seg.len() != 2);
        }
        false
    }
}

/// Does `module_str` contain a path segment that is exactly `..` or `.`? Only exact
/// segments count: `dir.v2` or `dir..weird` are ordinary names.
pub fn module_path_has_traversal_segments(module_str: &str) -> (r: bool)
    ensures
        r == spec_has_traversal_segments(module_str@),
{
    let ghost s = module_str@;
    let n = module_str.unicode_len();
    let mut start: usize = 0;
    let mut i: usize = 0;
    while i < n
        invariant
            s == module_str@,
            n == s.len(),
            start <= i <= n,
            start == 0 || s[start - 1] == '/',
            forall|k: int| start <= k < i ==> s[k] != '/',
            forall|a: int, b: int| is_segment(s, a, b) && b < i ==> !(#[trigger] is_dot_segment(s.subrange(a, b))),
        decreases n - i,
    {
        if module_str.get_char(i) == '/' {
            proof {
                assert(is_segment(s, start as int, i as int));
            }
            if segment_is_dot(module_str, start, i) {
                return true;
            }
            proof {
                assert forall|a: int, b: int| is_segment(s, a, b) && b < i + 1 implies !(#[trigger] is_dot_segment(
                    s.subrange(a, b),
                )) by {
                    if b == i {
                        if a < start {
                            assert(s[start - 1] == '/');
                        }
                        if a > start {
                            assert(s[a - 1] == '/');
                        }
                    }
                }
            }
            start = i + 1;
        } else {
            proof {
                assert forall|a: int, b: int| is_segment(s, a, b) && b < i + 1 implies !(#[trigger] is_dot_segment(
                    s.subrange(a, b),
                )) by {
                    if b == i {
                        assert(s[b] != '/');
                    }
                }
            }
        }
        i = i + 1;
    }
    proof {
        assert(is_segment(s, start as int, n as int));
    }
    let last = segment_is_dot(module_str, start, n);
    proof {
        assert forall|a: int, b: int| is_segment(s, a, b) && !last implies !(#[trigger] is_dot_segment(s.subrange(a, b))) by {
            if b == n {
                if a < start {
                    assert(s[start - 1] == '/');
                }
                if a > start {
                    assert(s[a - 1] == '/');
                }
            }
        }
    }
    last
}

/// Does the string hold a `/`?
pub fn contains_slash(s: &str) -> (b: bool)
    ensures
        b == s@.contains('/'),
{
    let n = s.unicode_len();
    let mut i: usize = 0;
    while i < n
        invariant
            n == s@.len(),
            i <= n,
            forall|k: int| 0 <= k < i ==> s@[k] != '/',
        decreases n - i,
    {
        if s.get_char(i) == '/' {
            return true;
        }
        i = i + 1;
    }
    false
}

/// The diagnostic for an import path with a `.` or `..` segment.
pub open spec fn traversal_diag(d: ImportDecl) -> DiagnosticView {
    error_view(
        d.source_span@,
        "Import path \""@ + d.source@ + "\" contains `..` or `.` segments."@,
        "Use a project-root-relative path. If you need to import from a sibling directory, use the full path from the project root (`subdir/module`), never `../sibling/module`."@,
        "Yinz import paths are anchored to the project root (the directory containing `yinz.toml`). Allowing `..` would let an import escape the project boundary and could leak source from outside the project to diagnostic output."@,
    )
}

/// Reject an import whose path has a `.` or `..` segment before anything is looked up;
/// true when the path may be looked up.
pub fn import_path_is_anchored(d: &ImportDecl, diags: &mut Vec<Diagnostic>) -> (ok: bool)
    ensures
        ok == !spec_has_traversal_segments(d.source@),
        diag_views(final(diags)@) == diag_views(old(diags)@) + if ok {
            Seq::empty()
        } else {
            seq![traversal_diag(*d)]
        },
{
    let ghost d0 = diag_views(diags@);
    if module_path_has_traversal_segments(d.source.as_str()) {
        let mut what = lit("Import path \"");
        what.append(d.source.as_str());
        what.append("\" contains `..` or `.` segments.");
        push_diag(
            diags,
            &d.source_span,
            what,
            lit(
                "Use a project-root-relative path. If you need to import from a sibling directory, use the full path from the project root (`subdir/module`), never `../sibling/module`.",
            ),
            lit(
                "Yinz import paths are anchored to the project root (the directory containing `yinz.toml`). Allowing `..` would let an import escape the project boundary and could leak source from outside the project to diagnostic output.",
            ),
        );
        proof {
            reveal_strlit("Import path \"");
            assert(diag_views(diags@) =~= d0 + seq![traversal_diag(*d)]);
        }
        false
    } else {
        proof {
            assert(diag_views(diags@) =~= d0 + Seq::<DiagnosticView>::empty());
        }
        true
    }
}

/// What looking up an import's module found.
pub enum ImportLookup {
    /// No module file; whether a project root (`yinz.toml`) was found above the importer.
    NotFound { has_project_root: bool },
    /// The module is the importing file itself.
    SelfImport,
    /// The module is already being imported further up this chain.
    Circular,
    /// The module file exists but is not part of the loaded project.
    NotRegistered,
    /// The module does not parse.
    ParseErrors,
    /// One of the module's own imports leads back into the current chain.
    ImportsBack,
    /// The module's export table.
    Loaded(ExportTable),
}

/// The symbols the imports of a file bind, each by its local name (a lookup reads the
/// first row).
pub struct ResolvedImport {
    pub shapes: Vec<(String, ShapeDef)>,
    pub options: Vec<(String, OptionsEntry)>,
    pub functions: Vec<(String, FunctionSig)>,
}

impl View for ResolvedImport {
    type V = ExportView;

    open spec fn view(&self) -> ExportView {
        ExportView {
            shapes: row_views(self.shapes@),
            options: row_views(self.options@),
            functions: row_views(self.functions@),
        }
    }
}

impl ResolvedImport {
    /// Nothing bound yet.
    pub fn empty() -> (r: ResolvedImport)
        ensures
            r@.shapes.len() == 0 && r@.options.len() == 0 && r@.functions.len() == 0,
    {
        let r = ResolvedImport { shapes: Vec::new(), options: Vec::new(), functions: Vec::new() };
        proof {
            assert(r@.shapes =~= Seq::<(Seq<char>, ShapeView)>::empty());
            assert(r@.options =~= Seq::<(Seq<char>, OptionsEntryView)>::empty());
            assert(r@.functions =~= Seq::<(Seq<char>, FunctionSigView)>::empty());
        }
        r
    }
}

/// The state of resolving a file's imports: the local names bound so far and the symbols
/// bound to them.
pub struct ImportState {
    pub bound: NameSet,
    pub result: ResolvedImport,
}

impl ImportState {
    /// No import resolved yet.
    pub fn new() -> (st: ImportState)
        ensures
            st.bound@ == Set::<Seq<char>>::empty(),
            st.result@.shapes.len() == 0 && st.result@.options.len() == 0 && st.result@.functions.len() == 0,
    {
        ImportState { bound: NameSet::new(), result: ResolvedImport::empty() }
    }
}

/// The model of an [`ImportState`] together with the diagnostics reported.
pub struct ImportStateView {
    pub bound: Set<Seq<char>>,
    pub result: ExportView,
    pub diags: Seq<DiagnosticView>,
}

pub open spec fn not_found_diag(d: ImportDecl, has_project_root: bool) -> DiagnosticView {
    if !has_project_root && d.source@.contains('/') {
        error_view(
            d.source_span@,
            "Module \""@ + d.source@ + "\" not found \u{2014} no `yinz.toml` in any parent directory."@,
            "Add a `yinz.toml` at your project root so the compiler knows where to look. Single-file imports work without it; cross-directory imports need it."@,
            "Cross-directory imports use paths relative to the `yinz.toml` location. Same-directory imports work without one."@,
        )
    } else {
        error_view(
            d.source_span@,
            "Module \""@ + d.source@ + "\" not found."@,
            "Check that `"@ + d.source@ + ".ynz` exists at the project root. Paths are project-root-relative without the `.ynz` suffix."@,
            "Import paths point to `.ynz` files relative to the `yinz.toml` location."@,
        )
    }
}

pub open spec fn self_import_diag(d: ImportDecl) -> DiagnosticView {
    error_view(
        d.source_span@,
        "A file cannot import from itself."@,
        "Remove this import, or move the shared types to a separate file."@,
        "Self-imports create a circular dependency with no resolution."@,
    )
}

pub open spec fn circular_import_diag(d: ImportDecl) -> DiagnosticView {
    error_view(
        d.source_span@,
        "Circular import detected: \""@ + d.source@ + "\" is already being imported in this chain."@,
        "Restructure the modules so neither imports the other, or move the shared types to a third file that both can import."@,
        "Circular imports make compilation order undefined. Extract shared types to break the cycle."@,
    )
}

/// Every name the table exports: shapes, then options types, then functions.
pub open spec fn export_names(t: ExportView) -> Seq<Seq<char>> {
    t.shapes.map_values(|r: (Seq<char>, ShapeView)| r.0) + t.options.map_values(
        |r: (Seq<char>, OptionsEntryView)| r.0,
    ) + t.functions.map_values(|r: (Seq<char>, FunctionSigView)| r.0)
}

/// The names in ascending order.
pub open spec fn sorted_names(s: Seq<Seq<char>>) -> Seq<Seq<char>> {
    sort_by_name(s.map_values(|n: Seq<char>| (n, n))).map_values(|p: (Seq<char>, Seq<char>)| p.1)
}

/// What the not-exported diagnostic says is exported.
pub open spec fn exported_list(t: ExportView) -> Seq<char> {
    if export_names(t).len() == 0 {
        "nothing is exported from this module"@
    } else {
        "Exported names: "@ + spec_join_with(sorted_names(export_names(t)), ", "@)
    }
}

pub open spec fn not_exported_diag(item: ImportItem, module: Seq<char>, t: ExportView) -> DiagnosticView {
    error_view(
        item.exported_name_span@,
        "`"@ + item.exported_name@ + "` is not exported from \""@ + module + "\"."@,
        "Check the name and add `export` before the declaration in "@ + module + ".ynz. "@ + exported_list(t) + "."@,
        "Only declarations prefixed with `export` are visible to other files."@,
    )
}

pub open spec fn already_bound_diag(item: ImportItem) -> DiagnosticView {
    error_view(
        item.exported_name_span@,
        "Import name `"@ + item.local_name@ + "` is already bound by a previous import."@,
        "Use a different local name: `import { "@ + item.exported_name@ + " as otherName } from \"...\"`"@,
        "Each imported name must be unique in the local scope."@,
    )
}

/// The table exports the name (as a shape, options type or function).
pub open spec fn exports_name(t: ExportView, n: Seq<char>) -> bool {
    row_index(t.shapes, n) >= 0 || row_index(t.options, n) >= 0 || row_index(t.functions, n) >= 0
}

/// Every kind the name is exported as, bound under `local`.
pub open spec fn bind_as(r: ExportView, t: ExportView, exported: Seq<char>, local: Seq<char>) -> ExportView {
    ExportView {
        shapes: if row_index(t.shapes, exported) >= 0 {
            put_view(r.shapes, local, t.shapes[row_index(t.shapes, exported)].1)
        } else {
            r.shapes
        },
        options: if row_index(t.options, exported) >= 0 {
            put_view(r.options, local, t.options[row_index(t.options, exported)].1)
        } else {
            r.options
        },
        functions: if row_index(t.functions, exported) >= 0 {
            put_view(r.functions, local, t.functions[row_index(t.functions, exported)].1)
        } else {
            r.functions
        },
    }
}

/// One named import bound: reported when the module does not export it or its local name
/// is taken; otherwise its local name is taken and bound to every kind it is exported as.
pub open spec fn bind_named(st: ImportStateView, item: ImportItem, module: Seq<char>, t: ExportView) -> ImportStateView {
    if !exports_name(t, item.exported_name@) {
        ImportStateView { diags: st.diags.push(not_exported_diag(item, module, t)), ..st }
    } else if st.bound.contains(item.local_name@) {
        ImportStateView { diags: st.diags.push(already_bound_diag(item)), ..st }
    } else {
        ImportStateView {
            bound: st.bound.insert(item.local_name@),
            result: bind_as(st.result, t, item.exported_name@, item.local_name@),
            diags: st.diags,
        }
    }
}

/// The model of an import state and the diagnostics reported so far.
pub open spec fn state_view(st: ImportState, diags: Seq<Diagnostic>) -> ImportStateView {
    ImportStateView { bound: st.bound@, result: st.result@, diags: diag_views(diags) }
}

/// A value that can be copied with its model unchanged.
pub trait Duplicate: View + Sized {
    fn duplicate_value(&self) -> (r: Self)
        ensures
            r@ == self@,
    ;
}

impl Duplicate for ShapeDef {
    fn duplicate_value(&self) -> (r: ShapeDef) {
        self.duplicate()
    }
}

impl Duplicate for OptionsEntry {
    fn duplicate_value(&self) -> (r: OptionsEntry) {
        self.duplicate()
    }
}

impl Duplicate for FunctionSig {
    fn duplicate_value(&self) -> (r: FunctionSig) {
        self.duplicate()
    }
}

/// The names of the rows, in order.
pub open spec fn names_of<V>(rows: Seq<(Seq<char>, V)>) -> Seq<Seq<char>> {
    rows.map_values(|r: (Seq<char>, V)| r.0)
}

fn push_row_names<T: View>(rows: &Vec<(String, T)>, out: &mut Vec<String>)
    ensures
        string_views(final(out)@) == string_views(old(out)@) + names_of(row_views(rows@)),
{
    let ghost o = string_views(out@);
    let ghost vs = row_views(rows@);
    let mut i: usize = 0;
    while i < rows.len()
        invariant
            i <= rows@.len(),
            vs == row_views(rows@),
            string_views(out@) == o + names_of(vs.take(i as int)),
        decreases rows@.len() - i,
    {
        let c = rows[i].0.clone();
        proof {
            assert(c@ == vs[i as int].0);
        }
        let ghost before = out@;
        out.push(c);
        proof {
            assert(string_views(out@) =~= string_views(before).push(c@));
            assert(names_of(vs.take(i + 1)) =~= names_of(vs.take(i as int)).push(vs[i as int].0));
            assert(string_views(out@) =~= o + names_of(vs.take(i + 1)));
        }
        i = i + 1;
    }
    proof {
        assert(vs.take(i as int) =~= vs);
    }
}

fn export_names_exec(t: &ExportTable) -> (r: Vec<String>)
    ensures
        string_views(r@) == export_names(t@),
{
    let mut out: Vec<String> = Vec::new();
    proof {
        assert(string_views(out@) =~= Seq::<Seq<char>>::empty());
    }
    push_row_names(&t.shapes, &mut out);
    push_row_names(&t.options, &mut out);
    push_row_names(&t.functions, &mut out);
    proof {
        assert(names_of(t@.shapes) =~= t@.shapes.map_values(|r: (Seq<char>, ShapeView)| r.0));
        assert(names_of(t@.options) =~= t@.options.map_values(|r: (Seq<char>, OptionsEntryView)| r.0));
        assert(names_of(t@.functions) =~= t@.functions.map_values(|r: (Seq<char>, FunctionSigView)| r.0));
        assert(string_views(out@) =~= export_names(t@));
    }
    out
}

fn sorted_names_exec(names: &Vec<String>) -> (r: Vec<String>)
    ensures
        string_views(r@) == sorted_names(string_views(names@)),
{
    let ghost s = string_views(names@).map_values(|n: Seq<char>| (n, n));
    let mut pairs: Vec<(String, String)> = Vec::new();
    let mut i: usize = 0;
    while i < names.len()
        invariant
            i <= names@.len(),
            s == string_views(names@).map_values(|n: Seq<char>| (n, n)),
            pairs@.map_values(|q: (String, String)| (q.0@, q.1@)) == sort_by_name(s.take(i as int)),
        decreases names@.len() - i,
    {
        proof {
            assert(s.take(i + 1).drop_last() =~= s.take(i as int));
            assert(s.take(i + 1).last() == (names@[i as int]@, names@[i as int]@));
        }
        insert_by_name_exec(&mut pairs, (names[i].clone(), names[i].clone()));
        i = i + 1;
    }
    proof {
        assert(s.take(i as int) =~= s);
    }
    let ghost ps = pairs@.map_values(|q: (String, String)| (q.0@, q.1@));
    let mut out: Vec<String> = Vec::new();
    let mut j: usize = 0;
    while j < pairs.len()
        invariant
            j <= pairs@.len(),
            ps == pairs@.map_values(|q: (String, String)| (q.0@, q.1@)),
            string_views(out@) == ps.take(j as int).map_values(|p: (Seq<char>, Seq<char>)| p.1),
        decreases pairs@.len() - j,
    {
        let c = pairs[j].1.clone();
        proof {
            assert(c@ == ps[j as int].1);
        }
        let ghost before = out@;
        out.push(c);
        proof {
            assert(string_views(out@) =~= string_views(before).push(c@));
            assert(ps.take(j + 1).map_values(|p: (Seq<char>, Seq<char>)| p.1) =~= ps.take(j as int).map_values(
                |p: (Seq<char>, Seq<char>)| p.1,
            ).push(ps[j as int].1));
            assert(string_views(out@) =~= ps.take(j + 1).map_values(|p: (Seq<char>, Seq<char>)| p.1));
        }
        j = j + 1;
    }
    proof {
        assert(ps.take(j as int) =~= ps);
    }
    out
}

fn exported_list_exec(t: &ExportTable) -> (r: String)
    ensures
        r@ == exported_list(t@),
{
    let names = export_names_exec(t);
    if names.len() == 0 {
        lit("nothing is exported from this module")
    } else {
        let sorted = sorted_names_exec(&names);
        let mut l = lit("Exported names: ");
        let joined = join_with(&sorted, ", ");
        l.append(joined.as_str());
        l
    }
}

/// Bind one named import (`import { exported as local } from "module"`) against the
/// module's export table.
pub fn bind_named_import(
    item: &ImportItem,
    t: &ExportTable,
    module: &str,
    st: &mut ImportState,
    diags: &mut Vec<Diagnostic>,
)
    ensures
        state_view(*final(st), final(diags)@) == bind_named(state_view(*old(st), old(diags)@), *item, module@, t@),
{
    let fs = row_position(&t.shapes, item.exported_name.as_str());
    let fo = row_position(&t.options, item.exported_name.as_str());
    let ff = row_position(&t.functions, item.exported_name.as_str());
    if fs.is_none() && fo.is_none() && ff.is_none() {
        let list = exported_list_exec(t);
        let mut what = lit("`");
        what.append(item.exported_name.as_str());
        what.append("` is not exported from \"");
        what.append(module);
        what.append("\".");
        let mut instead = lit("Check the name and add `export` before the declaration in ");
        instead.append(module);
        instead.append(".ynz. ");
        instead.append(list.as_str());
        instead.append(".");
        push_diag(
            diags,
            &item.exported_name_span,
            what,
            instead,
            lit("Only declarations prefixed with `export` are visible to other files."),
        );
        return ;
    }
    if st.bound.contains(item.local_name.as_str()) {
        let mut what = lit("Import name `");
        what.append(item.local_name.as_str());
        what.append("` is already bound by a previous import.");
        let mut instead = lit("Use a different local name: `import { ");
        instead.append(item.exported_name.as_str());
        instead.append(" as otherName } from \"...\"`");
        push_diag(
            diags,
            &item.exported_name_span,
            what,
            instead,
            lit("Each imported name must be unique in the local scope."),
        );
        return ;
    }
    st.bound.insert(item.local_name.clone());
    match fs {
        Some(i) => put_row(&mut st.result.shapes, item.local_name.clone(), t.shapes[i].1.duplicate()),
        None => {},
    }
    match fo {
        Some(i) => put_row(&mut st.result.options, item.local_name.clone(), t.options[i].1.duplicate()),
        None => {},
    }
    match ff {
        Some(i) => put_row(&mut st.result.functions, item.local_name.clone(), t.functions[i].1.duplicate()),
        None => {},
    }
}

/// The rows of `t`, each bound as `local.name`, put into `r` in order.
pub open spec fn namespaced<V>(r: Seq<(Seq<char>, V)>, t: Seq<(Seq<char>, V)>, local: Seq<char>) -> Seq<(Seq<char>, V)>
    decreases t.len(),
{
    if t.len() == 0 {
        r
    } else {
        put_view(namespaced(r, t.drop_last(), local), local + "."@ + t.last().0, t.last().1)
    }
}

pub open spec fn namespace_bound_diag(local: Seq<char>, span: SpanView) -> DiagnosticView {
    error_view(
        span,
        "Import name `"@ + local + "` is already bound by a previous import."@,
        "Use a different local name with `import ns as otherName from \"...\"`"@,
        "Each imported name must be unique in the local scope."@,
    )
}

/// A namespace import (`import * as local from "module"`): reported when the local name is
/// taken, and in any case every export bound as `local.name`.
pub open spec fn bind_namespace(st: ImportStateView, local: Seq<char>, span: SpanView, t: ExportView) -> ImportStateView {
    ImportStateView {
        bound: st.bound.insert(local),
        result: ExportView {
            shapes: namespaced(st.result.shapes, t.shapes, local),
            options: namespaced(st.result.options, t.options, local),
            functions: namespaced(st.result.functions, t.functions, local),
        },
        diags: if st.bound.contains(local) {
            st.diags.push(namespace_bound_diag(local, span))
        } else {
            st.diags
        },
    }
}

/// The named imports bound in order.
pub open spec fn bind_all_named(st: ImportStateView, items: Seq<ImportItem>, module: Seq<char>, t: ExportView) -> ImportStateView
    decreases items.len(),
{
    if items.len() == 0 {
        st
    } else {
        bind_named(bind_all_named(st, items.drop_last(), module, t), items.last(), module, t)
    }
}

/// What an import binds from the module's export table.
pub open spec fn bind_kind(st: ImportStateView, kind: ImportKind, module: Seq<char>, t: ExportView) -> ImportStateView {
    match kind {
        ImportKind::Named(items) => bind_all_named(st, items@, module, t),
        ImportKind::Namespace { local_name, local_name_span } => bind_namespace(st, local_name@, local_name_span@, t),
    }
}

pub open spec fn not_registered_diag(d: ImportDecl) -> DiagnosticView {
    error_view(
        d.source_span@,
        "Module \""@ + d.source@ + "\" was not registered in the project."@,
        "Check that the file exists under your project root and that `yinz.toml` is present."@,
        "Yinz only resolves imports inside projects (a directory with `yinz.toml`). Compiling a single file with `ynz build foo.ynz` has no project context \u{2014} add a `yinz.toml` and put your files under that directory if you need imports."@,
    )
}

pub open spec fn parse_errors_diag(d: ImportDecl) -> DiagnosticView {
    error_view(
        d.source_span@,
        "Module \""@ + d.source@ + "\" has parse errors \u{2014} fix those first."@,
        "Run `ynz build "@ + d.source@ + ".ynz` to see the errors in that file."@,
        "The compiler cannot resolve exports from a file with parse errors."@,
    )
}

pub open spec fn imports_back_diag(d: ImportDecl) -> DiagnosticView {
    error_view(
        d.source_span@,
        "Circular import: \""@ + d.source@ + "\" imports back into the current module chain."@,
        "Move the shared definitions to a third file that both modules can import without creating a cycle."@,
        "Circular imports create an unresolvable dependency order \u{2014} the compiler cannot determine which module to compile first. Extract the shared types, functions, or shapes into a new file and import that file from both modules."@,
    )
}

/// A table exporting nothing.
pub open spec fn no_exports() -> ExportView {
    ExportView { shapes: Seq::empty(), options: Seq::empty(), functions: Seq::empty() }
}

pub open spec fn with_diag(st: ImportStateView, d: DiagnosticView) -> ImportStateView {
    ImportStateView { diags: st.diags.push(d), ..st }
}

/// An anchored import, once its module has been looked up: a module that cannot be had is
/// reported and binds nothing; one that could not be loaded is reported and its names are
/// bound against an empty table; a loaded one binds from its exports.
pub open spec fn apply_lookup(st: ImportStateView, d: ImportDecl, lookup: ImportLookup) -> ImportStateView {
    match lookup {
        ImportLookup::NotFound { has_project_root } => with_diag(st, not_found_diag(d, has_project_root)),
        ImportLookup::SelfImport => with_diag(st, self_import_diag(d)),
        ImportLookup::Circular => with_diag(st, circular_import_diag(d)),
        ImportLookup::NotRegistered => bind_kind(with_diag(st, not_registered_diag(d)), d.kind, d.source@, no_exports()),
        ImportLookup::ParseErrors => bind_kind(with_diag(st, parse_errors_diag(d)), d.kind, d.source@, no_exports()),
        ImportLookup::ImportsBack => bind_kind(with_diag(st, imports_back_diag(d)), d.kind, d.source@, no_exports()),
        ImportLookup::Loaded(t) => bind_kind(st, d.kind, d.source@, t@),
    }
}

fn empty_exports() -> (t: ExportTable)
    ensures
        t@ == no_exports(),
{
    let t = ExportTable::empty();
    proof {
        assert(t@.shapes =~= no_exports().shapes);
        assert(t@.options =~= no_exports().options);
        assert(t@.functions =~= no_exports().functions);
    }
    t
}

fn put_namespaced<T: Duplicate>(rows: &mut Vec<(String, T)>, src: &Vec<(String, T)>, local: &str)
    ensures
        row_views(final(rows)@) == namespaced(row_views(old(rows)@), row_views(src@), local@),
{
    let ghost r0 = row_views(rows@);
    let ghost t = row_views(src@);
    let mut i: usize = 0;
    while i < src.len()
        invariant
            i <= src@.len(),
            t == row_views(src@),
            row_views(rows@) == namespaced(r0, t.take(i as int), local@),
        decreases src@.len() - i,
    {
        proof {
            assert(t.take(i + 1).drop_last() =~= t.take(i as int));
        }
        let mut key = lit(local);
        key.append(".");
        key.append(src[i].0.as_str());
        put_row(rows, key, src[i].1.duplicate_value());
        i = i + 1;
    }
    proof {
        assert(t.take(i as int) =~= t);
    }
}

fn bind_namespace_import(
    local: &String,
    span: &SourceSpan,
    t: &ExportTable,
    st: &mut ImportState,
    diags: &mut Vec<Diagnostic>,
)
    ensures
        state_view(*final(st), final(diags)@) == bind_namespace(state_view(*old(st), old(diags)@), local@, span@, t@),
{
    if st.bound.contains(local.as_str()) {
        let mut what = lit("Import name `");
        what.append(local.as_str());
        what.append("` is already bound by a previous import.");
        push_diag(
            diags,
            span,
            what,
            lit("Use a different local name with `import ns as otherName from \"...\"`"),
            lit("Each imported name must be unique in the local scope."),
        );
    }
    st.bound.insert(local.clone());
    put_namespaced(&mut st.result.shapes, &t.shapes, local.as_str());
    put_namespaced(&mut st.result.options, &t.options, local.as_str());
    put_namespaced(&mut st.result.functions, &t.functions, local.as_str());
}

fn bind_import_kind(
    kind: &ImportKind,
    module: &str,
    t: &ExportTable,
    st: &mut ImportState,
    diags: &mut Vec<Diagnostic>,
)
    ensures
        state_view(*final(st), final(diags)@) == bind_kind(state_view(*old(st), old(diags)@), *kind, module@, t@),
{
    match kind {
        ImportKind::Named(items) => {
            let ghost s0 = state_view(*st, diags@);
            let mut i: usize = 0;
            while i < items.len()
                invariant
                    i <= items@.len(),
                    state_view(*st, diags@) == bind_all_named(s0, items@.take(i as int), module@, t@),
                decreases items@.len() - i,
            {
                proof {
                    assert(items@.take(i + 1).drop_last() =~= items@.take(i as int));
                }
                bind_named_import(&items[i], t, module, st, diags);
                i = i + 1;
            }
            proof {
                assert(items@.take(i as int) =~= items@);
            }
        },
        ImportKind::Namespace { local_name, local_name_span } => {
            bind_namespace_import(local_name, local_name_span, t, st, diags);
        },
    }
}

/// Apply what looking up an anchored import's module found: report a module that cannot
/// be had, and bind the import's names from the module's exports (from none, when the
/// module could not be loaded).
pub fn apply_import_lookup(d: &ImportDecl, lookup: &ImportLookup, st: &mut ImportState, diags: &mut Vec<Diagnostic>)
    ensures
        state_view(*final(st), final(diags)@) == apply_lookup(state_view(*old(st), old(diags)@), *d, *lookup),
{
    match lookup {
        ImportLookup::NotFound { has_project_root } => {
            if !*has_project_root && contains_slash(d.source.as_str()) {
                let mut what = lit("Module \"");
                what.append(d.source.as_str());
                what.append("\" not found \u{2014} no `yinz.toml` in any parent directory.");
                push_diag(
                    diags,
                    &d.source_span,
                    what,
                    lit(
                        "Add a `yinz.toml` at your project root so the compiler knows where to look. Single-file imports work without it; cross-directory imports need it.",
                    ),
                    lit(
                        "Cross-directory imports use paths relative to the `yinz.toml` location. Same-directory imports work without one.",
                    ),
                );
            } else {
                let mut what = lit("Module \"");
                what.append(d.source.as_str());
                what.append("\" not found.");
                let mut instead = lit("Check that `");
                instead.append(d.source.as_str());
                instead.append(".ynz` exists at the project root. Paths are project-root-relative without the `.ynz` suffix.");
                push_diag(
                    diags,
                    &d.source_span,
                    what,
                    instead,
                    lit("Import paths point to `.ynz` files relative to the `yinz.toml` location."),
                );
            }
        },
        ImportLookup::SelfImport => {
            push_diag(
                diags,
                &d.source_span,
                lit("A file cannot import from itself."),
                lit("Remove this import, or move the shared types to a separate file."),
                lit("Self-imports create a circular dependency with no resolution."),
            );
        },
        ImportLookup::Circular => {
            let mut what = lit("Circular import detected: \"");
            what.append(d.source.as_str());
            what.append("\" is already being imported in this chain.");
            push_diag(
                diags,
                &d.source_span,
                what,
                lit(
                    "Restructure the modules so neither imports the other, or move the shared types to a third file that both can import.",
                ),
                lit("Circular imports make compilation order undefined. Extract shared types to break the cycle."),
            );
        },
        ImportLookup::NotRegistered => {
            let mut what = lit("Module \"");
            what.append(d.source.as_str());
            what.append("\" was not registered in the project.");
            push_diag(
                diags,
                &d.source_span,
                what,
                lit("Check that the file exists under your project root and that `yinz.toml` is present."),
                lit(
                    "Yinz only resolves imports inside projects (a directory with `yinz.toml`). Compiling a single file with `ynz build foo.ynz` has no project context \u{2014} add a `yinz.toml` and put your files under that directory if you need imports.",
                ),
            );
            let empty = empty_exports();
            bind_import_kind(&d.kind, d.source.as_str(), &empty, st, diags);
        },
        ImportLookup::ParseErrors => {
            let mut what = lit("Module \"");
            what.append(d.source.as_str());
            what.append("\" has parse errors \u{2014} fix those first.");
            let mut instead = lit("Run `ynz build ");
            instead.append(d.source.as_str());
            instead.append(".ynz` to see the errors in that file.");
            push_diag(
                diags,
                &d.source_span,
                what,
                instead,
                lit("The compiler cannot resolve exports from a file with parse errors."),
            );
            let empty = empty_exports();
            bind_import_kind(&d.kind, d.source.as_str(), &empty, st, diags);
        },
        ImportLookup::ImportsBack => {
            let mut what = lit("Circular import: \"");
            what.append(d.source.as_str());
            what.append("\" imports back into the current module chain.");
            push_diag(
                diags,
                &d.source_span,
                what,
                lit("Move the shared definitions to a third file that both modules can import without creating a cycle."),
                lit(
                    "Circular imports create an unresolvable dependency order \u{2014} the compiler cannot determine which module to compile first. Extract the shared types, functions, or shapes into a new file and import that file from both modules.",
                ),
            );
            let empty = empty_exports();
            bind_import_kind(&d.kind, d.source.as_str(), &empty, st, diags);
        },
        ImportLookup::Loaded(t) => {
            bind_import_kind(&d.kind, d.source.as_str(), t, st, diags);
        },
    }
}

} // verus!
