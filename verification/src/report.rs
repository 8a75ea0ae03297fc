//! Checking a program: the flow simulation on top of the analysis, and the
//! report of what was found.

use vstd::prelude::*;
use crate::analyzer::Workspace;
use crate::engine::{is_boundary_node, simulated, Flow, FlowModel};
use crate::lsp::has_errors;
use crate::models::{DiagnosticModel, Graph, Node, Severity, StructureModel};
use crate::source_manager::{opt_string_view, span_range, SourceModel};
use crate::text::{decimal, push_decimal_u64};

verus! {

/// A structure whose diagnostics have those of a simulation appended.
pub open spec fn with_flow_diagnostics(m: StructureModel, f: FlowModel) -> StructureModel {
    StructureModel { diagnostics: m.diagnostics + f.diagnostics, ..m }
}

/// Runs the flow simulation when the analysis found no error, and adds its
/// diagnostics to the structure; returns the graph it built.
pub fn run_flow_checks(ws: &mut Workspace) -> (graph: Option<Graph>)
    ensures
        final(ws).source_manager == old(ws).source_manager,
        final(ws).current_root == old(ws).current_root,
        old(ws).structure.symbol_table.wf() ==> final(ws).structure.symbol_table.wf(),
        match graph {
            None => {
                &&& final(ws).structure@ == old(ws).structure@
                &&& exists|k: int|
                    0 <= k < old(ws).structure@.diagnostics.len() && (#[trigger] old(ws).structure@.diagnostics[k]).severity
                        == Severity::Error
            },
            Some(g) => {
                &&& forall|k: int|
                    0 <= k < old(ws).structure@.diagnostics.len() ==> (#[trigger] old(ws).structure@.diagnostics[k]).severity
                        != Severity::Error
                &&& exists|i: Node, f: Node, e: Node, m0: FlowModel|
                    #![trigger simulated(m0, old(ws).structure, i, f, e)]
                    m0.nodes.len() == 0 && m0.edges.len() == 0 && m0.pools.len() == 0 && m0.deduplicate_edges
                        && m0.diagnostics.len() == 0
                        && is_boundary_node(i, "InitialNode"@, true, false, false)
                        && is_boundary_node(f, "FinalNode"@, false, true, false)
                        && is_boundary_node(e, "FatalErrors"@, false, false, true)
                        && g.nodes@ == simulated(m0, old(ws).structure, i, f, e).nodes
                        && g.edges@ == simulated(m0, old(ws).structure, i, f, e).edges
                        && final(ws).structure@ == with_flow_diagnostics(
                        old(ws).structure@,
                        simulated(m0, old(ws).structure, i, f, e),
                    )
            },
        },
{
    if has_errors(&ws.structure) {
        return None;
    }
    let mut flow = Flow::new(true);
    let ghost m0 = flow@;
    let graph = flow.simulate(&ws.structure);
    let ghost before = ws.structure@;
    let ghost fd = flow@.diagnostics;
    let mut extra = flow.diagnostics;
    assert(crate::models::diagnostic_models(extra@) == fd);
    let ghost old_diags = ws.structure.diagnostics@;
    ws.structure.diagnostics.append(&mut extra);
    assert(crate::models::diagnostic_models(ws.structure.diagnostics@) =~= crate::models::diagnostic_models(old_diags)
        + fd);
    assert(ws.structure@ =~= StructureModel { diagnostics: before.diagnostics + fd, ..before });
    Some(graph)
}

/// The path of a file.
#[verifier::external_type_specification]
#[verifier::external_body]
pub struct ExPathBuf(std::path::PathBuf);

/// The path of a `file:` URI: `Url::parse`, then `Url::to_file_path` of the
/// url crate. What comes back depends on the platform's paths, so nothing
/// is stated of it; the locations built from it say what holds of any answer.
#[verifier::external_body]
fn file_path_of(uri: &str) -> (r: Option<std::path::PathBuf>) {
    let url = tower_lsp::lsp_types::Url::parse(uri).ok()?;
    url.to_file_path().ok()
}

/// The last component of a path, as `Path::file_name` of std gives it,
/// converted to a string. Nothing is stated of it: it depends on the
/// platform's paths.
#[verifier::external_body]
fn file_name_in(path: &std::path::PathBuf) -> (r: Option<String>) {
    path.file_name().map(|n| n.to_string_lossy().to_string())
}

/// The file name of a URI, if it names a file.
fn file_name_of(uri: &str) -> (r: Option<String>) {
    match file_path_of(uri) {
        Some(p) => file_name_in(&p),
        None => None,
    }
}

/// A line of the check report.
#[derive(Debug)]
pub struct ReportLine {
    pub severity: Severity,
    /// `file:line:column`, one-based, or `global`.
    pub location: String,
    pub message: String,
}

/// The report of a check: one line per diagnostic, and the counts.
#[derive(Debug)]
pub struct CheckReport {
    pub lines: Vec<ReportLine>,
    pub errors: usize,
    pub warnings: usize,
}

/// Where a diagnostic is: `file:line:column` of its span, one-based, or
/// `global` without one. `name` is the file name of the span's file;
/// `unknown` stands for a file without a name or a URI that is not known.
pub open spec fn location_text(sm: SourceModel, d: DiagnosticModel, name: Option<Seq<char>>) -> Seq<char> {
    match d.span {
        Some(sp) => {
            let file = if sm.uris.contains_key(sp.file_id) {
                match name {
                    Some(n) => n,
                    None => "unknown"@,
                }
            } else {
                "unknown"@
            };
            let r = span_range(sm, sp);
            file + ":"@ + decimal((r.start.line + 1) as nat) + ":"@ + decimal((r.start.character + 1) as nat)
        },
        None => "global"@,
    }
}

/// A report line stands for a diagnostic: its severity and message, and its
/// location for some file name.
pub open spec fn reports(sm: SourceModel, d: DiagnosticModel, line: (Severity, Seq<char>, Seq<char>)) -> bool {
    &&& line.0 == d.severity
    &&& line.2 == d.message
    &&& exists|name: Option<Seq<char>>| line.1 == location_text(sm, d, name)
}

pub open spec fn count_severity(ds: Seq<DiagnosticModel>, s: Severity) -> nat
    decreases ds.len(),
{
    if ds.len() == 0 {
        0
    } else {
        count_severity(ds.drop_last(), s) + if ds.last().severity == s {
            1nat
        } else {
            0nat
        }
    }
}

pub open spec fn line_views(v: Seq<ReportLine>) -> Seq<(Severity, Seq<char>, Seq<char>)> {
    v.map_values(|l: ReportLine| (l.severity, l.location@, l.message@))
}

fn push_u64_decimal(out: &mut String, n: u64)
    ensures
        final(out)@ == old(out)@ + decimal(n as nat),
{
    let mut digits: Vec<char> = Vec::new();
    push_decimal_u64(&mut digits, n);
    let s = crate::text::string_from_chars(&digits);
    out.append(s.as_str());
}

/// The location of a diagnostic, given the file name of its span's file.
pub fn diagnostic_location(
    sm: &crate::source_manager::SourceManager,
    d: &crate::models::DiagnosticWithContext,
    file_name: Option<String>,
) -> (r: String)
    requires
        sm.wf(),
    ensures
        r@ == location_text(sm.model(), d@, opt_string_view(file_name)),
{
    proof {
        sm.lemma_model();
    }
    match d.span {
        Some(sp) => {
            let file = match sm.get_uri(sp.file_id) {
                Some(_) => match file_name {
                    Some(n) => n,
                    None => String::from_str("unknown"),
                },
                None => String::from_str("unknown"),
            };
            let range = sm.range_of_span(sp);
            let mut loc = file;
            loc.append(":");
            push_u64_decimal(&mut loc, range.start.line as u64 + 1);
            loc.append(":");
            push_u64_decimal(&mut loc, range.start.character as u64 + 1);
            loc
        },
        None => String::from_str("global"),
    }
}

/// The report of the diagnostics of the workspace: a line for each, in
/// order, and the numbers of errors and warnings. File names come from the
/// URIs of the files.
pub fn check_report(ws: &Workspace) -> (r: CheckReport)
    requires
        ws.source_manager.wf(),
    ensures
        r.lines@.len() == ws.structure@.diagnostics.len(),
        forall|k: int|
            0 <= k < r.lines@.len() ==> reports(
                ws.source_manager.model(),
                ws.structure@.diagnostics[k],
                #[trigger] line_views(r.lines@)[k],
            ),
        r.errors == count_severity(ws.structure@.diagnostics, Severity::Error),
        r.warnings == count_severity(ws.structure@.diagnostics, Severity::Warning),
{
    proof {
        ws.source_manager.lemma_model();
    }
    let ghost ds = ws.structure@.diagnostics;
    let ghost sm = ws.source_manager.model();
    let mut lines: Vec<ReportLine> = Vec::new();
    let mut errors: usize = 0;
    let mut warnings: usize = 0;
    let mut i: usize = 0;
    while i < ws.structure.diagnostics.len()
        invariant
            0 <= i <= ds.len(),
            ds == ws.structure@.diagnostics,
            sm == ws.source_manager.model(),
            ws.source_manager.wf(),
            lines@.len() == i,
            forall|k: int| 0 <= k < i ==> reports(sm, ds[k], #[trigger] line_views(lines@)[k]),
            errors == count_severity(ds.take(i as int), Severity::Error),
            warnings == count_severity(ds.take(i as int), Severity::Warning),
            errors <= i,
            warnings <= i,
        decreases ds.len() - i,
    {
        let d = &ws.structure.diagnostics[i];
        assert(ds[i as int] == d@);
        assert(ds.take(i + 1).drop_last() =~= ds.take(i as int));
        let name = match d.span {
            Some(sp) => match ws.source_manager.get_uri(sp.file_id) {
                Some(u) => file_name_of(u),
                None => None,
            },
            None => None,
        };
        let ghost nv = opt_string_view(name);
        let location = diagnostic_location(&ws.source_manager, d, name);
        match d.severity {
            Severity::Error => {
                errors = errors + 1;
            },
            Severity::Warning => {
                warnings = warnings + 1;
            },
            _ => {},
        }
        let ghost before = lines@;
        lines.push(ReportLine { severity: d.severity, location, message: String::from_str(d.message.as_str()) });
        proof {
            assert(line_views(lines@)[i as int].1 == location_text(sm, ds[i as int], nv));
            assert(reports(sm, ds[i as int], line_views(lines@)[i as int]));
            assert forall|k: int| 0 <= k < i + 1 implies reports(sm, ds[k], #[trigger] line_views(lines@)[k]) by {
                if k < i {
                    assert(line_views(lines@)[k] == line_views(before)[k]);
                }
            }
        }
        i = i + 1;
    }
    assert(ds.take(i as int) =~= ds);
    CheckReport { lines, errors, warnings }
}

} // verus!
