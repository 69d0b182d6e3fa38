//! The invariant-checker view: one table row per invariant reported in
//! each `.invariants` file of the project, or one error row for a file
//! that does not parse. The view is static: it has no commands.

use vstd::prelude::*;
use crate::invariant_report::{Invariant, InvariantLine, Status, invariant_view, parse, report_spec, status_of};
use crate::text::{debug_str, push_debug_str, push_str};
use crate::text::lit;
use crate::view::{CellView, Severity, TableCell, TableView, ViewPrimitive, cell, row_view, table_view};

verus! {

/// The status cell of a verdict.
pub open spec fn status_cell(s: Status) -> CellView {
    match s {
        Status::Holds => ("holds"@, Some(Severity::Info)),
        Status::Violated => ("violated"@, Some(Severity::Error)),
        Status::Unknown => ("unknown"@, Some(Severity::Warning)),
    }
}

/// An invariant's status cell names its status in the report's own words
/// (the text reads back as that status), and flags it by what it means:
/// only a holding invariant is shown as healthy (`Info`), only a violated
/// one as an error, and one not fully explored as a warning.
pub proof fn status_cell_names_and_flags_the_status(s: Status)
    ensures
        status_of(status_cell(s).0) == Some(s),
        (status_cell(s).1 == Some(Severity::Info)) <==> s == Status::Holds,
        (status_cell(s).1 == Some(Severity::Error)) <==> s == Status::Violated,
        (status_cell(s).1 == Some(Severity::Warning)) <==> s == Status::Unknown,
{
    reveal_strlit("holds");
    reveal_strlit("violated");
    reveal_strlit("unknown");
    assert("holds"@.len() == 5 && "violated"@.len() == 8 && "unknown"@.len() == 7);
    match s {
        Status::Holds => {},
        Status::Violated => {
            assert("violated"@ != "holds"@);
        },
        Status::Unknown => {
            assert("unknown"@ != "holds"@);
            assert("unknown"@ != "violated"@);
        },
    }
}

/// The row of one invariant reported in the file at `path`.
pub open spec fn invariant_row(path: Seq<char>, inv: InvariantLine) -> Seq<CellView> {
    seq![(path, None), (inv.0, None), status_cell(inv.1), (inv.2, None)]
}

/// The rows of the file at `path`: none when it could not be read, one
/// per invariant when it parses, one error row when it does not.
pub open spec fn file_rows(path: Seq<char>, read: Option<Seq<char>>) -> Seq<Seq<CellView>> {
    match read {
        None => Seq::empty(),
        Some(text) => match report_spec(text) {
            Ok(invs) => invs.map_values(|inv: InvariantLine| invariant_row(path, inv)),
            Err(e) => seq![
                seq![(path, None), ("(parse error)"@, None), ("error"@, Some(Severity::Error)), (e, None)],
            ],
        },
    }
}

/// The files as plain values: path and contents, if read.
pub open spec fn files_view(files: Seq<(String, Option<String>)>) -> Seq<(Seq<char>, Option<Seq<char>>)> {
    files.map_values(
        |f: (String, Option<String>)|
            (f.0@, match f.1 {
                Some(t) => Some(t@),
                None => None,
            }),
    )
}

/// The rows of all the files, in order.
pub open spec fn all_rows(files: Seq<(Seq<char>, Option<Seq<char>>)>) -> Seq<Seq<CellView>>
    decreases files.len(),
{
    if files.len() == 0 {
        Seq::empty()
    } else {
        all_rows(files.drop_last()) + file_rows(files.last().0, files.last().1)
    }
}

/// The table's headers.
pub open spec fn checker_headers() -> Seq<Seq<char>> {
    seq!["File"@, "Invariant"@, "Status"@, "Description"@]
}

fn copy_string(s: &String) -> (t: String)
    ensures
        t@ == s@,
{
    lit(s.as_str())
}

fn invariant_row_exec(path: &String, inv: &Invariant) -> (row: Vec<TableCell>)
    ensures
        row_view(row) == invariant_row(path@, invariant_view(*inv)),
{
    let status = match inv.status {
        Status::Holds => cell(lit("holds"), Some(Severity::Info)),
        Status::Violated => cell(lit("violated"), Some(Severity::Error)),
        Status::Unknown => cell(lit("unknown"), Some(Severity::Warning)),
    };
    let mut row: Vec<TableCell> = Vec::new();
    row.push(cell(copy_string(path), None));
    row.push(cell(copy_string(&inv.name), None));
    row.push(status);
    row.push(cell(copy_string(&inv.description), None));
    assert(row_view(row) =~= invariant_row(path@, invariant_view(*inv)));
    row
}

/// One row per invariant of every readable file (`files` holds each
/// file's path and its contents, `None` where reading it failed).
pub fn build_table(files: &[(String, Option<String>)]) -> (p: ViewPrimitive)
    ensures
        is_checker_table(p, files_view(files@)),
{
    let mut rows: Vec<Vec<TableCell>> = Vec::new();
    let mut i: usize = 0;
    while i < files.len()
        invariant
            i <= files@.len(),
            rows@.map_values(|r: Vec<TableCell>| row_view(r)) == all_rows(files_view(files@.take(i as int))),
        decreases files.len() - i,
    {
        let ghost before = rows@.map_values(|r: Vec<TableCell>| row_view(r));
        assert(files_view(files@.take(i + 1)).drop_last() =~= files_view(files@.take(i as int)));
        let (path, read) = (&files[i].0, &files[i].1);
        let ghost readv = match files@[i as int].1 {
            Some(t) => Some(t@),
            None => None::<Seq<char>>,
        };
        match read {
            None => {
                assert(rows@.map_values(|r: Vec<TableCell>| row_view(r)) =~= before + file_rows(path@, readv));
            },
            Some(contents) => {
                match parse(contents.as_str()) {
                    Ok(invariants) => {
                        let ghost invs = invariants@.map_values(|inv: Invariant| invariant_view(inv));
                        let mut j: usize = 0;
                        while j < invariants.len()
                            invariant
                                j <= invariants@.len(),
                                invs == invariants@.map_values(|inv: Invariant| invariant_view(inv)),
                                rows@.map_values(|r: Vec<TableCell>| row_view(r)) == before + invs.take(
                                    j as int,
                                ).map_values(|inv: InvariantLine| invariant_row(path@, inv)),
                            decreases invariants.len() - j,
                        {
                            let row = invariant_row_exec(path, &invariants[j]);
                            let ghost mid = rows@;
                            rows.push(row);
                            assert(rows@.map_values(|r: Vec<TableCell>| row_view(r)) =~= mid.map_values(
                                |r: Vec<TableCell>| row_view(r),
                            ).push(row_view(row)));
                            assert(invs.take(j + 1).map_values(|inv: InvariantLine| invariant_row(path@, inv))
                                =~= invs.take(j as int).map_values(
                                |inv: InvariantLine| invariant_row(path@, inv),
                            ).push(invariant_row(path@, invs[j as int])));
                            j = j + 1;
                        }
                        assert(invs.take(j as int) =~= invs);
                        assert(rows@.map_values(|r: Vec<TableCell>| row_view(r)) =~= before + file_rows(
                            path@,
                            readv,
                        ));
                    },
                    Err(e) => {
                        let mut row: Vec<TableCell> = Vec::new();
                        row.push(cell(copy_string(path), None));
                        row.push(cell(lit("(parse error)"), None));
                        row.push(cell(lit("error"), Some(Severity::Error)));
                        row.push(cell(e, None));
                        let ghost mid = rows@;
                        let ghost rv = row_view(row);
                        rows.push(row);
                        assert(rows@.map_values(|r: Vec<TableCell>| row_view(r)) =~= mid.map_values(
                            |r: Vec<TableCell>| row_view(r),
                        ).push(rv));
                        assert(rv =~= seq![
                            (path@, None),
                            ("(parse error)"@, None),
                            ("error"@, Some(Severity::Error)),
                            (report_spec(contents@)->Err_0, None),
                        ]);
                        assert(rows@.map_values(|r: Vec<TableCell>| row_view(r)) =~= before + file_rows(
                            path@,
                            readv,
                        ));
                    },
                }
            },
        }
        proof {
            let fv = files_view(files@.take(i + 1));
            assert(fv.last() == (path@, readv));
        }
        assert(rows@.map_values(|r: Vec<TableCell>| row_view(r)) =~= all_rows(files_view(files@.take(i + 1))));
        i = i + 1;
    }
    assert(files@.take(i as int) =~= files@);
    let mut headers: Vec<String> = Vec::new();
    headers.push(lit("File"));
    headers.push(lit("Invariant"));
    headers.push(lit("Status"));
    headers.push(lit("Description"));
    let t = TableView { headers, rows };
    assert(table_view(t).0 =~= checker_headers());
    ViewPrimitive::Table(t)
}

/// `p` is the table of `files`.
pub open spec fn is_checker_table(p: ViewPrimitive, files: Seq<(Seq<char>, Option<Seq<char>>)>) -> bool {
    p matches ViewPrimitive::Table(t) && table_view(t) == (checker_headers(), all_rows(files))
}

/// The view's identifier.
pub fn view_id() -> (id: String)
    ensures
        id@ == "invariant-checker"@,
{
    lit("invariant-checker")
}

/// The view keeps no state.
pub fn init_state() -> (state: Vec<u8>)
    ensures
        state@.len() == 0,
{
    Vec::new()
}

/// The table of the project's invariant files, whatever the state.
pub fn render(state: Vec<u8>, files: &[(String, Option<String>)]) -> (r: Result<Vec<ViewPrimitive>, String>)
    ensures
        r matches Ok(v) && v@.len() == 1 && is_checker_table(v@[0], files_view(files@)),
{
    let mut v: Vec<ViewPrimitive> = Vec::new();
    v.push(build_table(files));
    Ok(v)
}

/// The view is static: every command is refused.
pub fn handle_command(state: Vec<u8>, command: String) -> (r: Result<(Vec<u8>, Vec<ViewPrimitive>), String>)
    ensures
        r matches Err(e) && e@ == "unknown command: "@ + debug_str(command@) + " (this view is static, no commands)"@,
{
    let mut e = lit("unknown command: ");
    push_debug_str(&mut e, command.as_str());
    push_str(&mut e, " (this view is static, no commands)");
    Err(e)
}

} // verus!
