//! Operations as lines of text for a terminal.

use crate::console::{colorize_status, coloured};
use crate::model::{state_name, views_of, Operation, OperationView};
use crate::text::{decimal, decimal_string};
use vstd::prelude::*;

verus! {

/// The number of columns that `unicode_width` gives a text on a terminal:
/// what `UnicodeWidthStr::width` returns for it.
pub uninterp spec fn display_width(s: Seq<char>) -> nat;

/// `UnicodeWidthStr::width`: the displayed width of `s` in columns.
#[verifier::external_body]
fn width(s: &str) -> (r: usize)
    ensures
        r as nat == display_width(s@),
{
    unicode_width::UnicodeWidthStr::width(s)
}

/// `unit` written `n` times.
pub open spec fn repeated(unit: Seq<char>, n: nat) -> Seq<char>
    decreases n,
{
    if n == 0 {
        Seq::empty()
    } else {
        repeated(unit, (n - 1) as nat) + unit
    }
}

/// The spaces that fill a column of `width` characters of which `used` are
/// taken.
pub open spec fn padding(width: nat, used: nat) -> Seq<char> {
    repeated(
        " "@,
        if used < width {
            (width - used) as nat
        } else {
            0
        },
    )
}

/// `s` at the right of a column of `width` characters.
pub open spec fn right_aligned(s: Seq<char>, width: nat) -> Seq<char> {
    padding(width, s.len()) + s
}

/// `s` at the left of a column of `width` characters.
pub open spec fn left_aligned(s: Seq<char>, width: nat) -> Seq<char> {
    s + padding(width, s.len())
}

/// The larger of two numbers.
pub open spec fn larger(a: nat, b: nat) -> nat {
    if a < b {
        b
    } else {
        a
    }
}

/// The width of the column of ids: that of the longest id, and of the
/// heading at least.
pub open spec fn id_width(operations: Seq<OperationView>) -> nat
    decreases operations.len(),
{
    if operations.len() == 0 {
        "id"@.len()
    } else {
        larger(id_width(operations.drop_last()), decimal(operations.last().id as nat).len())
    }
}

/// The width of the column of statuses: that of the longest name of a
/// status, and of the heading at least.
pub open spec fn status_width(operations: Seq<OperationView>) -> nat
    decreases operations.len(),
{
    if operations.len() == 0 {
        "status"@.len()
    } else {
        larger(status_width(operations.drop_last()), state_name(operations.last().status).len())
    }
}

/// The width of the column of titles: the displayed width of the widest
/// title, and the length of the heading at least.
pub open spec fn title_width(operations: Seq<OperationView>) -> nat
    decreases operations.len(),
{
    if operations.len() == 0 {
        "title"@.len()
    } else {
        larger(title_width(operations.drop_last()), display_width(operations.last().title))
    }
}

/// The line of headings of a table with columns of these widths.
pub open spec fn heading(ids: nat, statuses: nat, titles: nat) -> Seq<char> {
    right_aligned("id"@, ids) + "  "@ + left_aligned("status"@, statuses) + "  "@ + left_aligned(
        "title"@,
        titles,
    ) + "\n"@
}

/// The line that underlines the headings.
pub open spec fn rule(ids: nat, statuses: nat, titles: nat) -> Seq<char> {
    repeated("-"@, ids) + "  "@ + repeated("-"@, statuses) + "  "@ + repeated("-"@, titles) + "\n"@
}

/// The line of an operation in a table: its id at the right of its column,
/// its status in colour, and its title.
pub open spec fn row(operation: OperationView, ids: nat, statuses: nat) -> Seq<char> {
    right_aligned(decimal(operation.id as nat), ids) + "  "@ + coloured(operation.status) + "  "@
        + padding(statuses, state_name(operation.status).len()) + operation.title + "\n"@
}

/// The lines of the operations, the last operation first.
pub open spec fn rows(operations: Seq<OperationView>, ids: nat, statuses: nat) -> Seq<char>
    decreases operations.len(),
{
    if operations.len() == 0 {
        Seq::empty()
    } else {
        row(operations.last(), ids, statuses) + rows(operations.drop_last(), ids, statuses)
    }
}

/// The table of a list of operations: headings, a rule, and a line for each
/// operation, the last one first.
pub open spec fn table(operations: Seq<OperationView>) -> Seq<char> {
    let ids = id_width(operations);
    let statuses = status_width(operations);
    let titles = title_width(operations);
    heading(ids, statuses, titles) + rule(ids, statuses, titles) + rows(operations, ids, statuses)
}

/// The line that tells of an operation at a time: the time, the id at the
/// right of nine columns, the status in colour in a column as wide as the
/// longest name of a status, and the title.
pub open spec fn notice(time: Seq<char>, operation: OperationView) -> Seq<char> {
    time + "  "@ + right_aligned(decimal(operation.id as nat), 9) + "  "@ + coloured(
        operation.status,
    ) + padding("in_progress"@.len(), state_name(operation.status).len()) + "  "@ + operation.title
        + "\n"@
}

/// Writes `unit` `n` times at the end of `out`.
fn write_repeated(out: &mut String, unit: &str, n: usize)
    ensures
        final(out)@ == old(out)@ + repeated(unit@, n as nat),
{
    let ghost before = out@;
    let mut i: usize = 0;
    assert(out@ =~= before + repeated(unit@, 0));
    while i < n
        invariant
            i <= n,
            out@ == before + repeated(unit@, i as nat),
        decreases n - i,
    {
        out.append(unit);
        i += 1;
        assert(out@ =~= before + repeated(unit@, i as nat));
    }
}

/// Writes the spaces that fill a column at the end of `out`.
fn write_padding(out: &mut String, width: usize, used: usize)
    ensures
        final(out)@ == old(out)@ + padding(width as nat, used as nat),
{
    if used < width {
        write_repeated(out, " ", width - used);
    } else {
        assert(out@ =~= out@ + padding(width as nat, used as nat));
    }
}

/// Writes `s` at the right of a column at the end of `out`.
fn write_right_aligned(out: &mut String, s: &str, width: usize)
    ensures
        final(out)@ == old(out)@ + right_aligned(s@, width as nat),
{
    let ghost before = out@;
    write_padding(out, width, s.unicode_len());
    out.append(s);
    assert(out@ =~= before + right_aligned(s@, width as nat));
}

/// Writes `s` at the left of a column at the end of `out`.
fn write_left_aligned(out: &mut String, s: &str, width: usize)
    ensures
        final(out)@ == old(out)@ + left_aligned(s@, width as nat),
{
    let ghost before = out@;
    out.append(s);
    write_padding(out, width, s.unicode_len());
    assert(out@ =~= before + left_aligned(s@, width as nat));
}

/// Writes the line of an operation at the end of `out`.
fn write_row(out: &mut String, operation: &Operation, ids: usize, statuses: usize)
    ensures
        final(out)@ == old(out)@ + row(operation@, ids as nat, statuses as nat),
{
    let ghost before = out@;
    write_right_aligned(out, decimal_string(operation.id).as_str(), ids);
    out.append("  ");
    out.append(colorize_status(operation.status).as_str());
    out.append("  ");
    write_padding(out, statuses, operation.status.as_str().unicode_len());
    out.append(operation.title.as_str());
    out.append("\n");
    assert(out@ =~= before + row(operation@, ids as nat, statuses as nat));
}

/// The table of a list of operations: headings, a rule, and a line for each
/// operation, the last one first.
pub fn render_table(operations: &Vec<Operation>) -> (r: String)
    ensures
        r@ == table(views_of(operations@)),
{
    let ghost all = views_of(operations@);
    let mut ids: usize = "id".unicode_len();
    let mut statuses: usize = "status".unicode_len();
    let mut titles: usize = "title".unicode_len();
    let mut i: usize = 0;
    assert(all.take(0) =~= Seq::empty());
    while i < operations.len()
        invariant
            i <= operations.len(),
            all == views_of(operations@),
            ids as nat == id_width(all.take(i as int)),
            statuses as nat == status_width(all.take(i as int)),
            titles as nat == title_width(all.take(i as int)),
        decreases operations.len() - i,
    {
        let operation = &operations[i];
        proof {
            assert(all.take(i + 1).drop_last() =~= all.take(i as int));
            assert(all.take(i + 1).last() == operation@);
        }
        let id = decimal_string(operation.id).as_str().unicode_len();
        if ids < id {
            ids = id;
        }
        let status = operation.status.as_str().unicode_len();
        if statuses < status {
            statuses = status;
        }
        let title = width(operation.title.as_str());
        if titles < title {
            titles = title;
        }
        i += 1;
    }
    assert(all.take(operations.len() as int) =~= all);
    let mut out = String::new();
    write_right_aligned(&mut out, "id", ids);
    out.append("  ");
    write_left_aligned(&mut out, "status", statuses);
    out.append("  ");
    write_left_aligned(&mut out, "title", titles);
    out.append("\n");
    assert(out@ =~= heading(ids as nat, statuses as nat, titles as nat));
    let ghost head = out@;
    write_repeated(&mut out, "-", ids);
    out.append("  ");
    write_repeated(&mut out, "-", statuses);
    out.append("  ");
    write_repeated(&mut out, "-", titles);
    out.append("\n");
    assert(out@ =~= head + rule(ids as nat, statuses as nat, titles as nat));
    let ghost top = out@;
    let mut i: usize = operations.len();
    assert(out@ + rows(all.take(i as int), ids as nat, statuses as nat) =~= top + rows(
        all,
        ids as nat,
        statuses as nat,
    ));
    while i > 0
        invariant
            i <= operations.len(),
            all == views_of(operations@),
            out@ + rows(all.take(i as int), ids as nat, statuses as nat) == top + rows(
                all,
                ids as nat,
                statuses as nat,
            ),
        decreases i,
    {
        let ghost so_far = out@;
        proof {
            assert(all.take(i as int).drop_last() =~= all.take(i - 1));
            assert(all.take(i as int).last() == operations[i - 1]@);
        }
        i -= 1;
        write_row(&mut out, &operations[i], ids, statuses);
        assert(out@ + rows(all.take(i as int), ids as nat, statuses as nat) =~= so_far + rows(
            all.take(i + 1),
            ids as nat,
            statuses as nat,
        ));
    }
    assert(out@ =~= out@ + rows(all.take(0), ids as nat, statuses as nat));
    out
}

/// The line that tells of `operation` at the time `time`.
pub fn render_notice(time: &str, operation: &Operation) -> (r: String)
    ensures
        r@ == notice(time@, operation@),
{
    let mut out = String::from_str(time);
    out.append("  ");
    write_right_aligned(&mut out, decimal_string(operation.id).as_str(), 9);
    out.append("  ");
    out.append(colorize_status(operation.status).as_str());
    write_padding(
        &mut out,
        "in_progress".unicode_len(),
        operation.status.as_str().unicode_len(),
    );
    out.append("  ");
    out.append(operation.title.as_str());
    out.append("\n");
    assert(out@ =~= notice(time@, operation@));
    out
}

} // verus!
