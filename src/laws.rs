//! Properties of the reconstruction engine and of field normalization that
//! relate several rows or several calls.

use vstd::prelude::*;

use crate::engine::{lemma_run_wf, removed_total, run, stitch, RowView, Stats, stats_after};
use crate::normalize::{has_word, is_ws, lemma_normalize_line_break, lemma_normalized_has_no_line_break, normalized};

verus! {

/// Rows that all have the expected width come out unchanged and in order:
/// nothing is buffered, fixed or discarded.
pub proof fn lemma_full_width_rows_pass_through(rows: Seq<RowView>, columns: nat)
    requires
        forall|i: int| 0 <= i < rows.len() ==> #[trigger] rows[i].len() == columns,
    ensures
        run(rows, columns).out == rows,
        run(rows, columns).buffer.len() == 0,
        run(rows, columns).fixed == 0,
        removed_total(run(rows, columns)) == 0,
    decreases rows.len(),
{
    if rows.len() > 0 {
        let front = rows.drop_last();
        assert forall|i: int| 0 <= i < front.len() implies #[trigger] front[i].len() == columns by {
            assert(front[i] == rows[i]);
        }
        lemma_full_width_rows_pass_through(front, columns);
        assert(rows.last() == rows[rows.len() - 1]);
        assert(front.push(rows.last()) =~= rows);
    }
}

/// Counting from zero over a file whose data rows all have the expected
/// width: every row is counted, none as fixed and none as discarded.
pub proof fn lemma_clean_file_counts(data: Seq<RowView>, columns: nat)
    requires
        forall|i: int| 0 <= i < data.len() ==> #[trigger] data[i].len() == columns,
        data.len() <= usize::MAX,
    ensures
        stats_after(Stats { total_rows: 0, fixed_rows: 0, removed_rows: 0 }, data, columns)
            == (Stats { total_rows: data.len() as usize, fixed_rows: 0, removed_rows: 0 }),
{
    lemma_full_width_rows_pass_through(data, columns);
}

/// A row wider than the expected width that arrives while no logical row is
/// open is counted as discarded and opens no buffer; the output is unchanged.
pub proof fn lemma_wide_row_while_idle(rows: Seq<RowView>, row: RowView, columns: nat)
    requires
        run(rows, columns).buffer.len() == 0,
        row.len() > columns,
    ensures
        run(rows.push(row), columns).out == run(rows, columns).out,
        run(rows.push(row), columns).buffer.len() == 0,
        run(rows.push(row), columns).fixed == run(rows, columns).fixed,
        run(rows.push(row), columns).removed == run(rows, columns).removed + 1,
{
    assert(rows.push(row).drop_last() =~= rows);
}

/// When the input ends with a logical row still open, the last row emitted
/// nothing, and the open fragment adds exactly one to the discarded count.
pub proof fn lemma_unfinished_tail(rows: Seq<RowView>, row: RowView, columns: nat)
    requires
        run(rows.push(row), columns).buffer.len() > 0,
    ensures
        run(rows.push(row), columns).out == run(rows, columns).out,
        removed_total(run(rows.push(row), columns)) == run(rows.push(row), columns).removed + 1,
{
    assert(rows.push(row).drop_last() =~= rows);
}

/// Pieces of text joined by line breaks.
pub open spec fn join_lines(pieces: Seq<Seq<char>>) -> Seq<char>
    decreases pieces.len(),
{
    if pieces.len() == 0 {
        Seq::empty()
    } else if pieces.len() == 1 {
        pieces[0]
    } else {
        join_lines(pieces.drop_last()) + seq!['\n'] + pieces.last()
    }
}

/// Pieces of text joined by single spaces.
pub open spec fn join_spaces(pieces: Seq<Seq<char>>) -> Seq<char>
    decreases pieces.len(),
{
    if pieces.len() == 0 {
        Seq::empty()
    } else if pieces.len() == 1 {
        pieces[0]
    } else {
        join_spaces(pieces.drop_last()) + seq![' '] + pieces.last()
    }
}

/// One physical row of a single field for each piece.
pub open spec fn single_field_rows(pieces: Seq<Seq<char>>) -> Seq<RowView> {
    pieces.map_values(|f: Seq<char>| seq![f])
}

proof fn lemma_single_fields_extend(rows: Seq<RowView>, middle: Seq<Seq<char>>, columns: nat)
    requires
        run(rows, columns).buffer.len() > 0,
        run(rows, columns).buffer.last().len() > 0,
    ensures
        run(rows + single_field_rows(middle), columns).out == run(rows, columns).out,
        run(rows + single_field_rows(middle), columns).fixed == run(rows, columns).fixed,
        run(rows + single_field_rows(middle), columns).removed == run(rows, columns).removed,
        run(rows + single_field_rows(middle), columns).buffer == run(
            rows,
            columns,
        ).buffer.drop_last().push(join_lines(seq![run(rows, columns).buffer.last()] + middle)),
        join_lines(seq![run(rows, columns).buffer.last()] + middle).len() > 0,
    decreases middle.len(),
{
    let p = run(rows, columns);
    lemma_run_wf(rows, columns);
    if middle.len() == 0 {
        assert(rows + single_field_rows(middle) =~= rows);
        assert(seq![p.buffer.last()] + middle =~= seq![p.buffer.last()]);
        assert(p.buffer.drop_last().push(p.buffer.last()) =~= p.buffer);
    } else {
        let front = middle.drop_last();
        let f = middle.last();
        lemma_single_fields_extend(rows, front, columns);
        let before = rows + single_field_rows(front);
        let all = rows + single_field_rows(middle);
        assert(all =~= before.push(seq![f]));
        assert(all.drop_last() =~= before);
        let q = run(before, columns);
        let joined = join_lines(seq![p.buffer.last()] + front);
        let pieces = seq![p.buffer.last()] + middle;
        assert(pieces.drop_last() =~= seq![p.buffer.last()] + front);
        assert(pieces.last() == f);
        assert(q.buffer.last() == joined);
        assert(stitch(q.buffer, seq![f]) =~= p.buffer.drop_last().push(joined + seq!['\n'] + f));
    }
}

proof fn lemma_normalize_join(pieces: Seq<Seq<char>>)
    requires
        pieces.len() >= 1,
        forall|i: int| 0 <= i < pieces.len() ==> has_word(#[trigger] pieces[i]),
    ensures
        normalized(join_lines(pieces)) == join_spaces(pieces.map_values(|f: Seq<char>| normalized(f))),
        has_word(join_lines(pieces)),
    decreases pieces.len(),
{
    let m = pieces.map_values(|f: Seq<char>| normalized(f));
    if pieces.len() > 1 {
        let front = pieces.drop_last();
        assert forall|i: int| 0 <= i < front.len() implies has_word(#[trigger] front[i]) by {
            assert(front[i] == pieces[i]);
        }
        lemma_normalize_join(front);
        let j = join_lines(front);
        let last = pieces.last();
        assert(has_word(pieces[pieces.len() - 1]));
        lemma_normalize_line_break(j, last);
        assert(m.drop_last() =~= front.map_values(|f: Seq<char>| normalized(f)));
        let k = choose|k: int| 0 <= k < last.len() && !is_ws(#[trigger] last[k]);
        let whole = j + seq!['\n'] + last;
        assert(whole[j.len() + 1 + k] == last[k]);
    }
}

/// A value broken over consecutive physical rows: it starts as the last field
/// of the open buffer, runs through the single-field rows `middle` and ends
/// in the first field of `closing`, the row that completes the logical row.
/// The emitted row holds the pieces joined by line breaks in that field; when
/// every piece holds a word, that field normalizes to the normalized pieces
/// joined by single spaces, without any line break.
pub proof fn lemma_fragmented_value(
    rows: Seq<RowView>,
    middle: Seq<Seq<char>>,
    closing: RowView,
    columns: nat,
)
    requires
        run(rows, columns).buffer.len() > 0,
        run(rows, columns).buffer.last().len() > 0,
        closing.len() >= 1,
        run(rows, columns).buffer.len() + closing.len() == columns + 1,
    ensures
        ({
            let p = run(rows, columns);
            let pieces = seq![p.buffer.last()] + middle + seq![closing[0]];
            let q = run(rows + single_field_rows(middle) + seq![closing], columns);
            &&& q.out == p.out.push(
                p.buffer.drop_last().push(join_lines(pieces)) + closing.drop_first(),
            )
            &&& q.buffer.len() == 0
            &&& q.fixed == p.fixed + 1
            &&& q.removed == p.removed
            &&& (forall|i: int| 0 <= i < pieces.len() ==> has_word(#[trigger] pieces[i])) ==> {
                &&& normalized(join_lines(pieces)) == join_spaces(
                    pieces.map_values(|f: Seq<char>| normalized(f)),
                )
                &&& forall|i: int|
                    0 <= i < normalized(join_lines(pieces)).len() ==> #[trigger] normalized(
                        join_lines(pieces),
                    )[i] != '\n'
            }
        }),
{
    let p = run(rows, columns);
    lemma_single_fields_extend(rows, middle, columns);
    let before = rows + single_field_rows(middle);
    let all = before + seq![closing];
    assert(all =~= before.push(closing));
    assert(all.drop_last() =~= before);
    let pieces = seq![p.buffer.last()] + middle + seq![closing[0]];
    assert(pieces.drop_last() =~= seq![p.buffer.last()] + middle);
    let q0 = run(before, columns);
    assert(stitch(q0.buffer, closing) =~= p.buffer.drop_last().push(join_lines(pieces))
        + closing.drop_first());
    if forall|i: int| 0 <= i < pieces.len() ==> has_word(#[trigger] pieces[i]) {
        lemma_normalize_join(pieces);
        lemma_normalized_has_no_line_break(join_lines(pieces));
    }
}

} // verus!
