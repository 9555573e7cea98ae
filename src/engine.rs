use vstd::prelude::*;
use vstd::string::StringExecFns;

use crate::normalize::{clean_and_normalize_field, normalized};
use crate::tabular::{csv_bytes, csv_rows, read_rows, write_rows};

verus! {

/// Whether the first physical row of a file is a header.
#[derive(Default, Debug, Clone, Copy, PartialEq, Eq)]
pub enum HeaderMode {
    /// The first row names the columns and fixes their number.
    #[default]
    HasHeaders,
    /// Every row is data; the column count comes from the caller.
    NoHeaders,
}

impl HeaderMode {
    /// `true` exactly when the file has a header row.
    pub fn as_bool(&self) -> (r: bool)
        ensures
            r == (*self is HasHeaders),
    {
        match self {
            HeaderMode::HasHeaders => true,
            HeaderMode::NoHeaders => false,
        }
    }
}

/// The field separator of the input and output files.
#[derive(Default, Debug, Clone, Copy, PartialEq, Eq)]
pub enum Delimiter {
    #[default]
    Comma,
    Semicolon,
    Tab,
    Pipe,
}

impl Delimiter {
    /// The byte's ASCII code: `,` is 44, `;` 59, tab 9 and `|` 124.
    pub open spec fn byte(self) -> u8 {
        match self {
            Delimiter::Comma => 44u8,
            Delimiter::Semicolon => 59u8,
            Delimiter::Tab => 9u8,
            Delimiter::Pipe => 124u8,
        }
    }

    /// The separator as a byte: `,`, `;`, tab or `|`.
    pub fn as_byte(&self) -> (r: u8)
        ensures
            r == self.byte(),
    {
        match self {
            Delimiter::Comma => 44u8,
            Delimiter::Semicolon => 59u8,
            Delimiter::Tab => 9u8,
            Delimiter::Pipe => 124u8,
        }
    }
}

/// Counters of one reconstruction pass.
#[derive(Default, Debug, Clone, Copy, PartialEq, Eq)]
pub struct Stats {
    /// Physical data rows consumed.
    pub total_rows: usize,
    /// Logical rows assembled from two or more physical rows.
    pub fixed_rows: usize,
    /// Physical rows or row groups that were discarded.
    pub removed_rows: usize,
}

/// A row as the model sees it: its fields' characters.
pub type RowView = Seq<Seq<char>>;

/// Where the reconstruction stands after a prefix of the input.
pub struct Progress {
    /// Logical rows emitted so far, in order.
    pub out: Seq<RowView>,
    /// The logical row under construction; empty while idle.
    pub buffer: RowView,
    pub fixed: nat,
    pub removed: nat,
}

/// Joins `row` onto `buffer`: the first field of `row` continues the last field
/// of `buffer` (after a newline, unless that field is empty), and the other
/// fields of `row` follow as fields of their own.
pub open spec fn stitch(buffer: RowView, row: RowView) -> RowView {
    if row.len() == 0 {
        buffer
    } else {
        let last = buffer.last();
        let joined = if last.len() == 0 {
            row[0]
        } else {
            last + seq!['\n'] + row[0]
        };
        buffer.drop_last().push(joined) + row.drop_first()
    }
}

/// One physical row handled by the state machine, for `columns` expected fields.
pub open spec fn step(p: Progress, row: RowView, columns: nat) -> Progress {
    if row.len() > columns {
        Progress { removed: p.removed + 1, ..p }
    } else if p.buffer.len() == 0 {
        if row.len() == columns {
            Progress { out: p.out.push(row), ..p }
        } else {
            Progress { buffer: row, ..p }
        }
    } else {
        let b = stitch(p.buffer, row);
        if b.len() == columns {
            Progress { out: p.out.push(b), buffer: Seq::empty(), fixed: p.fixed + 1, ..p }
        } else if b.len() > columns {
            Progress { buffer: Seq::empty(), removed: p.removed + 1, ..p }
        } else {
            Progress { buffer: b, ..p }
        }
    }
}

pub open spec fn start() -> Progress {
    Progress { out: Seq::empty(), buffer: Seq::empty(), fixed: 0, removed: 0 }
}

/// The state machine run over `rows` in order.
pub open spec fn run(rows: Seq<RowView>, columns: nat) -> Progress
    decreases rows.len(),
{
    if rows.len() == 0 {
        start()
    } else {
        step(run(rows.drop_last(), columns), rows.last(), columns)
    }
}

/// Rows discarded over the whole input: those counted while running, plus a
/// buffer still open at the end.
pub open spec fn removed_total(p: Progress) -> nat {
    p.removed + if p.buffer.len() > 0 {
        1nat
    } else {
        0nat
    }
}

/// The facts that hold of every reachable state.
pub open spec fn progress_wf(p: Progress, columns: nat, consumed: nat) -> bool {
    &&& p.buffer.len() < columns || p.buffer.len() == 0
    &&& forall|j: int| 0 <= j < p.out.len() ==> #[trigger] p.out[j].len() == columns
    &&& p.out.len() + p.removed + (if p.buffer.len() > 0 { 1nat } else { 0nat }) <= consumed
    &&& p.fixed <= p.out.len()
}

/// One step keeps the facts of `progress_wf`, with one more row consumed.
pub proof fn lemma_step_wf(p: Progress, row: RowView, columns: nat, consumed: nat)
    requires
        progress_wf(p, columns, consumed),
    ensures
        progress_wf(step(p, row, columns), columns, consumed + 1),
{
    let q = step(p, row, columns);
    assert forall|j: int| 0 <= j < q.out.len() implies #[trigger] q.out[j].len() == columns by {
        if j < p.out.len() {
            assert(q.out[j] == p.out[j]);
        }
    }
}

/// Every state that a run reaches satisfies `progress_wf`.
pub proof fn lemma_run_wf(rows: Seq<RowView>, columns: nat)
    ensures
        progress_wf(run(rows, columns), columns, rows.len()),
    decreases rows.len(),
{
    if rows.len() > 0 {
        lemma_run_wf(rows.drop_last(), columns);
        lemma_step_wf(run(rows.drop_last(), columns), rows.last(), columns, (rows.len() - 1) as nat);
    }
}

fn copy_row(row: &Vec<String>) -> (r: Vec<String>)
    ensures
        r.deep_view() == row.deep_view(),
{
    let mut r: Vec<String> = Vec::new();
    let mut j: usize = 0;
    while j < row.len()
        invariant
            j <= row.len(),
            r@.len() == j,
            forall|k: int| 0 <= k < j ==> #[trigger] r@[k]@ == row@[k]@,
        decreases row.len() - j,
    {
        r.push(row[j].clone());
        j = j + 1;
    }
    assert(r.deep_view() =~= row.deep_view());
    r
}

/// Joins `row` onto a non-empty `buffer` in place (see `stitch`).
fn stitch_into(buffer: &mut Vec<String>, row: &Vec<String>)
    requires
        old(buffer).len() > 0,
    ensures
        final(buffer).deep_view() == stitch(old(buffer).deep_view(), row.deep_view()),
{
    if row.len() == 0 {
        return;
    }
    let ghost b0 = buffer.deep_view();
    let ghost r0 = row.deep_view();
    let mut last = buffer.pop().unwrap();
    assert(last@ == b0.last());
    let ghost l0 = last@;
    if !last.as_str().is_empty() {
        proof {
            reveal_strlit("\n");
        }
        last.append("\n");
        assert(last@ =~= l0 + seq!['\n']);
    }
    last.append(row[0].as_str());
    buffer.push(last);
    let ghost mid = b0.drop_last().push(
        if b0.last().len() == 0 { r0[0] } else { b0.last() + seq!['\n'] + r0[0] },
    );
    assert(buffer.deep_view() =~= mid);
    let ghost m = mid.len();
    let mut j: usize = 1;
    while j < row.len()
        invariant
            1 <= j <= row.len(),
            r0 == row.deep_view(),
            m == mid.len(),
            buffer@.len() == m + j - 1,
            forall|k: int| 0 <= k < m ==> #[trigger] buffer@[k]@ == mid[k],
            forall|k: int| 1 <= k < j ==> #[trigger] buffer@[m + k - 1]@ == row@[k]@,
        decreases row.len() - j,
    {
        buffer.push(row[j].clone());
        j = j + 1;
        assert forall|k: int| 1 <= k < j implies #[trigger] buffer@[m + k - 1]@ == row@[k]@ by {}
    }
    assert(buffer.deep_view() =~= mid + r0.drop_first()) by {
        assert forall|k: int| 0 <= k < buffer@.len() implies #[trigger] buffer.deep_view()[k] == (mid + r0.drop_first())[k] by {
            if k >= m {
                assert(buffer@[m + (k - m + 1) - 1]@ == row@[k - m + 1]@);
            }
        }
    }
}

/// Reassembles logical rows of `expected_columns` fields from `rows`, the
/// physical rows in input order, and adds this pass's counts to `stats`.
///
/// A row wider than `expected_columns` is discarded on sight. While no logical
/// row is open, a row of the right width is emitted as it is and a shorter one
/// opens a buffer. A row that arrives while the buffer is open continues the
/// buffer's last field with its first field and appends its other fields; a
/// buffer that reaches the width is emitted, one that overshoots is dropped,
/// and one still open at the end is dropped too.
pub fn reconstruct(rows: &Vec<Vec<String>>, expected_columns: usize, stats: &mut Stats) -> (r: Vec<
    Vec<String>,
>)
    requires
        old(stats).total_rows + rows.len() <= usize::MAX,
        old(stats).fixed_rows + rows.len() <= usize::MAX,
        old(stats).removed_rows + rows.len() <= usize::MAX,
    ensures
        r.deep_view() == run(rows.deep_view(), expected_columns as nat).out,
        final(stats).total_rows == old(stats).total_rows + rows.len(),
        final(stats).fixed_rows == old(stats).fixed_rows + run(
            rows.deep_view(),
            expected_columns as nat,
        ).fixed,
        final(stats).removed_rows == old(stats).removed_rows + removed_total(
            run(rows.deep_view(), expected_columns as nat),
        ),
{
    let ghost all = rows.deep_view();
    let ghost k = expected_columns as nat;
    let ghost s0 = *stats;
    let mut out: Vec<Vec<String>> = Vec::new();
    let mut buffer: Vec<String> = Vec::new();
    let mut fixed: usize = 0;
    let mut removed: usize = 0;
    let mut i: usize = 0;
    while i < rows.len()
        invariant
            i <= rows.len(),
            all == rows.deep_view(),
            k == expected_columns as nat,
            *stats == s0,
            run(all.subrange(0, i as int), k).out == out.deep_view(),
            run(all.subrange(0, i as int), k).buffer == buffer.deep_view(),
            run(all.subrange(0, i as int), k).fixed == fixed,
            run(all.subrange(0, i as int), k).removed == removed,
            progress_wf(run(all.subrange(0, i as int), k), k, i as nat),
        decreases rows.len() - i,
    {
        proof {
            let pre = all.subrange(0, i + 1);
            assert(pre.drop_last() =~= all.subrange(0, i as int));
            assert(pre.last() == all[i as int]);
            lemma_step_wf(run(all.subrange(0, i as int), k), all[i as int], k, i as nat);
        }
        let ghost out0 = out.deep_view();
        let row = &rows[i];
        let n = row.len();
        if n > expected_columns {
            removed = removed + 1;
        } else if buffer.len() == 0 {
            if n == expected_columns {
                out.push(copy_row(row));
                assert(out.deep_view() =~= out0.push(all[i as int]));
            } else {
                buffer = copy_row(row);
            }
        } else {
            stitch_into(&mut buffer, row);
            if buffer.len() == expected_columns {
                let done = buffer;
                buffer = Vec::new();
                out.push(done);
                fixed = fixed + 1;
                assert(out.deep_view() =~= out0.push(done.deep_view()));
                assert(buffer.deep_view() =~= Seq::<Seq<char>>::empty());
            } else if buffer.len() > expected_columns {
                buffer = Vec::new();
                removed = removed + 1;
                assert(buffer.deep_view() =~= Seq::<Seq<char>>::empty());
            }
        }
        i = i + 1;
    }
    proof {
        assert(all.subrange(0, i as int) =~= all);
    }
    if buffer.len() > 0 {
        removed = removed + 1;
    }
    stats.total_rows = stats.total_rows + rows.len();
    stats.fixed_rows = stats.fixed_rows + fixed;
    stats.removed_rows = stats.removed_rows + removed;
    out
}

/// Why a run stopped before producing output.
#[derive(Debug, Clone, Copy, PartialEq, Eq)]
pub enum FixError {
    /// The input could not be tokenized, or it has no header row to read.
    Format,
    /// Without a header row, no positive column count was supplied.
    Config,
    /// Adding this run's counts would overflow the counters passed in.
    CountOverflow,
    /// The output could not be serialized.
    Output,
}

/// The expected width: the header's field count, or the supplied positive count.
pub open spec fn column_count(rows: Seq<RowView>, header_mode: HeaderMode, supplied: Option<usize>) -> Result<
    nat,
    FixError,
> {
    match header_mode {
        HeaderMode::HasHeaders => if rows.len() == 0 {
            Err(FixError::Format)
        } else {
            Ok(rows[0].len())
        },
        HeaderMode::NoHeaders => match supplied {
            Some(n) if n > 0 => Ok(n as nat),
            _ => Err(FixError::Config),
        },
    }
}

/// The rows that the state machine consumes: all but the header.
pub open spec fn data_rows(rows: Seq<RowView>, header_mode: HeaderMode) -> Seq<RowView> {
    match header_mode {
        HeaderMode::HasHeaders => rows.drop_first(),
        HeaderMode::NoHeaders => rows,
    }
}

/// The output rows: the header, if any, then the reconstructed logical rows.
pub open spec fn logical_rows(rows: Seq<RowView>, header_mode: HeaderMode, columns: nat) -> Seq<
    RowView,
> {
    let body = run(data_rows(rows, header_mode), columns).out;
    match header_mode {
        HeaderMode::HasHeaders => seq![rows[0]] + body,
        HeaderMode::NoHeaders => body,
    }
}

/// Whether `count` more rows can be added to each counter of `s`.
pub open spec fn room_for(s: Stats, count: nat) -> bool {
    &&& s.total_rows + count <= usize::MAX
    &&& s.fixed_rows + count <= usize::MAX
    &&& s.removed_rows + count <= usize::MAX
}

/// `s` after a pass over `data` with `columns` expected fields.
pub open spec fn stats_after(s: Stats, data: Seq<RowView>, columns: nat) -> Stats {
    let p = run(data, columns);
    Stats {
        total_rows: (s.total_rows + data.len()) as usize,
        fixed_rows: (s.fixed_rows + p.fixed) as usize,
        removed_rows: (s.removed_rows + removed_total(p)) as usize,
    }
}

/// Resolves the expected width from the tokenized `rows`: with a header, its
/// field count (an input without any row has no header and fails with
/// `Format`); without one, `supplied`, which must be present and positive
/// (else `Config`).
pub fn detect_column_count(rows: &Vec<Vec<String>>, header_mode: HeaderMode, supplied: Option<usize>) -> (r:
    Result<usize, FixError>)
    ensures
        match r {
            Ok(n) => column_count(rows.deep_view(), header_mode, supplied) == Ok::<nat, FixError>(
                n as nat,
            ),
            Err(e) => column_count(rows.deep_view(), header_mode, supplied) == Err::<nat, FixError>(
                e,
            ),
        },
{
    match header_mode {
        HeaderMode::HasHeaders => {
            if rows.len() == 0 {
                Err(FixError::Format)
            } else {
                Ok(rows[0].len())
            }
        },
        HeaderMode::NoHeaders => match supplied {
            Some(n) if n > 0 => Ok(n),
            _ => Err(FixError::Config),
        },
    }
}

/// Tokenizes `input` with `delimiter`, resolves the expected width (see
/// `detect_column_count`) and reconstructs the data rows (see `reconstruct`).
/// The result starts with the header row when there is one. `stats` gains this
/// run's counts; on any error it is left as it was.
pub fn reconstruct_records(
    input: &[u8],
    header_mode: HeaderMode,
    delimiter: Delimiter,
    column_count_supplied: Option<usize>,
    stats: &mut Stats,
) -> (r: Result<Vec<Vec<String>>, FixError>)
    ensures
        match csv_rows(input@, delimiter.byte()) {
            None => r == Err::<Vec<Vec<String>>, FixError>(FixError::Format) && *final(stats) == *old(stats),
            Some(rows) => match column_count(rows, header_mode, column_count_supplied) {
                Err(e) => r == Err::<Vec<Vec<String>>, FixError>(e) && *final(stats) == *old(stats),
                Ok(k) => if room_for(*old(stats), data_rows(rows, header_mode).len()) {
                    &&& r is Ok
                    &&& r->Ok_0.deep_view() == logical_rows(rows, header_mode, k)
                    &&& *final(stats) == stats_after(*old(stats), data_rows(rows, header_mode), k)
                } else {
                    r == Err::<Vec<Vec<String>>, FixError>(FixError::CountOverflow) && *final(stats) == *old(stats)
                },
            },
        },
{
    let mut rows = match read_rows(input, delimiter.as_byte()) {
        Ok(rows) => rows,
        Err(_) => return Err(FixError::Format),
    };
    let ghost all = rows.deep_view();
    let columns = match detect_column_count(&rows, header_mode, column_count_supplied) {
        Ok(n) => n,
        Err(e) => return Err(e),
    };
    let header = if header_mode.as_bool() {
        let h = rows.remove(0);
        assert(rows.deep_view() =~= all.drop_first());
        Some(h)
    } else {
        None
    };
    assert(rows.deep_view() == data_rows(all, header_mode));
    let count = rows.len();
    if stats.total_rows > usize::MAX - count || stats.fixed_rows > usize::MAX - count
        || stats.removed_rows > usize::MAX - count {
        return Err(FixError::CountOverflow);
    }
    let body = reconstruct(&rows, columns, stats);
    let mut out: Vec<Vec<String>> = Vec::new();
    match header {
        Some(h) => {
            out.push(h);
        },
        None => {},
    }
    let ghost prefix = out.deep_view();
    let mut body = body;
    out.append(&mut body);
    proof {
        assert(out.deep_view() =~= prefix + run(data_rows(all, header_mode), columns as nat).out);
        assert(out.deep_view() =~= logical_rows(all, header_mode, columns as nat));
    }
    Ok(out)
}

/// Every field of `rows` normalized (see `clean_and_normalize_field`).
pub open spec fn normalized_rows(rows: Seq<RowView>) -> Seq<RowView> {
    rows.map_values(|row: RowView| row.map_values(|f: Seq<char>| normalized(f)))
}

fn normalize_row(row: &Vec<String>) -> (r: Vec<String>)
    ensures
        r.deep_view() == row.deep_view().map_values(|f: Seq<char>| normalized(f)),
{
    let mut r: Vec<String> = Vec::new();
    let mut j: usize = 0;
    while j < row.len()
        invariant
            j <= row.len(),
            r@.len() == j,
            forall|k: int| 0 <= k < j ==> #[trigger] r@[k]@ == normalized(row@[k]@),
        decreases row.len() - j,
    {
        r.push(clean_and_normalize_field(row[j].as_str()));
        j = j + 1;
    }
    assert(r.deep_view() =~= row.deep_view().map_values(|f: Seq<char>| normalized(f)));
    r
}

/// `rows` with every field normalized, rows and fields in the same order.
pub fn normalize_rows(rows: &Vec<Vec<String>>) -> (r: Vec<Vec<String>>)
    ensures
        r.deep_view() == normalized_rows(rows.deep_view()),
{
    let mut r: Vec<Vec<String>> = Vec::new();
    let mut i: usize = 0;
    while i < rows.len()
        invariant
            i <= rows.len(),
            r@.len() == i,
            forall|k: int| 0 <= k < i ==> #[trigger] r@[k].deep_view() == rows@[k].deep_view().map_values(|f: Seq<char>| normalized(f)),
        decreases rows.len() - i,
    {
        r.push(normalize_row(&rows[i]));
        i = i + 1;
    }
    assert(r.deep_view() =~= normalized_rows(rows.deep_view()));
    r
}

/// The output file's bytes: `rows` with every field normalized, serialized
/// with `delimiter`. Fails with `Output` where the serializer refuses them.
pub fn render_output(rows: &Vec<Vec<String>>, delimiter: Delimiter) -> (r: Result<Vec<u8>, FixError>)
    ensures
        match csv_bytes(normalized_rows(rows.deep_view()), delimiter.byte()) {
            Some(bytes) => r is Ok && r->Ok_0@ == bytes,
            None => r == Err::<Vec<u8>, FixError>(FixError::Output),
        },
{
    let cleaned = normalize_rows(rows);
    match write_rows(&cleaned, delimiter.as_byte()) {
        Ok(bytes) => Ok(bytes),
        Err(_) => Err(FixError::Output),
    }
}

} // verus!
