//! Minimal left-aligned table rendering.

use vstd::prelude::*;
use crate::text::{push_char, push_str, is_ws, chars_of, string_of};

verus! {

/// `n` spaces.
pub open spec fn spaces(n: nat) -> Seq<char> {
    Seq::new(n, |i: int| ' ')
}

/// `cell` padded with spaces on the right to at least `width` characters.
pub open spec fn pad_to(cell: Seq<char>, width: nat) -> Seq<char> {
    if cell.len() < width {
        cell + spaces((width - cell.len()) as nat)
    } else {
        cell
    }
}

/// `s` without trailing whitespace.
pub open spec fn trim_end(s: Seq<char>) -> Seq<char>
    decreases s.len(),
{
    if s.len() > 0 && is_ws(s.last()) {
        trim_end(s.drop_last())
    } else {
        s
    }
}

/// Column `i`'s width: the widest of its header and the row cells in it.
pub open spec fn col_width(headers: Seq<Seq<char>>, rows: Seq<Seq<Seq<char>>>, i: int) -> nat
    decreases rows.len(),
{
    if rows.len() == 0 {
        headers[i].len()
    } else {
        let w = col_width(headers, rows.drop_last(), i);
        let r = rows.last();
        if i < r.len() && r[i].len() > w {
            r[i].len()
        } else {
            w
        }
    }
}

/// A row's cells joined by two spaces, every cell but the last column's
/// padded to its column width, then trailing whitespace trimmed.
pub open spec fn row_line(cells: Seq<Seq<char>>, widths: Seq<nat>) -> Seq<char> {
    trim_end(row_body(cells, widths))
}

/// The untrimmed row text.
pub open spec fn row_body(cells: Seq<Seq<char>>, widths: Seq<nat>) -> Seq<char>
    decreases cells.len(),
{
    if cells.len() == 0 {
        Seq::empty()
    } else {
        let i = cells.len() - 1;
        let sep: Seq<char> = if i > 0 { seq![' ', ' '] } else { Seq::empty() };
        let cell = if i + 1 == widths.len() { cells[i] } else { pad_to(cells[i], widths[i]) };
        row_body(cells.drop_last(), widths) + sep + cell
    }
}

/// All row lines, each ending in a newline.
pub open spec fn rows_text(rows: Seq<Seq<Seq<char>>>, widths: Seq<nat>) -> Seq<char>
    decreases rows.len(),
{
    if rows.len() == 0 {
        Seq::empty()
    } else {
        rows_text(rows.drop_last(), widths) + row_line(rows.last(), widths) + seq!['\n']
    }
}

/// The column widths of a table.
pub open spec fn widths_of(headers: Seq<Seq<char>>, rows: Seq<Seq<Seq<char>>>) -> Seq<nat> {
    Seq::new(headers.len(), |i: int| col_width(headers, rows, i))
}

/// The views of table rows.
pub open spec fn rows_view(rows: Seq<Vec<String>>) -> Seq<Seq<Seq<char>>> {
    rows.map_values(|r: Vec<String>| r@.map_values(|c: String| c@))
}

/// The rendered table: header line, then one line per row.
pub open spec fn table_text(headers: Seq<Seq<char>>, rows: Seq<Seq<Seq<char>>>) -> Seq<char> {
    let w = widths_of(headers, rows);
    row_line(headers, w) + seq!['\n'] + rows_text(rows, w)
}

fn char_count(s: &str) -> (n: usize)
    ensures
        n == s@.len(),
{
    chars_of(s).len()
}

fn push_trimmed_end(out: &mut String, line: &Vec<char>)
    ensures
        final(out)@ == old(out)@ + trim_end(line@),
{
    let mut n = line.len();
    assert(line@.take(n as int) =~= line@);
    while n > 0 && crate::text::is_ws_char(line[n - 1])
        invariant
            n <= line@.len(),
            trim_end(line@) == trim_end(line@.take(n as int)),
        decreases n,
    {
        assert(line@.take(n as int).drop_last() =~= line@.take(n - 1));
        n = n - 1;
    }
    let mut i: usize = 0;
    let ghost start = out@;
    while i < n
        invariant
            i <= n <= line@.len(),
            out@ == start + line@.take(i as int),
        decreases n - i,
    {
        push_char(out, line[i]);
        assert(line@.take(i + 1) =~= line@.take(i as int).push(line@[i as int]));
        i = i + 1;
    }
    assert(trim_end(line@.take(n as int)) == line@.take(n as int));
}

fn push_row(out: &mut String, cells: &Vec<String>, widths: &Vec<usize>)
    requires
        cells@.len() <= widths@.len(),
    ensures
        final(out)@ == old(out)@ + row_line(cells@.map_values(|c: String| c@), widths@.map_values(|w: usize| w as nat)),
{
    let ghost cv = cells@.map_values(|c: String| c@);
    let ghost wv = widths@.map_values(|w: usize| w as nat);
    let mut line: Vec<char> = Vec::new();
    let mut i: usize = 0;
    assert(cv.take(0) =~= Seq::<Seq<char>>::empty());
    while i < cells.len()
        invariant
            i <= cells@.len() <= widths@.len(),
            cv == cells@.map_values(|c: String| c@),
            wv == widths@.map_values(|w: usize| w as nat),
            line@ == row_body(cv.take(i as int), wv),
        decreases cells@.len() - i,
    {
        let ghost prev = line@;
        if i > 0 {
            line.push(' ');
            line.push(' ');
        }
        let cell = chars_of(cells[i].as_str());
        let mut k: usize = 0;
        while k < cell.len()
            invariant
                k <= cell@.len(),
                line@ == prev + (if i > 0 { seq![' ', ' '] } else { Seq::<char>::empty() }) + cell@.take(k as int),
            decreases cell@.len() - k,
        {
            line.push(cell[k]);
            assert(cell@.take(k + 1) =~= cell@.take(k as int).push(cell@[k as int]));
            k = k + 1;
        }
        assert(cell@.take(cell@.len() as int) =~= cell@);
        let ghost with_cell = line@;
        if i + 1 != widths.len() {
            let w = widths[i];
            let mut c = cell.len();
            while c < w
                invariant
                    cell@.len() <= c <= (if cell@.len() < w { w as int } else { cell@.len() as int }),
                    line@ == with_cell + spaces((c - cell@.len()) as nat),
                decreases w - c,
            {
                line.push(' ');
                assert(spaces((c + 1 - cell@.len()) as nat) =~= spaces((c - cell@.len()) as nat).push(' '));
                c = c + 1;
            }
            assert(spaces(0) =~= Seq::<char>::empty());
        }
        proof {
            let t = cv.take(i + 1);
            assert(t.drop_last() =~= cv.take(i as int));
            assert(t.last() == cells@[i as int]@);
            assert(wv[i as int] == widths@[i as int] as nat);
            assert(wv.len() == widths@.len());
            if i + 1 != widths@.len() {
                if cell@.len() < widths@[i as int] {
                    assert(line@ =~= row_body(t, wv));
                } else {
                    assert(line@ =~= row_body(t, wv));
                }
            } else {
                assert(line@ =~= row_body(t, wv));
            }
        }
        i = i + 1;
    }
    assert(cv.take(cells@.len() as int) =~= cv);
    push_trimmed_end(out, &line);
}

/// Render a table: every column left-aligned to its widest cell, two
/// spaces between columns, no padding after the last column, trailing
/// whitespace trimmed, one line per row. Every row has at most as many
/// cells as there are headers.
pub fn render(headers: &[&str], rows: &[Vec<String>]) -> (r: String)
    requires
        forall|k: int| 0 <= k < rows@.len() ==> (#[trigger] rows@[k])@.len() <= headers@.len(),
    ensures
        r@ == table_text(headers@.map_values(|h: &str| h@), rows_view(rows@)),
{
    let mut owned: Vec<String> = Vec::new();
    let mut j: usize = 0;
    while j < headers.len()
        invariant
            j <= headers@.len(),
            owned@.len() == j,
            forall|t: int| 0 <= t < j ==> #[trigger] owned@[t]@ == headers@[t]@,
        decreases headers@.len() - j,
    {
        owned.push(headers[j].to_owned());
        j = j + 1;
    }
    assert(owned@.map_values(|c: String| c@) =~= headers@.map_values(|h: &str| h@));
    render_owned(&owned, rows)
}

fn render_owned(headers: &Vec<String>, rows: &[Vec<String>]) -> (r: String)
    requires
        forall|k: int| 0 <= k < rows@.len() ==> (#[trigger] rows@[k])@.len() <= headers@.len(),
    ensures
        r@ == table_text(headers@.map_values(|c: String| c@), rows_view(rows@)),
{
    let ghost hv = headers@.map_values(|c: String| c@);
    let ghost rv = rows_view(rows@);
    let cols = headers.len();
    let mut widths: Vec<usize> = Vec::new();
    let mut i: usize = 0;
    while i < cols
        invariant
            cols == headers@.len(),
            i <= cols,
            widths@.len() == i,
            hv == headers@.map_values(|c: String| c@),
            rv == rows_view(rows@),
            forall|j: int| 0 <= j < i ==> #[trigger] widths@[j] as nat == col_width(hv, rv, j),
        decreases cols - i,
    {
        let mut w = char_count(headers[i].as_str());
        let mut k: usize = 0;
        while k < rows.len()
            invariant
                i < cols == headers@.len(),
                k <= rows@.len(),
                hv == headers@.map_values(|c: String| c@),
                rv == rows_view(rows@),
                w as nat == col_width(hv, rv.take(k as int), i as int),
            decreases rows@.len() - k,
        {
            assert(rv.take(k + 1).drop_last() =~= rv.take(k as int));
            assert(rv.take(k + 1).last() == rows@[k as int]@.map_values(|c: String| c@));
            if i < rows[k].len() {
                let n = char_count(rows[k][i].as_str());
                if n > w {
                    w = n;
                }
            }
            k = k + 1;
        }
        assert(rv.take(rows@.len() as int) =~= rv);
        widths.push(w);
        i = i + 1;
    }
    let ghost wv = widths@.map_values(|w: usize| w as nat);
    assert(wv =~= widths_of(hv, rv));
    let mut out = String::new();
    push_row(&mut out, headers, &widths);
    push_char(&mut out, '\n');
    let mut k: usize = 0;
    while k < rows.len()
        invariant
            k <= rows@.len(),
            widths@.len() == headers@.len(),
            forall|j: int| 0 <= j < rows@.len() ==> (#[trigger] rows@[j])@.len() <= headers@.len(),
            hv == headers@.map_values(|c: String| c@),
            rv == rows_view(rows@),
            wv == widths@.map_values(|w: usize| w as nat),
            out@ == row_line(hv, wv) + seq!['\n'] + rows_text(rv.take(k as int), wv),
        decreases rows@.len() - k,
    {
        let ghost prev = out@;
        push_row(&mut out, &rows[k], &widths);
        push_char(&mut out, '\n');
        proof {
            assert(rv.take(k + 1).drop_last() =~= rv.take(k as int));
            assert(rv.take(k + 1).last() == rows@[k as int]@.map_values(|c: String| c@));
            assert(out@ =~= row_line(hv, wv) + seq!['\n'] + rows_text(rv.take(k + 1), wv));
        }
        k = k + 1;
    }
    assert(rv.take(rows@.len() as int) =~= rv);
    out
}


proof fn lemma_col_width(headers: Seq<Seq<char>>, rows: Seq<Seq<Seq<char>>>, i: int)
    requires
        0 <= i < headers.len(),
    ensures
        headers[i].len() <= col_width(headers, rows, i),
        forall|k: int| 0 <= k < rows.len() && i < rows[k].len() ==> (#[trigger] rows[k])[i].len() <= col_width(headers, rows, i),
        col_width(headers, rows, i) == headers[i].len()
            || exists|k: int| 0 <= k < rows.len() && i < rows[k].len() && col_width(headers, rows, i) == (#[trigger] rows[k])[i].len(),
    decreases rows.len(),
{
    if rows.len() > 0 {
        let init = rows.drop_last();
        lemma_col_width(headers, init, i);
        assert forall|k: int| 0 <= k < rows.len() && i < rows[k].len() implies (#[trigger] rows[k])[i].len() <= col_width(headers, rows, i) by {
            if k < rows.len() - 1 {
                assert(rows[k] == init[k]);
            }
        }
        if col_width(headers, rows, i) != headers[i].len() {
            if col_width(headers, rows, i) == rows.last()[i].len() && i < rows.last().len() {
                assert(rows[rows.len() - 1] == rows.last());
            } else {
                let k = choose|k: int| 0 <= k < init.len() && i < init[k].len() && col_width(headers, init, i) == (#[trigger] init[k])[i].len();
                assert(rows[k] == init[k]);
            }
        }
    }
}

/// Law (table columns): each column is as wide as its widest entry: the
/// header and every row's cell in it fit, and the width is the length of
/// the header or of one of those cells.
pub proof fn law_columns_fit_the_widest(headers: Seq<Seq<char>>, rows: Seq<Seq<Seq<char>>>, i: int)
    requires
        0 <= i < headers.len(),
    ensures
        headers[i].len() <= widths_of(headers, rows)[i],
        forall|k: int| 0 <= k < rows.len() && i < rows[k].len() ==> (#[trigger] rows[k])[i].len() <= widths_of(headers, rows)[i],
        widths_of(headers, rows)[i] == headers[i].len()
            || exists|k: int| 0 <= k < rows.len() && i < rows[k].len() && widths_of(headers, rows)[i] == (#[trigger] rows[k])[i].len(),
{
    lemma_col_width(headers, rows, i);
}

/// Law (table lines): a line of the table never ends in whitespace.
pub proof fn law_lines_have_no_trailing_space(s: Seq<char>)
    ensures
        trim_end(s).len() == 0 || !is_ws(trim_end(s).last()),
        trim_end(s).is_prefix_of(s),
    decreases s.len(),
{
    if s.len() > 0 && is_ws(s.last()) {
        law_lines_have_no_trailing_space(s.drop_last());
        assert(trim_end(s) == trim_end(s.drop_last()));
        let t = trim_end(s);
        assert(t.is_prefix_of(s.drop_last()));
        assert forall|j: int| 0 <= j < t.len() implies t[j] == s[j] by {
            assert(t[j] == s.drop_last()[j]);
        }
    }
}


/// The number of line feeds in a text.
pub open spec fn newlines(s: Seq<char>) -> nat
    decreases s.len(),
{
    if s.len() == 0 {
        0
    } else {
        newlines(s.drop_last()) + if s.last() == '\n' { 1nat } else { 0nat }
    }
}

proof fn lemma_newlines_add(a: Seq<char>, b: Seq<char>)
    ensures
        newlines(a + b) == newlines(a) + newlines(b),
    decreases b.len(),
{
    if b.len() == 0 {
        assert(a + b =~= a);
    } else {
        assert((a + b).drop_last() =~= a + b.drop_last());
        lemma_newlines_add(a, b.drop_last());
    }
}

proof fn lemma_no_newline_count(s: Seq<char>)
    requires
        !s.contains('\n'),
    ensures
        newlines(s) == 0,
    decreases s.len(),
{
    if s.len() > 0 {
        assert(s.drop_last().contains('\n') ==> s.contains('\n')) by {
            if s.drop_last().contains('\n') {
                let k = choose|k: int| 0 <= k < s.drop_last().len() && s.drop_last()[k] == '\n';
                assert(s[k] == '\n');
            }
        }
        assert(s[s.len() - 1] == s.last());
        lemma_no_newline_count(s.drop_last());
    }
}

/// No cell of a row holds a line feed.
pub open spec fn cells_single_line(cells: Seq<Seq<char>>) -> bool {
    forall|i: int| 0 <= i < cells.len() ==> !(#[trigger] cells[i]).contains('\n')
}

proof fn lemma_row_body_single_line(cells: Seq<Seq<char>>, widths: Seq<nat>)
    requires
        cells_single_line(cells),
    ensures
        !row_body(cells, widths).contains('\n'),
    decreases cells.len(),
{
    if cells.len() > 0 {
        let i = cells.len() - 1;
        let sep: Seq<char> = if i > 0 { seq![' ', ' '] } else { Seq::empty() };
        let cell = if i + 1 == widths.len() { cells[i] } else { pad_to(cells[i], widths[i]) };
        assert(cells_single_line(cells.drop_last())) by {
            assert forall|k: int| 0 <= k < cells.drop_last().len() implies !(#[trigger] cells.drop_last()[k]).contains('\n') by {
                assert(cells.drop_last()[k] == cells[k]);
            }
        }
        lemma_row_body_single_line(cells.drop_last(), widths);
        assert(!cells[i].contains('\n'));
        assert(!cell.contains('\n')) by {
            if cell.contains('\n') {
                let k = choose|k: int| 0 <= k < cell.len() && cell[k] == '\n';
                if !(i + 1 == widths.len()) && cells[i].len() < widths[i] {
                    if k >= cells[i].len() {
                        assert(cell[k] == ' ');
                    } else {
                        assert(cell[k] == cells[i][k]);
                    }
                } else {
                    assert(cell[k] == cells[i][k]);
                }
            }
        }
        let body = row_body(cells.drop_last(), widths);
        assert(row_body(cells, widths) == body + sep + cell);
        if (body + sep + cell).contains('\n') {
            let k = choose|k: int| 0 <= k < (body + sep + cell).len() && (body + sep + cell)[k] == '\n';
            if k < body.len() {
                assert(body[k] == '\n');
            } else if k < body.len() + sep.len() {
                assert(sep[k - body.len()] == '\n');
            } else {
                assert(cell[k - body.len() - sep.len()] == '\n');
            }
        }
    }
}

proof fn lemma_row_line_single_line(cells: Seq<Seq<char>>, widths: Seq<nat>)
    requires
        cells_single_line(cells),
    ensures
        newlines(row_line(cells, widths)) == 0,
{
    lemma_row_body_single_line(cells, widths);
    law_lines_have_no_trailing_space(row_body(cells, widths));
    let b = row_body(cells, widths);
    let t = trim_end(b);
    if t.contains('\n') {
        let k = choose|k: int| 0 <= k < t.len() && t[k] == '\n';
        assert(t[k] == b[k]);
    }
    lemma_no_newline_count(t);
}

proof fn lemma_rows_text_lines(rows: Seq<Seq<Seq<char>>>, widths: Seq<nat>)
    requires
        forall|k: int| 0 <= k < rows.len() ==> cells_single_line(#[trigger] rows[k]),
    ensures
        newlines(rows_text(rows, widths)) == rows.len(),
    decreases rows.len(),
{
    if rows.len() > 0 {
        let init = rows.drop_last();
        assert forall|k: int| 0 <= k < init.len() implies cells_single_line(#[trigger] init[k]) by {
            assert(init[k] == rows[k]);
        }
        lemma_rows_text_lines(init, widths);
        assert(cells_single_line(rows[rows.len() - 1]));
        lemma_row_line_single_line(rows.last(), widths);
        lemma_newlines_add(rows_text(init, widths), row_line(rows.last(), widths));
        lemma_newlines_add(rows_text(init, widths) + row_line(rows.last(), widths), seq!['\n']);
        assert(newlines(seq!['\n']) == 1) by {
            assert(seq!['\n'].drop_last() =~= Seq::<char>::empty());
            reveal_with_fuel(newlines, 2);
        }
    }
}

/// Law (table lines): with no line feed in a header or a cell, the table
/// is the header line then one line per row in order, each ended by a
/// line feed, so it holds `rows.len() + 1` line feeds and ends with one.
pub proof fn law_table_has_one_line_per_row(headers: Seq<Seq<char>>, rows: Seq<Seq<Seq<char>>>)
    requires
        cells_single_line(headers),
        forall|k: int| 0 <= k < rows.len() ==> cells_single_line(#[trigger] rows[k]),
    ensures
        table_text(headers, rows) == row_line(headers, widths_of(headers, rows)) + seq!['\n'] + rows_text(
            rows,
            widths_of(headers, rows),
        ),
        newlines(table_text(headers, rows)) == rows.len() + 1,
        table_text(headers, rows).last() == '\n',
{
    let w = widths_of(headers, rows);
    lemma_row_line_single_line(headers, w);
    lemma_rows_text_lines(rows, w);
    lemma_newlines_add(row_line(headers, w), seq!['\n']);
    lemma_newlines_add(row_line(headers, w) + seq!['\n'], rows_text(rows, w));
    assert(newlines(seq!['\n']) == 1) by {
        assert(seq!['\n'].drop_last() =~= Seq::<char>::empty());
        reveal_with_fuel(newlines, 2);
    }
    let t = row_line(headers, w) + seq!['\n'] + rows_text(rows, w);
    if rows.len() == 0 {
        assert(t =~= row_line(headers, w) + seq!['\n']);
    } else {
        let rt = rows_text(rows, w);
        assert(rt == rows_text(rows.drop_last(), w) + row_line(rows.last(), w) + seq!['\n']);
        assert(rt.last() == '\n');
        assert(t.last() == rt.last());
    }
}

} // verus!
