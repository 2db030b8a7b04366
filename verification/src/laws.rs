//! Whole-pipeline laws: rendering a table to delimited text and ingesting
//! that text reproduces the table.
use vstd::prelude::*;
use crate::column::{promo_cells, promo_kind, Column};
use crate::data::Kind;
use crate::dataframe::{
    header_text, ingest_dup, ingest_names, ingest_shape_ok, lines_of, padded_names, padded_row,
    raw_col, row_line_text, rows_text, table_text, DataFrame,
};
use crate::text;

verus! {

/// Whether `s` contains neither the separator nor a line break.
pub open spec fn clean_text(s: Seq<char>, sep: char) -> bool {
    forall|j: int| 0 <= j < s.len() ==> s[j] != sep && s[j] != '\n'
}

/// The conditions under which a table's text rendering re-ingests to the
/// same table: names and cell texts free of the separator and of line
/// breaks, and every non-Int column holding a witness cell that keeps it
/// from re-promoting to a narrower kind.
pub open spec fn round_trippable(df: DataFrame, sep: char) -> bool {
    &&& forall|c: int| 0 <= c < df.columns@.len()
        ==> clean_text((#[trigger] df.columns@[c]).spec_name(), sep)
    &&& forall|c: int, r: int| 0 <= c < df.columns@.len() && 0 <= r < df.num_rows
        ==> clean_text(#[trigger] df.columns@[c].cells()[r], sep)
    &&& forall|c: int| 0 <= c < df.columns@.len()
        && (#[trigger] df.columns@[c]).kind() == Kind::Float
        ==> exists|r: int| 0 <= r < df.num_rows
            && text::int_of_text(#[trigger] df.columns@[c].cells()[r]) is None
    &&& forall|c: int| 0 <= c < df.columns@.len()
        && (#[trigger] df.columns@[c]).kind() == Kind::Text
        ==> exists|r: int| 0 <= r < df.num_rows
            && !text::is_float_text(#[trigger] df.columns@[c].cells()[r])
}

/// The lines of a rendered table, each without its terminating line break:
/// the header line first, then one line per row.
spec fn table_lines(df: DataFrame, sep: char) -> Seq<Seq<char>> {
    Seq::new(
        (df.num_rows + 1) as nat,
        |i: int| if i == 0 {
            text::join_seq(padded_names(df.columns@, 0), sep)
        } else {
            text::join_seq(padded_row(df.columns@, i - 1, 0), sep)
        },
    )
}

/// Each part followed by one `nl` character, concatenated in order.
spec fn terminated(parts: Seq<Seq<char>>, nl: char) -> Seq<char>
    decreases parts.len(),
{
    if parts.len() == 0 {
        Seq::empty()
    } else {
        (parts[0] + seq![nl]) + terminated(parts.skip(1), nl)
    }
}

proof fn lemma_terminated_push(parts: Seq<Seq<char>>, x: Seq<char>, nl: char)
    ensures
        terminated(parts.push(x), nl) == terminated(parts, nl) + (x + seq![nl]),
    decreases parts.len(),
{
    if parts.len() == 0 {
        assert(parts.push(x).skip(1) =~= Seq::<Seq<char>>::empty());
        assert(terminated(parts.push(x), nl)
            == (x + seq![nl]) + terminated(parts.push(x).skip(1), nl));
        assert(terminated(Seq::<Seq<char>>::empty(), nl) == Seq::<char>::empty());
        assert(parts =~= Seq::<Seq<char>>::empty());
        assert(terminated(parts.push(x), nl) =~= terminated(parts, nl) + (x + seq![nl]));
    } else {
        assert(parts.push(x).skip(1) =~= parts.skip(1).push(x));
        assert(parts.push(x)[0] == parts[0]);
        lemma_terminated_push(parts.skip(1), x, nl);
        assert(terminated(parts.push(x), nl)
            == (parts[0] + seq![nl]) + terminated(parts.skip(1).push(x), nl));
        assert(terminated(parts.skip(1).push(x), nl)
            == terminated(parts.skip(1), nl) + (x + seq![nl]));
        assert(terminated(parts, nl) == (parts[0] + seq![nl]) + terminated(parts.skip(1), nl));
        assert(terminated(parts.push(x), nl) =~= terminated(parts, nl) + (x + seq![nl]));
    }
}

proof fn lemma_join_terminated(parts: Seq<Seq<char>>, nl: char)
    requires
        parts.len() >= 1,
    ensures
        text::join_seq(parts.push(Seq::empty()), nl) == terminated(parts, nl),
    decreases parts.len(),
{
    if parts.len() == 1 {
        assert(parts.push(Seq::empty()).skip(1) =~= seq![Seq::<char>::empty()]);
        assert(text::join_seq(seq![Seq::<char>::empty()], nl) == Seq::<char>::empty());
        assert(parts.push(Seq::empty()).len() == 2);
        assert(text::join_seq(parts.push(Seq::empty()), nl)
            == parts[0] + seq![nl] + text::join_seq(parts.push(Seq::empty()).skip(1), nl));
        assert(parts.skip(1) =~= Seq::<Seq<char>>::empty());
        assert(terminated(parts, nl) == (parts[0] + seq![nl]) + terminated(parts.skip(1), nl));
        assert(terminated(parts.skip(1), nl) == Seq::<char>::empty());
        assert(text::join_seq(parts.push(Seq::empty()), nl) =~= terminated(parts, nl));
    } else {
        assert(parts.push(Seq::empty()).skip(1) =~= parts.skip(1).push(Seq::empty()));
        assert(parts.push(Seq::empty())[0] == parts[0]);
        lemma_join_terminated(parts.skip(1), nl);
        assert(parts.push(Seq::empty()).len() >= 2);
        assert(text::join_seq(parts.push(Seq::empty()), nl)
            == parts[0] + seq![nl] + text::join_seq(parts.skip(1).push(Seq::empty()), nl));
        assert(text::join_seq(parts.skip(1).push(Seq::empty()), nl)
            == terminated(parts.skip(1), nl));
        assert(terminated(parts, nl) == (parts[0] + seq![nl]) + terminated(parts.skip(1), nl));
        assert(text::join_seq(parts.push(Seq::empty()), nl) =~= terminated(parts, nl));
    }
}

proof fn lemma_join_clean(parts: Seq<Seq<char>>, sep: char, ch: char)
    requires
        sep != ch,
        forall|i: int, j: int| 0 <= i < parts.len() && 0 <= j < parts[i].len()
            ==> #[trigger] parts[i][j] != ch,
    ensures
        forall|j: int| 0 <= j < text::join_seq(parts, sep).len()
            ==> #[trigger] text::join_seq(parts, sep)[j] != ch,
    decreases parts.len(),
{
    if parts.len() == 0 {
    } else if parts.len() == 1 {
        assert(forall|j: int| 0 <= j < parts[0].len() ==> #[trigger] parts[0][j] != ch);
    } else {
        assert(forall|i: int, j: int|
            0 <= i < parts.skip(1).len() && 0 <= j < parts.skip(1)[i].len()
                ==> #[trigger] parts.skip(1)[i][j] != ch) by {
            assert(forall|i: int| 0 <= i < parts.skip(1).len()
                ==> #[trigger] parts.skip(1)[i] == parts[i + 1]);
        }
        lemma_join_clean(parts.skip(1), sep, ch);
        let joined = text::join_seq(parts, sep);
        let rest = text::join_seq(parts.skip(1), sep);
        assert(joined == parts[0] + seq![sep] + rest);
        assert forall|j: int| 0 <= j < joined.len() implies #[trigger] joined[j] != ch by {
            if j < parts[0].len() {
                assert(joined[j] == parts[0][j]);
            } else if j == parts[0].len() {
                assert(joined[j] == sep);
            } else {
                assert(joined[j] == rest[j - parts[0].len() - 1]);
            }
        }
    }
}

proof fn lemma_rows_terminated(df: DataFrame, sep: char, k: int)
    requires
        0 <= k <= df.num_rows,
        df.columns@.len() > 0,
    ensures
        rows_text(df.columns@, k, sep, 0)
            == terminated(table_lines(df, sep).subrange(1, k + 1), '\n'),
    decreases k,
{
    if k == 0 {
        assert(table_lines(df, sep).subrange(1, 1) =~= Seq::<Seq<char>>::empty());
    } else {
        lemma_rows_terminated(df, sep, k - 1);
        assert(table_lines(df, sep).subrange(1, k + 1)
            =~= table_lines(df, sep).subrange(1, k).push(table_lines(df, sep)[k]));
        lemma_terminated_push(table_lines(df, sep).subrange(1, k), table_lines(df, sep)[k], '\n');
        assert(row_line_text(df.columns@, k - 1, sep, 0)
            == table_lines(df, sep)[k] + seq!['\n']);
        assert(rows_text(df.columns@, k, sep, 0)
            =~= terminated(table_lines(df, sep).subrange(1, k + 1), '\n'));
    }
}

/// Rendering a well-formed, round-trippable table with no padding and all
/// rows, then ingesting the result, reproduces the table exactly: the
/// ingest succeeds, and yields the same column names in the same order,
/// the same inferred kinds, the same cell texts, and the same row count.
/// Together with the contract of `DataFrame::from_text`, this is the
/// write-then-read round trip.
pub proof fn lemma_round_trip(df: DataFrame, sep: char)
    requires
        df.wf(),
        df.num_cols > 0,
        sep != '\n',
        round_trippable(df, sep),
    ensures
        ({
            let t = table_text(df, sep, 0, df.num_rows as nat);
            &&& t.len() > 0
            &&& ingest_shape_ok(t, sep)
            &&& !ingest_dup(t, sep)
            &&& lines_of(t).len() == df.num_rows + 1
            &&& ingest_names(t, sep) == df.columns@.map_values(|c: Column| c.spec_name())
            &&& forall|c: int| 0 <= c < df.columns@.len()
                ==> raw_col(t, sep, c) == (#[trigger] df.columns@[c]).cells()
                    && promo_kind(raw_col(t, sep, c)) == df.columns@[c].kind()
                    && promo_cells(raw_col(t, sep, c)) == df.columns@[c].cells()
        }),
{
    let t = table_text(df, sep, 0, df.num_rows as nat);
    let cols = df.columns@;
    let nrows = df.num_rows as int;
    let lines = table_lines(df, sep);
    let names = cols.map_values(|c: Column| c.spec_name());

    // padding with width zero changes nothing
    assert(padded_names(cols, 0) =~= names);
    assert(forall|r: int| 0 <= r < nrows
        ==> #[trigger] padded_row(cols, r, 0) =~= Seq::new(cols.len(), |c: int| cols[c].cells()[r]));

    // every line is free of line breaks
    assert forall|i: int| 0 <= i < lines.len() implies
        forall|j: int| 0 <= j < (#[trigger] lines[i]).len() ==> lines[i][j] != '\n' by {
        if i == 0 {
            assert(forall|a: int, b: int|
                0 <= a < names.len() && 0 <= b < names[a].len()
                    ==> #[trigger] names[a][b] != '\n');
            lemma_join_clean(padded_names(cols, 0), sep, '\n');
        } else {
            let row = padded_row(cols, i - 1, 0);
            assert(forall|a: int, b: int|
                0 <= a < row.len() && 0 <= b < row[a].len()
                    ==> #[trigger] row[a][b] != '\n');
            lemma_join_clean(row, sep, '\n');
        }
    }

    // the rendering is the line-break-terminated concatenation of the lines
    lemma_rows_terminated(df, sep, nrows);
    assert(lines.subrange(1, nrows + 1) =~= lines.skip(1));
    assert(header_text(cols, sep, 0) == lines[0] + seq!['\n']);
    assert(terminated(lines, '\n')
        == (lines[0] + seq!['\n']) + terminated(lines.skip(1), '\n'));
    assert(t =~= terminated(lines, '\n'));

    // so splitting at line breaks gives the lines back, plus a final empty
    lemma_join_terminated(lines, '\n');
    text::lemma_split_join(lines.push(Seq::empty()), '\n');
    assert(text::split_seq(t, '\n') == lines.push(Seq::empty()));
    assert(lines_of(t) =~= lines);
    assert(t.len() > 0);

    // the header splits back into the names
    assert(forall|a: int, b: int|
        0 <= a < names.len() && 0 <= b < names[a].len() ==> #[trigger] names[a][b] != sep);
    text::lemma_split_join(names, sep);
    assert(lines_of(t)[0] == text::join_seq(names, sep));
    assert(ingest_names(t, sep) == names);

    // every data line splits back into its row's cells
    assert forall|r: int| 1 <= r < lines_of(t).len() implies
        text::split_seq(#[trigger] lines_of(t)[r], sep)
            == Seq::new(cols.len(), |c: int| cols[c].cells()[r - 1]) by {
        let row = Seq::new(cols.len(), |c: int| cols[c].cells()[r - 1]);
        assert(forall|a: int, b: int|
            0 <= a < row.len() && 0 <= b < row[a].len() ==> #[trigger] row[a][b] != sep);
        text::lemma_split_join(row, sep);
        assert(padded_row(cols, r - 1, 0) =~= row);
        assert(lines_of(t)[r] == text::join_seq(row, sep));
    }
    assert(ingest_shape_ok(t, sep));

    // each raw column is exactly that column's cell texts
    assert forall|c: int| 0 <= c < cols.len() implies
        raw_col(t, sep, c) == (#[trigger] cols[c]).cells() by {
        assert(cols[c].cells().len() == nrows);
        assert forall|r: int| 0 <= r < nrows implies
            #[trigger] raw_col(t, sep, c)[r] == cols[c].cells()[r] by {
            assert(text::split_seq(lines_of(t)[r + 1], sep)
                == Seq::new(cols.len(), |c2: int| cols[c2].cells()[r]));
        }
        assert(raw_col(t, sep, c) =~= cols[c].cells());
    }

    // names are pairwise distinct, so ingestion reports no duplicate
    assert forall|i: int, j: int| 0 <= i < j < names.len() implies
        #[trigger] names[i] != #[trigger] names[j] by {
        assert(cols[i].spec_name() != cols[j].spec_name());
    }
    assert(!ingest_dup(t, sep));

    // promotion settles every column back at its own kind and cells
    assert forall|c: int| 0 <= c < cols.len() implies
        promo_kind(raw_col(t, sep, c)) == (#[trigger] cols[c]).kind()
            && promo_cells(raw_col(t, sep, c)) == cols[c].cells() by {
        let cells = cols[c].cells();
        assert(raw_col(t, sep, c) == cells);
        match cols[c] {
            Column::Int(s) => {
                assert forall|r: int| 0 <= r < cells.len() implies
                    text::int_of_text(#[trigger] cells[r]) is Some by {
                    assert(cells[r] == text::int_to_text(s.data@[r] as int));
                    text::lemma_int_text_round_trip(s.data@[r]);
                }
                assert(text::all_int(cells));
                assert(promo_kind(cells) == Kind::Int);
                assert forall|r: int| 0 <= r < cells.len() implies
                    #[trigger] promo_cells(cells)[r] == cells[r] by {
                    text::lemma_int_text_round_trip(s.data@[r]);
                    assert(cells[r] == text::int_to_text(s.data@[r] as int));
                    assert(text::int_of_text(cells[r])->Some_0 == s.data@[r]);
                }
                assert(promo_cells(cells) =~= cells);
            },
            Column::Float(s) => {
                let r0 = choose|r: int| 0 <= r < df.num_rows
                    && text::int_of_text(#[trigger] cols[c].cells()[r]) is None;
                assert(text::int_of_text(cells[r0]) is None);
                assert(!text::all_int(cells));
                assert forall|r: int| 0 <= r < cells.len() implies
                    text::is_float_text(#[trigger] cells[r]) by {
                    assert(cells[r] == s.data@[r]@);
                    assert(s.data@[r].valid());
                }
                assert(text::all_float(cells));
                assert(promo_kind(cells) == Kind::Float);
                assert(promo_cells(cells) == cells);
            },
            Column::Text(s) => {
                let r0 = choose|r: int| 0 <= r < df.num_rows
                    && !text::is_float_text(#[trigger] cols[c].cells()[r]);
                assert(!text::is_float_text(cells[r0]));
                assert(!text::all_float(cells));
                if text::int_of_text(cells[r0]) is Some {
                    text::lemma_int_text_is_float_text(cells[r0]);
                }
                assert(text::int_of_text(cells[r0]) is None);
                assert(!text::all_int(cells));
                assert(promo_kind(cells) == Kind::Text);
                assert(promo_cells(cells) == cells);
            },
        }
    }
}

} // verus!
