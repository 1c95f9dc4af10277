use crate::record::{Character, CharacterModel};
use crate::text::{chars_of, string_of};
use vstd::prelude::*;

verus! {

/// What the page's wiki-style data tables hold: for every row, in document
/// order, the concatenated text of each of its cells.
pub uninterp spec fn table_cells_of(html: Seq<char>) -> Seq<Seq<Seq<char>>>;

/// Relies on `scraper::Html::parse_document`, `scraper::Selector::parse`
/// and `scraper::ElementRef::{select, text}`: parsing is a pure function of
/// the HTML text, and the rows handed back hold, for every
/// `table.wikitable > tbody > tr` row, the concatenated text of each of its
/// `td` cells, in document order.
#[verifier::external_body]
fn table_rows(html: &str) -> (rows: Vec<Vec<String>>)
    ensures
        rows.deep_view() == table_cells_of(html@),
{
    let doc = scraper::Html::parse_document(html);
    let row_sel = scraper::Selector::parse("table.wikitable > tbody > tr").unwrap();
    let cell_sel = scraper::Selector::parse("td").unwrap();
    doc.select(&row_sel)
        .map(|row| {
            row.select(&cell_sel)
                .map(|cell| cell.text().collect::<Vec<_>>().join(""))
                .collect()
        })
        .collect()
}

/// A cell's text with the one trailing line-break artifact of cell-text
/// concatenation removed, when the cell has any text at all.
pub open spec fn strip_cell(t: Seq<char>) -> Seq<char> {
    if t.len() > 0 {
        t.drop_last()
    } else {
        t
    }
}

/// The record a row yields: one exactly when the row has three cells,
/// mapped positionally; any other cell count yields none.
pub open spec fn row_record(cells: Seq<Seq<char>>) -> Option<CharacterModel> {
    if cells.len() == 3 {
        Some(
            CharacterModel {
                name: strip_cell(cells[0]),
                portrayal: strip_cell(cells[1]),
                description: strip_cell(cells[2]),
            },
        )
    } else {
        None
    }
}

/// The ordered records of a row sequence: each contributing row's record,
/// with every other row dropped silently.
pub open spec fn extracted(rows: Seq<Seq<Seq<char>>>) -> Seq<CharacterModel>
    decreases rows.len(),
{
    if rows.len() == 0 {
        Seq::empty()
    } else {
        match row_record(rows[0]) {
            Some(m) => seq![m] + extracted(rows.skip(1)),
            None => extracted(rows.skip(1)),
        }
    }
}

pub proof fn lemma_extracted_append(a: Seq<Seq<Seq<char>>>, b: Seq<Seq<Seq<char>>>)
    ensures
        extracted(a + b) == extracted(a) + extracted(b),
    decreases a.len(),
{
    if a.len() == 0 {
        assert(a + b =~= b);
        assert(extracted(a) + extracted(b) =~= extracted(b));
    } else {
        assert((a + b).skip(1) =~= a.skip(1) + b);
        lemma_extracted_append(a.skip(1), b);
        assert((a + b)[0] == a[0]);
        match row_record(a[0]) {
            Some(m) => {
                assert(extracted(a + b) == seq![m] + (extracted(a.skip(1)) + extracted(b)));
                assert(seq![m] + (extracted(a.skip(1)) + extracted(b)) =~= (seq![m] + extracted(
                    a.skip(1),
                )) + extracted(b));
            },
            None => {},
        }
    }
}

/// The number of rows with exactly three cells.
pub open spec fn count_three(rows: Seq<Seq<Seq<char>>>) -> int
    decreases rows.len(),
{
    if rows.len() == 0 {
        0
    } else {
        (if rows[0].len() == 3 {
            1int
        } else {
            0int
        }) + count_three(rows.skip(1))
    }
}

/// A row contributes a record exactly when it yields three cell texts: the
/// extraction yields as many records as there are three-cell rows.
pub proof fn lemma_extraction_count(rows: Seq<Seq<Seq<char>>>)
    ensures
        extracted(rows).len() == count_three(rows),
    decreases rows.len(),
{
    if rows.len() > 0 {
        lemma_extraction_count(rows.skip(1));
    }
}

/// Removes the one trailing character of a cell's text, if it has any.
fn strip_cell_text(s: &String) -> (r: String)
    ensures
        r@ == strip_cell(s@),
{
    let mut cs = chars_of(s.as_str());
    if cs.len() > 0 {
        cs.pop();
        proof {
            assert(cs@ =~= strip_cell(s@));
        }
    }
    string_of(cs)
}

/// Turns rows of cell texts into the ordered record sequence: three-cell
/// rows mapped positionally to the record's fields, every other row
/// dropped without an error.
pub fn rows_to_records(rows: &Vec<Vec<String>>) -> (r: Vec<Character>)
    ensures
        r.deep_view() == extracted(rows.deep_view()),
{
    let n = rows.len();
    let ghost rws = rows.deep_view();
    let mut out: Vec<Character> = Vec::new();
    let mut i: usize = 0;
    proof {
        assert(rws.len() == n);
        assert(out.deep_view() =~= extracted(rws.take(0)));
    }
    while i < n
        invariant
            n == rows@.len(),
            rws == rows.deep_view(),
            rws.len() == n,
            i <= n,
            out.deep_view() == extracted(rws.take(i as int)),
        decreases n - i,
    {
        let ghost out0 = out.deep_view();
        let row = &rows[i];
        proof {
            assert(rws[i as int] == rows@[i as int].deep_view());
            assert(rws[i as int].len() == rows@[i as int]@.len());
        }
        if row.len() == 3 {
            let rec = Character {
                name: strip_cell_text(&row[0]),
                portrayal: strip_cell_text(&row[1]),
                description: strip_cell_text(&row[2]),
            };
            proof {
                assert(rws[i as int][0] == rows@[i as int]@[0]@);
                assert(rws[i as int][1] == rows@[i as int]@[1]@);
                assert(rws[i as int][2] == rows@[i as int]@[2]@);
                assert(row_record(rws[i as int]) == Some(rec@));
            }
            out.push(rec);
            proof {
                assert(out.deep_view() =~= out0.push(rec@));
            }
        }
        i = i + 1;
        proof {
            let k = i - 1;
            assert(rws.take(i as int) =~= rws.take(k) + seq![rws[k]]);
            lemma_extracted_append(rws.take(k), seq![rws[k]]);
            assert(seq![rws[k]].len() == 1);
            assert(seq![rws[k]][0] == rws[k]);
            assert(seq![rws[k]].skip(1) =~= Seq::<Seq<Seq<char>>>::empty());
            assert(extracted(Seq::<Seq<Seq<char>>>::empty()) == Seq::<CharacterModel>::empty());
            match row_record(rws[k]) {
                Some(m) => {
                    assert(extracted(seq![rws[k]]) =~= seq![m]);
                    assert(out.deep_view() =~= extracted(rws.take(k)) + seq![m]);
                },
                None => {
                    assert(extracted(seq![rws[k]]) =~= Seq::<CharacterModel>::empty());
                    assert(out.deep_view() =~= extracted(rws.take(k)));
                },
            }
        }
    }
    proof {
        assert(rws.take(n as int) =~= rws);
    }
    out
}

/// Extracts the ordered record sequence from raw HTML text: the records of
/// the page's wiki-style data table rows.
pub fn extract_records(html: &str) -> (r: Vec<Character>)
    ensures
        r.deep_view() == extracted(table_cells_of(html@)),
{
    let rows = table_rows(html);
    rows_to_records(&rows)
}

} // verus!
