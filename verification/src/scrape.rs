//! The table of grades: from the cells that were found on the course list to
//! the records of the courses.

use crate::entities::{decode_chars, decode_entities};
use crate::error::GradesError;
use crate::html::{select_inner_html, selected_inner_html, MAX_TEXT_LEN};
use crate::text::{from_chars, to_chars, trim, trim_chars};
use vstd::prelude::*;

verus! {

/// One course of the grade report.
#[derive(Debug, Clone, PartialEq, Eq)]
pub struct CourseData {
    pub session: String,
    pub course: String,
    pub title: String,
    pub grade: String,
}

/// A course as a model: its four texts.
pub struct CourseRecord {
    pub session: Seq<char>,
    pub course: Seq<char>,
    pub title: Seq<char>,
    pub grade: Seq<char>,
}

impl View for CourseData {
    type V = CourseRecord;

    open spec fn view(&self) -> CourseRecord {
        CourseRecord {
            session: self.session@,
            course: self.course@,
            title: self.title@,
            grade: self.grade@,
        }
    }
}

impl DeepView for CourseData {
    type V = CourseRecord;

    open spec fn deep_view(&self) -> CourseRecord {
        self@
    }
}

/// A row of a table as a model: the inner HTML of its cells.
pub type Row = Seq<Seq<char>>;

/// What a cell says: its inner HTML without the white space around it, with
/// the character references decoded.
pub open spec fn cell_text(cell: Seq<char>) -> Seq<char> {
    decode_entities(trim(cell))
}

/// The record of a row: its first four cells are, in this order, the
/// session, the course, the title and the grade.
pub open spec fn record_of(row: Row) -> CourseRecord
    recommends
        row.len() >= 4,
{
    CourseRecord {
        session: cell_text(row[0]),
        course: cell_text(row[1]),
        title: cell_text(row[2]),
        grade: cell_text(row[3]),
    }
}

/// The records of the rows that have cells, in the order of the rows. A row
/// without cells, as a row of headers is, gives no record.
pub open spec fn data_records(rows: Seq<Row>) -> Seq<CourseRecord>
    decreases rows.len(),
{
    if rows.len() == 0 {
        Seq::empty()
    } else if rows.last().len() == 0 {
        data_records(rows.drop_last())
    } else {
        data_records(rows.drop_last()).push(record_of(rows.last()))
    }
}

/// Every row has no cell or at least four.
pub open spec fn well_shaped(rows: Seq<Row>) -> bool {
    forall|i: int| 0 <= i < rows.len() ==> (#[trigger] rows[i]).len() == 0 || rows[i].len() >= 4
}

/// What `records_from_rows` returns: the records, or the failure where a row
/// has one, two or three cells.
pub open spec fn records_of(rows: Seq<Row>) -> Result<Seq<CourseRecord>, GradesError> {
    if well_shaped(rows) {
        Ok(data_records(rows))
    } else {
        Err(GradesError::RowShape)
    }
}

/// What follows from what the selectors found on a page: for each table its
/// rows, for each row its cells. Only the table that was found first counts.
pub open spec fn scrape_of(found: Option<Seq<Seq<Row>>>) -> Result<
    Seq<CourseRecord>,
    GradesError,
> {
    match found {
        None => Err(GradesError::BadSelector),
        Some(tables) => if tables.len() == 0 {
            Err(GradesError::TableNotFound)
        } else {
            records_of(tables[0])
        },
    }
}

/// The view of a result that holds records.
pub open spec fn records_result(r: Result<Vec<CourseData>, GradesError>) -> Result<
    Seq<CourseRecord>,
    GradesError,
> {
    match r {
        Ok(records) => Ok(records.deep_view()),
        Err(e) => Err(e),
    }
}

/// What a cell says: its inner HTML trimmed and decoded.
pub fn cell_value(cell: &str) -> (value: String)
    ensures
        value@ == cell_text(cell@),
{
    from_chars(&decode_chars(&trim_chars(&to_chars(cell))))
}

/// The records of the rows of a table: one for each row that has cells.
/// Fails where a row has cells, but fewer than four.
pub fn records_from_rows(rows: &Vec<Vec<String>>) -> (r: Result<Vec<CourseData>, GradesError>)
    ensures
        records_result(r) == records_of(rows.deep_view()),
{
    let ghost all = rows.deep_view();
    let mut records: Vec<CourseData> = Vec::new();
    let mut i: usize = 0;
    assert(all.take(0) =~= Seq::<Row>::empty());
    assert(records.deep_view() =~= Seq::<CourseRecord>::empty());
    while i < rows.len()
        invariant
            i <= rows.len(),
            all == rows.deep_view(),
            well_shaped(all.take(i as int)),
            records.deep_view() == data_records(all.take(i as int)),
        decreases rows.len() - i,
    {
        let row = &rows[i];
        let ghost cells = all[i as int];
        let ghost before = records.deep_view();
        proof {
            assert(cells == row.deep_view());
            assert(all.take(i + 1).drop_last() =~= all.take(i as int));
            assert(all.take(i + 1).last() == cells);
        }
        if row.len() > 0 {
            if row.len() < 4 {
                assert(!well_shaped(all)) by {
                    assert(!(all[i as int].len() == 0 || all[i as int].len() >= 4));
                }
                return Err(GradesError::RowShape);
            }
            proof {
                assert(cells[0] == row@[0]@ && cells[1] == row@[1]@ && cells[2] == row@[2]@
                    && cells[3] == row@[3]@);
            }
            let record = CourseData {
                session: cell_value(row[0].as_str()),
                course: cell_value(row[1].as_str()),
                title: cell_value(row[2].as_str()),
                grade: cell_value(row[3].as_str()),
            };
            records.push(record);
            assert(records.deep_view() =~= before.push(record_of(cells)));
        }
        proof {
            assert forall|k: int| 0 <= k < i + 1 implies (#[trigger] all.take(i + 1)[k]).len() == 0
                || all.take(i + 1)[k].len() >= 4 by {
                if k < i {
                    assert(all.take(i as int)[k] == all.take(i + 1)[k]);
                }
            }
        }
        i += 1;
    }
    assert(all.take(i as int) =~= all);
    Ok(records)
}

/// The records of the first table that was found. Fails where the selectors
/// were refused, where no table was found, and where a row of the first
/// table has cells, but fewer than four.
pub fn scrape_table_from(found: &Option<Vec<Vec<Vec<String>>>>) -> (r: Result<
    Vec<CourseData>,
    GradesError,
>)
    ensures
        records_result(r) == scrape_of(found.deep_view()),
{
    match found {
        None => Err(GradesError::BadSelector),
        Some(tables) => {
            if tables.len() == 0 {
                Err(GradesError::TableNotFound)
            } else {
                assert(tables.deep_view()[0] == tables@[0].deep_view());
                records_from_rows(&tables[0])
            }
        },
    }
}

/// What `scrape_table` returns for the course list `page`: the failure where
/// the page is longer than the parser takes, else what follows from the
/// tables of class `bodytext` that the parser finds on it, with their rows
/// (`tr`) and the cells of each row (`td`).
pub open spec fn scrape_for(page: Seq<char>) -> Result<Seq<CourseRecord>, GradesError> {
    if page.len() > MAX_TEXT_LEN {
        Err(GradesError::PageTooLong)
    } else {
        scrape_of(selected_inner_html(page, "table.bodytext"@, "tr"@, "td"@))
    }
}

/// The records of the course list `page`: the first `table` of class
/// `bodytext` that is found is read row by row (`tr`) and cell by cell
/// (`td`). A page of more than `MAX_TEXT_LEN` characters is not parsed.
pub fn scrape_table(page: &str) -> (r: Result<Vec<CourseData>, GradesError>)
    ensures
        records_result(r) == scrape_for(page@),
{
    if page.unicode_len() > MAX_TEXT_LEN {
        return Err(GradesError::PageTooLong);
    }
    proof {
        reveal_strlit("table.bodytext");
        reveal_strlit("tr");
        reveal_strlit("td");
    }
    let found = select_inner_html(page, "table.bodytext", "tr", "td");
    scrape_table_from(&found)
}

/// The records of rows put one after the other are the records of the first
/// rows, then those of the others: the order of the rows is kept.
pub proof fn lemma_data_records_concat(a: Seq<Row>, b: Seq<Row>)
    ensures
        data_records(a + b) == data_records(a) + data_records(b),
    decreases b.len(),
{
    if b.len() == 0 {
        assert(a + b =~= a);
        assert(data_records(a) + data_records(b) =~= data_records(a));
    } else {
        lemma_data_records_concat(a, b.drop_last());
        assert((a + b).drop_last() =~= a + b.drop_last());
        assert((a + b).last() == b.last());
        if b.last().len() != 0 {
            assert((data_records(a) + data_records(b.drop_last())).push(record_of(b.last()))
                =~= data_records(a) + data_records(b.drop_last()).push(record_of(b.last())));
        }
    }
}

/// Rows that all have at least four cells give one record each, in their
/// order.
pub proof fn lemma_data_records_full(rows: Seq<Row>)
    requires
        forall|i: int| 0 <= i < rows.len() ==> (#[trigger] rows[i]).len() >= 4,
    ensures
        data_records(rows).len() == rows.len(),
        forall|i: int| 0 <= i < rows.len() ==> data_records(rows)[i] == record_of(#[trigger] rows[i]),
    decreases rows.len(),
{
    if rows.len() > 0 {
        let front = rows.drop_last();
        assert forall|i: int| 0 <= i < front.len() implies (#[trigger] front[i]).len() >= 4 by {
            assert(front[i] == rows[i]);
        }
        lemma_data_records_full(front);
        assert(rows.last() == rows[rows.len() - 1]);
        assert forall|i: int| 0 <= i < rows.len() implies data_records(rows)[i] == record_of(
            #[trigger] rows[i],
        ) by {
            if i < front.len() {
                assert(front[i] == rows[i]);
            }
        }
    }
}

/// A table whose first row has no cell, as a row of headers has none, and
/// whose other rows have at least four cells each, gives as many records as
/// it has other rows, in their order: the first row gives none.
pub proof fn lemma_header_row_skipped(data: Seq<Row>)
    requires
        forall|i: int| 0 <= i < data.len() ==> (#[trigger] data[i]).len() >= 4,
    ensures
        records_of(seq![Seq::empty()] + data) is Ok,
        records_of(seq![Seq::empty()] + data)->Ok_0.len() == data.len(),
        forall|i: int|
            0 <= i < data.len() ==> records_of(seq![Seq::empty()] + data)->Ok_0[i] == record_of(
                #[trigger] data[i],
            ),
{
    let header: Seq<Row> = seq![Seq::empty()];
    let rows = header + data;
    assert forall|i: int| 0 <= i < rows.len() implies (#[trigger] rows[i]).len() == 0
        || rows[i].len() >= 4 by {
        if i > 0 {
            assert(rows[i] == data[i - 1]);
        }
    }
    lemma_data_records_concat(header, data);
    lemma_data_records_full(data);
    assert(header.drop_last() =~= Seq::<Row>::empty());
    assert(header.last().len() == 0);
    assert(data_records(header.drop_last()) =~= Seq::<CourseRecord>::empty());
    assert(data_records(header) =~= Seq::<CourseRecord>::empty());
    assert(data_records(rows) =~= data_records(data));
}

} // verus!
