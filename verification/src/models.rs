//! The rows of the two tables that the first pass fills.
use vstd::prelude::*;

verus! {

/// Where a page stands in the graph.
#[derive(Debug)]
pub struct LookupEntry {
    pub title: String,
    /// The bytes from the start of the graph file to the page's header.
    pub byteoffset: i32,
    /// The bytes that the page's links take: four for each of them.
    pub length: i32,
}

/// A page that stands for another one.
#[derive(Debug)]
pub struct RedirectEntry {
    pub redirect_from: String,
    pub redirect_to: String,
}

/// A row of the lookup table, by value.
pub struct LookupRow {
    pub title: Seq<char>,
    pub byteoffset: i32,
    pub length: i32,
}

/// A row of the redirect table, by value.
pub struct RedirectRow {
    pub redirect_from: Seq<char>,
    pub redirect_to: Seq<char>,
}

impl View for LookupEntry {
    type V = LookupRow;

    open spec fn view(&self) -> LookupRow {
        LookupRow { title: self.title@, byteoffset: self.byteoffset, length: self.length }
    }
}

impl View for RedirectEntry {
    type V = RedirectRow;

    open spec fn view(&self) -> RedirectRow {
        RedirectRow { redirect_from: self.redirect_from@, redirect_to: self.redirect_to@ }
    }
}

/// The rows that a list of entries holds.
pub open spec fn rows_of(entries: Seq<LookupEntry>) -> Seq<LookupRow> {
    entries.map_values(|e: LookupEntry| e@)
}

/// The first row with the given title.
pub open spec fn find_row(rows: Seq<LookupRow>, title: Seq<char>) -> Option<LookupRow>
    decreases rows.len(),
{
    if rows.len() == 0 {
        None
    } else if rows[0].title == title {
        Some(rows[0])
    } else {
        find_row(rows.drop_first(), title)
    }
}

/// Where titles do not repeat, the row of a title is the one found for it.
pub proof fn lemma_find_row(rows: Seq<LookupRow>, at: int)
    requires
        0 <= at < rows.len(),
        forall|i: int, j: int| 0 <= i < j < rows.len() ==> rows[i].title != rows[j].title,
    ensures
        find_row(rows, rows[at].title) == Some(rows[at]),
    decreases rows.len(),
{
    if at > 0 {
        assert(rows[0].title != rows[at].title);
        assert(rows.drop_first()[at - 1] == rows[at]);
        lemma_find_row(rows.drop_first(), at - 1);
    }
}

/// Looks a title up in the given entries: the first that has it.
#[verifier::loop_isolation(false)]
pub fn look_up_lookup_entry<'a>(entries: &'a Vec<LookupEntry>, title: &String) -> (found: Option<
    &'a LookupEntry,
>)
    ensures
        match found {
            Some(entry) => find_row(rows_of(entries@), title@) == Some(entry@),
            None => find_row(rows_of(entries@), title@) is None,
        },
        match found {
            Some(entry) => entry.title@ == title@ && exists|i: int|
                0 <= i < entries@.len() && entry@ == (#[trigger] entries@[i])@ && forall|j: int|
                    0 <= j < i ==> (#[trigger] entries@[j]).title@ != title@,
            None => forall|i: int|
                0 <= i < entries@.len() ==> (#[trigger] entries@[i]).title@ != title@,
        },
{
    proof {
        law_found_row_has_the_title(rows_of(entries@), title@);
        assert forall|i: int| 0 <= i < entries@.len() implies rows_of(entries@)[i] == (
        #[trigger] entries@[i])@ by {
        }
    }
    let mut i: usize = 0;
    assert(rows_of(entries@).skip(0) =~= rows_of(entries@));
    while i < entries.len()
        invariant
            i <= entries@.len(),
            find_row(rows_of(entries@), title@) == find_row(
                rows_of(entries@).skip(i as int),
                title@,
            ),
        decreases entries@.len() - i,
    {
        let ghost rest = rows_of(entries@).skip(i as int);
        assert(rest[0] == entries@[i as int]@);
        if entries[i].title == *title {
            return Some(&entries[i]);
        }
        assert(rest.drop_first() =~= rows_of(entries@).skip(i + 1));
        i += 1;
    }
    None
}

/// A row holds what its entry holds.
pub proof fn law_rows_of_entries(entries: Seq<LookupEntry>, i: int)
    requires
        0 <= i < entries.len(),
    ensures
        rows_of(entries).len() == entries.len(),
        rows_of(entries)[i].title == entries[i].title@,
        rows_of(entries)[i].byteoffset == entries[i].byteoffset,
        rows_of(entries)[i].length == entries[i].length,
{
}

/// A redirect's row holds what its entry holds.
pub proof fn law_redirect_by_value(entry: RedirectEntry)
    ensures
        entry@.redirect_from == entry.redirect_from@,
        entry@.redirect_to == entry.redirect_to@,
{
}

/// A row that is found is one of the table and has the title that was asked for, the first that
/// does. Nothing is found exactly where no row has the title.
pub proof fn law_found_row_has_the_title(rows: Seq<LookupRow>, title: Seq<char>)
    ensures
        match find_row(rows, title) {
            Some(row) => rows.contains(row) && row.title == title && exists|i: int|
                0 <= i < rows.len() && row == #[trigger] rows[i] && forall|j: int|
                    0 <= j < i ==> (#[trigger] rows[j]).title != title,
            None => forall|i: int| 0 <= i < rows.len() ==> (#[trigger] rows[i]).title != title,
        },
    decreases rows.len(),
{
    if rows.len() != 0 {
        if rows[0].title == title {
            assert(rows.contains(rows[0]));
        } else {
            let rest = rows.drop_first();
            law_found_row_has_the_title(rest, title);
            match find_row(rest, title) {
                Some(row) => {
                    let i = choose|i: int|
                        0 <= i < rest.len() && row == #[trigger] rest[i] && forall|j: int|
                            0 <= j < i ==> (#[trigger] rest[j]).title != title;
                    assert(rows[i + 1] == row);
                    assert forall|j: int| 0 <= j < i + 1 implies (#[trigger] rows[j]).title
                        != title by {
                        if j > 0 {
                            assert(rows[j] == rest[j - 1]);
                        }
                    }
                },
                None => {
                    assert forall|i: int| 0 <= i < rows.len() implies (#[trigger] rows[i]).title
                        != title by {
                        if i > 0 {
                            assert(rows[i] == rest[i - 1]);
                        }
                    }
                },
            }
        }
    }
}

/// The first row of a title is the one found for it, whatever rows follow.
pub proof fn law_first_row_is_found(rows: Seq<LookupRow>, at: int)
    requires
        0 <= at < rows.len(),
        forall|j: int| 0 <= j < at ==> (#[trigger] rows[j]).title != rows[at].title,
    ensures
        find_row(rows, rows[at].title) == Some(rows[at]),
{
    let title = rows[at].title;
    law_found_row_has_the_title(rows, title);
    if let Some(row) = find_row(rows, title) {
        let i = choose|i: int|
            0 <= i < rows.len() && row == #[trigger] rows[i] && forall|j: int|
                0 <= j < i ==> (#[trigger] rows[j]).title != title;
        assert(rows[i].title == title);
        assert(i == at);
    }
}

} // verus!
