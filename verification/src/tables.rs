//! What is decided around the tables: whether an insert that failed ends the pass, and which row
//! a title leads to.
use vstd::prelude::*;

use crate::models::{find_row, look_up_lookup_entry, rows_of};
use crate::models::{LookupEntry, RedirectEntry, RedirectRow};

verus! {

/// What became of an insert.
#[derive(Debug, Clone, Copy)]
pub enum Insert {
    Added,
    /// The table already has a row of this key.
    Duplicate,
    Failed,
}

/// What follows an insert.
#[derive(Debug, Clone, Copy)]
pub enum AfterInsert {
    GoOn,
    /// Report the row that was not added, and go on.
    Report,
    Fail,
}

/// After an insert into the lookup table: whatever keeps a page out of it is a failure.
pub fn add_lookup_entry(insert: Insert) -> (after: AfterInsert)
    ensures
        after == (match insert {
            Insert::Added => AfterInsert::GoOn,
            _ => AfterInsert::Fail,
        }),
{
    match insert {
        Insert::Added => AfterInsert::GoOn,
        _ => AfterInsert::Fail,
    }
}

/// After an insert into the redirect table: a second redirect from a page is reported and left
/// out, and anything else is a failure.
pub fn add_redirect_entry(insert: Insert) -> (after: AfterInsert)
    ensures
        after == (match insert {
            Insert::Added => AfterInsert::GoOn,
            Insert::Duplicate => AfterInsert::Report,
            Insert::Failed => AfterInsert::Fail,
        }),
{
    match insert {
        Insert::Added => AfterInsert::GoOn,
        Insert::Duplicate => AfterInsert::Report,
        Insert::Failed => AfterInsert::Fail,
    }
}

/// The redirects that a list of entries holds.
pub open spec fn redirects_of(entries: Seq<RedirectEntry>) -> Seq<RedirectRow> {
    entries.map_values(|e: RedirectEntry| e@)
}

/// The first redirect from the given title.
pub open spec fn find_redirect(redirects: Seq<RedirectRow>, title: Seq<char>) -> Option<RedirectRow>
    decreases redirects.len(),
{
    if redirects.len() == 0 {
        None
    } else if redirects[0].redirect_from == title {
        Some(redirects[0])
    } else {
        find_redirect(redirects.drop_first(), title)
    }
}

/// The title that stands for the given one: where its redirect leads, or itself without one.
pub open spec fn resolved(redirects: Seq<RedirectRow>, title: Seq<char>) -> Seq<char> {
    match find_redirect(redirects, title) {
        Some(redirect) => redirect.redirect_to,
        None => title,
    }
}

/// Looks a redirect up in the given entries: the first from the title. To find none is no error.
pub fn lookup_redirect_entry<'a>(entries: &'a Vec<RedirectEntry>, title: &String) -> (found: Option<
    &'a RedirectEntry,
>)
    ensures
        match found {
            Some(entry) => find_redirect(redirects_of(entries@), title@) == Some(entry@),
            None => find_redirect(redirects_of(entries@), title@) is None,
        },
        match found {
            Some(entry) => entry.redirect_from@ == title@ && exists|i: int|
                0 <= i < entries@.len() && entry == #[trigger] entries@[i] && forall|j: int|
                    0 <= j < i ==> (#[trigger] entries@[j]).redirect_from@ != title@,
            None => forall|i: int|
                0 <= i < entries@.len() ==> (#[trigger] entries@[i]).redirect_from@ != title@,
        },
{
    let mut i: usize = 0;
    assert(redirects_of(entries@).skip(0) =~= redirects_of(entries@));
    while i < entries.len()
        invariant
            i <= entries@.len(),
            forall|j: int| 0 <= j < i ==> (#[trigger] entries@[j]).redirect_from@ != title@,
            find_redirect(redirects_of(entries@), title@) == find_redirect(
                redirects_of(entries@).skip(i as int),
                title@,
            ),
        decreases entries@.len() - i,
    {
        let ghost rest = redirects_of(entries@).skip(i as int);
        assert(rest[0] == entries@[i as int]@);
        if entries[i].redirect_from == *title {
            assert(entries@[i as int].redirect_from@ == title@);
            return Some(&entries[i]);
        }
        assert(rest.drop_first() =~= redirects_of(entries@).skip(i + 1));
        i += 1;
    }
    None
}

/// The title to look up for the given one.
pub fn resolve_title(redirects: &Vec<RedirectEntry>, title: &String) -> (found: String)
    ensures
        found@ == resolved(redirects_of(redirects@), title@),
{
    match lookup_redirect_entry(redirects, title) {
        Some(redirect) => redirect.redirect_to.clone(),
        None => title.clone(),
    }
}

/// Looks a title up: the page that its redirect leads to, or its own page without a redirect.
/// A redirect to no page leads to none, though there were a page of the title itself.
pub fn lookup_with_redirects<'a>(
    entries: &'a Vec<LookupEntry>,
    redirects: &Vec<RedirectEntry>,
    title: &String,
) -> (found: Option<&'a LookupEntry>)
    ensures
        match found {
            Some(entry) => find_row(
                rows_of(entries@),
                resolved(redirects_of(redirects@), title@),
            ) == Some(entry@),
            None => find_row(
                rows_of(entries@),
                resolved(redirects_of(redirects@), title@),
            ) is None,
        },
{
    let title = resolve_title(redirects, title);
    look_up_lookup_entry(entries, &title)
}

/// A redirect that is found is one of the table and leads from the title that was asked for, the
/// first that does. Nothing is found exactly where no redirect leads from it.
pub proof fn law_found_redirect_leads_from_the_title(redirects: Seq<RedirectRow>, title: Seq<char>)
    ensures
        match find_redirect(redirects, title) {
            Some(row) => row.redirect_from == title && exists|i: int|
                0 <= i < redirects.len() && row == #[trigger] redirects[i] && forall|j: int|
                    0 <= j < i ==> (#[trigger] redirects[j]).redirect_from != title,
            None => forall|i: int|
                0 <= i < redirects.len() ==> (#[trigger] redirects[i]).redirect_from != title,
        },
    decreases redirects.len(),
{
    if redirects.len() != 0 {
        if redirects[0].redirect_from != title {
            let rest = redirects.drop_first();
            law_found_redirect_leads_from_the_title(rest, title);
            match find_redirect(rest, title) {
                Some(row) => {
                    let i = choose|i: int|
                        0 <= i < rest.len() && row == #[trigger] rest[i] && forall|j: int|
                            0 <= j < i ==> (#[trigger] rest[j]).redirect_from != title;
                    assert(redirects[i + 1] == row);
                    assert forall|j: int| 0 <= j < i + 1 implies (
                    #[trigger] redirects[j]).redirect_from != title by {
                        if j > 0 {
                            assert(redirects[j] == rest[j - 1]);
                        }
                    }
                },
                None => {
                    assert forall|i: int| 0 <= i < redirects.len() implies (
                    #[trigger] redirects[i]).redirect_from != title by {
                        if i > 0 {
                            assert(redirects[i] == rest[i - 1]);
                        }
                    }
                },
            }
        }
    }
}

/// A title with a redirect stands for where its first redirect leads, which is not followed any
/// further.
pub proof fn law_redirected_title(redirects: Seq<RedirectRow>, at: int)
    requires
        0 <= at < redirects.len(),
        forall|j: int|
            0 <= j < at ==> (#[trigger] redirects[j]).redirect_from != redirects[at].redirect_from,
    ensures
        resolved(redirects, redirects[at].redirect_from) == redirects[at].redirect_to,
{
    let title = redirects[at].redirect_from;
    law_found_redirect_leads_from_the_title(redirects, title);
    if let Some(row) = find_redirect(redirects, title) {
        let i = choose|i: int|
            0 <= i < redirects.len() && row == #[trigger] redirects[i] && forall|j: int|
                0 <= j < i ==> (#[trigger] redirects[j]).redirect_from != title;
        assert(redirects[i].redirect_from == title);
        assert(i == at);
    }
}

/// A title from which no redirect leads stands for itself.
pub proof fn law_title_without_redirect(redirects: Seq<RedirectRow>, title: Seq<char>)
    requires
        forall|i: int| 0 <= i < redirects.len() ==> (#[trigger] redirects[i]).redirect_from != title,
    ensures
        resolved(redirects, title) == title,
{
    law_found_redirect_leads_from_the_title(redirects, title);
}

/// The rows of redirects hold what their entries hold.
pub proof fn law_redirects_of_entries(entries: Seq<RedirectEntry>, i: int)
    requires
        0 <= i < entries.len(),
    ensures
        redirects_of(entries).len() == entries.len(),
        redirects_of(entries)[i].redirect_from == entries[i].redirect_from@,
        redirects_of(entries)[i].redirect_to == entries[i].redirect_to@,
{
}

} // verus!
