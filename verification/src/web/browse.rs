//! The public listing: its pages, its cursors and the links between its pages.

use axum::http::HeaderMap;
use vstd::prelude::*;
use vstd::string::*;

use crate::config::RuntimeSettings;
use crate::error::{bad_request, AppError};
use crate::links::append_pair;
use crate::model::{FileItem, PageCursor, Paste};
use crate::number::{parse_integer, push_signed_decimal};
use crate::text::{chars_of, find_first, opt_str, string_of, trim, trim_present};
use crate::web::support::htmx_request;

#[allow(unused_imports)]
use crate::error::ErrorView;
#[allow(unused_imports)]
use crate::http::header_values;
#[allow(unused_imports)]
use crate::links::{a_query_keeps_its_pairs_apart, encoded_pairs, form_pair, query_of, with_pair};
#[allow(unused_imports)]
use crate::model::{opt_cursor, CursorView};
#[allow(unused_imports)]
use crate::number::{
    decimal, decimal_reads_back, integer_value, is_digit, other_texts_are_no_numbers,
    signed_decimal, signed_decimal_reads_back,
};
#[allow(unused_imports)]
use crate::text::{
    a_trimmed_text_stays, first_at, is_white_space, lemma_first_at, lemma_first_at_is,
    only_blank_texts_are_trimmed_away, opt_string_view, opt_view, present, split, trimmed,
    trimmed_end, trimmed_start,
};
#[allow(unused_imports)]
use crate::web::support::asks_for_fragment;

verus! {

/// The text of a cursor: the second, a dot, and the identifier.
pub open spec fn cursor_text(cursor: CursorView) -> Seq<char> {
    signed_decimal(cursor.created_at as int) + seq!['.'] + cursor.public_id
}

/// The cursor that a text stands for: what stands before its first dot is the second, what stands
/// behind it the identifier.
pub open spec fn cursor_value(text: Seq<char>) -> Option<CursorView> {
    let dot = first_at(text, '.');
    if dot < text.len() {
        match integer_value(text.take(dot)) {
            Some(created_at) => Some(
                CursorView { created_at, public_id: text.skip(dot + 1) },
            ),
            None => None,
        }
    } else {
        None
    }
}

/// Writes a cursor.
pub fn write_cursor(cursor: &PageCursor) -> (r: String)
    ensures
        r@ == cursor_text(cursor@),
{
    let mut text: String = String::new();
    push_signed_decimal(&mut text, cursor.created_at);
    text.push('.');
    text.append(cursor.public_id.as_str());
    assert(text@ =~= cursor_text(cursor@));
    text
}

/// Reads a cursor.
pub fn read_cursor(text: &str) -> (r: Option<PageCursor>)
    ensures
        opt_cursor(r) == cursor_value(text@),
{
    let cs: Vec<char> = chars_of(text);
    let n: usize = cs.len();
    let dot: usize = find_first(cs.as_slice(), '.');
    if dot >= n {
        return None;
    }
    let front: &[char] = vstd::slice::slice_subrange(cs.as_slice(), 0, dot);
    let back: &[char] = vstd::slice::slice_subrange(cs.as_slice(), dot + 1, n);
    assert(front@ =~= text@.take(dot as int));
    assert(back@ =~= text@.skip(dot + 1));
    match parse_integer(front) {
        Some(created_at) => Some(PageCursor { created_at, public_id: string_of(back) }),
        None => None,
    }
}

/// An optional cursor or an error, each by its view.
pub open spec fn seen_cursor(r: Result<Option<PageCursor>, AppError>) -> Result<
    Option<CursorView>,
    ErrorView,
> {
    match r {
        Ok(c) => Ok(opt_cursor(c)),
        Err(e) => Err(e@),
    }
}

/// What a request says of where a page starts.
pub open spec fn requested_cursor(value: Option<Seq<char>>) -> Result<Option<CursorView>, ErrorView> {
    match present(value) {
        None => Ok(None),
        Some(text) => match cursor_value(text) {
            Some(cursor) => Ok(Some(cursor)),
            None => Err(ErrorView::BadRequest("invalid browse cursor"@)),
        },
    }
}

/// Reads where a page starts. A blank value counts as none.
pub fn parse_cursor(value: Option<&str>) -> (r: Result<Option<PageCursor>, AppError>)
    ensures
        seen_cursor(r) == requested_cursor(opt_view(value)),
{
    match trim_present(value) {
        None => Ok(None),
        Some(text) => match read_cursor(text) {
            Some(cursor) => Ok(Some(cursor)),
            None => Err(bad_request("invalid browse cursor")),
        },
    }
}

/// The pairs of the link to older items.
pub open spec fn older_pairs(
    q: Option<Seq<char>>,
    file: Option<CursorView>,
    paste: Option<CursorView>,
) -> Seq<(Seq<char>, Seq<char>)> {
    let files = match file {
        Some(cursor) => seq![("before_file"@, cursor_text(cursor))],
        None => Seq::empty(),
    };
    let pastes = match paste {
        Some(cursor) => seq![("before_paste"@, cursor_text(cursor))],
        None => Seq::empty(),
    };
    let search = match q {
        Some(q) => seq![("q"@, q)],
        None => Seq::empty(),
    };
    files + pastes + search
}

/// The link to older items.
pub open spec fn older_link(
    q: Option<Seq<char>>,
    file: Option<CursorView>,
    paste: Option<CursorView>,
) -> Seq<char> {
    "/browse?"@ + query_of(older_pairs(q, file, paste))
}

/// The view of an optional cursor that is borrowed.
pub open spec fn opt_cursor_ref(c: Option<&PageCursor>) -> Option<CursorView> {
    match c {
        Some(c) => Some(c@),
        None => None,
    }
}

/// A query string of one pair more.
proof fn lemma_query_grows(
    pairs: Seq<(Seq<char>, Seq<char>)>,
    name: Seq<char>,
    value: Seq<char>,
)
    ensures
        query_of(pairs.push((name, value))) == with_pair(query_of(pairs), name, value),
{
    assert(pairs.push((name, value)).drop_last() =~= pairs);
}

/// Builds the "older items" link. Values go through form encoding so a search term containing
/// `&` or `#` cannot truncate or rewrite the rest of the query string.
pub fn older_url(
    q: Option<&str>,
    next_file_cursor: Option<&PageCursor>,
    next_paste_cursor: Option<&PageCursor>,
) -> (r: String)
    ensures
        r@ == older_link(
            opt_view(q),
            opt_cursor_ref(next_file_cursor),
            opt_cursor_ref(next_paste_cursor),
        ),
{
    let mut query: String = String::new();
    let ghost mut pairs: Seq<(Seq<char>, Seq<char>)> = Seq::empty();
    assert(query@ =~= query_of(pairs));
    if let Some(cursor) = next_file_cursor {
        let text: String = write_cursor(cursor);
        query = append_pair(query, "before_file", text.as_str());
        proof {
            lemma_query_grows(pairs, "before_file"@, text@);
            pairs = pairs.push(("before_file"@, text@));
        }
    }
    if let Some(cursor) = next_paste_cursor {
        let text: String = write_cursor(cursor);
        query = append_pair(query, "before_paste", text.as_str());
        proof {
            lemma_query_grows(pairs, "before_paste"@, text@);
            pairs = pairs.push(("before_paste"@, text@));
        }
    }
    if let Some(q) = q {
        query = append_pair(query, "q", q);
        proof {
            lemma_query_grows(pairs, "q"@, q@);
            pairs = pairs.push(("q"@, q@));
        }
    }
    assert(pairs =~= older_pairs(
        opt_view(q),
        opt_cursor_ref(next_file_cursor),
        opt_cursor_ref(next_paste_cursor),
    ));
    let mut url: String = "/browse?".to_owned();
    url.append(query.as_str());
    url
}

/// What a request for a page of the listing holds.
#[derive(Debug, Clone)]
pub struct BrowseQuery {
    pub q: Option<String>,
    pub before_file: Option<String>,
    pub before_paste: Option<String>,
}

/// A page of the listing to look up.
#[derive(Debug)]
pub struct BrowsePage {
    pub q: Option<String>,
    pub before_file: Option<PageCursor>,
    pub before_paste: Option<PageCursor>,
    pub limit: i64,
}

/// A page of the listing by the views of its parts.
pub struct BrowsePageView {
    pub q: Option<Seq<char>>,
    pub before_file: Option<CursorView>,
    pub before_paste: Option<CursorView>,
    pub limit: i64,
}

impl View for BrowsePage {
    type V = BrowsePageView;

    open spec fn view(&self) -> BrowsePageView {
        BrowsePageView {
            q: opt_string_view(self.q),
            before_file: opt_cursor(self.before_file),
            before_paste: opt_cursor(self.before_paste),
            limit: self.limit,
        }
    }
}

/// A page or an error, each by its view.
pub open spec fn seen_page(r: Result<BrowsePage, AppError>) -> Result<BrowsePageView, ErrorView> {
    match r {
        Ok(page) => Ok(page@),
        Err(e) => Err(e@),
    }
}

/// The search of a request: as it was typed, unless it is blank.
pub open spec fn search_of(q: Option<Seq<char>>) -> Option<Seq<char>> {
    match q {
        Some(q) if trimmed(q).len() > 0 => Some(q),
        _ => None,
    }
}

/// The number of items of one kind on a page.
pub open spec fn page_limit(page_size: u32) -> i64 {
    if page_size < 1 {
        1
    } else if page_size > 100 {
        100
    } else {
        page_size as i64
    }
}

/// What is to be looked up for a page of the listing.
pub open spec fn page_of(
    settings: &RuntimeSettings,
    q: Option<Seq<char>>,
    before_file: Option<Seq<char>>,
    before_paste: Option<Seq<char>>,
) -> Result<BrowsePageView, ErrorView> {
    if !settings.features.public_browse {
        Err(ErrorView::NotFound)
    } else {
        match (requested_cursor(before_file), requested_cursor(before_paste)) {
            (Err(e), _) => Err(e),
            (Ok(_), Err(e)) => Err(e),
            (Ok(file), Ok(paste)) => Ok(
                BrowsePageView {
                    q: search_of(q),
                    before_file: file,
                    before_paste: paste,
                    limit: page_limit(settings.discovery.page_size),
                },
            ),
        }
    }
}

/// What is to be looked up for a page of the listing.
///
/// Files and pastes are paged by independent queries, so they need independent cursors. A single
/// shared cursor can only be wrong in one of two ways: advancing to the older boundary skips
/// whatever the denser list still had to show, and advancing to the newer one repeats rows the
/// sparser list already returned.
pub fn public_browse(settings: &RuntimeSettings, query: &BrowseQuery) -> (r: Result<
    BrowsePage,
    AppError,
>)
    ensures
        seen_page(r) == page_of(
            settings,
            opt_string_view(query.q),
            opt_string_view(query.before_file),
            opt_string_view(query.before_paste),
        ),
{
    if !settings.features.public_browse {
        return Err(AppError::NotFound);
    }
    let size: u32 = settings.discovery.page_size;
    let limit: i64 = if size < 1 {
        1
    } else if size > 100 {
        100
    } else {
        size as i64
    };
    let q: Option<String> = match &query.q {
        Some(q) => if trim(q.as_str()).is_empty() {
            None
        } else {
            Some(q.as_str().to_owned())
        },
        None => None,
    };
    let before_file: Option<PageCursor> = match parse_cursor(opt_str(&query.before_file)) {
        Ok(cursor) => cursor,
        Err(e) => {
            return Err(e);
        },
    };
    let before_paste: Option<PageCursor> = match parse_cursor(opt_str(&query.before_paste)) {
        Ok(cursor) => cursor,
        Err(e) => {
            return Err(e);
        },
    };
    Ok(BrowsePage { q, before_file, before_paste, limit })
}

/// Where a file stands in the listing.
pub open spec fn place_of_file(file: FileItem) -> CursorView {
    CursorView { created_at: file.created_at, public_id: file.public_id@ }
}

/// Where a paste stands in the listing.
pub open spec fn place_of_paste(paste: Paste) -> CursorView {
    CursorView { created_at: paste.created_at, public_id: paste.public_id@ }
}

/// Where the next page of a listing starts: behind the last item of this one. An exhausted list
/// keeps its previous cursor, so it stays exhausted rather than restarting from the top.
pub open spec fn next_cursor(shown: Seq<CursorView>, before: Option<CursorView>) -> Option<
    CursorView,
> {
    if shown.len() > 0 {
        Some(shown.last())
    } else {
        before
    }
}

/// Where the files of a page stand.
pub open spec fn places_of_files(files: Seq<FileItem>) -> Seq<CursorView> {
    files.map_values(|file: FileItem| place_of_file(file))
}

/// Where the pastes of a page stand.
pub open spec fn places_of_pastes(pastes: Seq<Paste>) -> Seq<CursorView> {
    pastes.map_values(|paste: Paste| place_of_paste(paste))
}

/// A copy of a cursor.
fn same_cursor(cursor: &Option<PageCursor>) -> (r: Option<PageCursor>)
    ensures
        opt_cursor(r) == opt_cursor(*cursor),
{
    match cursor {
        Some(cursor) => Some(
            PageCursor {
                created_at: cursor.created_at,
                public_id: cursor.public_id.as_str().to_owned(),
            },
        ),
        None => None,
    }
}

/// The link from a page to the next one, where there may be more to show.
pub open spec fn link_to_older(
    page: BrowsePageView,
    files: Seq<CursorView>,
    pastes: Seq<CursorView>,
) -> Option<Seq<char>> {
    if files.len() >= page.limit || pastes.len() >= page.limit {
        Some(
            older_link(
                page.q,
                next_cursor(files, page.before_file),
                next_cursor(pastes, page.before_paste),
            ),
        )
    } else {
        None
    }
}

/// The link from a page with these files and pastes to the next one.
pub fn link_to_older_items(page: &BrowsePage, files: &[FileItem], pastes: &[Paste]) -> (r: Option<
    String,
>)
    ensures
        opt_string_view(r) == link_to_older(
            page@,
            places_of_files(files@),
            places_of_pastes(pastes@),
        ),
{
    let has_more: bool = files.len() as i128 >= page.limit as i128 || pastes.len() as i128
        >= page.limit as i128;
    if !has_more {
        return None;
    }
    let file: Option<PageCursor> = if files.len() > 0 {
        let last: &FileItem = &files[files.len() - 1];
        Some(
            PageCursor {
                created_at: last.created_at,
                public_id: last.public_id.as_str().to_owned(),
            },
        )
    } else {
        same_cursor(&page.before_file)
    };
    let paste: Option<PageCursor> = if pastes.len() > 0 {
        let last: &Paste = &pastes[pastes.len() - 1];
        Some(
            PageCursor {
                created_at: last.created_at,
                public_id: last.public_id.as_str().to_owned(),
            },
        )
    } else {
        same_cursor(&page.before_paste)
    };
    Some(older_url(opt_str(&page.q), file.as_ref(), paste.as_ref()))
}

/// The template of a page: the whole page, or the list alone.
pub fn browse_template(headers: &HeaderMap) -> (r: &'static str)
    ensures
        r@ == if asks_for_fragment(header_values(*headers)) {
            "browse_results.html"@
        } else {
            "browse.html"@
        },
{
    if htmx_request(headers) {
        "browse_results.html"
    } else {
        "browse.html"
    }
}

/// A cursor that was written is read back as it was.
pub proof fn cursor_text_reads_back(cursor: CursorView)
    ensures
        cursor_value(cursor_text(cursor)) == Some(cursor),
{
    let front = signed_decimal(cursor.created_at as int);
    let text = cursor_text(cursor);
    lemma_signed_decimal_chars(cursor.created_at as int);
    assert forall|j: int| 0 <= j < front.len() implies text[j] != '.' by {
        assert(text[j] == front[j]);
    }
    assert(text[front.len() as int] == '.');
    lemma_first_at_is(text, '.', front.len() as int);
    assert(text.take(front.len() as int) =~= front);
    assert(text.skip(front.len() + 1int) =~= cursor.public_id);
    signed_decimal_reads_back(cursor.created_at);
}

/// A signed decimal is made of digits, behind a sign or none.
proof fn lemma_signed_decimal_chars(n: int)
    ensures
        signed_decimal(n).len() > 0,
        forall|i: int|
            0 <= i < signed_decimal(n).len() ==> is_digit(#[trigger] signed_decimal(n)[i])
                || signed_decimal(n)[i] == '-',
{
    let digits = decimal(if n < 0 {
        (-n) as nat
    } else {
        n as nat
    });
    decimal_reads_back(if n < 0 {
        (-n) as nat
    } else {
        n as nat
    });
    assert forall|i: int| 0 <= i < signed_decimal(n).len() implies is_digit(
        #[trigger] signed_decimal(n)[i],
    ) || signed_decimal(n)[i] == '-' by {
        if n < 0 && i > 0 {
            assert(signed_decimal(n)[i] == digits[i - 1]);
        } else if n >= 0 {
            assert(signed_decimal(n)[i] == digits[i]);
        }
    }
}

/// The cursor in a link to older items is the one that the next request starts from, unless the
/// identifier in it ends in white space.
pub proof fn a_link_is_followed_from_where_it_points(cursor: CursorView)
    requires
        cursor.public_id.len() > 0 ==> !is_white_space(cursor.public_id.last()),
    ensures
        requested_cursor(Some(cursor_text(cursor))) == Ok::<Option<CursorView>, ErrorView>(
            Some(cursor),
        ),
{
    let text = cursor_text(cursor);
    let front = signed_decimal(cursor.created_at as int);
    lemma_signed_decimal_chars(cursor.created_at as int);
    assert(text[0] == front[0]);
    assert(trimmed_start(text) == text);
    assert(text.last() == if cursor.public_id.len() > 0 {
        cursor.public_id.last()
    } else {
        '.'
    });
    assert(trimmed_end(text) == text);
    cursor_text_reads_back(cursor);
}

/// A list that has nothing more to show stays where it is.
pub proof fn an_exhausted_list_stays_exhausted(before: Option<CursorView>)
    ensures
        next_cursor(Seq::empty(), before) == before,
{
}

/// The two lists move on their own: what one of them shows does not move the cursor of the other.
pub proof fn the_two_lists_page_apart(
    page: BrowsePageView,
    files: Seq<CursorView>,
    pastes: Seq<CursorView>,
)
    requires
        files.len() >= page.limit,
        pastes.len() == 0,
    ensures
        link_to_older(page, files, pastes) == Some(
            older_link(page.q, next_cursor(files, page.before_file), page.before_paste),
        ),
{
}

/// Whatever a search holds, the link to older items keeps it in its own place: cut at the
/// ampersands its query gives back the cursors and the search, each in the encoding of forms.
pub proof fn a_search_cannot_rewrite_the_link(
    q: Option<Seq<char>>,
    file: Option<CursorView>,
    paste: Option<CursorView>,
)
    requires
        older_pairs(q, file, paste).len() > 0,
    ensures
        older_link(q, file, paste) == "/browse?"@ + query_of(older_pairs(q, file, paste)),
        split(query_of(older_pairs(q, file, paste)), '&') == encoded_pairs(
            older_pairs(q, file, paste),
        ),
        q matches Some(q) ==> split(query_of(older_pairs(Some(q), file, paste)), '&').last()
            == form_pair("q"@, q),
{
    let pairs = older_pairs(q, file, paste);
    a_query_keeps_its_pairs_apart(pairs);
    if let Some(q) = q {
        assert(pairs.last() == ("q"@, q));
        assert(encoded_pairs(pairs).last() == form_pair("q"@, q));
    }
}

/// One field of a link to older items, where it has a value.
pub open spec fn link_field(name: Seq<char>, value: Option<Seq<char>>) -> Seq<Seq<char>> {
    match value {
        Some(value) => seq![form_pair(name, value)],
        None => Seq::empty(),
    }
}

/// A page links to older items exactly where one of its lists is as long as a page may be. The
/// fields of the link are where its files go on, where its pastes go on, and the search: each list
/// goes on behind the last of its own items that are shown, by their second and identifier, and
/// where it shows none, from where it stood. What the other list shows does not matter.
pub proof fn each_list_goes_on_behind_its_own_last_item(
    page: BrowsePageView,
    files: Seq<FileItem>,
    pastes: Seq<Paste>,
)
    requires
        page.limit > 0,
    ensures
        ({
            let link = link_to_older(page, places_of_files(files), places_of_pastes(pastes));
            let file = if files.len() > 0 {
                Some(
                    signed_decimal(files.last().created_at as int) + seq!['.']
                        + files.last().public_id@,
                )
            } else {
                match page.before_file {
                    Some(c) => Some(signed_decimal(c.created_at as int) + seq!['.'] + c.public_id),
                    None => None,
                }
            };
            let paste = if pastes.len() > 0 {
                Some(
                    signed_decimal(pastes.last().created_at as int) + seq!['.']
                        + pastes.last().public_id@,
                )
            } else {
                match page.before_paste {
                    Some(c) => Some(signed_decimal(c.created_at as int) + seq!['.'] + c.public_id),
                    None => None,
                }
            };
            &&& link is Some <==> files.len() >= page.limit || pastes.len() >= page.limit
            &&& link matches Some(link) ==> {
                &&& link.take(8) == "/browse?"@
                &&& split(link.skip(8), '&') == link_field("before_file"@, file) + link_field(
                    "before_paste"@,
                    paste,
                ) + link_field("q"@, page.q)
            }
        }),
{
    reveal_strlit("/browse?");
    let places = places_of_files(files);
    let others = places_of_pastes(pastes);
    if files.len() > 0 {
        assert(places.last() == place_of_file(files.last()));
    }
    if pastes.len() > 0 {
        assert(others.last() == place_of_paste(pastes.last()));
    }
    let file = next_cursor(places, page.before_file);
    let paste = next_cursor(others, page.before_paste);
    let pairs = older_pairs(page.q, file, paste);
    if files.len() >= page.limit || pastes.len() >= page.limit {
        let link = link_to_older(page, places, others)->0;
        assert(link.take(8) =~= "/browse?"@);
        assert(link.skip(8) =~= query_of(pairs));
        assert(pairs.len() > 0) by {
            assert(file is Some || paste is Some);
        }
        a_query_keeps_its_pairs_apart(pairs);
        let named = |name: Seq<char>, cursor: Option<CursorView>|
            match cursor {
                Some(c) => Some(cursor_text(c)),
                None => None,
            };
        assert(encoded_pairs(pairs) =~= link_field("before_file"@, named("before_file"@, file))
            + link_field("before_paste"@, named("before_paste"@, paste)) + link_field("q"@, page.q));
    }
}

/// The next page is looked up where the link to it says, each list from its own place, with the
/// search as it was typed and as many items as are configured, but no fewer than one and no more
/// than a hundred.
pub proof fn the_next_page_starts_where_the_link_says(
    settings: &RuntimeSettings,
    q: Seq<char>,
    file: CursorView,
    paste: CursorView,
)
    requires
        settings.features.public_browse,
        exists|i: int| 0 <= i < q.len() && !is_white_space(#[trigger] q[i]),
        file.public_id.len() > 0 ==> !is_white_space(file.public_id.last()),
        paste.public_id.len() > 0 ==> !is_white_space(paste.public_id.last()),
    ensures
        page_of(settings, Some(q), Some(cursor_text(file)), Some(cursor_text(paste))) matches Ok(
            page,
        ) && {
            &&& page.q == Some(q)
            &&& page.before_file == Some(file)
            &&& page.before_paste == Some(paste)
            &&& 1 <= page.limit <= 100
            &&& 1 <= settings.discovery.page_size <= 100 ==> page.limit
                == settings.discovery.page_size
            &&& settings.discovery.page_size > 100 ==> page.limit == 100
        },
{
    a_link_is_followed_from_where_it_points(file);
    a_link_is_followed_from_where_it_points(paste);
    only_blank_texts_are_trimmed_away(q);
}

/// The first page starts at the top of both lists, and there is no page at all where the listing is
/// switched off. A blank search is none.
pub proof fn the_first_page_starts_at_the_top(
    settings: &RuntimeSettings,
    blank: Seq<char>,
    q: Option<Seq<char>>,
    file: Option<Seq<char>>,
    paste: Option<Seq<char>>,
)
    requires
        forall|i: int| 0 <= i < blank.len() ==> is_white_space(#[trigger] blank[i]),
    ensures
        settings.features.public_browse ==> (page_of(settings, None, None, None) matches Ok(page)
            && page.q is None && page.before_file is None && page.before_paste is None),
        page_of(settings, Some(blank), file, paste) == page_of(settings, None, file, paste),
        page_of(settings, q, Some(blank), paste) == page_of(settings, q, None, paste),
        page_of(settings, q, file, Some(blank)) == page_of(settings, q, file, None),
        !settings.features.public_browse ==> page_of(settings, q, file, paste) == Err::<
            BrowsePageView,
            ErrorView,
        >(ErrorView::NotFound),
{
    only_blank_texts_are_trimmed_away(blank);
}

/// A text without a dot, or without a number before its first dot, is no place in a list, and a
/// request that names it is turned down.
pub proof fn other_texts_are_no_cursors(text: Seq<char>, i: int)
    requires
        0 <= i < text.len(),
        !is_white_space(text[0]) && !is_white_space(text.last()),
        forall|j: int| 0 <= j < i ==> text[j] != '.',
        text[i] != '.' && text[i] != '-' && text[i] != '+' && !('0' <= text[i] <= '9'),
    ensures
        requested_cursor(Some(text)) matches Err(e) && e is BadRequest,
{
    a_trimmed_text_stays(text);
    lemma_first_at(text, '.');
    let dot = first_at(text, '.');
    if dot < text.len() {
        assert(i < dot) by {
            if dot <= i {
                assert(text[dot] == '.');
            }
        }
        assert(text.take(dot)[i] == text[i]);
        other_texts_are_no_numbers(text.take(dot), i);
    }
}

} // verus!
