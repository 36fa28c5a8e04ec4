//! The SQL of the catalog listings, assembled as text pieces and bound
//! parameters: which rows a listing reads (visibility, name search, cursor)
//! and in which order.
use vstd::prelude::*;
use vstd::string::*;

use crate::pagination::{cursor_limit, Page};
use crate::validation::{like_escape, search_pattern};

verus! {

/// A piece of a query: SQL text, or a bound parameter.
pub enum QueryPart {
    Sql(&'static str),
    Text(String),
    Int(i64),
    /// A timestamp in Unix microseconds.
    Timestamp(i64),
}

/// The content of a query piece.
pub enum PartView {
    Sql(Seq<char>),
    Text(Seq<char>),
    Int(int),
    Timestamp(int),
}

pub open spec fn part_view(p: QueryPart) -> PartView {
    match p {
        QueryPart::Sql(s) => PartView::Sql(s@),
        QueryPart::Text(t) => PartView::Text(t@),
        QueryPart::Int(i) => PartView::Int(i as int),
        QueryPart::Timestamp(t) => PartView::Timestamp(t as int),
    }
}

pub open spec fn parts_view(v: Seq<QueryPart>) -> Seq<PartView> {
    v.map_values(|p: QueryPart| part_view(p))
}

/// Which rows a listing shows by whether they are publicly visible.
#[derive(Debug, Clone, Copy, PartialEq, Eq, Structural)]
pub enum Visibility {
    /// Only visible rows (the default).
    Exclude,
    /// All rows.
    Include,
    /// Only rows that are not visible.
    Only,
}

fn push_part(parts: &mut Vec<QueryPart>, p: QueryPart)
    ensures
        parts_view(final(parts)@) == parts_view(old(parts)@).push(part_view(p)),
{
    let ghost before = parts@;
    parts.push(p);
    assert(parts_view(parts@) =~= parts_view(before).push(part_view(p)));
}

/// A name filter on `column_clause` (which ends with `ILIKE `) when there is
/// a nonempty search text: the text as an escaped substring pattern.
pub open spec fn search_parts(column_clause: Seq<char>, search: Option<Seq<char>>) -> Seq<PartView> {
    match search {
        Some(q) => if q.len() > 0 {
            seq![
                PartView::Sql(column_clause),
                PartView::Text(seq!['%'] + like_escape(q) + seq!['%']),
            ]
        } else {
            Seq::empty()
        },
        None => Seq::empty(),
    }
}

pub open spec fn opt_view(o: Option<&str>) -> Option<Seq<char>> {
    match o {
        Some(s) => Some(s@),
        None => None,
    }
}

fn push_search(parts: &mut Vec<QueryPart>, column_clause: &'static str, search: Option<&str>)
    ensures
        parts_view(final(parts)@) == parts_view(old(parts)@) + search_parts(
            column_clause@,
            opt_view(search),
        ),
{
    let ghost before = parts_view(parts@);
    if let Some(q) = search {
        if let Some(pattern) = search_pattern(q) {
            push_part(parts, QueryPart::Sql(column_clause));
            push_part(parts, QueryPart::Text(pattern));
            assert(parts_view(parts@) =~= before + search_parts(column_clause@, opt_view(search)));
            return ;
        }
    }
    assert(parts_view(parts@) =~= before + search_parts(column_clause@, opt_view(search)));
}

/// A keyset condition `(ts_column, id) < (ts, id)` on a cursor.
pub open spec fn cursor_parts(open_clause: Seq<char>, after: Option<(i64, Seq<char>)>) -> Seq<
    PartView,
> {
    match after {
        Some((ts, id)) => seq![
            PartView::Sql(open_clause),
            PartView::Timestamp(ts as int),
            PartView::Sql(", "@),
            PartView::Text(id),
            PartView::Sql(")"@),
        ],
        None => Seq::empty(),
    }
}

pub open spec fn after_view(after: Option<(i64, String)>) -> Option<(i64, Seq<char>)> {
    match after {
        Some((ts, id)) => Some((ts, id@)),
        None => None,
    }
}

fn push_cursor(parts: &mut Vec<QueryPart>, open_clause: &'static str, after: Option<(i64, String)>)
    ensures
        parts_view(final(parts)@) == parts_view(old(parts)@) + cursor_parts(
            open_clause@,
            after_view(after),
        ),
{
    let ghost before = parts_view(parts@);
    let ghost av = after_view(after);
    match after {
        Some((ts, id)) => {
            push_part(parts, QueryPart::Sql(open_clause));
            push_part(parts, QueryPart::Timestamp(ts));
            push_part(parts, QueryPart::Sql(", "));
            push_part(parts, QueryPart::Text(id));
            push_part(parts, QueryPart::Sql(")"));
        },
        None => {},
    }
    assert(parts_view(parts@) =~= before + cursor_parts(open_clause@, av));
}

// ---------------------------------------------------------------------------
// Shaders
// ---------------------------------------------------------------------------

/// Sort clause of the paged shader listing: `name`, `updated`, otherwise
/// (and by default) popularity.
pub open spec fn shader_page_order(sort: Option<Seq<char>>) -> Seq<char> {
    match sort {
        Some(s) => if s == "name"@ {
            " ORDER BY s.name ASC"@
        } else if s == "updated"@ {
            " ORDER BY s.updated_at DESC"@
        } else {
            " ORDER BY s.view_count DESC, s.upstream_downloads DESC NULLS LAST"@
        },
        None => " ORDER BY s.view_count DESC, s.upstream_downloads DESC NULLS LAST"@,
    }
}

/// The paged shader listing: visible shaders only when captures are
/// required, the total in every row, optional name search, sort, page window.
pub open spec fn shader_page_parts(
    require_captures: bool,
    search: Option<Seq<char>>,
    sort: Option<Seq<char>>,
    page: Page,
) -> Seq<PartView> {
    let base = if require_captures {
        "SELECT s.*, COUNT(*) OVER() AS total FROM visible_shaders s WHERE s.deleted_at IS NULL"@
    } else {
        "SELECT s.*, COUNT(*) OVER() AS total FROM shaders s WHERE s.deleted_at IS NULL"@
    };
    seq![PartView::Sql(base)] + search_parts(" AND s.name ILIKE "@, search) + seq![
        PartView::Sql(shader_page_order(sort)),
        PartView::Sql(" LIMIT "@),
        PartView::Int(page.page_size as int),
        PartView::Sql(" OFFSET "@),
        PartView::Int(page.offset as i64 as int),
    ]
}

fn str_is(a: &str, b: &str) -> (res: bool)
    ensures
        res == (a@ == b@),
{
    crate::text::str_eq(a, b)
}

pub fn shader_page_query(require_captures: bool, search: Option<&str>, sort: Option<&str>, page: &Page) -> (res:
    Vec<QueryPart>)
    ensures
        parts_view(res@) == shader_page_parts(require_captures, opt_view(search), opt_view(sort), *page),
{
    let mut parts: Vec<QueryPart> = Vec::new();
    let base = if require_captures {
        "SELECT s.*, COUNT(*) OVER() AS total FROM visible_shaders s WHERE s.deleted_at IS NULL"
    } else {
        "SELECT s.*, COUNT(*) OVER() AS total FROM shaders s WHERE s.deleted_at IS NULL"
    };
    push_part(&mut parts, QueryPart::Sql(base));
    push_search(&mut parts, " AND s.name ILIKE ", search);
    let order = match sort {
        Some(s) => if str_is(s, "name") {
            " ORDER BY s.name ASC"
        } else if str_is(s, "updated") {
            " ORDER BY s.updated_at DESC"
        } else {
            " ORDER BY s.view_count DESC, s.upstream_downloads DESC NULLS LAST"
        },
        None => " ORDER BY s.view_count DESC, s.upstream_downloads DESC NULLS LAST",
    };
    push_part(&mut parts, QueryPart::Sql(order));
    push_part(&mut parts, QueryPart::Sql(" LIMIT "));
    push_part(&mut parts, QueryPart::Int(page.limit_i64()));
    push_part(&mut parts, QueryPart::Sql(" OFFSET "));
    push_part(&mut parts, QueryPart::Int(page.offset_i64()));
    assert(parts_view(parts@) =~= shader_page_parts(
        require_captures,
        opt_view(search),
        opt_view(sort),
        *page,
    ));
    parts
}

/// The shader rows a visibility selects, for listing or counting.
pub open spec fn shader_source(visibility: Visibility, count: bool) -> Seq<char> {
    match (visibility, count) {
        (Visibility::Exclude, false) => "SELECT s.* FROM visible_shaders s WHERE TRUE"@,
        (Visibility::Include, false) => "SELECT s.* FROM shaders s WHERE s.deleted_at IS NULL"@,
        (Visibility::Only, false) =>
            "SELECT s.* FROM shaders s WHERE s.deleted_at IS NULL AND s.id NOT IN (SELECT id FROM visible_shaders)"@,
        (Visibility::Exclude, true) => "SELECT COUNT(*) FROM visible_shaders s WHERE TRUE"@,
        (Visibility::Include, true) => "SELECT COUNT(*) FROM shaders s WHERE s.deleted_at IS NULL"@,
        (Visibility::Only, true) =>
            "SELECT COUNT(*) FROM shaders s WHERE s.deleted_at IS NULL AND s.id NOT IN (SELECT id FROM visible_shaders)"@,
    }
}

fn shader_source_exec(visibility: Visibility, count: bool) -> (res: &'static str)
    ensures
        res@ == shader_source(visibility, count),
{
    match (visibility, count) {
        (Visibility::Exclude, false) => "SELECT s.* FROM visible_shaders s WHERE TRUE",
        (Visibility::Include, false) => "SELECT s.* FROM shaders s WHERE s.deleted_at IS NULL",
        (Visibility::Only, false) =>
            "SELECT s.* FROM shaders s WHERE s.deleted_at IS NULL AND s.id NOT IN (SELECT id FROM visible_shaders)",
        (Visibility::Exclude, true) => "SELECT COUNT(*) FROM visible_shaders s WHERE TRUE",
        (Visibility::Include, true) => "SELECT COUNT(*) FROM shaders s WHERE s.deleted_at IS NULL",
        (Visibility::Only, true) =>
            "SELECT COUNT(*) FROM shaders s WHERE s.deleted_at IS NULL AND s.id NOT IN (SELECT id FROM visible_shaders)",
    }
}

/// Sort clause of the shader cursor listing: `popular`, `name`, otherwise
/// (and by default) newest first; ties are broken by id.
pub open spec fn shader_cursor_order(sort: Option<Seq<char>>) -> Seq<char> {
    match sort {
        Some(s) => if s == "popular"@ {
            " ORDER BY s.view_count DESC, s.upstream_downloads DESC NULLS LAST, s.created_at DESC, s.id DESC"@
        } else if s == "name"@ {
            " ORDER BY s.name ASC, s.created_at DESC, s.id DESC"@
        } else {
            " ORDER BY s.created_at DESC, s.id DESC"@
        },
        None => " ORDER BY s.created_at DESC, s.id DESC"@,
    }
}

/// The shader cursor listing: one more row than the limit is read, to tell
/// whether there is a next page.
pub open spec fn shader_cursor_parts(
    visibility: Visibility,
    search: Option<Seq<char>>,
    after: Option<(i64, Seq<char>)>,
    sort: Option<Seq<char>>,
    limit: int,
) -> Seq<PartView> {
    seq![PartView::Sql(shader_source(visibility, false))] + search_parts(" AND s.name ILIKE "@, search)
        + cursor_parts(" AND (s.created_at, s.id) < ("@, after) + seq![
        PartView::Sql(shader_cursor_order(sort)),
        PartView::Sql(" LIMIT "@),
        PartView::Int(limit + 1),
    ]
}

pub fn shader_cursor_query(
    visibility: Visibility,
    search: Option<&str>,
    after: Option<(i64, String)>,
    sort: Option<&str>,
    first: i32,
) -> (res: Vec<QueryPart>)
    ensures
        parts_view(res@) == shader_cursor_parts(
            visibility,
            opt_view(search),
            after_view(after),
            opt_view(sort),
            if first < 1 { 1 } else if first > 100 { 100 } else { first as int },
        ),
{
    let ghost av = after_view(after);
    let limit = cursor_limit(first);
    let mut parts: Vec<QueryPart> = Vec::new();
    push_part(&mut parts, QueryPart::Sql(shader_source_exec(visibility, false)));
    push_search(&mut parts, " AND s.name ILIKE ", search);
    push_cursor(&mut parts, " AND (s.created_at, s.id) < (", after);
    let order = match sort {
        Some(s) => if str_is(s, "popular") {
            " ORDER BY s.view_count DESC, s.upstream_downloads DESC NULLS LAST, s.created_at DESC, s.id DESC"
        } else if str_is(s, "name") {
            " ORDER BY s.name ASC, s.created_at DESC, s.id DESC"
        } else {
            " ORDER BY s.created_at DESC, s.id DESC"
        },
        None => " ORDER BY s.created_at DESC, s.id DESC",
    };
    push_part(&mut parts, QueryPart::Sql(order));
    push_part(&mut parts, QueryPart::Sql(" LIMIT "));
    push_part(&mut parts, QueryPart::Int(limit + 1));
    assert(parts_view(parts@) =~= shader_cursor_parts(
        visibility,
        opt_view(search),
        av,
        opt_view(sort),
        limit as int,
    ));
    parts
}

/// The count of the shader cursor listing (visibility and search, no cursor).
pub open spec fn shader_count_parts(visibility: Visibility, search: Option<Seq<char>>) -> Seq<
    PartView,
> {
    seq![PartView::Sql(shader_source(visibility, true))] + search_parts(" AND s.name ILIKE "@, search)
}

pub fn shader_count_query(visibility: Visibility, search: Option<&str>) -> (res: Vec<QueryPart>)
    ensures
        parts_view(res@) == shader_count_parts(visibility, opt_view(search)),
{
    let mut parts: Vec<QueryPart> = Vec::new();
    push_part(&mut parts, QueryPart::Sql(shader_source_exec(visibility, true)));
    push_search(&mut parts, " AND s.name ILIKE ", search);
    assert(parts_view(parts@) =~= shader_count_parts(visibility, opt_view(search)));
    parts
}

// ---------------------------------------------------------------------------
// Authors
// ---------------------------------------------------------------------------

/// Keyset condition of the author listing after `(value, name)`: by name
/// for the `name` sort, else by shader count (`shaders`) or total views.
pub open spec fn author_after_parts(sort: Option<Seq<char>>, after: Option<(i64, Seq<char>)>) -> Seq<
    PartView,
> {
    match after {
        Some((v, name)) => {
            let key = match sort {
                Some(s) => s,
                None => "popular"@,
            };
            if key == "name"@ {
                seq![PartView::Sql(" AND name > "@), PartView::Text(name)]
            } else if key == "shaders"@ {
                seq![
                    PartView::Sql(" AND (shader_count, name) < ("@),
                    PartView::Int(v as int),
                    PartView::Sql(", "@),
                    PartView::Text(name),
                    PartView::Sql(")"@),
                ]
            } else {
                seq![
                    PartView::Sql(" AND (total_views, name) < ("@),
                    PartView::Int(v as int),
                    PartView::Sql(", "@),
                    PartView::Text(name),
                    PartView::Sql(")"@),
                ]
            }
        },
        None => Seq::empty(),
    }
}

/// Sort clause of the author listing: `name`, `shaders`, otherwise (and by
/// default) total views; ties by name.
pub open spec fn author_order(sort: Option<Seq<char>>) -> Seq<char> {
    let key = match sort {
        Some(s) => s,
        None => "popular"@,
    };
    if key == "name"@ {
        " ORDER BY name ASC"@
    } else if key == "shaders"@ {
        " ORDER BY shader_count DESC, name ASC"@
    } else {
        " ORDER BY total_views DESC, name ASC"@
    }
}

pub open spec fn author_cursor_parts(
    search: Option<Seq<char>>,
    after: Option<(i64, Seq<char>)>,
    sort: Option<Seq<char>>,
    limit: int,
) -> Seq<PartView> {
    seq![PartView::Sql("SELECT * FROM author_aggregates WHERE TRUE"@)] + search_parts(
        " AND name ILIKE "@,
        search,
    ) + author_after_parts(sort, after) + seq![
        PartView::Sql(author_order(sort)),
        PartView::Sql(" LIMIT "@),
        PartView::Int(limit + 1),
    ]
}

pub fn author_cursor_query(
    search: Option<&str>,
    after: Option<(i64, String)>,
    sort: Option<&str>,
    first: i32,
) -> (res: Vec<QueryPart>)
    ensures
        parts_view(res@) == author_cursor_parts(
            opt_view(search),
            after_view(after),
            opt_view(sort),
            if first < 1 { 1 } else if first > 100 { 100 } else { first as int },
        ),
{
    let ghost av = after_view(after);
    let limit = cursor_limit(first);
    let key = match sort {
        Some(s) => s,
        None => "popular",
    };
    proof {
        reveal_strlit("popular");
    }
    let mut parts: Vec<QueryPart> = Vec::new();
    push_part(&mut parts, QueryPart::Sql("SELECT * FROM author_aggregates WHERE TRUE"));
    push_search(&mut parts, " AND name ILIKE ", search);
    let ghost mid = parts_view(parts@);
    match after {
        Some((v, name)) => {
            if str_is(key, "name") {
                push_part(&mut parts, QueryPart::Sql(" AND name > "));
                push_part(&mut parts, QueryPart::Text(name));
            } else {
                let open = if str_is(key, "shaders") {
                    " AND (shader_count, name) < ("
                } else {
                    " AND (total_views, name) < ("
                };
                push_part(&mut parts, QueryPart::Sql(open));
                push_part(&mut parts, QueryPart::Int(v));
                push_part(&mut parts, QueryPart::Sql(", "));
                push_part(&mut parts, QueryPart::Text(name));
                push_part(&mut parts, QueryPart::Sql(")"));
            }
        },
        None => {},
    }
    assert(parts_view(parts@) =~= mid + author_after_parts(opt_view(sort), av));
    let order = if str_is(key, "name") {
        " ORDER BY name ASC"
    } else if str_is(key, "shaders") {
        " ORDER BY shader_count DESC, name ASC"
    } else {
        " ORDER BY total_views DESC, name ASC"
    };
    push_part(&mut parts, QueryPart::Sql(order));
    push_part(&mut parts, QueryPart::Sql(" LIMIT "));
    push_part(&mut parts, QueryPart::Int(limit + 1));
    assert(parts_view(parts@) =~= author_cursor_parts(
        opt_view(search),
        av,
        opt_view(sort),
        limit as int,
    ));
    parts
}

pub open spec fn author_count_parts(search: Option<Seq<char>>) -> Seq<PartView> {
    seq![PartView::Sql("SELECT COUNT(*) FROM author_aggregates WHERE TRUE"@)] + search_parts(
        " AND name ILIKE "@,
        search,
    )
}

pub fn author_count_query(search: Option<&str>) -> (res: Vec<QueryPart>)
    ensures
        parts_view(res@) == author_count_parts(opt_view(search)),
{
    let mut parts: Vec<QueryPart> = Vec::new();
    push_part(&mut parts, QueryPart::Sql("SELECT COUNT(*) FROM author_aggregates WHERE TRUE"));
    push_search(&mut parts, " AND name ILIKE ", search);
    assert(parts_view(parts@) =~= author_count_parts(opt_view(search)));
    parts
}

/// The shaders of one author, most viewed first.
pub open spec fn author_shaders_parts(author: Seq<char>, after: Option<(i64, Seq<char>)>, limit: int) -> Seq<
    PartView,
> {
    seq![
        PartView::Sql(
            "SELECT DISTINCT s.* FROM visible_shaders s\n             JOIN shader_authors sa ON sa.shader_id = s.id\n             WHERE sa.name = "@,
        ),
        PartView::Text(author),
    ] + cursor_parts(" AND (s.created_at, s.id) < ("@, after) + seq![
        PartView::Sql(" ORDER BY s.view_count DESC, s.created_at DESC, s.id DESC"@),
        PartView::Sql(" LIMIT "@),
        PartView::Int(limit + 1),
    ]
}

pub fn author_shaders_query(author: &str, after: Option<(i64, String)>, first: i32) -> (res: Vec<
    QueryPart,
>)
    ensures
        parts_view(res@) == author_shaders_parts(
            author@,
            after_view(after),
            if first < 1 { 1 } else if first > 100 { 100 } else { first as int },
        ),
{
    let ghost av = after_view(after);
    let limit = cursor_limit(first);
    let mut parts: Vec<QueryPart> = Vec::new();
    push_part(
        &mut parts,
        QueryPart::Sql(
            "SELECT DISTINCT s.* FROM visible_shaders s\n             JOIN shader_authors sa ON sa.shader_id = s.id\n             WHERE sa.name = ",
        ),
    );
    push_part(&mut parts, QueryPart::Text(String::from_str(author)));
    push_cursor(&mut parts, " AND (s.created_at, s.id) < (", after);
    push_part(&mut parts, QueryPart::Sql(" ORDER BY s.view_count DESC, s.created_at DESC, s.id DESC"));
    push_part(&mut parts, QueryPart::Sql(" LIMIT "));
    push_part(&mut parts, QueryPart::Int(limit + 1));
    assert(parts_view(parts@) =~= author_shaders_parts(author@, av, limit as int));
    parts
}

// ---------------------------------------------------------------------------
// Scenes
// ---------------------------------------------------------------------------

/// The scene filter of a visibility: active scenes, all, or inactive ones.
pub open spec fn scene_filter(visibility: Visibility) -> Seq<PartView> {
    match visibility {
        Visibility::Exclude => seq![PartView::Sql(" AND active = TRUE"@)],
        Visibility::Include => Seq::empty(),
        Visibility::Only => seq![PartView::Sql(" AND active = FALSE"@)],
    }
}

fn push_scene_filter(parts: &mut Vec<QueryPart>, visibility: Visibility)
    ensures
        parts_view(final(parts)@) == parts_view(old(parts)@) + scene_filter(visibility),
{
    let ghost before = parts_view(parts@);
    match visibility {
        Visibility::Exclude => push_part(parts, QueryPart::Sql(" AND active = TRUE")),
        Visibility::Include => {},
        Visibility::Only => push_part(parts, QueryPart::Sql(" AND active = FALSE")),
    }
    assert(parts_view(parts@) =~= before + scene_filter(visibility));
}

/// The scene cursor listing, newest first.
pub open spec fn scene_cursor_parts(visibility: Visibility, after: Option<(i64, Seq<char>)>, limit: int) -> Seq<
    PartView,
> {
    seq![PartView::Sql("SELECT * FROM scenes WHERE TRUE"@)] + scene_filter(visibility) + cursor_parts(
        " AND (created_at, id) < ("@,
        after,
    ) + seq![PartView::Sql(" ORDER BY created_at DESC, id DESC LIMIT "@), PartView::Int(limit + 1)]
}

pub fn scene_cursor_query(visibility: Visibility, after: Option<(i64, String)>, first: i32) -> (res:
    Vec<QueryPart>)
    ensures
        parts_view(res@) == scene_cursor_parts(
            visibility,
            after_view(after),
            if first < 1 { 1 } else if first > 100 { 100 } else { first as int },
        ),
{
    let ghost av = after_view(after);
    let limit = cursor_limit(first);
    let mut parts: Vec<QueryPart> = Vec::new();
    push_part(&mut parts, QueryPart::Sql("SELECT * FROM scenes WHERE TRUE"));
    push_scene_filter(&mut parts, visibility);
    push_cursor(&mut parts, " AND (created_at, id) < (", after);
    push_part(&mut parts, QueryPart::Sql(" ORDER BY created_at DESC, id DESC LIMIT "));
    push_part(&mut parts, QueryPart::Int(limit + 1));
    assert(parts_view(parts@) =~= scene_cursor_parts(visibility, av, limit as int));
    parts
}

pub open spec fn scene_count_parts(visibility: Visibility) -> Seq<PartView> {
    seq![PartView::Sql("SELECT COUNT(*) FROM scenes WHERE TRUE"@)] + scene_filter(visibility)
}

pub fn scene_count_query(visibility: Visibility) -> (res: Vec<QueryPart>)
    ensures
        parts_view(res@) == scene_count_parts(visibility),
{
    let mut parts: Vec<QueryPart> = Vec::new();
    push_part(&mut parts, QueryPart::Sql("SELECT COUNT(*) FROM scenes WHERE TRUE"));
    push_scene_filter(&mut parts, visibility);
    assert(parts_view(parts@) =~= scene_count_parts(visibility));
    parts
}

/// The sort of the shader cursor listing, whatever the visibility, search,
/// cursor and limit: `name` lists names A to Z, `popular` most viewed first,
/// anything else (or no sort) newest first; ties always go to the newer row
/// and then the larger id.
pub proof fn lemma_shader_cursor_sort(
    visibility: Visibility,
    search: Option<Seq<char>>,
    after: Option<(i64, Seq<char>)>,
    sort: Option<Seq<char>>,
    limit: int,
)
    ensures
        ({
            let p = shader_cursor_parts(visibility, search, after, sort, limit);
            &&& p.len() >= 4
            &&& p[p.len() - 2] == PartView::Sql(" LIMIT "@)
            &&& p[p.len() - 1] == PartView::Int(limit + 1)
            &&& sort == Some("name"@) ==> p[p.len() - 3] == PartView::Sql(
                " ORDER BY s.name ASC, s.created_at DESC, s.id DESC"@,
            )
            &&& sort == Some("popular"@) ==> p[p.len() - 3] == PartView::Sql(
                " ORDER BY s.view_count DESC, s.upstream_downloads DESC NULLS LAST, s.created_at DESC, s.id DESC"@,
            )
            &&& (sort != Some("name"@) && sort != Some("popular"@)) ==> p[p.len() - 3] == PartView::Sql(
                " ORDER BY s.created_at DESC, s.id DESC"@,
            )
            &&& visibility == Visibility::Exclude ==> p[0] == PartView::Sql(
                "SELECT s.* FROM visible_shaders s WHERE TRUE"@,
            )
            &&& visibility == Visibility::Include ==> p[0] == PartView::Sql(
                "SELECT s.* FROM shaders s WHERE s.deleted_at IS NULL"@,
            )
            &&& visibility == Visibility::Only ==> p[0] == PartView::Sql(
                "SELECT s.* FROM shaders s WHERE s.deleted_at IS NULL AND s.id NOT IN (SELECT id FROM visible_shaders)"@,
            )
            &&& after matches Some((ts, id)) ==> p.subrange(p.len() - 8, p.len() - 3) == seq![
                PartView::Sql(" AND (s.created_at, s.id) < ("@),
                PartView::Timestamp(ts as int),
                PartView::Sql(", "@),
                PartView::Text(id),
                PartView::Sql(")"@),
            ]
        }),
{
    reveal_strlit("name");
    reveal_strlit("popular");
    assert("name"@.len() != "popular"@.len());
    let head = seq![PartView::Sql(shader_source(visibility, false))] + search_parts(
        " AND s.name ILIKE "@,
        search,
    ) + cursor_parts(" AND (s.created_at, s.id) < ("@, after);
    let tail = seq![
        PartView::Sql(shader_cursor_order(sort)),
        PartView::Sql(" LIMIT "@),
        PartView::Int(limit + 1),
    ];
    let p = shader_cursor_parts(visibility, search, after, sort, limit);
    assert(p == head + tail);
    assert(p[p.len() - 3] == tail[0]);
    assert(p[p.len() - 2] == tail[1]);
    assert(p[p.len() - 1] == tail[2]);
    assert(p[0] == head[0]);
    if after is Some {
        let c = cursor_parts(" AND (s.created_at, s.id) < ("@, after);
        assert(c.len() == 5);
        assert(p.subrange(p.len() - 8, p.len() - 3) =~= c);
    }
}

/// The sort of the paged shader listing, whatever the page and search:
/// `name` lists names A to Z, `updated` most recently updated first,
/// anything else (or no sort) most viewed first.
pub proof fn lemma_shader_page_sort(
    require_captures: bool,
    search: Option<Seq<char>>,
    sort: Option<Seq<char>>,
    page: Page,
)
    ensures
        ({
            let p = shader_page_parts(require_captures, search, sort, page);
            &&& p.len() >= 6
            &&& p[p.len() - 4] == PartView::Sql(" LIMIT "@)
            &&& sort == Some("name"@) ==> p[p.len() - 5] == PartView::Sql(" ORDER BY s.name ASC"@)
            &&& sort == Some("updated"@) ==> p[p.len() - 5] == PartView::Sql(
                " ORDER BY s.updated_at DESC"@,
            )
            &&& (sort != Some("name"@) && sort != Some("updated"@)) ==> p[p.len() - 5]
                == PartView::Sql(" ORDER BY s.view_count DESC, s.upstream_downloads DESC NULLS LAST"@)
        }),
{
    reveal_strlit("name");
    reveal_strlit("updated");
    assert("name"@.len() != "updated"@.len());
    let base = if require_captures {
        "SELECT s.*, COUNT(*) OVER() AS total FROM visible_shaders s WHERE s.deleted_at IS NULL"@
    } else {
        "SELECT s.*, COUNT(*) OVER() AS total FROM shaders s WHERE s.deleted_at IS NULL"@
    };
    let head = seq![PartView::Sql(base)] + search_parts(" AND s.name ILIKE "@, search);
    let p = shader_page_parts(require_captures, search, sort, page);
    let tail = p.subrange(head.len() as int, p.len() as int);
    assert(p == head + tail);
    assert(tail[0] == PartView::Sql(shader_page_order(sort)));
    assert(tail[1] == PartView::Sql(" LIMIT "@));
    assert(tail.len() == 5);
    assert(p[p.len() - 5] == tail[0]);
    assert(p[p.len() - 4] == tail[1]);
}

} // verus!
