use glint::listing::{
    author_count_query, author_cursor_query, author_shaders_query, scene_count_query,
    scene_cursor_query, shader_count_query, shader_cursor_query, shader_page_query, QueryPart,
    Visibility,
};
use glint::pagination::PageQuery;

/// A query with its parameters written in place, for comparison.
fn render(parts: &[QueryPart]) -> String {
    let mut s = String::new();
    for p in parts {
        match p {
            QueryPart::Sql(t) => s.push_str(t),
            QueryPart::Text(t) => s.push_str(&format!("<{t}>")),
            QueryPart::Int(i) => s.push_str(&format!("<{i}>")),
            QueryPart::Timestamp(t) => s.push_str(&format!("<ts {t}>")),
        }
    }
    s
}

#[test]
fn shader_page_queries() {
    let page = PageQuery { page: Some(3), page_size: Some(20) }.normalize();
    assert_eq!(
        render(&shader_page_query(true, Some("50%"), Some("name"), &page)),
        "SELECT s.*, COUNT(*) OVER() AS total FROM visible_shaders s WHERE s.deleted_at IS NULL AND s.name ILIKE <%50\\%%> ORDER BY s.name ASC LIMIT <20> OFFSET <40>"
    );
    assert_eq!(
        render(&shader_page_query(false, Some(""), Some("bogus"), &page)),
        "SELECT s.*, COUNT(*) OVER() AS total FROM shaders s WHERE s.deleted_at IS NULL ORDER BY s.view_count DESC, s.upstream_downloads DESC NULLS LAST LIMIT <20> OFFSET <40>"
    );
    assert!(render(&shader_page_query(false, None, Some("updated"), &page)).contains(" ORDER BY s.updated_at DESC "));
}

#[test]
fn shader_cursor_queries() {
    assert_eq!(
        render(&shader_cursor_query(Visibility::Exclude, None, None, None, 500)),
        "SELECT s.* FROM visible_shaders s WHERE TRUE ORDER BY s.created_at DESC, s.id DESC LIMIT <101>"
    );
    assert_eq!(
        render(&shader_cursor_query(
            Visibility::Only,
            Some("bsl"),
            Some((1_700_000_000_000_000, "01HX".to_string())),
            Some("popular"),
            10
        )),
        "SELECT s.* FROM shaders s WHERE s.deleted_at IS NULL AND s.id NOT IN (SELECT id FROM visible_shaders) AND s.name ILIKE <%bsl%> AND (s.created_at, s.id) < (<ts 1700000000000000>, <01HX>) ORDER BY s.view_count DESC, s.upstream_downloads DESC NULLS LAST, s.created_at DESC, s.id DESC LIMIT <11>"
    );
    assert_eq!(
        render(&shader_count_query(Visibility::Include, Some("a_b"))),
        "SELECT COUNT(*) FROM shaders s WHERE s.deleted_at IS NULL AND s.name ILIKE <%a\\_b%>"
    );
}

#[test]
fn author_queries() {
    assert_eq!(
        render(&author_cursor_query(None, Some((42, "Sildur".to_string())), Some("shaders"), 0)),
        "SELECT * FROM author_aggregates WHERE TRUE AND (shader_count, name) < (<42>, <Sildur>) ORDER BY shader_count DESC, name ASC LIMIT <2>"
    );
    assert_eq!(
        render(&author_cursor_query(Some("x"), Some((42, "Sildur".to_string())), Some("name"), 5)),
        "SELECT * FROM author_aggregates WHERE TRUE AND name ILIKE <%x%> AND name > <Sildur> ORDER BY name ASC LIMIT <6>"
    );
    assert_eq!(
        render(&author_cursor_query(None, Some((7, "B".to_string())), None, 5)),
        "SELECT * FROM author_aggregates WHERE TRUE AND (total_views, name) < (<7>, <B>) ORDER BY total_views DESC, name ASC LIMIT <6>"
    );
    assert_eq!(render(&author_count_query(None)), "SELECT COUNT(*) FROM author_aggregates WHERE TRUE");
    assert_eq!(
        render(&author_shaders_query("Capt Tatsu", None, 3)),
        "SELECT DISTINCT s.* FROM visible_shaders s\n             JOIN shader_authors sa ON sa.shader_id = s.id\n             WHERE sa.name = <Capt Tatsu> ORDER BY s.view_count DESC, s.created_at DESC, s.id DESC LIMIT <4>"
    );
}

#[test]
fn scene_queries() {
    assert_eq!(
        render(&scene_cursor_query(Visibility::Exclude, Some((5, "s1".to_string())), 20)),
        "SELECT * FROM scenes WHERE TRUE AND active = TRUE AND (created_at, id) < (<ts 5>, <s1>) ORDER BY created_at DESC, id DESC LIMIT <21>"
    );
    assert_eq!(
        render(&scene_cursor_query(Visibility::Include, None, 1)),
        "SELECT * FROM scenes WHERE TRUE ORDER BY created_at DESC, id DESC LIMIT <2>"
    );
    assert_eq!(render(&scene_count_query(Visibility::Only)), "SELECT COUNT(*) FROM scenes WHERE TRUE AND active = FALSE");
}
