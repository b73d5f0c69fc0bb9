use media_vault::queries::{
    description_page_index, description_page_sql, filter_where_clause, filtered_count_sql, filtered_ids_sql,
    media_index_sql,
};

const NO_DESC: &str = "NOT EXISTS (SELECT 1 FROM tags t WHERE t.media_id = m.id AND t.key = 'description')";
const NO_TAGS: &str =
    "NOT EXISTS (SELECT 1 FROM tags t WHERE t.media_id = m.id AND t.key NOT IN ('description', 'media_type'))";

#[test]
fn where_clause_follows_the_filters() {
    assert_eq!(filter_where_clause(false, false), "m.processed = 1");
    assert_eq!(filter_where_clause(true, false), format!("m.processed = 1 AND {NO_DESC}"));
    assert_eq!(filter_where_clause(false, true), format!("m.processed = 1 AND {NO_TAGS}"));
    assert_eq!(filter_where_clause(true, true), format!("m.processed = 1 AND {NO_DESC} AND {NO_TAGS}"));
}

#[test]
fn listing_queries() {
    assert_eq!(
        filtered_ids_sql(false, false),
        "SELECT m.id FROM media m WHERE m.processed = 1 ORDER BY m.imported_at ASC"
    );
    assert_eq!(filtered_count_sql(false, false), "SELECT COUNT(*) FROM media m WHERE m.processed = 1");
    assert!(description_page_sql(true, false).contains(NO_DESC));
    assert!(description_page_sql(true, false).ends_with("ORDER BY m.imported_at ASC LIMIT 1 OFFSET ?1"));
    assert!(media_index_sql(false, true).contains(NO_TAGS));
    assert!(media_index_sql(false, true).ends_with(") WHERE id = ?1"));
}

#[test]
fn page_index_is_clamped_to_the_listing() {
    assert_eq!(description_page_index(0, 0, 3), None);
    assert_eq!(description_page_index(5, 0, 3), None);
    assert_eq!(description_page_index(5, 4, 2), Some(2));
    assert_eq!(description_page_index(5, 4, 9), Some(3));
    assert_eq!(description_page_index(5, 4, 3), Some(3));
}
