use media_vault::embedding::{document_prompt, is_blank_query, page_bounds, query_prompt, MODEL_NAME};
use media_vault::logging::panic_report;
use media_vault::preferences::Preferences;
use media_vault::schema::{column_migrations, embeddings_schema_sql};
use media_vault::text::{decimal_string, join_strings, trimmed};

#[test]
fn prompts_frame_the_text() {
    assert_eq!(document_prompt("animal: cat."), "title: none | text: animal: cat.");
    assert_eq!(query_prompt("a cat"), "task: search result | query: a cat");
    assert_eq!(MODEL_NAME, "EmbeddingGemma300M");
}

#[test]
fn blank_queries_find_nothing() {
    assert!(is_blank_query(""));
    assert!(is_blank_query(" \t\n"));
    assert!(!is_blank_query(" cat "));
}

#[test]
fn result_pages() {
    assert_eq!(page_bounds(10, 0, 4), (0, 4));
    assert_eq!(page_bounds(10, 8, 4), (8, 10));
    assert_eq!(page_bounds(10, 12, 4), (10, 10));
    assert_eq!(page_bounds(10, u32::MAX, u32::MAX), (10, 10));
}

#[test]
fn preferences_remember_vault_and_zoom() {
    let p = Preferences::default();
    assert!(p.last_vault.is_none() && p.zoom_level.is_none());
    assert_eq!(p.last_vault_candidate(), None);
    let p = p.with_last_vault("/vaults/a").with_zoom_level(3);
    assert_eq!(p.zoom_level, Some(3));
    assert_eq!(p.last_vault_candidate(), Some("/vaults/a".to_string()));
    let p = p.with_last_vault("");
    assert_eq!(p.last_vault_candidate(), None);
    assert_eq!(p.zoom_level, Some(3));
}

#[test]
fn column_migrations_of_an_old_database() {
    assert!(column_migrations(true, true, true).is_empty());
    assert_eq!(
        column_migrations(false, false, true),
        vec!["ALTER TABLE media ADD COLUMN checksum TEXT;", "ALTER TABLE media ADD COLUMN processed INTEGER NOT NULL DEFAULT 1;"]
    );
    assert_eq!(column_migrations(true, true, false), vec!["ALTER TABLE media ADD COLUMN duration REAL;"]);
}

#[test]
fn embeddings_table_migration() {
    assert!(embeddings_schema_sql(false, true).starts_with("ALTER TABLE embeddings RENAME TO embeddings_old;"));
    assert!(embeddings_schema_sql(false, false).starts_with("CREATE TABLE IF NOT EXISTS embeddings"));
    assert!(embeddings_schema_sql(true, true).starts_with("CREATE TABLE IF NOT EXISTS embeddings"));
}

#[test]
fn panic_reports() {
    assert_eq!(panic_report(Some(("src/a.rs", 10, 5)), Some("boom")), "Panic at src/a.rs:10:5: boom");
    assert_eq!(panic_report(None, None), "Panic at unknown location: <non-string payload>");
}

#[test]
fn text_helpers() {
    assert_eq!(decimal_string(0), "0");
    assert_eq!(decimal_string(1234567890), "1234567890");
    assert_eq!(trimmed("  a b \n"), "a b");
    assert_eq!(join_strings(&vec!["a".to_string(), "b".to_string()], ", "), "a, b");
    assert_eq!(join_strings(&Vec::new(), ", "), "");
}
