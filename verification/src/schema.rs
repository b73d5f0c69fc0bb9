//! The vault database's schema upgrades: which columns an older database
//! lacks, and how its embeddings table is brought to the current shape. The
//! application probes the database and runs the statements chosen here.

use vstd::prelude::*;
use crate::text::{owned, push_arg};

verus! {

/// Adds the checksum column.
pub open spec fn add_checksum_sql() -> Seq<char> {
    "ALTER TABLE media ADD COLUMN checksum TEXT;"@
}

/// Adds the processed flag; items of an older database count as processed.
pub open spec fn add_processed_sql() -> Seq<char> {
    "ALTER TABLE media ADD COLUMN processed INTEGER NOT NULL DEFAULT 1;"@
}

/// Adds the duration column.
pub open spec fn add_duration_sql() -> Seq<char> {
    "ALTER TABLE media ADD COLUMN duration REAL;"@
}

/// The columns an older `media` table lacks, as `ALTER TABLE` statements in
/// the order they are added: checksum, processed, duration.
pub open spec fn column_migrations_spec(has_checksum: bool, has_processed: bool, has_duration: bool) -> Seq<Seq<char>> {
    let a = if has_checksum { Seq::empty() } else { seq![add_checksum_sql()] };
    let b = if has_processed { a } else { a.push(add_processed_sql()) };
    if has_duration { b } else { b.push(add_duration_sql()) }
}

/// The statements that add the columns the `media` table lacks.
pub fn column_migrations(has_checksum: bool, has_processed: bool, has_duration: bool) -> (res: Vec<String>)
    ensures
        res.deep_view() == column_migrations_spec(has_checksum, has_processed, has_duration),
{
    let mut v: Vec<String> = Vec::new();
    if !has_checksum {
        push_arg(&mut v, "ALTER TABLE media ADD COLUMN checksum TEXT;");
    }
    if !has_processed {
        push_arg(&mut v, "ALTER TABLE media ADD COLUMN processed INTEGER NOT NULL DEFAULT 1;");
    }
    if !has_duration {
        push_arg(&mut v, "ALTER TABLE media ADD COLUMN duration REAL;");
    }
    assert(v.deep_view() =~= column_migrations_spec(has_checksum, has_processed, has_duration));
    v
}

/// The current embeddings table: one vector per media item and kind.
pub open spec fn create_embeddings_sql() -> Seq<char> {
    "CREATE TABLE IF NOT EXISTS embeddings (media_id TEXT NOT NULL REFERENCES media(id) ON DELETE CASCADE, embedding_type TEXT NOT NULL DEFAULT 'text', vector BLOB NOT NULL, model_name TEXT NOT NULL DEFAULT 'Qwen3VLEmbedding2B', created_at TEXT NOT NULL DEFAULT (datetime('now')), PRIMARY KEY (media_id, embedding_type));"@
}

/// Moves an embeddings table keyed by media id alone into the current shape,
/// its vectors becoming text embeddings.
pub open spec fn migrate_embeddings_sql() -> Seq<char> {
    "ALTER TABLE embeddings RENAME TO embeddings_old; CREATE TABLE embeddings (media_id TEXT NOT NULL REFERENCES media(id) ON DELETE CASCADE, embedding_type TEXT NOT NULL DEFAULT 'text', vector BLOB NOT NULL, model_name TEXT NOT NULL DEFAULT 'Qwen3VLEmbedding2B', created_at TEXT NOT NULL DEFAULT (datetime('now')), PRIMARY KEY (media_id, embedding_type)); INSERT INTO embeddings (media_id, embedding_type, vector, model_name, created_at) SELECT media_id, 'text', vector, model_name, created_at FROM embeddings_old; DROP TABLE embeddings_old;"@
}

/// The statements that bring the embeddings table to the current shape:
/// migrate an old table that lacks the `embedding_type` column, else create
/// the table if it is missing.
pub fn embeddings_schema_sql(has_embedding_type: bool, old_table_exists: bool) -> (res: String)
    ensures
        res@ == if !has_embedding_type && old_table_exists {
            migrate_embeddings_sql()
        } else {
            create_embeddings_sql()
        },
{
    if !has_embedding_type && old_table_exists {
        owned("ALTER TABLE embeddings RENAME TO embeddings_old; CREATE TABLE embeddings (media_id TEXT NOT NULL REFERENCES media(id) ON DELETE CASCADE, embedding_type TEXT NOT NULL DEFAULT 'text', vector BLOB NOT NULL, model_name TEXT NOT NULL DEFAULT 'Qwen3VLEmbedding2B', created_at TEXT NOT NULL DEFAULT (datetime('now')), PRIMARY KEY (media_id, embedding_type)); INSERT INTO embeddings (media_id, embedding_type, vector, model_name, created_at) SELECT media_id, 'text', vector, model_name, created_at FROM embeddings_old; DROP TABLE embeddings_old;")
    } else {
        owned("CREATE TABLE IF NOT EXISTS embeddings (media_id TEXT NOT NULL REFERENCES media(id) ON DELETE CASCADE, embedding_type TEXT NOT NULL DEFAULT 'text', vector BLOB NOT NULL, model_name TEXT NOT NULL DEFAULT 'Qwen3VLEmbedding2B', created_at TEXT NOT NULL DEFAULT (datetime('now')), PRIMARY KEY (media_id, embedding_type));")
    }
}

/// A database that already has every column needs no column added.
pub proof fn law_current_schema_needs_no_columns()
    ensures
        column_migrations_spec(true, true, true).len() == 0,
{
}

} // verus!
