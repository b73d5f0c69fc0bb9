//! Where things live inside a vault folder.
//!
//! ```text
//! my-vault/
//!   vault.db        database (metadata, embeddings, tags)
//!   tags.json       tags of every media item
//!   media/          media files, named `{uuid}.{extension}`
//!   previews/       thumbnails and animated previews
//! ```

use vstd::prelude::*;
use crate::text::{owned, concat3};

verus! {

/// A file inside a vault: the folder it sits in (empty for the vault root)
/// and its file name.
pub struct VaultFile {
    pub dir: String,
    pub name: String,
}

/// A file directly in the vault root.
pub fn root_file(name: &str) -> (res: VaultFile)
    ensures
        res.dir@ == Seq::<char>::empty(),
        res.name@ == name@,
{
    VaultFile { dir: String::new(), name: owned(name) }
}

/// A file in the vault's `media` folder.
pub fn media_file(name: &str) -> (res: VaultFile)
    ensures
        res.dir@ == "media"@,
        res.name@ == name@,
{
    VaultFile { dir: owned("media"), name: owned(name) }
}

/// A file in the vault's `previews` folder.
pub fn previews_file(name: &str) -> (res: VaultFile)
    ensures
        res.dir@ == "previews"@,
        res.name@ == name@,
{
    VaultFile { dir: owned("previews"), name: owned(name) }
}

/// The vault's database.
pub fn db_path() -> (res: VaultFile)
    ensures
        res.dir@ == Seq::<char>::empty(),
        res.name@ == "vault.db"@,
{
    root_file("vault.db")
}

/// The name of a media file: `{id}.{extension}`.
pub fn media_file_name(id: &str, extension: &str) -> (res: String)
    ensures
        res@ == id@ + "."@ + extension@,
{
    concat3(id, ".", extension)
}

} // verus!
