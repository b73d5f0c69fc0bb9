//! Records exchanged between the vault database and the user interface.

use vstd::prelude::*;

verus! {

/// A vault and how many processed media items it holds.
#[derive(Debug)]
pub struct VaultInfo {
    pub path: String,
    pub media_count: u32,
}

/// One tag of a media item: a key and one of its values.
#[derive(Debug)]
pub struct TagInfo {
    pub key: String,
    pub value: String,
}

/// A tag key and on how many media items it is used.
#[derive(Debug)]
pub struct TagKeyInfo {
    pub key: String,
    pub usage_count: u32,
}

impl TagInfo {
    /// A tag with the given key and value.
    pub fn new(key: &str, value: &str) -> (res: TagInfo)
        ensures
            res.key@ == key@,
            res.value@ == value@,
    {
        TagInfo { key: key.to_owned(), value: value.to_owned() }
    }
}

} // verus!
