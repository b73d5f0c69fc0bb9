//! The descriptions file maps media id -> description text.
//! It is stored at `{vault_root}/descriptions.json`; the application reads
//! and writes it, this module holds the map and its changes.

use vstd::prelude::*;
use crate::layout::{VaultFile, root_file};
use crate::str_map::{StrMap, Wellformed};
use crate::text::owned;

verus! {

/// media id -> description.
pub type Descriptions = StrMap<String>;

/// Where the descriptions file lives.
pub fn descriptions_path() -> (res: VaultFile)
    ensures
        res.dir@ == Seq::<char>::empty(),
        res.name@ == "descriptions.json"@,
{
    root_file("descriptions.json")
}

/// Set the description of one media item.
pub fn set(descriptions: &mut Descriptions, media_id: &str, description: &str)
    requires
        old(descriptions).is_wf(),
    ensures
        final(descriptions).is_wf(),
        final(descriptions)@ == old(descriptions)@.insert(media_id@, description@),
{
    descriptions.insert(owned(media_id), owned(description));
}

/// Remove the description of one media item; returns whether there was one,
/// that is, whether the file changed.
pub fn remove(descriptions: &mut Descriptions, media_id: &str) -> (changed: bool)
    requires
        old(descriptions).is_wf(),
    ensures
        final(descriptions).is_wf(),
        final(descriptions)@ == old(descriptions)@.remove(media_id@),
        changed == old(descriptions)@.dom().contains(media_id@),
{
    descriptions.remove(media_id).is_some()
}

} // verus!
