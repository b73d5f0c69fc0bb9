//! What the text-embedding model is given: the prompts that frame a stored
//! document and a search query, and which page of ranked results a search
//! returns. Running the model and comparing vectors is the application's part.

use vstd::prelude::*;
use crate::text::{concat, trim, trimmed};

verus! {

/// The embedding model whose vectors the vault stores.
pub const MODEL_NAME: &'static str = "EmbeddingGemma300M";

/// The prompt a document (a media item's tag text) is embedded with.
pub fn document_prompt(text: &str) -> (res: String)
    ensures
        res@ == "title: none | text: "@ + text@,
{
    concat("title: none | text: ", text)
}

/// The prompt a search query is embedded with.
pub fn query_prompt(text: &str) -> (res: String)
    ensures
        res@ == "task: search result | query: "@ + text@,
{
    concat("task: search result | query: ", text)
}

/// Whether a search query is only white space, which finds nothing.
pub fn is_blank_query(query: &str) -> (res: bool)
    ensures
        res == (trim(query@).len() == 0),
{
    let t = trimmed(query);
    t.as_str().unicode_len() == 0
}

/// The positions `lo..hi` of the results on a page: `limit` results after
/// skipping `offset`, as far as there are `len` results.
pub fn page_bounds(len: usize, offset: u32, limit: u32) -> (res: (usize, usize))
    ensures
        res.0 == if offset as int <= len as int { offset as int } else { len as int },
        res.1 == if offset as int + limit as int <= len as int {
            offset as int + limit as int
        } else {
            len as int
        },
        res.0 <= res.1 <= len,
{
    let off = offset as u64;
    let lim = limit as u64;
    let n = len as u64;
    let lo: u64 = if off <= n { off } else { n };
    let hi: u64 = if off + lim <= n { off + lim } else { n };
    (lo as usize, hi as usize)
}

} // verus!
