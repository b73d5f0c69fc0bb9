//! The tags file of a vault maps each media id to its tags: tag key -> values.
//!
//! The file itself is read and written by the application; this module holds
//! the map and every change the application makes to it. Each change reports
//! whether the file needs to be written again.

use vstd::prelude::*;
use crate::str_map::{StrMap, Wellformed, lemma_map_values, lemma_exists_value};
use crate::text::{str_eq, owned};
use crate::layout::{VaultFile, root_file};
use crate::descriptions_file::Descriptions;

verus! {

/// Tags of one media item: tag key -> values.
pub type MediaTags = StrMap<Vec<String>>;

/// Tags of every media item: media id -> tags.
pub type AllTags = StrMap<MediaTags>;

/// What `MediaTags` means: each key with its values.
pub type TagsView = Map<Seq<char>, Seq<Seq<char>>>;

/// What `AllTags` means: each media id with its tags.
pub type AllTagsView = Map<Seq<char>, TagsView>;

/// The list `vals` after every `old` (and every earlier `new`) became a single
/// `new`: the first of them becomes `new`, later ones are dropped, all other
/// values keep their order.
pub open spec fn renamed_values(vals: Seq<Seq<char>>, old: Seq<char>, new: Seq<char>) -> Seq<Seq<char>>
    decreases vals.len(),
{
    if vals.len() == 0 {
        Seq::empty()
    } else {
        let prev = renamed_values(vals.drop_last(), old, new);
        let v = vals.last();
        if v == old || v == new {
            if prev.contains(new) {
                prev
            } else {
                prev.push(new)
            }
        } else {
            prev.push(v)
        }
    }
}

/// The tags of one item after renaming value `old` of `key` to `new`.
pub open spec fn tags_with_value_renamed(t: TagsView, key: Seq<char>, old: Seq<char>, new: Seq<char>) -> TagsView {
    if t.dom().contains(key) {
        t.insert(key, renamed_values(t[key], old, new))
    } else {
        t
    }
}

/// The tags of one item after renaming key `old_key` to `new_key`.
pub open spec fn tags_with_key_renamed(t: TagsView, old_key: Seq<char>, new_key: Seq<char>) -> TagsView {
    if t.dom().contains(old_key) {
        t.remove(old_key).insert(new_key, t[old_key])
    } else {
        t
    }
}

/// The tags of one item without key `key`.
pub open spec fn tags_without_key(t: TagsView, key: Seq<char>) -> TagsView {
    t.remove(key)
}

/// Whether `v` holds `s`.
pub fn contains_str(v: &Vec<String>, s: &str) -> (res: bool)
    ensures
        res == v.deep_view().contains(s@),
{
    let mut i: usize = 0;
    while i < v.len()
        invariant
            i <= v.len(),
            forall|j: int| 0 <= j < i ==> v.deep_view()[j] != s@,
        decreases v.len() - i,
    {
        if str_eq(v[i].as_str(), s) {
            assert(v.deep_view()[i as int] == s@);
            return true;
        }
        i += 1;
    }
    false
}

/// Rewrites a value list as `renamed_values` says; also tells whether `old` occurred.
pub fn rename_in_values(vals: &Vec<String>, old_value: &str, new_value: &str) -> (res: (Vec<String>, bool))
    ensures
        res.0.deep_view() == renamed_values(vals.deep_view(), old_value@, new_value@),
        res.1 == vals.deep_view().contains(old_value@),
{
    let mut updated: Vec<String> = Vec::new();
    let mut had_old = false;
    let mut i: usize = 0;
    while i < vals.len()
        invariant
            i <= vals.len(),
            updated.deep_view() == renamed_values(vals.deep_view().take(i as int), old_value@, new_value@),
            had_old == vals.deep_view().take(i as int).contains(old_value@),
        decreases vals.len() - i,
    {
        let ghost prev = updated.deep_view();
        let v = &vals[i];
        assert(vals.deep_view().take(i + 1).drop_last() =~= vals.deep_view().take(i as int));
        assert(vals.deep_view().take(i + 1).last() == v@);
        if str_eq(v.as_str(), old_value) {
            had_old = true;
            if !contains_str(&updated, new_value) {
                updated.push(owned(new_value));
                assert(updated.deep_view() =~= prev.push(new_value@));
            }
        } else if str_eq(v.as_str(), new_value) {
            if !contains_str(&updated, new_value) {
                updated.push(v.clone());
                assert(updated.deep_view() =~= prev.push(new_value@));
            }
        } else {
            updated.push(v.clone());
            assert(updated.deep_view() =~= prev.push(v@));
        }
        proof {
            let t1 = vals.deep_view().take(i + 1);
            let t0 = vals.deep_view().take(i as int);
            assert(t1 =~= t0.push(v@));
            if had_old {
                if v@ == old_value@ {
                    assert(t1[i as int] == old_value@);
                } else {
                    let w = choose|w: int| 0 <= w < t0.len() && t0[w] == old_value@;
                    assert(t1[w] == old_value@);
                }
            } else {
                assert forall|w: int| 0 <= w < t1.len() implies t1[w] != old_value@ by {
                    if w < t0.len() {
                        assert(t1[w] == t0[w]);
                    }
                }
            }
        }
        i += 1;
    }
    assert(vals.deep_view().take(vals.len() as int) =~= vals.deep_view());
    (updated, had_old)
}

/// Renames value `old_value` of `key` in one item's tags; tells whether `old_value` was there.
pub fn rename_value_in_tags(t: &mut MediaTags, key: &str, old_value: &str, new_value: &str) -> (res: bool)
    requires
        old(t).is_wf(),
    ensures
        final(t).is_wf(),
        final(t)@ == tags_with_value_renamed(old(t)@, key@, old_value@, new_value@),
        res == (old(t)@.dom().contains(key@) && old(t)@[key@].contains(old_value@)),
{
    match t.find(key) {
        Some(i) => {
            proof {
                t.lemma_view_at(i as int);
            }
            let vals = t.replace_value_at(i, Vec::new());
            let (updated, had_old) = rename_in_values(&vals, old_value, new_value);
            t.replace_value_at(i, updated);
            had_old
        },
        None => false,
    }
}

/// Renames key `old_key` to `new_key` in one item's tags; tells whether `old_key` was there.
pub fn rename_key_in_tags(t: &mut MediaTags, old_key: &str, new_key: &str) -> (res: bool)
    requires
        old(t).is_wf(),
    ensures
        final(t).is_wf(),
        final(t)@ == tags_with_key_renamed(old(t)@, old_key@, new_key@),
        res == old(t)@.dom().contains(old_key@),
        !res ==> final(t)@ == old(t)@,
        res ==> final(t)@ == old(t)@.remove(old_key@).insert(new_key@, old(t)@[old_key@]),
{
    match t.remove(old_key) {
        Some(values) => {
            t.insert(owned(new_key), values);
            true
        },
        None => false,
    }
}

/// Set all tags of one media item (what the application then writes to the file).
pub fn set_media_tags(all: &mut AllTags, media_id: &str, media_tags: MediaTags)
    requires
        old(all).is_wf(),
        media_tags.is_wf(),
    ensures
        final(all).is_wf(),
        final(all)@ == old(all)@.insert(media_id@, media_tags@),
{
    all.insert(owned(media_id), media_tags);
}

/// Remove all tags of one media item. Returns whether the item had an entry,
/// that is, whether the file changed.
pub fn remove(all: &mut AllTags, media_id: &str) -> (changed: bool)
    requires
        old(all).is_wf(),
    ensures
        final(all).is_wf(),
        final(all)@ == old(all)@.remove(media_id@),
        changed == old(all)@.dom().contains(media_id@),
{
    all.remove(media_id).is_some()
}

/// Remove tag key `key` from every media item. Returns whether any item had it.
pub fn remove_tag_key(all: &mut AllTags, key: &str) -> (changed: bool)
    requires
        old(all).is_wf(),
    ensures
        final(all).is_wf(),
        final(all)@ == old(all)@.map_values(|t: TagsView| tags_without_key(t, key@)),
        changed == exists|id: Seq<char>| #[trigger] old(all)@.dom().contains(id) && old(all)@[id].dom().contains(key@),
        final(all)@.dom() == old(all)@.dom(),
        forall|id: Seq<char>| #[trigger] final(all)@.dom().contains(id) ==> !final(all)@[id].dom().contains(key@),
        forall|id: Seq<char>, k: Seq<char>|
            old(all)@.dom().contains(id) && k != key@ ==> (#[trigger] final(all)@[id].dom().contains(k)
                == old(all)@[id].dom().contains(k) && (old(all)@[id].dom().contains(k) ==> final(all)@[id][k]
                == old(all)@[id][k])),
{
    let ghost f = |t: TagsView| tags_without_key(t, key@);
    let ghost p = |t: TagsView| t.dom().contains(key@);
    let ghost start = *all;
    let mut changed = false;
    let n = all.len();
    proof { start.lemma_lens(); }
    for i in 0..n
        invariant
            n == start.key_seq().len(),
            n == start.value_seq().len(),
            all.is_wf(),
            all.key_seq() == start.key_seq(),
            all.value_seq().len() == n,
            forall|j: int| 0 <= j < i ==> #[trigger] all.value_seq()[j] == tags_without_key(start.value_seq()[j], key@),
            forall|j: int| i <= j < n ==> #[trigger] all.value_seq()[j] == start.value_seq()[j],
            changed == exists|j: int| 0 <= j < i && #[trigger] start.value_seq()[j].dom().contains(key@),
    {
        let mut t = all.replace_value_at(i, StrMap::new());
        let had = t.remove(key).is_some();
        all.replace_value_at(i, t);
        if had {
            changed = true;
        }
        proof {
            assert(start.value_seq()[i as int].dom().contains(key@) == had);
            if changed {
                if had {
                    assert(0 <= i < i + 1 && start.value_seq()[i as int].dom().contains(key@));
                }
            }
        }
    }
    proof {
        lemma_map_values(&start, all, f);
        lemma_exists_value(&start, p);
        if changed {
            let j = choose|j: int| 0 <= j < n && #[trigger] start.value_seq()[j].dom().contains(key@);
            assert(p(start.value_seq()[j]));
            let k = choose|k: Seq<char>| #[trigger] start@.dom().contains(k) && p(start@[k]);
            assert(start@.dom().contains(k) && start@[k].dom().contains(key@));
        } else {
            assert forall|k: Seq<char>| #[trigger] start@.dom().contains(k) implies !(start@[k].dom().contains(key@)) by {
                if start@[k].dom().contains(key@) {
                    assert(p(start@[k]));
                    let j = choose|j: int| 0 <= j < start.value_seq().len() && #[trigger] p(start.value_seq()[j]);
                    assert(start.value_seq()[j].dom().contains(key@));
                }
            }
        }
    }
    changed
}

/// Rename value `old_value` of tag key `key` to `new_value` on every media item.
/// Where an item already has `new_value` for that key, the duplicate is collapsed.
/// Returns whether any item had `old_value` under `key`.
pub fn rename_tag_value(all: &mut AllTags, key: &str, old_value: &str, new_value: &str) -> (changed: bool)
    requires
        old(all).is_wf(),
    ensures
        final(all).is_wf(),
        final(all)@ == old(all)@.map_values(|t: TagsView| tags_with_value_renamed(t, key@, old_value@, new_value@)),
        changed == exists|id: Seq<char>| #[trigger] old(all)@.dom().contains(id)
            && old(all)@[id].dom().contains(key@) && old(all)@[id][key@].contains(old_value@),
        final(all)@.dom() == old(all)@.dom(),
        forall|id: Seq<char>|
            old(all)@.dom().contains(id) && !old(all)@[id].dom().contains(key@) ==> #[trigger] final(all)@[id]
                == old(all)@[id],
        forall|id: Seq<char>, k: Seq<char>|
            old(all)@.dom().contains(id) && k != key@ ==> (#[trigger] final(all)@[id].dom().contains(k)
                == old(all)@[id].dom().contains(k) && (old(all)@[id].dom().contains(k) ==> final(all)@[id][k]
                == old(all)@[id][k])),
{
    let ghost f = |t: TagsView| tags_with_value_renamed(t, key@, old_value@, new_value@);
    let ghost p = |t: TagsView| t.dom().contains(key@) && t[key@].contains(old_value@);
    let ghost start = *all;
    let mut changed = false;
    let n = all.len();
    proof { start.lemma_lens(); }
    for i in 0..n
        invariant
            n == start.key_seq().len(),
            n == start.value_seq().len(),
            all.is_wf(),
            all.key_seq() == start.key_seq(),
            all.value_seq().len() == n,
            forall|j: int| 0 <= j < i ==> #[trigger] all.value_seq()[j] == tags_with_value_renamed(start.value_seq()[j], key@, old_value@, new_value@),
            forall|j: int| i <= j < n ==> #[trigger] all.value_seq()[j] == start.value_seq()[j],
            changed == exists|j: int| 0 <= j < i && #[trigger] start.value_seq()[j].dom().contains(key@) && start.value_seq()[j][key@].contains(old_value@),
    {
        let mut t = all.replace_value_at(i, StrMap::new());
        let had = rename_value_in_tags(&mut t, key, old_value, new_value);
        all.replace_value_at(i, t);
        if had {
            changed = true;
        }
        proof {
            assert((start.value_seq()[i as int].dom().contains(key@) && start.value_seq()[i as int][key@].contains(old_value@)) == had);
            if changed {
                if had {
                    assert(0 <= i < i + 1 && (start.value_seq()[i as int].dom().contains(key@) && start.value_seq()[i as int][key@].contains(old_value@)));
                }
            }
        }
    }
    proof {
        lemma_map_values(&start, all, f);
        lemma_exists_value(&start, p);
        if changed {
            let j = choose|j: int| 0 <= j < n && #[trigger] start.value_seq()[j].dom().contains(key@) && start.value_seq()[j][key@].contains(old_value@);
            assert(p(start.value_seq()[j]));
            let k = choose|k: Seq<char>| #[trigger] start@.dom().contains(k) && p(start@[k]);
            assert(start@.dom().contains(k) && start@[k].dom().contains(key@) && start@[k][key@].contains(old_value@));
        } else {
            assert forall|k: Seq<char>| #[trigger] start@.dom().contains(k) implies !(start@[k].dom().contains(key@) && start@[k][key@].contains(old_value@)) by {
                if start@[k].dom().contains(key@) && start@[k][key@].contains(old_value@) {
                    assert(p(start@[k]));
                    let j = choose|j: int| 0 <= j < start.value_seq().len() && #[trigger] p(start.value_seq()[j]);
                    assert(start.value_seq()[j].dom().contains(key@) && start.value_seq()[j][key@].contains(old_value@));
                }
            }
        }
    }
    changed
}

/// Rename tag key `old_key` to `new_key` on every media item. Returns whether
/// any item had `old_key`.
pub fn rename_tag_key(all: &mut AllTags, old_key: &str, new_key: &str) -> (changed: bool)
    requires
        old(all).is_wf(),
    ensures
        final(all).is_wf(),
        final(all)@ == old(all)@.map_values(|t: TagsView| tags_with_key_renamed(t, old_key@, new_key@)),
        changed == exists|id: Seq<char>| #[trigger] old(all)@.dom().contains(id) && old(all)@[id].dom().contains(old_key@),
        final(all)@.dom() == old(all)@.dom(),
        forall|id: Seq<char>|
            old(all)@.dom().contains(id) && !old(all)@[id].dom().contains(old_key@) ==> #[trigger] final(all)@[id]
                == old(all)@[id],
        forall|id: Seq<char>|
            old(all)@.dom().contains(id) && old(all)@[id].dom().contains(old_key@) ==> #[trigger] final(all)@[id]
                == old(all)@[id].remove(old_key@).insert(new_key@, old(all)@[id][old_key@]),
{
    let ghost f = |t: TagsView| tags_with_key_renamed(t, old_key@, new_key@);
    let ghost p = |t: TagsView| t.dom().contains(old_key@);
    let ghost start = *all;
    let mut changed = false;
    let n = all.len();
    proof { start.lemma_lens(); }
    for i in 0..n
        invariant
            n == start.key_seq().len(),
            n == start.value_seq().len(),
            all.is_wf(),
            all.key_seq() == start.key_seq(),
            all.value_seq().len() == n,
            forall|j: int| 0 <= j < i ==> #[trigger] all.value_seq()[j] == tags_with_key_renamed(start.value_seq()[j], old_key@, new_key@),
            forall|j: int| i <= j < n ==> #[trigger] all.value_seq()[j] == start.value_seq()[j],
            changed == exists|j: int| 0 <= j < i && #[trigger] start.value_seq()[j].dom().contains(old_key@),
    {
        let mut t = all.replace_value_at(i, StrMap::new());
        let had = rename_key_in_tags(&mut t, old_key, new_key);
        all.replace_value_at(i, t);
        if had {
            changed = true;
        }
        proof {
            assert(start.value_seq()[i as int].dom().contains(old_key@) == had);
            if changed {
                if had {
                    assert(0 <= i < i + 1 && start.value_seq()[i as int].dom().contains(old_key@));
                }
            }
        }
    }
    proof {
        lemma_map_values(&start, all, f);
        lemma_exists_value(&start, p);
        if changed {
            let j = choose|j: int| 0 <= j < n && #[trigger] start.value_seq()[j].dom().contains(old_key@);
            assert(p(start.value_seq()[j]));
            let k = choose|k: Seq<char>| #[trigger] start@.dom().contains(k) && p(start@[k]);
            assert(start@.dom().contains(k) && start@[k].dom().contains(old_key@));
        } else {
            assert forall|k: Seq<char>| #[trigger] start@.dom().contains(k) implies !(start@[k].dom().contains(old_key@)) by {
                if start@[k].dom().contains(old_key@) {
                    assert(p(start@[k]));
                    let j = choose|j: int| 0 <= j < start.value_seq().len() && #[trigger] p(start.value_seq()[j]);
                    assert(start.value_seq()[j].dom().contains(old_key@));
                }
            }
        }
    }
    changed
}

/// Where the tags file lives.
pub fn tags_path() -> (res: VaultFile)
    ensures
        res.dir@ == Seq::<char>::empty(),
        res.name@ == "tags.json"@,
{
    root_file("tags.json")
}

/// Where older vaults kept descriptions (one text per media item).
pub fn legacy_path() -> (res: VaultFile)
    ensures
        res.dir@ == Seq::<char>::empty(),
        res.name@ == "descriptions.json"@,
{
    root_file("descriptions.json")
}

/// The tags of an item whose only tag is its old description.
pub open spec fn legacy_tags(description: Seq<char>) -> TagsView {
    Map::<Seq<char>, Seq<Seq<char>>>::empty().insert("description"@, seq![description])
}

/// Converts the old descriptions file (media id -> text) into tags: each
/// description becomes the single value of tag key `description`.
pub fn tags_from_legacy(old_map: &Descriptions) -> (res: AllTags)
    requires
        old_map.is_wf(),
    ensures
        res.is_wf(),
        res@ == old_map@.map_values(|d: Seq<char>| legacy_tags(d)),
{
    let mut tags: AllTags = StrMap::new();
    let n = old_map.len();
    proof { old_map.lemma_lens(); }
    for i in 0..n
        invariant
            n == old_map.key_seq().len(),
            n == old_map.value_seq().len(),
            old_map.is_wf(),
            tags.is_wf(),
            tags.key_seq() == old_map.key_seq().take(i as int),
            forall|j: int| 0 <= j < i ==> #[trigger] tags@[old_map.key_seq()[j]] == legacy_tags(old_map.value_seq()[j]),
            forall|k: Seq<char>| tags@.dom().contains(k) <==> old_map.key_seq().take(i as int).contains(k),
    {
        let id = old_map.key_at(i);
        let desc = old_map.value_at(i);
        let mut media_tags: MediaTags = StrMap::new();
        let mut values: Vec<String> = Vec::new();
        values.push(desc.clone());
        assert(values.deep_view() =~= seq![old_map.value_seq()[i as int]]);
        media_tags.insert(owned("description"), values);
        assert(media_tags@ =~= legacy_tags(old_map.value_seq()[i as int]));
        proof {
            let ks = old_map.key_seq();
            if tags@.dom().contains(id@) {
                let ks0 = ks.take(i as int);
                let w = choose|w: int| 0 <= w < ks0.len() && #[trigger] ks0[w] == id@;
                assert(ks[w] == ks[i as int]);
            }
        }
        tags.insert(id.clone(), media_tags);
        proof {
            let ks = old_map.key_seq();
            assert(ks.take(i + 1) =~= ks.take(i as int).push(ks[i as int]));
            assert forall|j: int| 0 <= j < i + 1 implies #[trigger] tags@[ks[j]] == legacy_tags(old_map.value_seq()[j]) by {
                if j < i {
                    assert(ks[j] != ks[i as int]);
                }
            }
            assert forall|k: Seq<char>| tags@.dom().contains(k) <==> ks.take(i + 1).contains(k) by {
                if k == ks[i as int] {
                    assert(ks.take(i + 1)[i as int] == k);
                } else if ks.take(i + 1).contains(k) {
                    let ks1 = ks.take(i + 1);
                    let w = choose|w: int| 0 <= w < ks1.len() && #[trigger] ks1[w] == k;
                    assert(ks.take(i as int)[w] == k);
                }
            }
        }
    }
    proof {
        let ks = old_map.key_seq();
        assert(ks.take(n as int) =~= ks);
        assert forall|k: Seq<char>| #[trigger] tags@.dom().contains(k) <==> old_map@.dom().contains(k) by {
            assert(tags@.dom().contains(k) <==> ks.take(n as int).contains(k));
            old_map.lemma_dom_iff(k);
        }
        assert forall|k: Seq<char>| #[trigger] tags@.dom().contains(k) implies tags@[k] == legacy_tags(old_map@[k]) by {
            let j = ks.index_of(k);
            old_map.lemma_view_at(j);
        }
        assert(tags@ =~= old_map@.map_values(|d: Seq<char>| legacy_tags(d)));
    }
    tags
}

/// Whether `x` occurs at most once in `s`.
pub open spec fn at_most_once(s: Seq<Seq<char>>, x: Seq<char>) -> bool {
    forall|i: int, j: int| 0 <= i < s.len() && 0 <= j < s.len() && s[i] == x && s[j] == x ==> i == j
}

proof fn lemma_contains_push(s: Seq<Seq<char>>, x: Seq<char>)
    requires
        s.len() > 0,
    ensures
        s.contains(x) <==> (s.drop_last().contains(x) || s.last() == x),
{
    if s.contains(x) {
        let i = choose|i: int| 0 <= i < s.len() && s[i] == x;
        if i < s.len() - 1 {
            assert(s.drop_last()[i] == x);
        }
    }
    if s.drop_last().contains(x) {
        let i = choose|i: int| 0 <= i < s.drop_last().len() && s.drop_last()[i] == x;
        assert(s[i] == x);
    }
}

/// Renaming a value: afterwards `old` is gone (unless it is `new`), `new`
/// occurs at most once and exactly when `old` or `new` occurred before, and
/// every other value keeps its place in the order.
pub proof fn law_renamed_values(vals: Seq<Seq<char>>, old: Seq<char>, new: Seq<char>)
    ensures
        old != new ==> !renamed_values(vals, old, new).contains(old),
        at_most_once(renamed_values(vals, old, new), new),
        renamed_values(vals, old, new).contains(new) <==> (vals.contains(old) || vals.contains(new)),
        renamed_values(vals, old, new).filter(|v: Seq<char>| v != new)
            == vals.filter(|v: Seq<char>| v != old && v != new),
    decreases vals.len(),
{
    reveal(Seq::filter);
    let r = renamed_values(vals, old, new);
    let p1 = |v: Seq<char>| v != new;
    let p2 = |v: Seq<char>| v != old && v != new;
    if vals.len() == 0 {
        assert(r.filter(p1) =~= Seq::<Seq<char>>::empty());
        assert(vals.filter(p2) =~= Seq::<Seq<char>>::empty());
    } else {
        let prev = renamed_values(vals.drop_last(), old, new);
        let v = vals.last();
        law_renamed_values(vals.drop_last(), old, new);
        lemma_contains_push(vals, old);
        lemma_contains_push(vals, new);
        assert(vals.filter(p2) == if p2(v) { vals.drop_last().filter(p2).push(v) } else { vals.drop_last().filter(p2) });
        if v == old || v == new {
            if prev.contains(new) {
                assert(r == prev);
            } else {
                assert(r == prev.push(new));
                assert(r.drop_last() =~= prev);
                lemma_contains_push(r, old);
                assert forall|i: int, j: int| 0 <= i < r.len() && 0 <= j < r.len() && r[i] == new && r[j] == new
                    implies i == j by {
                    if i < prev.len() {
                        assert(prev[i] == new);
                    }
                    if j < prev.len() {
                        assert(prev[j] == new);
                    }
                }
                assert(r.contains(new)) by {
                    assert(r[prev.len() as int] == new);
                }
                assert(r.filter(p1) == prev.filter(p1));
            }
        } else {
            assert(r == prev.push(v));
            assert(r.drop_last() =~= prev);
            lemma_contains_push(r, old);
            lemma_contains_push(r, new);
            assert forall|i: int, j: int| 0 <= i < r.len() && 0 <= j < r.len() && r[i] == new && r[j] == new
                implies i == j by {
                assert(prev[i] == new);
                assert(prev[j] == new);
            }
            assert(r.filter(p1) == prev.filter(p1).push(v));
        }
    }
}

/// A list without `old` (or where `old` is `new`) holding `new` at most once
/// is left as it is by the renaming.
proof fn lemma_renamed_fixed(s: Seq<Seq<char>>, old: Seq<char>, new: Seq<char>)
    requires
        old == new || !s.contains(old),
        at_most_once(s, new),
    ensures
        renamed_values(s, old, new) == s,
    decreases s.len(),
{
    if s.len() > 0 {
        let d = s.drop_last();
        lemma_contains_push(s, old);
        assert forall|i: int, j: int| 0 <= i < d.len() && 0 <= j < d.len() && d[i] == new && d[j] == new
            implies i == j by {
            assert(s[i] == new && s[j] == new);
        }
        lemma_renamed_fixed(d, old, new);
        let v = s.last();
        if v == old || v == new {
            assert(v == new);
            if d.contains(new) {
                let i = choose|i: int| 0 <= i < d.len() && d[i] == new;
                assert(s[i] == new && s[s.len() - 1] == new);
            }
            assert(s =~= d.push(new));
        } else {
            assert(s =~= d.push(v));
        }
    }
}

/// Renaming a value twice has the effect of renaming it once.
pub proof fn law_rename_value_idempotent(vals: Seq<Seq<char>>, old: Seq<char>, new: Seq<char>)
    ensures
        renamed_values(renamed_values(vals, old, new), old, new) == renamed_values(vals, old, new),
{
    law_renamed_values(vals, old, new);
    lemma_renamed_fixed(renamed_values(vals, old, new), old, new);
}

/// What is written is what is read back: after setting an item's tags, the
/// map holds exactly those tags for it and is unchanged for every other item.
pub proof fn law_set_then_read(all: AllTagsView, id: Seq<char>, tags: TagsView, other: Seq<char>)
    requires
        other != id,
    ensures
        all.insert(id, tags)[id] == tags,
        all.insert(id, tags).dom().contains(other) == all.dom().contains(other),
        all.dom().contains(other) ==> all.insert(id, tags)[other] == all[other],
{
}

/// Removing an item after setting its tags leaves the map as if it had been
/// removed right away.
pub proof fn law_set_then_remove(all: AllTagsView, id: Seq<char>, tags: TagsView)
    ensures
        all.insert(id, tags).remove(id) == all.remove(id),
{
    assert(all.insert(id, tags).remove(id) =~= all.remove(id));
}

/// After a tag key is removed, no item has it.
pub proof fn law_removed_key_is_gone(all: AllTagsView, key: Seq<char>, id: Seq<char>)
    requires
        all.map_values(|t: TagsView| tags_without_key(t, key)).dom().contains(id),
    ensures
        !all.map_values(|t: TagsView| tags_without_key(t, key))[id].dom().contains(key),
{
}

/// Renaming a tag key to a key no item uses, and then back, restores every item.
pub proof fn law_rename_key_round_trip(all: AllTagsView, a: Seq<char>, b: Seq<char>)
    requires
        a != b,
        forall|id: Seq<char>| #[trigger] all.dom().contains(id) ==> !all[id].dom().contains(b),
    ensures
        all.map_values(|t: TagsView| tags_with_key_renamed(t, a, b)).map_values(
            |t: TagsView| tags_with_key_renamed(t, b, a),
        ) == all,
{
    let once = all.map_values(|t: TagsView| tags_with_key_renamed(t, a, b));
    let twice = once.map_values(|t: TagsView| tags_with_key_renamed(t, b, a));
    assert forall|id: Seq<char>| #[trigger] twice.dom().contains(id) implies twice[id] == all[id] by {
        let t = all[id];
        if t.dom().contains(a) {
            assert(tags_with_key_renamed(once[id], b, a) =~= t);
        } else {
            assert(once[id] == t);
        }
    }
    assert(twice =~= all);
}

/// Renaming a tag key from an old one: afterwards no item has the old key,
/// and each item that had it now holds its old values under the new key.
pub proof fn law_rename_key_moves_values(t: TagsView, a: Seq<char>, b: Seq<char>)
    requires
        a != b,
        t.dom().contains(a),
    ensures
        !tags_with_key_renamed(t, a, b).dom().contains(a),
        tags_with_key_renamed(t, a, b)[b] == t[a],
{
}

/// A converted old description becomes the one value of tag key `description`.
pub proof fn law_legacy_single_description(d: Seq<char>)
    ensures
        legacy_tags(d).dom() == set!["description"@],
        legacy_tags(d)["description"@] == seq![d],
{
    assert(legacy_tags(d).dom() =~= set!["description"@]);
}

/// Renaming a tag key changes only that key: an item without `a` is left as
/// it is; an item with `a` holds its values under `b` instead, no longer has
/// `a` (unless `a` is `b`), and keeps every other key with its values.
pub proof fn law_rename_key_touches_only_that_key(t: TagsView, a: Seq<char>, b: Seq<char>)
    ensures
        !t.dom().contains(a) ==> tags_with_key_renamed(t, a, b) == t,
        t.dom().contains(a) ==> {
            let r = tags_with_key_renamed(t, a, b);
            &&& r.dom().contains(b) && r[b] == t[a]
            &&& a != b ==> !r.dom().contains(a)
            &&& forall|k: Seq<char>| k != a && k != b ==> (#[trigger] r.dom().contains(k) == t.dom().contains(k)
                && (t.dom().contains(k) ==> r[k] == t[k]))
        },
{
}

/// Removing a tag key removes that key and nothing else: every other key of
/// the item stays with its values.
pub proof fn law_remove_key_keeps_other_keys(t: TagsView, key: Seq<char>)
    ensures
        !tags_without_key(t, key).dom().contains(key),
        forall|k: Seq<char>| k != key ==> (#[trigger] tags_without_key(t, key).dom().contains(k)
            == t.dom().contains(k) && (t.dom().contains(k) ==> tags_without_key(t, key)[k] == t[k])),
{
}

/// Renaming a value of `key` touches only the values of `key`: an item
/// without `key` is left as it is, and every other key keeps its values.
pub proof fn law_rename_value_touches_only_that_key(t: TagsView, key: Seq<char>, old: Seq<char>, new: Seq<char>)
    ensures
        !t.dom().contains(key) ==> tags_with_value_renamed(t, key, old, new) == t,
        tags_with_value_renamed(t, key, old, new).dom() == t.dom(),
        forall|k: Seq<char>| k != key && #[trigger] t.dom().contains(k) ==> tags_with_value_renamed(t, key, old, new)[k]
            == t[k],
{
    assert(tags_with_value_renamed(t, key, old, new).dom() =~= t.dom());
}

} // verus!
