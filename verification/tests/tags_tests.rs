use media_vault::descriptions_file::{self, Descriptions};
use media_vault::models::TagInfo;
use media_vault::queries::{assemble_tag_text, tag_list_from_map, tags_differ, tags_to_map};
use media_vault::str_map::StrMap;
use media_vault::tags_file::{
    self, legacy_path, rename_tag_key, rename_tag_value, remove_tag_key, set_media_tags, tags_from_legacy,
    tags_path, AllTags, MediaTags,
};

fn media_tags(pairs: &[(&str, &[&str])]) -> MediaTags {
    let mut m: MediaTags = StrMap::new();
    for (k, vs) in pairs {
        m.insert(k.to_string(), vs.iter().map(|v| v.to_string()).collect());
    }
    m
}

fn values(all: &AllTags, id: &str, key: &str) -> Option<Vec<String>> {
    all.get(id).and_then(|t| t.get(key)).cloned()
}

fn tag(k: &str, v: &str) -> TagInfo {
    TagInfo::new(k, v)
}

#[test]
fn set_then_read_gives_the_tags_back() {
    let mut all: AllTags = StrMap::new();
    set_media_tags(&mut all, "a", media_tags(&[("animal", &["cat", "dog"])]));
    set_media_tags(&mut all, "b", media_tags(&[("color", &["red"])]));
    assert_eq!(values(&all, "a", "animal"), Some(vec!["cat".to_string(), "dog".to_string()]));
    assert_eq!(values(&all, "b", "color"), Some(vec!["red".to_string()]));
    set_media_tags(&mut all, "a", media_tags(&[("color", &["blue"])]));
    assert_eq!(values(&all, "a", "animal"), None);
    assert_eq!(values(&all, "a", "color"), Some(vec!["blue".to_string()]));
    assert_eq!(all.len(), 2);
}

#[test]
fn remove_reports_whether_anything_changed() {
    let mut all: AllTags = StrMap::new();
    set_media_tags(&mut all, "a", media_tags(&[("k", &["v"])]));
    assert!(tags_file::remove(&mut all, "a"));
    assert!(all.get("a").is_none());
    assert!(!tags_file::remove(&mut all, "a"));
}

#[test]
fn removed_key_is_gone_everywhere() {
    let mut all: AllTags = StrMap::new();
    set_media_tags(&mut all, "a", media_tags(&[("k", &["1"]), ("other", &["x"])]));
    set_media_tags(&mut all, "b", media_tags(&[("k", &["2"])]));
    assert!(remove_tag_key(&mut all, "k"));
    assert_eq!(values(&all, "a", "k"), None);
    assert_eq!(values(&all, "b", "k"), None);
    assert_eq!(values(&all, "a", "other"), Some(vec!["x".to_string()]));
    assert!(!remove_tag_key(&mut all, "k"));
}

#[test]
fn renaming_a_value_collapses_duplicates() {
    let mut all: AllTags = StrMap::new();
    set_media_tags(&mut all, "a", media_tags(&[("animal", &["cat", "dog", "cow"])]));
    set_media_tags(&mut all, "b", media_tags(&[("animal", &["cat"])]));
    set_media_tags(&mut all, "c", media_tags(&[("plant", &["cat"])]));
    assert!(rename_tag_value(&mut all, "animal", "cat", "dog"));
    assert_eq!(values(&all, "a", "animal"), Some(vec!["dog".to_string(), "cow".to_string()]));
    assert_eq!(values(&all, "b", "animal"), Some(vec!["dog".to_string()]));
    assert_eq!(values(&all, "c", "plant"), Some(vec!["cat".to_string()]));
    assert!(!rename_tag_value(&mut all, "animal", "cat", "dog"));
}

#[test]
fn renaming_a_value_twice_changes_nothing_more() {
    let mut all: AllTags = StrMap::new();
    set_media_tags(&mut all, "a", media_tags(&[("k", &["x", "y", "x"])]));
    assert!(rename_tag_value(&mut all, "k", "x", "z"));
    let once = values(&all, "a", "k");
    assert_eq!(once, Some(vec!["z".to_string(), "y".to_string()]));
    assert!(!rename_tag_value(&mut all, "k", "x", "z"));
    assert_eq!(values(&all, "a", "k"), once);
}

#[test]
fn renaming_a_key_moves_its_values() {
    let mut all: AllTags = StrMap::new();
    set_media_tags(&mut all, "a", media_tags(&[("old", &["1", "2"]), ("new", &["3"])]));
    set_media_tags(&mut all, "b", media_tags(&[("keep", &["4"])]));
    assert!(rename_tag_key(&mut all, "old", "new"));
    assert_eq!(values(&all, "a", "old"), None);
    assert_eq!(values(&all, "a", "new"), Some(vec!["1".to_string(), "2".to_string()]));
    assert_eq!(values(&all, "b", "keep"), Some(vec!["4".to_string()]));
    assert!(!rename_tag_key(&mut all, "old", "new"));
}

#[test]
fn renaming_a_key_there_and_back() {
    let mut all: AllTags = StrMap::new();
    set_media_tags(&mut all, "a", media_tags(&[("a", &["1"])]));
    assert!(rename_tag_key(&mut all, "a", "b"));
    assert!(rename_tag_key(&mut all, "b", "a"));
    assert_eq!(values(&all, "a", "a"), Some(vec!["1".to_string()]));
    assert_eq!(values(&all, "a", "b"), None);
}

#[test]
fn legacy_descriptions_become_description_tags() {
    let mut old: Descriptions = StrMap::new();
    descriptions_file::set(&mut old, "m1", "a sunset");
    descriptions_file::set(&mut old, "m2", "a cat");
    let all = tags_from_legacy(&old);
    assert_eq!(all.len(), 2);
    assert_eq!(values(&all, "m1", "description"), Some(vec!["a sunset".to_string()]));
    assert_eq!(values(&all, "m2", "description"), Some(vec!["a cat".to_string()]));
    assert_eq!(all.get("m1").map(|t| t.len()), Some(1));
}

#[test]
fn descriptions_set_and_remove() {
    let mut d: Descriptions = StrMap::new();
    descriptions_file::set(&mut d, "m", "one");
    descriptions_file::set(&mut d, "m", "two");
    assert_eq!(d.get("m").cloned(), Some("two".to_string()));
    assert!(descriptions_file::remove(&mut d, "m"));
    assert!(!descriptions_file::remove(&mut d, "m"));
    assert_eq!(descriptions_file::descriptions_path().name, "descriptions.json");
}

#[test]
fn tag_files_live_in_the_vault_root() {
    assert_eq!(tags_path().name, "tags.json");
    assert_eq!(tags_path().dir, "");
    assert_eq!(legacy_path().name, "descriptions.json");
}

#[test]
fn tags_group_by_key_in_first_appearance_order() {
    let tags = vec![tag("b", "1"), tag("a", "2"), tag("b", "3")];
    let m = tags_to_map(&tags);
    assert_eq!(m.len(), 2);
    assert_eq!(m.key_at(0), "b");
    assert_eq!(m.key_at(1), "a");
    assert_eq!(m.get("b").cloned(), Some(vec!["1".to_string(), "3".to_string()]));
    assert_eq!(m.get("a").cloned(), Some(vec!["2".to_string()]));
}

#[test]
fn tag_text_for_embedding() {
    let tags = vec![tag("animal", "cat"), tag("animal", "dog"), tag("color", "red")];
    assert_eq!(assemble_tag_text(&tags), Some("animal: cat, dog. color: red.".to_string()));
    assert_eq!(assemble_tag_text(&Vec::new()), None);
    assert_eq!(assemble_tag_text(&vec![tag("description", "a b")]), Some("description: a b.".to_string()));
}

#[test]
fn grouping_and_listing_keeps_every_tag() {
    let tags = vec![tag("b", "1"), tag("a", "2"), tag("b", "3"), tag("b", "1")];
    let listed = tag_list_from_map(&tags_to_map(&tags));
    assert_eq!(listed.len(), 4);
    assert_eq!(listed[0].key, "b");
    assert_eq!(listed[0].value, "1");
    assert_eq!(listed[1].value, "3");
    assert_eq!(listed[2].value, "1");
    assert_eq!(listed[3].key, "a");
    assert!(!tags_differ(&tags, &listed));
}

#[test]
fn tag_lists_differ_by_content_not_order() {
    let a = vec![tag("k", "1"), tag("k", "2")];
    let b = vec![tag("k", "2"), tag("k", "1")];
    let c = vec![tag("k", "1"), tag("k", "1")];
    assert!(!tags_differ(&a, &b));
    assert!(tags_differ(&a, &c));
    assert!(tags_differ(&a, &vec![tag("k", "1")]));
}
