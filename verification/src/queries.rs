//! The computations around the vault's queries: grouping tags by key, the
//! text a media item's tags are embedded as, comparing tag lists, and the
//! SQL that lists the media a description page steps through.

use vstd::prelude::*;
use crate::models::TagInfo;
use crate::str_map::{StrMap, Wellformed};
use crate::tags_file::MediaTags;
use crate::text::{concat, concat3, join, join_strings, owned};

verus! {

/// Key and value of each tag, in order.
pub open spec fn tag_pairs(tags: Seq<TagInfo>) -> Seq<(Seq<char>, Seq<char>)> {
    tags.map_values(|t: TagInfo| (t.key@, t.value@))
}

/// The distinct keys, in the order of their first appearance.
pub open spec fn key_order(ps: Seq<(Seq<char>, Seq<char>)>) -> Seq<Seq<char>>
    decreases ps.len(),
{
    if ps.len() == 0 {
        Seq::empty()
    } else {
        let prev = key_order(ps.drop_last());
        if prev.contains(ps.last().0) {
            prev
        } else {
            prev.push(ps.last().0)
        }
    }
}

/// The values given for key `k`, in order.
pub open spec fn values_of(ps: Seq<(Seq<char>, Seq<char>)>, k: Seq<char>) -> Seq<Seq<char>>
    decreases ps.len(),
{
    if ps.len() == 0 {
        Seq::empty()
    } else {
        let prev = values_of(ps.drop_last(), k);
        if ps.last().0 == k {
            prev.push(ps.last().1)
        } else {
            prev
        }
    }
}

/// Tags grouped by key: each key, in first-appearance order, with its values.
pub open spec fn grouped(ps: Seq<(Seq<char>, Seq<char>)>) -> Map<Seq<char>, Seq<Seq<char>>> {
    Map::new(|k: Seq<char>| key_order(ps).contains(k), |k: Seq<char>| values_of(ps, k))
}

/// One key's part of the tag text: `key: value1, value2`.
pub open spec fn key_part(ps: Seq<(Seq<char>, Seq<char>)>, k: Seq<char>) -> Seq<char> {
    k + ": "@ + join(values_of(ps, k), ", "@)
}

/// The text a media item's tags are embedded as:
/// `key1: value1, value2. key2: value3.` with keys in first-appearance order.
pub open spec fn tag_text(ps: Seq<(Seq<char>, Seq<char>)>) -> Seq<char> {
    join(key_order(ps).map_values(|k: Seq<char>| key_part(ps, k)), ". "@) + "."@
}

proof fn lemma_key_order_no_dup(ps: Seq<(Seq<char>, Seq<char>)>)
    ensures
        key_order(ps).no_duplicates(),
    decreases ps.len(),
{
    if ps.len() > 0 {
        lemma_key_order_no_dup(ps.drop_last());
        let prev = key_order(ps.drop_last());
        if !prev.contains(ps.last().0) {
            let r = prev.push(ps.last().0);
            assert forall|a: int, b: int| 0 <= a < r.len() && 0 <= b < r.len() && a != b implies r[a] != r[b] by {
                if a < prev.len() && b < prev.len() {
                } else if a == prev.len() {
                    assert(r[b] == prev[b]);
                } else {
                    assert(r[a] == prev[a]);
                }
            }
        }
    }
}

/// Groups tags by key: each key maps to its values in order, and keys are
/// kept in the order of their first appearance.
pub fn tags_to_map(tags: &Vec<TagInfo>) -> (res: MediaTags)
    ensures
        res.is_wf(),
        res.key_seq() == key_order(tag_pairs(tags@)),
        res@ == grouped(tag_pairs(tags@)),
{
    let ghost ps = tag_pairs(tags@);
    let mut m: MediaTags = StrMap::new();
    let n = tags.len();
    for i in 0..n
        invariant
            n == tags.len(),
            ps == tag_pairs(tags@),
            m.is_wf(),
            m.key_seq() == key_order(ps.take(i as int)),
            forall|k: Seq<char>| #[trigger] m@.dom().contains(k) ==> m@[k] == values_of(ps.take(i as int), k),
    {
        let t = &tags[i];
        let ghost p0 = ps.take(i as int);
        let ghost p1 = ps.take(i + 1);
        assert(p1.drop_last() =~= p0);
        assert(p1.last() == (t.key@, t.value@));
        proof { m.lemma_dom_iff(t.key@); }
        match m.find(t.key.as_str()) {
            Some(j) => {
                proof { m.lemma_view_at(j as int); }
                let mut vals = m.replace_value_at(j, Vec::new());
                vals.push(t.value.clone());
                m.replace_value_at(j, vals);
                proof {
                    assert(m.key_seq() == key_order(p1));
                    assert forall|k: Seq<char>| #[trigger] m@.dom().contains(k) implies m@[k] == values_of(p1, k) by {
                        if k == t.key@ {
                            assert(m@[k] =~= values_of(p0, k).push(t.value@));
                        }
                    }
                }
            },
            None => {
                let mut vals: Vec<String> = Vec::new();
                vals.push(t.value.clone());
                m.insert(t.key.clone(), vals);
                proof {
                    assert(m.key_seq() == key_order(p1));
                    assert forall|k: Seq<char>| #[trigger] m@.dom().contains(k) implies m@[k] == values_of(p1, k) by {
                        if k == t.key@ {
                            assert(values_of(p0, k) =~= Seq::<Seq<char>>::empty()) by {
                                lemma_values_of_absent(p0, k);
                            }
                            assert(m@[k] =~= values_of(p0, k).push(t.value@));
                        }
                    }
                }
            },
        }
    }
    assert(ps.take(n as int) =~= ps);
    proof {
        assert forall|k: Seq<char>| #[trigger] m@.dom().contains(k) <==> grouped(ps).dom().contains(k) by {
            m.lemma_dom_iff(k);
        }
        assert(m@ =~= grouped(ps));
    }
    m
}

/// A key that is not among the keys has no values.
proof fn lemma_values_of_absent(ps: Seq<(Seq<char>, Seq<char>)>, k: Seq<char>)
    requires
        !key_order(ps).contains(k),
    ensures
        values_of(ps, k) == Seq::<Seq<char>>::empty(),
    decreases ps.len(),
{
    if ps.len() > 0 {
        let prev = key_order(ps.drop_last());
        if prev.contains(k) {
            let w = choose|w: int| 0 <= w < prev.len() && prev[w] == k;
            if !prev.contains(ps.last().0) {
                assert(prev.push(ps.last().0)[w] == k);
            }
        }
        lemma_values_of_absent(ps.drop_last(), k);
        if ps.last().0 == k {
            if !prev.contains(k) {
                assert(key_order(ps)[prev.len() as int] == k);
            }
        }
    }
}

/// Assembles all tags of a media item into the single text that is embedded
/// for search: `key1: value1, value2. key2: value3.` with keys in the order
/// of their first appearance. No tags, no text.
pub fn assemble_tag_text(tags: &Vec<TagInfo>) -> (res: Option<String>)
    ensures
        res is None <==> tags@.len() == 0,
        res matches Some(s) ==> s@ == tag_text(tag_pairs(tags@)),
{
    if tags.len() == 0 {
        return None;
    }
    let ghost ps = tag_pairs(tags@);
    let ghost order = key_order(ps);
    let m = tags_to_map(tags);
    let n = m.len();
    let mut parts: Vec<String> = Vec::new();
    for j in 0..n
        invariant
            n == m.key_seq().len(),
            m.is_wf(),
            m.key_seq() == order,
            m@ == grouped(ps),
            parts.deep_view() == order.take(j as int).map_values(|k: Seq<char>| key_part(ps, k)),
    {
        let key = m.key_at(j);
        let vals = m.value_at(j);
        proof {
            m.lemma_view_at(j as int);
            assert(order.contains(order[j as int]));
            assert(vals.deep_view() == values_of(ps, order[j as int]));
        }
        let joined = join_strings(vals, ", ");
        let part = concat3(key.as_str(), ": ", joined.as_str());
        assert(part@ == key_part(ps, order[j as int]));
        let ghost prev = parts.deep_view();
        parts.push(part);
        assert(parts.deep_view() =~= prev.push(key_part(ps, order[j as int])));
        assert(order.take(j + 1).map_values(|k: Seq<char>| key_part(ps, k)) =~= order.take(j as int).map_values(
            |k: Seq<char>| key_part(ps, k),
        ).push(key_part(ps, order[j as int])));
        assert(parts.deep_view() =~= order.take(j + 1).map_values(|k: Seq<char>| key_part(ps, k)));
    }
    assert(order.take(n as int) =~= order);
    let text = join_strings(&parts, ". ");
    Some(concat(text.as_str(), "."))
}

/// The tags of a map listed key by key, each key with each of its values.
pub open spec fn flat_pairs(ks: Seq<Seq<char>>, vss: Seq<Seq<Seq<char>>>) -> Seq<(Seq<char>, Seq<char>)>
    decreases ks.len(),
{
    if ks.len() == 0 || vss.len() == 0 {
        Seq::empty()
    } else {
        flat_pairs(ks.drop_last(), vss.drop_last()) + vss.last().map_values(|v: Seq<char>| (ks.last(), v))
    }
}

/// Lists a media item's tags as key/value pairs, key by key.
pub fn tag_list_from_map(m: &MediaTags) -> (res: Vec<TagInfo>)
    requires
        m.is_wf(),
    ensures
        tag_pairs(res@) == flat_pairs(m.key_seq(), m.value_seq()),
{
    let mut res: Vec<TagInfo> = Vec::new();
    let n = m.len();
    proof { m.lemma_lens(); }
    for j in 0..n
        invariant
            n == m.key_seq().len(),
            n == m.value_seq().len(),
            tag_pairs(res@) == flat_pairs(m.key_seq().take(j as int), m.value_seq().take(j as int)),
    {
        let key = m.key_at(j);
        let vals = m.value_at(j);
        let ghost base = tag_pairs(res@);
        let ghost k = key@;
        let nv = vals.len();
        for x in 0..nv
            invariant
                nv == vals.deep_view().len(),
                k == key@,
                tag_pairs(res@) == base + vals.deep_view().take(x as int).map_values(|v: Seq<char>| (k, v)),
        {
            let ghost before = tag_pairs(res@);
            res.push(TagInfo { key: key.clone(), value: vals[x].clone() });
            assert(tag_pairs(res@) =~= before.push((k, vals.deep_view()[x as int])));
            assert(vals.deep_view().take(x + 1).map_values(|v: Seq<char>| (k, v)) =~= vals.deep_view().take(
                x as int,
            ).map_values(|v: Seq<char>| (k, v)).push((k, vals.deep_view()[x as int])));
        }
        proof {
            let ks1 = m.key_seq().take(j + 1);
            let vs1 = m.value_seq().take(j + 1);
            assert(ks1.drop_last() =~= m.key_seq().take(j as int));
            assert(vs1.drop_last() =~= m.value_seq().take(j as int));
            assert(vals.deep_view().take(nv as int) =~= vals.deep_view());
        }
    }
    assert(m.key_seq().take(n as int) =~= m.key_seq());
    assert(m.value_seq().take(n as int) =~= m.value_seq());
    res
}

/// How often `p` occurs in `ps`.
pub open spec fn occurrences(ps: Seq<(Seq<char>, Seq<char>)>, p: (Seq<char>, Seq<char>)) -> nat
    decreases ps.len(),
{
    if ps.len() == 0 {
        0
    } else {
        occurrences(ps.drop_last(), p) + if ps.last() == p { 1nat } else { 0nat }
    }
}

proof fn lemma_occurrences_multiset(ps: Seq<(Seq<char>, Seq<char>)>, p: (Seq<char>, Seq<char>))
    ensures
        occurrences(ps, p) == ps.to_multiset().count(p),
    decreases ps.len(),
{
    broadcast use vstd::seq_lib::group_to_multiset_ensures;
    if ps.len() > 0 {
        lemma_occurrences_multiset(ps.drop_last(), p);
        assert(ps =~= ps.drop_last().push(ps.last()));
    } else {
        assert(ps.to_multiset().len() == 0);
    }
}

/// Counts the tags equal to the key/value pair `(key, value)`.
fn count_tag(tags: &Vec<TagInfo>, key: &String, value: &String) -> (res: usize)
    ensures
        res == occurrences(tag_pairs(tags@), (key@, value@)),
{
    let ghost ps = tag_pairs(tags@);
    let mut c: usize = 0;
    let n = tags.len();
    for i in 0..n
        invariant
            n == tags.len(),
            ps == tag_pairs(tags@),
            c == occurrences(ps.take(i as int), (key@, value@)),
            c <= i,
    {
        assert(ps.take(i + 1).drop_last() =~= ps.take(i as int));
        if tags[i].key == *key && tags[i].value == *value {
            c += 1;
        }
    }
    assert(ps.take(n as int) =~= ps);
    c
}

/// Whether two tag lists differ other than in order: some key/value pair
/// occurs a different number of times in one than in the other.
pub fn tags_differ(a: &Vec<TagInfo>, b: &Vec<TagInfo>) -> (res: bool)
    ensures
        res == (tag_pairs(a@).to_multiset() != tag_pairs(b@).to_multiset()),
{
    let ghost pa = tag_pairs(a@);
    let ghost pb = tag_pairs(b@);
    let na = a.len();
    for i in 0..na
        invariant
            na == a.len(),
            pa == tag_pairs(a@),
            pb == tag_pairs(b@),
            forall|j: int| 0 <= j < i ==> occurrences(pa, #[trigger] pa[j]) == occurrences(pb, pa[j]),
    {
        if count_tag(a, &a[i].key, &a[i].value) != count_tag(b, &a[i].key, &a[i].value) {
            proof {
                lemma_occurrences_multiset(pa, pa[i as int]);
                lemma_occurrences_multiset(pb, pa[i as int]);
            }
            return true;
        }
    }
    let nb = b.len();
    for i in 0..nb
        invariant
            nb == b.len(),
            pa == tag_pairs(a@),
            pb == tag_pairs(b@),
            forall|j: int| 0 <= j < pa.len() ==> occurrences(pa, #[trigger] pa[j]) == occurrences(pb, pa[j]),
            forall|j: int| 0 <= j < i ==> occurrences(pa, #[trigger] pb[j]) == occurrences(pb, pb[j]),
    {
        if count_tag(a, &b[i].key, &b[i].value) != count_tag(b, &b[i].key, &b[i].value) {
            proof {
                lemma_occurrences_multiset(pa, pb[i as int]);
                lemma_occurrences_multiset(pb, pb[i as int]);
            }
            return true;
        }
    }
    proof {
        assert forall|p: (Seq<char>, Seq<char>)| pa.to_multiset().count(p) == pb.to_multiset().count(p) by {
            lemma_occurrences_multiset(pa, p);
            lemma_occurrences_multiset(pb, p);
            if !pa.contains(p) && !pb.contains(p) {
                lemma_occurrences_absent(pa, p);
                lemma_occurrences_absent(pb, p);
            } else if pa.contains(p) {
                let j = choose|j: int| 0 <= j < pa.len() && pa[j] == p;
                assert(occurrences(pa, pa[j]) == occurrences(pb, pa[j]));
            } else {
                let j = choose|j: int| 0 <= j < pb.len() && pb[j] == p;
                assert(occurrences(pa, pb[j]) == occurrences(pb, pb[j]));
            }
        }
        assert(pa.to_multiset() =~= pb.to_multiset());
    }
    false
}

proof fn lemma_occurrences_absent(ps: Seq<(Seq<char>, Seq<char>)>, p: (Seq<char>, Seq<char>))
    requires
        !ps.contains(p),
    ensures
        occurrences(ps, p) == 0,
    decreases ps.len(),
{
    if ps.len() > 0 {
        if ps.drop_last().contains(p) {
            let j = choose|j: int| 0 <= j < ps.drop_last().len() && ps.drop_last()[j] == p;
            assert(ps[j] == p);
        }
        lemma_occurrences_absent(ps.drop_last(), p);
        assert(ps[ps.len() - 1] != p);
    }
}

// ---------------------------------------------------------------------------
// Grouping keeps every tag
// ---------------------------------------------------------------------------

/// Each key, in first-appearance order, with its values.
pub open spec fn grouped_values(ps: Seq<(Seq<char>, Seq<char>)>) -> Seq<Seq<Seq<char>>> {
    key_order(ps).map_values(|k: Seq<char>| values_of(ps, k))
}

proof fn lemma_occurrences_concat(s1: Seq<(Seq<char>, Seq<char>)>, s2: Seq<(Seq<char>, Seq<char>)>, p: (Seq<char>, Seq<char>))
    ensures
        occurrences(s1 + s2, p) == occurrences(s1, p) + occurrences(s2, p),
    decreases s2.len(),
{
    if s2.len() == 0 {
        assert(s1 + s2 =~= s1);
    } else {
        assert((s1 + s2).drop_last() =~= s1 + s2.drop_last());
        assert((s1 + s2).last() == s2.last());
        lemma_occurrences_concat(s1, s2.drop_last(), p);
    }
}

/// Adding value `v` to the values of key `ks[i]` adds the one tag `(ks[i], v)`.
proof fn lemma_flat_pairs_extend(
    ks: Seq<Seq<char>>,
    vss: Seq<Seq<Seq<char>>>,
    i: int,
    v: Seq<char>,
    p: (Seq<char>, Seq<char>),
)
    requires
        ks.len() == vss.len(),
        0 <= i < ks.len(),
    ensures
        occurrences(flat_pairs(ks, vss.update(i, vss[i].push(v))), p) == occurrences(flat_pairs(ks, vss), p)
            + if p == (ks[i], v) { 1nat } else { 0nat },
    decreases ks.len(),
{
    let w = vss.update(i, vss[i].push(v));
    let k = ks.last();
    if i == ks.len() - 1 {
        assert(w.drop_last() =~= vss.drop_last());
        assert(w.last() == vss.last().push(v));
        assert(w.last().map_values(|x: Seq<char>| (k, x)) =~= vss.last().map_values(|x: Seq<char>| (k, x)).push((k, v)));
        let base = flat_pairs(ks.drop_last(), vss.drop_last());
        let seg = vss.last().map_values(|x: Seq<char>| (k, x));
        assert(flat_pairs(ks, w) == base + seg.push((k, v)));
        assert(base + seg.push((k, v)) =~= (base + seg).push((k, v)));
        assert((base + seg).push((k, v)).drop_last() =~= base + seg);
    } else {
        assert(w.drop_last() =~= vss.drop_last().update(i, vss.drop_last()[i].push(v)));
        assert(w.last() == vss.last());
        lemma_flat_pairs_extend(ks.drop_last(), vss.drop_last(), i, v, p);
        let seg = vss.last().map_values(|x: Seq<char>| (k, x));
        lemma_occurrences_concat(flat_pairs(ks.drop_last(), w.drop_last()), seg, p);
        lemma_occurrences_concat(flat_pairs(ks.drop_last(), vss.drop_last()), seg, p);
    }
}

/// Grouping tags by key and listing them again, key by key, keeps every tag:
/// each key/value pair occurs as often as it did (only the order changes).
/// This is why re-reading the tags file finds no change in tags it wrote.
pub proof fn law_grouping_keeps_every_tag(ps: Seq<(Seq<char>, Seq<char>)>)
    ensures
        flat_pairs(key_order(ps), grouped_values(ps)).to_multiset() =~= ps.to_multiset(),
{
    assert forall|p: (Seq<char>, Seq<char>)|
        flat_pairs(key_order(ps), grouped_values(ps)).to_multiset().count(p) == ps.to_multiset().count(p) by {
        lemma_grouping_occurrences(ps, p);
        lemma_occurrences_multiset(ps, p);
        lemma_occurrences_multiset(flat_pairs(key_order(ps), grouped_values(ps)), p);
    }
}

proof fn lemma_grouping_occurrences(ps: Seq<(Seq<char>, Seq<char>)>, p: (Seq<char>, Seq<char>))
    ensures
        occurrences(flat_pairs(key_order(ps), grouped_values(ps)), p) == occurrences(ps, p),
    decreases ps.len(),
{
    if ps.len() == 0 {
        return;
    }
    let prev = ps.drop_last();
    let (k, v) = ps.last();
    lemma_grouping_occurrences(prev, p);
    let ks = key_order(prev);
    let old_vss = grouped_values(prev);
    if ks.contains(k) {
        lemma_key_order_no_dup(prev);
        let i = ks.index_of(k);
        assert(key_order(ps) == ks);
        assert(grouped_values(ps) =~= old_vss.update(i, old_vss[i].push(v))) by {
            assert forall|j: int| 0 <= j < ks.len() implies #[trigger] grouped_values(ps)[j] == old_vss.update(i, old_vss[i].push(v))[j] by {
                if j != i {
                    assert(ks[j] != ks[i]);
                }
            }
        }
        lemma_flat_pairs_extend(ks, old_vss, i, v, p);
    } else {
        let ks1 = ks.push(k);
        assert(key_order(ps) == ks1);
        lemma_values_of_absent(prev, k);
        let new_vss = grouped_values(ps);
        assert(new_vss.drop_last() =~= old_vss) by {
            assert forall|j: int| 0 <= j < ks.len() implies #[trigger] new_vss.drop_last()[j] == old_vss[j] by {
                assert(ks1[j] == ks[j]);
                assert(ks[j] != k);
            }
        }
        assert(new_vss.last() =~= seq![v]);
        let seg = new_vss.last().map_values(|x: Seq<char>| (k, x));
        assert(seg =~= seq![(k, v)]);
        assert(ks1.drop_last() =~= ks);
        let base = flat_pairs(ks, old_vss);
        assert(flat_pairs(ks1, new_vss) == base + seg);
        assert(base + seg =~= base.push((k, v)));
        assert(base.push((k, v)).drop_last() =~= base);
    }
}

// ---------------------------------------------------------------------------
// What grouping gives
// ---------------------------------------------------------------------------

/// The values of key `k` are the values of the tags with key `k`, in the
/// order the tags come.
pub proof fn law_values_of_key(ps: Seq<(Seq<char>, Seq<char>)>, k: Seq<char>)
    ensures
        values_of(ps, k) == ps.filter(|p: (Seq<char>, Seq<char>)| p.0 == k).map_values(
            |p: (Seq<char>, Seq<char>)| p.1,
        ),
    decreases ps.len(),
{
    reveal(Seq::filter);
    let f = |p: (Seq<char>, Seq<char>)| p.0 == k;
    let g = |p: (Seq<char>, Seq<char>)| p.1;
    if ps.len() == 0 {
        assert(ps.filter(f).map_values(g) =~= Seq::<Seq<char>>::empty());
    } else {
        law_values_of_key(ps.drop_last(), k);
        let prev = ps.drop_last().filter(f);
        if ps.last().0 == k {
            assert(ps.filter(f) == prev.push(ps.last()));
            assert(prev.push(ps.last()).map_values(g) =~= prev.map_values(g).push(ps.last().1));
        } else {
            assert(ps.filter(f) == prev);
        }
    }
}

/// The keys of the grouping are exactly the keys of the tags, each once.
pub proof fn law_key_order_keys(ps: Seq<(Seq<char>, Seq<char>)>, k: Seq<char>)
    ensures
        key_order(ps).contains(k) <==> exists|i: int| 0 <= i < ps.len() && #[trigger] ps[i].0 == k,
        key_order(ps).no_duplicates(),
    decreases ps.len(),
{
    lemma_key_order_no_dup(ps);
    if ps.len() > 0 {
        let d = ps.drop_last();
        law_key_order_keys(d, k);
        let prev = key_order(d);
        if key_order(ps).contains(k) {
            if prev.contains(k) {
                let i = choose|i: int| 0 <= i < d.len() && #[trigger] d[i].0 == k;
                assert(ps[i] == d[i]);
            } else {
                assert(key_order(ps) == prev.push(ps.last().0));
                let w = choose|w: int| 0 <= w < key_order(ps).len() && key_order(ps)[w] == k;
                if w < prev.len() {
                    assert(prev[w] == k);
                }
                assert(ps[ps.len() - 1].0 == k);
            }
        }
        if exists|i: int| 0 <= i < ps.len() && #[trigger] ps[i].0 == k {
            let i = choose|i: int| 0 <= i < ps.len() && #[trigger] ps[i].0 == k;
            if i < ps.len() - 1 {
                assert(d[i].0 == k);
                assert(prev.contains(k));
                if !prev.contains(ps.last().0) {
                    let w = choose|w: int| 0 <= w < prev.len() && prev[w] == k;
                    assert(key_order(ps)[w] == k);
                }
            } else {
                if prev.contains(ps.last().0) {
                } else {
                    assert(key_order(ps)[prev.len() as int] == k);
                }
            }
        }
    }
}

/// The tag text of the tags of a single key: `key: v1, v2, ... .`
pub proof fn law_tag_text_one_key(k: Seq<char>, vs: Seq<Seq<char>>)
    requires
        vs.len() > 0,
    ensures
        tag_text(vs.map_values(|v: Seq<char>| (k, v))) == k + ": "@ + join(vs, ", "@) + "."@,
{
    let ps = vs.map_values(|v: Seq<char>| (k, v));
    assert forall|q: (Seq<char>, Seq<char>)| #[trigger] ps.contains(q) implies q.0 == k by {
        let i = choose|i: int| 0 <= i < ps.len() && ps[i] == q;
        assert(ps[i] == (k, vs[i]));
    }
    lemma_one_key_order(ps, k);
    law_values_of_key(ps, k);
    assert(ps.filter(|p: (Seq<char>, Seq<char>)| p.0 == k) =~= ps) by {
        lemma_filter_all(ps, k);
    }
    assert(ps.map_values(|p: (Seq<char>, Seq<char>)| p.1) =~= vs);
    let parts = key_order(ps).map_values(|key: Seq<char>| key_part(ps, key));
    assert(parts =~= seq![key_part(ps, k)]);
}

proof fn lemma_filter_all(ps: Seq<(Seq<char>, Seq<char>)>, k: Seq<char>)
    requires
        forall|q: (Seq<char>, Seq<char>)| #[trigger] ps.contains(q) ==> q.0 == k,
    ensures
        ps.filter(|p: (Seq<char>, Seq<char>)| p.0 == k) == ps,
    decreases ps.len(),
{
    reveal(Seq::filter);
    if ps.len() > 0 {
        let d = ps.drop_last();
        assert forall|q: (Seq<char>, Seq<char>)| #[trigger] d.contains(q) implies q.0 == k by {
            let i = choose|i: int| 0 <= i < d.len() && d[i] == q;
            assert(ps[i] == q);
            assert(ps.contains(q));
        }
        lemma_filter_all(d, k);
        assert(ps.contains(ps.last()) ) by {
            assert(ps[ps.len() - 1] == ps.last());
        }
        assert(ps =~= d.push(ps.last()));
    }
}

proof fn lemma_one_key_order(ps: Seq<(Seq<char>, Seq<char>)>, k: Seq<char>)
    requires
        ps.len() > 0,
        forall|q: (Seq<char>, Seq<char>)| #[trigger] ps.contains(q) ==> q.0 == k,
    ensures
        key_order(ps) == seq![k],
    decreases ps.len(),
{
    assert(ps.contains(ps.last())) by {
        assert(ps[ps.len() - 1] == ps.last());
    }
    let d = ps.drop_last();
    if d.len() > 0 {
        assert forall|q: (Seq<char>, Seq<char>)| #[trigger] d.contains(q) implies q.0 == k by {
            let i = choose|i: int| 0 <= i < d.len() && d[i] == q;
            assert(ps[i] == q);
            assert(ps.contains(q));
        }
        lemma_one_key_order(d, k);
        assert(key_order(d).contains(k)) by {
            assert(key_order(d)[0] == k);
        }
    } else {
        assert(key_order(d) =~= Seq::<Seq<char>>::empty());
        assert(seq![ps.last().0] =~= seq![k]);
    }
}

// ---------------------------------------------------------------------------
// Description pages: which media they step through
// ---------------------------------------------------------------------------

/// The condition every listed item meets: it has been processed.
pub open spec fn processed_condition() -> Seq<char> {
    "m.processed = 1"@
}

/// The condition of an item without a description.
pub open spec fn missing_description_condition() -> Seq<char> {
    "NOT EXISTS (SELECT 1 FROM tags t WHERE t.media_id = m.id AND t.key = 'description')"@
}

/// The condition of an item without tags of its own (other than its
/// description and its media type).
pub open spec fn missing_tags_condition() -> Seq<char> {
    "NOT EXISTS (SELECT 1 FROM tags t WHERE t.media_id = m.id AND t.key NOT IN ('description', 'media_type'))"@
}

/// The conditions of a listing, in order: processed, then the filters that
/// are on.
pub open spec fn filter_conditions(missing_desc: bool, missing_tags: bool) -> Seq<Seq<char>> {
    let base = seq![processed_condition()];
    let with_desc = if missing_desc { base.push(missing_description_condition()) } else { base };
    if missing_tags { with_desc.push(missing_tags_condition()) } else { with_desc }
}

/// The `WHERE` clause of a listing: its conditions joined by `AND`.
pub open spec fn where_clause(missing_desc: bool, missing_tags: bool) -> Seq<char> {
    join(filter_conditions(missing_desc, missing_tags), " AND "@)
}

/// The `WHERE` clause that selects processed media, only those without a
/// description if `missing_desc`, only those without tags if `missing_tags`.
pub fn filter_where_clause(missing_desc: bool, missing_tags: bool) -> (res: String)
    ensures
        res@ == where_clause(missing_desc, missing_tags),
{
    let mut conditions: Vec<String> = Vec::new();
    conditions.push(owned("m.processed = 1"));
    if missing_desc {
        conditions.push(owned(
            "NOT EXISTS (SELECT 1 FROM tags t WHERE t.media_id = m.id AND t.key = 'description')",
        ));
    }
    if missing_tags {
        conditions.push(owned(
            "NOT EXISTS (SELECT 1 FROM tags t WHERE t.media_id = m.id AND t.key NOT IN ('description', 'media_type'))",
        ));
    }
    assert(conditions.deep_view() =~= filter_conditions(missing_desc, missing_tags));
    join_strings(&conditions, " AND ")
}

/// The ids of the listed media, oldest import first.
pub fn filtered_ids_sql(missing_desc: bool, missing_tags: bool) -> (res: String)
    ensures
        res@ == "SELECT m.id FROM media m WHERE "@ + where_clause(missing_desc, missing_tags)
            + " ORDER BY m.imported_at ASC"@,
{
    let w = filter_where_clause(missing_desc, missing_tags);
    concat3("SELECT m.id FROM media m WHERE ", w.as_str(), " ORDER BY m.imported_at ASC")
}

/// How many media are listed.
pub fn filtered_count_sql(missing_desc: bool, missing_tags: bool) -> (res: String)
    ensures
        res@ == "SELECT COUNT(*) FROM media m WHERE "@ + where_clause(missing_desc, missing_tags),
{
    let w = filter_where_clause(missing_desc, missing_tags);
    concat("SELECT COUNT(*) FROM media m WHERE ", w.as_str())
}

/// The head of the query for one listed item with its description.
pub open spec fn page_sql_head() -> Seq<char> {
    "SELECT m.id, m.extension, m.media_type, m.codec, m.duration, t.value FROM media m LEFT JOIN tags t ON m.id = t.media_id AND t.key = 'description' WHERE "@
}

/// The listed item at the position bound to `?1`, with its description.
pub fn description_page_sql(missing_desc: bool, missing_tags: bool) -> (res: String)
    ensures
        res@ == page_sql_head() + where_clause(missing_desc, missing_tags)
            + " ORDER BY m.imported_at ASC LIMIT 1 OFFSET ?1"@,
{
    let w = filter_where_clause(missing_desc, missing_tags);
    concat3(
        "SELECT m.id, m.extension, m.media_type, m.codec, m.duration, t.value FROM media m LEFT JOIN tags t ON m.id = t.media_id AND t.key = 'description' WHERE ",
        w.as_str(),
        " ORDER BY m.imported_at ASC LIMIT 1 OFFSET ?1",
    )
}

/// The position, counted from 0, of the item whose id is bound to `?1` in
/// the listing.
pub fn media_index_sql(missing_desc: bool, missing_tags: bool) -> (res: String)
    ensures
        res@ == "SELECT idx FROM (SELECT m.id, ROW_NUMBER() OVER (ORDER BY m.imported_at ASC) - 1 AS idx FROM media m WHERE "@
            + where_clause(missing_desc, missing_tags) + ") WHERE id = ?1"@,
{
    let w = filter_where_clause(missing_desc, missing_tags);
    concat3(
        "SELECT idx FROM (SELECT m.id, ROW_NUMBER() OVER (ORDER BY m.imported_at ASC) - 1 AS idx FROM media m WHERE ",
        w.as_str(),
        ") WHERE id = ?1",
    )
}

/// The position a description page shows, given how many media are processed
/// (`total_count`) and how many the filters leave (`filtered_count`): none
/// if either is 0, else the asked `index`, but at most the last one.
pub fn description_page_index(total_count: u32, filtered_count: u32, index: u32) -> (res: Option<u32>)
    ensures
        res == if total_count == 0 || filtered_count == 0 {
            None
        } else if index < filtered_count {
            Some(index)
        } else {
            Some((filtered_count - 1) as u32)
        },
{
    if total_count == 0 || filtered_count == 0 {
        return None;
    }
    let last = filtered_count - 1;
    if index < last { Some(index) } else { Some(last) }
}

} // verus!
