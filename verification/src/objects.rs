//! Directory entries: building them from raw enumeration data, scoring them
//! against an optional query, filtering out non-matches, and stably sorting
//! the remainder by ascending relevance.

use vstd::prelude::*;
use vstd::seq_lib::*;
use crate::score::{query_view, score, spec_relevance};

verus! {

/// Whether a directory entry is a file or a folder.
#[derive(Clone, Copy, PartialEq, Eq, Structural)]
pub enum ObjectType {
    File,
    Folder,
}

/// A ranked directory entry. `relevance` is 0 when no query was supplied or
/// the name matches exactly; lower is more relevant. A folder never carries
/// a size.
#[derive(Clone)]
pub struct Object {
    pub path: String,
    pub name: String,
    pub object_type: ObjectType,
    pub relevance: usize,
    pub size: Option<u64>,
    pub modified: Option<String>,
}

/// Options for paging through a listing.
pub struct PaginationOptions {
    limit: usize,
    offset: usize,
}

/// What the caller learned about one immediate child of the listed
/// directory: its path, decoded base name (empty when undecodable), whether
/// it is a directory, and whatever metadata could be obtained.
pub struct RawEntry {
    pub path: String,
    pub name: String,
    pub is_dir: bool,
    pub size: Option<u64>,
    pub modified: Option<String>,
}

/// The entry built from raw data `e` with relevance `rel`: folders never
/// keep a size, whatever the metadata said.
pub open spec fn object_of(e: RawEntry, rel: int) -> Object {
    Object {
        path: e.path,
        name: e.name,
        object_type: if e.is_dir {
            ObjectType::Folder
        } else {
            ObjectType::File
        },
        relevance: rel as usize,
        size: if e.is_dir {
            None
        } else {
            e.size
        },
        modified: e.modified,
    }
}

/// What one raw entry contributes to the listing: nothing when a folder-only
/// listing meets a file or when the scorer reports no match, one entry
/// otherwise.
pub open spec fn keep_one(e: RawEntry, q: Option<Seq<char>>, folder_only: bool) -> Seq<Object> {
    if folder_only && !e.is_dir {
        Seq::empty()
    } else {
        match spec_relevance(e.name@, q) {
            Some(rel) => seq![object_of(e, rel)],
            None => Seq::empty(),
        }
    }
}

/// The scored, filtered entries in enumeration order, before any sorting.
pub open spec fn scored_entries(
    es: Seq<RawEntry>,
    q: Option<Seq<char>>,
    folder_only: bool,
) -> Seq<Object>
    decreases es.len(),
{
    if es.len() == 0 {
        Seq::empty()
    } else {
        scored_entries(es.drop_last(), q, folder_only) + keep_one(es.last(), q, folder_only)
    }
}

/// Where a stable insertion by relevance puts a new element: directly before
/// the first element with a strictly greater relevance, so that it lands
/// after every element that ties with it.
pub open spec fn insert_pos(s: Seq<Object>, rel: usize) -> int
    decreases s.len(),
{
    if s.len() == 0 {
        0
    } else if s[0].relevance > rel {
        0
    } else {
        1 + insert_pos(s.drop_first(), rel)
    }
}

/// One stable insertion step.
pub open spec fn insert_sorted(s: Seq<Object>, x: Object) -> Seq<Object> {
    s.insert(insert_pos(s, x.relevance), x)
}

/// Stable insertion sort by ascending relevance.
pub open spec fn sort_by_relevance(s: Seq<Object>) -> Seq<Object>
    decreases s.len(),
{
    if s.len() == 0 {
        s
    } else {
        insert_sorted(sort_by_relevance(s.drop_last()), s.last())
    }
}

/// Whether a query was supplied and non-empty, so that filtering and
/// sorting apply.
pub open spec fn live_query(q: Option<Seq<char>>) -> bool {
    q matches Some(qs) && qs.len() > 0
}

/// The full listing policy: score and filter every raw entry, then sort
/// stably by relevance when a live query was given, else keep enumeration
/// order.
pub open spec fn grab_spec(
    es: Seq<RawEntry>,
    q: Option<Seq<char>>,
    folder_only: bool,
) -> Seq<Object> {
    if live_query(q) {
        sort_by_relevance(scored_entries(es, q, folder_only))
    } else {
        scored_entries(es, q, folder_only)
    }
}

/// The insertion position is within bounds, everything before it ties with
/// or undercuts `rel`, and the element there (if any) strictly exceeds it.
pub proof fn lemma_insert_pos_props(s: Seq<Object>, rel: usize)
    ensures
        0 <= insert_pos(s, rel) <= s.len(),
        forall|k: int| 0 <= k < insert_pos(s, rel) ==> s[k].relevance <= rel,
        insert_pos(s, rel) < s.len() ==> s[insert_pos(s, rel)].relevance > rel,
    decreases s.len(),
{
    if s.len() == 0 {
    } else if s[0].relevance > rel {
    } else {
        lemma_insert_pos_props(s.drop_first(), rel);
        assert forall|k: int| 0 <= k < insert_pos(s, rel) implies s[k].relevance <= rel by {
            if k > 0 {
                assert(s.drop_first()[k - 1] == s[k]);
            }
        }
    }
}

/// Any position that undercuts on the left and strictly exceeds on the
/// right is the insertion position.
proof fn lemma_insert_pos_unique(s: Seq<Object>, rel: usize, p: int)
    requires
        0 <= p <= s.len(),
        forall|k: int| 0 <= k < p ==> s[k].relevance <= rel,
        p < s.len() ==> s[p].relevance > rel,
    ensures
        insert_pos(s, rel) == p,
    decreases s.len(),
{
    if s.len() == 0 {
    } else if s[0].relevance > rel {
        assert(p == 0);
    } else {
        assert(p >= 1) by {
            assert(0 < s.len() ==> !(s[0].relevance > rel));
        }
        assert forall|k: int| 0 <= k < p - 1 implies s.drop_first()[k].relevance <= rel by {
            assert(s.drop_first()[k] == s[k + 1]);
        }
        assert(p - 1 < s.drop_first().len() ==> s.drop_first()[p - 1].relevance > rel);
        lemma_insert_pos_unique(s.drop_first(), rel, p - 1);
    }
}

/// Sorting does not change the number of entries.
pub proof fn lemma_sort_len(s: Seq<Object>)
    ensures
        sort_by_relevance(s).len() == s.len(),
    decreases s.len(),
{
    if s.len() > 0 {
        lemma_sort_len(s.drop_last());
        lemma_insert_pos_props(sort_by_relevance(s.drop_last()), s.last().relevance);
    }
}

/// Stably sorts the vector by ascending relevance in place.
fn sort_objects(v: &mut Vec<Object>)
    ensures
        final(v)@ == sort_by_relevance(old(v)@),
{
    let ghost orig = old(v)@;
    let mut i: usize = 0;
    while i < v.len()
        invariant
            i <= orig.len(),
            v@.len() == orig.len(),
            v@ == sort_by_relevance(orig.take(i as int)) + orig.skip(i as int),
        decreases orig.len() - i,
    {
        let ghost spre = sort_by_relevance(orig.take(i as int));
        proof {
            lemma_sort_len(orig.take(i as int));
            assert(v@[i as int] == orig[i as int]);
        }
        let xr = v[i].relevance;
        let mut pos: usize = 0;
        while pos < i && v[pos].relevance <= xr
            invariant
                pos <= i,
                i < v@.len(),
                v@.len() == orig.len(),
                v@ == spre + orig.skip(i as int),
                spre.len() == i,
                xr == orig[i as int].relevance,
                forall|k: int| 0 <= k < pos ==> spre[k].relevance <= xr,
            decreases i - pos,
        {
            proof {
                assert(v@[pos as int] == spre[pos as int]);
            }
            pos = pos + 1;
        }
        proof {
            if pos < i {
                assert(v@[pos as int] == spre[pos as int]);
            }
            lemma_insert_pos_unique(spre, xr, pos as int);
        }
        let x = v.remove(i);
        v.insert(pos, x);
        proof {
            let ghost xo = orig[i as int];
            assert(orig.take(i + 1).drop_last() =~= orig.take(i as int));
            assert(orig.take(i + 1).last() == xo);
            assert(sort_by_relevance(orig.take(i + 1)) == insert_sorted(spre, xo));
            assert((spre + orig.skip(i as int)).remove(i as int) =~= spre + orig.skip(i + 1));
            assert((spre + orig.skip(i + 1)).insert(pos as int, xo) =~= spre.insert(
                pos as int,
                xo,
            ) + orig.skip(i + 1));
        }
        i = i + 1;
    }
    proof {
        assert(orig.take(orig.len() as int) =~= orig);
        assert(orig.skip(orig.len() as int) =~= Seq::<Object>::empty());
        assert(sort_by_relevance(orig) + Seq::<Object>::empty() =~= sort_by_relevance(orig));
    }
}

/// Builds the ranked listing from the raw children of one directory: each
/// entry is classified and scored, non-matches and (in folder-only mode)
/// files are dropped, and with a live query the rest is stably sorted by
/// ascending relevance; without one, enumeration order is preserved.
pub fn grab_objects(entries: Vec<RawEntry>, search_query: Option<&str>, folder_only: bool) -> (r:
    Vec<Object>)
    ensures
        r@ == grab_spec(entries@, query_view(search_query), folder_only),
{
    let ghost all = entries@;
    let ghost q = query_view(search_query);
    let mut rest = entries;
    let mut objects: Vec<Object> = Vec::new();
    let ghost mut done: int = 0;
    while rest.len() > 0
        invariant
            q == query_view(search_query),
            0 <= done <= all.len(),
            rest@ =~= all.skip(done),
            objects@ == scored_entries(all.take(done), q, folder_only),
        decreases rest@.len(),
    {
        let e = rest.remove(0);
        let ghost ge = e;
        proof {
            assert(ge == all[done]);
            assert(all.take(done + 1).drop_last() =~= all.take(done));
            assert(all.take(done + 1).last() == all[done]);
        }
        let rel_opt = score(e.name.as_str(), search_query);
        match rel_opt {
            Some(rel) => {
                if e.is_dir {
                    let obj = Object {
                        path: e.path,
                        name: e.name,
                        object_type: ObjectType::Folder,
                        relevance: rel,
                        size: None,
                        modified: e.modified,
                    };
                    objects.push(obj);
                    proof {
                        assert(obj == object_of(ge, rel as int));
                        assert(objects@ =~= scored_entries(all.take(done), q, folder_only)
                            + keep_one(ge, q, folder_only));
                    }
                } else if !folder_only {
                    let obj = Object {
                        path: e.path,
                        name: e.name,
                        object_type: ObjectType::File,
                        relevance: rel,
                        size: e.size,
                        modified: e.modified,
                    };
                    objects.push(obj);
                    proof {
                        assert(obj == object_of(ge, rel as int));
                        assert(objects@ =~= scored_entries(all.take(done), q, folder_only)
                            + keep_one(ge, q, folder_only));
                    }
                } else {
                    proof {
                        assert(objects@ =~= scored_entries(all.take(done), q, folder_only)
                            + keep_one(ge, q, folder_only));
                    }
                }
            },
            None => {
                proof {
                    assert(objects@ =~= scored_entries(all.take(done), q, folder_only)
                        + keep_one(ge, q, folder_only));
                }
            },
        }
        proof {
            done = done + 1;
            assert(rest@ =~= all.skip(done));
        }
    }
    proof {
        assert(all.take(all.len() as int) =~= all);
        assert(done == all.len());
    }
    let live = match search_query {
        Some(query) => !query.is_empty(),
        None => false,
    };
    if live {
        sort_objects(&mut objects);
    }
    objects
}

/// All entries of `s` satisfy `p`.
pub open spec fn all_objects(s: Seq<Object>, p: spec_fn(Object) -> bool) -> bool {
    forall|k: int| 0 <= k < s.len() ==> p(#[trigger] s[k])
}

/// Relevance never decreases along `s`.
pub open spec fn rel_sorted(s: Seq<Object>) -> bool {
    forall|i: int, j: int| 0 <= i <= j < s.len() ==> s[i].relevance <= s[j].relevance
}

/// The entries that carry relevance `rel`.
pub open spec fn has_rel(rel: usize) -> spec_fn(Object) -> bool {
    |o: Object| o.relevance == rel
}

proof fn lemma_insert_sorted_sorted(s: Seq<Object>, x: Object)
    requires
        rel_sorted(s),
    ensures
        rel_sorted(insert_sorted(s, x)),
{
    lemma_insert_pos_props(s, x.relevance);
    let pos = insert_pos(s, x.relevance);
    s.insert_ensures(pos, x);
    let t = insert_sorted(s, x);
    assert forall|i: int, j: int| 0 <= i <= j < t.len() implies t[i].relevance
        <= t[j].relevance by {
        if i > pos {
            assert(t[i] == s[i - 1]);
        }
        if j > pos {
            assert(t[j] == s[j - 1]);
        }
    }
}

/// Sorting yields a sequence whose relevance never decreases.
pub proof fn lemma_sort_sorted(s: Seq<Object>)
    ensures
        rel_sorted(sort_by_relevance(s)),
    decreases s.len(),
{
    if s.len() > 0 {
        lemma_sort_sorted(s.drop_last());
        lemma_insert_sorted_sorted(sort_by_relevance(s.drop_last()), s.last());
    }
}

/// Sorting rearranges the entries and loses or invents none.
pub proof fn lemma_sort_multiset(s: Seq<Object>)
    ensures
        sort_by_relevance(s).to_multiset() == s.to_multiset(),
    decreases s.len(),
{
    if s.len() > 0 {
        let s1 = s.drop_last();
        let x = s.last();
        let t = sort_by_relevance(s1);
        lemma_sort_multiset(s1);
        lemma_insert_pos_props(t, x.relevance);
        to_multiset_insert(t, insert_pos(t, x.relevance), x);
        to_multiset_build(s1, x);
        assert(s1.push(x) =~= s);
        assert(sort_by_relevance(s).to_multiset() =~= s.to_multiset());
    }
}

proof fn lemma_filter_singleton(x: Object, pred: spec_fn(Object) -> bool)
    ensures
        seq![x].filter(pred) == if pred(x) {
            seq![x]
        } else {
            Seq::<Object>::empty()
        },
{
    reveal(Seq::filter);
    let s = seq![x];
    assert(s.len() == 1);
    assert(s.last() == x);
    assert(s.drop_last() =~= Seq::<Object>::empty());
    assert(s.drop_last() == Seq::<Object>::empty());
    assert(Seq::<Object>::empty().filter(pred) == Seq::<Object>::empty());
    if pred(x) {
        assert(s.filter(pred) == s.drop_last().filter(pred).push(x));
        assert(Seq::<Object>::empty().push(x) =~= s);
    } else {
        assert(s.filter(pred) == s.drop_last().filter(pred));
    }
}

proof fn lemma_insert_sorted_filter(s: Seq<Object>, x: Object, rel: usize)
    requires
        rel_sorted(s),
    ensures
        insert_sorted(s, x).filter(has_rel(rel)) == if x.relevance == rel {
            s.filter(has_rel(rel)).push(x)
        } else {
            s.filter(has_rel(rel))
        },
{
    let pred = has_rel(rel);
    lemma_insert_pos_props(s, x.relevance);
    let pos = insert_pos(s, x.relevance);
    let t = insert_sorted(s, x);
    let front = s.subrange(0, pos);
    let back = s.subrange(pos, s.len() as int);
    assert(t =~= (front + seq![x]) + back);
    assert(s =~= front + back);
    Seq::<Object>::filter_distributes_over_add(front + seq![x], back, pred);
    Seq::<Object>::filter_distributes_over_add(front, seq![x], pred);
    Seq::<Object>::filter_distributes_over_add(front, back, pred);
    lemma_filter_singleton(x, pred);
    if x.relevance == rel {
        assert forall|k: int| 0 <= k < back.len() implies !pred(back[k]) by {
            assert(back[k] == s[pos + k]);
            assert(s[pos].relevance <= s[pos + k].relevance);
        }
        assert(back.all(|o: Object| !pred(o)));
        back.lemma_all_neg_filter_empty(pred);
        assert(back.filter(pred) =~= Seq::<Object>::empty());
        assert(t.filter(pred) =~= s.filter(pred).push(x));
    } else {
        assert(t.filter(pred) =~= s.filter(pred));
    }
}

/// Sorting is stable: the entries that carry any one relevance value appear
/// in the output in exactly their input order.
pub proof fn lemma_sort_stable(s: Seq<Object>, rel: usize)
    ensures
        sort_by_relevance(s).filter(has_rel(rel)) == s.filter(has_rel(rel)),
    decreases s.len(),
{
    reveal(Seq::filter);
    if s.len() > 0 {
        let s1 = s.drop_last();
        let x = s.last();
        lemma_sort_stable(s1, rel);
        lemma_sort_sorted(s1);
        lemma_insert_sorted_filter(sort_by_relevance(s1), x, rel);
    }
}

proof fn lemma_insert_sorted_all(s: Seq<Object>, x: Object, p: spec_fn(Object) -> bool)
    requires
        all_objects(s, p),
        p(x),
    ensures
        all_objects(insert_sorted(s, x), p),
{
    lemma_insert_pos_props(s, x.relevance);
    let pos = insert_pos(s, x.relevance);
    s.insert_ensures(pos, x);
    let t = insert_sorted(s, x);
    assert forall|k: int| 0 <= k < t.len() implies p(t[k]) by {
        if k > pos {
            assert(t[k] == s[k - 1]);
        }
    }
}

proof fn lemma_sort_all(s: Seq<Object>, p: spec_fn(Object) -> bool)
    requires
        all_objects(s, p),
    ensures
        all_objects(sort_by_relevance(s), p),
    decreases s.len(),
{
    if s.len() > 0 {
        assert forall|k: int| 0 <= k < s.drop_last().len() implies p(s.drop_last()[k]) by {
            assert(s.drop_last()[k] == s[k]);
        }
        lemma_sort_all(s.drop_last(), p);
        lemma_insert_sorted_all(sort_by_relevance(s.drop_last()), s.last(), p);
    }
}

proof fn lemma_scored_all(
    es: Seq<RawEntry>,
    q: Option<Seq<char>>,
    folder_only: bool,
    p: spec_fn(Object) -> bool,
)
    requires
        forall|e: RawEntry, rel: int|
            spec_relevance(e.name@, q) == Some(rel) ==> p(#[trigger] object_of(e, rel)),
    ensures
        all_objects(scored_entries(es, q, folder_only), p),
    decreases es.len(),
{
    if es.len() > 0 {
        lemma_scored_all(es.drop_last(), q, folder_only, p);
        let pre = scored_entries(es.drop_last(), q, folder_only);
        let whole = scored_entries(es, q, folder_only);
        let last = es.last();
        assert forall|k: int| 0 <= k < whole.len() implies p(whole[k]) by {
            if k < pre.len() {
                assert(whole[k] == pre[k]);
            } else {
                assert(spec_relevance(last.name@, q) is Some);
                let rel = spec_relevance(last.name@, q)->0;
                assert(whole[k] == object_of(last, rel));
            }
        }
    }
}

/// A folder entry never carries a size, whatever the filesystem metadata
/// said about the underlying path.
pub proof fn lemma_folders_carry_no_size(
    es: Seq<RawEntry>,
    q: Option<Seq<char>>,
    folder_only: bool,
)
    ensures
        forall|k: int|
            0 <= k < grab_spec(es, q, folder_only).len() ==> ((#[trigger] grab_spec(
                es,
                q,
                folder_only,
            )[k]).object_type == ObjectType::Folder ==> grab_spec(es, q, folder_only)[k].size
                is None),
{
    let p = |o: Object| o.object_type == ObjectType::Folder ==> o.size is None;
    assert forall|e: RawEntry, rel: int|
        spec_relevance(e.name@, q) == Some(rel) implies p(#[trigger] object_of(e, rel)) by {
        assert(object_of(e, rel).object_type == ObjectType::Folder ==> e.is_dir);
    }
    lemma_scored_all(es, q, folder_only, p);
    if live_query(q) {
        lemma_sort_all(scored_entries(es, q, folder_only), p);
    }
}

/// With a live query, every returned entry's name scores some finite
/// relevance: a name that every tier rejects is excluded from the listing.
pub proof fn lemma_no_match_excluded(es: Seq<RawEntry>, q: Option<Seq<char>>, folder_only: bool)
    requires
        live_query(q),
    ensures
        forall|k: int|
            0 <= k < grab_spec(es, q, folder_only).len() ==> spec_relevance(
                (#[trigger] grab_spec(es, q, folder_only)[k]).name@,
                q,
            ) is Some,
{
    let p = |o: Object| spec_relevance(o.name@, q) is Some;
    assert forall|e: RawEntry, rel: int|
        spec_relevance(e.name@, q) == Some(rel) implies p(#[trigger] object_of(e, rel)) by {
        assert(object_of(e, rel).name == e.name);
    }
    lemma_scored_all(es, q, folder_only, p);
    lemma_sort_all(scored_entries(es, q, folder_only), p);
}

} // verus!
