//! Laws that relate the operations on the store to one another.

use vstd::prelude::*;
use crate::db::{
    adds_comment, apart_from, lemma_position, lemma_with_note_wf, lemma_without_note_wf, note_of,
    relates_notes, DbError, StoreView,
};
use crate::listing::{lists_relations, lists_rows, outranked};
use crate::models::{Note, NoteRelation, NoteRelationType, NoteRowView, NoteView};
use crate::order::listed_before;
use crate::seqs::lemma_filter_members;
use crate::tags::{storable, tags_json};
use crate::time::Timestamp;

verus! {

/// A note that was created is found under its identifier, with the content
/// and the tags that it was created with.
pub proof fn law_created_note_is_found(
    s: StoreView,
    content: Seq<char>,
    tags: Seq<Seq<char>>,
    at: Timestamp,
)
    requires
        s.wf(),
        storable(tags),
        s.last_note_id < i64::MAX,
    ensures
        s.with_note(content, tags_json(tags).unwrap(), at).lookup(s.next_note_id()) matches Some(
            row,
        ) && note_of(row) == Some(
            NoteView { id: s.next_note_id(), content, tags, created_at: at, updated_at: at },
        ),
{
    let t = s.with_note(content, tags_json(tags).unwrap(), at);
    lemma_with_note_wf(s, content, tags_json(tags).unwrap(), at);
    lemma_position(t, t.notes.len() - 1);
}

/// A note that was deleted is not found any more, and deleting it once more
/// finds nothing to delete and changes nothing.
pub proof fn law_deleted_note_is_gone(s: StoreView, id: int)
    requires
        s.wf(),
    ensures
        s.without_note(id).lookup(id) is None,
        !s.without_note(id).has_note(id),
        s.without_note(id).without_note(id) == s.without_note(id),
{
    lemma_without_note_wf(s, id);
    lemma_without_note_wf(s.without_note(id), id);
}

/// Deleting a note deletes exactly the relations that name it: none of
/// those that are left names it as source or as target, and every relation
/// that did not name it is still there.
pub proof fn law_delete_cascades(s: StoreView, id: int)
    requires
        s.wf(),
    ensures
        forall|k: int|
            0 <= k < s.without_note(id).relations.len() ==> {
                &&& (#[trigger] s.without_note(id).relations[k]).source_note_id != id
                &&& s.without_note(id).relations[k].target_note_id != id
                &&& s.relations.contains(s.without_note(id).relations[k])
            },
        forall|i: int|
            0 <= i < s.relations.len() && (#[trigger] s.relations[i]).source_note_id != id
                && s.relations[i].target_note_id != id ==> s.without_note(id).relations.contains(
                s.relations[i],
            ),
{
    lemma_filter_members(s.relations, apart_from(id));
    assert forall|i: int|
        0 <= i < s.relations.len() && (#[trigger] s.relations[i]).source_note_id != id
            && s.relations[i].target_note_id != id implies s.without_note(id).relations.contains(
        s.relations[i],
    ) by {
        s.relations.lemma_filter_contains(apart_from(id), i);
    }
}

/// A comment is one unit. Where its relation cannot be stored, the comment
/// fails, the store is as it was before, and the note that would have
/// carried the comment is not to be found.
pub proof fn law_comment_is_atomic(
    before: StoreView,
    target: i64,
    content: Seq<char>,
    tags: Seq<Seq<char>>,
    at: Timestamp,
    after: StoreView,
    r: Result<(Note, NoteRelation), DbError>,
)
    requires
        before.wf(),
        adds_comment(before, target, content, tags, at, after, r),
        before.last_relation_id == i64::MAX,
    ensures
        r is Err,
        after == before,
        !after.has_note(before.next_note_id()),
{
    if before.has_note(before.next_note_id()) {
        let p = before.position(before.next_note_id());
        assert(before.notes[p].id <= before.last_note_id);
    }
}

/// A comment on a note that does not exist fails as not found and stores
/// nothing.
pub proof fn law_comment_needs_target(
    before: StoreView,
    target: i64,
    content: Seq<char>,
    tags: Seq<Seq<char>>,
    at: Timestamp,
    after: StoreView,
    r: Result<(Note, NoteRelation), DbError>,
)
    requires
        adds_comment(before, target, content, tags, at, after, r),
        !before.has_note(target as int),
    ensures
        r == Err::<(Note, NoteRelation), DbError>(DbError::NotFound),
        after == before,
{
}

/// A relation to or from a note that does not exist fails as not found and
/// stores no relation.
pub proof fn law_relation_needs_both_ends(
    before: StoreView,
    source: i64,
    target: i64,
    kind: NoteRelationType,
    at: Timestamp,
    after: StoreView,
    r: Result<NoteRelation, DbError>,
)
    requires
        relates_notes(before, source, target, kind, at, after, r),
        !before.has_note(source as int) || !before.has_note(target as int),
    ensures
        r == Err::<NoteRelation, DbError>(DbError::NotFound),
        after.relations == before.relations,
        after == before,
{
}

/// In a well-formed store no relation is without one of its two notes.
pub proof fn law_relations_have_both_ends(s: StoreView, k: int)
    requires
        s.wf(),
        0 <= k < s.relations.len(),
    ensures
        s.lookup(s.relations[k].source_note_id as int) is Some,
        s.lookup(s.relations[k].target_note_id as int) is Some,
{
}

/// No two of the rows have the same identifier.
pub open spec fn distinct_ids(rows: Seq<NoteRowView>) -> bool {
    forall|i: int, j: int|
        0 <= i < j < rows.len() ==> (#[trigger] rows[i]).id != (#[trigger] rows[j]).id
}

/// Two listings of the same rows agree on their first `k` places.
proof fn lemma_listings_agree(
    rows: Seq<NoteRowView>,
    wanted: spec_fn(NoteRowView) -> bool,
    cap: Option<int>,
    a: Seq<NoteRowView>,
    b: Seq<NoteRowView>,
    k: int,
)
    requires
        distinct_ids(rows),
        lists_rows(rows, wanted, cap, a),
        lists_rows(rows, wanted, cap, b),
        0 <= k <= a.len(),
        k <= b.len(),
    ensures
        forall|m: int| 0 <= m < k ==> a[m] == b[m],
    decreases k,
{
    if k > 0 {
        lemma_listings_agree(rows, wanted, cap, a, b, k - 1);
        let x = a[k - 1];
        let y = b[k - 1];
        assert(rows.contains(x) && rows.contains(y));
        let i = choose|i: int| 0 <= i < rows.len() && rows[i] == x;
        let j = choose|j: int| 0 <= j < rows.len() && rows[j] == y;
        if x != y {
            assert(i != j);
            assert(x.id != y.id) by {
                if i < j {
                    assert(rows[i].id != rows[j].id);
                } else {
                    assert(rows[j].id != rows[i].id);
                }
            }
            lemma_not_placed(rows, wanted, cap, a, b, k - 1, i);
            lemma_not_placed(rows, wanted, cap, b, a, k - 1, j);
        }
    }
}

/// Where two listings agree before the place `p`, the row at `p` of the one
/// cannot be listed before the row at `p` of the other.
proof fn lemma_not_placed(
    rows: Seq<NoteRowView>,
    wanted: spec_fn(NoteRowView) -> bool,
    cap: Option<int>,
    a: Seq<NoteRowView>,
    b: Seq<NoteRowView>,
    p: int,
    i: int,
)
    requires
        lists_rows(rows, wanted, cap, a),
        lists_rows(rows, wanted, cap, b),
        0 <= p < a.len(),
        p < b.len(),
        forall|m: int| 0 <= m < p ==> a[m] == b[m],
        0 <= i < rows.len(),
        rows[i] == a[p],
        a[p] != b[p],
    ensures
        !listed_before(a[p].created_at, a[p].id, b[p].created_at, b[p].id, true),
{
    let x = a[p];
    assert(wanted(rows[i]));
    if !listed_before(a[p].created_at, a[p].id, b[p].created_at, b[p].id, true) {
    } else if b.contains(rows[i]) {
        let q = choose|q: int| 0 <= q < b.len() && b[q] == x;
        if q < p {
            assert(a[q] == b[q]);
            assert(listed_before(a[q].created_at, a[q].id, a[p].created_at, a[p].id, true));
        } else if q > p {
            assert(listed_before(b[p].created_at, b[p].id, b[q].created_at, b[q].id, true));
        }
    } else {
        assert(outranked(b, rows[i]));
        assert(listed_before(b[p].created_at, b[p].id, x.created_at, x.id, true));
    }
}

/// A listing is fixed by the rows, the filter and the limit: there are no
/// two different listings of the same notes.
pub proof fn law_note_listing_is_unique(
    rows: Seq<NoteRowView>,
    wanted: spec_fn(NoteRowView) -> bool,
    cap: Option<int>,
    a: Seq<NoteRowView>,
    b: Seq<NoteRowView>,
)
    requires
        distinct_ids(rows),
        lists_rows(rows, wanted, cap, a),
        lists_rows(rows, wanted, cap, b),
    ensures
        a == b,
{
    let k = if a.len() <= b.len() { a.len() as int } else { b.len() as int };
    lemma_listings_agree(rows, wanted, cap, a, b, k);
    if a.len() <= b.len() {
        lemma_no_room(rows, wanted, cap, a, b);
    } else {
        assert forall|m: int| 0 <= m < b.len() implies b[m] == a[m] by {}
        lemma_no_room(rows, wanted, cap, b, a);
    }
    assert(a =~= b);
}

/// Of two listings of the same rows that agree as far as the shorter one
/// goes, neither is longer than the other.
proof fn lemma_no_room(
    rows: Seq<NoteRowView>,
    wanted: spec_fn(NoteRowView) -> bool,
    cap: Option<int>,
    a: Seq<NoteRowView>,
    b: Seq<NoteRowView>,
)
    requires
        lists_rows(rows, wanted, cap, a),
        lists_rows(rows, wanted, cap, b),
        a.len() <= b.len(),
        forall|m: int| 0 <= m < a.len() ==> a[m] == b[m],
    ensures
        a.len() == b.len(),
{
    if a.len() < b.len() {
        let n = a.len() as int;
        let y = b[n];
        assert(rows.contains(y) && wanted(y));
        let j = choose|j: int| 0 <= j < rows.len() && rows[j] == y;
        assert(wanted(rows[j]));
        if a.contains(rows[j]) {
            let q = choose|q: int| 0 <= q < a.len() && a[q] == y;
            assert(b[q] == a[q]);
            assert(listed_before(b[q].created_at, b[q].id, b[n].created_at, b[n].id, true));
        }
    }
}

/// The relations that point at a note have one listing only.
pub proof fn law_relation_listing_is_unique(
    all: Seq<NoteRelation>,
    wanted: spec_fn(NoteRelation) -> bool,
    a: Seq<NoteRelation>,
    b: Seq<NoteRelation>,
)
    requires
        forall|i: int, j: int|
            0 <= i < j < all.len() ==> (#[trigger] all[i]).id != (#[trigger] all[j]).id,
        lists_relations(all, wanted, a),
        lists_relations(all, wanted, b),
    ensures
        a == b,
{
    let k = if a.len() <= b.len() { a.len() as int } else { b.len() as int };
    lemma_relation_listings_agree(all, wanted, a, b, k);
    if a.len() <= b.len() {
        lemma_relation_missing(all, wanted, a, b);
    } else {
        assert forall|m: int| 0 <= m < b.len() implies b[m] == a[m] by {}
        lemma_relation_missing(all, wanted, b, a);
    }
    assert(a =~= b);
}

/// Two listings of the same relations agree on their first `k` places.
proof fn lemma_relation_listings_agree(
    all: Seq<NoteRelation>,
    wanted: spec_fn(NoteRelation) -> bool,
    a: Seq<NoteRelation>,
    b: Seq<NoteRelation>,
    k: int,
)
    requires
        forall|i: int, j: int|
            0 <= i < j < all.len() ==> (#[trigger] all[i]).id != (#[trigger] all[j]).id,
        lists_relations(all, wanted, a),
        lists_relations(all, wanted, b),
        0 <= k <= a.len(),
        k <= b.len(),
    ensures
        forall|m: int| 0 <= m < k ==> a[m] == b[m],
    decreases k,
{
    if k > 0 {
        lemma_relation_listings_agree(all, wanted, a, b, k - 1);
        let x = a[k - 1];
        let y = b[k - 1];
        assert(all.contains(x) && all.contains(y));
        let i = choose|i: int| 0 <= i < all.len() && all[i] == x;
        let j = choose|j: int| 0 <= j < all.len() && all[j] == y;
        if x != y {
            assert(x.id != y.id) by {
                if i < j {
                    assert(all[i].id != all[j].id);
                } else if j < i {
                    assert(all[j].id != all[i].id);
                }
            }
            lemma_relation_not_placed(all, wanted, a, b, k - 1, i);
            lemma_relation_not_placed(all, wanted, b, a, k - 1, j);
        }
    }
}

/// Where two listings of relations agree before the place `p`, the
/// relation at `p` of the one cannot be listed before that of the other.
proof fn lemma_relation_not_placed(
    all: Seq<NoteRelation>,
    wanted: spec_fn(NoteRelation) -> bool,
    a: Seq<NoteRelation>,
    b: Seq<NoteRelation>,
    p: int,
    i: int,
)
    requires
        lists_relations(all, wanted, a),
        lists_relations(all, wanted, b),
        0 <= p < a.len(),
        p < b.len(),
        forall|m: int| 0 <= m < p ==> a[m] == b[m],
        0 <= i < all.len(),
        all[i] == a[p],
        a[p] != b[p],
    ensures
        !listed_before(a[p].created_at, a[p].id as int, b[p].created_at, b[p].id as int, false),
{
    let x = a[p];
    assert(wanted(all[i]));
    assert(b.contains(all[i]));
    let q = choose|q: int| 0 <= q < b.len() && b[q] == x;
    if !listed_before(a[p].created_at, a[p].id as int, b[p].created_at, b[p].id as int, false) {
    } else if q < p {
        assert(a[q] == b[q]);
        assert(listed_before(
            a[q].created_at,
            a[q].id as int,
            a[p].created_at,
            a[p].id as int,
            false,
        ));
    } else if q > p {
        assert(listed_before(
            b[p].created_at,
            b[p].id as int,
            b[q].created_at,
            b[q].id as int,
            false,
        ));
    }
}

/// Of two listings of the same relations that agree as far as the shorter
/// one goes, neither is longer than the other.
proof fn lemma_relation_missing(
    all: Seq<NoteRelation>,
    wanted: spec_fn(NoteRelation) -> bool,
    a: Seq<NoteRelation>,
    b: Seq<NoteRelation>,
)
    requires
        lists_relations(all, wanted, a),
        lists_relations(all, wanted, b),
        a.len() <= b.len(),
        forall|m: int| 0 <= m < a.len() ==> a[m] == b[m],
    ensures
        a.len() == b.len(),
{
    if a.len() < b.len() {
        let n = a.len() as int;
        let y = b[n];
        assert(all.contains(y) && wanted(y));
        let j = choose|j: int| 0 <= j < all.len() && all[j] == y;
        assert(wanted(all[j]));
        assert(a.contains(all[j]));
        let q = choose|q: int| 0 <= q < a.len() && a[q] == y;
        assert(b[q] == a[q]);
        assert(listed_before(
            b[q].created_at,
            b[q].id as int,
            b[n].created_at,
            b[n].id as int,
            false,
        ));
    }
}

} // verus!
