//! Listings: the notes that meet a filter, the relations that point at a
//! note, and the comments on a note, each in the order of time.

use vstd::prelude::*;
use crate::db::{get_note_db, map_row_to_note, note_of, DbError, Store};
use crate::models::{row_views, Note, NoteRelation, NoteRelationType, NoteRow, NoteRowView};
use crate::tags::{contains_tag, decode_tags, parsed_tags, tags_of};
use crate::order::{is_ordering, listed_before, lists, sorted_positions};
use crate::seqs::{lemma_filter_members, lemma_filter_none, lemma_filter_rising, lemma_filter_step};
use crate::time::Timestamp;

verus! {

/// Holds of the relations that point at the note with this identifier and,
/// where a kind is given, are of that kind.
pub open spec fn aims_at(note_id: i64, kind: Option<NoteRelationType>) -> spec_fn(
    NoteRelation,
) -> bool {
    |e: NoteRelation|
        e.target_note_id == note_id && (kind matches Some(k) ==> e.relation_type == k)
}

/// `out` lists exactly the wanted relations among `all`, the oldest first;
/// of two that were created at the same instant, the one with the smaller
/// identifier comes first.
pub open spec fn lists_relations(
    all: Seq<NoteRelation>,
    wanted: spec_fn(NoteRelation) -> bool,
    out: Seq<NoteRelation>,
) -> bool {
    &&& forall|k: int| 0 <= k < out.len() ==> all.contains(#[trigger] out[k]) && wanted(out[k])
    &&& forall|i: int| 0 <= i < all.len() && wanted(#[trigger] all[i]) ==> out.contains(all[i])
    &&& forall|a: int, b: int|
        0 <= a < b < out.len() ==> listed_before(
            (#[trigger] out[a]).created_at,
            out[a].id as int,
            (#[trigger] out[b]).created_at,
            out[b].id as int,
            false,
        )
}

/// Decides whether a relation points at the note and is of the kind asked
/// for.
fn is_wanted(e: &NoteRelation, note_id: i64, kind: &Option<NoteRelationType>) -> (r: bool)
    ensures
        r == aims_at(note_id, *kind)(*e),
{
    if e.target_note_id != note_id {
        return false;
    }
    match kind {
        Some(k) => e.relation_type == *k,
        None => true,
    }
}

/// Lists the relations that point at a note, optionally of one kind only,
/// the oldest first.
pub fn get_relations_for_note_db(
    store: &Store,
    note_id: i64,
    relation_type: Option<NoteRelationType>,
) -> (r: Result<Vec<NoteRelation>, DbError>)
    requires
        store.wf(),
    ensures
        r matches Ok(out) && lists_relations(
            store@.relations,
            aims_at(note_id, relation_type),
            out@,
        ),
{
    let all = store.relation_rows();
    let ghost wanted = aims_at(note_id, relation_type);
    let mut chosen: Vec<NoteRelation> = Vec::new();
    let mut stamps: Vec<Timestamp> = Vec::new();
    let mut i: usize = 0;
    proof {
        lemma_filter_none(all@, wanted);
    }
    while i < all.len()
        invariant
            i <= all@.len(),
            wanted == aims_at(note_id, relation_type),
            chosen@ =~= all@.take(i as int).filter(wanted),
            stamps@.len() == chosen@.len(),
            forall|k: int| 0 <= k < stamps@.len() ==> #[trigger] stamps@[k] == chosen@[k].created_at,
        decreases all@.len() - i,
    {
        let e = all[i];
        proof {
            lemma_filter_step(all@, wanted, i as int);
        }
        if is_wanted(&e, note_id, &relation_type) {
            chosen.push(e);
            stamps.push(e.created_at);
        }
        i = i + 1;
    }
    assert(all@.take(all@.len() as int) =~= all@);
    let order = sorted_positions(&stamps, false);
    let mut out: Vec<NoteRelation> = Vec::new();
    let mut k: usize = 0;
    while k < order.len()
        invariant
            k <= order@.len(),
            is_ordering(stamps@, false, order@),
            stamps@.len() == chosen@.len(),
            out@.len() == k,
            forall|m: int| 0 <= m < k ==> #[trigger] out@[m] == chosen@[order@[m] as int],
        decreases order@.len() - k,
    {
        out.push(chosen[order[k]]);
        k = k + 1;
    }
    proof {
        lemma_filter_members(all@, wanted);
        lemma_filter_rising(all@, wanted, |e: NoteRelation| e.id as int);
        assert forall|i: int| 0 <= i < all@.len() && wanted(#[trigger] all@[i]) implies out@.contains(
            all@[i],
        ) by {
            all@.lemma_filter_contains(wanted, i);
            let p = choose|p: int| 0 <= p < chosen@.len() && chosen@[p] == all@[i];
            assert(lists(order@, p));
            let m = choose|m: int| 0 <= m < order@.len() && (#[trigger] order@[m]) == p;
            assert(out@[m] == all@[i]);
        }
        assert forall|a: int, b: int| 0 <= a < b < out@.len() implies listed_before(
            (#[trigger] out@[a]).created_at,
            out@[a].id as int,
            (#[trigger] out@[b]).created_at,
            out@[b].id as int,
            false,
        ) by {
            let pa = order@[a];
            let pb = order@[b];
            assert(listed_before(stamps@[pa as int], pa as int, stamps@[pb as int], pb as int, false));
            if pa < pb {
                assert(chosen@[pa as int].id < chosen@[pb as int].id);
            }
        }
    }
    Ok(out)
}

/// The relations of a sequence of comments, comment by comment.
pub open spec fn edges_of(pairs: Seq<(Note, NoteRelation)>) -> Seq<NoteRelation> {
    Seq::new(pairs.len(), |k: int| pairs[k].1)
}

/// The source note of this relation is stored with tag text that cannot be
/// read.
pub open spec fn source_unreadable(store: crate::db::StoreView, e: NoteRelation) -> bool {
    store.lookup(e.source_note_id as int) matches Some(row) && note_of(row) is None
}

/// Lists the comments on a note, the oldest first: each commenting note
/// with the relation that makes it a comment.
///
/// The outcome is [`DbError::Validation`] exactly when one of the
/// commenting notes is stored with tag text that cannot be read.
pub fn get_comments_for_note_db(store: &Store, note_id: i64) -> (r: Result<
    Vec<(Note, NoteRelation)>,
    DbError,
>)
    requires
        store.wf(),
    ensures
        r is Err <==> exists|i: int|
            0 <= i < store@.relations.len() && aims_at(note_id, Some(NoteRelationType::Comment))(
                #[trigger] store@.relations[i],
            ) && source_unreadable(store@, store@.relations[i]),
        r matches Err(e) ==> e == DbError::Validation,
        r matches Ok(pairs) ==> {
            &&& lists_relations(
                store@.relations,
                aims_at(note_id, Some(NoteRelationType::Comment)),
                edges_of(pairs@),
            )
            &&& forall|k: int|
                0 <= k < pairs@.len() ==> (store@.lookup(
                    (#[trigger] pairs@[k]).1.source_note_id as int,
                ) matches Some(row) && note_of(row) == Some(pairs@[k].0@))
        },
{
    let ghost wanted = aims_at(note_id, Some(NoteRelationType::Comment));
    let edges = match get_relations_for_note_db(store, note_id, Some(NoteRelationType::Comment)) {
        Ok(edges) => edges,
        Err(e) => {
            return Err(e);
        },
    };
    let mut pairs: Vec<(Note, NoteRelation)> = Vec::new();
    let mut k: usize = 0;
    while k < edges.len()
        invariant
            store.wf(),
            k <= edges@.len(),
            wanted == aims_at(note_id, Some(NoteRelationType::Comment)),
            lists_relations(store@.relations, wanted, edges@),
            pairs@.len() == k,
            forall|m: int| 0 <= m < k ==> (#[trigger] pairs@[m]).1 == edges@[m],
            forall|m: int|
                0 <= m < k ==> (store@.lookup((#[trigger] pairs@[m]).1.source_note_id as int) matches Some(
                    row,
                ) && note_of(row) == Some(pairs@[m].0@)),
        decreases edges@.len() - k,
    {
        let edge = edges[k];
        proof {
            assert(store@.relations.contains(edges@[k as int]));
            let i = choose|i: int| 0 <= i < store@.relations.len() && store@.relations[i] == edge;
            assert(store@.has_note(store@.relations[i].source_note_id as int));
        }
        match get_note_db(store, edge.source_note_id) {
            Ok(Some(note)) => {
                pairs.push((note, edge));
            },
            Ok(None) => {
                assert(false);
            },
            Err(e) => {
                proof {
                    let i = choose|i: int|
                        0 <= i < store@.relations.len() && store@.relations[i] == edge;
                    assert(wanted(store@.relations[i]));
                    assert(source_unreadable(store@, store@.relations[i]));
                }
                return Err(e);
            },
        }
        k = k + 1;
    }
    proof {
        assert(edges_of(pairs@) =~= edges@);
        assert forall|i: int|
            0 <= i < store@.relations.len() && wanted(#[trigger] store@.relations[i]) implies !source_unreadable(
            store@,
            store@.relations[i],
        ) by {
            assert(edges@.contains(store@.relations[i]));
            let m = choose|m: int| 0 <= m < edges@.len() && edges@[m] == store@.relations[i];
            assert(pairs@[m].1 == edges@[m]);
        }
    }
    Ok(pairs)
}

/// Holds of the rows that a listing of notes asks for: created at or after
/// `after`, created before `before`, and carrying exactly the tag `tag`,
/// each where it is given. A row whose tag text cannot be read carries no
/// tag.
pub open spec fn passes(
    tag: Option<Seq<char>>,
    after: Option<Timestamp>,
    before: Option<Timestamp>,
) -> spec_fn(NoteRowView) -> bool {
    |row: NoteRowView|
        {
            &&& after matches Some(a) ==> !row.created_at.is_before(a)
            &&& before matches Some(b) ==> row.created_at.is_before(b)
            &&& tag matches Some(t) ==> tags_of(row.tags).contains(t)
        }
}

/// How many notes a listing may hold at most: a limit below zero is no
/// limit.
pub open spec fn cap_of(limit: Option<i64>) -> Option<int> {
    match limit {
        Some(l) => if l < 0 {
            None
        } else {
            Some(l as int)
        },
        None => None,
    }
}

/// Every row of the listing is listed before the given row.
pub open spec fn outranked(out: Seq<NoteRowView>, row: NoteRowView) -> bool {
    forall|k: int|
        0 <= k < out.len() ==> listed_before(
            (#[trigger] out[k]).created_at,
            out[k].id,
            row.created_at,
            row.id,
            true,
        )
}

/// `out` lists the wanted rows, the newest first; of two that were created
/// at the same instant, the one with the smaller identifier comes first.
/// Where there are more wanted rows than `cap` allows, `out` holds the
/// first `cap` of them in that order.
pub open spec fn lists_rows(
    rows: Seq<NoteRowView>,
    wanted: spec_fn(NoteRowView) -> bool,
    cap: Option<int>,
    out: Seq<NoteRowView>,
) -> bool {
    &&& forall|k: int| 0 <= k < out.len() ==> rows.contains(#[trigger] out[k]) && wanted(out[k])
    &&& forall|a: int, b: int|
        0 <= a < b < out.len() ==> listed_before(
            (#[trigger] out[a]).created_at,
            out[a].id,
            (#[trigger] out[b]).created_at,
            out[b].id,
            true,
        )
    &&& forall|i: int|
        0 <= i < rows.len() && wanted(#[trigger] rows[i]) ==> out.contains(rows[i]) || (cap
            == Some(out.len() as int) && outranked(out, rows[i]))
    &&& cap matches Some(c) ==> out.len() <= c
}

/// What reading the listed rows gives: their notes in the same order, or
/// [`DbError::Validation`] where the tag text of one of them cannot be
/// read.
pub open spec fn reads_as(listed: Seq<NoteRowView>, r: Result<Vec<Note>, DbError>) -> bool {
    match r {
        Ok(notes) => {
            &&& notes@.len() == listed.len()
            &&& forall|k: int|
                0 <= k < listed.len() ==> note_of(listed[k]) == Some((#[trigger] notes@[k])@)
        },
        Err(e) => {
            &&& e == DbError::Validation
            &&& exists|k: int| 0 <= k < listed.len() && note_of(#[trigger] listed[k]) is None
        },
    }
}

/// The text of an optional tag.
pub open spec fn tag_text(tag: Option<String>) -> Option<Seq<char>> {
    match tag {
        Some(t) => Some(t@),
        None => None,
    }
}

/// Decides whether a row meets the filter of a listing.
fn is_asked_for(
    row: &NoteRow,
    tag: &Option<String>,
    after: &Option<Timestamp>,
    before: &Option<Timestamp>,
) -> (r: bool)
    ensures
        r == passes(tag_text(*tag), *after, *before)(row@),
{
    let late_enough = match after {
        Some(a) => !row.created_at.before(a),
        None => true,
    };
    let early_enough = match before {
        Some(b) => row.created_at.before(b),
        None => true,
    };
    if !late_enough || !early_enough {
        return false;
    }
    match tag {
        Some(t) => match decode_tags(&row.tags) {
            Some(tags) => contains_tag(&tags, t),
            None => {
                assert(tags_of(row@.tags) =~= Seq::<Seq<char>>::empty());
                false
            },
        },
        None => true,
    }
}

/// The rows that stand at the given places.
pub open spec fn rows_at(rows: Seq<NoteRowView>, places: Seq<usize>) -> Seq<NoteRowView> {
    Seq::new(places.len(), |k: int| rows[places[k] as int])
}

/// Finds the places of the rows that meet the filter of a listing, in the
/// order of the rows.
fn pick_rows(
    rows: &Vec<NoteRow>,
    tag: &Option<String>,
    after: &Option<Timestamp>,
    before: &Option<Timestamp>,
) -> (places: Vec<usize>)
    ensures
        forall|k: int| 0 <= k < places@.len() ==> (#[trigger] places@[k]) < rows@.len(),
        rows_at(row_views(rows@), places@) == row_views(rows@).filter(
            passes(tag_text(*tag), *after, *before),
        ),
{
    let ghost all = row_views(rows@);
    let ghost wanted = passes(tag_text(*tag), *after, *before);
    let mut places: Vec<usize> = Vec::new();
    let mut i: usize = 0;
    proof {
        lemma_filter_none(all, wanted);
    }
    while i < rows.len()
        invariant
            i <= rows@.len(),
            all == row_views(rows@),
            wanted == passes(tag_text(*tag), *after, *before),
            forall|k: int| 0 <= k < places@.len() ==> (#[trigger] places@[k]) < i,
            rows_at(all, places@) =~= all.take(i as int).filter(wanted),
        decreases rows@.len() - i,
    {
        proof {
            lemma_filter_step(all, wanted, i as int);
            assert(all[i as int] == rows@[i as int]@);
        }
        if is_asked_for(&rows[i], tag, after, before) {
            places.push(i);
        }
        i = i + 1;
    }
    assert(all.take(all.len() as int) =~= all);
    places
}

/// Lists the notes that meet a filter, the newest first, and at most
/// `limit` of them where a limit of zero or more is given.
///
/// A note meets the filter when it was created at or after `created_after`,
/// before `created_before`, and carries exactly the tag `tag`, each where it
/// is given. The outcome is [`DbError::Validation`] exactly when one of the
/// notes to be listed is stored with tag text that cannot be read.
pub fn get_notes_db(
    store: &Store,
    limit: Option<i64>,
    tag: Option<String>,
    created_after: Option<Timestamp>,
    created_before: Option<Timestamp>,
) -> (r: Result<Vec<Note>, DbError>)
    requires
        store.wf(),
    ensures
        exists|listed: Seq<NoteRowView>| #[trigger]
            lists_rows(
                store@.notes,
                passes(tag_text(tag), created_after, created_before),
                cap_of(limit),
                listed,
            ) && reads_as(listed, r),
        r matches Ok(notes) ==> (tag matches Some(t) ==> forall|k: int|
            0 <= k < notes@.len() ==> (#[trigger] notes@[k])@.tags.contains(t@)),
        tag is Some ==> r is Ok,
{
    let rows = store.note_rows();
    let ghost all = store@.notes;
    let ghost wanted = passes(tag_text(tag), created_after, created_before);
    let places = pick_rows(rows, &tag, &created_after, &created_before);
    let ghost picked = all.filter(wanted);
    let mut stamps: Vec<Timestamp> = Vec::new();
    let mut i: usize = 0;
    while i < places.len()
        invariant
            i <= places@.len(),
            all == row_views(rows@),
            forall|k: int| 0 <= k < places@.len() ==> (#[trigger] places@[k]) < rows@.len(),
            stamps@.len() == i,
            forall|k: int| 0 <= k < i ==> #[trigger] stamps@[k] == all[places@[k] as int].created_at,
        decreases places@.len() - i,
    {
        stamps.push(rows[places[i]].created_at);
        i = i + 1;
    }
    let order = sorted_positions(&stamps, true);
    let total = order.len();
    let count: usize = match limit {
        Some(l) => if l < 0 {
            total
        } else if (l as u64) < (total as u64) {
            l as usize
        } else {
            total
        },
        None => total,
    };
    let ghost listed = Seq::new(count as nat, |k: int| picked[order@[k] as int]);
    proof {
        lemma_listing(all, wanted, cap_of(limit), stamps@, order@, count as int);
        if tag is Some {
            assert forall|k: int| 0 <= k < listed.len() implies note_of(#[trigger] listed[k]) is Some by {
                assert(wanted(listed[k]));
                if parsed_tags(listed[k].tags) is None {
                    assert(tags_of(listed[k].tags) =~= Seq::<Seq<char>>::empty());
                }
            }
        }
    }
    let mut out: Vec<Note> = Vec::new();
    let mut k: usize = 0;
    while k < count
        invariant
            k <= count <= order@.len(),
            all == row_views(rows@),
            picked == rows_at(all, places@),
            order@.len() == places@.len(),
            forall|m: int| 0 <= m < places@.len() ==> (#[trigger] places@[m]) < rows@.len(),
            forall|m: int| 0 <= m < order@.len() ==> (#[trigger] order@[m]) < places@.len(),
            listed == Seq::new(count as nat, |m: int| picked[order@[m] as int]),
            all == store@.notes,
            wanted == passes(tag_text(tag), created_after, created_before),
            lists_rows(all, wanted, cap_of(limit), listed),
            tag is Some ==> forall|m: int|
                0 <= m < listed.len() ==> note_of(#[trigger] listed[m]) is Some,
            out@.len() == k,
            forall|m: int| 0 <= m < k ==> note_of(listed[m]) == Some((#[trigger] out@[m])@),
        decreases count - k,
    {
        let row = &rows[places[order[k]]];
        assert(row@ == listed[k as int]);
        match map_row_to_note(row) {
            Ok(note) => {
                out.push(note);
            },
            Err(e) => {
                assert(note_of(listed[k as int]) is None);
                return Err(e);
            },
        }
        k = k + 1;
    }
    proof {
        if let Some(t) = tag {
            assert forall|m: int| 0 <= m < out@.len() implies (#[trigger] out@[m])@.tags.contains(
                t@,
            ) by {
                assert(wanted(listed[m]));
            }
        }
    }
    Ok(out)
}

/// Taking the rows that a filter lets through in the order that sorting
/// their creation times gives, and of those the first `count`, gives the
/// listing.
proof fn lemma_listing(
    all: Seq<NoteRowView>,
    wanted: spec_fn(NoteRowView) -> bool,
    cap: Option<int>,
    stamps: Seq<Timestamp>,
    order: Seq<usize>,
    count: int,
)
    requires
        forall|i: int, j: int|
            0 <= i < j < all.len() ==> (#[trigger] all[i]).id < (#[trigger] all[j]).id,
        stamps.len() == all.filter(wanted).len(),
        forall|k: int|
            0 <= k < stamps.len() ==> #[trigger] stamps[k] == all.filter(wanted)[k].created_at,
        is_ordering(stamps, true, order),
        0 <= count <= order.len(),
        match cap {
            Some(c) => count == if c < order.len() {
                c
            } else {
                order.len() as int
            },
            None => count == order.len(),
        },
    ensures
        lists_rows(
            all,
            wanted,
            cap,
            Seq::new(count as nat, |k: int| all.filter(wanted)[order[k] as int]),
        ),
{
    let picked = all.filter(wanted);
    let listed = Seq::new(count as nat, |k: int| picked[order[k] as int]);
    lemma_filter_members(all, wanted);
    lemma_filter_rising(all, wanted, |row: NoteRowView| row.id);
    assert forall|a: int, b: int| 0 <= a < b < order.len() implies listed_before(
        picked[(#[trigger] order[a]) as int].created_at,
        picked[order[a] as int].id,
        picked[(#[trigger] order[b]) as int].created_at,
        picked[order[b] as int].id,
        true,
    ) by {
        let pa = order[a] as int;
        let pb = order[b] as int;
        assert(listed_before(stamps[pa], pa, stamps[pb], pb, true));
        if pa < pb {
            assert(picked[pa].id < picked[pb].id);
        }
    }
    assert forall|k: int| 0 <= k < listed.len() implies all.contains(#[trigger] listed[k])
        && wanted(listed[k]) by {
        let p = order[k] as int;
        assert(all.contains(picked[p]));
    }
    assert forall|i: int| 0 <= i < all.len() && wanted(#[trigger] all[i]) implies listed.contains(
        all[i],
    ) || (cap == Some(listed.len() as int) && outranked(listed, all[i])) by {
        all.lemma_filter_contains(wanted, i);
        let p = choose|p: int| 0 <= p < picked.len() && picked[p] == all[i];
        assert(lists(order, p));
        let m = choose|m: int| 0 <= m < order.len() && (#[trigger] order[m]) == p;
        if m < count {
            assert(listed[m] == all[i]);
        } else {
            assert forall|k: int| 0 <= k < listed.len() implies listed_before(
                (#[trigger] listed[k]).created_at,
                listed[k].id,
                all[i].created_at,
                all[i].id,
                true,
            ) by {
                assert(listed[k] == picked[order[k] as int]);
            }
        }
    }
    assert forall|a: int, b: int| 0 <= a < b < listed.len() implies listed_before(
        (#[trigger] listed[a]).created_at,
        listed[a].id,
        (#[trigger] listed[b]).created_at,
        listed[b].id,
        true,
    ) by {
        assert(listed[a] == picked[order[a] as int]);
        assert(listed[b] == picked[order[b] as int]);
    }
}

} // verus!
