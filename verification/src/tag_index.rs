//! The tag index: which tags the notes carry, how many notes carry each,
//! and when the latest of them was last updated.
//!
//! Nothing is kept between queries. A note whose stored tag text cannot be
//! read counts as a note without tags.

use vstd::prelude::*;
use crate::db::{DbError, Store, StoreView};
use crate::models::{row_views, tag_texts, DetailedTag, NoteRow, NoteRowView};
use crate::seqs::{lemma_filter_none, lemma_filter_step};
use crate::tags::{contains_tag, decode_tags, tags_of};
use crate::time::Timestamp;

verus! {

/// Holds of the rows that carry exactly this tag.
pub open spec fn carriers(tag: Seq<char>) -> spec_fn(NoteRowView) -> bool {
    |row: NoteRowView| tags_of(row.tags).contains(tag)
}

/// Some row carries this tag.
pub open spec fn is_carried(rows: Seq<NoteRowView>, tag: Seq<char>) -> bool {
    exists|i: int| 0 <= i < rows.len() && carriers(tag)(#[trigger] rows[i])
}

/// How many rows carry this tag. A row that names the tag twice counts
/// once.
pub open spec fn tag_count(rows: Seq<NoteRowView>, tag: Seq<char>) -> nat {
    rows.filter(carriers(tag)).len()
}

/// `at` is the latest update time among the rows that carry this tag.
pub open spec fn is_latest_update(rows: Seq<NoteRowView>, tag: Seq<char>, at: Timestamp) -> bool {
    &&& exists|i: int|
        0 <= i < rows.len() && carriers(tag)(#[trigger] rows[i]) && rows[i].updated_at == at
    &&& forall|i: int|
        0 <= i < rows.len() && carriers(tag)(#[trigger] rows[i]) ==> !at.is_before(
            rows[i].updated_at,
        )
}

/// No text occurs twice.
pub open spec fn distinct(names: Seq<Seq<char>>) -> bool {
    forall|a: int, b: int| 0 <= a < b < names.len() ==> #[trigger] names[a] != #[trigger] names[b]
}

/// The names of a sequence of tag statistics, entry by entry.
pub open spec fn stat_names(stats: Seq<DetailedTag>) -> Seq<Seq<char>> {
    Seq::new(stats.len(), |k: int| stats[k].name@)
}

/// The entry tells how many rows carry its tag and when the latest of them
/// was updated.
pub open spec fn is_stat_of(rows: Seq<NoteRowView>, stat: DetailedTag) -> bool {
    &&& stat.count >= 1
    &&& stat.count == tag_count(rows, stat.name@)
    &&& stat.last_modified matches Some(at) && is_latest_update(rows, stat.name@, at)
}

/// `stats` holds one entry for each tag that some row carries, the tags
/// that more rows carry first.
pub open spec fn is_tag_cloud(rows: Seq<NoteRowView>, stats: Seq<DetailedTag>) -> bool {
    &&& distinct(stat_names(stats))
    &&& forall|k: int| 0 <= k < stats.len() ==> is_stat_of(rows, #[trigger] stats[k])
    &&& forall|tag: Seq<char>| #[trigger]
        is_carried(rows, tag) ==> stat_names(stats).contains(tag)
    &&& forall|a: int, b: int|
        0 <= a < b < stats.len() ==> (#[trigger] stats[a]).count >= (#[trigger] stats[b]).count
}

/// Reads the tag text of every row; a text that cannot be read gives no
/// tags.
fn read_tags(rows: &Vec<NoteRow>) -> (lists: Vec<Vec<String>>)
    ensures
        lists@.len() == rows@.len(),
        forall|i: int|
            0 <= i < rows@.len() ==> tag_texts((#[trigger] lists@[i])@) == tags_of(rows@[i]@.tags),
{
    let mut lists: Vec<Vec<String>> = Vec::new();
    let mut i: usize = 0;
    while i < rows.len()
        invariant
            i <= rows@.len(),
            lists@.len() == i,
            forall|k: int|
                0 <= k < i ==> tag_texts((#[trigger] lists@[k])@) == tags_of(rows@[k]@.tags),
        decreases rows@.len() - i,
    {
        let tags = match decode_tags(&rows[i].tags) {
            Some(tags) => tags,
            None => {
                let none: Vec<String> = Vec::new();
                assert(tag_texts(none@) =~= Seq::<Seq<char>>::empty());
                none
            },
        };
        lists.push(tags);
        i = i + 1;
    }
    lists
}

/// Adds to `names` the tags of one note that it does not hold yet.
fn add_missing(names: &mut Vec<String>, tags: &Vec<String>)
    requires
        distinct(tag_texts(old(names)@)),
    ensures
        distinct(tag_texts(final(names)@)),
        forall|t: Seq<char>|
            #![trigger tag_texts(final(names)@).contains(t)]
            #![trigger tag_texts(old(names)@).contains(t)]
            #![trigger tag_texts(tags@).contains(t)]
            tag_texts(final(names)@).contains(t) <==> tag_texts(old(names)@).contains(t)
                || tag_texts(tags@).contains(t),
{
    let mut j: usize = 0;
    while j < tags.len()
        invariant
            j <= tags@.len(),
            distinct(tag_texts(names@)),
            forall|t: Seq<char>|
                tag_texts(names@).contains(t) <==> tag_texts(old(names)@).contains(t) || tag_texts(
                    tags@,
                ).take(j as int).contains(t),
        decreases tags@.len() - j,
    {
        let ghost before = tag_texts(names@);
        let ghost seen = tag_texts(tags@).take(j as int);
        let ghost next = tag_texts(tags@).take(j + 1);
        let ghost text = tags@[j as int]@;
        assert(next =~= seen.push(text));
        if !contains_tag(names, &tags[j]) {
            names.push(tags[j].clone());
            assert(tag_texts(names@) =~= before.push(text));
        }
        proof {
            let after = tag_texts(names@);
            assert forall|t: Seq<char>| after.contains(t) <==> tag_texts(old(names)@).contains(t)
                || next.contains(t) by {
                if after.contains(t) {
                    let k = choose|k: int| 0 <= k < after.len() && after[k] == t;
                    if k < before.len() {
                        assert(before[k] == t);
                        if seen.contains(t) {
                            let m = choose|m: int| 0 <= m < seen.len() && seen[m] == t;
                            assert(next[m] == t);
                        }
                    } else {
                        assert(next[j as int] == t);
                    }
                }
                if tag_texts(old(names)@).contains(t) || seen.contains(t) {
                    assert(before.contains(t));
                    let k = choose|k: int| 0 <= k < before.len() && before[k] == t;
                    assert(after[k] == t);
                }
                if next.contains(t) && !seen.contains(t) {
                    let m = choose|m: int| 0 <= m < next.len() && next[m] == t;
                    if m < j {
                        assert(seen[m] == t);
                    }
                    assert(t == text);
                    if before.contains(text) {
                        let k = choose|k: int| 0 <= k < before.len() && before[k] == text;
                        assert(after[k] == t);
                    } else {
                        assert(after[after.len() - 1] == t);
                    }
                }
            }
        }
        j = j + 1;
    }
    assert(tag_texts(tags@).take(tags@.len() as int) =~= tag_texts(tags@));
}

/// Collects the distinct tags of the given tag lists.
fn collect_names(lists: &Vec<Vec<String>>) -> (names: Vec<String>)
    ensures
        distinct(tag_texts(names@)),
        forall|t: Seq<char>|
            tag_texts(names@).contains(t) <==> exists|i: int|
                0 <= i < lists@.len() && tag_texts((#[trigger] lists@[i])@).contains(t),
{
    let mut names: Vec<String> = Vec::new();
    let mut i: usize = 0;
    while i < lists.len()
        invariant
            i <= lists@.len(),
            distinct(tag_texts(names@)),
            forall|t: Seq<char>|
                tag_texts(names@).contains(t) <==> exists|k: int|
                    0 <= k < i && tag_texts((#[trigger] lists@[k])@).contains(t),
        decreases lists@.len() - i,
    {
        let ghost before = tag_texts(names@);
        let ghost added = tag_texts(lists@[i as int]@);
        add_missing(&mut names, &lists[i]);
        proof {
            let after = tag_texts(names@);
            assert forall|t: Seq<char>| after.contains(t) implies exists|k: int|
                0 <= k < i + 1 && tag_texts((#[trigger] lists@[k])@).contains(t) by {
                assert(before.contains(t) || added.contains(t));
                if before.contains(t) {
                    let k = choose|k: int|
                        0 <= k < i && tag_texts((#[trigger] lists@[k])@).contains(t);
                    assert(0 <= k < i + 1 && tag_texts(lists@[k]@).contains(t));
                } else {
                    assert(0 <= i < i + 1 && tag_texts(lists@[i as int]@).contains(t));
                }
            }
            assert forall|t: Seq<char>|
                (exists|k: int|
                    0 <= k < i + 1 && tag_texts((#[trigger] lists@[k])@).contains(
                        t,
                    )) implies after.contains(t) by {
                let k = choose|k: int|
                    0 <= k < i + 1 && tag_texts((#[trigger] lists@[k])@).contains(t);
                if k < i {
                    assert(0 <= k < i && tag_texts(lists@[k]@).contains(t));
                    assert(before.contains(t));
                } else {
                    assert(added.contains(t));
                }
                assert(before.contains(t) || added.contains(t));
            }
        }
        i = i + 1;
    }
    names
}

/// Lists the distinct tags that the notes carry, each once.
pub fn get_all_tags_db(store: &Store) -> (r: Result<Vec<String>, DbError>)
    ensures
        r matches Ok(names) && {
            &&& distinct(tag_texts(names@))
            &&& forall|t: Seq<char>|
                tag_texts(names@).contains(t) <==> is_carried(store@.notes, t)
        },
{
    let rows = store.note_rows();
    let lists = read_tags(rows);
    let names = collect_names(&lists);
    proof {
        let all = store@.notes;
        assert forall|t: Seq<char>| tag_texts(names@).contains(t) <==> is_carried(all, t) by {
            if tag_texts(names@).contains(t) {
                let i = choose|i: int|
                    0 <= i < lists@.len() && tag_texts((#[trigger] lists@[i])@).contains(t);
                assert(carriers(t)(all[i]));
            }
            if is_carried(all, t) {
                let i = choose|i: int| 0 <= i < all.len() && carriers(t)(#[trigger] all[i]);
                assert(tag_texts(lists@[i]@).contains(t));
            }
        }
    }
    Ok(names)
}

/// In a well-formed store there are no more notes than identifiers given
/// out.
pub proof fn lemma_note_count(s: StoreView, n: int)
    requires
        s.wf(),
        0 <= n <= s.notes.len(),
    ensures
        n > 0 ==> s.notes[n - 1].id >= n,
        n <= s.last_note_id,
    decreases n,
{
    if n > 0 {
        lemma_note_count(s, n - 1);
        if n > 1 {
            assert(s.notes[n - 2].id < s.notes[n - 1].id);
        }
        assert(1 <= s.notes[n - 1].id <= s.last_note_id);
    }
}

/// Counts the notes that carry a tag and finds when the latest of them was
/// updated.
fn stat_for(rows: &Vec<NoteRow>, lists: &Vec<Vec<String>>, name: &String) -> (r: (
    i64,
    Option<Timestamp>,
))
    requires
        rows@.len() <= i64::MAX,
        lists@.len() == rows@.len(),
        forall|i: int|
            0 <= i < rows@.len() ==> tag_texts((#[trigger] lists@[i])@) == tags_of(rows@[i]@.tags),
    ensures
        r.0 == tag_count(row_views(rows@), name@),
        r.1 is None ==> !is_carried(row_views(rows@), name@),
        r.1 matches Some(at) ==> is_latest_update(row_views(rows@), name@, at),
{
    let ghost all = row_views(rows@);
    let ghost carry = carriers(name@);
    let mut count: i64 = 0;
    let mut latest: Option<Timestamp> = None;
    let mut i: usize = 0;
    proof {
        lemma_filter_none(all, carry);
    }
    while i < rows.len()
        invariant
            i <= rows@.len(),
            rows@.len() <= i64::MAX,
            all == row_views(rows@),
            carry == carriers(name@),
            lists@.len() == rows@.len(),
            forall|k: int|
                0 <= k < rows@.len() ==> tag_texts((#[trigger] lists@[k])@) == tags_of(
                    rows@[k]@.tags,
                ),
            0 <= count <= i,
            count == all.take(i as int).filter(carry).len(),
            latest is None ==> forall|k: int| 0 <= k < i ==> !carry(#[trigger] all[k]),
            latest matches Some(at) ==> {
                &&& exists|k: int| 0 <= k < i && carry(#[trigger] all[k]) && all[k].updated_at == at
                &&& forall|k: int|
                    0 <= k < i && carry(#[trigger] all[k]) ==> !at.is_before(all[k].updated_at)
            },
        decreases rows@.len() - i,
    {
        proof {
            lemma_filter_step(all, carry, i as int);
            assert(all[i as int] == rows@[i as int]@);
        }
        if contains_tag(&lists[i], name) {
            count = count + 1;
            let updated = rows[i].updated_at;
            latest = match latest {
                Some(at) => Some(at.later(updated)),
                None => Some(updated),
            };
            proof {
                let at = latest.unwrap();
                if at == updated {
                    assert(carry(all[i as int]) && all[i as int].updated_at == at);
                } else {
                    let k = choose|k: int|
                        0 <= k < i && carry(#[trigger] all[k]) && all[k].updated_at == at;
                    assert(0 <= k < i + 1 && carry(all[k]) && all[k].updated_at == at);
                }
            }
        }
        i = i + 1;
    }
    proof {
        assert(all.take(all.len() as int) =~= all);
        if let Some(at) = latest {
            let k = choose|k: int|
                0 <= k < all.len() && carry(#[trigger] all[k]) && all[k].updated_at == at;
            assert(carry(all[k]) && all[k].updated_at == at);
        }
    }
    (count, latest)
}

/// The entries come with falling counts.
pub open spec fn ranked(stats: Seq<DetailedTag>) -> bool {
    forall|a: int, b: int|
        0 <= a < b < stats.len() ==> (#[trigger] stats[a]).count >= (#[trigger] stats[b]).count
}

/// `stats` holds one true entry for each of the first `n` names, and no
/// other.
pub open spec fn covers(
    rows: Seq<NoteRowView>,
    names: Seq<Seq<char>>,
    n: int,
    stats: Seq<DetailedTag>,
) -> bool {
    &&& stats.len() == n
    &&& forall|k: int| 0 <= k < stats.len() ==> is_stat_of(rows, #[trigger] stats[k])
    &&& forall|k: int|
        0 <= k < stats.len() ==> exists|p: int|
            0 <= p < n && (#[trigger] names[p]) == (#[trigger] stats[k]).name@
    &&& forall|p: int| 0 <= p < n ==> stat_names(stats).contains(#[trigger] names[p])
    &&& distinct(stat_names(stats))
}

/// Putting the entry of the next name anywhere among the entries of the
/// names before it gives the entries of one name more.
proof fn lemma_covers_step(
    rows: Seq<NoteRowView>,
    names: Seq<Seq<char>>,
    n: int,
    prev: Seq<DetailedTag>,
    j: int,
    stat: DetailedTag,
)
    requires
        covers(rows, names, n, prev),
        distinct(names),
        0 <= n < names.len(),
        0 <= j <= prev.len(),
        stat.name@ == names[n],
        is_stat_of(rows, stat),
    ensures
        covers(rows, names, n + 1, prev.insert(j, stat)),
{
    let now = prev.insert(j, stat);
    assert forall|k: int| 0 <= k < now.len() implies is_stat_of(rows, #[trigger] now[k]) by {
        if k < j {
            assert(now[k] == prev[k]);
        } else if k > j {
            assert(now[k] == prev[k - 1]);
        }
    }
    assert forall|k: int| 0 <= k < now.len() implies exists|p: int|
        0 <= p < n + 1 && (#[trigger] names[p]) == (#[trigger] now[k]).name@ by {
        if k == j {
            assert(names[n] == now[k].name@);
        } else {
            let k0 = if k < j { k } else { k - 1 };
            assert(now[k] == prev[k0]);
            let p = choose|p: int| 0 <= p < n && (#[trigger] names[p]) == (#[trigger] prev[k0]).name@;
            assert(0 <= p < n + 1 && names[p] == now[k].name@);
        }
    }
    assert forall|p: int| 0 <= p < n + 1 implies stat_names(now).contains(#[trigger] names[p]) by {
        if p == n {
            assert(stat_names(now)[j] == names[n]);
        } else {
            assert(stat_names(prev).contains(names[p]));
            let k0 = choose|k0: int| 0 <= k0 < prev.len() && stat_names(prev)[k0] == names[p];
            let k = if k0 < j { k0 } else { k0 + 1 };
            assert(now[k] == prev[k0]);
            assert(stat_names(now)[k] == names[p]);
        }
    }
    assert forall|a: int, b: int| 0 <= a < b < now.len() implies #[trigger] stat_names(now)[a]
        != #[trigger] stat_names(now)[b] by {
        let a0 = if a < j { a } else { a - 1 };
        let b0 = if b < j { b } else { b - 1 };
        if a == j {
            assert(now[b] == prev[b0]);
            let p = choose|p: int| 0 <= p < n && (#[trigger] names[p]) == (#[trigger] prev[b0]).name@;
            assert(names[p] != names[n]);
        } else if b == j {
            assert(now[a] == prev[a0]);
            let p = choose|p: int| 0 <= p < n && (#[trigger] names[p]) == (#[trigger] prev[a0]).name@;
            assert(names[p] != names[n]);
        } else {
            assert(now[a] == prev[a0] && now[b] == prev[b0]);
            assert(stat_names(prev)[a0] != stat_names(prev)[b0]);
        }
    }
}

/// Puts an entry behind the entries that count as many notes or more, and
/// before the others.
fn insert_ranked(stats: &mut Vec<DetailedTag>, stat: DetailedTag) -> (j: usize)
    requires
        ranked(old(stats)@),
    ensures
        j <= old(stats)@.len(),
        final(stats)@ == old(stats)@.insert(j as int, stat),
        ranked(final(stats)@),
{
    let mut j: usize = stats.len();
    while j > 0 && stats[j - 1].count < stat.count
        invariant
            j <= stats@.len(),
            stats@ == old(stats)@,
            forall|k: int| j <= k < stats@.len() ==> (#[trigger] stats@[k]).count < stat.count,
        decreases j,
    {
        j = j - 1;
    }
    let ghost prev = stats@;
    stats.insert(j, stat);
    proof {
        let now = stats@;
        assert forall|a: int, b: int| 0 <= a < b < now.len() implies (#[trigger] now[a]).count >= (
        #[trigger] now[b]).count by {
            let a0 = if a < j { a } else { a - 1 };
            let b0 = if b < j { b } else { b - 1 };
            if a == j {
                assert(now[b] == prev[b0]);
            } else if b == j {
                assert(now[a] == prev[a0]);
                assert(prev[j - 1].count >= stat.count);
                if a0 < j - 1 {
                    assert(prev[a0].count >= prev[j - 1].count);
                }
            } else {
                assert(now[a] == prev[a0] && now[b] == prev[b0]);
            }
        }
    }
    j
}

/// Lists the tags that the notes carry, each with the number of notes that
/// carry it and the latest update time among them; the tags that more notes
/// carry come first.
pub fn get_detailed_tags_db(store: &Store) -> (r: Result<Vec<DetailedTag>, DbError>)
    requires
        store.wf(),
    ensures
        r matches Ok(stats) && is_tag_cloud(store@.notes, stats@),
{
    let rows = store.note_rows();
    let ghost all = store@.notes;
    proof {
        lemma_note_count(store@, all.len() as int);
    }
    let lists = read_tags(rows);
    let names = collect_names(&lists);
    let mut stats: Vec<DetailedTag> = Vec::new();
    let mut n: usize = 0;
    while n < names.len()
        invariant
            n <= names@.len(),
            all == row_views(rows@),
            rows@.len() <= i64::MAX,
            lists@.len() == rows@.len(),
            forall|i: int|
                0 <= i < rows@.len() ==> tag_texts((#[trigger] lists@[i])@) == tags_of(
                    rows@[i]@.tags,
                ),
            distinct(tag_texts(names@)),
            forall|t: Seq<char>|
                tag_texts(names@).contains(t) <==> exists|i: int|
                    0 <= i < lists@.len() && tag_texts((#[trigger] lists@[i])@).contains(t),
            covers(all, tag_texts(names@), n as int, stats@),
            ranked(stats@),
        decreases names@.len() - n,
    {
        let name = names[n].clone();
        let ghost text = tag_texts(names@)[n as int];
        assert(name@ == text);
        let (count, latest) = stat_for(rows, &lists, &name);
        proof {
            assert(tag_texts(names@).contains(text));
            let i = choose|i: int|
                0 <= i < lists@.len() && tag_texts((#[trigger] lists@[i])@).contains(text);
            assert(carriers(text)(all[i]));
            assert(is_carried(all, text));
            all.lemma_filter_contains(carriers(text), i);
        }
        let stat = DetailedTag { name, count, last_modified: latest };
        let ghost prev = stats@;
        let j = insert_ranked(&mut stats, stat);
        proof {
            lemma_covers_step(all, tag_texts(names@), n as int, prev, j as int, stat);
        }
        n = n + 1;
    }
    proof {
        assert forall|tag: Seq<char>| #[trigger] is_carried(all, tag) implies stat_names(
            stats@,
        ).contains(tag) by {
            let i = choose|i: int| 0 <= i < all.len() && carriers(tag)(#[trigger] all[i]);
            assert(tag_texts(lists@[i]@).contains(tag));
            assert(tag_texts(names@).contains(tag));
            let p = choose|p: int| 0 <= p < names@.len() && tag_texts(names@)[p] == tag;
            assert(stat_names(stats@).contains(tag_texts(names@)[p]));
        }
    }
    Ok(stats)
}

} // verus!
