//! An address space whose tables form a tree.
//!
//! The operations of the mapper never let two slots name the same table, as
//! long as every new table lies in a frame that holds no table yet.  The
//! tables below a top table then form a tree, and each table has one place
//! in it: its level and the slots that lead to it.  In such an address space
//! mapping or unmapping one page leaves the translation of every other page
//! as it is.  (The recursive slot of the top table stands outside the tree.)

use vstd::prelude::*;
use crate::memory::Frame;
use crate::memory::frame_allocator::FrameAllocator;
use crate::memory::is_page_number;
use crate::memory::p1_index_of;
use crate::memory::p2_index_of;
use crate::memory::p3_index_of;
use crate::memory::p4_index_of;
use crate::memory::paging::PagingError;
use crate::memory::paging::entry::PRESENT;
use crate::memory::paging::entry::WRITABLE;
use crate::memory::paging::entry::lemma_encode_decode;
use crate::memory::paging::entry::lemma_word_frame_bound;
use crate::memory::paging::entry::word_present;
use crate::memory::paging::mapper::Mapper;
use crate::memory::paging::mapper::hang;
use crate::memory::paging::mapper::leaf_table_from;
use crate::memory::paging::mapper::mapped;
use crate::memory::paging::mapper::maps_page;
use crate::memory::paging::mapper::top_table;
use crate::memory::paging::table::child;
use crate::memory::paging::table::lemma_table_flags;
use crate::memory::ram::Words;
use crate::memory::ram::is_total;

verus! {

/// The place of a table in the tree: its level, from 4 at the top down to 1,
/// and the slots that lead to it from the top table, read as the digits of a
/// number to the base 512.
pub struct Place {
    pub level: int,
    pub path: int,
}

/// The places of the tables of an address space, by the frames that hold
/// them.
pub type Places = Map<u64, Place>;

/// The place at level `level` that the slots `path` lead to.
pub open spec fn place(level: int, path: int) -> Place {
    Place { level, path }
}

/// The outcome of a translation that yields the frame with index `number`.
pub open spec fn found(number: u64) -> Result<Option<Frame>, PagingError> {
    Ok(Some(Frame { number }))
}

/// The outcome of a translation that yields nothing.
pub open spec fn unmapped() -> Result<Option<Frame>, PagingError> {
    Ok(None)
}

/// Whether the tables below the top table in frame `top` form a tree in
/// which `places` gives each table its place: an entry that names a table
/// leads from a table at some place to the table at the place one level down
/// and one slot further on.
pub open spec fn layered(words: Words, top: u64, places: Places) -> bool {
    &&& places.contains_key(top)
    &&& places[top] == place(4, 0)
    &&& forall|table: u64, index: int|
        #![trigger child(words, table, index)]
        places.contains_key(table) && 2 <= places[table].level <= 4 && 0 <= index < 512 && !(
        places[table].level == 4 && index == 511) ==> (child(words, table, index) matches Some(
            below,
        ) ==> places.contains_key(below) && places[below] == place(places[table].level - 1, places[table].path * 512 + index))
}

/// The slots that lead to the table of level 1 for the page with index
/// `page`.
pub open spec fn path_of(page: u64) -> int {
    (p4_index_of(page) * 512 + p3_index_of(page)) * 512 + p2_index_of(page)
}

/// Whether the page with index `page` has its entry in a table of level 1
/// below the top table in frame `top`, and the entry is `leaf`.
pub open spec fn settled(words: Words, top: u64, page: u64, leaf: u64) -> bool {
    leaf_table_from(words, top, page) matches Some(p1) && words[(p1, p1_index_of(page))] == leaf
}

/// Two pages with the same slot at every level are one page.
#[verifier::rlimit(30)]
pub proof fn lemma_slots_name_page(page: u64, other: u64)
    requires
        is_page_number(page),
        is_page_number(other),
        path_of(page) == path_of(other),
        p1_index_of(page) == p1_index_of(other),
    ensures
        page == other,
{
    let a = page as int;
    let b = other as int;
    assert(a / 0x200 == (a / 0x4_0000) * 512 + (a / 0x200) % 512);
    assert(a / 0x4_0000 == (a / 0x800_0000) * 512 + (a / 0x4_0000) % 512);
    assert(b / 0x200 == (b / 0x4_0000) * 512 + (b / 0x200) % 512);
    assert(b / 0x4_0000 == (b / 0x800_0000) * 512 + (b / 0x4_0000) % 512);
    assert(a / 0x800_0000 == (a / 0x10_0000_0000) * 512 + (a / 0x800_0000) % 512);
    assert(b / 0x800_0000 == (b / 0x10_0000_0000) * 512 + (b / 0x800_0000) % 512);
}

/// The table of level 1 of a page lies at the place that the slots of the
/// page lead to.
#[verifier::rlimit(30)]
pub proof fn lemma_leaf_place(words: Words, top: u64, places: Places, page: u64)
    requires
        layered(words, top, places),
        p4_index_of(page) != 511,
        leaf_table_from(words, top, page).is_some(),
    ensures
        places.contains_key(leaf_table_from(words, top, page).unwrap()),
        places[leaf_table_from(words, top, page).unwrap()] == place(1, path_of(page)),
{
    let p3 = child(words, top, p4_index_of(page)).unwrap();
    let p2 = child(words, p3, p3_index_of(page)).unwrap();
    let p1 = child(words, p2, p2_index_of(page)).unwrap();
    assert(places[p3] == place(3, p4_index_of(page)));
    assert(places[p2] == place(2, p4_index_of(page) * 512 + p3_index_of(page)));
}

/// Hanging a table into a tree, in a frame that holds no table of the tree,
/// gives a tree again, in which the table has the place below its slot.
#[verifier::rlimit(30)]
pub proof fn lemma_hang(
    words: Words,
    top: u64,
    places: Places,
    parent: u64,
    index: int,
    table: u64,
)
    requires
        is_total(words),
        layered(words, top, places),
        places.contains_key(parent),
        2 <= places[parent].level <= 4,
        0 <= index < 512,
        !(places[parent].level == 4 && index == 511),
        table < 0x100_0000_0000,
        child(words, parent, index) != Some(table) ==> !places.contains_key(table) && child(
            words,
            parent,
            index,
        ).is_none(),
    ensures
        layered(
            hang(words, parent, index, table),
            top,
            places.insert(
                table,
                place(places[parent].level - 1, places[parent].path * 512 + index),
            ),
        ),
        child(hang(words, parent, index, table), parent, index) == Some(table),
        child(words, parent, index) == Some(table) ==> places.insert(
            table,
            place(places[parent].level - 1, places[parent].path * 512 + index),
        ) == places,
        forall|k: (u64, int)|
            0 <= k.1 < 512 && places.contains_key(k.0) && k != (parent, index) ==> #[trigger] hang(
                words,
                parent,
                index,
                table,
            )[k] == words[k],
        forall|k: (u64, int)|
            0 <= k.1 < 512 && #[trigger] hang(words, parent, index, table)[k] != words[k]
                ==> k.0 == table || k == (parent, index),
        is_total(hang(words, parent, index, table)),
{
    let below = place(places[parent].level - 1, places[parent].path * 512 + index);
    let after = hang(words, parent, index, table);
    let grown = places.insert(table, below);
    lemma_table_flags();
    lemma_encode_decode(table, PRESENT | WRITABLE);
    lemma_word_frame_bound(0);
    if child(words, parent, index) == Some(table) {
        assert(places[table] == below);
        assert(grown =~= places);
    } else {
        assert forall|t: u64, i: int|
            #![trigger child(after, t, i)]
            grown.contains_key(t) && 2 <= grown[t].level <= 4 && 0 <= i < 512 && !(grown[t].level
                == 4 && i == 511) implies (child(after, t, i) matches Some(below)
            ==> grown.contains_key(below) && grown[below] == place(grown[t].level - 1, grown[t].path * 512 + i)) by {
            if t == table {
                assert(after[(t, i)] == 0 || (t, i) == (parent, index));
            } else if (t, i) == (parent, index) {
            } else {
                assert(after[(t, i)] == words[(t, i)]);
                assert(child(words, t, i) == child(after, t, i));
            }
        }
    }
}

/// Mapping a page in a tree, with every new table in a frame that holds no
/// table of the tree, gives a tree again.  The page has its entry, and every
/// other page has the entry it had.
#[verifier::rlimit(30)]
pub proof fn lemma_map_keeps_tree(
    before: Words,
    after: Words,
    barred: Set<u64>,
    top: u64,
    places: Places,
    page: u64,
    leaf: u64,
    tables: (u64, u64, u64),
    taken: spec_fn(u64) -> bool,
)
    requires
        is_total(before),
        layered(before, top, places),
        maps_page(before, after, barred, top, page, leaf, tables, taken),
        is_page_number(page),
        p4_index_of(page) != 511,
        forall|t: u64| places.contains_key(t) ==> !taken(t),
    ensures
        layered(after, top, grown_places(places, page, tables)),
        settled(after, top, page, leaf),
        forall|other: u64, entry: u64|
            is_page_number(other) && p4_index_of(other) != 511 && other != page && #[trigger] settled(
                before,
                top,
                other,
                entry,
            ) ==> settled(after, top, other, entry),
        forall|k: (u64, int)|
            0 <= k.1 < 512 && #[trigger] after[k] != before[k] ==> grown_places(
                places,
                page,
                tables,
            ).contains_key(k.0),
        forall|t: u64| #[trigger]
            grown_places(places, page, tables).contains_key(t) ==> places.contains_key(t) || (
            taken(t) && !barred.contains(t)),
        forall|t: u64| #[trigger]
            places.contains_key(t) ==> grown_places(places, page, tables).contains_key(t),
        is_total(after),
        after[(top, 511)] == before[(top, 511)],
        forall|other: u64, entry: u64|
            is_page_number(other) && p4_index_of(other) != 511 && other != page && word_present(
                entry,
            ) && #[trigger] settled(after, top, other, entry) ==> settled(
                before,
                top,
                other,
                entry,
            ),
{
    let (p3, p2, p1) = tables;
    let i4 = p4_index_of(page);
    let i3 = p3_index_of(page);
    let i2 = p2_index_of(page);
    let i1 = p1_index_of(page);
    let w1 = hang(before, top, i4, p3);
    let l1 = places.insert(p3, place(3, i4));
    lemma_hang(before, top, places, top, i4, p3);
    let w2 = hang(w1, p3, i3, p2);
    let l2 = l1.insert(p2, place(2, i4 * 512 + i3));
    lemma_hang(w1, top, l1, p3, i3, p2);
    let w3 = hang(w2, p2, i2, p1);
    let l3 = l2.insert(p1, place(1, (i4 * 512 + i3) * 512 + i2));
    lemma_hang(w2, top, l2, p2, i2, p1);
    assert(l3 == grown_places(places, page, tables));
    assert(after == w3.insert((p1, i1), leaf));
    // the links of the page
    assert(child(w3, top, i4) == Some(p3));
    assert(child(w3, p3, i3) == Some(p2));
    assert(child(w3, p2, i2) == Some(p1));
    assert forall|t: u64, i: int|
        #![trigger child(after, t, i)]
        l3.contains_key(t) && 2 <= l3[t].level <= 4 && 0 <= i < 512 && !(l3[t].level == 4 && i
            == 511) implies (child(after, t, i) matches Some(below) ==> l3.contains_key(below)
        && l3[below] == place(l3[t].level - 1, l3[t].path * 512 + i)) by {
        assert(t != p1);
        assert(after[(t, i)] == w3[(t, i)]);
        assert(child(w3, t, i) == child(after, t, i));
    }
    assert forall|other: u64, entry: u64|
        is_page_number(other) && p4_index_of(other) != 511 && other != page && #[trigger] settled(
            before,
            top,
            other,
            entry,
        ) implies settled(after, top, other, entry) by {
        let q3 = child(before, top, p4_index_of(other)).unwrap();
        let q2 = child(before, q3, p3_index_of(other)).unwrap();
        let q1 = child(before, q2, p2_index_of(other)).unwrap();
        lemma_leaf_place(before, top, places, other);
        assert(places.contains_key(q3) && places.contains_key(q2) && places.contains_key(q1));
        // the links of the other page stay
        assert(w1[(top, p4_index_of(other))] == before[(top, p4_index_of(other))]);
        assert(w2[(top, p4_index_of(other))] == before[(top, p4_index_of(other))]);
        assert(w3[(top, p4_index_of(other))] == before[(top, p4_index_of(other))]);
        assert(w1[(q3, p3_index_of(other))] == before[(q3, p3_index_of(other))]);
        assert(w2[(q3, p3_index_of(other))] == before[(q3, p3_index_of(other))]);
        assert(w3[(q3, p3_index_of(other))] == before[(q3, p3_index_of(other))]);
        assert(w1[(q2, p2_index_of(other))] == before[(q2, p2_index_of(other))]);
        assert(w2[(q2, p2_index_of(other))] == before[(q2, p2_index_of(other))]);
        assert(w3[(q2, p2_index_of(other))] == before[(q2, p2_index_of(other))]);
        assert(w3[(q1, p1_index_of(other))] == before[(q1, p1_index_of(other))]);
        assert(after[(top, p4_index_of(other))] == before[(top, p4_index_of(other))]);
        assert(after[(q3, p3_index_of(other))] == before[(q3, p3_index_of(other))]);
        assert(after[(q2, p2_index_of(other))] == before[(q2, p2_index_of(other))]);
        if (q1, p1_index_of(other)) == (p1, i1) {
            lemma_leaf_place(w3, top, l3, page);
            assert(l3[q1] == places[q1]);
            lemma_slots_name_page(page, other);
        }
    }
    lemma_word_frame_bound(0);
    assert forall|other: u64, entry: u64|
        is_page_number(other) && p4_index_of(other) != 511 && other != page && word_present(entry)
            && #[trigger] settled(after, top, other, entry) implies settled(
        before,
        top,
        other,
        entry,
    ) by {
        let j4 = p4_index_of(other);
        let j3 = p3_index_of(other);
        let j2 = p2_index_of(other);
        let j1 = p1_index_of(other);
        let q3 = child(after, top, j4).unwrap();
        let q2 = child(after, q3, j3).unwrap();
        let q1 = child(after, q2, j2).unwrap();
        lemma_leaf_place(after, top, l3, other);
        assert(l3[q3] == place(3, j4));
        assert(l3[q2] == place(2, j4 * 512 + j3));
        assert(l3[q1] == place(1, path_of(other)));
        // a table that is new holds nothing but what the page put there
        let new3 = child(before, top, i4) != Some(p3);
        let new2 = child(w1, p3, i3) != Some(p2);
        let new1 = child(w2, p2, i2) != Some(p1);
        assert(after[(top, j4)] == w3[(top, j4)]);
        assert(after[(q3, j3)] == w3[(q3, j3)]);
        assert(after[(q2, j2)] == w3[(q2, j2)]);
        if q1 == p1 && j1 == i1 {
            lemma_leaf_place(after, top, l3, page);
            lemma_slots_name_page(page, other);
        }
        assert(after[(q1, j1)] == w3[(q1, j1)]);
        if new3 {
            assert(!places.contains_key(p3));
            assert(new2 && new1) by {
                assert(forall|k: int| 0 <= k < 512 ==> w1[(p3, k)] == 0);
                assert(child(w1, p3, i3).is_none());
            }
        }
        if j4 == i4 && new3 {
            assert(q3 == p3);
            assert(forall|k: int| 0 <= k < 512 && k != i3 ==> w3[(p3, k)] == 0);
            assert(j3 == i3);
            assert(q2 == p2);
            assert(forall|k: int| 0 <= k < 512 && k != i2 ==> w3[(p2, k)] == 0);
            assert(j2 == i2);
            assert(q1 == p1);
            assert(forall|k: int| 0 <= k < 512 ==> w3[(p1, k)] == 0);
        } else {
            assert(w3[(top, j4)] == before[(top, j4)]);
            assert(places.contains_key(q3));
            if q3 == p3 && j3 == i3 && new2 {
                assert(q2 == p2);
                assert(forall|k: int| 0 <= k < 512 && k != i2 ==> w3[(p2, k)] == 0);
                assert(j2 == i2);
                assert(q1 == p1);
                assert(forall|k: int| 0 <= k < 512 ==> w3[(p1, k)] == 0);
            } else {
                assert(w3[(q3, j3)] == before[(q3, j3)]);
                assert(places.contains_key(q2));
                if q2 == p2 && j2 == i2 && new1 {
                    assert(q1 == p1);
                    assert(forall|k: int| 0 <= k < 512 ==> w3[(p1, k)] == 0);
                } else {
                    assert(w3[(q2, j2)] == before[(q2, j2)]);
                    assert(places.contains_key(q1));
                    assert(w3[(q1, j1)] == before[(q1, j1)]);
                }
            }
        }
    }
}

/// Mapping a page writes to the tables on the way to its entry and to no
/// other frame, and leaves a way to the entry.
#[verifier::rlimit(30)]
pub proof fn lemma_mapped_footprint(
    before: Words,
    p4: u64,
    page: u64,
    tables: (u64, u64, u64),
    leaf: u64,
)
    requires
        is_total(before),
        tables.0 < 0x100_0000_0000,
        tables.1 < 0x100_0000_0000,
        tables.2 < 0x100_0000_0000,
    ensures
        forall|k: (u64, int)|
            0 <= k.1 < 512 && #[trigger] mapped(
                before,
                p4,
                page,
                tables.0,
                tables.1,
                tables.2,
                leaf,
            )[k] != before[k] ==> k.0 == p4 || k.0 == tables.0 || k.0 == tables.1 || k.0
                == tables.2,
        is_total(mapped(before, p4, page, tables.0, tables.1, tables.2, leaf)),
{
    let (p3, p2, p1) = tables;
    let w1 = hang(before, p4, p4_index_of(page), p3);
    let w2 = hang(w1, p3, p3_index_of(page), p2);
    let w3 = hang(w2, p2, p2_index_of(page), p1);
    let after = w3.insert((p1, p1_index_of(page)), leaf);
    assert(is_total(w1));
    assert(is_total(w2));
    assert(is_total(w3));
    assert forall|k: (u64, int)| 0 <= k.1 < 512 && #[trigger] after[k] != before[k] implies k.0
        == p4 || k.0 == p3 || k.0 == p2 || k.0 == p1 by {
        if k.0 != p4 && k.0 != p3 && k.0 != p2 && k.0 != p1 {
            assert(w1[k] == before[k]);
            assert(w2[k] == w1[k]);
            assert(w3[k] == w2[k]);
        }
    }
}

/// `places` with the places of the tables on the way to the page with index
/// `page`.
pub open spec fn grown_places(places: Places, page: u64, tables: (u64, u64, u64)) -> Places {
    places.insert(tables.0, place(3, p4_index_of(page))).insert(
        tables.1,
        place(2, p4_index_of(page) * 512 + p3_index_of(page)),
    ).insert(tables.2, place(1, path_of(page)))
}

/// Writing the entry of a page in a tree leaves the tree, and the entry of
/// every other page, as they are.
#[verifier::rlimit(30)]
pub proof fn lemma_leaf_write_keeps_tree(
    before: Words,
    top: u64,
    places: Places,
    page: u64,
    leaf: u64,
)
    requires
        is_total(before),
        layered(before, top, places),
        is_page_number(page),
        p4_index_of(page) != 511,
        leaf_table_from(before, top, page).is_some(),
    ensures
        layered(
            before.insert(
                (leaf_table_from(before, top, page).unwrap(), p1_index_of(page)),
                leaf,
            ),
            top,
            places,
        ),
        settled(
            before.insert(
                (leaf_table_from(before, top, page).unwrap(), p1_index_of(page)),
                leaf,
            ),
            top,
            page,
            leaf,
        ),
        forall|other: u64, entry: u64|
            is_page_number(other) && p4_index_of(other) != 511 && other != page && #[trigger] settled(
                before,
                top,
                other,
                entry,
            ) ==> settled(
                before.insert(
                    (leaf_table_from(before, top, page).unwrap(), p1_index_of(page)),
                    leaf,
                ),
                top,
                other,
                entry,
            ),
        forall|other: u64, entry: u64|
            is_page_number(other) && p4_index_of(other) != 511 && other != page && #[trigger] settled(
                before.insert(
                    (leaf_table_from(before, top, page).unwrap(), p1_index_of(page)),
                    leaf,
                ),
                top,
                other,
                entry,
            ) ==> settled(before, top, other, entry),
{
    let p1 = leaf_table_from(before, top, page).unwrap();
    let after = before.insert((p1, p1_index_of(page)), leaf);
    lemma_leaf_place(before, top, places, page);
    assert forall|t: u64, i: int|
        #![trigger child(after, t, i)]
        places.contains_key(t) && 2 <= places[t].level <= 4 && 0 <= i < 512 && !(places[t].level
            == 4 && i == 511) implies (child(after, t, i) matches Some(below)
        ==> places.contains_key(below) && places[below] == place(places[t].level - 1, places[t].path * 512 + i)) by {
        assert(t != p1);
        assert(child(before, t, i) == child(after, t, i));
    }
    let p3 = child(before, top, p4_index_of(page)).unwrap();
    let p2 = child(before, p3, p3_index_of(page)).unwrap();
    assert(places[p3].level == 3 && places[p2].level == 2);
    assert(child(after, top, p4_index_of(page)) == child(before, top, p4_index_of(page)));
    assert(child(after, p3, p3_index_of(page)) == child(before, p3, p3_index_of(page)));
    assert(child(after, p2, p2_index_of(page)) == child(before, p2, p2_index_of(page)));
    assert forall|other: u64, entry: u64|
        is_page_number(other) && p4_index_of(other) != 511 && other != page && #[trigger] settled(
            before,
            top,
            other,
            entry,
        ) implies settled(after, top, other, entry) by {
        let q3 = child(before, top, p4_index_of(other)).unwrap();
        let q2 = child(before, q3, p3_index_of(other)).unwrap();
        let q1 = child(before, q2, p2_index_of(other)).unwrap();
        lemma_leaf_place(before, top, places, other);
        assert(places[q3].level == 3 && places[q2].level == 2);
        assert(child(after, top, p4_index_of(other)) == child(before, top, p4_index_of(other)));
        assert(child(after, q3, p3_index_of(other)) == child(before, q3, p3_index_of(other)));
        assert(child(after, q2, p2_index_of(other)) == child(before, q2, p2_index_of(other)));
        if (q1, p1_index_of(other)) == (p1, p1_index_of(page)) {
            lemma_slots_name_page(page, other);
        }
    }
    assert forall|other: u64, entry: u64|
        is_page_number(other) && p4_index_of(other) != 511 && other != page && #[trigger] settled(
            after,
            top,
            other,
            entry,
        ) implies settled(before, top, other, entry) by {
        let q3 = child(after, top, p4_index_of(other)).unwrap();
        let q2 = child(after, q3, p3_index_of(other)).unwrap();
        let q1 = child(after, q2, p2_index_of(other)).unwrap();
        lemma_leaf_place(after, top, places, other);
        assert(places[q3].level == 3 && places[q2].level == 2);
        assert(child(after, top, p4_index_of(other)) == child(before, top, p4_index_of(other)));
        assert(child(after, q3, p3_index_of(other)) == child(before, q3, p3_index_of(other)));
        assert(child(after, q2, p2_index_of(other)) == child(before, q2, p2_index_of(other)));
        if (q1, p1_index_of(other)) == (p1, p1_index_of(page)) {
            lemma_leaf_place(before, top, places, other);
            lemma_slots_name_page(page, other);
        }
    }
}

/// Writing to a slot of a frame that holds no table of a tree leaves the
/// tree, and the entry of every page, as they are.
#[verifier::rlimit(30)]
pub proof fn lemma_foreign_write_keeps_tree(
    before: Words,
    top: u64,
    places: Places,
    slot: (u64, int),
    word: u64,
)
    requires
        is_total(before),
        layered(before, top, places),
        !places.contains_key(slot.0),
    ensures
        layered(before.insert(slot, word), top, places),
        forall|page: u64, entry: u64|
            p4_index_of(page) != 511 && #[trigger] settled(before, top, page, entry) ==> settled(
                before.insert(slot, word),
                top,
                page,
                entry,
            ),
        forall|page: u64, entry: u64|
            p4_index_of(page) != 511 && #[trigger] settled(
                before.insert(slot, word),
                top,
                page,
                entry,
            ) ==> settled(before, top, page, entry),
{
    let after = before.insert(slot, word);
    assert forall|t: u64, i: int|
        #![trigger child(after, t, i)]
        places.contains_key(t) && 2 <= places[t].level <= 4 && 0 <= i < 512 && !(places[t].level
            == 4 && i == 511) implies (child(after, t, i) matches Some(below)
        ==> places.contains_key(below) && places[below] == place(places[t].level - 1, places[t].path * 512 + i)) by {
        assert(child(before, t, i) == child(after, t, i));
    }
    assert forall|page: u64, entry: u64|
        p4_index_of(page) != 511 && #[trigger] settled(before, top, page, entry) implies settled(
        after,
        top,
        page,
        entry,
    ) by {
        let q3 = child(before, top, p4_index_of(page)).unwrap();
        let q2 = child(before, q3, p3_index_of(page)).unwrap();
        let q1 = child(before, q2, p2_index_of(page)).unwrap();
        lemma_leaf_place(before, top, places, page);
        assert(places[q3].level == 3 && places[q2].level == 2);
        assert(child(after, top, p4_index_of(page)) == child(before, top, p4_index_of(page)));
        assert(child(after, q3, p3_index_of(page)) == child(before, q3, p3_index_of(page)));
        assert(child(after, q2, p2_index_of(page)) == child(before, q2, p2_index_of(page)));
    }
    assert forall|page: u64, entry: u64|
        p4_index_of(page) != 511 && #[trigger] settled(after, top, page, entry) implies settled(
        before,
        top,
        page,
        entry,
    ) by {
        let q3 = child(after, top, p4_index_of(page)).unwrap();
        let q2 = child(after, q3, p3_index_of(page)).unwrap();
        let q1 = child(after, q2, p2_index_of(page)).unwrap();
        lemma_leaf_place(after, top, places, page);
        assert(places[q3].level == 3 && places[q2].level == 2);
        assert(child(after, top, p4_index_of(page)) == child(before, top, p4_index_of(page)));
        assert(child(after, q3, p3_index_of(page)) == child(before, q3, p3_index_of(page)));
        assert(child(after, q2, p2_index_of(page)) == child(before, q2, p2_index_of(page)));
    }
}

/// Whether the address space that the recursive slot of the root table of
/// `mapper` names is a tree with the places `places`, whose top table names
/// itself, and none of whose tables lies in a frame that `allocator` has
/// available or that is pinned.  The root table in force is no table of the
/// tree, unless it is its top table.
pub open spec fn tree_space<A: FrameAllocator>(mapper: Mapper, allocator: A, places: Places)
    -> bool {
    let words = mapper.words();
    &&& top_table(words, mapper.root()) matches Some(top) && {
        &&& words[(top, 511)] == crate::memory::paging::table_entry(top)
        &&& layered(words, top, places)
        &&& forall|t: u64| #[trigger]
            places.contains_key(t) ==> !allocator.available(t) && !mapper.pinned().contains(t)
                && (t != mapper.root() || top == mapper.root())
    }
}

/// Whether the address space that the recursive slot of the root table of
/// `mapper` names is a tree, none of whose tables lies in a frame that
/// `allocator` has available or that is pinned.
pub open spec fn is_tree<A: FrameAllocator>(mapper: Mapper, allocator: A) -> bool {
    exists|places: Places| #[trigger] tree_space(mapper, allocator, places)
}

} // verus!
