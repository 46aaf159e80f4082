use vstd::prelude::*;
use crate::table::{
    TableKey, table_unique, table_has, table_map, lemma_table_map_at, table_find, table_upsert,
    table_remove, table_get,
};
use crate::thumbnail_key::ThumbnailKey;

verus! {

impl TableKey for ThumbnailKey {
    type Key = ThumbnailKey;

    open spec fn key(&self) -> ThumbnailKey {
        *self
    }

    fn same_key(&self, other: &Self) -> (r: bool) {
        *self == *other
    }
}

/// No key occurs twice.
pub open spec fn keys_unique<V>(s: Seq<(ThumbnailKey, V)>) -> bool {
    forall|i: int, j: int|
        0 <= i < s.len() && 0 <= j < s.len() && i != j ==> #[trigger] s[i].0 != #[trigger] s[j].0
}

/// Some entry has key `k`.
pub open spec fn has_key<V>(s: Seq<(ThumbnailKey, V)>, k: ThumbnailKey) -> bool {
    exists|i: int| 0 <= i < s.len() && #[trigger] s[i].0 == k
}

/// The map that a list of entries with unique keys stands for.
pub open spec fn entries_map<V>(s: Seq<(ThumbnailKey, V)>) -> Map<ThumbnailKey, V> {
    Map::new(
        |k: ThumbnailKey| has_key(s, k),
        |k: ThumbnailKey| s[choose|i: int| 0 <= i < s.len() && #[trigger] s[i].0 == k].1,
    )
}

/// These tables are the general lookup tables keyed by thumbnail keys.
proof fn lemma_same_table<V>(s: Seq<(ThumbnailKey, V)>)
    ensures
        keys_unique(s) == table_unique(s),
        forall|k: ThumbnailKey| #[trigger] has_key(s, k) == table_has(s, k),
        keys_unique(s) ==> entries_map(s) == table_map(s),
{
    assert forall|k: ThumbnailKey| #[trigger] has_key(s, k) == table_has(s, k) by {
        if has_key(s, k) {
            let i = choose|i: int| 0 <= i < s.len() && #[trigger] s[i].0 == k;
            assert(s[i].0.key() == k);
        }
        if table_has(s, k) {
            let i = choose|i: int| 0 <= i < s.len() && #[trigger] s[i].0.key() == k;
            assert(s[i].0 == k);
        }
    }
    if keys_unique(s) {
        assert forall|i: int, j: int|
            0 <= i < s.len() && 0 <= j < s.len() && i != j implies #[trigger] s[i].0.key()
            != #[trigger] s[j].0.key() by {
            assert(s[i].0 != s[j].0);
        }
    }
    if table_unique(s) {
        assert forall|i: int, j: int|
            0 <= i < s.len() && 0 <= j < s.len() && i != j implies #[trigger] s[i].0 != #[trigger] s[j].0 by {
            assert(s[i].0.key() != s[j].0.key());
        }
    }
    if keys_unique(s) {
        assert forall|k: ThumbnailKey| #[trigger] entries_map(s).contains_key(k) implies entries_map(
            s,
        )[k] == table_map(s)[k] by {
            let i = choose|i: int| 0 <= i < s.len() && #[trigger] s[i].0 == k;
            let j = choose|j: int| 0 <= j < s.len() && #[trigger] s[j].0.key() == k;
            assert(s[j].0 == k);
            assert(i == j);
        }
        assert(entries_map(s) =~= table_map(s));
    }
}

pub proof fn lemma_entries_map_at<V>(s: Seq<(ThumbnailKey, V)>, i: int)
    requires
        keys_unique(s),
        0 <= i < s.len(),
    ensures
        entries_map(s).contains_key(s[i].0),
        entries_map(s)[s[i].0] == s[i].1,
{
    lemma_same_table(s);
    lemma_table_map_at(s, i);
}

/// The index of the entry with key `k`, if any.
pub fn find_key<V>(s: &Vec<(ThumbnailKey, V)>, k: ThumbnailKey) -> (r: Option<usize>)
    ensures
        match r {
            Some(i) => i < s@.len() && s@[i as int].0 == k,
            None => !has_key(s@, k),
        },
{
    proof {
        lemma_same_table(s@);
    }
    table_find(s, &k)
}

/// Sets the value of key `k`, adding the entry when it is absent.
pub fn upsert<V>(s: &mut Vec<(ThumbnailKey, V)>, k: ThumbnailKey, v: V)
    requires
        keys_unique(old(s)@),
    ensures
        keys_unique(final(s)@),
        entries_map(final(s)@) == entries_map(old(s)@).insert(k, v),
{
    proof {
        lemma_same_table(s@);
    }
    table_upsert(s, k, v);
    proof {
        lemma_same_table(s@);
    }
}

/// Removes the entry with key `k`, if there is one.
pub fn remove_key<V>(s: &mut Vec<(ThumbnailKey, V)>, k: ThumbnailKey)
    requires
        keys_unique(old(s)@),
    ensures
        keys_unique(final(s)@),
        entries_map(final(s)@) == entries_map(old(s)@).remove(k),
{
    proof {
        lemma_same_table(s@);
    }
    table_remove(s, &k);
    proof {
        lemma_same_table(s@);
    }
}

/// The value of key `k`, if present.
pub fn get_value<V: Copy>(s: &Vec<(ThumbnailKey, V)>, k: ThumbnailKey) -> (r: Option<V>)
    requires
        keys_unique(s@),
    ensures
        r == (if entries_map(s@).contains_key(k) {
            Some(entries_map(s@)[k])
        } else {
            None::<V>
        }),
{
    proof {
        lemma_same_table(s@);
    }
    match table_get(s, &k) {
        Some(v) => Some(*v),
        None => None,
    }
}

} // verus!
