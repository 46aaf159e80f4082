use vstd::prelude::*;

verus! {

/// A key of a lookup table: each key stands for a mathematical value, and two
/// keys can be told apart by that value.
pub trait TableKey: Sized {
    type Key;

    spec fn key(&self) -> Self::Key;

    fn same_key(&self, other: &Self) -> (r: bool)
        ensures
            r == (self.key() == other.key()),
    ;
}

impl TableKey for u128 {
    type Key = u128;

    open spec fn key(&self) -> u128 {
        *self
    }

    fn same_key(&self, other: &Self) -> (r: bool) {
        *self == *other
    }
}

impl TableKey for String {
    type Key = Seq<char>;

    open spec fn key(&self) -> Seq<char> {
        self@
    }

    fn same_key(&self, other: &Self) -> (r: bool) {
        *self == *other
    }
}

/// No key occurs twice in the entries.
pub open spec fn table_unique<K: TableKey, V>(s: Seq<(K, V)>) -> bool {
    forall|i: int, j: int|
        0 <= i < s.len() && 0 <= j < s.len() && i != j ==> #[trigger] s[i].0.key()
            != #[trigger] s[j].0.key()
}

/// Some entry has key `k`.
pub open spec fn table_has<K: TableKey, V>(s: Seq<(K, V)>, k: K::Key) -> bool {
    exists|i: int| 0 <= i < s.len() && #[trigger] s[i].0.key() == k
}

/// The map that entries with unique keys stand for.
pub open spec fn table_map<K: TableKey, V>(s: Seq<(K, V)>) -> Map<K::Key, V> {
    Map::new(
        |k: K::Key| table_has(s, k),
        |k: K::Key| s[choose|i: int| 0 <= i < s.len() && #[trigger] s[i].0.key() == k].1,
    )
}

pub proof fn lemma_table_map_at<K: TableKey, V>(s: Seq<(K, V)>, i: int)
    requires
        table_unique(s),
        0 <= i < s.len(),
    ensures
        table_map(s).contains_key(s[i].0.key()),
        table_map(s)[s[i].0.key()] == s[i].1,
{
    let k = s[i].0.key();
    assert(table_has(s, k));
    let j = choose|j: int| 0 <= j < s.len() && #[trigger] s[j].0.key() == k;
    assert(s[j].0.key() == s[i].0.key());
}

/// The empty table stands for the empty map.
pub proof fn lemma_table_empty<K: TableKey, V>(s: Seq<(K, V)>)
    requires
        s.len() == 0,
    ensures
        table_unique(s),
        table_map(s) == Map::<K::Key, V>::empty(),
{
    assert(table_map(s) =~= Map::<K::Key, V>::empty());
}

/// The index of the entry with key `k`, if any.
pub fn table_find<K: TableKey, V>(s: &Vec<(K, V)>, k: &K) -> (r: Option<usize>)
    ensures
        match r {
            Some(i) => i < s@.len() && s@[i as int].0.key() == k.key(),
            None => !table_has(s@, k.key()),
        },
{
    let mut i: usize = 0;
    while i < s.len()
        invariant
            i <= s@.len(),
            forall|j: int| 0 <= j < i ==> #[trigger] s@[j].0.key() != k.key(),
        decreases s@.len() - i,
    {
        if s[i].0.same_key(k) {
            return Some(i);
        }
        i = i + 1;
    }
    None
}

/// Whether the table has key `k`.
pub fn table_contains<K: TableKey, V>(s: &Vec<(K, V)>, k: &K) -> (r: bool)
    requires
        table_unique(s@),
    ensures
        r == table_map(s@).contains_key(k.key()),
{
    table_find(s, k).is_some()
}

/// The value of key `k`, if present.
pub fn table_get<'a, K: TableKey, V>(s: &'a Vec<(K, V)>, k: &K) -> (r: Option<&'a V>)
    requires
        table_unique(s@),
    ensures
        match r {
            Some(v) => table_map(s@).contains_key(k.key()) && *v == table_map(s@)[k.key()],
            None => !table_map(s@).contains_key(k.key()),
        },
{
    match table_find(s, k) {
        Some(i) => {
            proof {
                lemma_table_map_at(s@, i as int);
            }
            Some(&s[i].1)
        },
        None => None,
    }
}

/// Sets the value of key `k`, adding the entry at the end when it is absent.
pub fn table_upsert<K: TableKey, V>(s: &mut Vec<(K, V)>, k: K, v: V)
    requires
        table_unique(old(s)@),
    ensures
        table_unique(final(s)@),
        table_map(final(s)@) == table_map(old(s)@).insert(k.key(), v),
{
    let ghost s0 = s@;
    let ghost kk = k.key();
    match table_find(s, &k) {
        Some(i) => {
            s.set(i, (k, v));
            proof {
                let s1 = s@;
                assert forall|a: int, b: int|
                    0 <= a < s1.len() && 0 <= b < s1.len() && a != b implies #[trigger] s1[a].0.key()
                    != #[trigger] s1[b].0.key() by {
                    assert(s1[a].0.key() == s0[a].0.key());
                    assert(s1[b].0.key() == s0[b].0.key());
                }
                let m0 = table_map(s0);
                let m1 = table_map(s1);
                assert forall|key: K::Key|
                    m1.contains_key(key) == m0.insert(kk, v).contains_key(key) by {
                    if table_has(s1, key) {
                        let j = choose|j: int| 0 <= j < s1.len() && #[trigger] s1[j].0.key() == key;
                        assert(s0[j].0.key() == key);
                    }
                    if table_has(s0, key) {
                        let j = choose|j: int| 0 <= j < s0.len() && #[trigger] s0[j].0.key() == key;
                        assert(s1[j].0.key() == key);
                    }
                    if key == kk {
                        assert(s1[i as int].0.key() == key);
                    }
                }
                assert forall|key: K::Key| #[trigger]
                    m1.contains_key(key) implies m1[key] == m0.insert(kk, v)[key] by {
                    let j = choose|j: int| 0 <= j < s1.len() && #[trigger] s1[j].0.key() == key;
                    lemma_table_map_at(s1, j);
                    if j != i {
                        lemma_table_map_at(s0, j);
                    }
                }
                assert(m1 =~= m0.insert(kk, v));
            }
        },
        None => {
            s.push((k, v));
            proof {
                let s1 = s@;
                assert forall|a: int, b: int|
                    0 <= a < s1.len() && 0 <= b < s1.len() && a != b implies #[trigger] s1[a].0.key()
                    != #[trigger] s1[b].0.key() by {
                    if a == s0.len() {
                        assert(s0[b].0.key() == s1[b].0.key());
                    } else if b == s0.len() {
                        assert(s0[a].0.key() == s1[a].0.key());
                    } else {
                        assert(s1[a].0.key() == s0[a].0.key());
                        assert(s1[b].0.key() == s0[b].0.key());
                    }
                }
                let m0 = table_map(s0);
                let m1 = table_map(s1);
                assert forall|key: K::Key|
                    m1.contains_key(key) == m0.insert(kk, v).contains_key(key) by {
                    if table_has(s1, key) {
                        let j = choose|j: int| 0 <= j < s1.len() && #[trigger] s1[j].0.key() == key;
                        if j < s0.len() {
                            assert(s0[j].0.key() == key);
                        }
                    }
                    if table_has(s0, key) {
                        let j = choose|j: int| 0 <= j < s0.len() && #[trigger] s0[j].0.key() == key;
                        assert(s1[j].0.key() == key);
                    }
                    if key == kk {
                        assert(s1[s0.len() as int].0.key() == key);
                    }
                }
                assert forall|key: K::Key| #[trigger]
                    m1.contains_key(key) implies m1[key] == m0.insert(kk, v)[key] by {
                    let j = choose|j: int| 0 <= j < s1.len() && #[trigger] s1[j].0.key() == key;
                    lemma_table_map_at(s1, j);
                    if j < s0.len() {
                        lemma_table_map_at(s0, j);
                    }
                }
                assert(m1 =~= m0.insert(kk, v));
            }
        },
    }
}

/// Removes the entry with key `k`, if there is one, keeping the others in
/// order.
pub fn table_remove<K: TableKey, V>(s: &mut Vec<(K, V)>, k: &K)
    requires
        table_unique(old(s)@),
    ensures
        table_unique(final(s)@),
        table_map(final(s)@) == table_map(old(s)@).remove(k.key()),
{
    let ghost s0 = s@;
    let ghost kk = k.key();
    match table_find(s, k) {
        Some(i) => {
            s.remove(i);
            proof {
                let s1 = s@;
                assert(s1 == s0.remove(i as int));
                assert forall|a: int, b: int|
                    0 <= a < s1.len() && 0 <= b < s1.len() && a != b implies #[trigger] s1[a].0.key()
                    != #[trigger] s1[b].0.key() by {
                    let a0 = if a < i { a } else { a + 1 };
                    let b0 = if b < i { b } else { b + 1 };
                    assert(s1[a] == s0[a0]);
                    assert(s1[b] == s0[b0]);
                }
                let m0 = table_map(s0);
                let m1 = table_map(s1);
                assert forall|key: K::Key|
                    m1.contains_key(key) == m0.remove(kk).contains_key(key) by {
                    if table_has(s1, key) {
                        let j = choose|j: int| 0 <= j < s1.len() && #[trigger] s1[j].0.key() == key;
                        let j0 = if j < i { j } else { j + 1 };
                        assert(s1[j] == s0[j0]);
                        assert(s0[j0].0.key() == key);
                        assert(j0 != i);
                    }
                    if table_has(s0, key) && key != kk {
                        let j = choose|j: int| 0 <= j < s0.len() && #[trigger] s0[j].0.key() == key;
                        assert(j != i);
                        let j1 = if j < i { j } else { j - 1 };
                        assert(s1[j1] == s0[j]);
                        assert(s1[j1].0.key() == key);
                    }
                }
                assert forall|key: K::Key| #[trigger]
                    m1.contains_key(key) implies m1[key] == m0.remove(kk)[key] by {
                    let j = choose|j: int| 0 <= j < s1.len() && #[trigger] s1[j].0.key() == key;
                    let j0 = if j < i { j } else { j + 1 };
                    assert(s1[j] == s0[j0]);
                    lemma_table_map_at(s1, j);
                    lemma_table_map_at(s0, j0);
                }
                assert(m1 =~= m0.remove(kk));
            }
        },
        None => {
            proof {
                assert(table_map(s0) =~= table_map(s0).remove(kk));
            }
        },
    }
}

} // verus!
