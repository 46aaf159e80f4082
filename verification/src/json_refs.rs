use vstd::prelude::*;
use crate::text::chars_of;

verus! {

/// The parts of a JSON document that asset references are read from: strings,
/// arrays and object values; every other value is `Other`.
pub enum JsonValue {
    Other,
    Text(String),
    Array(Vec<JsonValue>),
    Object(Vec<(String, JsonValue)>),
}

/// What `uuid::Uuid::parse_str` makes of a text: the UUID's 128-bit value, or
/// `None` when the text is no UUID.
pub uninterp spec fn parsed_uuid(text: Seq<char>) -> Option<u128>;

/// `uuid::Uuid::parse_str`, the result given as the UUID's 128-bit value.
#[verifier::external_body]
fn parse_uuid(text: &str) -> (r: Option<u128>)
    ensures
        r == parsed_uuid(text@),
{
    uuid::Uuid::parse_str(text).ok().map(|id| id.as_u128())
}

/// The ids of known assets named by the strings of `v`, in document order.
pub open spec fn json_asset_ids(v: JsonValue, known: Set<u128>) -> Seq<u128>
    decreases v,
{
    match v {
        JsonValue::Other => Seq::empty(),
        JsonValue::Text(s) => match parsed_uuid(s@) {
            Some(id) => if known.contains(id) {
                seq![id]
            } else {
                Seq::empty()
            },
            None => Seq::empty(),
        },
        JsonValue::Array(items) => json_items_ids(items@, known),
        JsonValue::Object(entries) => json_entries_ids(entries@, known),
    }
}

pub open spec fn json_items_ids(items: Seq<JsonValue>, known: Set<u128>) -> Seq<u128>
    decreases items,
{
    if items.len() == 0 {
        Seq::empty()
    } else {
        json_items_ids(items.drop_last(), known) + json_asset_ids(items.last(), known)
    }
}

pub open spec fn json_entries_ids(entries: Seq<(String, JsonValue)>, known: Set<u128>) -> Seq<u128>
    decreases entries,
{
    if entries.len() == 0 {
        Seq::empty()
    } else {
        json_entries_ids(entries.drop_last(), known) + json_asset_ids(entries.last().1, known)
    }
}

fn contains_id(known: &Vec<u128>, id: u128) -> (r: bool)
    ensures
        r == known@.contains(id),
{
    let mut i: usize = 0;
    while i < known.len()
        invariant
            i <= known@.len(),
            forall|j: int| 0 <= j < i ==> known@[j] != id,
        decreases known@.len() - i,
    {
        if known[i] == id {
            return true;
        }
        i = i + 1;
    }
    false
}

/// Appends to `ids` the ids of known assets that the strings of `value` name,
/// visiting arrays and object values in order.
pub fn collect_asset_ids_from_json(known: &Vec<u128>, value: &JsonValue, ids: &mut Vec<u128>)
    ensures
        final(ids)@ == old(ids)@ + json_asset_ids(*value, known@.to_set()),
    decreases value,
{
    match value {
        JsonValue::Other => {
            proof {
                assert(final(ids)@ =~= old(ids)@ + json_asset_ids(*value, known@.to_set()));
            }
        },
        JsonValue::Text(s) => {
            match parse_uuid(s.as_str()) {
                Some(id) => {
                    if contains_id(known, id) {
                        ids.push(id);
                    }
                },
                None => {},
            }
            proof {
                assert(final(ids)@ =~= old(ids)@ + json_asset_ids(*value, known@.to_set()));
            }
        },
        JsonValue::Array(items) => {
            let mut i: usize = 0;
            while i < items.len()
                invariant
                    i <= items@.len(),
                    ids@ == old(ids)@ + json_items_ids(items@.take(i as int), known@.to_set()),
                    *value == JsonValue::Array(*items),
                decreases items@.len() - i,
            {
                proof {
                    assert(items@.take(i as int + 1).drop_last() =~= items@.take(i as int));
                }
                proof {
                    vstd::std_specs::vec::axiom_vec_index_decreases(*items, i as int);
                    assert(*value == JsonValue::Array(*items));
                    assert(decreases_to!(*value => value->Array_0));
                }
                collect_asset_ids_from_json(known, &items[i], ids);
                proof {
                    assert(ids@ =~= old(ids)@ + json_items_ids(items@.take(i as int + 1), known@.to_set()));
                }
                i = i + 1;
            }
            proof {
                assert(items@.take(items@.len() as int) =~= items@);
            }
        },
        JsonValue::Object(entries) => {
            let mut i: usize = 0;
            while i < entries.len()
                invariant
                    i <= entries@.len(),
                    ids@ == old(ids)@ + json_entries_ids(entries@.take(i as int), known@.to_set()),
                    *value == JsonValue::Object(*entries),
                decreases entries@.len() - i,
            {
                proof {
                    assert(entries@.take(i as int + 1).drop_last() =~= entries@.take(i as int));
                }
                proof {
                    vstd::std_specs::vec::axiom_vec_index_decreases(*entries, i as int);
                    assert(*value == JsonValue::Object(*entries));
                    assert(decreases_to!(*value => value->Object_0));
                    assert(decreases_to!(entries[i as int] => entries[i as int].1));
                }
                collect_asset_ids_from_json(known, &entries[i].1, ids);
                proof {
                    assert(ids@ =~= old(ids)@ + json_entries_ids(entries@.take(i as int + 1), known@.to_set()));
                }
                i = i + 1;
            }
            proof {
                assert(entries@.take(entries@.len() as int) =~= entries@);
            }
        },
    }
}

/// The elements of `s` are in strictly increasing order.
pub open spec fn strictly_increasing(s: Seq<u128>) -> bool {
    forall|i: int, j: int| 0 <= i < j < s.len() ==> #[trigger] s[i] < #[trigger] s[j]
}

/// The distinct elements of `ids` in increasing order (`sort_unstable`
/// followed by `dedup`).
pub fn sorted_unique(ids: &Vec<u128>) -> (r: Vec<u128>)
    ensures
        strictly_increasing(r@),
        r@.to_set() == ids@.to_set(),
{
    let mut out: Vec<u128> = Vec::new();
    let mut i: usize = 0;
    while i < ids.len()
        invariant
            i <= ids@.len(),
            strictly_increasing(out@),
            out@.to_set() == ids@.take(i as int).to_set(),
        decreases ids@.len() - i,
    {
        let x = ids[i];
        let ghost before = out@;
        insert_sorted(&mut out, x);
        proof {
            assert(ids@.take(i as int + 1) =~= ids@.take(i as int).push(x));
            assert(ids@.take(i as int + 1).to_set() =~= ids@.take(i as int).to_set().insert(x)) by {
                ids@.take(i as int).lemma_push_to_set_commute(x);
            }
        }
        i = i + 1;
    }
    proof {
        assert(ids@.take(ids@.len() as int) =~= ids@);
    }
    out
}

fn insert_sorted(out: &mut Vec<u128>, x: u128)
    requires
        strictly_increasing(old(out)@),
    ensures
        strictly_increasing(final(out)@),
        final(out)@.to_set() == old(out)@.to_set().insert(x),
{
    let ghost s0 = out@;
    let mut i: usize = 0;
    while i < out.len() && out[i] < x
        invariant
            out@ == s0,
            i <= s0.len(),
            forall|j: int| 0 <= j < i ==> s0[j] < x,
        decreases s0.len() - i,
    {
        i = i + 1;
    }
    if i < out.len() && out[i] == x {
        proof {
            assert(s0.to_set().insert(x) =~= s0.to_set()) by {
                assert(s0.contains(x));
            }
        }
        return;
    }
    out.insert(i, x);
    proof {
        let s1 = out@;
        assert(s1 == s0.insert(i as int, x));
        assert forall|a: int, b: int| 0 <= a < b < s1.len() implies #[trigger] s1[a] < #[trigger] s1[b] by {
            if b < i {
            } else if b == i {
                assert(s1[a] == s0[a]);
            } else if a < i {
                assert(s1[b] == s0[b - 1]);
                assert(s0[b - 1] >= x);
            } else if a == i {
                assert(s1[b] == s0[b - 1]);
            } else {
                assert(s1[a] == s0[a - 1]);
                assert(s1[b] == s0[b - 1]);
            }
        }
        assert forall|y: u128| s1.to_set().contains(y) == s0.to_set().insert(x).contains(y) by {
            if s1.contains(y) {
                let k = choose|k: int| 0 <= k < s1.len() && s1[k] == y;
                if k < i {
                    assert(s0[k] == y);
                } else if k > i {
                    assert(s0[k - 1] == y);
                }
            }
            if s0.contains(y) {
                let k = choose|k: int| 0 <= k < s0.len() && s0[k] == y;
                if k < i {
                    assert(s1[k] == y);
                } else {
                    assert(s1[k + 1] == y);
                }
            }
            if y == x {
                assert(s1[i as int] == x);
            }
        }
        assert(s1.to_set() =~= s0.to_set().insert(x));
    }
}

/// Whether files with extension `ext` can name other assets (materials and
/// prefabs).
pub open spec fn references_assets_spec(ext: Seq<char>) -> bool {
    ext == "cxmat"@ || ext == "cxprefab"@
}

fn chars_equal(a: &Vec<char>, b: &str) -> (r: bool)
    ensures
        r == (a@ == b@),
{
    let bc = chars_of(b);
    if a.len() != bc.len() {
        return false;
    }
    let mut i: usize = 0;
    while i < a.len()
        invariant
            i <= a@.len(),
            a@.len() == bc@.len(),
            bc@ == b@,
            forall|j: int| 0 <= j < i ==> a@[j] == bc@[j],
        decreases a@.len() - i,
    {
        if a[i] != bc[i] {
            return false;
        }
        i = i + 1;
    }
    proof {
        assert(a@ =~= b@);
    }
    true
}

/// Whether a file with extension `ext` is read for the assets it names.
pub fn references_assets(ext: &str) -> (r: bool)
    ensures
        r == references_assets_spec(ext@),
{
    let chars = chars_of(ext);
    chars_equal(&chars, "cxmat") || chars_equal(&chars, "cxprefab")
}

/// The sorted distinct ids of known assets that the document `value` names.
pub open spec fn referenced_ids_of(value: JsonValue, known: Set<u128>) -> Set<u128> {
    json_asset_ids(value, known).to_set()
}

/// The ids of the known assets named in a material or prefab document, sorted
/// and without repetition.
pub fn referenced_asset_ids(known: &Vec<u128>, value: &JsonValue) -> (r: Vec<u128>)
    ensures
        strictly_increasing(r@),
        r@.to_set() == referenced_ids_of(*value, known@.to_set()),
{
    let mut ids: Vec<u128> = Vec::new();
    collect_asset_ids_from_json(known, value, &mut ids);
    proof {
        assert(ids@ =~= json_asset_ids(*value, known@.to_set()));
    }
    sorted_unique(&ids)
}

/// A strictly increasing sequence is determined by its set of elements, so
/// `sorted_unique` gives the one canonical order of the distinct ids (and
/// applying it again changes nothing).
pub proof fn law_sorted_order_is_canonical(a: Seq<u128>, b: Seq<u128>)
    requires
        strictly_increasing(a),
        strictly_increasing(b),
        a.to_set() == b.to_set(),
    ensures
        a == b,
    decreases a.len() + b.len(),
{
    if a.len() == 0 || b.len() == 0 {
        if a.len() > 0 {
            assert(a.to_set().contains(a[0]));
        }
        if b.len() > 0 {
            assert(b.to_set().contains(b[0]));
        }
        assert(a =~= b);
    } else {
        assert(a.to_set().contains(a.last()));
        assert(b.to_set().contains(b.last()));
        let ia = choose|i: int| 0 <= i < a.len() && a[i] == b.last();
        let ib = choose|i: int| 0 <= i < b.len() && b[i] == a.last();
        assert(a.last() == b.last()) by {
            if a.last() < b.last() {
                assert(a[ia] <= a.last()) by {
                    if ia < a.len() - 1 {
                        assert(a[ia] < a[a.len() - 1]);
                    }
                }
            } else if b.last() < a.last() {
                assert(b[ib] <= b.last()) by {
                    if ib < b.len() - 1 {
                        assert(b[ib] < b[b.len() - 1]);
                    }
                }
            }
        }
        let x = a.last();
        let a1 = a.drop_last();
        let b1 = b.drop_last();
        assert(a1.to_set() =~= b1.to_set()) by {
            assert forall|y: u128| a1.to_set().contains(y) implies b1.to_set().contains(y) by {
                let i = choose|i: int| 0 <= i < a1.len() && a1[i] == y;
                assert(a[i] < x);
                assert(a.to_set().contains(y));
                let j = choose|j: int| 0 <= j < b.len() && b[j] == y;
                assert(j != b.len() - 1);
                assert(b1[j] == y);
            }
            assert forall|y: u128| b1.to_set().contains(y) implies a1.to_set().contains(y) by {
                let i = choose|i: int| 0 <= i < b1.len() && b1[i] == y;
                assert(b[i] < x);
                assert(b.to_set().contains(y));
                let j = choose|j: int| 0 <= j < a.len() && a[j] == y;
                assert(j != a.len() - 1);
                assert(a1[j] == y);
            }
        }
        law_sorted_order_is_canonical(a1, b1);
        assert(a =~= a1.push(x));
        assert(b =~= b1.push(x));
    }
}

} // verus!
