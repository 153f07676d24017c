//! JSON values carried by transactions: their canonical byte encoding and
//! their bounded size.
use vstd::prelude::*;

use crate::text::{
    be_bytes, lemma_text_order_total, push_be, push_bytes, same_text, text_leq, text_less_or_equal,
    text_order, utf8,
};

verus! {

/// A JSON value. Numbers keep their canonical text; an object lists its
/// entries, and is canonical (`json_canonical`) when they come in strictly
/// increasing key order, the order in which a JSON map holds them.
#[derive(Debug)]
pub enum JsonValue {
    Null,
    Bool(bool),
    Number(String),
    String(String),
    Array(Vec<JsonValue>),
    Object(Vec<(String, JsonValue)>),
}

/// The mathematical value of a `JsonValue`.
pub enum JsonSpec {
    Null,
    Bool(bool),
    Number(Seq<char>),
    Text(Seq<char>),
    Array(Seq<JsonSpec>),
    Object(Seq<(Seq<char>, JsonSpec)>),
}

/// The value of a JSON value.
pub open spec fn json_view(value: JsonValue) -> JsonSpec
    decreases value,
{
    match value {
        JsonValue::Null => JsonSpec::Null,
        JsonValue::Bool(b) => JsonSpec::Bool(b),
        JsonValue::Number(t) => JsonSpec::Number(t@),
        JsonValue::String(t) => JsonSpec::Text(t@),
        JsonValue::Array(items) => JsonSpec::Array(
            Seq::new(
                items@.len(),
                |i: int|
                    if 0 <= i < items@.len() {
                        json_view(items@[i])
                    } else {
                        JsonSpec::Null
                    },
            ),
        ),
        JsonValue::Object(entries) => JsonSpec::Object(
            Seq::new(
                entries@.len(),
                |i: int|
                    if 0 <= i < entries@.len() {
                        (entries@[i].0@, json_view(entries@[i].1))
                    } else {
                        (Seq::empty(), JsonSpec::Null)
                    },
            ),
        ),
    }
}

impl View for JsonValue {
    type V = JsonSpec;

    open spec fn view(&self) -> JsonSpec {
        json_view(*self)
    }
}

/// The deepest a value may nest before it is rejected.
pub const MAX_JSON_DEPTH: usize = 64;

/// A string as a length-prefixed field: eight big-endian length bytes, then the UTF-8 bytes.
pub open spec fn text_field(text: Seq<char>) -> Seq<u8> {
    be_bytes(utf8(text).len(), 8) + utf8(text)
}

/// Bytes as a length-prefixed field.
pub open spec fn bytes_field(bytes: Seq<u8>) -> Seq<u8> {
    be_bytes(bytes.len(), 8) + bytes
}

/// The canonical encoding of a JSON value: a type tag, then the content.
pub open spec fn json_bytes(value: JsonSpec) -> Seq<u8>
    decreases value,
{
    match value {
        JsonSpec::Null => seq![0u8],
        JsonSpec::Bool(b) => if b {
            seq![2u8]
        } else {
            seq![1u8]
        },
        JsonSpec::Number(text) => seq![3u8] + text_field(text),
        JsonSpec::Text(text) => seq![4u8] + text_field(text),
        JsonSpec::Array(items) => seq![5u8] + be_bytes(items.len(), 8) + json_list_bytes(items),
        JsonSpec::Object(entries) => seq![6u8] + be_bytes(entries.len(), 8) + json_entries_bytes(
            entries,
        ),
    }
}

/// The encodings of the items of an array, one after another.
pub open spec fn json_list_bytes(items: Seq<JsonSpec>) -> Seq<u8>
    decreases items,
{
    if items.len() == 0 {
        seq![]
    } else {
        json_list_bytes(items.drop_last()) + json_bytes(items.last())
    }
}

/// The encodings of the entries of an object: each key as a field, then its value.
pub open spec fn json_entries_bytes(entries: Seq<(Seq<char>, JsonSpec)>) -> Seq<u8>
    decreases entries,
{
    if entries.len() == 0 {
        seq![]
    } else {
        json_entries_bytes(entries.drop_last()) + text_field(entries.last().0) + json_bytes(
            entries.last().1,
        )
    }
}

/// The size of a value: one per node, plus the bytes of texts and keys.
pub open spec fn json_size(value: JsonSpec) -> nat
    decreases value,
{
    match value {
        JsonSpec::Null => 1,
        JsonSpec::Bool(_) => 1,
        JsonSpec::Number(text) => 1 + utf8(text).len(),
        JsonSpec::Text(text) => 1 + utf8(text).len(),
        JsonSpec::Array(items) => 1 + json_list_size(items),
        JsonSpec::Object(entries) => 1 + json_entries_size(entries),
    }
}

/// The total size of array items.
pub open spec fn json_list_size(items: Seq<JsonSpec>) -> nat
    decreases items,
{
    if items.len() == 0 {
        0
    } else {
        json_list_size(items.drop_last()) + json_size(items.last())
    }
}

/// The total size of object entries (keys included).
pub open spec fn json_entries_size(entries: Seq<(Seq<char>, JsonSpec)>) -> nat
    decreases entries,
{
    if entries.len() == 0 {
        0
    } else {
        json_entries_size(entries.drop_last()) + utf8(entries.last().0).len() + json_size(
            entries.last().1,
        )
    }
}

/// How many levels of nesting lie below a value (0 for a leaf or an empty container).
pub open spec fn json_height(value: JsonSpec) -> nat
    decreases value,
{
    match value {
        JsonSpec::Array(items) => if items.len() == 0 {
            0
        } else {
            1 + json_list_height(items)
        },
        JsonSpec::Object(entries) => if entries.len() == 0 {
            0
        } else {
            1 + json_entries_height(entries)
        },
        _ => 0,
    }
}

/// The greatest height among array items.
pub open spec fn json_list_height(items: Seq<JsonSpec>) -> nat
    decreases items,
{
    if items.len() == 0 {
        0
    } else {
        let rest = json_list_height(items.drop_last());
        let last = json_height(items.last());
        if rest >= last {
            rest
        } else {
            last
        }
    }
}

/// The greatest height among object values.
pub open spec fn json_entries_height(entries: Seq<(Seq<char>, JsonSpec)>) -> nat
    decreases entries,
{
    if entries.len() == 0 {
        0
    } else {
        let rest = json_entries_height(entries.drop_last());
        let last = json_height(entries.last().1);
        if rest >= last {
            rest
        } else {
            last
        }
    }
}

/// The size of a value if it nests at most `MAX_JSON_DEPTH` levels and its size is within `limit`.
pub open spec fn json_size_limited(value: JsonSpec, limit: nat) -> Option<nat> {
    if json_height(value) <= MAX_JSON_DEPTH && json_size(value) <= limit {
        Some(json_size(value))
    } else {
        None
    }
}

/// The size of object entries (as in transaction metadata) if every value nests
/// at most `MAX_JSON_DEPTH` levels and the size is within `limit`.
pub open spec fn entries_size_limited(entries: Seq<(Seq<char>, JsonSpec)>, limit: nat) -> Option<
    nat,
> {
    if json_entries_height(entries) <= MAX_JSON_DEPTH && json_entries_size(entries) <= limit {
        Some(json_entries_size(entries))
    } else {
        None
    }
}

/// The values of object entries (or transaction metadata).
pub open spec fn entries_view(entries: Seq<(String, JsonValue)>) -> Seq<(Seq<char>, JsonSpec)> {
    Seq::new(entries.len(), |i: int| (entries[i].0@, entries[i].1@))
}

/// Whether key `a` sorts strictly before key `b`.
pub open spec fn key_before(a: Seq<char>, b: Seq<char>) -> bool {
    text_leq(a, b) && a != b
}

/// Whether the keys of object entries strictly increase, so that no key
/// occurs twice: the order in which a JSON map holds its entries.
pub open spec fn keys_increasing(entries: Seq<(Seq<char>, JsonSpec)>) -> bool {
    forall|i: int, j: int|
        #![trigger entries[i], entries[j]]
        0 <= i < j < entries.len() ==> key_before(entries[i].0, entries[j].0)
}

/// Whether a value is canonical: every object in it, at any depth, holds its
/// keys in strictly increasing order.
pub open spec fn json_canonical(value: JsonSpec) -> bool
    decreases value,
{
    match value {
        JsonSpec::Array(items) => list_canonical(items),
        JsonSpec::Object(entries) => keys_increasing(entries) && values_canonical(entries),
        _ => true,
    }
}

/// Whether every array item is canonical.
pub open spec fn list_canonical(items: Seq<JsonSpec>) -> bool
    decreases items,
{
    if items.len() == 0 {
        true
    } else {
        list_canonical(items.drop_last()) && json_canonical(items.last())
    }
}

/// Whether every value of object entries is canonical.
pub open spec fn values_canonical(entries: Seq<(Seq<char>, JsonSpec)>) -> bool
    decreases entries,
{
    if entries.len() == 0 {
        true
    } else {
        values_canonical(entries.drop_last()) && json_canonical(entries.last().1)
    }
}

/// Whether object entries (or transaction metadata) are canonical: keys
/// strictly increasing, every value canonical.
pub open spec fn entries_canonical(entries: Seq<(Seq<char>, JsonSpec)>) -> bool {
    keys_increasing(entries) && values_canonical(entries)
}

proof fn lemma_key_before_transitive(a: Seq<char>, b: Seq<char>, c: Seq<char>)
    requires
        key_before(a, b),
        key_before(b, c),
    ensures
        key_before(a, c),
{
    lemma_text_order_total();
    let r = text_order();
    assert(r(a, b) && r(b, c));
    assert(r(a, c));
    if a == c {
        assert(r(c, b));
        assert(b == c);
    }
}

proof fn lemma_key_before_asymmetric(a: Seq<char>, b: Seq<char>)
    requires
        key_before(a, b),
    ensures
        !key_before(b, a),
{
    lemma_text_order_total();
    let r = text_order();
    assert(r(a, b));
    if r(b, a) {
        assert(a == b);
    }
}

/// A canonical object is fixed by the entries it holds: two canonical entry
/// lists that hold the same (key, value) entries are the same list, and so
/// encode to the same bytes, whatever order the entries were collected in.
pub proof fn lemma_canonical_entries_unique(
    a: Seq<(Seq<char>, JsonSpec)>,
    b: Seq<(Seq<char>, JsonSpec)>,
)
    requires
        keys_increasing(a),
        keys_increasing(b),
        forall|e: (Seq<char>, JsonSpec)| a.contains(e) <==> b.contains(e),
    ensures
        a == b,
        json_entries_bytes(a) == json_entries_bytes(b),
    decreases a.len() + b.len(),
{
    if a.len() == 0 {
        if b.len() > 0 {
            assert(b.contains(b[0]));
        }
        assert(a =~= b);
    } else if b.len() == 0 {
        assert(a.contains(a[0]));
    } else {
        let x = a.last();
        let y = b.last();
        assert(a.contains(x)) by {
            assert(a[a.len() - 1] == x);
        }
        assert(b.contains(y)) by {
            assert(b[b.len() - 1] == y);
        }
        let j = choose|j: int| 0 <= j < b.len() && b[j] == x;
        let i = choose|i: int| 0 <= i < a.len() && a[i] == y;
        if x != y {
            assert(j < b.len() - 1);
            assert(i < a.len() - 1);
            assert(key_before(b[j].0, b[b.len() - 1].0));
            assert(key_before(a[i].0, a[a.len() - 1].0));
            lemma_key_before_asymmetric(x.0, y.0);
        }
        let a2 = a.drop_last();
        let b2 = b.drop_last();
        assert forall|e: (Seq<char>, JsonSpec)| a2.contains(e) implies b2.contains(e) by {
            let k = choose|k: int| 0 <= k < a2.len() && a2[k] == e;
            assert(a[k] == e);
            assert(a.contains(e));
            let m = choose|m: int| 0 <= m < b.len() && b[m] == e;
            assert(key_before(a[k].0, a[a.len() - 1].0));
            assert(m != b.len() - 1);
            assert(b2[m] == e);
        }
        assert forall|e: (Seq<char>, JsonSpec)| b2.contains(e) implies a2.contains(e) by {
            let k = choose|k: int| 0 <= k < b2.len() && b2[k] == e;
            assert(b[k] == e);
            assert(b.contains(e));
            let m = choose|m: int| 0 <= m < a.len() && a[m] == e;
            assert(key_before(b[k].0, b[b.len() - 1].0));
            assert(m != a.len() - 1);
            assert(a2[m] == e);
        }
        assert forall|p: int, q: int| 0 <= p < q < a2.len() implies key_before(
            #[trigger] a2[p].0,
            #[trigger] a2[q].0,
        ) by {
            assert(a[p] == a2[p] && a[q] == a2[q]);
        }
        assert forall|p: int, q: int| 0 <= p < q < b2.len() implies key_before(
            #[trigger] b2[p].0,
            #[trigger] b2[q].0,
        ) by {
            assert(b[p] == b2[p] && b[q] == b2[q]);
        }
        lemma_canonical_entries_unique(a2, b2);
        assert(a =~= a2.push(x));
        assert(b =~= b2.push(y));
    }
}

impl JsonValue {
    /// A copy of this value.
    pub fn deep_copy(&self) -> (r: JsonValue)
        ensures
            r@ == self@,
        decreases self,
    {
        match self {
            JsonValue::Null => JsonValue::Null,
            JsonValue::Bool(b) => JsonValue::Bool(*b),
            JsonValue::Number(t) => JsonValue::Number(t.clone()),
            JsonValue::String(t) => JsonValue::String(t.clone()),
            JsonValue::Array(items) => {
                let mut out: Vec<JsonValue> = Vec::new();
                let mut i: usize = 0;
                while i < items.len()
                    invariant
                        *self == JsonValue::Array(*items),
                        i <= items@.len(),
                        out@.len() == i,
                        forall|k: int| 0 <= k < i ==> (#[trigger] out@[k])@ == items@[k]@,
                    decreases items@.len() - i,
                {
                    proof {
                        assert(decreases_to!(*items => items[i as int]));
                        assert(decreases_to!(*self => self->Array_0));
                        assert(decreases_to!(*self => *items));
                        assert(decreases_to!(*self => items[i as int]));
                    }
                    out.push(items[i].deep_copy());
                    i = i + 1;
                }
                let r = JsonValue::Array(out);
                assert(r@ == self@) by {
                    if let JsonSpec::Array(a) = r@ {
                        if let JsonSpec::Array(b) = self@ {
                            assert(a =~= b);
                        }
                    }
                }
                r
            },
            JsonValue::Object(entries) => {
                let mut out: Vec<(String, JsonValue)> = Vec::new();
                let mut i: usize = 0;
                while i < entries.len()
                    invariant
                        *self == JsonValue::Object(*entries),
                        i <= entries@.len(),
                        out@.len() == i,
                        forall|k: int|
                            0 <= k < i ==> (#[trigger] out@[k]).0@ == entries@[k].0@ && out@[k].1@
                                == entries@[k].1@,
                    decreases entries@.len() - i,
                {
                    proof {
                        assert(decreases_to!(*entries => entries[i as int]));
                        assert(decreases_to!(*self => self->Object_0));
                        assert(decreases_to!(*self => *entries));
                        assert(decreases_to!(*self => entries[i as int]));
                        assert(decreases_to!(entries[i as int] => entries[i as int].1));
                        assert(decreases_to!(*self => entries[i as int].1));
                    }
                    let entry = &entries[i];
                    out.push((entry.0.clone(), entry.1.deep_copy()));
                    i = i + 1;
                }
                let r = JsonValue::Object(out);
                assert(r@ == self@) by {
                    if let JsonSpec::Object(a) = r@ {
                        if let JsonSpec::Object(b) = self@ {
                            assert(a =~= b);
                        }
                    }
                }
                r
            },
        }
    }
}

impl Clone for JsonValue {
    fn clone(&self) -> (r: Self)
        ensures
            r@ == self@,
    {
        self.deep_copy()
    }
}

/// Appends a string as a length-prefixed field.
pub fn append_string(target: &mut Vec<u8>, value: &str)
    ensures
        final(target)@ == old(target)@ + text_field(value@),
{
    append_bytes(target, value.as_bytes());
}

/// Appends bytes as a length-prefixed field.
pub fn append_bytes(target: &mut Vec<u8>, value: &[u8])
    ensures
        final(target)@ == old(target)@ + bytes_field(value@),
{
    push_be(target, value.len() as u128, 8);
    push_bytes(target, value);
    assert(final(target)@ =~= old(target)@ + bytes_field(value@));
}

/// The values of array items.
pub open spec fn list_view(items: Seq<JsonValue>) -> Seq<JsonSpec> {
    Seq::new(items.len(), |i: int| items[i]@)
}

proof fn lemma_array_view(items: Vec<JsonValue>)
    ensures
        JsonValue::Array(items)@ == JsonSpec::Array(list_view(items@)),
{
    if let JsonSpec::Array(a) = JsonValue::Array(items)@ {
        assert(a =~= list_view(items@));
    }
}

proof fn lemma_object_view(entries: Vec<(String, JsonValue)>)
    ensures
        JsonValue::Object(entries)@ == JsonSpec::Object(entries_view(entries@)),
{
    if let JsonSpec::Object(a) = JsonValue::Object(entries)@ {
        assert(a =~= entries_view(entries@));
    }
}

/// Appends the canonical encoding of a JSON value.
pub fn append_json(target: &mut Vec<u8>, value: &JsonValue)
    ensures
        final(target)@ == old(target)@ + json_bytes(value@),
    decreases value,
{
    let ghost start = target@;
    match value {
        JsonValue::Null => {
            target.push(0u8);
        },
        JsonValue::Bool(b) => {
            if *b {
                target.push(2u8);
            } else {
                target.push(1u8);
            }
        },
        JsonValue::Number(text) => {
            target.push(3u8);
            append_string(target, text.as_str());
        },
        JsonValue::String(text) => {
            target.push(4u8);
            append_string(target, text.as_str());
        },
        JsonValue::Array(items) => {
            proof {
                lemma_array_view(*items);
            }
            target.push(5u8);
            push_be(target, items.len() as u128, 8);
            let ghost head = target@;
            let mut i: usize = 0;
            while i < items.len()
                invariant
                    *value == JsonValue::Array(*items),
                    i <= items@.len(),
                    target@ == head + json_list_bytes(list_view(items@.subrange(0, i as int))),
                decreases items@.len() - i,
            {
                proof {
                    assert(decreases_to!(*items => items[i as int]));
                    assert(decreases_to!(*value => value->Array_0));
                    assert(decreases_to!(*value => *items));
                    assert(decreases_to!(*value => items[i as int]));
                }
                append_json(target, &items[i]);
                proof {
                    let next = list_view(items@.subrange(0, i + 1));
                    assert(next.drop_last() =~= list_view(items@.subrange(0, i as int)));
                    assert(next.last() == items@[i as int]@);
                }
                i = i + 1;
            }
            assert(list_view(items@.subrange(0, items@.len() as int)) =~= list_view(items@));
        },
        JsonValue::Object(entries) => {
            proof {
                lemma_object_view(*entries);
            }
            target.push(6u8);
            push_be(target, entries.len() as u128, 8);
            let ghost head = target@;
            let mut i: usize = 0;
            while i < entries.len()
                invariant
                    *value == JsonValue::Object(*entries),
                    i <= entries@.len(),
                    target@ == head + json_entries_bytes(entries_view(entries@.subrange(0, i as int))),
                decreases entries@.len() - i,
            {
                let entry = &entries[i];
                append_string(target, entry.0.as_str());
                proof {
                    assert(decreases_to!(*entries => entries[i as int]));
                    assert(decreases_to!(*value => value->Object_0));
                    assert(decreases_to!(*value => *entries));
                    assert(decreases_to!(*value => entries[i as int]));
                    assert(decreases_to!(entries[i as int] => entries[i as int].1));
                    assert(decreases_to!(*value => entries[i as int].1));
                }
                append_json(target, &entry.1);
                proof {
                    let next = entries_view(entries@.subrange(0, i + 1));
                    assert(next.drop_last() =~= entries_view(entries@.subrange(0, i as int)));
                    assert(next.last() == (entry.0@, entry.1@));
                }
                i = i + 1;
            }
            assert(entries_view(entries@.subrange(0, entries@.len() as int)) =~= entries_view(entries@));
        },
    }
    assert(final(target)@ =~= start + json_bytes(value@));
}

/// The size of a value found `depth` levels down, if it and everything below
/// it lies within `MAX_JSON_DEPTH` levels and its size is within `limit`.
fn measure_json(value: &JsonValue, depth: usize, limit: usize) -> (r: Option<usize>)
    requires
        depth <= MAX_JSON_DEPTH + 1,
    ensures
        r == (if depth + json_height(value@) <= MAX_JSON_DEPTH && json_size(value@) <= limit {
            Some(json_size(value@) as usize)
        } else {
            None::<usize>
        }),
    decreases value,
{
    if depth > MAX_JSON_DEPTH {
        return None;
    }
    if limit == 0 {
        return None;
    }
    match value {
        JsonValue::Null => {
            assert(value@ == JsonSpec::Null);
            Some(1)
        },
        JsonValue::Bool(b) => {
            assert(value@ == JsonSpec::Bool(*b));
            Some(1)
        },
        JsonValue::Number(text) => {
            if text.as_str().as_bytes().len() > limit - 1 {
                None
            } else {
                Some(1 + text.as_str().as_bytes().len())
            }
        },
        JsonValue::String(text) => {
            if text.as_str().as_bytes().len() > limit - 1 {
                None
            } else {
                Some(1 + text.as_str().as_bytes().len())
            }
        },
        JsonValue::Array(items) => {
            proof {
                lemma_array_view(*items);
            }
            let ghost all = list_view(items@);
            let mut total: usize = 1;
            let mut i: usize = 0;
            while i < items.len()
                invariant
                    *value == JsonValue::Array(*items),
                    all == list_view(items@),
                    value@ == JsonSpec::Array(all),
                    depth <= MAX_JSON_DEPTH,
                    i <= items@.len(),
                    1 <= total <= limit,
                    total == 1 + json_list_size(all.subrange(0, i as int)),
                    i > 0 ==> depth + 1 + json_list_height(all.subrange(0, i as int))
                        <= MAX_JSON_DEPTH,
                decreases items@.len() - i,
            {
                let item = &items[i];
                proof {
                    assert(decreases_to!(*items => items[i as int]));
                    assert(decreases_to!(*value => value->Array_0));
                    assert(decreases_to!(*value => *items));
                    assert(decreases_to!(*value => items[i as int]));
                }
                let part = measure_json(item, depth + 1, limit - total);
                proof {
                    let next = all.subrange(0, i + 1);
                    assert(next.drop_last() =~= all.subrange(0, i as int));
                    assert(next.last() == item@);
                    assert(json_list_size(next) == json_list_size(all.subrange(0, i as int))
                        + json_size(item@));
                    let rest = json_list_height(all.subrange(0, i as int));
                    assert(json_list_height(next) == if rest >= json_height(item@) {
                        rest
                    } else {
                        json_height(item@)
                    });
                    assert(json_list_height(all.subrange(0, 0)) == 0);
                    lemma_list_size_monotone(all, i as int + 1);
                    lemma_list_height_monotone(all, i as int + 1);
                    assert(all.subrange(0, items@.len() as int) =~= all);
                }
                match part {
                    Some(s) => {
                        total = total + s;
                    },
                    None => {
                        return None;
                    },
                }
                i = i + 1;
            }
            proof {
                assert(all.subrange(0, items@.len() as int) =~= all);
            }
            Some(total)
        },
        JsonValue::Object(entries) => {
            proof {
                lemma_object_view(*entries);
            }
            let ghost all = entries_view(entries@);
            let mut total: usize = 1;
            let mut i: usize = 0;
            while i < entries.len()
                invariant
                    *value == JsonValue::Object(*entries),
                    all == entries_view(entries@),
                    value@ == JsonSpec::Object(all),
                    depth <= MAX_JSON_DEPTH,
                    i <= entries@.len(),
                    1 <= total <= limit,
                    total == 1 + json_entries_size(all.subrange(0, i as int)),
                    i > 0 ==> depth + 1 + json_entries_height(all.subrange(0, i as int))
                        <= MAX_JSON_DEPTH,
                decreases entries@.len() - i,
            {
                let entry = &entries[i];
                proof {
                    let next = all.subrange(0, i + 1);
                    assert(next.drop_last() =~= all.subrange(0, i as int));
                    assert(next.last() == (entry.0@, entry.1@));
                    assert(json_entries_size(next) == json_entries_size(all.subrange(0, i as int))
                        + utf8(entry.0@).len() + json_size(entry.1@));
                    let rest = json_entries_height(all.subrange(0, i as int));
                    assert(json_entries_height(next) == if rest >= json_height(entry.1@) {
                        rest
                    } else {
                        json_height(entry.1@)
                    });
                    assert(json_entries_height(all.subrange(0, 0)) == 0);
                    lemma_entries_size_monotone(all, i as int + 1);
                    lemma_entries_height_monotone(all, i as int + 1);
                    assert(all.subrange(0, entries@.len() as int) =~= all);
                }
                let key_len = entry.0.as_str().as_bytes().len();
                if key_len > limit - total {
                    return None;
                }
                total = total + key_len;
                if total == limit {
                    return None;
                }
                proof {
                    assert(decreases_to!(*entries => entries[i as int]));
                    assert(decreases_to!(*value => value->Object_0));
                    assert(decreases_to!(*value => *entries));
                    assert(decreases_to!(*value => entries[i as int]));
                    assert(decreases_to!(entries[i as int] => entries[i as int].1));
                    assert(decreases_to!(*value => entries[i as int].1));
                }
                let part = measure_json(&entry.1, depth + 1, limit - total);
                match part {
                    Some(s) => {
                        total = total + s;
                    },
                    None => {
                        return None;
                    },
                }
                i = i + 1;
            }
            proof {
                assert(all.subrange(0, entries@.len() as int) =~= all);
            }
            Some(total)
        },
    }
}

proof fn lemma_list_size_monotone(items: Seq<JsonSpec>, n: int)
    requires
        0 <= n <= items.len(),
    ensures
        json_list_size(items.subrange(0, n)) <= json_list_size(items),
        json_list_size(items.subrange(0, n)) >= if n > 0 {
            json_size(items[n - 1])
        } else {
            0
        },
    decreases items.len(),
{
    if n < items.len() {
        assert(items.drop_last().subrange(0, n) =~= items.subrange(0, n));
        lemma_list_size_monotone(items.drop_last(), n);
    } else {
        assert(items.subrange(0, n) =~= items);
        if n > 0 {
            assert(items.last() == items[n - 1]);
        }
    }
}

proof fn lemma_list_height_monotone(items: Seq<JsonSpec>, n: int)
    requires
        0 <= n <= items.len(),
    ensures
        json_list_height(items.subrange(0, n)) <= json_list_height(items),
        n > 0 ==> json_list_height(items.subrange(0, n)) >= json_height(items[n - 1]),
    decreases items.len(),
{
    if n < items.len() {
        assert(items.drop_last().subrange(0, n) =~= items.subrange(0, n));
        lemma_list_height_monotone(items.drop_last(), n);
    } else {
        assert(items.subrange(0, n) =~= items);
    }
}

proof fn lemma_entries_size_monotone(entries: Seq<(Seq<char>, JsonSpec)>, n: int)
    requires
        0 <= n <= entries.len(),
    ensures
        json_entries_size(entries.subrange(0, n)) <= json_entries_size(entries),
        json_entries_size(entries.subrange(0, n)) >= if n > 0 {
            utf8(entries[n - 1].0).len() + json_size(entries[n - 1].1)
        } else {
            0
        },
    decreases entries.len(),
{
    if n < entries.len() {
        assert(entries.drop_last().subrange(0, n) =~= entries.subrange(0, n));
        lemma_entries_size_monotone(entries.drop_last(), n);
    } else {
        assert(entries.subrange(0, n) =~= entries);
    }
}

proof fn lemma_entries_height_monotone(entries: Seq<(Seq<char>, JsonSpec)>, n: int)
    requires
        0 <= n <= entries.len(),
    ensures
        json_entries_height(entries.subrange(0, n)) <= json_entries_height(entries),
        n > 0 ==> json_entries_height(entries.subrange(0, n)) >= json_height(entries[n - 1].1),
    decreases entries.len(),
{
    if n < entries.len() {
        assert(entries.drop_last().subrange(0, n) =~= entries.subrange(0, n));
        lemma_entries_height_monotone(entries.drop_last(), n);
    } else {
        assert(entries.subrange(0, n) =~= entries);
    }
}

/// The size of a value, if it nests at most `MAX_JSON_DEPTH` levels and is within `limit`.
pub fn json_size_within(value: &JsonValue, limit: usize) -> (r: Option<usize>)
    ensures
        r matches Some(s) ==> json_size_limited(value@, limit as nat) == Some(s as nat),
        r is None ==> json_size_limited(value@, limit as nat) is None,
{
    measure_json(value, 0, limit)
}

/// The size of object entries, if every value nests at most `MAX_JSON_DEPTH`
/// levels and the size is within `limit`.
pub fn metadata_size_within(metadata: &Vec<(String, JsonValue)>, limit: usize) -> (r: Option<usize>)
    ensures
        r matches Some(s) ==> entries_size_limited(entries_view(metadata@), limit as nat) == Some(
            s as nat,
        ),
        r is None ==> entries_size_limited(entries_view(metadata@), limit as nat) is None,
{
    let ghost all = entries_view(metadata@);
    let mut size: usize = 0;
    let mut i: usize = 0;
    while i < metadata.len()
        invariant
            i <= metadata@.len(),
            size <= limit,
            all == entries_view(metadata@),
            size == json_entries_size(all.subrange(0, i as int)),
            json_entries_height(all.subrange(0, i as int)) <= MAX_JSON_DEPTH,
        decreases metadata@.len() - i,
    {
        let entry = &metadata[i];
        proof {
            let next = all.subrange(0, i + 1);
            assert(next.drop_last() =~= all.subrange(0, i as int));
            assert(next.last() == (entry.0@, entry.1@));
            assert(json_entries_size(next) == json_entries_size(all.subrange(0, i as int)) + utf8(
                entry.0@,
            ).len() + json_size(entry.1@));
            let rest = json_entries_height(all.subrange(0, i as int));
            assert(json_entries_height(next) == if rest >= json_height(entry.1@) {
                rest
            } else {
                json_height(entry.1@)
            });
            lemma_entries_size_monotone(all, i as int + 1);
            lemma_entries_height_monotone(all, i as int + 1);
            assert(all.subrange(0, metadata@.len() as int) =~= all);
        }
        let key_len = entry.0.as_str().as_bytes().len();
        if key_len > limit - size {
            return None;
        }
        size = size + key_len;
        match measure_json(&entry.1, 0, limit - size) {
            Some(s) => {
                size = size + s;
            },
            None => {
                return None;
            },
        }
        i = i + 1;
    }
    proof {
        assert(all.subrange(0, metadata@.len() as int) =~= all);
    }
    Some(size)
}

proof fn lemma_list_canonical_prefix(items: Seq<JsonSpec>, n: int)
    requires
        0 <= n <= items.len(),
        list_canonical(items),
    ensures
        list_canonical(items.subrange(0, n)),
    decreases items.len(),
{
    if n < items.len() {
        assert(items.drop_last().subrange(0, n) =~= items.subrange(0, n));
        lemma_list_canonical_prefix(items.drop_last(), n);
    } else {
        assert(items.subrange(0, n) =~= items);
    }
}

proof fn lemma_values_canonical_prefix(entries: Seq<(Seq<char>, JsonSpec)>, n: int)
    requires
        0 <= n <= entries.len(),
        values_canonical(entries),
    ensures
        values_canonical(entries.subrange(0, n)),
    decreases entries.len(),
{
    if n < entries.len() {
        assert(entries.drop_last().subrange(0, n) =~= entries.subrange(0, n));
        lemma_values_canonical_prefix(entries.drop_last(), n);
    } else {
        assert(entries.subrange(0, n) =~= entries);
    }
}

/// Whether the keys of object entries strictly increase.
pub fn keys_in_order(entries: &Vec<(String, JsonValue)>) -> (r: bool)
    ensures
        r == keys_increasing(entries_view(entries@)),
{
    let ghost all = entries_view(entries@);
    if entries.len() == 0 {
        return true;
    }
    let mut i: usize = 1;
    while i < entries.len()
        invariant
            1 <= i <= entries@.len(),
            all == entries_view(entries@),
            keys_increasing(all.subrange(0, i as int)),
        decreases entries@.len() - i,
    {
        let before = entries[i - 1].0.as_str();
        let key = entries[i].0.as_str();
        if !text_less_or_equal(before, key) || same_text(before, key) {
            assert(!keys_increasing(all)) by {
                assert(all[i - 1].0 == before@ && all[i as int].0 == key@);
            }
            return false;
        }
        proof {
            let next = all.subrange(0, i + 1);
            let prev = all.subrange(0, i as int);
            assert(key_before(next[i - 1].0, next[i as int].0));
            assert forall|p: int, q: int| 0 <= p < q < next.len() implies key_before(
                #[trigger] next[p].0,
                #[trigger] next[q].0,
            ) by {
                if q < i {
                    assert(prev[p] == next[p] && prev[q] == next[q]);
                } else if p < i - 1 {
                    assert(prev[p] == next[p] && prev[i - 1] == next[i - 1]);
                    lemma_key_before_transitive(next[p].0, next[i - 1].0, next[q].0);
                }
            }
        }
        i = i + 1;
    }
    assert(all.subrange(0, entries@.len() as int) =~= all);
    true
}

/// Whether a value is canonical: every object in it, at any depth, holds its
/// keys in strictly increasing order.
pub fn json_is_canonical(value: &JsonValue) -> (r: bool)
    ensures
        r == json_canonical(value@),
    decreases value,
{
    match value {
        JsonValue::Array(items) => {
            proof {
                lemma_array_view(*items);
            }
            let ghost all = list_view(items@);
            let mut i: usize = 0;
            while i < items.len()
                invariant
                    *value == JsonValue::Array(*items),
                    all == list_view(items@),
                    value@ == JsonSpec::Array(all),
                    i <= items@.len(),
                    list_canonical(all.subrange(0, i as int)),
                decreases items@.len() - i,
            {
                proof {
                    assert(decreases_to!(*items => items[i as int]));
                    assert(decreases_to!(*value => value->Array_0));
                    assert(decreases_to!(*value => *items));
                    assert(decreases_to!(*value => items[i as int]));
                }
                let ok = json_is_canonical(&items[i]);
                proof {
                    let next = all.subrange(0, i + 1);
                    assert(next.drop_last() =~= all.subrange(0, i as int));
                    assert(next.last() == items@[i as int]@);
                    if list_canonical(all) {
                        lemma_list_canonical_prefix(all, i + 1);
                    }
                }
                if !ok {
                    return false;
                }
                i = i + 1;
            }
            assert(all.subrange(0, items@.len() as int) =~= all);
            true
        },
        JsonValue::Object(entries) => {
            proof {
                lemma_object_view(*entries);
            }
            let ghost all = entries_view(entries@);
            if !keys_in_order(entries) {
                return false;
            }
            let mut i: usize = 0;
            while i < entries.len()
                invariant
                    *value == JsonValue::Object(*entries),
                    all == entries_view(entries@),
                    value@ == JsonSpec::Object(all),
                    keys_increasing(all),
                    i <= entries@.len(),
                    values_canonical(all.subrange(0, i as int)),
                decreases entries@.len() - i,
            {
                proof {
                    assert(decreases_to!(*entries => entries[i as int]));
                    assert(decreases_to!(*value => value->Object_0));
                    assert(decreases_to!(*value => *entries));
                    assert(decreases_to!(*value => entries[i as int]));
                    assert(decreases_to!(entries[i as int] => entries[i as int].1));
                    assert(decreases_to!(*value => entries[i as int].1));
                }
                let ok = json_is_canonical(&entries[i].1);
                proof {
                    let next = all.subrange(0, i + 1);
                    assert(next.drop_last() =~= all.subrange(0, i as int));
                    assert(next.last() == (entries@[i as int].0@, entries@[i as int].1@));
                    if values_canonical(all) {
                        lemma_values_canonical_prefix(all, i + 1);
                    }
                }
                if !ok {
                    return false;
                }
                i = i + 1;
            }
            assert(all.subrange(0, entries@.len() as int) =~= all);
            true
        },
        _ => true,
    }
}

/// Whether object entries (or transaction metadata) are canonical: keys
/// strictly increasing, every value canonical.
pub fn entries_are_canonical(entries: &Vec<(String, JsonValue)>) -> (r: bool)
    ensures
        r == entries_canonical(entries_view(entries@)),
{
    let ghost all = entries_view(entries@);
    if !keys_in_order(entries) {
        return false;
    }
    let mut i: usize = 0;
    while i < entries.len()
        invariant
            all == entries_view(entries@),
            keys_increasing(all),
            i <= entries@.len(),
            values_canonical(all.subrange(0, i as int)),
        decreases entries@.len() - i,
    {
        let ok = json_is_canonical(&entries[i].1);
        proof {
            let next = all.subrange(0, i + 1);
            assert(next.drop_last() =~= all.subrange(0, i as int));
            assert(next.last() == (entries@[i as int].0@, entries@[i as int].1@));
            if values_canonical(all) {
                lemma_values_canonical_prefix(all, i + 1);
            }
        }
        if !ok {
            return false;
        }
        i = i + 1;
    }
    assert(all.subrange(0, entries@.len() as int) =~= all);
    true
}

/// Whether two JSON values are equal.
pub fn json_equal(a: &JsonValue, b: &JsonValue) -> (r: bool)
    ensures
        r == (a@ == b@),
    decreases a,
{
    match (a, b) {
        (JsonValue::Null, JsonValue::Null) => true,
        (JsonValue::Bool(x), JsonValue::Bool(y)) => *x == *y,
        (JsonValue::Number(x), JsonValue::Number(y)) => same_text(x.as_str(), y.as_str()),
        (JsonValue::String(x), JsonValue::String(y)) => same_text(x.as_str(), y.as_str()),
        (JsonValue::Array(xs), JsonValue::Array(ys)) => {
            proof {
                lemma_array_view(*xs);
                lemma_array_view(*ys);
            }
            if xs.len() != ys.len() {
                assert(list_view(xs@).len() != list_view(ys@).len());
                return false;
            }
            let mut i: usize = 0;
            while i < xs.len()
                invariant
                    *a == JsonValue::Array(*xs),
                    a@ == JsonSpec::Array(list_view(xs@)),
                    b@ == JsonSpec::Array(list_view(ys@)),
                    xs@.len() == ys@.len(),
                    i <= xs@.len(),
                    forall|k: int| 0 <= k < i ==> (#[trigger] xs@[k])@ == ys@[k]@,
                decreases xs@.len() - i,
            {
                proof {
                    assert(decreases_to!(*xs => xs[i as int]));
                    assert(decreases_to!(*a => a->Array_0));
                    assert(decreases_to!(*a => *xs));
                    assert(decreases_to!(*a => xs[i as int]));
                }
                if !json_equal(&xs[i], &ys[i]) {
                    assert(list_view(xs@)[i as int] != list_view(ys@)[i as int]);
                    return false;
                }
                i = i + 1;
            }
            assert(list_view(xs@) =~= list_view(ys@));
            true
        },
        (JsonValue::Object(xs), JsonValue::Object(ys)) => {
            proof {
                lemma_object_view(*xs);
                lemma_object_view(*ys);
            }
            if xs.len() != ys.len() {
                assert(entries_view(xs@).len() != entries_view(ys@).len());
                return false;
            }
            let mut i: usize = 0;
            while i < xs.len()
                invariant
                    *a == JsonValue::Object(*xs),
                    a@ == JsonSpec::Object(entries_view(xs@)),
                    b@ == JsonSpec::Object(entries_view(ys@)),
                    xs@.len() == ys@.len(),
                    i <= xs@.len(),
                    forall|k: int|
                        0 <= k < i ==> (#[trigger] xs@[k]).0@ == ys@[k].0@ && xs@[k].1@ == ys@[k].1@,
                decreases xs@.len() - i,
            {
                proof {
                    assert(decreases_to!(*xs => xs[i as int]));
                    assert(decreases_to!(*a => a->Object_0));
                    assert(decreases_to!(*a => *xs));
                    assert(decreases_to!(*a => xs[i as int]));
                    assert(decreases_to!(xs[i as int] => xs[i as int].1));
                    assert(decreases_to!(*a => xs[i as int].1));
                }
                if !same_text(xs[i].0.as_str(), ys[i].0.as_str()) {
                    assert(entries_view(xs@)[i as int] != entries_view(ys@)[i as int]);
                    return false;
                }
                if !json_equal(&xs[i].1, &ys[i].1) {
                    assert(entries_view(xs@)[i as int] != entries_view(ys@)[i as int]);
                    return false;
                }
                i = i + 1;
            }
            assert(entries_view(xs@) =~= entries_view(ys@));
            true
        },
        _ => false,
    }
}

} // verus!
