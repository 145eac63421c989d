//! Runtime values and the operations on them that do not involve the stack.
//!
//! Maps are ordered lists of text keys with values. Inserting a key that is
//! already present replaces its value where it stands; a new key goes to the
//! end. So printing follows first insertion, and the size of a map is the
//! number of its distinct keys.

use vstd::prelude::*;

use crate::common::graphemes::{extended_graphemes, split_graphemes};
use crate::common::numeric::Int;
use crate::common::text::{owned, push_char, push_str, signed_decimal};
use crate::common::graphemes::grapheme_count;
use crate::runtime::float::{hosts, printed_float, FloatReply, FloatRequest};

verus! {

/// A value on the machine's stack or in a variable.
#[derive(Debug, PartialEq)]
pub enum RuntimeValue {
    /// Integer numeric value.
    Num(Int),
    /// Floating-point numeric value, by its IEEE 754 bits.
    Float(u64),
    /// Text value.
    Str(String),
    /// Boolean value.
    Bool(bool),
    /// Emoji literal value.
    Emoji(String),
    /// List value containing runtime values in source order.
    List(Vec<RuntimeValue>),
    /// Ordered text-keyed map.
    TextMap(Vec<(String, RuntimeValue)>),
}

/// Two values are the same value: equal numbers, texts and flags, and lists and
/// maps whose items are the same, in the same order.
pub open spec fn equiv(a: RuntimeValue, b: RuntimeValue) -> bool
    decreases a,
{
    match a {
        RuntimeValue::Num(x) => b matches RuntimeValue::Num(y) && x@ == y@,
        RuntimeValue::Float(x) => b matches RuntimeValue::Float(y) && x == y,
        RuntimeValue::Str(x) => b matches RuntimeValue::Str(y) && x@ == y@,
        RuntimeValue::Bool(x) => b matches RuntimeValue::Bool(y) && x == y,
        RuntimeValue::Emoji(x) => b matches RuntimeValue::Emoji(y) && x@ == y@,
        RuntimeValue::List(xs) => b matches RuntimeValue::List(ys) && xs@.len() == ys@.len()
            && forall|i: int| 0 <= i < xs@.len() ==> equiv(#[trigger] xs@[i], ys@[i]),
        RuntimeValue::TextMap(xs) => b matches RuntimeValue::TextMap(ys) && xs@.len() == ys@.len()
            && forall|i: int| 0 <= i < xs@.len() ==> (#[trigger] xs@[i]).0@ == ys@[i].0@ && equiv(xs@[i].1, ys@[i].1),
    }
}

/// A number for each kind of value.
pub open spec fn kind_of(v: RuntimeValue) -> nat {
    match v {
        RuntimeValue::Num(_) => 0,
        RuntimeValue::Float(_) => 1,
        RuntimeValue::Str(_) => 2,
        RuntimeValue::Bool(_) => 3,
        RuntimeValue::Emoji(_) => 4,
        RuntimeValue::List(_) => 5,
        RuntimeValue::TextMap(_) => 6,
    }
}

/// Whether two values have the same runtime type (lists and maps by kind only).
pub open spec fn same_kind(a: RuntimeValue, b: RuntimeValue) -> bool {
    kind_of(a) == kind_of(b)
}

/// Whether two values have the same runtime type.
pub fn same_runtime_type(a: &RuntimeValue, b: &RuntimeValue) -> (r: bool)
    ensures
        r == same_kind(*a, *b),
{
    match (a, b) {
        (RuntimeValue::Num(_), RuntimeValue::Num(_)) => true,
        (RuntimeValue::Float(_), RuntimeValue::Float(_)) => true,
        (RuntimeValue::Str(_), RuntimeValue::Str(_)) => true,
        (RuntimeValue::Bool(_), RuntimeValue::Bool(_)) => true,
        (RuntimeValue::Emoji(_), RuntimeValue::Emoji(_)) => true,
        (RuntimeValue::List(_), RuntimeValue::List(_)) => true,
        (RuntimeValue::TextMap(_), RuntimeValue::TextMap(_)) => true,
        _ => false,
    }
}

impl RuntimeValue {
    /// A copy of this value.
    pub fn duplicate(&self) -> (r: RuntimeValue)
        ensures
            equiv(r, *self),
            same_kind(r, *self),
        decreases self,
    {
        match self {
            RuntimeValue::Num(x) => RuntimeValue::Num(x.duplicate()),
            RuntimeValue::Float(x) => RuntimeValue::Float(*x),
            RuntimeValue::Str(x) => RuntimeValue::Str(x.clone()),
            RuntimeValue::Bool(x) => RuntimeValue::Bool(*x),
            RuntimeValue::Emoji(x) => RuntimeValue::Emoji(x.clone()),
            RuntimeValue::List(xs) => {
                let mut ys: Vec<RuntimeValue> = Vec::new();
                let mut i: usize = 0;
                proof {
                    assert(decreases_to!(*self => *xs));
                }
                while i < xs.len()
                    invariant
                        0 <= i <= xs@.len(),
                        ys@.len() == i,
                        decreases_to!(*self => *xs),
                        forall|j: int| 0 <= j < i ==> equiv(#[trigger] ys@[j], xs@[j]),
                    decreases xs@.len() - i,
                {
                    proof {
                        assert(decreases_to!(*xs => xs[i as int]));
                    }
                    let y = xs[i].duplicate();
                    ys.push(y);
                    i = i + 1;
                }
                RuntimeValue::List(ys)
            },
            RuntimeValue::TextMap(xs) => {
                let mut ys: Vec<(String, RuntimeValue)> = Vec::new();
                let mut i: usize = 0;
                proof {
                    assert(decreases_to!(*self => *xs));
                }
                while i < xs.len()
                    invariant
                        0 <= i <= xs@.len(),
                        ys@.len() == i,
                        decreases_to!(*self => *xs),
                        forall|j: int| 0 <= j < i ==> (#[trigger] ys@[j]).0@ == xs@[j].0@ && equiv(ys@[j].1, xs@[j].1),
                    decreases xs@.len() - i,
                {
                    proof {
                        assert(decreases_to!(*xs => xs[i as int]));
                        assert(decreases_to!(xs[i as int] => xs[i as int].1));
                    }
                    let key = xs[i].0.clone();
                    let value = xs[i].1.duplicate();
                    ys.push((key, value));
                    i = i + 1;
                }
                RuntimeValue::TextMap(ys)
            },
        }
    }
}

// ---------------------------------------------------------------------------
// Printing
// ---------------------------------------------------------------------------

/// Whether a value holds no float anywhere (floats print as the caller formats them).
pub open spec fn float_free(v: RuntimeValue) -> bool
    decreases v,
{
    match v {
        RuntimeValue::Float(_) => false,
        RuntimeValue::List(xs) => forall|i: int| 0 <= i < xs@.len() ==> float_free(#[trigger] xs@[i]),
        RuntimeValue::TextMap(xs) => forall|i: int| 0 <= i < xs@.len() ==> float_free(#[trigger] xs@[i].1),
        _ => true,
    }
}

/// The text `📢` prints for a value without floats: integers in decimal,
/// text and emoji as they are, `✅` / `❌` for booleans, lists as
/// `📚 a b 📚` and maps as `🗺️ 💬key💬 ➡️ value ... 🗺️`.
pub open spec fn display(v: RuntimeValue) -> Seq<char>
    decreases v,
{
    match v {
        RuntimeValue::Num(x) => signed_decimal(x@),
        RuntimeValue::Float(_) => Seq::empty(),
        RuntimeValue::Str(x) => x@,
        RuntimeValue::Bool(b) => if b { "✅"@ } else { "❌"@ },
        RuntimeValue::Emoji(x) => x@,
        RuntimeValue::List(xs) => "📚 "@ + display_items(xs@) + " 📚"@,
        RuntimeValue::TextMap(xs) => "🗺️ "@ + display_entries(xs@) + " 🗺️"@,
    }
}

/// The items of a list, displayed and separated by single spaces.
pub open spec fn display_items(xs: Seq<RuntimeValue>) -> Seq<char>
    decreases xs,
{
    if xs.len() == 0 {
        Seq::empty()
    } else if xs.len() == 1 {
        display(xs[0])
    } else {
        display_items(xs.subrange(0, xs.len() - 1)) + " "@ + display(xs[xs.len() - 1])
    }
}

/// The entries of a map, each as `💬key💬 ➡️ value`, separated by single spaces.
pub open spec fn display_entries(xs: Seq<(String, RuntimeValue)>) -> Seq<char>
    decreases xs,
{
    if xs.len() == 0 {
        Seq::empty()
    } else if xs.len() == 1 {
        "💬"@ + xs[0].0@ + "💬 ➡️ "@ + display(xs[0].1)
    } else {
        display_entries(xs.subrange(0, xs.len() - 1)) + " "@ + "💬"@ + xs[xs.len() - 1].0@ + "💬 ➡️ "@
            + display(xs[xs.len() - 1].1)
    }
}

/// Texts joined by single spaces.
pub open spec fn spaced(ts: Seq<Seq<char>>) -> Seq<char>
    decreases ts.len(),
{
    if ts.len() == 0 {
        Seq::empty()
    } else if ts.len() == 1 {
        ts[0]
    } else {
        spaced(ts.drop_last()) + " "@ + ts.last()
    }
}

/// The entries of a map as `💬key💬 ➡️ value`, given the texts of the values.
pub open spec fn entry_texts(xs: Seq<(String, RuntimeValue)>, ts: Seq<Seq<char>>) -> Seq<Seq<char>> {
    Seq::new(xs.len(), |i: int| "💬"@ + xs[i].0@ + "💬 ➡️ "@ + ts[i])
}

/// `text` is what `📢` may print for `v` when the caller's float formatting
/// answers as `host` allows: a float as the caller formats it, a list as
/// `📚 a b 📚` and a map as `🗺️ 💬key💬 ➡️ value ... 🗺️` with each item
/// printed the same way, and every other value as `display` gives it.
pub open spec fn prints_as(host: spec_fn(FloatRequest, FloatReply) -> bool, v: RuntimeValue, text: Seq<char>) -> bool
    decreases v,
{
    match v {
        RuntimeValue::Float(bits) => printed_float(host, bits, text),
        RuntimeValue::List(xs) => exists|ts: Seq<Seq<char>>| #![trigger spaced(ts)] {
            &&& ts.len() == xs@.len()
            &&& forall|i: int| 0 <= i < xs@.len() ==> prints_as(host, #[trigger] xs@[i], ts[i])
            &&& text == "📚 "@ + spaced(ts) + " 📚"@
        },
        RuntimeValue::TextMap(xs) => exists|ts: Seq<Seq<char>>| #![trigger entry_texts(xs@, ts)] {
            &&& ts.len() == xs@.len()
            &&& forall|i: int| 0 <= i < xs@.len() ==> prints_as(host, (#[trigger] xs@[i]).1, ts[i])
            &&& text == "🗺️ "@ + spaced(entry_texts(xs@, ts)) + " 🗺️"@
        },
        _ => text == display(v),
    }
}

/// The text printed for a float, asked of the caller.
fn format_float<F: Fn(FloatRequest) -> FloatReply>(bits: u64, float_ops: &F) -> (r: String)
    requires
        forall|q: FloatRequest| float_ops.requires((q,)),
    ensures
        printed_float(hosts(float_ops), bits, r@),
{
    let reply = float_ops(FloatRequest::Format(bits));
    proof {
        assert(hosts(float_ops)(FloatRequest::Format(bits), reply));
    }
    match reply {
        FloatReply::Text(text) => text,
        FloatReply::Number(_) => owned("?"),
        FloatReply::Invalid => owned("?"),
    }
}

/// Format a runtime value the way Peps `📢` emits it.
pub fn format_value<F: Fn(FloatRequest) -> FloatReply>(value: &RuntimeValue, float_ops: &F) -> (r: String)
    requires
        forall|q: FloatRequest| float_ops.requires((q,)),
    ensures
        float_free(*value) ==> r@ == display(*value),
        *value matches RuntimeValue::Float(bits) ==> printed_float(hosts(float_ops), bits, r@),
        prints_as(hosts(float_ops), *value, r@),
    decreases value,
{
    match value {
        RuntimeValue::Num(x) => x.to_decimal(),
        RuntimeValue::Float(bits) => format_float(*bits, float_ops),
        RuntimeValue::Str(x) => x.clone(),
        RuntimeValue::Bool(b) => if *b { owned("✅") } else { owned("❌") },
        RuntimeValue::Emoji(x) => x.clone(),
        RuntimeValue::List(xs) => {
            let mut out = owned("📚 ");
            let mut i: usize = 0;
            let ghost mut ts: Seq<Seq<char>> = Seq::empty();
            proof {
                assert(decreases_to!(*value => *xs));
            }
            while i < xs.len()
                invariant
                    0 <= i <= xs@.len(),
                    decreases_to!(*value => *xs),
                    forall|q: FloatRequest| float_ops.requires((q,)),
                    float_free(*value) ==> out@ == "📚 "@ + display_items(xs@.subrange(0, i as int)),
                    float_free(*value) ==> forall|j: int| 0 <= j < xs@.len() ==> float_free(#[trigger] xs@[j]),
                    float_free(*value) ==> display(*value) == "📚 "@ + display_items(xs@) + " 📚"@,
                    ts.len() == i,
                    forall|j: int| 0 <= j < i ==> prints_as(hosts(float_ops), #[trigger] xs@[j], ts[j]),
                    out@ == "📚 "@ + spaced(ts),
                decreases xs@.len() - i,
            {
                proof {
                    assert(decreases_to!(*xs => xs[i as int]));
                }
                let item = format_value(&xs[i], float_ops);
                let ghost before = out@;
                if i > 0 {
                    push_str(&mut out, " ");
                }
                push_str(&mut out, item.as_str());
                proof {
                    let ts2 = ts.push(item@);
                    assert(ts2.drop_last() =~= ts);
                    if i == 0 {
                        assert(out@ =~= "📚 "@ + spaced(ts2));
                    } else {
                        assert(out@ =~= "📚 "@ + spaced(ts2));
                    }
                    assert forall|j: int| 0 <= j < i + 1 implies prints_as(hosts(float_ops), #[trigger] xs@[j], ts2[j]) by {
                        if j < i {
                            assert(ts2[j] == ts[j]);
                        }
                    }
                    ts = ts2;
                    if float_free(*value) {
                        let s = xs@.subrange(0, i + 1);
                        assert(s.subrange(0, s.len() - 1) =~= xs@.subrange(0, i as int));
                        assert(s[s.len() - 1] == xs@[i as int]);
                        assert(float_free(xs@[i as int]));
                        if i == 0 {
                            assert(display_items(s) == display(xs@[0]));
                            assert(display_items(xs@.subrange(0, 0)) =~= Seq::<char>::empty());
                            assert(out@ =~= "📚 "@ + display_items(s));
                        } else {
                            assert(out@ =~= "📚 "@ + display_items(s));
                        }
                    }
                }
                i = i + 1;
            }
            push_str(&mut out, " 📚");
            proof {
                assert(xs@.subrange(0, xs@.len() as int) =~= xs@);
                assert(out@ =~= "📚 "@ + spaced(ts) + " 📚"@);
                assert(prints_as(hosts(float_ops), *value, out@));
            }
            out
        },
        RuntimeValue::TextMap(xs) => {
            let mut out = owned("🗺️ ");
            let mut i: usize = 0;
            let ghost mut ts: Seq<Seq<char>> = Seq::empty();
            proof {
                assert(decreases_to!(*value => *xs));
                assert(entry_texts(xs@.subrange(0, 0), ts) =~= Seq::<Seq<char>>::empty());
            }
            while i < xs.len()
                invariant
                    0 <= i <= xs@.len(),
                    decreases_to!(*value => *xs),
                    forall|q: FloatRequest| float_ops.requires((q,)),
                    float_free(*value) ==> out@ == "🗺️ "@ + display_entries(xs@.subrange(0, i as int)),
                    float_free(*value) ==> forall|j: int| 0 <= j < xs@.len() ==> float_free(#[trigger] xs@[j].1),
                    float_free(*value) ==> display(*value) == "🗺️ "@ + display_entries(xs@) + " 🗺️"@,
                    ts.len() == i,
                    forall|j: int| 0 <= j < i ==> prints_as(hosts(float_ops), (#[trigger] xs@[j]).1, ts[j]),
                    out@ == "🗺️ "@ + spaced(entry_texts(xs@.subrange(0, i as int), ts)),
                decreases xs@.len() - i,
            {
                proof {
                    assert(decreases_to!(*xs => xs[i as int]));
                    assert(decreases_to!(xs[i as int] => xs[i as int].1));
                }
                let item = format_value(&xs[i].1, float_ops);
                if i > 0 {
                    push_str(&mut out, " ");
                }
                push_str(&mut out, "💬");
                push_str(&mut out, xs[i].0.as_str());
                push_str(&mut out, "💬 ➡️ ");
                push_str(&mut out, item.as_str());
                proof {
                    let ts2 = ts.push(item@);
                    let before_texts = entry_texts(xs@.subrange(0, i as int), ts);
                    let texts = entry_texts(xs@.subrange(0, i + 1), ts2);
                    assert(texts =~= before_texts.push("💬"@ + xs@[i as int].0@ + "💬 ➡️ "@ + item@));
                    assert(texts.drop_last() =~= before_texts);
                    if i == 0 {
                        assert(out@ =~= "🗺️ "@ + spaced(texts));
                    } else {
                        assert(out@ =~= "🗺️ "@ + spaced(texts));
                    }
                    assert forall|j: int| 0 <= j < i + 1 implies prints_as(hosts(float_ops), (#[trigger] xs@[j]).1, ts2[j]) by {
                        if j < i {
                            assert(ts2[j] == ts[j]);
                        }
                    }
                    ts = ts2;
                    if float_free(*value) {
                        let s = xs@.subrange(0, i + 1);
                        assert(s.subrange(0, s.len() - 1) =~= xs@.subrange(0, i as int));
                        assert(s[s.len() - 1] == xs@[i as int]);
                        assert(float_free(xs@[i as int].1));
                        if i == 0 {
                            assert(display_entries(xs@.subrange(0, 0)) =~= Seq::<char>::empty());
                            assert(out@ =~= "🗺️ "@ + display_entries(s));
                        } else {
                            assert(out@ =~= "🗺️ "@ + display_entries(s));
                        }
                    }
                }
                i = i + 1;
            }
            push_str(&mut out, " 🗺️");
            proof {
                assert(xs@.subrange(0, xs@.len() as int) =~= xs@);
                assert(out@ =~= "🗺️ "@ + spaced(entry_texts(xs@, ts)) + " 🗺️"@);
                assert(prints_as(hosts(float_ops), *value, out@));
            }
            out
        },
    }
}

// ---------------------------------------------------------------------------
// Maps (and variable stores): ordered lists of text keys with values
// ---------------------------------------------------------------------------

/// Whether some entry has key `key`.
pub open spec fn has_key(entries: Seq<(String, RuntimeValue)>, key: Seq<char>) -> bool {
    exists|i: int| 0 <= i < entries.len() && (#[trigger] entries[i]).0@ == key
}

/// `i` is the first entry with key `key`.
pub open spec fn first_with_key(entries: Seq<(String, RuntimeValue)>, key: Seq<char>, i: int) -> bool {
    &&& 0 <= i < entries.len()
    &&& entries[i].0@ == key
    &&& forall|j: int| 0 <= j < i ==> (#[trigger] entries[j]).0@ != key
}

/// The position of the first entry with key `key` (meaningful when there is one).
pub open spec fn key_position(entries: Seq<(String, RuntimeValue)>, key: Seq<char>) -> int {
    choose|i: int| first_with_key(entries, key, i)
}

/// The entries after storing `value` under `key`: the first entry with that key
/// gets the new value where it stands; without one, the pair goes last.
pub open spec fn inserted(entries: Seq<(String, RuntimeValue)>, key: String, value: RuntimeValue) -> Seq<(String, RuntimeValue)> {
    if has_key(entries, key@) {
        let i = key_position(entries, key@);
        entries.update(i, (entries[i].0, value))
    } else {
        entries.push((key, value))
    }
}

/// The entries after storing each pair in turn.
pub open spec fn inserted_all(entries: Seq<(String, RuntimeValue)>, pairs: Seq<(String, RuntimeValue)>) -> Seq<(String, RuntimeValue)>
    decreases pairs.len(),
{
    if pairs.len() == 0 {
        entries
    } else {
        let last = pairs[pairs.len() - 1];
        inserted(inserted_all(entries, pairs.drop_last()), last.0, last.1)
    }
}

/// The value stored under `key`, if any.
pub open spec fn lookup(entries: Seq<(String, RuntimeValue)>, key: Seq<char>) -> Option<RuntimeValue> {
    if has_key(entries, key) {
        Some(entries[key_position(entries, key)].1)
    } else {
        None
    }
}

/// The keys, in order.
pub open spec fn keys(entries: Seq<(String, RuntimeValue)>) -> Seq<Seq<char>> {
    entries.map_values(|e: (String, RuntimeValue)| e.0@)
}

/// When some entry has the key, a first one does.
pub proof fn lemma_first_with_key(entries: Seq<(String, RuntimeValue)>, key: Seq<char>)
    requires
        has_key(entries, key),
    ensures
        first_with_key(entries, key, key_position(entries, key)),
    decreases entries.len(),
{
    if entries[0].0@ == key {
        assert(first_with_key(entries, key, 0));
    } else {
        let rest = entries.drop_first();
        let w = choose|i: int| 0 <= i < entries.len() && (#[trigger] entries[i]).0@ == key;
        assert(rest[w - 1] == entries[w]);
        lemma_first_with_key(rest, key);
        let i = key_position(rest, key);
        assert forall|j: int| 0 <= j < i + 1 implies (#[trigger] entries[j]).0@ != key by {
            if j > 0 {
                assert(rest[j - 1] == entries[j]);
            }
        }
        assert(rest[i] == entries[i + 1]);
        assert(first_with_key(entries, key, i + 1));
    }
}

/// The first entry with a key is unique.
pub proof fn lemma_first_unique(entries: Seq<(String, RuntimeValue)>, key: Seq<char>, i: int, j: int)
    requires
        first_with_key(entries, key, i),
        first_with_key(entries, key, j),
    ensures
        i == j,
{
}

/// Inserting under a key that is present replaces its value in place: the keys
/// and their order do not change, and the key now holds the new value.
pub proof fn law_insert_present_key_keeps_position(entries: Seq<(String, RuntimeValue)>, key: String, value: RuntimeValue)
    requires
        has_key(entries, key@),
    ensures
        inserted(entries, key, value).len() == entries.len(),
        keys(inserted(entries, key, value)) == keys(entries),
        lookup(inserted(entries, key, value), key@) == Some(value),
{
    lemma_first_with_key(entries, key@);
    let i = key_position(entries, key@);
    let r = inserted(entries, key, value);
    assert(keys(r) =~= keys(entries));
    assert(first_with_key(r, key@, i));
    lemma_first_with_key(r, key@);
    lemma_first_unique(r, key@, i, key_position(r, key@));
}

/// Inserting under a new key appends the pair: every earlier entry keeps its
/// place and the key now holds the value.
pub proof fn law_insert_new_key_goes_last(entries: Seq<(String, RuntimeValue)>, key: String, value: RuntimeValue)
    requires
        !has_key(entries, key@),
    ensures
        inserted(entries, key, value) == entries.push((key, value)),
        lookup(inserted(entries, key, value), key@) == Some(value),
{
    let r = entries.push((key, value));
    assert(first_with_key(r, key@, entries.len() as int));
    lemma_first_with_key(r, key@);
    lemma_first_unique(r, key@, entries.len() as int, key_position(r, key@));
}

/// Inserting under one key leaves what every other key holds.
pub proof fn law_insert_other_keys_unchanged(entries: Seq<(String, RuntimeValue)>, key: String, value: RuntimeValue, other: Seq<char>)
    requires
        other != key@,
    ensures
        lookup(inserted(entries, key, value), other) == lookup(entries, other),
{
    let r = inserted(entries, key, value);
    if has_key(entries, key@) {
        lemma_first_with_key(entries, key@);
    }
    if has_key(entries, other) {
        lemma_first_with_key(entries, other);
        let p = key_position(entries, other);
        assert(r[p].0@ == other);
        assert(has_key(r, other));
        lemma_first_with_key(r, other);
        assert(first_with_key(r, other, p));
        lemma_first_unique(r, other, p, key_position(r, other));
    } else {
        assert forall|i: int| 0 <= i < r.len() implies (#[trigger] r[i]).0@ != other by {
            if i < entries.len() {
                assert(r[i].0@ == entries[i].0@);
            }
        }
    }
}

/// Inserting keeps the keys free of repeats.
pub proof fn law_insert_keeps_keys_distinct(entries: Seq<(String, RuntimeValue)>, key: String, value: RuntimeValue)
    requires
        keys(entries).no_duplicates(),
    ensures
        keys(inserted(entries, key, value)).no_duplicates(),
        keys(inserted(entries, key, value)).to_set() == keys(entries).to_set().insert(key@),
{
    let r = inserted(entries, key, value);
    if has_key(entries, key@) {
        law_insert_present_key_keeps_position(entries, key, value);
        let w = choose|i: int| 0 <= i < entries.len() && (#[trigger] entries[i]).0@ == key@;
        assert(keys(entries)[w] == key@);
        assert(keys(entries).to_set().insert(key@) =~= keys(entries).to_set());
    } else {
        assert(keys(r) =~= keys(entries).push(key@));
        assert forall|i: int, j: int| 0 <= i < keys(r).len() && 0 <= j < keys(r).len() && i != j
            implies keys(r)[i] != keys(r)[j] by {
            if i == entries.len() as int {
                assert(entries[j].0@ != key@);
            } else if j == entries.len() as int {
                assert(entries[i].0@ != key@);
            }
        }
        assert(keys(r).to_set() =~= keys(entries).to_set().insert(key@)) by {
            assert forall|k: Seq<char>| keys(r).to_set().contains(k) <==> keys(entries).to_set().insert(key@).contains(k) by {
                if keys(r).to_set().contains(k) {
                    let i = choose|i: int| 0 <= i < keys(r).len() && keys(r)[i] == k;
                    if i < entries.len() {
                        assert(keys(entries)[i] == k);
                    }
                }
                if keys(entries).to_set().contains(k) {
                    let i = choose|i: int| 0 <= i < keys(entries).len() && keys(entries)[i] == k;
                    assert(keys(r)[i] == k);
                }
                if k == key@ {
                    assert(keys(r)[entries.len() as int] == k);
                }
            }
        }
    }
}

/// Storing pairs one by one into an empty map gives one entry per distinct
/// key, so the size of a map is the number of its distinct keys.
pub proof fn law_map_size_is_distinct_key_count(pairs: Seq<(String, RuntimeValue)>)
    ensures
        keys(inserted_all(Seq::empty(), pairs)).no_duplicates(),
        keys(inserted_all(Seq::empty(), pairs)).to_set() == keys(pairs).to_set(),
        inserted_all(Seq::empty(), pairs).len() == keys(pairs).to_set().len(),
    decreases pairs.len(),
{
    let m = inserted_all(Seq::empty(), pairs);
    if pairs.len() == 0 {
        assert(keys(m) =~= Seq::<Seq<char>>::empty());
        assert(keys(pairs).to_set() =~= Set::<Seq<char>>::empty());
        assert(keys(m).to_set() =~= Set::<Seq<char>>::empty());
        keys(m).unique_seq_to_set();
    } else {
        let rest = pairs.drop_last();
        let last = pairs[pairs.len() - 1];
        law_map_size_is_distinct_key_count(rest);
        let before = inserted_all(Seq::empty(), rest);
        law_insert_keeps_keys_distinct(before, last.0, last.1);
        assert(m == inserted(before, last.0, last.1));
        assert(keys(pairs) =~= keys(rest).push(last.0@));
        assert(keys(pairs).to_set() =~= keys(rest).to_set().insert(last.0@)) by {
            assert forall|k: Seq<char>| keys(pairs).to_set().contains(k) <==> keys(rest).to_set().insert(last.0@).contains(k) by {
                if keys(pairs).to_set().contains(k) {
                    let i = choose|i: int| 0 <= i < keys(pairs).len() && keys(pairs)[i] == k;
                    if i < rest.len() {
                        assert(keys(rest)[i] == k);
                    }
                }
                if keys(rest).to_set().contains(k) {
                    let i = choose|i: int| 0 <= i < keys(rest).len() && keys(rest)[i] == k;
                    assert(keys(pairs)[i] == k);
                }
                if k == last.0@ {
                    assert(keys(pairs)[pairs.len() - 1] == k);
                }
            }
        }
        assert(keys(inserted(before, last.0, last.1)).no_duplicates());
        assert(keys(m).no_duplicates());
        keys(m).unique_seq_to_set();
    }
}

/// `🔑` finds a key exactly when `🔎` would find a value for it.
pub proof fn law_has_iff_lookup(entries: Seq<(String, RuntimeValue)>, key: Seq<char>)
    ensures
        has_key(entries, key) <==> lookup(entries, key) is Some,
{
}

/// The position of the first entry with key `key`.
pub fn find_key(entries: &Vec<(String, RuntimeValue)>, key: &str) -> (r: Option<usize>)
    ensures
        match r {
            Some(i) => first_with_key(entries@, key@, i as int) && i as int == key_position(entries@, key@),
            None => !has_key(entries@, key@),
        },
{
    let wanted = owned(key);
    let mut i: usize = 0;
    while i < entries.len()
        invariant
            wanted@ == key@,
            0 <= i <= entries@.len(),
            forall|j: int| 0 <= j < i ==> (#[trigger] entries@[j]).0@ != key@,
        decreases entries@.len() - i,
    {
        if entries[i].0 == wanted {
            proof {
                assert(first_with_key(entries@, key@, i as int));
                lemma_first_with_key(entries@, key@);
                lemma_first_unique(entries@, key@, i as int, key_position(entries@, key@));
            }
            return Some(i);
        }
        i = i + 1;
    }
    None
}

/// Store `value` under `key`, replacing the value of an existing entry in place.
pub fn insert_entry(entries: &mut Vec<(String, RuntimeValue)>, key: String, value: RuntimeValue)
    ensures
        final(entries)@ == inserted(old(entries)@, key, value),
{
    match find_key(entries, key.as_str()) {
        Some(i) => {
            let ghost old_key = entries@[i as int].0;
            let mut replaced: Vec<(String, RuntimeValue)> = Vec::new();
            std::mem::swap(&mut replaced, entries);
            let ghost before = replaced@;
            let mut kept: Vec<(String, RuntimeValue)> = Vec::new();
            let mut rest: Vec<(String, RuntimeValue)> = replaced.split_off(i);
            // `rest` starts with the entry to replace.
            let (old_name, _old_value) = rest.remove(0);
            let mut tail = rest;
            kept.append(&mut replaced);
            kept.push((old_name, value));
            kept.append(&mut tail);
            proof {
                assert(kept@ =~= before.update(i as int, (before[i as int].0, value)));
            }
            *entries = kept;
        },
        None => {
            entries.push((key, value));
        },
    }
}

/// The value stored under `key`, copied.
pub fn lookup_value(entries: &Vec<(String, RuntimeValue)>, key: &str) -> (r: Option<RuntimeValue>)
    ensures
        match r {
            Some(v) => lookup(entries@, key@) matches Some(w) && equiv(v, w),
            None => lookup(entries@, key@) is None,
        },
{
    match find_key(entries, key) {
        Some(i) => Some(entries[i].1.duplicate()),
        None => None,
    }
}

// ---------------------------------------------------------------------------
// Collection operations
// ---------------------------------------------------------------------------

/// How Rust's `Debug` quotes a string (`{:?}`): in double quotes, with escapes.
pub uninterp spec fn debug_quoted(text: Seq<char>) -> Seq<char>;

/// `text` quoted as Rust's `Debug` formatting of `str` quotes it (`format!("{:?}", text)`).
///
/// Trusted: claims the result is `debug_quoted(text)`, a function of the text alone.
#[verifier::external_body]
fn debug_text(text: &str) -> (r: String)
    ensures
        r@ == debug_quoted(text@),
{
    format!("{:?}", text)
}

/// What `📥` adds to a list: the items of a list, or else the single value.
pub open spec fn appended_items(v: RuntimeValue) -> Seq<RuntimeValue> {
    match v {
        RuntimeValue::List(vs) => vs@,
        other => seq![other],
    }
}

/// Whether every item has the runtime type of `expected`.
pub open spec fn all_of_kind(items: Seq<RuntimeValue>, expected: RuntimeValue) -> bool {
    forall|i: int| 0 <= i < items.len() ==> same_kind(expected, #[trigger] items[i])
}

/// Whether appending `items` keeps a list homogeneous: they all have the type
/// of the list's first item, or of the first appended item when the list is empty.
pub open spec fn append_fits(elements: Seq<RuntimeValue>, items: Seq<RuntimeValue>) -> bool {
    if elements.len() > 0 {
        all_of_kind(items, elements[0])
    } else if items.len() > 0 {
        all_of_kind(items, items[0])
    } else {
        true
    }
}

/// The values of map entries.
pub open spec fn entry_values(entries: Seq<(String, RuntimeValue)>) -> Seq<RuntimeValue> {
    entries.map_values(|e: (String, RuntimeValue)| e.1)
}

/// Whether merging `more` keeps a map homogeneous (as `append_fits`, on values).
pub open spec fn merge_fits(entries: Seq<(String, RuntimeValue)>, more: Seq<(String, RuntimeValue)>) -> bool {
    append_fits(entry_values(entries), entry_values(more))
}

/// Checks that `items` all have the type of `expected`.
fn check_kinds(items: &Vec<RuntimeValue>, expected: &RuntimeValue) -> (r: bool)
    ensures
        r == all_of_kind(items@, *expected),
{
    let mut i: usize = 0;
    while i < items.len()
        invariant
            0 <= i <= items@.len(),
            forall|j: int| 0 <= j < i ==> same_kind(*expected, #[trigger] items@[j]),
        decreases items@.len() - i,
    {
        if !same_runtime_type(expected, &items[i]) {
            return false;
        }
        i = i + 1;
    }
    true
}

/// Checks that the values of `entries` all have the type of `expected`.
fn check_entry_kinds(entries: &Vec<(String, RuntimeValue)>, expected: &RuntimeValue) -> (r: bool)
    ensures
        r == all_of_kind(entry_values(entries@), *expected),
{
    let mut i: usize = 0;
    while i < entries.len()
        invariant
            0 <= i <= entries@.len(),
            forall|j: int| 0 <= j < i ==> same_kind(*expected, #[trigger] entry_values(entries@)[j]),
        decreases entries@.len() - i,
    {
        if !same_runtime_type(expected, &entries[i].1) {
            proof {
                assert(entry_values(entries@)[i as int] == entries@[i as int].1);
            }
            return false;
        }
        proof {
            assert(entry_values(entries@)[i as int] == entries@[i as int].1);
        }
        i = i + 1;
    }
    true
}

/// Whether storing `more` into `entries` keeps every value of one type.
fn merge_fits_exec(entries: &Vec<(String, RuntimeValue)>, more: &Vec<(String, RuntimeValue)>) -> (r: bool)
    ensures
        r == merge_fits(entries@, more@),
{
    if entries.len() > 0 {
        proof {
            assert(entry_values(entries@)[0] == entries@[0].1);
        }
        check_entry_kinds(more, &entries[0].1)
    } else if more.len() > 0 {
        proof {
            assert(entry_values(more@)[0] == more@[0].1);
        }
        check_entry_kinds(more, &more[0].1)
    } else {
        true
    }
}

/// `inserted_all` one pair further.
proof fn lemma_inserted_all_step(entries: Seq<(String, RuntimeValue)>, pairs: Seq<(String, RuntimeValue)>, i: int)
    requires
        0 <= i < pairs.len(),
    ensures
        inserted_all(entries, pairs.subrange(0, i + 1))
            == inserted(inserted_all(entries, pairs.subrange(0, i)), pairs[i].0, pairs[i].1),
{
    let s = pairs.subrange(0, i + 1);
    assert(s.drop_last() =~= pairs.subrange(0, i));
    assert(s[s.len() - 1] == pairs[i]);
}

/// Store the pairs of `more` into `entries`, in order.
fn insert_all(entries: &mut Vec<(String, RuntimeValue)>, more: Vec<(String, RuntimeValue)>)
    ensures
        final(entries)@ == inserted_all(old(entries)@, more@),
{
    let ghost original = more@;
    let ghost start = entries@;
    let mut rest = more;
    let mut i: usize = 0;
    let total = rest.len();
    proof {
        assert(original.subrange(0, 0) =~= Seq::<(String, RuntimeValue)>::empty());
    }
    while rest.len() > 0
        invariant
            total == original.len(),
            i + rest@.len() == total,
            rest@ == original.subrange(i as int, total as int),
            entries@ == inserted_all(start, original.subrange(0, i as int)),
        decreases rest@.len(),
    {
        let (key, value) = rest.remove(0);
        proof {
            assert(original[i as int] == (key, value));
            lemma_inserted_all_step(start, original, i as int);
        }
        insert_entry(entries, key, value);
        proof {
            assert(rest@ =~= original.subrange(i + 1, total as int));
        }
        i = i + 1;
    }
    proof {
        assert(original.subrange(0, total as int) =~= original);
    }
}

/// A result with its error message taken by value.
pub open spec fn result_view<T>(r: Result<T, String>) -> Result<T, Seq<char>> {
    match r {
        Ok(v) => Ok(v),
        Err(m) => Err(m@),
    }
}

/// What `📥` gives for two operands.
pub open spec fn append_post(left: RuntimeValue, right: RuntimeValue, r: Result<RuntimeValue, Seq<char>>) -> bool {
    match left {
        RuntimeValue::List(elements) => match r {
            Ok(v) => append_fits(elements@, appended_items(right))
                && (v matches RuntimeValue::List(all) && all@ == elements@ + appended_items(right)),
            Err(m) => !append_fits(elements@, appended_items(right))
                && m == "list append requires values matching the list element type"@,
        },
        RuntimeValue::TextMap(entries) => match right {
            RuntimeValue::TextMap(more) => match r {
                Ok(v) => merge_fits(entries@, more@)
                    && (v matches RuntimeValue::TextMap(all) && all@ == inserted_all(entries@, more@)),
                Err(m) => !merge_fits(entries@, more@)
                    && m == "map merge requires values matching the map value type"@,
            },
            _ => r == Err::<RuntimeValue, Seq<char>>("map merge requires another map"@),
        },
        _ => r == Err::<RuntimeValue, Seq<char>>("collection append requires a list or map value"@),
    }
}

/// `📥`: append to a list (one value, or every item of a list), or merge a map into a map.
pub fn append_values(left: RuntimeValue, right: RuntimeValue) -> (r: Result<RuntimeValue, String>)
    ensures
        append_post(left, right, result_view(r)),
{
    match left {
        RuntimeValue::List(mut elements) => {
            let mut appended: Vec<RuntimeValue> = match right {
                RuntimeValue::List(values) => values,
                value => {
                    let mut one = Vec::new();
                    one.push(value);
                    one
                },
            };
            proof {
                assert(appended@ =~= appended_items(right));
            }
            let fits = if elements.len() > 0 {
                check_kinds(&appended, &elements[0])
            } else if appended.len() > 0 {
                check_kinds(&appended, &appended[0])
            } else {
                true
            };
            if !fits {
                return Err(owned("list append requires values matching the list element type"));
            }
            elements.append(&mut appended);
            Ok(RuntimeValue::List(elements))
        },
        RuntimeValue::TextMap(mut entries) => match right {
            RuntimeValue::TextMap(more) => {
                if !merge_fits_exec(&entries, &more) {
                    return Err(owned("map merge requires values matching the map value type"));
                }
                insert_all(&mut entries, more);
                Ok(RuntimeValue::TextMap(entries))
            },
            _ => Err(owned("map merge requires another map")),
        },
        _ => Err(owned("collection append requires a list or map value")),
    }
}

/// Whether the keys of the first `n` pairs of flattened key-value operands are text.
pub open spec fn keys_are_text(values: Seq<RuntimeValue>, n: nat) -> bool {
    forall|i: int| 0 <= i < n ==> (#[trigger] values[2 * i]) is Str
}

/// The first `n` key-value pairs of flattened operands whose keys are text.
pub open spec fn pairs_of(values: Seq<RuntimeValue>, n: nat) -> Seq<(String, RuntimeValue)> {
    Seq::new(n, |i: int| (values[2 * i]->Str_0, values[2 * i + 1]))
}

/// Whether the values of a map all have one type.
pub open spec fn values_uniform(entries: Seq<(String, RuntimeValue)>) -> bool {
    entries.len() == 0 || all_of_kind(entry_values(entries), entries[0].1)
}

/// What building a map from `count` flattened key-value pairs gives.
pub open spec fn make_map_post(values: Seq<RuntimeValue>, count: nat, r: Result<RuntimeValue, Seq<char>>) -> bool {
    match r {
        Ok(v) => keys_are_text(values, count)
            && (v matches RuntimeValue::TextMap(all) && all@ == inserted_all(Seq::empty(), pairs_of(values, count))
            && values_uniform(all@)),
        Err(m) => if keys_are_text(values, count) {
            !values_uniform(inserted_all(Seq::empty(), pairs_of(values, count)))
                && m == "map values must all have the same type"@
        } else {
            m == "map keys must be text"@
        },
    }
}

/// Build a map from `count` key-value pairs, given flattened in source order
/// (key, value, key, value, ...): later duplicates replace earlier values in place.
pub fn make_map(values: Vec<RuntimeValue>, count: usize) -> (r: Result<RuntimeValue, String>)
    requires
        values@.len() == 2 * count,
    ensures
        make_map_post(values@, count as nat, result_view(r)),
{
    let ghost original = values@;
    let ghost pairs = pairs_of(original, count as nat);
    let mut rest = values;
    let mut entries: Vec<(String, RuntimeValue)> = Vec::new();
    let mut i: usize = 0;
    proof {
        assert(pairs.subrange(0, 0) =~= Seq::<(String, RuntimeValue)>::empty());
    }
    while i < count
        invariant
            i <= count,
            original == values@,
            original.len() == 2 * count,
            pairs == pairs_of(original, count as nat),
            rest@ == original.subrange(2 * i as int, original.len() as int),
            keys_are_text(original, i as nat),
            entries@ == inserted_all(Seq::empty(), pairs.subrange(0, i as int)),
        decreases count - i,
    {
        let key = rest.remove(0);
        let value = rest.remove(0);
        proof {
            assert(key == original[2 * i as int]);
            assert(value == original[2 * i + 1]);
        }
        match key {
            RuntimeValue::Str(name) => {
                proof {
                    assert(pairs[i as int] == (name, value));
                    lemma_inserted_all_step(Seq::empty(), pairs, i as int);
                    assert forall|j: int| 0 <= j < i + 1 implies (#[trigger] original[2 * j]) is Str by {
                        if j < i {
                            assert(keys_are_text(original, i as nat));
                        }
                    }
                }
                insert_entry(&mut entries, name, value);
            },
            _ => {
                proof {
                    assert(!(original[2 * i as int] is Str));
                    assert(!keys_are_text(original, count as nat));
                    assert(original == values@);
                    assert(!keys_are_text(values@, count as nat));
                }
                return Err(owned("map keys must be text"));
            },
        }
        proof {
            assert(rest@ =~= original.subrange(2 * (i + 1), original.len() as int));
        }
        i = i + 1;
    }
    proof {
        assert(pairs.subrange(0, count as int) =~= pairs);
    }
    if entries.len() > 0 {
        let uniform = check_entry_kinds(&entries, &entries[0].1);
        if !uniform {
            return Err(owned("map values must all have the same type"));
        }
    }
    Ok(RuntimeValue::TextMap(entries))
}

/// The `i`-th grapheme of `text` as text, when there is one.
pub fn text_at(text: &str, i: usize) -> (r: Option<String>)
    ensures
        match r {
            Some(t) => i < extended_graphemes(text@).len() && t@ == extended_graphemes(text@)[i as int],
            None => i >= extended_graphemes(text@).len(),
        },
{
    let graphemes = split_graphemes(text);
    if i >= graphemes.len() {
        return None;
    }
    let chars = &graphemes[i].chars;
    let mut out = String::new();
    let mut k: usize = 0;
    while k < chars.len()
        invariant
            0 <= k <= chars@.len(),
            out@ == chars@.subrange(0, k as int),
        decreases chars@.len() - k,
    {
        push_char(&mut out, chars[k]);
        proof {
            assert(chars@.subrange(0, k + 1) =~= chars@.subrange(0, k as int).push(chars@[k as int]));
        }
        k = k + 1;
    }
    proof {
        assert(chars@.subrange(0, chars@.len() as int) =~= chars@);
        assert(crate::common::graphemes::grapheme_texts(graphemes@)[i as int] == chars@);
    }
    Some(out)
}

/// What `📏` gives for a value.
pub open spec fn length_post(value: RuntimeValue, r: Result<usize, Seq<char>>) -> bool {
    match value {
        RuntimeValue::List(xs) => r == Ok::<usize, Seq<char>>(xs@.len() as usize),
        RuntimeValue::TextMap(xs) => r == Ok::<usize, Seq<char>>(xs@.len() as usize),
        RuntimeValue::Str(t) => r == Ok::<usize, Seq<char>>(extended_graphemes(t@).len() as usize),
        _ => r == Err::<usize, Seq<char>>("length requires text, a list, or a map value"@),
    }
}

/// `📏`: the length of text (in graphemes), a list or a map.
pub fn collection_length(value: &RuntimeValue) -> (r: Result<usize, String>)
    ensures
        length_post(*value, result_view(r)),
{
    match value {
        RuntimeValue::List(xs) => Ok(xs.len()),
        RuntimeValue::TextMap(xs) => Ok(xs.len()),
        RuntimeValue::Str(t) => Ok(grapheme_count(t.as_str())),
        _ => Err(owned("length requires text, a list, or a map value")),
    }
}

/// What `🔎` gives for a collection and a key.
pub open spec fn get_post(collection: RuntimeValue, key: RuntimeValue, r: Result<RuntimeValue, Seq<char>>) -> bool {
    match (collection, key) {
        (RuntimeValue::List(xs), RuntimeValue::Num(index)) => match r {
            Ok(v) => 0 <= index@ < xs@.len() && v == xs@[index@],
            Err(m) => !(0 <= index@ < xs@.len())
                && m == "list index "@ + signed_decimal(index@) + " is out of bounds"@,
        },
        (RuntimeValue::List(_), _) => r == Err::<RuntimeValue, Seq<char>>("list index requires an integer value"@),
        (RuntimeValue::TextMap(entries), RuntimeValue::Str(k)) => match r {
            Ok(v) => lookup(entries@, k@) == Some(v),
            Err(m) => lookup(entries@, k@) is None
                && m == "map key "@ + debug_quoted(k@) + " was not found"@,
        },
        (RuntimeValue::TextMap(_), _) => r == Err::<RuntimeValue, Seq<char>>("map lookup requires a text key"@),
        (RuntimeValue::Str(t), RuntimeValue::Num(index)) => match r {
            Ok(v) => 0 <= index@ < extended_graphemes(t@).len()
                && (v matches RuntimeValue::Str(g) && g@ == extended_graphemes(t@)[index@]),
            Err(m) => !(0 <= index@ < extended_graphemes(t@).len())
                && m == "text index "@ + signed_decimal(index@) + " is out of bounds"@,
        },
        (RuntimeValue::Str(_), _) => r == Err::<RuntimeValue, Seq<char>>("text index requires an integer value"@),
        _ => r == Err::<RuntimeValue, Seq<char>>("lookup requires text, a list, or a map value"@),
    }
}

/// `🔎`: the item of a list or the grapheme of a text at an index, or the
/// value of a map under a key.
#[verifier::spinoff_prover]
pub fn collection_get(collection: RuntimeValue, key: RuntimeValue) -> (r: Result<RuntimeValue, String>)
    ensures
        get_post(collection, key, result_view(r)),
{
    match collection {
        RuntimeValue::List(mut xs) => match key {
            RuntimeValue::Num(index) => {
                let position = index.to_usize();
                match position {
                    Some(i) => {
                        if i < xs.len() {
                            Ok(xs.remove(i))
                        } else {
                            let mut m = owned("list index ");
                            push_str(&mut m, index.to_decimal().as_str());
                            push_str(&mut m, " is out of bounds");
                            assert(m@ == "list index "@ + signed_decimal(index@) + " is out of bounds"@);
                            assert(!(0 <= index@ < xs@.len()));
                            assert(get_post(collection, key, result_view(Err::<RuntimeValue, String>(m))));
                            Err(m)
                        }
                    },
                    None => {
                        let mut m = owned("list index ");
                        push_str(&mut m, index.to_decimal().as_str());
                        push_str(&mut m, " is out of bounds");
                        assert(m@ == "list index "@ + signed_decimal(index@) + " is out of bounds"@);
                        assert(!(0 <= index@ < xs@.len()));
                        assert(get_post(collection, key, result_view(Err::<RuntimeValue, String>(m))));
                        Err(m)
                    },
                }
            },
            _ => Err(owned("list index requires an integer value")),
        },
        RuntimeValue::TextMap(mut entries) => match key {
            RuntimeValue::Str(k) => match find_key(&entries, k.as_str()) {
                Some(i) => {
                    proof {
                        assert(has_key(entries@, k@));
                        lemma_first_with_key(entries@, k@);
                    }
                    let (_, v) = entries.remove(i);
                    Ok(v)
                },
                None => {
                    let mut m = owned("map key ");
                    push_str(&mut m, debug_text(k.as_str()).as_str());
                    push_str(&mut m, " was not found");
                    Err(m)
                },
            },
            _ => Err(owned("map lookup requires a text key")),
        },
        RuntimeValue::Str(t) => match key {
            RuntimeValue::Num(index) => {
                let _count = grapheme_count(t.as_str());
                let found = match index.to_usize() {
                    Some(i) => text_at(t.as_str(), i),
                    None => None,
                };
                match found {
                    Some(g) => Ok(RuntimeValue::Str(g)),
                    None => {
                        let mut m = owned("text index ");
                        push_str(&mut m, index.to_decimal().as_str());
                        push_str(&mut m, " is out of bounds");
                        Err(m)
                    },
                }
            },
            _ => Err(owned("text index requires an integer value")),
        },
        _ => Err(owned("lookup requires text, a list, or a map value")),
    }
}

/// What `🔑` gives for a map and a key.
pub open spec fn has_post(map: RuntimeValue, key: RuntimeValue, r: Result<bool, Seq<char>>) -> bool {
    match (map, key) {
        (RuntimeValue::TextMap(entries), RuntimeValue::Str(k)) => r == Ok::<bool, Seq<char>>(has_key(entries@, k@)),
        (RuntimeValue::TextMap(_), _) => r == Err::<bool, Seq<char>>("map key existence requires a text key"@),
        _ => r == Err::<bool, Seq<char>>("map key existence requires a map value"@),
    }
}

/// `🔑`: whether a map holds a key.
pub fn map_has(map: &RuntimeValue, key: &RuntimeValue) -> (r: Result<bool, String>)
    ensures
        has_post(*map, *key, result_view(r)),
{
    match map {
        RuntimeValue::TextMap(entries) => match key {
            RuntimeValue::Str(k) => Ok(find_key(entries, k.as_str()).is_some()),
            _ => Err(owned("map key existence requires a text key")),
        },
        _ => Err(owned("map key existence requires a map value")),
    }
}

} // verus!
