//! The entries of a collection as a sequence kept in key order, and the three
//! operations on it: put an entry at its place, take one out, look one up.

use vstd::prelude::*;
use vstd::utf8::*;

use crate::data::DataView;
use crate::format::Format;
use crate::order::{
    lemma_lex_asymmetric, lemma_lex_irreflexive, lemma_lex_total, lemma_lex_transitive, lex_lt,
};
use crate::wire::{
    decode_text, encode_text, lemma_decode_text_of_encoded, lemma_encode_text_of_decoded,
    lemma_encode_utf8_injective, text_fits,
};

verus! {

/// The model of one entry: a key and the value under it.
pub struct EntryView {
    pub key: Seq<char>,
    pub value: DataView,
}

impl Format for EntryView {
    /// The key fits behind its length byte and the value is valid.
    open spec fn valid(self) -> bool {
        text_fits(self.key) && self.value.valid()
    }

    /// The key as a string on the wire, then the value.
    open spec fn encode(self) -> Seq<u8> {
        encode_text(self.key) + self.value.encode()
    }

    open spec fn decode(bytes: Seq<u8>) -> Option<(EntryView, int)> {
        match decode_text(bytes) {
            None => None,
            Some((key, used)) => match DataView::decode(bytes.skip(used)) {
                None => None,
                Some((value, more)) => Some((EntryView { key, value }, used + more)),
            },
        }
    }

    proof fn lemma_decode_encode(self, rest: Seq<u8>) {
        let bytes = self.encode() + rest;
        assert(bytes =~= encode_text(self.key) + (self.value.encode() + rest));
        lemma_decode_text_of_encoded(self.key, self.value.encode() + rest);
        assert(bytes.skip(encode_text(self.key).len() as int) =~= self.value.encode() + rest);
        self.value.lemma_decode_encode(rest);
    }

    proof fn lemma_encode_decode(bytes: Seq<u8>) {
        lemma_encode_text_of_decoded(bytes);
        let (_, used) = decode_text(bytes).unwrap();
        DataView::lemma_encode_decode(bytes.skip(used));
    }
}

/// The order of keys: that of their UTF-8 forms, byte by byte.
pub open spec fn key_lt(a: Seq<char>, b: Seq<char>) -> bool {
    lex_lt(encode_utf8(a), encode_utf8(b))
}

/// The keys ascend strictly, so no key occurs twice.
pub open spec fn sorted(entries: Seq<EntryView>) -> bool {
    forall|i: int, j: int|
        #![trigger entries[i], entries[j]]
        0 <= i < j < entries.len() ==> key_lt(entries[i].key, entries[j].key)
}

/// The number of leading entries whose key comes before `key`: in a sorted
/// sequence, the place of `key`.
pub open spec fn lower_bound(entries: Seq<EntryView>, key: Seq<char>) -> int
    decreases entries.len(),
{
    if entries.len() == 0 || !key_lt(entries[0].key, key) {
        0
    } else {
        1 + lower_bound(entries.drop_first(), key)
    }
}

/// The entry at the place of `key` has that key.
pub open spec fn found(entries: Seq<EntryView>, key: Seq<char>) -> bool {
    let place = lower_bound(entries, key);
    place < entries.len() && entries[place].key == key
}

/// The value under `key`, if there is one.
pub open spec fn lookup(entries: Seq<EntryView>, key: Seq<char>) -> Option<DataView> {
    if found(entries, key) {
        Some(entries[lower_bound(entries, key)].value)
    } else {
        None
    }
}

/// The sequence with `value` under `key`: in place of the entry that had the
/// key, or as a new entry at the key's place.
pub open spec fn upsert(entries: Seq<EntryView>, key: Seq<char>, value: DataView) -> Seq<
    EntryView,
> {
    let place = lower_bound(entries, key);
    if found(entries, key) {
        entries.update(place, EntryView { key, value })
    } else {
        entries.insert(place, EntryView { key, value })
    }
}

/// The sequence without the entry under `key`; the sequence itself where there
/// is none.
pub open spec fn without(entries: Seq<EntryView>, key: Seq<char>) -> Seq<EntryView> {
    if found(entries, key) {
        entries.remove(lower_bound(entries, key))
    } else {
        entries
    }
}

/// No key comes before itself.
pub proof fn lemma_key_irreflexive(a: Seq<char>)
    ensures
        !key_lt(a, a),
{
    lemma_lex_irreflexive(encode_utf8(a));
}

/// The order of keys is transitive.
pub proof fn lemma_key_transitive(a: Seq<char>, b: Seq<char>, c: Seq<char>)
    requires
        key_lt(a, b),
        key_lt(b, c),
    ensures
        key_lt(a, c),
{
    lemma_lex_transitive(encode_utf8(a), encode_utf8(b), encode_utf8(c));
}

/// Of two keys exactly one holds: the first comes before, the second comes
/// before, or they are the same key.
pub proof fn lemma_key_trichotomy(a: Seq<char>, b: Seq<char>)
    ensures
        key_lt(a, b) || key_lt(b, a) || a == b,
        !(key_lt(a, b) && key_lt(b, a)),
        a == b ==> !key_lt(a, b),
{
    lemma_lex_total(encode_utf8(a), encode_utf8(b));
    if encode_utf8(a) == encode_utf8(b) {
        lemma_encode_utf8_injective(a, b);
    }
    if key_lt(a, b) {
        lemma_lex_asymmetric(encode_utf8(a), encode_utf8(b));
    }
    lemma_lex_irreflexive(encode_utf8(a));
}

/// What `lower_bound` returns: every entry before it has a smaller key, and the
/// entry at it, if there is one, has not.
pub proof fn lemma_lower_bound(entries: Seq<EntryView>, key: Seq<char>)
    ensures
        0 <= lower_bound(entries, key) <= entries.len(),
        forall|j: int|
            0 <= j < lower_bound(entries, key) ==> key_lt((#[trigger] entries[j]).key, key),
        lower_bound(entries, key) < entries.len() ==> !key_lt(
            entries[lower_bound(entries, key)].key,
            key,
        ),
    decreases entries.len(),
{
    if entries.len() == 0 || !key_lt(entries[0].key, key) {
    } else {
        let rest = entries.drop_first();
        lemma_lower_bound(rest, key);
        assert forall|j: int| 0 <= j < lower_bound(entries, key) implies key_lt(
            (#[trigger] entries[j]).key,
            key,
        ) by {
            if j > 0 {
                assert(entries[j] == rest[j - 1]);
            }
        }
    }
}

/// The only index with the two properties of `lemma_lower_bound` is `lower_bound`.
pub proof fn lemma_lower_bound_is(entries: Seq<EntryView>, key: Seq<char>, place: int)
    requires
        0 <= place <= entries.len(),
        forall|j: int| 0 <= j < place ==> key_lt((#[trigger] entries[j]).key, key),
        place < entries.len() ==> !key_lt(entries[place].key, key),
    ensures
        lower_bound(entries, key) == place,
{
    lemma_lower_bound(entries, key);
}

/// In a sorted sequence a key is found exactly where some entry has it, and
/// every entry is found under its own key.
pub proof fn lemma_found_iff_present(entries: Seq<EntryView>, key: Seq<char>)
    requires
        sorted(entries),
    ensures
        found(entries, key) <==> exists|i: int|
            0 <= i < entries.len() && (#[trigger] entries[i]).key == key,
        forall|i: int|
            0 <= i < entries.len() && (#[trigger] entries[i]).key == key ==> lower_bound(
                entries,
                key,
            ) == i,
{
    lemma_lower_bound(entries, key);
    assert forall|i: int|
        0 <= i < entries.len() && (#[trigger] entries[i]).key == key implies lower_bound(
        entries,
        key,
    ) == i by {
        lemma_key_irreflexive(key);
        lemma_lower_bound_is(entries, key, i);
    }
}

/// Putting an entry at its place keeps the sequence sorted.
pub proof fn lemma_upsert_sorted(entries: Seq<EntryView>, key: Seq<char>, value: DataView)
    requires
        sorted(entries),
    ensures
        sorted(upsert(entries, key, value)),
{
    lemma_lower_bound(entries, key);
    let place = lower_bound(entries, key);
    let after = upsert(entries, key, value);
    if !found(entries, key) {
        assert forall|i: int, j: int| 0 <= i < j < after.len() implies key_lt(
            after[i].key,
            after[j].key,
        ) by {
            if i == place {
                lemma_key_trichotomy(key, entries[place].key);
                if j - 1 > place {
                    lemma_key_transitive(key, entries[place].key, entries[j - 1].key);
                }
            }
        }
    }
}

/// Taking an entry out keeps the sequence sorted.
pub proof fn lemma_without_sorted(entries: Seq<EntryView>, key: Seq<char>)
    requires
        sorted(entries),
    ensures
        sorted(without(entries, key)),
{
    lemma_lower_bound(entries, key);
}

/// After an entry is put under a key, the key stands where it stood or would
/// have stood, and the value is found under it.
pub proof fn lemma_lookup_upsert(entries: Seq<EntryView>, key: Seq<char>, value: DataView)
    ensures
        lower_bound(upsert(entries, key, value), key) == lower_bound(entries, key),
        found(upsert(entries, key, value), key),
        lookup(upsert(entries, key, value), key) == Some(value),
{
    lemma_lower_bound(entries, key);
    lemma_key_irreflexive(key);
    lemma_lower_bound_is(upsert(entries, key, value), key, lower_bound(entries, key));
}

/// After the entry under a key is taken out of a sorted sequence, the key is not
/// found, and its place has not moved.
pub proof fn lemma_lookup_without(entries: Seq<EntryView>, key: Seq<char>)
    requires
        sorted(entries),
    ensures
        lower_bound(without(entries, key), key) == lower_bound(entries, key),
        !found(without(entries, key), key),
        lookup(without(entries, key), key) is None,
{
    lemma_lower_bound(entries, key);
    let place = lower_bound(entries, key);
    let after = without(entries, key);
    if found(entries, key) {
        if place < after.len() {
            lemma_key_trichotomy(key, after[place].key);
        }
        lemma_lower_bound_is(after, key, place);
    }
}

/// Putting a second value under the same key gives what putting only the second
/// would have given, and in a sorted sequence exactly one entry then has the
/// key: the one with the second value.
pub proof fn lemma_upsert_twice(
    entries: Seq<EntryView>,
    key: Seq<char>,
    first: DataView,
    second: DataView,
)
    ensures
        upsert(upsert(entries, key, first), key, second) == upsert(entries, key, second),
        upsert(upsert(entries, key, first), key, second).len() == upsert(
            entries,
            key,
            first,
        ).len(),
        sorted(entries) ==> forall|i: int|
            0 <= i < upsert(entries, key, second).len() ==> ((#[trigger] upsert(
                entries,
                key,
                second,
            )[i]).key == key <==> i == lower_bound(entries, key)),
        upsert(entries, key, second)[lower_bound(entries, key)] == (EntryView {
            key,
            value: second,
        }),
{
    lemma_lower_bound(entries, key);
    lemma_lookup_upsert(entries, key, first);
    lemma_lookup_upsert(entries, key, second);
    if sorted(entries) {
        lemma_upsert_sorted(entries, key, second);
        lemma_found_iff_present(upsert(entries, key, second), key);
    }
}

/// Taking out a key that no entry has changes nothing.
pub proof fn lemma_without_absent(entries: Seq<EntryView>, key: Seq<char>)
    requires
        forall|i: int| 0 <= i < entries.len() ==> (#[trigger] entries[i]).key != key,
    ensures
        without(entries, key) == entries,
{
    lemma_lower_bound(entries, key);
}

/// In a sorted sequence, taking a key out and then putting a value under it
/// gives what putting the value under it gives.
pub proof fn lemma_without_then_upsert(entries: Seq<EntryView>, key: Seq<char>, value: DataView)
    requires
        sorted(entries),
    ensures
        upsert(without(entries, key), key, value) == upsert(entries, key, value),
{
    lemma_lower_bound(entries, key);
    lemma_lookup_without(entries, key);
}

/// In a sorted sequence, what is found under a key is the value of the entry
/// that has the key, and nothing is found where no entry has it.
pub proof fn lemma_lookup_is(entries: Seq<EntryView>, key: Seq<char>)
    requires
        sorted(entries),
    ensures
        forall|i: int|
            0 <= i < entries.len() && (#[trigger] entries[i]).key == key ==> lookup(entries, key)
                == Some(entries[i].value),
        lookup(entries, key) is None ==> forall|i: int|
            0 <= i < entries.len() ==> (#[trigger] entries[i]).key != key,
{
    lemma_found_iff_present(entries, key);
}

/// Putting a value under one key leaves what is found under every other key.
pub proof fn lemma_lookup_upsert_other(
    entries: Seq<EntryView>,
    key: Seq<char>,
    value: DataView,
    other: Seq<char>,
)
    requires
        sorted(entries),
        other != key,
    ensures
        lookup(upsert(entries, key, value), other) == lookup(entries, other),
{
    lemma_lower_bound(entries, key);
    lemma_lower_bound(entries, other);
    lemma_upsert_sorted(entries, key, value);
    let place = lower_bound(entries, key);
    let after = upsert(entries, key, value);
    lemma_lower_bound(after, other);
    lemma_lookup_is(entries, other);
    lemma_lookup_is(after, other);
    if found(entries, other) {
        let at = lower_bound(entries, other);
        let moved = if found(entries, key) || at < place {
            at
        } else {
            at + 1
        };
        assert(after[moved] == entries[at]);
    }
}

/// Taking one key out leaves what is found under every other key.
pub proof fn lemma_lookup_without_other(
    entries: Seq<EntryView>,
    key: Seq<char>,
    other: Seq<char>,
)
    requires
        sorted(entries),
        other != key,
    ensures
        lookup(without(entries, key), other) == lookup(entries, other),
{
    lemma_lower_bound(entries, key);
    lemma_lower_bound(entries, other);
    lemma_without_sorted(entries, key);
    let place = lower_bound(entries, key);
    let after = without(entries, key);
    lemma_lower_bound(after, other);
    lemma_lookup_is(entries, other);
    lemma_lookup_is(after, other);
    if found(entries, key) && found(entries, other) {
        let at = lower_bound(entries, other);
        let moved = if at < place {
            at
        } else {
            at - 1
        };
        assert(after[moved] == entries[at]);
    }
}

} // verus!
