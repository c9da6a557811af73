//! Splitting one environment segment into key and value.

use vstd::prelude::*;
use vstd::utf8::{
    decode_utf8, decode_utf8_encode_utf8, encode_utf8, is_char_boundary,
    is_char_boundary_iff_not_is_continuation_byte, valid_utf8, valid_utf8_split,
};

use crate::error::InspectError;
use crate::text::decode_text;

verus! {

/// The byte that separates a key from its value.
pub const EQ: u8 = 61;

/// `i` is the position of the first `=` byte of `seg`.
pub open spec fn first_separator(seg: Seq<u8>, i: int) -> bool {
    0 <= i < seg.len() && seg[i] == EQ && forall|j: int| 0 <= j < i ==> seg[j] != EQ
}

/// The position of the first `=` byte of `seg`, where it has one.
pub open spec fn separator_index(seg: Seq<u8>) -> int {
    choose|i: int| first_separator(seg, i)
}

/// The bytes before the first `=` of `seg`.
pub open spec fn key_bytes(seg: Seq<u8>) -> Seq<u8> {
    seg.take(separator_index(seg))
}

/// The bytes after the first `=` of `seg`.
pub open spec fn value_bytes(seg: Seq<u8>) -> Seq<u8> {
    seg.skip(separator_index(seg) + 1)
}

/// What decoding the segment `seg` gives: its key and value as text, or the
/// failure.
pub open spec fn entry_outcome(seg: Seq<u8>) -> Result<(Seq<char>, Seq<char>), InspectError> {
    if !seg.contains(EQ) {
        Err(InspectError::MissingSeparator)
    } else if valid_utf8(key_bytes(seg)) && valid_utf8(value_bytes(seg)) {
        Ok((decode_utf8(key_bytes(seg)), decode_utf8(value_bytes(seg))))
    } else {
        Err(InspectError::EntryNotText)
    }
}

/// A segment has exactly one first `=` when it has any.
pub proof fn lemma_separator_index(seg: Seq<u8>)
    requires
        seg.contains(EQ),
    ensures
        first_separator(seg, separator_index(seg)),
        forall|i: int| first_separator(seg, i) ==> i == separator_index(seg),
{
    let k = choose|k: int| 0 <= k < seg.len() && seg[k] == EQ;
    // The least position of an `=` byte exists: walk up from the front.
    assert(exists|i: int| first_separator(seg, i)) by {
        lemma_least_separator(seg, k);
    }
    let s = separator_index(seg);
    assert forall|i: int| first_separator(seg, i) implies i == s by {
        if i < s {
            assert(seg[i] != EQ);
        } else if s < i {
            assert(seg[s] != EQ);
        }
    }
}

/// The segment that an entry came from: its key and value as bytes, joined
/// by `=`.
pub open spec fn rejoined(entry: (Seq<char>, Seq<char>)) -> Seq<u8> {
    encode_utf8(entry.0) + seq![EQ] + encode_utf8(entry.1)
}

/// A segment that holds an `=` and is valid UTF-8 decodes into an entry
/// whose key holds no `=`, and joining its key and value with `=` again gives
/// back the segment exactly.
pub proof fn lemma_entry_rejoins(seg: Seq<u8>)
    requires
        seg.contains(EQ),
        valid_utf8(seg),
    ensures
        entry_outcome(seg) is Ok,
        rejoined(entry_outcome(seg)->Ok_0) == seg,
        !encode_utf8(entry_outcome(seg)->Ok_0.0).contains(EQ),
{
    lemma_separator_index(seg);
    let i = separator_index(seg);
    is_char_boundary_iff_not_is_continuation_byte(seg, i);
    valid_utf8_split(seg, i);
    let key = seg.subrange(0, i);
    let rest = seg.subrange(i, seg.len() as int);
    assert(rest[0] == EQ);
    assert(vstd::utf8::length_of_first_scalar(rest) == 1);
    assert(vstd::utf8::pop_first_scalar(rest) =~= rest.subrange(1, rest.len() as int));
    assert(is_char_boundary(rest, 1)) by {
        reveal_with_fuel(is_char_boundary, 2);
    }
    valid_utf8_split(rest, 1);
    let value = rest.subrange(1, rest.len() as int);
    assert(key_bytes(seg) =~= key);
    assert(value_bytes(seg) =~= value);
    decode_utf8_encode_utf8(key);
    decode_utf8_encode_utf8(value);
    assert(key + seq![EQ] + value =~= seg);
    assert(!key.contains(EQ));
}

proof fn lemma_least_separator(seg: Seq<u8>, k: int)
    requires
        0 <= k < seg.len(),
        seg[k] == EQ,
    ensures
        exists|i: int| first_separator(seg, i),
    decreases k,
{
    if forall|j: int| 0 <= j < k ==> seg[j] != EQ {
        assert(first_separator(seg, k));
    } else {
        let j = choose|j: int| 0 <= j < k && seg[j] == EQ;
        lemma_least_separator(seg, j);
    }
}

/// Splits `seg` at its first `=` byte into key and value, or gives `None`
/// when it has none. The key holds no `=`; the value may.
pub fn split_entry(seg: &[u8]) -> (r: Option<(Vec<u8>, Vec<u8>)>)
    ensures
        r is None <==> !seg@.contains(EQ),
        r matches Some((k, v)) ==> k@ == key_bytes(seg@) && v@ == value_bytes(seg@),
{
    let mut i: usize = 0;
    while i < seg.len() && seg[i] != EQ
        invariant
            0 <= i <= seg@.len(),
            forall|j: int| 0 <= j < i ==> seg@[j] != EQ,
        decreases seg.len() - i,
    {
        i = i + 1;
    }
    if i == seg.len() {
        return None;
    }
    proof {
        assert(first_separator(seg@, i as int));
        lemma_separator_index(seg@);
    }
    let mut key: Vec<u8> = Vec::new();
    let mut j: usize = 0;
    while j < i
        invariant
            0 <= j <= i < seg@.len(),
            key@ == seg@.take(j as int),
        decreases i - j,
    {
        key.push(seg[j]);
        proof {
            assert(seg@.take(j + 1) =~= seg@.take(j as int).push(seg@[j as int]));
        }
        j = j + 1;
    }
    let mut value: Vec<u8> = Vec::new();
    let mut j: usize = i + 1;
    while j < seg.len()
        invariant
            i + 1 <= j <= seg@.len(),
            value@ == seg@.subrange(i + 1, j as int),
        decreases seg.len() - j,
    {
        value.push(seg[j]);
        proof {
            assert(seg@.subrange(i + 1, j + 1) =~= seg@.subrange(i + 1, j as int).push(
                seg@[j as int],
            ));
        }
        j = j + 1;
    }
    proof {
        assert(value@ =~= seg@.skip(i + 1));
    }
    Some((key, value))
}

/// Decodes the segment `seg` into key and value text, split at its first
/// `=` byte.
pub fn parse_entry(seg: &[u8]) -> (r: Result<(String, String), InspectError>)
    ensures
        match r {
            Ok((k, v)) => entry_outcome(seg@) == Ok::<_, InspectError>((k@, v@)),
            Err(e) => entry_outcome(seg@) == Err::<(Seq<char>, Seq<char>), _>(e),
        },
{
    match split_entry(seg) {
        None => Err(InspectError::MissingSeparator),
        Some((k, v)) => {
            let key = decode_text(k.as_slice());
            let value = decode_text(v.as_slice());
            match (key, value) {
                (Some(key), Some(value)) => Ok((key, value)),
                _ => Err(InspectError::EntryNotText),
            }
        },
    }
}

} // verus!
