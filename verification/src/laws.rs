//! The laws that relate the container's operations, stated over the
//! sequence view that every contract uses.

use vstd::prelude::*;

verus! {

/// Popping immediately after pushing `c` returns `c` and restores the
/// sequence and its length, as the contracts of [`crate::String2::push`]
/// and [`crate::String2::pop`] describe the two calls.
pub proof fn lemma_push_then_pop(q: Seq<char>, c: char)
    ensures
        q.push(c).len() == q.len() + 1,
        q.push(c).last() == c,
        q.push(c).drop_last() == q,
{
    assert(q.push(c).drop_last() =~= q);
}

/// Removing at `i` immediately after inserting `c` at `i` restores the
/// original sequence, for any valid position `i`.
pub proof fn lemma_insert_then_remove(q: Seq<char>, i: int, c: char)
    requires
        0 <= i <= q.len(),
    ensures
        q.insert(i, c).len() == q.len() + 1,
        q.insert(i, c)[i] == c,
        q.insert(i, c).remove(i) == q,
{
    assert(q.insert(i, c).remove(i) =~= q);
}

/// Appending the part split off at `at` back onto the remaining prefix
/// reconstitutes the original sequence, as the contracts of
/// [`crate::String2::split_off`] and [`crate::String2::append`] describe
/// the two calls.
pub proof fn lemma_split_off_then_append(q: Seq<char>, at: int)
    requires
        0 <= at <= q.len(),
    ensures
        q.subrange(0, at) + q.subrange(at, q.len() as int) == q,
{
    assert(q.subrange(0, at) + q.subrange(at, q.len() as int) =~= q);
}

/// The encoded text produced for a character sequence is valid UTF-8 and
/// decodes back to the same sequence.  Together with the contracts of
/// [`crate::String2::from_text`] and [`crate::String2::to_text`], whose
/// results carry the same character view as their input, this is the
/// round-trip law: re-encoding a decoded text yields the text unchanged.
/// At the byte level the same law relates [`crate::String2::as_bytes`],
/// which produces exactly `encode_utf8(self@)`, to
/// [`crate::String2::from_utf8`], which accepts exactly the valid
/// encodings and yields `decode_utf8` of them.
pub proof fn lemma_encode_then_decode(t: Seq<char>)
    ensures
        vstd::utf8::valid_utf8(vstd::utf8::encode_utf8(t)),
        vstd::utf8::decode_utf8(vstd::utf8::encode_utf8(t)) == t,
{
    vstd::utf8::encode_utf8_valid_utf8(t);
    vstd::utf8::encode_utf8_decode_utf8(t);
}

/// Retaining with a predicate that keeps everything is a no-op: whenever
/// every flag of `keep` is set, [`crate::string2::filter_by`] gives the
/// sequence back unchanged.
pub proof fn lemma_retain_all(s: Seq<char>, keep: Seq<bool>)
    requires
        keep.len() == s.len(),
        forall|i: int| 0 <= i < keep.len() ==> keep[i],
    ensures
        crate::string2::filter_by(s, keep) == s,
    decreases s.len(),
{
    if s.len() == 0 {
        assert(crate::string2::filter_by(s, keep) =~= s);
    } else {
        lemma_retain_all(s.drop_last(), keep.drop_last());
        assert(crate::string2::filter_by(s, keep) =~= s);
    }
}

/// Retaining with a predicate that keeps nothing empties the sequence:
/// whenever no flag of `keep` is set, [`crate::string2::filter_by`] gives
/// the empty sequence.
pub proof fn lemma_retain_none(s: Seq<char>, keep: Seq<bool>)
    requires
        keep.len() == s.len(),
        forall|i: int| 0 <= i < keep.len() ==> !keep[i],
    ensures
        crate::string2::filter_by(s, keep) == Seq::<char>::empty(),
    decreases s.len(),
{
    if s.len() == 0 {
    } else {
        lemma_retain_none(s.drop_last(), keep.drop_last());
    }
}

} // verus!
