//! The container type and its operations.

use vstd::prelude::*;

verus! {

/// Reported when a requested capacity does not fit in the addressable range.
#[derive(Clone, Copy, Debug, PartialEq, Eq, Structural)]
pub struct CapacityError;

/// Reported when bytes handed to [`String2::from_utf8`] are not a valid
/// UTF-8 encoding.
#[derive(Clone, Copy, Debug, PartialEq, Eq, Structural)]
pub struct DecodeError;

/// Keeps the characters of `s` whose flag in `keep` is set, preserving their
/// relative order.
pub open spec fn filter_by(s: Seq<char>, keep: Seq<bool>) -> Seq<char>
    recommends
        s.len() == keep.len(),
    decreases s.len(),
{
    if s.len() == 0 {
        Seq::<char>::empty()
    } else if keep.last() {
        filter_by(s.drop_last(), keep.drop_last()).push(s.last())
    } else {
        filter_by(s.drop_last(), keep.drop_last())
    }
}

/// A growable, owned sequence of Unicode scalar values.
///
/// The backing storage holds `spec_capacity()` character slots, of which the
/// first `self@.len()` are the elements of the sequence.  All positions are
/// character positions, never byte offsets.
#[derive(Debug, Eq)]
pub struct String2 {
    /// Backing storage; its physical length is the capacity.
    buf: Vec<char>,
    /// Number of slots at the front of `buf` that hold elements.
    len: usize,
}

impl View for String2 {
    type V = Seq<char>;

    closed spec fn view(&self) -> Seq<char> {
        if self.len <= self.buf@.len() {
            self.buf@.take(self.len as int)
        } else {
            self.buf@
        }
    }
}

impl String2 {
    /// Number of character slots in the backing storage.
    pub closed spec fn spec_capacity(&self) -> nat {
        self.buf@.len()
    }

    /// The elements always fit in the backing storage.
    pub closed spec fn wf(&self) -> bool {
        self.len <= self.buf@.len()
    }

    /// The length of the sequence never exceeds its capacity.
    pub proof fn lemma_len_le_capacity(&self)
        requires
            self.wf(),
        ensures
            self@.len() <= self.spec_capacity(),
    {
    }

    /// Creates an empty sequence without allocating.
    pub fn new() -> (s: String2)
        ensures
            s.wf(),
            s@ == Seq::<char>::empty(),
            s.spec_capacity() == 0,
    {
        String2 { buf: Vec::new(), len: 0 }
    }

    /// Creates an empty sequence whose backing storage holds `capacity` slots.
    pub fn with_capacity(capacity: usize) -> (s: String2)
        ensures
            s.wf(),
            s@ == Seq::<char>::empty(),
            s.spec_capacity() == capacity,
    {
        let mut buf: Vec<char> = Vec::with_capacity(capacity);
        buf.resize(capacity, '\0');
        String2 { buf, len: 0 }
    }

    /// Returns the size of the backing storage, in character slots.
    pub fn capacity(&self) -> (c: usize)
        ensures
            c == self.spec_capacity(),
    {
        self.buf.len()
    }

    /// Returns the number of characters in the sequence.
    pub fn len(&self) -> (n: usize)
        requires
            self.wf(),
        ensures
            n == self@.len(),
    {
        self.len
    }

    /// Returns true when the sequence holds no characters.
    pub fn is_empty(&self) -> (b: bool)
        requires
            self.wf(),
        ensures
            b == (self@.len() == 0),
    {
        self.len == 0
    }

    /// Grows the backing storage so that at least `additional` characters can
    /// be appended without further growth; may over-allocate to amortize
    /// future growth, and does nothing when the storage already suffices.
    /// Reports an error when the requested size does not fit in `usize`.
    pub fn reserve(&mut self, additional: usize) -> (r: Result<(), CapacityError>)
        requires
            old(self).wf(),
        ensures
            final(self).wf(),
            final(self)@ == old(self)@,
            r is Ok <==> old(self)@.len() + additional <= usize::MAX,
            r is Err ==> final(self).spec_capacity() == old(self).spec_capacity(),
            r is Ok ==> final(self).spec_capacity() >= old(self)@.len() + additional,
            final(self).spec_capacity() >= old(self).spec_capacity(),
            old(self)@.len() + additional <= old(self).spec_capacity() ==> final(self).spec_capacity() == old(self).spec_capacity(),
    {
        match self.len.checked_add(additional) {
            None => Err(CapacityError),
            Some(needed) => {
                let cap = self.buf.len();
                if needed > cap {
                    let doubled: usize = if cap <= usize::MAX - cap {
                        cap + cap
                    } else {
                        usize::MAX
                    };
                    let new_cap: usize = if needed > doubled {
                        needed
                    } else {
                        doubled
                    };
                    self.buf.resize(new_cap, '\0');
                    assert(self@ =~= old(self)@);
                }
                Ok(())
            },
        }
    }

    /// Grows the backing storage to hold exactly `additional` characters
    /// beyond the current length, without over-allocating; does nothing when
    /// the storage already suffices.  Reports an error when the requested
    /// size does not fit in `usize`.
    pub fn reserve_exact(&mut self, additional: usize) -> (r: Result<(), CapacityError>)
        requires
            old(self).wf(),
        ensures
            final(self).wf(),
            final(self)@ == old(self)@,
            r is Ok <==> old(self)@.len() + additional <= usize::MAX,
            r is Err ==> final(self).spec_capacity() == old(self).spec_capacity(),
            r is Ok && old(self)@.len() + additional > old(self).spec_capacity() ==> final(self).spec_capacity() == old(self)@.len() + additional,
            old(self)@.len() + additional <= old(self).spec_capacity() ==> final(self).spec_capacity() == old(self).spec_capacity(),
    {
        match self.len.checked_add(additional) {
            None => Err(CapacityError),
            Some(needed) => {
                if needed > self.buf.len() {
                    self.buf.resize(needed, '\0');
                    assert(self@ =~= old(self)@);
                }
                Ok(())
            },
        }
    }

    /// Releases unused backing storage so that the capacity equals the
    /// length.
    pub fn shrink_to_fit(&mut self)
        requires
            old(self).wf(),
        ensures
            final(self).wf(),
            final(self)@ == old(self)@,
            final(self).spec_capacity() == old(self)@.len(),
    {
        let n = self.len;
        self.buf.truncate(n);
        assert(self@ =~= old(self)@);
    }

    /// Drops every character from position `new_len` onward; does nothing
    /// when the sequence is already at most that long.  Never grows or
    /// shrinks the backing storage.
    pub fn truncate(&mut self, new_len: usize)
        requires
            old(self).wf(),
        ensures
            final(self).wf(),
            final(self).spec_capacity() == old(self).spec_capacity(),
            new_len <= old(self)@.len() ==> final(self)@ == old(self)@.take(new_len as int),
            new_len > old(self)@.len() ==> final(self)@ == old(self)@,
    {
        if new_len < self.len {
            self.len = new_len;
            assert(self@ =~= old(self)@.take(new_len as int));
        }
    }

    /// Removes all characters; the backing storage is retained for reuse.
    pub fn clear(&mut self)
        requires
            old(self).wf(),
        ensures
            final(self).wf(),
            final(self)@ == Seq::<char>::empty(),
            final(self).spec_capacity() == old(self).spec_capacity(),
    {
        self.len = 0;
        assert(self@ =~= Seq::<char>::empty());
    }

    /// Returns the character at position `idx`, or reports absence when the
    /// position is out of range.
    pub fn get(&self, idx: usize) -> (r: Option<&char>)
        requires
            self.wf(),
        ensures
            idx < self@.len() ==> (r matches Some(c) && *c == self@[idx as int]),
            idx >= self@.len() ==> r is None,
    {
        if idx < self.len {
            Some(&self.buf[idx])
        } else {
            None
        }
    }

    /// Returns a mutable reference to the character at position `idx`, or
    /// reports absence when the position is out of range.
    pub fn get_mut(&mut self, idx: usize) -> (r: Option<&mut char>)
        requires
            old(self).wf(),
        ensures
            final(self).wf(),
            final(self).spec_capacity() == old(self).spec_capacity(),
            idx >= old(self)@.len() ==> r is None && final(self)@ == old(self)@,
            idx < old(self)@.len() ==> (r matches Some(c) && *c == old(self)@[idx as int]
                && final(self)@ == old(self)@.update(idx as int, *final(r.unwrap()))),
    {
        if idx < self.len {
            Some(&mut self.buf[idx])
        } else {
            None
        }
    }

    /// Returns the character at position `idx`; the position must be in
    /// range.
    pub fn index(&self, idx: usize) -> (c: &char)
        requires
            self.wf(),
            idx < self@.len(),
        ensures
            *c == self@[idx as int],
    {
        &self.buf[idx]
    }

    /// Doubles the backing storage when it is full, so that one more
    /// character fits; storage that already has room is left untouched.
    fn grow_one(&mut self)
        requires
            old(self).wf(),
            old(self)@.len() < usize::MAX,
        ensures
            final(self).wf(),
            final(self)@ == old(self)@,
            final(self)@.len() < final(self).spec_capacity(),
            final(self).spec_capacity() >= old(self).spec_capacity(),
            old(self)@.len() < old(self).spec_capacity() ==> final(self).spec_capacity() == old(
                self,
            ).spec_capacity(),
    {
        if self.len == self.buf.len() {
            let cap = self.buf.len();
            let new_cap: usize = if cap == 0 {
                1
            } else if cap <= usize::MAX - cap {
                cap + cap
            } else {
                usize::MAX
            };
            self.buf.resize(new_cap, '\0');
            assert(self@ =~= old(self)@);
        }
    }

    /// Appends one character, growing the backing storage only when full.
    pub fn push(&mut self, ch: char)
        requires
            old(self).wf(),
            old(self)@.len() < usize::MAX,
        ensures
            final(self).wf(),
            final(self)@ == old(self)@.push(ch),
            final(self).spec_capacity() >= old(self).spec_capacity(),
            old(self)@.len() < old(self).spec_capacity() ==> final(self).spec_capacity()
                == old(self).spec_capacity(),
    {
        self.grow_one();
        let i = self.len;
        self.buf[i] = ch;
        self.len = i + 1;
        assert(self@ =~= old(self)@.push(ch));
    }

    /// Inserts `ch` at position `idx`, shifting the characters from `idx`
    /// onward one place to the right; the position must be at most the
    /// length.
    pub fn insert(&mut self, idx: usize, ch: char)
        requires
            old(self).wf(),
            idx <= old(self)@.len(),
            old(self)@.len() < usize::MAX,
        ensures
            final(self).wf(),
            final(self)@ == old(self)@.insert(idx as int, ch),
            final(self).spec_capacity() >= old(self).spec_capacity(),
            old(self)@.len() < old(self).spec_capacity() ==> final(self).spec_capacity() == old(
                self,
            ).spec_capacity(),
    {
        self.grow_one();
        let ghost mid = self.buf@;
        proof {
            assert(mid.take(self.len as int) =~= old(self)@);
        }
        let mut j: usize = self.len;
        while j > idx
            invariant
                idx <= j <= self.len,
                self.len == old(self).len,
                self.len < self.buf@.len(),
                self.buf@.len() == mid.len(),
                mid.take(self.len as int) == old(self)@,
                forall|k: int| 0 <= k < j ==> self.buf@[k] == mid[k],
                forall|k: int| j < k <= self.len ==> self.buf@[k] == mid[k - 1],
            decreases j,
        {
            let c = self.buf[j - 1];
            self.buf[j] = c;
            j = j - 1;
        }
        self.buf[idx] = ch;
        self.len = self.len + 1;
        assert(self@ =~= old(self)@.insert(idx as int, ch));
    }

    /// Removes and returns the character at position `idx`, shifting the
    /// characters after it one place to the left; the position must be in
    /// range.
    pub fn remove(&mut self, idx: usize) -> (c: char)
        requires
            old(self).wf(),
            idx < old(self)@.len(),
        ensures
            final(self).wf(),
            c == old(self)@[idx as int],
            final(self)@ == old(self)@.remove(idx as int),
            final(self).spec_capacity() == old(self).spec_capacity(),
    {
        let ghost mid = self.buf@;
        let c = self.buf[idx];
        let mut j: usize = idx;
        while j + 1 < self.len
            invariant
                idx <= j < self.len,
                self.len == old(self).len,
                self.len <= self.buf@.len(),
                self.buf@.len() == mid.len(),
                forall|k: int| 0 <= k < idx ==> self.buf@[k] == mid[k],
                forall|k: int| idx <= k < j ==> self.buf@[k] == mid[k + 1],
                forall|k: int| j <= k < self.buf@.len() ==> self.buf@[k] == mid[k],
            decreases self.len - j,
        {
            let d = self.buf[j + 1];
            self.buf[j] = d;
            j = j + 1;
        }
        self.len = self.len - 1;
        assert(self@ =~= old(self)@.remove(idx as int));
        c
    }

    /// Decodes `string` and appends each of its characters in order.
    pub fn push_str(&mut self, string: &str)
        requires
            old(self).wf(),
            old(self)@.len() + string@.len() <= usize::MAX,
        ensures
            final(self).wf(),
            final(self)@ == old(self)@ + string@,
            final(self).spec_capacity() >= old(self).spec_capacity(),
    {
        for c in it: string.chars()
            invariant
                self.wf(),
                it.seq() == string@,
                old(self)@.len() + string@.len() <= usize::MAX,
                self@ == old(self)@ + it.seq().take(it.index() as int),
                self.spec_capacity() >= old(self).spec_capacity(),
        {
            self.push(c);
            proof {
                assert(self@ =~= old(self)@ + it.seq().take(it.index() as int + 1));
            }
        }
        assert(self@ =~= old(self)@ + string@);
    }

    /// Decodes `string` into a new sequence, one element per character in
    /// encounter order.
    pub fn from_text(string: &str) -> (s: String2)
        ensures
            s.wf(),
            s@ == string@,
    {
        let n = string.unicode_len();
        let mut s = String2::with_capacity(n);
        s.push_str(string);
        s
    }

    /// Decodes raw UTF-8 bytes into a new sequence, rejecting any input
    /// that is not a valid encoding: stray or missing continuation bytes,
    /// overlong encodings, surrogates, and values past the scalar range.
    pub fn from_utf8(bytes: &[u8]) -> (r: Result<String2, DecodeError>)
        ensures
            r is Err <==> !vstd::utf8::valid_utf8(bytes@),
            r matches Ok(s) ==> s.wf() && s@ == vstd::utf8::decode_utf8(bytes@),
    {
        let n = bytes.len();
        let mut s = String2::new();
        let mut i: usize = 0;
        proof {
            assert(bytes@.skip(0) =~= bytes@);
            if vstd::utf8::valid_utf8(bytes@) {
                assert(s@ + vstd::utf8::decode_utf8(bytes@) =~= vstd::utf8::decode_utf8(bytes@));
            }
        }
        while i < n
            invariant
                i <= n,
                n == bytes@.len(),
                s.wf(),
                s@.len() <= i,
                vstd::utf8::valid_utf8(bytes@) <==> vstd::utf8::valid_utf8(bytes@.skip(i as int)),
                vstd::utf8::valid_utf8(bytes@.skip(i as int)) ==> vstd::utf8::decode_utf8(bytes@)
                    == s@ + vstd::utf8::decode_utf8(bytes@.skip(i as int)),
            decreases n - i,
        {
            let ghost suffix = bytes@.skip(i as int);
            proof {
                assert(suffix.len() == n - i);
                assert(suffix[0] == bytes@[i as int]);
            }
            let rem = n - i;
            let b0 = *vstd::slice::slice_index_get(bytes, i);
            let w: usize;
            let u: u32;
            if b0 < 0x80 {
                w = 1;
                u = (b0 & 0x7F) as u32;
                proof {
                    assert(u <= 0x7F) by (bit_vector)
                        requires
                            u == ((b0 & 0x7F) as u32),
                    ;
                    assert(vstd::utf8::valid_leading_and_continuation_bytes_first_codepoint(
                        suffix,
                    ));
                    assert(vstd::utf8::decode_first_codepoint(suffix) == u);
                    assert(vstd::utf8::length_of_first_codepoint(suffix) == 1);
                    assert(vstd::utf8::valid_first_scalar(suffix));
                    assert(vstd::utf8::is_scalar(u));
                }
            } else if b0 < 0xC0 {
                // a continuation byte cannot lead an encoded scalar
                proof {
                    assert(!vstd::utf8::valid_first_scalar(suffix));
                    assert(!vstd::utf8::valid_utf8(suffix));
                }
                return Err(DecodeError);
            } else if b0 < 0xE0 {
                if rem < 2 {
                    proof {
                        assert(!vstd::utf8::valid_first_scalar(suffix));
                        assert(!vstd::utf8::valid_utf8(suffix));
                    }
                    return Err(DecodeError);
                }
                let b1 = *vstd::slice::slice_index_get(bytes, i + 1);
                proof {
                    assert(suffix[1] == bytes@[i + 1]);
                }
                if !(b1 >= 0x80 && b1 < 0xC0) {
                    proof {
                        assert(!vstd::utf8::valid_first_scalar(suffix));
                        assert(!vstd::utf8::valid_utf8(suffix));
                    }
                    return Err(DecodeError);
                }
                w = 2;
                u = (((b0 & 0x1F) as u32) << 6u32) | ((b1 & 0x3F) as u32);
                proof {
                    assert(u <= 0x7FF) by (bit_vector)
                        requires
                            u == ((((b0 & 0x1F) as u32) << 6u32) | ((b1 & 0x3F) as u32)),
                    ;
                    assert(vstd::utf8::valid_leading_and_continuation_bytes_first_codepoint(
                        suffix,
                    ));
                    assert(vstd::utf8::decode_first_codepoint(suffix) == u);
                    assert(vstd::utf8::length_of_first_codepoint(suffix) == 2);
                }
                if u < 0x80 {
                    // overlong two-byte form
                    proof {
                        assert(!vstd::utf8::valid_first_scalar(suffix));
                        assert(!vstd::utf8::valid_utf8(suffix));
                    }
                    return Err(DecodeError);
                }
                proof {
                    assert(vstd::utf8::valid_first_scalar(suffix));
                    assert(vstd::utf8::is_scalar(u));
                }
            } else if b0 < 0xF0 {
                if rem < 3 {
                    proof {
                        assert(!vstd::utf8::valid_first_scalar(suffix));
                        assert(!vstd::utf8::valid_utf8(suffix));
                    }
                    return Err(DecodeError);
                }
                let b1 = *vstd::slice::slice_index_get(bytes, i + 1);
                let b2 = *vstd::slice::slice_index_get(bytes, i + 2);
                proof {
                    assert(suffix[1] == bytes@[i + 1]);
                    assert(suffix[2] == bytes@[i + 2]);
                }
                if !(b1 >= 0x80 && b1 < 0xC0) || !(b2 >= 0x80 && b2 < 0xC0) {
                    proof {
                        assert(!vstd::utf8::valid_first_scalar(suffix));
                        assert(!vstd::utf8::valid_utf8(suffix));
                    }
                    return Err(DecodeError);
                }
                w = 3;
                u = (((b0 & 0x0F) as u32) << 12u32) | (((b1 & 0x3F) as u32) << 6u32) | ((b2
                    & 0x3F) as u32);
                proof {
                    assert(u <= 0xFFFF) by (bit_vector)
                        requires
                            u == ((((b0 & 0x0F) as u32) << 12u32) | (((b1 & 0x3F) as u32) << 6u32)
                                | ((b2 & 0x3F) as u32)),
                    ;
                    assert(vstd::utf8::valid_leading_and_continuation_bytes_first_codepoint(
                        suffix,
                    ));
                    assert(vstd::utf8::decode_first_codepoint(suffix) == u);
                    assert(vstd::utf8::length_of_first_codepoint(suffix) == 3);
                }
                if u < 0x800 || (u >= 0xD800 && u <= 0xDFFF) {
                    // overlong three-byte form, or a surrogate
                    proof {
                        assert(!vstd::utf8::valid_first_scalar(suffix));
                        assert(!vstd::utf8::valid_utf8(suffix));
                    }
                    return Err(DecodeError);
                }
                proof {
                    assert(vstd::utf8::valid_first_scalar(suffix));
                    assert(vstd::utf8::is_scalar(u));
                }
            } else if b0 < 0xF8 {
                if rem < 4 {
                    proof {
                        assert(!vstd::utf8::valid_first_scalar(suffix));
                        assert(!vstd::utf8::valid_utf8(suffix));
                    }
                    return Err(DecodeError);
                }
                let b1 = *vstd::slice::slice_index_get(bytes, i + 1);
                let b2 = *vstd::slice::slice_index_get(bytes, i + 2);
                let b3 = *vstd::slice::slice_index_get(bytes, i + 3);
                proof {
                    assert(suffix[1] == bytes@[i + 1]);
                    assert(suffix[2] == bytes@[i + 2]);
                    assert(suffix[3] == bytes@[i + 3]);
                }
                if !(b1 >= 0x80 && b1 < 0xC0) || !(b2 >= 0x80 && b2 < 0xC0) || !(b3 >= 0x80 && b3
                    < 0xC0) {
                    proof {
                        assert(!vstd::utf8::valid_first_scalar(suffix));
                        assert(!vstd::utf8::valid_utf8(suffix));
                    }
                    return Err(DecodeError);
                }
                w = 4;
                u = (((b0 & 0x07) as u32) << 18u32) | (((b1 & 0x3F) as u32) << 12u32) | (((b2
                    & 0x3F) as u32) << 6u32) | ((b3 & 0x3F) as u32);
                proof {
                    assert(vstd::utf8::valid_leading_and_continuation_bytes_first_codepoint(
                        suffix,
                    ));
                    assert(vstd::utf8::decode_first_codepoint(suffix) == u);
                    assert(vstd::utf8::length_of_first_codepoint(suffix) == 4);
                }
                if u < 0x10000 || u > 0x10FFFF {
                    // overlong four-byte form, or past the scalar range
                    proof {
                        assert(!vstd::utf8::valid_first_scalar(suffix));
                        assert(!vstd::utf8::valid_utf8(suffix));
                    }
                    return Err(DecodeError);
                }
                proof {
                    assert(vstd::utf8::valid_first_scalar(suffix));
                    assert(vstd::utf8::is_scalar(u));
                }
            } else {
                // 0xF8 and above lead no encoded scalar
                proof {
                    assert(!vstd::utf8::valid_first_scalar(suffix));
                    assert(!vstd::utf8::valid_utf8(suffix));
                }
                return Err(DecodeError);
            }
            let ch = crate::codec::char_from_scalar(u).unwrap();
            proof {
                assert(vstd::utf8::decode_first_scalar(suffix) == u);
                assert(vstd::utf8::length_of_first_scalar(suffix) == w);
                vstd::utf8::char_u32_cast(ch, u);
                assert(vstd::utf8::pop_first_scalar(suffix) =~= bytes@.skip(i + w as int));
            }
            let ghost sb = s@;
            s.push(ch);
            i = i + w;
            proof {
                let suf2 = bytes@.skip(i as int);
                assert(vstd::utf8::valid_utf8(suffix) <==> (vstd::utf8::valid_first_scalar(suffix)
                    && vstd::utf8::valid_utf8(suf2)));
                if vstd::utf8::valid_utf8(suf2) {
                    assert(vstd::utf8::valid_utf8(suffix));
                    assert(vstd::utf8::decode_utf8(suffix) == seq![ch] + vstd::utf8::decode_utf8(
                        suf2,
                    ));
                    assert(sb + (seq![ch] + vstd::utf8::decode_utf8(suf2)) =~= s@
                        + vstd::utf8::decode_utf8(suf2));
                }
            }
        }
        proof {
            assert(bytes@.skip(n as int) =~= Seq::<u8>::empty());
            assert(vstd::utf8::valid_utf8(bytes@.skip(n as int)));
            assert(vstd::utf8::decode_utf8(bytes@.skip(n as int)) =~= Seq::<char>::empty());
            assert(s@ + Seq::<char>::empty() =~= s@);
        }
        Ok(s)
    }

    /// Wraps an already-decoded character vector without re-validation; the
    /// vector's characters become the sequence's elements.
    pub fn from_chars(chars: Vec<char>) -> (s: String2)
        ensures
            s.wf(),
            s@ == chars@,
    {
        let len = chars.len();
        let s = String2 { buf: chars, len };
        proof {
            assert(s@ =~= s.buf@);
        }
        s
    }

    /// Copies an already-decoded character slice into a new sequence without
    /// re-validation.
    pub fn from_char_slice(chars: &[char]) -> (s: String2)
        ensures
            s.wf(),
            s@ == chars@,
    {
        String2::from_chars(vstd::slice::slice_to_vec(chars))
    }

    /// Moves all characters of `other` onto the end of `self`, leaving
    /// `other` empty with its backing storage retained.
    pub fn append(&mut self, other: &mut String2)
        requires
            old(self).wf(),
            old(other).wf(),
            old(self)@.len() + old(other)@.len() <= usize::MAX,
        ensures
            final(self).wf(),
            final(other).wf(),
            final(self)@ == old(self)@ + old(other)@,
            final(other)@ == Seq::<char>::empty(),
            final(self).spec_capacity() >= old(self).spec_capacity(),
            final(other).spec_capacity() == old(other).spec_capacity(),
    {
        let n = other.len;
        let mut i: usize = 0;
        while i < n
            invariant
                i <= n,
                n == old(other)@.len(),
                *other == *old(other),
                other.wf(),
                n == other.len,
                self.wf(),
                old(self)@.len() + old(other)@.len() <= usize::MAX,
                self@ == old(self)@ + old(other)@.take(i as int),
                self.spec_capacity() >= old(self).spec_capacity(),
            decreases n - i,
        {
            proof {
                assert(other.buf@[i as int] == old(other)@[i as int]);
            }
            let c = other.buf[i];
            self.push(c);
            i = i + 1;
            proof {
                assert(self@ =~= old(self)@ + old(other)@.take(i as int));
            }
        }
        other.len = 0;
        assert(self@ =~= old(self)@ + old(other)@);
        assert(other@ =~= Seq::<char>::empty());
    }

    /// Consumes both sequences and yields their concatenation.
    pub fn add(self, other: String2) -> (s: String2)
        requires
            self.wf(),
            other.wf(),
            self@.len() + other@.len() <= usize::MAX,
        ensures
            s.wf(),
            s@ == self@ + other@,
    {
        let mut s = self;
        let mut o = other;
        s.append(&mut o);
        s
    }

    /// Consumes `other` and appends its characters in place.
    pub fn add_assign(&mut self, other: String2)
        requires
            old(self).wf(),
            other.wf(),
            old(self)@.len() + other@.len() <= usize::MAX,
        ensures
            final(self).wf(),
            final(self)@ == old(self)@ + other@,
    {
        let mut o = other;
        self.append(&mut o);
    }

    /// Copies the characters at positions `from` up to `to` into a new
    /// sequence.
    fn copy_range(&self, from: usize, to: usize) -> (s: String2)
        requires
            self.wf(),
            from <= to <= self@.len(),
        ensures
            s.wf(),
            s@ == self@.subrange(from as int, to as int),
            s.spec_capacity() == to - from,
    {
        let mut s = String2::with_capacity(to - from);
        let mut i: usize = from;
        while i < to
            invariant
                from <= i <= to <= self@.len(),
                self.wf(),
                s.wf(),
                s@ == self@.subrange(from as int, i as int),
                s.spec_capacity() == to - from,
            decreases to - i,
        {
            let c = self.buf[i];
            s.push(c);
            i = i + 1;
            proof {
                assert(s@ =~= self@.subrange(from as int, i as int));
            }
        }
        s
    }

    /// Removes and returns everything from position `at` onward as a new,
    /// independently owned sequence; `self` retains the characters before
    /// `at` and its backing storage.  The position must be at most the
    /// length.
    pub fn split_off(&mut self, at: usize) -> (tail: String2)
        requires
            old(self).wf(),
            at <= old(self)@.len(),
        ensures
            final(self).wf(),
            tail.wf(),
            final(self)@ == old(self)@.subrange(0, at as int),
            tail@ == old(self)@.subrange(at as int, old(self)@.len() as int),
            final(self).spec_capacity() == old(self).spec_capacity(),
    {
        let end = self.len;
        let tail = self.copy_range(at, end);
        self.len = at;
        assert(self@ =~= old(self)@.subrange(0, at as int));
        tail
    }

    /// Returns two new, independently owned copies of the characters before
    /// and from `mid`, leaving `self` unmodified.  The position must be at
    /// most the length.
    pub fn split_at(&self, mid: usize) -> (parts: (String2, String2))
        requires
            self.wf(),
            mid <= self@.len(),
        ensures
            parts.0.wf(),
            parts.1.wf(),
            parts.0@ == self@.subrange(0, mid as int),
            parts.1@ == self@.subrange(mid as int, self@.len() as int),
    {
        let end = self.len;
        (self.copy_range(0, mid), self.copy_range(mid, end))
    }

    /// Inserts every character of decoded `string` starting at position
    /// `idx`, shifting the tail right by the decoded length; the position
    /// must be at most the length.
    pub fn insert_str(&mut self, idx: usize, string: &str)
        requires
            old(self).wf(),
            idx <= old(self)@.len(),
            old(self)@.len() + string@.len() <= usize::MAX,
        ensures
            final(self).wf(),
            final(self)@ == old(self)@.subrange(0, idx as int) + string@ + old(self)@.subrange(
                idx as int,
                old(self)@.len() as int,
            ),
    {
        let mut tail = self.split_off(idx);
        self.push_str(string);
        self.append(&mut tail);
    }

    /// Borrows the elements as a character slice.
    pub fn as_slice(&self) -> (s: &[char])
        requires
            self.wf(),
        ensures
            s@ == self@,
    {
        vstd::slice::slice_subrange(self.buf.as_slice(), 0, self.len)
    }

    /// Consumes the sequence and yields its elements as a character vector.
    pub fn as_vec(self) -> (v: Vec<char>)
        requires
            self.wf(),
        ensures
            v@ == self@,
    {
        let mut v = self.buf;
        let n = self.len;
        v.truncate(n);
        v
    }

    /// Re-encodes the sequence into UTF-8 bytes, the exact encoded form that
    /// [`String2::to_text`] returns.
    pub fn as_bytes(&self) -> (bytes: Vec<u8>)
        requires
            self.wf(),
        ensures
            bytes@ == vstd::utf8::encode_utf8(self@),
    {
        let mut bytes: Vec<u8> = Vec::new();
        let n = self.len;
        let mut i: usize = 0;
        proof {
            assert(self@.take(0) =~= Seq::<char>::empty());
        }
        while i < n
            invariant
                i <= n,
                self.wf(),
                n == self@.len(),
                bytes@ == vstd::utf8::encode_utf8(self@.take(i as int)),
            decreases n - i,
        {
            let c = self.buf[i];
            crate::codec::push_encoded_char(&mut bytes, c);
            proof {
                crate::codec::lemma_encode_utf8_push(self@.take(i as int), c);
                assert(self@.take(i as int).push(c) =~= self@.take(i as int + 1));
            }
            i = i + 1;
        }
        proof {
            assert(self@.take(n as int) =~= self@);
        }
        bytes
    }

    /// Re-encodes the sequence back into standard UTF-8 text; the exact
    /// inverse of [`String2::from_text`].
    pub fn to_text(&self) -> (text: String)
        requires
            self.wf(),
        ensures
            text@ == self@,
    {
        let mut text = String::new();
        let n = self.len;
        let mut i: usize = 0;
        while i < n
            invariant
                i <= n,
                self.wf(),
                n == self@.len(),
                text@ == self@.take(i as int),
            decreases n - i,
        {
            let c = self.buf[i];
            crate::codec::string_push_char(&mut text, c);
            proof {
                assert(self@.take(i as int).push(c) =~= self@.take(i as int + 1));
            }
            i = i + 1;
        }
        proof {
            assert(self@.take(n as int) =~= self@);
        }
        text
    }

    /// Consumes the sequence and yields a lazy, one-shot iterator over its
    /// characters in order.
    pub fn iter(self) -> (it: crate::iter::StrIterator)
        requires
            self.wf(),
        ensures
            it.wf(),
            it@ == self@,
    {
        crate::iter::StrIterator::from_elems(self.as_vec())
    }

    /// Keeps exactly the characters for which the predicate returns true,
    /// preserving their relative order, in one stable pass; the backing
    /// storage is unaffected.
    ///
    /// The result is `filter_by(old(self)@, keep)` for some flag sequence
    /// `keep` in which every flag is an answer the predicate can give for
    /// the character at that position.
    pub fn retain<F: Fn(&char) -> bool>(&mut self, f: F)
        requires
            old(self).wf(),
            forall|c: char| #[trigger] call_requires(f, (&c,)),
        ensures
            final(self).wf(),
            final(self).spec_capacity() == old(self).spec_capacity(),
            exists|keep: Seq<bool>|
                {
                    &&& keep.len() == old(self)@.len()
                    &&& final(self)@ == #[trigger] filter_by(old(self)@, keep)
                    &&& forall|i: int|
                        0 <= i < keep.len() ==> call_ensures(f, (&old(self)@[i],), keep[i])
                },
    {
        let ghost orig = self@;
        let ghost mut keep: Seq<bool> = Seq::<bool>::empty();
        let n = self.len;
        let mut w: usize = 0;
        let mut r: usize = 0;
        proof {
            assert(filter_by(orig.take(0), keep) =~= self.buf@.take(0));
        }
        while r < n
            invariant
                w <= r <= n,
                self.len == n,
                n == orig.len(),
                orig == old(self)@,
                old(self).wf(),
                n <= self.buf@.len(),
                self.buf@.len() == old(self).spec_capacity(),
                keep.len() == r,
                self.buf@.take(w as int) == filter_by(orig.take(r as int), keep),
                forall|k: int| r <= k < self.buf@.len() ==> self.buf@[k] == old(self).buf@[k],
                forall|i: int| 0 <= i < r ==> call_ensures(f, (&orig[i],), keep[i]),
                forall|c: char| #[trigger] call_requires(f, (&c,)),
            decreases n - r,
        {
            proof {
                assert(self.buf@[r as int] == orig[r as int]);
                assert(orig.take(r as int + 1).drop_last() =~= orig.take(r as int));
                assert(orig.take(r as int + 1).last() == orig[r as int]);
            }
            let c = self.buf[r];
            let ghost kprev = keep;
            let ghost bufprev = self.buf@;
            if f(&c) {
                self.buf[w] = c;
                proof {
                    keep = kprev.push(true);
                    assert(keep.drop_last() =~= kprev);
                    assert(self.buf@.take(w as int + 1) =~= bufprev.take(w as int).push(c));
                    assert(self.buf@.take(w as int + 1) == filter_by(
                        orig.take(r as int + 1),
                        keep,
                    ));
                }
                w = w + 1;
            } else {
                proof {
                    keep = kprev.push(false);
                    assert(keep.drop_last() =~= kprev);
                    assert(self.buf@.take(w as int) == filter_by(orig.take(r as int + 1), keep));
                }
            }
            r = r + 1;
        }
        self.len = w;
        proof {
            assert(orig.take(n as int) =~= orig);
            assert(self@ =~= self.buf@.take(w as int));
            assert(keep.len() == old(self)@.len() && self@ == filter_by(old(self)@, keep) && (
            forall|i: int| 0 <= i < keep.len() ==> call_ensures(f, (&old(self)@[i],), keep[i])));
        }
    }

    /// Removes and returns the last character, or reports an empty sequence.
    pub fn pop(&mut self) -> (r: Option<char>)
        requires
            old(self).wf(),
        ensures
            final(self).wf(),
            final(self).spec_capacity() == old(self).spec_capacity(),
            old(self)@.len() == 0 ==> r is None && final(self)@ == old(self)@,
            old(self)@.len() > 0 ==> r == Some(old(self)@.last()) && final(self)@ == old(self)@.drop_last(),
    {
        if self.len == 0 {
            None
        } else {
            self.len = self.len - 1;
            let c = self.buf[self.len];
            assert(self@ =~= old(self)@.drop_last());
            Some(c)
        }
    }
}

/// Lexicographic order on character sequences: order by the first position
/// where the sequences differ, and a strict prefix before its extensions.
pub open spec fn lex_cmp(a: Seq<char>, b: Seq<char>) -> core::cmp::Ordering
    decreases a.len(),
{
    if a.len() == 0 && b.len() == 0 {
        core::cmp::Ordering::Equal
    } else if a.len() == 0 {
        core::cmp::Ordering::Less
    } else if b.len() == 0 {
        core::cmp::Ordering::Greater
    } else if (a[0] as u32) < (b[0] as u32) {
        core::cmp::Ordering::Less
    } else if (a[0] as u32) > (b[0] as u32) {
        core::cmp::Ordering::Greater
    } else {
        lex_cmp(a.drop_first(), b.drop_first())
    }
}

impl Clone for String2 {
    /// Returns an independently owned sequence with the same characters,
    /// sized to fit them exactly.
    fn clone(&self) -> (s: Self)
        ensures
            s.wf(),
            s@ == self@,
    {
        if self.len <= self.buf.len() {
            let s = self.copy_range(0, self.len);
            proof {
                assert(self@.subrange(0, self@.len() as int) =~= self@);
            }
            s
        } else {
            let n = self.buf.len();
            let mut s = String2::with_capacity(n);
            let mut i: usize = 0;
            while i < n
                invariant
                    i <= n,
                    n == self.buf@.len(),
                    n < self.len,
                    s.wf(),
                    s@ == self@.take(i as int),
                    s.spec_capacity() == n,
                decreases n - i,
            {
                let c = self.buf[i];
                s.push(c);
                i = i + 1;
                proof {
                    assert(s@ =~= self@.take(i as int));
                }
            }
            proof {
                assert(self@.take(n as int) =~= self@);
            }
            s
        }
    }
}

impl Default for String2 {
    /// The default sequence is empty, with no storage allocated.
    fn default() -> (s: String2)
        ensures
            s.wf(),
            s@ == Seq::<char>::empty(),
            s.spec_capacity() == 0,
    {
        String2::new()
    }
}

impl PartialEq for String2 {
    /// Two sequences are equal exactly when their character sequences are
    /// equal element-wise.
    fn eq(&self, other: &String2) -> (r: bool) {
        let n = if self.len <= self.buf.len() {
            self.len
        } else {
            self.buf.len()
        };
        let m = if other.len <= other.buf.len() {
            other.len
        } else {
            other.buf.len()
        };
        if n != m {
            proof {
                assert(self@.len() == n && other@.len() == m);
            }
            return false;
        }
        let mut i: usize = 0;
        while i < n
            invariant
                i <= n,
                n == self@.len(),
                n == other@.len(),
                forall|k: int| 0 <= k < i ==> self@[k] == other@[k],
            decreases n - i,
        {
            proof {
                assert(self@[i as int] == self.buf@[i as int]);
                assert(other@[i as int] == other.buf@[i as int]);
            }
            if self.buf[i] != other.buf[i] {
                return false;
            }
            i = i + 1;
        }
        proof {
            assert(self@ =~= other@);
        }
        true
    }
}

impl vstd::std_specs::cmp::PartialEqSpecImpl for String2 {
    open spec fn obeys_eq_spec() -> bool {
        true
    }

    open spec fn eq_spec(&self, other: &String2) -> bool {
        self@ == other@
    }
}

impl PartialOrd for String2 {
    /// Sequences are ordered lexicographically by scalar value, the same
    /// rule as ordering the underlying character sequences.
    fn partial_cmp(&self, other: &String2) -> (r: Option<core::cmp::Ordering>) {
        let n = if self.len <= self.buf.len() {
            self.len
        } else {
            self.buf.len()
        };
        let m = if other.len <= other.buf.len() {
            other.len
        } else {
            other.buf.len()
        };
        let mut i: usize = 0;
        proof {
            assert(self@.skip(0) =~= self@);
            assert(other@.skip(0) =~= other@);
        }
        while i < n && i < m
            invariant
                i <= n,
                i <= m,
                n == self@.len(),
                m == other@.len(),
                lex_cmp(self@, other@) == lex_cmp(self@.skip(i as int), other@.skip(i as int)),
            decreases n - i,
        {
            proof {
                assert(self@[i as int] == self.buf@[i as int]);
                assert(other@[i as int] == other.buf@[i as int]);
                assert(self@.skip(i as int)[0] == self@[i as int]);
                assert(other@.skip(i as int)[0] == other@[i as int]);
            }
            let a = self.buf[i] as u32;
            let b = other.buf[i] as u32;
            if a < b {
                return Some(core::cmp::Ordering::Less);
            }
            if a > b {
                return Some(core::cmp::Ordering::Greater);
            }
            proof {
                assert(self@.skip(i as int).drop_first() =~= self@.skip(i as int + 1));
                assert(other@.skip(i as int).drop_first() =~= other@.skip(i as int + 1));
            }
            i = i + 1;
        }
        proof {
            assert(self@.skip(i as int).len() == n - i);
            assert(other@.skip(i as int).len() == m - i);
        }
        if n == m {
            Some(core::cmp::Ordering::Equal)
        } else if n < m {
            Some(core::cmp::Ordering::Less)
        } else {
            Some(core::cmp::Ordering::Greater)
        }
    }
}

impl vstd::std_specs::cmp::PartialOrdSpecImpl for String2 {
    open spec fn obeys_partial_cmp_spec() -> bool {
        true
    }

    open spec fn partial_cmp_spec(&self, other: &String2) -> Option<core::cmp::Ordering> {
        Some(lex_cmp(self@, other@))
    }
}

} // verus!
