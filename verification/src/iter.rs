//! A lazy, one-shot consuming iterator over a character sequence.

use vstd::prelude::*;

verus! {

/// Yields the characters of a consumed [`crate::String2`] in order, one per
/// call to [`StrIterator::next`].
pub struct StrIterator {
    /// The characters handed over by the sequence.
    elems: Vec<char>,
    /// Number of characters already yielded.
    pos: usize,
}

impl View for StrIterator {
    type V = Seq<char>;

    closed spec fn view(&self) -> Seq<char> {
        self.elems@.skip(self.pos as int)
    }
}

impl StrIterator {
    /// The yielded prefix never outruns the characters handed over.
    pub closed spec fn wf(&self) -> bool {
        self.pos <= self.elems@.len()
    }

    /// Wraps the given characters as an iterator that has yielded none yet.
    pub(crate) fn from_elems(elems: Vec<char>) -> (it: StrIterator)
        ensures
            it.wf(),
            it@ == elems@,
    {
        let it = StrIterator { elems, pos: 0 };
        proof {
            assert(it@ =~= it.elems@);
        }
        it
    }

    /// Produces the next character in order, or reports that none remain.
    pub fn next(&mut self) -> (r: Option<char>)
        requires
            old(self).wf(),
        ensures
            final(self).wf(),
            old(self)@.len() == 0 ==> r is None && final(self)@ == old(self)@,
            old(self)@.len() > 0 ==> r == Some(old(self)@[0]) && final(self)@ == old(
                self,
            )@.drop_first(),
    {
        if self.pos < self.elems.len() {
            let c = self.elems[self.pos];
            self.pos = self.pos + 1;
            assert(self@ =~= old(self)@.drop_first());
            Some(c)
        } else {
            None
        }
    }
}

} // verus!
