//! Fixed-length, zero-initialized storage with bounds-checked access.

use crate::cpu::Word;
use crate::utils::Indexable;
use vstd::prelude::*;

verus! {

/// `num::zero` at the word type: the additive identity of the words, 0.
#[verifier::external_body]
fn zero() -> (z: Word)
    ensures
        z == 0,
{
    num::zero::<Word>()
}

/// A row of words whose length is fixed when it is made.
pub struct Vector {
    vals: Vec<Word>,
}

impl View for Vector {
    type V = Seq<Word>;

    closed spec fn view(&self) -> Seq<Word> {
        self.vals@
    }
}

impl Vector {
    /// A row of `len` zeros.
    pub fn new(len: i32) -> (v: Vector)
        requires
            len >= 0,
        ensures
            v@ == Seq::new(len as nat, |i: int| 0i16),
    {
        let vals: Vec<Word> = vec![zero(); len as usize];
        assert(vals@ =~= Seq::new(len as nat, |i: int| 0i16));
        Vector { vals }
    }

    /// The number of words.
    pub fn len(&self) -> (n: usize)
        ensures
            n == self@.len(),
    {
        self.vals.len()
    }

    /// The word at `index`, or nothing where `index` lies outside the row.
    pub fn get<R: Indexable>(&self, index: R) -> (value: Option<Word>)
        ensures
            value == if index.position() < self@.len() {
                Some(self@[index.position() as int])
            } else {
                None
            },
    {
        let i = index.as_usize();
        if i < self.vals.len() {
            Some(self.vals[i])
        } else {
            None
        }
    }

    /// Stores `value` at `index` and answers `true`; where `index` lies
    /// outside the row, changes nothing and answers `false`.
    pub fn set<R: Indexable>(&mut self, index: R, value: Word) -> (stored: bool)
        ensures
            stored == (index.position() < old(self)@.len()),
            final(self)@ == if stored {
                old(self)@.update(index.position() as int, value)
            } else {
                old(self)@
            },
    {
        let i = index.as_usize();
        if i < self.vals.len() {
            self.vals.set(i, value);
            true
        } else {
            false
        }
    }

    /// The words, first to last.
    pub fn vals(&self) -> (vals: &Vec<Word>)
        ensures
            vals@ == self@,
    {
        &self.vals
    }
}

} // verus!
