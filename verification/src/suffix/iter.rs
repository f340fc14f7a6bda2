use vstd::prelude::*;
use vstd::slice::slice_subrange;
use vstd::std_specs::cmp::{PartialEqSpec, PartialEqSpecImpl};
use vstd::std_specs::convert::FromSpecImpl;
use vstd::string::StringSliceAdditionalSpecFns;
use crate::suffix::laws::suffixes;
use crate::suffix::utf8::{
    leading_count, leads_scalar, lemma_encode_first, lemma_encode_injective,
    lemma_encode_len_bounds, lemma_first_boundary, lemma_leading_count_encode, scalar_width,
};

verus! {

/// A cursor over the suffixes of a UTF-8 string (`&str`) or of an arbitrary
/// slice (`&[T]`).
///
/// The cursor borrows its input and holds nothing but the suffix that it
/// will hand out next.
#[derive(Clone, Copy, Debug, Eq, PartialOrd, Ord)]
pub struct SuffixIter<'a, S: ?Sized> {
    suffix: &'a S,
}

impl<'a, S: ?Sized> SuffixIter<'a, S> {
    /// The suffix that the next step hands out, unless it is empty.
    pub closed spec fn remaining(self) -> &'a S {
        self.suffix
    }

    /// Creates a new instance from `suffix`, treating it as the first suffix
    /// if it is non-empty.
    pub fn new(suffix: &'a S) -> (r: Self)
        ensures
            r.remaining() == suffix,
    {
        Self { suffix }
    }
}

impl<'a, S: ?Sized + PartialEq> PartialEq for SuffixIter<'a, S> {
    /// Two cursors are equal when what is left of their inputs is equal.
    fn eq(&self, other: &Self) -> (r: bool) {
        self.suffix == other.suffix
    }
}

impl<'a, S: ?Sized + PartialEq> PartialEqSpecImpl for SuffixIter<'a, S> {
    open spec fn obeys_eq_spec() -> bool {
        S::obeys_eq_spec()
    }

    open spec fn eq_spec(&self, other: &Self) -> bool {
        self.remaining().eq_spec(other.remaining())
    }
}

impl<'a, S: ?Sized> From<&'a S> for SuffixIter<'a, S> {
    fn from(suffix: &'a S) -> (r: Self)
        ensures
            r.remaining() == suffix,
    {
        Self { suffix }
    }
}

impl<'a, S: ?Sized> FromSpecImpl<&'a S> for SuffixIter<'a, S> {
    open spec fn obeys_from_spec() -> bool {
        true
    }

    closed spec fn from_spec(suffix: &'a S) -> Self {
        SuffixIter { suffix }
    }
}

impl<'a> View for SuffixIter<'a, str> {
    type V = Seq<char>;

    /// The scalar values of the text that is left.
    open spec fn view(&self) -> Seq<char> {
        self.remaining()@
    }
}

impl<'a> SuffixIter<'a, str> {
    /// Hands out the text that is left and drops its first scalar value, or
    /// reports the end once nothing is left.
    pub fn next(&mut self) -> (r: Option<&'a str>)
        ensures
            old(self)@.len() == 0 ==> r.is_none() && *final(self) == *old(self),
            old(self)@.len() > 0 ==> {
                let bytes = old(self).remaining().spec_bytes();
                let width = scalar_width(old(self)@[0]) as int;
                &&& r == Some(old(self).remaining())
                &&& final(self)@ == old(self)@.drop_first()
                &&& 1 <= width <= 4
                &&& width <= bytes.len()
                &&& final(self).remaining().spec_bytes() == bytes.skip(width)
            },
    {
        let s: &'a str = self.suffix;
        if s.is_empty() {
            return None;
        }
        proof {
            lemma_encode_first(s@);
            lemma_first_boundary(s@);
        }
        let next_index: usize = if s.is_char_boundary(1) {
            1
        } else if s.is_char_boundary(2) {
            2
        } else if s.is_char_boundary(3) {
            3
        } else {
            4
        };
        assert(next_index == scalar_width(s@[0]));
        let (_, rest) = s.split_at(next_index);
        proof {
            lemma_encode_injective(rest@, s@.drop_first());
        }
        self.suffix = rest;
        Some(s)
    }

    /// Runs the cursor to its end and returns every suffix that it handed
    /// out, in order.
    pub fn collect(self) -> (r: Vec<&'a str>)
        ensures
            r@.len() == self@.len(),
            forall|i: int| 0 <= i < r@.len() ==> (#[trigger] r@[i])@ == self@.skip(i),
            r@.map_values(|s: &'a str| s@) == suffixes(self@),
    {
        let ghost all = self@;
        let mut cursor = self;
        assert(all.skip(0) =~= all);
        let mut out: Vec<&'a str> = Vec::new();
        loop
            invariant
                out@.len() <= all.len(),
                cursor@ == all.skip(out@.len() as int),
                forall|i: int| 0 <= i < out@.len() ==> (#[trigger] out@[i])@ == all.skip(i),
            ensures
                out@.len() == all.len(),
            decreases cursor@.len(),
        {
            match cursor.next() {
                Some(s) => {
                    assert(all.skip(out@.len() as int).drop_first() =~= all.skip(
                        out@.len() as int + 1,
                    ));
                    out.push(s);
                },
                None => {
                    break ;
                },
            }
        }
        assert(out@.map_values(|s: &'a str| s@) =~= suffixes(all));
        out
    }

    /// Bounds on the number of suffixes still to come, from the byte length
    /// alone: a scalar value takes at most four bytes and at least one.
    pub fn size_hint(&self) -> (r: (usize, Option<usize>))
        ensures
            r.0 == (self.remaining().spec_bytes().len() + 3) / 4,
            r.1 == Some(self.remaining().spec_bytes().len() as usize),
            self.remaining().spec_bytes().len() <= usize::MAX,
            r.0 <= self@.len() <= r.1.unwrap(),
    {
        let len: usize = self.suffix.as_bytes().len();
        proof {
            lemma_encode_len_bounds(self.suffix@);
        }
        let lower: usize = if len % 4 == 0 {
            len / 4
        } else {
            len / 4 + 1
        };
        (lower, Some(len))
    }

    /// The number of suffixes still to come, which is the number of scalar
    /// values left, found by counting the scalar-leading bytes.
    pub fn count(self) -> (r: usize)
        ensures
            r == self@.len(),
            r == leading_count(self.remaining().spec_bytes()),
    {
        let bytes: &[u8] = self.suffix.as_bytes();
        let mut n: usize = 0;
        let mut i: usize = 0;
        while i < bytes.len()
            invariant
                i <= bytes@.len(),
                n <= i,
                n == leading_count(bytes@.subrange(0, i as int)),
            decreases bytes@.len() - i,
        {
            assert(bytes@.subrange(0, i + 1).drop_last() =~= bytes@.subrange(0, i as int));
            if leads_scalar(bytes[i]) {
                n = n + 1;
            }
            i = i + 1;
        }
        proof {
            assert(bytes@.subrange(0, i as int) =~= bytes@);
            lemma_leading_count_encode(self.suffix@);
        }
        n
    }
}

impl<'a, T> View for SuffixIter<'a, [T]> {
    type V = Seq<T>;

    /// The elements that are left.
    open spec fn view(&self) -> Seq<T> {
        self.remaining()@
    }
}

impl<'a, T> SuffixIter<'a, [T]> {
    /// Hands out the elements that are left and drops the first of them, or
    /// reports the end once nothing is left.
    pub fn next(&mut self) -> (r: Option<&'a [T]>)
        ensures
            old(self)@.len() == 0 ==> r.is_none() && *final(self) == *old(self),
            old(self)@.len() > 0 ==> r == Some(old(self).remaining())
                && final(self)@ == old(self)@.drop_first(),
    {
        let s: &'a [T] = self.suffix;
        if s.len() < 1 {
            return None;
        }
        self.suffix = slice_subrange(s, 1, s.len());
        Some(s)
    }

    /// Runs the cursor to its end and returns every suffix that it handed
    /// out, in order.
    pub fn collect(self) -> (r: Vec<&'a [T]>)
        ensures
            r@.len() == self@.len(),
            forall|i: int| 0 <= i < r@.len() ==> (#[trigger] r@[i])@ == self@.skip(i),
            r@.map_values(|s: &'a [T]| s@) == suffixes(self@),
    {
        let ghost all = self@;
        let mut cursor = self;
        assert(all.skip(0) =~= all);
        let mut out: Vec<&'a [T]> = Vec::new();
        loop
            invariant
                out@.len() <= all.len(),
                cursor@ == all.skip(out@.len() as int),
                forall|i: int| 0 <= i < out@.len() ==> (#[trigger] out@[i])@ == all.skip(i),
            ensures
                out@.len() == all.len(),
            decreases cursor@.len(),
        {
            match cursor.next() {
                Some(s) => {
                    assert(all.skip(out@.len() as int).drop_first() =~= all.skip(
                        out@.len() as int + 1,
                    ));
                    out.push(s);
                },
                None => {
                    break ;
                },
            }
        }
        assert(out@.map_values(|s: &'a [T]| s@) =~= suffixes(all));
        out
    }

    /// The exact number of suffixes still to come, as both bounds.
    pub fn size_hint(&self) -> (r: (usize, Option<usize>))
        ensures
            r.0 == self@.len(),
            r.1 == Some(r.0),
    {
        (self.suffix.len(), Some(self.suffix.len()))
    }

    /// The number of suffixes still to come.
    pub fn count(self) -> (r: usize)
        ensures
            r == self@.len(),
    {
        self.len()
    }

    /// The number of suffixes still to come: one for each element left.
    pub fn len(&self) -> (r: usize)
        ensures
            r == self@.len(),
    {
        self.suffix.len()
    }
}

} // verus!
