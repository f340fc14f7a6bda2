//! What the suffix cursors hand out, as a sequence, and the laws that hold
//! of it.

use vstd::prelude::*;
use vstd::string::StringSliceAdditionalSpecFns;
use vstd::utf8::encode_utf8;
use crate::suffix::utf8::{
    leading_count, lemma_encode_first, lemma_encode_len_bounds, lemma_leading_count_encode,
    scalar_width,
};

verus! {

/// The non-empty suffixes of `v`, longest first: what a cursor over `v`
/// hands out, step by step, before it reports the end.
pub open spec fn suffixes<A>(v: Seq<A>) -> Seq<Seq<A>> {
    Seq::new(v.len(), |i: int| v.skip(i))
}

/// Stepping yields the whole input first and then the suffixes of what is
/// left once the first unit is dropped; an empty input yields nothing.
pub proof fn lemma_suffixes_step<A>(v: Seq<A>)
    ensures
        v.len() == 0 ==> suffixes(v) == Seq::<Seq<A>>::empty(),
        v.len() > 0 ==> suffixes(v) == seq![v] + suffixes(v.drop_first()),
{
    if v.len() > 0 {
        let rest = v.drop_first();
        assert forall|i: int| 0 <= i < v.len() implies #[trigger] suffixes(v)[i] == (seq![v]
            + suffixes(rest))[i] by {
            if i == 0 {
                assert(v.skip(0) =~= v);
            } else {
                assert(v.skip(i) =~= rest.skip(i - 1));
            }
        }
        assert(suffixes(v) =~= seq![v] + suffixes(rest));
    } else {
        assert(suffixes(v) =~= Seq::<Seq<A>>::empty());
    }
}

/// A cursor over `n` units hands out exactly `n` suffixes. The first is the
/// whole input, each is one unit shorter than the one before, and the last
/// holds a single unit.
pub proof fn lemma_suffixes_lengths<A>(v: Seq<A>)
    ensures
        suffixes(v).len() == v.len(),
        forall|i: int| 0 <= i < v.len() ==> (#[trigger] suffixes(v)[i]).len() == v.len() - i,
        v.len() > 0 ==> suffixes(v)[0] == v && suffixes(v).last().len() == 1,
{
    if v.len() > 0 {
        assert(v.skip(0) =~= v);
    }
}

/// Counting the suffixes of a text one step at a time gives the number of
/// its scalar values, and so does counting the scalar-leading bytes of its
/// encoding.
pub proof fn lemma_count_agrees_with_steps(s: &str)
    ensures
        suffixes(s@).len() == s@.len(),
        leading_count(s.spec_bytes()) == s@.len(),
        leading_count(s.spec_bytes()) == suffixes(s@).len(),
{
    lemma_leading_count_encode(s@);
}

/// Each suffix of a text is shorter in bytes than the one before it by the
/// width of the scalar value that was dropped, which is between one and four
/// bytes; the last suffix is as long as the last scalar value is wide.
pub proof fn lemma_text_lengths_decrease(s: &str, i: int)
    requires
        0 <= i < s@.len(),
    ensures
        1 <= scalar_width(s@[i]) <= 4,
        encode_utf8(suffixes(s@)[i]).len() == scalar_width(s@[i]) + encode_utf8(
            s@.skip(i + 1),
        ).len(),
        i + 1 < s@.len() ==> suffixes(s@)[i + 1] == s@.skip(i + 1) && encode_utf8(
            suffixes(s@)[i + 1],
        ).len() < encode_utf8(suffixes(s@)[i]).len(),
        i + 1 == s@.len() ==> encode_utf8(suffixes(s@)[i]).len() == scalar_width(s@[i]),
{
    let tail = s@.skip(i);
    lemma_encode_first(tail);
    assert(tail.drop_first() =~= s@.skip(i + 1));
    if i + 1 == s@.len() {
        assert(s@.skip(i + 1) =~= Seq::<char>::empty());
    }
}

/// The byte length of a text brackets the number of its scalar values: a
/// quarter of it, rounded up, is at most that number, which is at most the
/// byte length itself.
pub proof fn lemma_size_hint_brackets(s: &str)
    ensures
        (s.spec_bytes().len() + 3) / 4 <= s@.len() <= s.spec_bytes().len(),
{
    lemma_encode_len_bounds(s@);
}

} // verus!
