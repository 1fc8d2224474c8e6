//! Flattening a sequence of sequences, from either end.
use vstd::prelude::*;
use std::collections::VecDeque;

verus! {

/// The concatenation of the views of `s`.
pub open spec fn concat<T>(s: Seq<VecDeque<T>>) -> Seq<T>
    decreases s.len(),
{
    if s.len() == 0 {
        Seq::empty()
    } else {
        s[0]@ + concat(s.drop_first())
    }
}

proof fn lemma_concat_last<T>(s: Seq<VecDeque<T>>)
    requires
        s.len() > 0,
    ensures
        concat(s) == concat(s.drop_last()) + s.last()@,
    decreases s.len(),
{
    if s.len() == 1 {
        assert(s.drop_first() =~= Seq::<VecDeque<T>>::empty());
        assert(s.drop_last() =~= Seq::<VecDeque<T>>::empty());
        assert(concat(s) =~= s[0]@);
    } else {
        lemma_concat_last(s.drop_first());
        assert(s.drop_first().drop_last() =~= s.drop_last().drop_first());
        assert(s.drop_first().last() == s.last());
        assert(concat(s) =~= concat(s.drop_last()) + s.last()@);
    }
}

/// The items of an outer sequence of inner sequences, in order, taken from
/// the front with `next` and from the back with `next_back`.
pub struct Flatten<T> {
    outer: VecDeque<VecDeque<T>>,
    front_iter: VecDeque<T>,
    back_iter: VecDeque<T>,
}

/// Flattens `iter`.
pub fn flatten<T>(iter: VecDeque<VecDeque<T>>) -> (r: Flatten<T>)
    ensures
        r@ == concat(iter@),
{
    Flatten::new(iter)
}

impl<T> View for Flatten<T> {
    type V = Seq<T>;

    /// The items not yet taken.
    closed spec fn view(&self) -> Seq<T> {
        self.front_iter@ + concat(self.outer@) + self.back_iter@
    }
}

impl<T> Flatten<T> {
    pub fn new(iter: VecDeque<VecDeque<T>>) -> (r: Self)
        ensures
            r@ == concat(iter@),
    {
        let r = Flatten { outer: iter, front_iter: VecDeque::new(), back_iter: VecDeque::new() };
        assert(r@ =~= concat(iter@));
        r
    }

    /// Takes the first item left.
    pub fn next(&mut self) -> (r: Option<T>)
        ensures
            old(self)@.len() == 0 ==> r is None && final(self)@ == old(self)@,
            old(self)@.len() > 0 ==> r == Some(old(self)@[0]) && final(self)@ == old(self)@.drop_first(),
    {
        loop
            invariant
                self@ == old(self)@,
            decreases self.outer@.len(),
        {
            if self.front_iter.len() > 0 {
                let ghost before = self@;
                let v = self.front_iter.pop_front();
                assert(self@ =~= before.drop_first());
                return v;
            }
            let ghost before = self@;
            let ghost outer_before = self.outer@;
            match self.outer.pop_front() {
                Some(inner) => {
                    assert(outer_before.drop_first() =~= self.outer@);
                    assert(self.front_iter@ =~= Seq::<T>::empty());
                    self.front_iter = inner;
                    assert(self@ =~= before);
                },
                None => {
                    assert(before =~= self.back_iter@);
                    let v = self.back_iter.pop_front();
                    assert(self@ =~= if before.len() > 0 { before.drop_first() } else { before });
                    return v;
                },
            }
        }
    }

    /// Takes the last item left.
    pub fn next_back(&mut self) -> (r: Option<T>)
        ensures
            old(self)@.len() == 0 ==> r is None && final(self)@ == old(self)@,
            old(self)@.len() > 0 ==> r == Some(old(self)@.last()) && final(self)@ == old(self)@.drop_last(),
    {
        loop
            invariant
                self@ == old(self)@,
            decreases self.outer@.len(),
        {
            if self.back_iter.len() > 0 {
                let ghost before = self@;
                let v = self.back_iter.pop_back();
                assert(self@ =~= before.drop_last());
                return v;
            }
            let ghost outer_before = self.outer@;
            let ghost before = self@;
            match self.outer.pop_back() {
                Some(inner) => {
                    assert(self.back_iter@ =~= Seq::<T>::empty());
                    proof {
                        lemma_concat_last(outer_before);
                        assert(outer_before.drop_last() =~= self.outer@);
                    }
                    self.back_iter = inner;
                    assert(self@ =~= before);
                },
                None => {
                    assert(before =~= self.front_iter@);
                    let v = self.front_iter.pop_back();
                    assert(self@ =~= if before.len() > 0 { before.drop_last() } else { before });
                    return v;
                },
            }
        }
    }
}

} // verus!
