//! Helpers for exercising the parsers: selections of positions at which a
//! text can be varied.
use vstd::prelude::*;

verus! {

/// Walks over the elements of a vector, one at a time.
pub struct CombinationIter<'a, T> {
    iterable: &'a Vec<T>,
    r: usize,
    n: usize,
}

impl<'a, T> CombinationIter<'a, T> {
    /// The elements that are still to come.
    pub closed spec fn remaining(&self) -> Seq<T> {
        if self.n <= self.iterable@.len() {
            self.iterable@.skip(self.n as int)
        } else {
            Seq::empty()
        }
    }

    /// The number that the walk was made with.
    pub closed spec fn width(&self) -> usize {
        self.r
    }

    /// A walk over all the elements of `iterable`.
    pub fn new(iterable: &'a Vec<T>, a: usize) -> (it: Self)
        ensures
            it.remaining() == iterable@,
            it.width() == a,
    {
        let it = CombinationIter { iterable, r: a, n: 0 };
        assert(iterable@.skip(0) =~= iterable@);
        it
    }

    /// The next element, or nothing once every element has been handed out.
    pub fn next(&mut self) -> (item: Option<&'a T>)
        ensures
            final(self).width() == old(self).width(),
            match item {
                Some(x) => {
                    &&& old(self).remaining().len() > 0
                    &&& *x == old(self).remaining()[0]
                    &&& final(self).remaining() == old(self).remaining().skip(1)
                },
                None => old(self).remaining().len() == 0 && final(self).remaining().len() == 0,
            },
    {
        if self.n < self.iterable.len() {
            let x = &self.iterable[self.n];
            self.n += 1;
            assert(final(self).remaining() =~= old(self).remaining().skip(1));
            Some(x)
        } else {
            None
        }
    }
}

/// Every selection with `x` put before it.
pub open spec fn with_first<T>(x: T, rest: Seq<Seq<T>>) -> Seq<Seq<T>> {
    Seq::new(rest.len(), |i: int| seq![x] + rest[i])
}

/// All selections of `r` elements of `s` that keep the order of `s`: first
/// those that hold the first element, then those that do not, each group in
/// the same order.
pub open spec fn selections<T>(s: Seq<T>, r: nat) -> Seq<Seq<T>>
    decreases s.len(),
{
    if r == 0 {
        seq![Seq::empty()]
    } else if s.len() < r {
        Seq::empty()
    } else {
        with_first(s[0], selections(s.skip(1), (r - 1) as nat)) + selections(s.skip(1), r)
    }
}

/// The selections that a vector of vectors holds.
pub open spec fn rows<T>(v: Vec<Vec<T>>) -> Seq<Seq<T>> {
    Seq::new(v@.len(), |i: int| v@[i]@)
}

/// All selections of `r` elements among those at and after position `from`.
fn combinations_from<T: Copy>(elements: &Vec<T>, from: usize, r: usize) -> (out: Vec<Vec<T>>)
    requires
        from <= elements@.len(),
    ensures
        rows(out) == selections(elements@.skip(from as int), r as nat),
    decreases elements@.len() - from,
{
    let ghost s = elements@.skip(from as int);
    let mut out: Vec<Vec<T>> = Vec::new();
    if r == 0 {
        out.push(Vec::new());
        assert(rows(out) =~= seq![Seq::<T>::empty()]);
        return out;
    }
    if elements.len() - from < r {
        assert(rows(out) =~= Seq::<Seq<T>>::empty());
        return out;
    }
    assert(s.skip(1) =~= elements@.skip(from + 1));
    let first = elements[from];
    let with = combinations_from(elements, from + 1, r - 1);
    let without = combinations_from(elements, from + 1, r);
    let ghost head = with_first(first, rows(with));
    let mut i: usize = 0;
    while i < with.len()
        invariant
            i <= with.len(),
            head == with_first(first, rows(with)),
            rows(out) == head.take(i as int),
        decreases with.len() - i,
    {
        let mut row: Vec<T> = Vec::new();
        row.push(first);
        let tail = &with[i];
        let mut k: usize = 0;
        while k < tail.len()
            invariant
                k <= tail.len(),
                row@ == seq![first] + tail@.take(k as int),
            decreases tail.len() - k,
        {
            row.push(tail[k]);
            k += 1;
            assert(row@ =~= seq![first] + tail@.take(k as int));
        }
        assert(tail@.take(tail.len() as int) =~= tail@);
        let ghost before = rows(out);
        out.push(row);
        assert(rows(out) =~= before.push(row@));
        assert(head[i as int] == seq![first] + rows(with)[i as int]);
        i += 1;
        assert(head.take(i as int) =~= head.take(i - 1).push(head[i - 1]));
    }
    assert(head.take(with.len() as int) =~= head);
    let mut j: usize = 0;
    while j < without.len()
        invariant
            j <= without.len(),
            rows(out) == head + rows(without).take(j as int),
        decreases without.len() - j,
    {
        let source = &without[j];
        let mut row: Vec<T> = Vec::new();
        let mut k: usize = 0;
        while k < source.len()
            invariant
                k <= source.len(),
                row@ == source@.take(k as int),
            decreases source.len() - k,
        {
            row.push(source[k]);
            k += 1;
            assert(row@ =~= source@.take(k as int));
        }
        assert(source@.take(source.len() as int) =~= source@);
        let ghost before = rows(out);
        out.push(row);
        assert(rows(out) =~= before.push(row@));
        assert(rows(without)[j as int] == source@);
        j += 1;
        assert(rows(without).take(j as int) =~= rows(without).take(j - 1).push(source@));
        assert(rows(out) =~= head + rows(without).take(j as int));
    }
    assert(rows(without).take(without.len() as int) =~= rows(without));
    out
}

/// All selections of `r` elements of `elements` that keep their order.
pub fn combinations<T: Copy>(elements: Vec<T>, r: usize) -> (out: Vec<Vec<T>>)
    ensures
        rows(out) == selections(elements@, r as nat),
{
    assert(elements@.skip(0) =~= elements@);
    combinations_from(&elements, 0, r)
}

} // verus!
