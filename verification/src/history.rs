//! Rolling history of the most recent values, bounded by a capacity.

use vstd::prelude::*;

verus! {

/// The most recent `capacity` values added, oldest first.
pub struct PriceHistory<T> {
    prices: Vec<T>,
    capacity: usize,
}

/// The last `cap` elements of `xs` (all of them when there are fewer).
pub open spec fn last_window<T>(xs: Seq<T>, cap: nat) -> Seq<T> {
    if xs.len() <= cap {
        xs
    } else {
        xs.subrange(xs.len() - cap, xs.len() as int)
    }
}

/// Contents after appending `x` to contents `h` under capacity `cap`.
pub open spec fn push_bounded<T>(h: Seq<T>, x: T, cap: nat) -> Seq<T> {
    if h.len() + 1 > cap {
        h.push(x).drop_first()
    } else {
        h.push(x)
    }
}

impl<T> View for PriceHistory<T> {
    type V = Seq<T>;

    closed spec fn view(&self) -> Seq<T> {
        self.prices@
    }
}

impl<T> PriceHistory<T> {
    #[verifier::type_invariant]
    spec fn inv(self) -> bool {
        self.prices@.len() <= self.capacity
    }

    /// The capacity the history was made with.
    pub closed spec fn spec_capacity(&self) -> nat {
        self.capacity as nat
    }

    /// An empty history that keeps at most `capacity` values.
    pub fn new(capacity: usize) -> (h: Self)
        ensures
            h@ == Seq::<T>::empty(),
            h.spec_capacity() == capacity,
    {
        PriceHistory { prices: Vec::with_capacity(capacity), capacity }
    }

    /// Appends `price`, dropping the oldest value when the capacity is exceeded.
    pub fn add_price(&mut self, price: T)
        ensures
            final(self)@ == push_bounded(old(self)@, price, old(self).spec_capacity()),
            final(self).spec_capacity() == old(self).spec_capacity(),
            final(self)@.len() <= final(self).spec_capacity(),
    {
        proof {
            use_type_invariant(&*self);
        }
        let ghost before = self.prices@;
        let mut prices: Vec<T> = Vec::new();
        std::mem::swap(&mut prices, &mut self.prices);
        prices.push(price);
        if prices.len() > self.capacity {
            prices.remove(0);
            assert(prices@ =~= before.push(price).drop_first());
        }
        self.prices = prices;
    }

    /// The values held, oldest first.
    pub fn get_prices(&self) -> (r: &[T])
        ensures
            r@ == self@,
    {
        self.prices.as_slice()
    }

    /// Number of values held; never more than the capacity.
    pub fn len(&self) -> (n: usize)
        ensures
            n == self@.len(),
            n <= self.spec_capacity(),
    {
        proof {
            use_type_invariant(self);
        }
        self.prices.len()
    }

    pub fn is_empty(&self) -> (b: bool)
        ensures
            b == (self@.len() == 0),
    {
        self.prices.len() == 0
    }

    /// Forgets every value; the capacity stays.
    pub fn clear(&mut self)
        ensures
            final(self)@ == Seq::<T>::empty(),
            final(self).spec_capacity() == old(self).spec_capacity(),
    {
        let mut prices: Vec<T> = Vec::new();
        std::mem::swap(&mut prices, &mut self.prices);
        prices.clear();
        self.prices = prices;
    }
}

/// Law: a history that holds the window of a stream keeps holding the window
/// as values arrive; from an empty history, after adding `xs` it holds the
/// last `capacity` values of `xs`.
pub proof fn lemma_history_is_last_window<T>(xs: Seq<T>, x: T, cap: nat)
    ensures
        push_bounded(last_window(xs, cap), x, cap) =~= last_window(xs.push(x), cap),
{
    let w = last_window(xs, cap);
    let ys = xs.push(x);
    if xs.len() < cap {
        assert(w =~= xs);
    } else if xs.len() == cap {
        assert(w =~= xs);
        if cap > 0 {
            assert(ys.subrange(ys.len() - cap, ys.len() as int) =~= ys.drop_first());
        } else {
            assert(ys.subrange(ys.len() - cap, ys.len() as int) =~= Seq::<T>::empty());
            assert(w.push(x).drop_first() =~= Seq::<T>::empty());
        }
    } else {
        assert(w.push(x).drop_first() =~= ys.subrange(ys.len() - cap, ys.len() as int));
    }
}

/// Law, stated over whole streams: adding the values of `xs` one by one to an
/// empty history with capacity `cap` leaves exactly the last `cap` of them.
pub open spec fn fill_history<T>(xs: Seq<T>, cap: nat) -> Seq<T>
    decreases xs.len(),
{
    if xs.len() == 0 {
        Seq::empty()
    } else {
        push_bounded(fill_history(xs.drop_last(), cap), xs.last(), cap)
    }
}

pub proof fn lemma_fill_history_keeps_last<T>(xs: Seq<T>, cap: nat)
    ensures
        fill_history(xs, cap) =~= last_window(xs, cap),
    decreases xs.len(),
{
    if xs.len() > 0 {
        lemma_fill_history_keeps_last(xs.drop_last(), cap);
        lemma_history_is_last_window(xs.drop_last(), xs.last(), cap);
        assert(xs.drop_last().push(xs.last()) =~= xs);
    } else {
        assert(last_window(xs, cap) =~= Seq::<T>::empty());
    }
}

} // verus!
