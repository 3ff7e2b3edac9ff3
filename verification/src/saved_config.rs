//! The configuration values that are kept in memory while the flash chip is erased.
use vstd::prelude::*;

verus! {

/// A configuration key's name and its value.
pub type Pair = (&'static str, u64);

/// `heapless::Vec`, a vector with room for `N` items and no heap memory.
#[verifier::external_type_specification]
#[verifier::external_body]
#[verifier::reject_recursive_types(T)]
pub struct ExHeaplessVec<T, const N: usize>(heapless::Vec<T, N>);

/// `heapless::Vec::as_slice`: the pairs held, from the first pushed to the last.
///
/// What it returns is spoken of through [`holds`].
#[verifier::external_body]
fn vec_slice<const N: usize>(vec: &heapless::Vec<Pair, N>) -> (slice: &[Pair]) {
    vec.as_slice()
}

/// `pairs` is what `heapless::Vec::as_slice` gives for `vec`.
spec fn holds<const N: usize>(vec: &heapless::Vec<Pair, N>, pairs: Seq<Pair>) -> bool {
    forall|slice: &[Pair]| #[trigger]
        call_ensures(vec_slice::<N>, (vec,), slice) ==> slice@ == pairs
}

/// `heapless::Vec::new`: the vector holds nothing.
#[verifier::external_body]
fn vec_new<const N: usize>() -> (vec: heapless::Vec<Pair, N>)
    ensures
        holds(&vec, Seq::empty()),
{
    heapless::Vec::new()
}

/// `heapless::Vec::push`: adds the pair at the end if fewer than `N` are held; otherwise gives the
/// pair back and changes nothing.
#[verifier::external_body]
fn vec_push<const N: usize>(vec: &mut heapless::Vec<Pair, N>, pair: Pair) -> (result: Result<
    (),
    Pair,
>)
    ensures
        forall|pairs: Seq<Pair>| #[trigger]
            holds(old(vec), pairs) ==> if pairs.len() < N {
                &&& result == Ok::<(), Pair>(())
                &&& holds(final(vec), pairs.push(pair))
            } else {
                &&& result == Err::<(), Pair>(pair)
                &&& holds(final(vec), pairs)
            },
{
    vec.push(pair)
}

/// Pairs of configuration keys' names and their values, at most `N`, in a buffer of fixed size.
pub struct SavedConfig<const N: usize> {
    vec: heapless::Vec<Pair, N>,
    pairs: Ghost<Seq<Pair>>,
}

impl<const N: usize> View for SavedConfig<N> {
    type V = Seq<Pair>;

    /// The pairs, from the first saved to the last.
    closed spec fn view(&self) -> Seq<Pair> {
        self.pairs@
    }
}

impl<const N: usize> SavedConfig<N> {
    #[verifier::type_invariant]
    spec fn wf(self) -> bool {
        holds(&self.vec, self.pairs@)
    }

    /// No pairs.
    pub fn new() -> (saved: Self)
        ensures
            saved@ == Seq::<Pair>::empty(),
    {
        SavedConfig { vec: vec_new(), pairs: Ghost(Seq::empty()) }
    }

    /// With the pair at the end if fewer than `N` are held, and unchanged otherwise.
    pub fn with(self, pair: Pair) -> (saved: Self)
        ensures
            saved@ == if self@.len() < N {
                self@.push(pair)
            } else {
                self@
            },
    {
        proof {
            use_type_invariant(&self);
        }
        let SavedConfig { vec, pairs } = self;
        let mut vec = vec;
        match vec_push(&mut vec, pair) {
            Ok(()) => SavedConfig { vec, pairs: Ghost(pairs@.push(pair)) },
            Err(_) => SavedConfig { vec, pairs },
        }
    }

    /// The pairs, from the first saved to the last.
    pub fn as_slice(&self) -> (slice: &[Pair])
        ensures
            slice@ == self@,
    {
        proof {
            use_type_invariant(self);
        }
        vec_slice(&self.vec)
    }
}

/// Saved one after the other, the first `N` pairs are kept, in order and unchanged.
pub proof fn law_pairs_are_kept_in_order<const N: usize>(
    saved: Seq<SavedConfig<N>>,
    pairs: Seq<Pair>,
    slice: &[Pair],
)
    requires
        saved.len() == pairs.len() + 1,
        call_ensures(SavedConfig::<N>::new, (), saved[0]),
        forall|i: int|
            0 <= i < pairs.len() ==> call_ensures(
                SavedConfig::<N>::with,
                (saved[i], #[trigger] pairs[i]),
                saved[i + 1],
            ),
        call_ensures(SavedConfig::<N>::as_slice, (&saved.last(),), slice),
    ensures
        pairs.len() <= N ==> slice@ == pairs,
        pairs.len() > N ==> slice@ == pairs.take(N as int),
{
    lemma_kept_in_order(saved, pairs, pairs.len());
    assert(pairs.take(pairs.len() as int) =~= pairs);
}

proof fn lemma_kept_in_order<const N: usize>(
    saved: Seq<SavedConfig<N>>,
    pairs: Seq<Pair>,
    n: nat,
)
    requires
        n <= pairs.len(),
        saved.len() == pairs.len() + 1,
        call_ensures(SavedConfig::<N>::new, (), saved[0]),
        forall|i: int|
            0 <= i < pairs.len() ==> call_ensures(
                SavedConfig::<N>::with,
                (saved[i], #[trigger] pairs[i]),
                saved[i + 1],
            ),
    ensures
        saved[n as int]@ == pairs.take(
            if n <= N {
                n as int
            } else {
                N as int
            },
        ),
    decreases n,
{
    if n == 0 {
        assert(pairs.take(0) =~= Seq::<Pair>::empty());
    } else {
        let m = n - 1;
        lemma_kept_in_order(saved, pairs, m as nat);
        assert(call_ensures(SavedConfig::<N>::with, (saved[m], pairs[m]), saved[m + 1]));
        if m < N {
            assert(pairs.take(m).push(pairs[m]) =~= pairs.take(n as int));
        }
    }
}

}
