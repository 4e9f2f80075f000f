//! Putting values together: nothing, two values one after the other, and a
//! value bound to the strategy it is to be rendered under.

use crate::render::estimate_covers;
use crate::render::Fmt;
use crate::utf8::lemma_encode_concat;
use crate::utf8::lemma_encode_empty;
use crate::write::Write;
use crate::Display;
use vstd::prelude::*;

verus! {

/// A value together with the strategy it is rendered under.
///
/// Whatever strategy it is asked to render under, it renders its value under
/// its own: so values of different strategies stand in one chain.
pub struct Instantiated<'a, T, S: 'a> {
    value: T,
    strategy: &'a S,
}

impl<'a, T, S> Instantiated<'a, T, S> {
    /// The value.
    pub closed spec fn value(&self) -> T {
        self.value
    }

    /// The strategy that the value is bound to.
    pub closed spec fn strategy(&self) -> &'a S {
        self.strategy
    }
}

impl<'a, S, T: Fmt<S>> Instantiated<'a, T, S> {
    /// Binds `value` to `strategy`.
    pub fn new(value: T, strategy: &'a S) -> (bound: Self)
        ensures
            bound.value() == value,
            bound.strategy() == strategy,
    {
        Instantiated { value, strategy }
    }

    /// This value, then `other`.
    pub fn chain<O: Fmt>(self, other: O) -> (chain: Chain<Self, O>)
        ensures
            chain.first() == self,
            chain.second() == other,
    {
        Chain::new(self, other)
    }
}

impl<'a, S, T: Fmt<S>> Fmt for Instantiated<'a, T, S> {
    open spec fn rendered(&self, strategy: &Display) -> Seq<char> {
        T::rendered(&self.value(), self.strategy())
    }

    open spec fn size_estimate(&self, strategy: &Display) -> nat {
        T::size_estimate(&self.value(), self.strategy())
    }

    open spec fn depth(&self, strategy: &Display) -> nat {
        T::depth(&self.value(), self.strategy())
    }

    fn fmt<W: Write>(&self, writer: &mut W, _strategy: &Display) -> (res: Result<(), W::Error>) {
        self.value.fmt(writer, self.strategy)
    }

    fn size_hint(&self, _strategy: &Display) -> (bytes: usize) {
        self.value.size_hint(self.strategy)
    }
}

/// Two values, rendered one after the other.
pub struct Chain<T0, T1> {
    val0: T0,
    val1: T1,
}

impl<T0, T1> Chain<T0, T1> {
    /// The value that is rendered first.
    pub closed spec fn first(&self) -> T0 {
        self.val0
    }

    /// The value that is rendered second.
    pub closed spec fn second(&self) -> T1 {
        self.val1
    }
}

impl<T0: Fmt, T1: Fmt> Chain<T0, T1> {
    /// `val0`, then `val1`.
    pub fn new(val0: T0, val1: T1) -> (chain: Self)
        ensures
            chain.first() == val0,
            chain.second() == val1,
    {
        Chain { val0, val1 }
    }

    /// This chain, then `other`.
    pub fn chain<O: Fmt>(self, other: O) -> (chain: Chain<Self, O>)
        ensures
            chain.first() == self,
            chain.second() == other,
    {
        Chain::new(self, other)
    }
}

impl<S, T0: Fmt<S>, T1: Fmt<S>> Fmt<S> for Chain<T0, T1> {
    /// The text of the first value, then the text of the second.
    open spec fn rendered(&self, strategy: &S) -> Seq<char> {
        T0::rendered(&self.first(), strategy) + T1::rendered(&self.second(), strategy)
    }

    /// The sum of the two estimates.
    open spec fn size_estimate(&self, strategy: &S) -> nat {
        T0::size_estimate(&self.first(), strategy) + T1::size_estimate(&self.second(), strategy)
    }

    /// The greater of the two depths.
    open spec fn depth(&self, strategy: &S) -> nat {
        let first = T0::depth(&self.first(), strategy);
        let second = T1::depth(&self.second(), strategy);
        if first >= second {
            first
        } else {
            second
        }
    }

    /// Renders the first value, then the second. Where the first fails, the
    /// second is not rendered: the sink is left as the first left it.
    fn fmt<W: Write>(&self, writer: &mut W, strategy: &S) -> (res: Result<(), W::Error>) {
        let ghost start = *writer;
        let ghost head = T0::rendered(&self.val0, strategy);
        let ghost tail = T1::rendered(&self.val1, strategy);
        proof {
            if W::has_room(&start, head + tail) {
                W::room_prefix(&start, head, tail);
            }
        }
        match self.val0.fmt(writer, strategy) {
            Ok(()) => {},
            Err(error) => {
                proof {
                    if Self::depth(self, strategy) <= 1 {
                        W::broke_more(
                            &start,
                            &*writer,
                            head,
                            tail,
                            final(W::inner(&start)),
                            final(W::inner(&*writer)),
                        );
                    }
                }
                return Err(error);
            },
        }
        let ghost mid = *writer;
        proof {
            if Self::depth(self, strategy) <= 1 && W::has_room(&start, head + tail) {
                W::room_after(&start, &mid, head, tail);
            }
        }
        let res = self.val1.fmt(writer, strategy);
        proof {
            if Self::depth(self, strategy) <= 1 && res is Ok {
                W::took_then(&start, &mid, &*writer, head, tail);
            }
            if Self::depth(self, strategy) <= 1 && res is Ok {
                W::stored_then(
                    &start,
                    &mid,
                    &*writer,
                    head,
                    tail,
                    final(W::inner(&start)),
                    final(W::inner(&mid)),
                    final(W::inner(&*writer)),
                );
            }
            if Self::depth(self, strategy) <= 1 && res is Err {
                W::broke_after(
                    &start,
                    &mid,
                    &*writer,
                    head,
                    tail,
                    final(W::inner(&start)),
                    final(W::inner(&mid)),
                    final(W::inner(&*writer)),
                );
            }
        }
        res
    }

    fn size_hint(&self, strategy: &S) -> (bytes: usize) {
        self.val0.size_hint(strategy) + self.val1.size_hint(strategy)
    }
}

/// The value that renders to nothing: where a chain starts.
#[derive(Debug, Default, Copy, Clone)]
pub struct Empty;

impl Empty {
    /// `other` alone, as a chain.
    pub fn chain<O: Fmt>(self, other: O) -> (chain: Chain<Self, O>)
        ensures
            chain.first() == self,
            chain.second() == other,
    {
        Chain::new(self, other)
    }
}

impl<S> Fmt<S> for Empty {
    open spec fn rendered(&self, strategy: &S) -> Seq<char> {
        Seq::empty()
    }

    open spec fn size_estimate(&self, strategy: &S) -> nat {
        0
    }

    open spec fn depth(&self, strategy: &S) -> nat {
        0
    }

    /// Writes nothing, and so never fails.
    fn fmt<W: Write>(&self, writer: &mut W, _strategy: &S) -> (res: Result<(), W::Error>)
        ensures
            res is Ok,
            *final(writer) == *old(writer),
    {
        proof {
            W::took_nothing(&*writer);
            W::stored_nothing(&*writer, final(W::inner(&*writer)));
        }
        Ok(())
    }

    fn size_hint(&self, _strategy: &S) -> (bytes: usize) {
        0
    }
}

/// The estimate of a chain is the sum of the estimates of its two values,
/// its text is the text of the first and then the text of the second, and a
/// sink that took the first text and then the second took the text of the
/// chain.
pub proof fn lemma_chain_is_its_parts<W: Write, S, T0: Fmt<S>, T1: Fmt<S>>(
    chain: &Chain<T0, T1>,
    strategy: &S,
    pre: &W,
    mid: &W,
    post: &W,
)
    ensures
        Chain::size_estimate(chain, strategy) == T0::size_estimate(&chain.first(), strategy)
            + T1::size_estimate(&chain.second(), strategy),
        Chain::rendered(chain, strategy) == T0::rendered(&chain.first(), strategy) + T1::rendered(
            &chain.second(),
            strategy,
        ),
        W::took(pre, mid, T0::rendered(&chain.first(), strategy)) && W::took(
            mid,
            post,
            T1::rendered(&chain.second(), strategy),
        ) ==> W::took(pre, post, Chain::rendered(chain, strategy)),
{
    if W::took(pre, mid, T0::rendered(&chain.first(), strategy)) && W::took(
        mid,
        post,
        T1::rendered(&chain.second(), strategy),
    ) {
        W::took_then(
            pre,
            mid,
            post,
            T0::rendered(&chain.first(), strategy),
            T1::rendered(&chain.second(), strategy),
        );
    }
}

/// Where the estimates of both values of a chain are upper bounds, so is
/// the estimate of the chain.
pub proof fn lemma_chain_estimate_covers<S, T0: Fmt<S>, T1: Fmt<S>>(
    chain: &Chain<T0, T1>,
    strategy: &S,
)
    requires
        estimate_covers(&chain.first(), strategy),
        estimate_covers(&chain.second(), strategy),
    ensures
        estimate_covers(chain, strategy),
{
    lemma_encode_concat(
        T0::rendered(&chain.first(), strategy),
        T1::rendered(&chain.second(), strategy),
    );
}

/// `Empty` is neutral on both sides of a chain: a chain of `Empty` and a
/// value, either way round, has the text, the estimate and the depth of the
/// value alone.
pub proof fn lemma_empty_is_neutral<S, T: Fmt<S>>(
    left: &Chain<Empty, T>,
    right: &Chain<T, Empty>,
    strategy: &S,
)
    ensures
        Chain::rendered(left, strategy) == T::rendered(&left.second(), strategy),
        Chain::size_estimate(left, strategy) == T::size_estimate(&left.second(), strategy),
        Chain::depth(left, strategy) == T::depth(&left.second(), strategy),
        Chain::rendered(right, strategy) == T::rendered(&right.first(), strategy),
        Chain::size_estimate(right, strategy) == T::size_estimate(&right.first(), strategy),
        Chain::depth(right, strategy) == T::depth(&right.first(), strategy),
        estimate_covers(&Empty, strategy),
{
    assert(Seq::<char>::empty() + T::rendered(&left.second(), strategy) =~= T::rendered(
        &left.second(),
        strategy,
    ));
    assert(T::rendered(&right.first(), strategy) + Seq::<char>::empty() =~= T::rendered(
        &right.first(),
        strategy,
    ));
    lemma_encode_empty();
}

/// A value bound to a strategy has, under every strategy, the text, the
/// estimate and the depth that the value has under the strategy it is bound
/// to: where the estimate of the value is an upper bound, so is the bound
/// value's.
pub proof fn lemma_instantiated_renders_its_value<'a, S, T: Fmt<S>>(
    bound: &Instantiated<'a, T, S>,
    strategy: &Display,
)
    ensures
        Instantiated::rendered(bound, strategy) == T::rendered(&bound.value(), bound.strategy()),
        Instantiated::size_estimate(bound, strategy) == T::size_estimate(
            &bound.value(),
            bound.strategy(),
        ),
        Instantiated::depth(bound, strategy) == T::depth(&bound.value(), bound.strategy()),
        estimate_covers(&bound.value(), bound.strategy()) ==> estimate_covers(bound, strategy),
{
}

/// Renders `chain` into `writer` under the display strategy, in one pass.
///
/// Where the sink makes use of a size hint, it is first told the estimate of
/// the whole chain; the estimate is computed only then, and so has to fit
/// in `usize` only for a sink that may answer `true` to `uses_size_hint`. A
/// chain is built from `Empty` by `chain`, of values each bound to its
/// strategy by `Instantiated::new`.
///
/// The last clause says the asking and the telling: `uses` is what the sink
/// answered, and where that was `true` the sink was told the estimate by its
/// `size_hint`, and the chain was rendered into what that made of the sink.
pub fn fwrite<W: Write, C: Fmt>(writer: &mut W, chain: &C) -> (res: Result<(), W::Error>)
    requires
        call_ensures(W::uses_size_hint, (&*old(writer),), true) ==> C::size_estimate(
            chain,
            &Display,
        ) <= usize::MAX,
    ensures
        C::depth(chain, &Display) <= 1 && W::has_room(old(writer), C::rendered(chain, &Display))
            ==> res is Ok,
        C::depth(chain, &Display) <= 1 && res is Ok ==> W::took(
            old(writer),
            final(writer),
            C::rendered(chain, &Display),
        ),
        C::depth(chain, &Display) <= 1 && res is Ok ==> W::stored(
            old(writer),
            final(writer),
            C::rendered(chain, &Display),
            final(W::inner(old(writer))),
            final(W::inner(final(writer))),
        ),
        C::depth(chain, &Display) <= 1 && res is Err ==> W::broke(
            old(writer),
            final(writer),
            C::rendered(chain, &Display),
            final(W::inner(old(writer))),
            final(W::inner(final(writer))),
        ),
        C::depth(chain, &Display) == 0 ==> *final(W::handle(old(writer)))
            == *final(W::handle(final(writer))),
        exists|uses: bool|
            {
                &&& #[trigger] call_ensures(W::uses_size_hint, (&*old(writer),), uses)
                &&& uses ==> exists|through: &mut W|
                    {
                        &&& *through == *old(writer)
                        &&& #[trigger] call_ensures(
                            W::size_hint,
                            (through, C::size_estimate(chain, &Display) as usize),
                            (),
                        )
                        &&& C::depth(chain, &Display) <= 1 && res is Ok ==> W::took(
                            &*final(through),
                            final(writer),
                            C::rendered(chain, &Display),
                        )
                    }
            },
{
    let strategy = Display;
    let ghost start = *writer;
    let ghost text = C::rendered(chain, &strategy);
    let uses = writer.uses_size_hint();
    if uses {
        let bytes = chain.size_hint(&strategy);
        let told = writer.size_hint(bytes);
        proof {
            assert(told == ());
            assert(bytes == C::size_estimate(chain, &strategy) as usize);
            assert(exists|through: &mut W|
                *through == start && *final(through) == *writer && #[trigger] call_ensures(
                    W::size_hint,
                    (through, C::size_estimate(chain, &strategy) as usize),
                    (),
                ));
        }
    } else {
        proof {
            W::took_nothing(&start);
            W::stored_nothing(&start, final(W::inner(&start)));
        }
    }
    let ghost mid = *writer;
    proof {
        assert(Seq::<char>::empty() + text =~= text);
        if W::has_room(&start, text) {
            W::room_after(&start, &mid, Seq::empty(), text);
        }
    }
    let res = chain.fmt(writer, &strategy);
    proof {
        if C::depth(chain, &strategy) <= 1 && res is Ok {
            W::took_then(&start, &mid, &*writer, Seq::empty(), text);
        }
        if C::depth(chain, &strategy) <= 1 && res is Ok {
            W::stored_then(
                &start,
                &mid,
                &*writer,
                Seq::empty(),
                text,
                final(W::inner(&start)),
                final(W::inner(&mid)),
                final(W::inner(&*writer)),
            );
        }
        if C::depth(chain, &strategy) <= 1 && res is Err {
            W::broke_after(
                &start,
                &mid,
                &*writer,
                Seq::empty(),
                text,
                final(W::inner(&start)),
                final(W::inner(&mid)),
                final(W::inner(&*writer)),
            );
        }
        assert(call_ensures(W::uses_size_hint, (&start,), uses));
        if uses {
            assert(exists|through: &mut W|
                {
                    &&& *through == start
                    &&& #[trigger] call_ensures(
                        W::size_hint,
                        (through, C::size_estimate(chain, &strategy) as usize),
                        (),
                    )
                    &&& C::depth(chain, &strategy) <= 1 && res is Ok ==> W::took(
                        &*final(through),
                        &*writer,
                        text,
                    )
                });
        }
    }
    res
}

} // verus!
