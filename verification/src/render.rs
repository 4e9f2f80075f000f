//! The rendering contract: what a value writes under a strategy.

use crate::Display;
use crate::utf8::utf8_len;
use crate::write::Write;
use vstd::prelude::*;

verus! {

/// A value that renders itself as text under the strategy `S`.
///
/// `rendered` is the text, `size_estimate` the estimate of its length in
/// bytes of UTF-8, and `depth` counts the transformations that the text
/// passes on its way to the sink. Each transformation puts a sink of its own
/// between the value and the sink that was given, which it holds by a
/// mutable reference. A value under no transformation leaves the handle of
/// the sink the same reference; with that, what `fmt` states of the given
/// sink and of what is stored behind it reaches through one transformation.
/// It does not reach through two: that the reference held by the inner of
/// two sinks is still the same one cannot be said of a sink of any type.
pub trait Fmt<S = Display> {
    /// The text that this value renders to under `strategy`.
    ///
    /// Of a value that does not say, nothing is known of the text.
    open spec fn rendered(&self, strategy: &S) -> Seq<char> {
        arbitrary()
    }

    /// The estimate of the rendered length, in bytes of UTF-8.
    ///
    /// Of a value that does not say, nothing is known of the estimate.
    open spec fn size_estimate(&self, strategy: &S) -> nat {
        arbitrary()
    }

    /// The number of transformations between this value and the sink.
    ///
    /// Of a value that does not say, nothing is known of the number.
    open spec fn depth(&self, strategy: &S) -> nat {
        arbitrary()
    }

    /// Writes the rendered text into `writer`.
    ///
    /// An error of the sink is handed on as it is; what was written before
    /// it stays written, and nothing is written after it: the sink is then
    /// what `broke` says of a sink that failed on the text.
    fn fmt<W: Write>(&self, writer: &mut W, strategy: &S) -> (res: Result<(), W::Error>)
        ensures
            Self::depth(self, strategy) <= 1 && W::has_room(
                old(writer),
                Self::rendered(self, strategy),
            ) ==> res is Ok,
            Self::depth(self, strategy) <= 1 && res is Ok ==> W::took(
                old(writer),
                final(writer),
                Self::rendered(self, strategy),
            ),
            Self::depth(self, strategy) <= 1 && res is Ok ==> W::stored(
                old(writer),
                final(writer),
                Self::rendered(self, strategy),
                final(W::inner(old(writer))),
                final(W::inner(final(writer))),
            ),
            Self::depth(self, strategy) <= 1 && res is Err ==> W::broke(
                old(writer),
                final(writer),
                Self::rendered(self, strategy),
                final(W::inner(old(writer))),
                final(W::inner(final(writer))),
            ),
            Self::depth(self, strategy) == 0 ==> *final(W::handle(old(writer)))
                == *final(W::handle(final(writer))),
    ;

    /// The estimate of the rendered length: the greatest possible length
    /// where that is known, else a length that is surely reached.
    fn size_hint(&self, strategy: &S) -> (bytes: usize)
        requires
            Self::size_estimate(self, strategy) <= usize::MAX,
        ensures
            bytes == Self::size_estimate(self, strategy),
    ;
}

/// A reference renders as what it refers to.
impl<'a, S, T: ?Sized + Fmt<S>> Fmt<S> for &'a T {
    open spec fn rendered(&self, strategy: &S) -> Seq<char> {
        T::rendered(&**self, strategy)
    }

    open spec fn size_estimate(&self, strategy: &S) -> nat {
        T::size_estimate(&**self, strategy)
    }

    open spec fn depth(&self, strategy: &S) -> nat {
        T::depth(&**self, strategy)
    }

    fn fmt<W: Write>(&self, writer: &mut W, strategy: &S) -> (res: Result<(), W::Error>) {
        (**self).fmt(writer, strategy)
    }

    fn size_hint(&self, strategy: &S) -> (bytes: usize) {
        (**self).size_hint(strategy)
    }
}

/// The estimate of `value` is no less than the length of its text in bytes:
/// the estimate is an upper bound.
pub open spec fn estimate_covers<S, V: Fmt<S> + ?Sized>(value: &V, strategy: &S) -> bool {
    utf8_len(V::rendered(value, strategy)) <= V::size_estimate(value, strategy)
}

/// The estimate of `value` is the length of its text in bytes.
pub open spec fn estimate_is_exact<S, V: Fmt<S> + ?Sized>(value: &V, strategy: &S) -> bool {
    utf8_len(V::rendered(value, strategy)) == V::size_estimate(value, strategy)
}

/// A reference has the text, the estimate and the depth of what it refers
/// to: where the estimate of that is an upper bound or exact, so is the
/// reference's.
pub proof fn lemma_reference_renders_alike<S, V: Fmt<S> + ?Sized>(value: &V, strategy: &S)
    ensures
        <&V as Fmt<S>>::rendered(&value, strategy) == V::rendered(value, strategy),
        <&V as Fmt<S>>::size_estimate(&value, strategy) == V::size_estimate(value, strategy),
        <&V as Fmt<S>>::depth(&value, strategy) == V::depth(value, strategy),
        estimate_covers(value, strategy) ==> estimate_covers::<S, &V>(&value, strategy),
        estimate_is_exact(value, strategy) ==> estimate_is_exact::<S, &V>(&value, strategy),
{
}

} // verus!
