//! The sink of characters and what holds of every sink.

use vstd::prelude::*;

verus! {

/// A destination that characters are written to.
///
/// A sink is described by what it does with text, not by a buffer: `took`
/// relates the sink before and after it has taken a text, `broke` the sink
/// before and after a write that failed, and `has_room` says of which texts
/// the sink is sure to take all.
///
/// A sink may write through a mutable reference: into a slice of bytes,
/// into a vector that it borrows. What such a sink is worth shows in what
/// stands behind the reference when the sink has let go of it. The sink names
/// the reference as `inner`, and `stored` relates what stands behind it in
/// the end for the sink before a write and for the sink after it. A sink that
/// keeps its output in itself has nothing to name: its `Inner` is `()`.
///
/// A sink may also be, or hold, a mutable reference to another sink. It names
/// that reference as `handle`, and every write leaves it the same reference:
/// what stands behind it in the end is the same before and after. A sink
/// that holds no such reference has a `Handle` of `()`.
///
/// Every sink obeys the laws that the proof functions of this trait state:
/// with them, what holds of single writes holds of writes in a row.
pub trait Write: Sized {
    /// What a failed write returns.
    type Error;

    /// What the sink reaches through a mutable reference, `()` if nothing.
    type Inner: ?Sized;

    /// The mutable reference that the sink writes through.
    spec fn inner(&self) -> &mut Self::Inner;

    /// The sink that this one reaches through a mutable reference, `()` if
    /// none.
    type Handle;

    /// The mutable reference to the sink behind.
    spec fn handle(&self) -> &mut Self::Handle;

    /// `post` is `pre` after it has taken exactly `text`.
    spec fn took(pre: &Self, post: &Self, text: Seq<char>) -> bool;

    /// `post` being `pre` after it has taken `text`: `before` is what stands
    /// in the end behind `inner` of `pre`, `after` what stands in the end
    /// behind `inner` of `post`, and this is how the two differ by `text`.
    spec fn stored(
        pre: &Self,
        post: &Self,
        text: Seq<char>,
        before: &Self::Inner,
        after: &Self::Inner,
    ) -> bool;

    /// `post` is `pre` after an attempt to take `text` that failed on the
    /// way, with `before` and `after` what stands in the end behind `inner`
    /// of `pre` and of `post`: what the sink is like after the failure, and
    /// what is stored by then. A sink of which nothing is known after a
    /// failure says `true`.
    spec fn broke(
        pre: &Self,
        post: &Self,
        text: Seq<char>,
        before: &Self::Inner,
        after: &Self::Inner,
    ) -> bool;

    /// The sink is sure to take all of `text`.
    spec fn has_room(&self, text: Seq<char>) -> bool;

    /// A sink that takes nothing stays what it is.
    proof fn took_nothing(sink: &Self)
        ensures
            Self::took(sink, sink, Seq::empty()),
    ;

    /// Taking `first` and then `second` is taking `first + second`.
    proof fn took_then(
        pre: &Self,
        mid: &Self,
        post: &Self,
        first: Seq<char>,
        second: Seq<char>,
    )
        requires
            Self::took(pre, mid, first),
            Self::took(mid, post, second),
        ensures
            Self::took(pre, post, first + second),
    ;

    /// Nothing taken, nothing stored.
    proof fn stored_nothing(sink: &Self, end: &Self::Inner)
        ensures
            Self::stored(sink, sink, Seq::empty(), end, end),
    ;

    /// What is stored by taking `first` and then `second` is what is stored
    /// by taking `first + second`.
    proof fn stored_then(
        pre: &Self,
        mid: &Self,
        post: &Self,
        first: Seq<char>,
        second: Seq<char>,
        pre_end: &Self::Inner,
        mid_end: &Self::Inner,
        post_end: &Self::Inner,
    )
        requires
            Self::stored(pre, mid, first, pre_end, mid_end),
            Self::stored(mid, post, second, mid_end, post_end),
        ensures
            Self::stored(pre, post, first + second, pre_end, post_end),
    ;

    /// An attempt that failed on a text is an attempt that failed on every
    /// text that begins with it: what comes after the failure is not
    /// looked at.
    proof fn broke_more(
        pre: &Self,
        post: &Self,
        first: Seq<char>,
        second: Seq<char>,
        before: &Self::Inner,
        after: &Self::Inner,
    )
        requires
            Self::broke(pre, post, first, before, after),
        ensures
            Self::broke(pre, post, first + second, before, after),
    ;

    /// Taking `first` and then failing on `second` is failing on
    /// `first + second`.
    proof fn broke_after(
        pre: &Self,
        mid: &Self,
        post: &Self,
        first: Seq<char>,
        second: Seq<char>,
        pre_end: &Self::Inner,
        mid_end: &Self::Inner,
        post_end: &Self::Inner,
    )
        requires
            Self::took(pre, mid, first),
            Self::stored(pre, mid, first, pre_end, mid_end),
            Self::broke(mid, post, second, mid_end, post_end),
        ensures
            Self::broke(pre, post, first + second, pre_end, post_end),
    ;

    /// Room for a text is room for each of its beginnings.
    proof fn room_prefix(sink: &Self, first: Seq<char>, second: Seq<char>)
        requires
            Self::has_room(sink, first + second),
        ensures
            Self::has_room(sink, first),
    ;

    /// Room for a text is, once its beginning is taken, room for the rest.
    proof fn room_after(pre: &Self, post: &Self, first: Seq<char>, second: Seq<char>)
        requires
            Self::has_room(pre, first + second),
            Self::took(pre, post, first),
        ensures
            Self::has_room(post, second),
    ;

    /// Writes a single character.
    ///
    /// After a failure the sink is what `broke` says of it, which may be
    /// nothing: it must not be used again.
    fn write_char(&mut self, val: char) -> (res: Result<(), Self::Error>)
        ensures
            Self::has_room(old(self), seq![val]) ==> res is Ok,
            res is Ok ==> Self::took(old(self), final(self), seq![val]),
            res is Ok ==> Self::stored(
                old(self),
                final(self),
                seq![val],
                final(Self::inner(old(self))),
                final(Self::inner(final(self))),
            ),
            res is Err ==> Self::broke(
                old(self),
                final(self),
                seq![val],
                final(Self::inner(old(self))),
                final(Self::inner(final(self))),
            ),
            *final(Self::handle(old(self))) == *final(Self::handle(final(self))),
    ;

    /// Writes a whole string, character by character unless the sink knows
    /// a faster way.
    ///
    /// After a failure the sink is what `broke` says of it, which may be
    /// nothing: it must not be used again.
    ///
    /// A sink that does not say writes the characters in their order, each
    /// by `write_char`, and stops at the first that fails. So it writes
    /// nothing for no text. And where it fails, the sink has taken some
    /// `taken` characters from the front of the text and was then `failing`;
    /// the error is the one that `write_char` gave there for the next
    /// character, and the sink is as that call left it.
    fn write_str(&mut self, val: &str) -> (res: Result<(), Self::Error>)
        ensures
            Self::has_room(old(self), val@) ==> res is Ok,
            res is Ok ==> Self::took(old(self), final(self), val@),
            res is Ok ==> Self::stored(
                old(self),
                final(self),
                val@,
                final(Self::inner(old(self))),
                final(Self::inner(final(self))),
            ),
            res is Err ==> Self::broke(
                old(self),
                final(self),
                val@,
                final(Self::inner(old(self))),
                final(Self::inner(final(self))),
            ),
            *final(Self::handle(old(self))) == *final(Self::handle(final(self))),
        default_ensures
            val@.len() == 0 ==> res is Ok && *final(self) == *old(self),
            res is Err ==> exists|taken: int, failing: Self|
                {
                    &&& 0 <= taken < val@.len()
                    &&& #[trigger] Self::took(old(self), &failing, val@.take(taken))
                    &&& exists|through: &mut Self|
                        *through == failing && *final(through) == *final(self)
                            && #[trigger] call_ensures(
                            Self::write_char,
                            (through, val@[taken]),
                            res,
                        )
                },
    {
        let ghost start = *self;
        proof {
            Self::took_nothing(&start);
            Self::stored_nothing(&start, final(Self::inner(&start)));
            assert(val@.take(0) =~= Seq::empty());
            assert(val@.skip(0) =~= val@);
        }
        for c in it: val.chars()
            invariant
                it.seq() == val@,
                start == *old(self),
                Self::took(&start, &*self, val@.take(it.index() as int)),
                Self::stored(
                    &start,
                    &*self,
                    val@.take(it.index() as int),
                    final(Self::inner(&start)),
                    final(Self::inner(&*self)),
                ),
                Self::has_room(&start, val@) ==> Self::has_room(&*self, val@.skip(it.index() as int)),
                it.index() == 0 ==> *self == start,
                *final(Self::handle(&start)) == *final(Self::handle(&*self)),
        {
            let ghost mid = *self;
            let ghost done = val@.take(it.index() as int);
            let ghost rest = val@.skip(it.index() as int + 1);
            proof {
                assert(val@.skip(it.index() as int) =~= seq![c] + rest);
                if Self::has_room(&start, val@) {
                    Self::room_prefix(&mid, seq![c], rest);
                }
            }
            let written = self.write_char(c);
            match written {
                Ok(()) => {},
                Err(error) => {
                    proof {
                        assert(written == Err::<(), Self::Error>(error));
                        assert(val@[it.index() as int] == c);
                        assert(exists|through: &mut Self|
                            *through == mid && *final(through) == *self
                                && #[trigger] call_ensures(
                                Self::write_char,
                                (through, val@[it.index() as int]),
                                written,
                            ));
                        assert(Self::took(&start, &mid, val@.take(it.index() as int)));
                        Self::broke_after(
                            &start,
                            &mid,
                            &*self,
                            done,
                            seq![c],
                            final(Self::inner(&start)),
                            final(Self::inner(&mid)),
                            final(Self::inner(&*self)),
                        );
                        Self::broke_more(
                            &start,
                            &*self,
                            done + seq![c],
                            rest,
                            final(Self::inner(&start)),
                            final(Self::inner(&*self)),
                        );
                        assert((done + seq![c]) + rest =~= val@);
                    }
                    return Err(error);
                },
            }
            proof {
                assert(val@.take(it.index() as int + 1) =~= done + seq![c]);
                Self::took_then(&start, &mid, &*self, done, seq![c]);
                Self::stored_then(
                    &start,
                    &mid,
                    &*self,
                    done,
                    seq![c],
                    final(Self::inner(&start)),
                    final(Self::inner(&mid)),
                    final(Self::inner(&*self)),
                );
                if Self::has_room(&start, val@) {
                    Self::room_after(&mid, &*self, seq![c], rest);
                }
            }
        }
        proof {
            assert(val@.take(val@.len() as int) =~= val@);
        }
        Ok(())
    }

    /// Tells the sink that about `bytes` more bytes of UTF-8 are coming.
    ///
    /// The hint may be wrong either way: it changes neither what the sink
    /// has taken nor what it has room for.
    fn size_hint(&mut self, bytes: usize)
        ensures
            Self::took(old(self), final(self), Seq::empty()),
            Self::stored(
                old(self),
                final(self),
                Seq::empty(),
                final(Self::inner(old(self))),
                final(Self::inner(final(self))),
            ),
            *final(Self::handle(old(self))) == *final(Self::handle(final(self))),
    ;

    /// Whether a size hint is of any use to the sink, so that a caller can
    /// spare itself the cost of computing one.
    ///
    /// A sink that does not say has no use for a hint: the answer is
    /// `false`.
    fn uses_size_hint(&self) -> (uses: bool)
        default_ensures
            !uses,
    {
        false
    }
}

/// The sink that a mutable reference to a sink refers to.
pub open spec fn referent<'a, W>(reference: &'a &'a mut W) -> &'a W {
    &**reference
}

/// A mutable reference to a sink is a sink: it hands everything on.
///
/// It writes through what the sink behind it writes through, and it is
/// itself the handle to that sink.
impl<'a, W: Write> Write for &'a mut W {
    type Error = W::Error;

    type Inner = W::Inner;

    open spec fn inner(&self) -> &mut W::Inner {
        W::inner(&**self)
    }

    type Handle = W;

    open spec fn handle(&self) -> &mut W {
        *self
    }

    open spec fn took(pre: &Self, post: &Self, text: Seq<char>) -> bool {
        W::took(&**pre, &**post, text)
    }

    open spec fn stored(
        pre: &Self,
        post: &Self,
        text: Seq<char>,
        before: &W::Inner,
        after: &W::Inner,
    ) -> bool {
        W::stored(&**pre, &**post, text, before, after)
    }

    open spec fn broke(
        pre: &Self,
        post: &Self,
        text: Seq<char>,
        before: &W::Inner,
        after: &W::Inner,
    ) -> bool {
        W::broke(&**pre, &**post, text, before, after)
    }

    open spec fn has_room(&self, text: Seq<char>) -> bool {
        W::has_room(&**self, text)
    }

    proof fn took_nothing(sink: &Self) {
        W::took_nothing(&**sink);
    }

    proof fn took_then(
        pre: &Self,
        mid: &Self,
        post: &Self,
        first: Seq<char>,
        second: Seq<char>,
    ) {
        W::took_then(&**pre, &**mid, &**post, first, second);
    }

    proof fn stored_nothing(sink: &Self, end: &W::Inner) {
        W::stored_nothing(&**sink, end);
    }

    proof fn stored_then(
        pre: &Self,
        mid: &Self,
        post: &Self,
        first: Seq<char>,
        second: Seq<char>,
        pre_end: &W::Inner,
        mid_end: &W::Inner,
        post_end: &W::Inner,
    ) {
        W::stored_then(&**pre, &**mid, &**post, first, second, pre_end, mid_end, post_end);
    }

    proof fn broke_more(
        pre: &Self,
        post: &Self,
        first: Seq<char>,
        second: Seq<char>,
        before: &W::Inner,
        after: &W::Inner,
    ) {
        W::broke_more(&**pre, &**post, first, second, before, after);
    }

    proof fn broke_after(
        pre: &Self,
        mid: &Self,
        post: &Self,
        first: Seq<char>,
        second: Seq<char>,
        pre_end: &W::Inner,
        mid_end: &W::Inner,
        post_end: &W::Inner,
    ) {
        W::broke_after(&**pre, &**mid, &**post, first, second, pre_end, mid_end, post_end);
    }

    proof fn room_prefix(sink: &Self, first: Seq<char>, second: Seq<char>) {
        W::room_prefix(&**sink, first, second);
    }

    proof fn room_after(pre: &Self, post: &Self, first: Seq<char>, second: Seq<char>) {
        W::room_after(&**pre, &**post, first, second);
    }

    fn write_char(&mut self, val: char) -> (res: Result<(), Self::Error>) {
        (**self).write_char(val)
    }

    fn write_str(&mut self, val: &str) -> (res: Result<(), Self::Error>) {
        (**self).write_str(val)
    }

    /// The hint reaches the sink behind unchanged: that sink is what its
    /// own `size_hint` makes of it, told `bytes`.
    fn size_hint(&mut self, bytes: usize)
        ensures
            exists|through: &mut W|
                *through == **old(self) && *final(through) == **final(self)
                    && #[trigger] call_ensures(W::size_hint, (through, bytes), ()),
    {
        (**self).size_hint(bytes)
    }

    /// A hint is of use where it is of use to the sink behind: the answer
    /// of that sink is handed on.
    /// Hands on the answer of the sink behind: `uses` is an answer that
    /// that sink gives.
    fn uses_size_hint(&self) -> (uses: bool)
        ensures
            call_ensures(W::uses_size_hint, (referent(self),), uses),
    {
        (**self).uses_size_hint()
    }
}

} // verus!
