//! Rewriting text on its way to a sink: escaping, changing case and the
//! like.
//!
//! A [`Transform`] says what each character becomes. [`Transformer`] puts a
//! transformation in front of a sink, [`Transformed`] in front of a value.

use crate::render::estimate_covers;
use crate::render::Fmt;
use crate::seqs::lemma_flat_map_agree;
use crate::seqs::lemma_flat_map_concat;
use crate::seqs::lemma_flat_map_empty;
use crate::seqs::lemma_flat_map_identity;
use crate::seqs::lemma_flat_map_one;
use crate::utf8::utf8_len;
use crate::write::Write;
use vstd::prelude::*;

verus! {

/// What a transformation makes of a text: the images of its characters, one
/// after the other.
pub open spec fn image_of<T: Transform + ?Sized>(transformation: &T, text: Seq<char>) -> Seq<char> {
    text.flat_map(|c: char| T::image(transformation, c))
}

/// The image of no text is no text.
pub proof fn lemma_image_of_empty<T: Transform + ?Sized>(transformation: &T)
    ensures
        image_of(transformation, Seq::empty()) == Seq::<char>::empty(),
{
    lemma_flat_map_empty(|c: char| T::image(transformation, c));
}

/// The image of a text of one character is the image of that character.
pub proof fn lemma_image_of_one<T: Transform + ?Sized>(transformation: &T, c: char)
    ensures
        image_of(transformation, seq![c]) == T::image(transformation, c),
{
    lemma_flat_map_one(c, |c: char| T::image(transformation, c));
}

/// The image of two texts joined is their images joined.
pub proof fn lemma_image_of_concat<T: Transform + ?Sized>(
    transformation: &T,
    first: Seq<char>,
    second: Seq<char>,
)
    ensures
        image_of(transformation, first + second) == image_of(transformation, first) + image_of(
            transformation,
            second,
        ),
{
    lemma_flat_map_concat(first, second, |c: char| T::image(transformation, c));
}

/// A transformation that leaves every character as it is leaves every text
/// as it is.
pub proof fn lemma_image_of_identity<T: Transform + ?Sized>(transformation: &T, text: Seq<char>)
    requires
        forall|c: char| T::image(transformation, c) == seq![c],
    ensures
        image_of(transformation, text) == text,
{
    lemma_flat_map_identity(text, |c: char| T::image(transformation, c));
}

/// Holds of every sink and every count: it marks, for the prover, the sink
/// that a failing call started with and the count of characters done by
/// then.
pub open spec fn halted<W>(failing: &W, taken: int) -> bool {
    true
}

/// A rule that rewrites text character by character.
pub trait Transform {
    /// What the character `c` becomes: no character, one, or several.
    ///
    /// A transformation that does not say has an image of which nothing is
    /// known.
    open spec fn image(&self, c: char) -> Seq<char> {
        arbitrary()
    }

    /// What an estimate of `bytes` bytes becomes for the rewritten text.
    ///
    /// A transformation that does not say adjusts in a way of which nothing
    /// is known.
    open spec fn adjusted(&self, bytes: usize) -> usize {
        arbitrary()
    }

    /// Writes what `c` becomes into `writer`.
    fn transform_char<W: Write>(&self, writer: &mut W, c: char) -> (res: Result<(), W::Error>)
        ensures
            W::has_room(old(writer), Self::image(self, c)) ==> res is Ok,
            res is Ok ==> W::took(old(writer), final(writer), Self::image(self, c)),
            res is Ok ==> W::stored(
                old(writer),
                final(writer),
                Self::image(self, c),
                final(W::inner(old(writer))),
                final(W::inner(final(writer))),
            ),
            res is Err ==> W::broke(
                old(writer),
                final(writer),
                Self::image(self, c),
                final(W::inner(old(writer))),
                final(W::inner(final(writer))),
            ),
            *final(W::handle(old(writer))) == *final(W::handle(final(writer))),
    ;

    /// Writes what `s` becomes into `writer`, character by character unless
    /// the transformation knows a faster way.
    ///
    /// What `s` becomes is written here as the images of its characters
    /// joined; [`image_of`] is the name of that.
    ///
    /// A transformation that does not say transforms the characters in
    /// their order, each by `transform_char`, and stops at the first that
    /// fails. So it writes nothing for no text. And where it fails, the sink
    /// has taken the images of some `taken` characters from the front of the
    /// text and was then `failing`; the error is the one that
    /// `transform_char` gave there for the next character, and the sink is
    /// as that call left it.
    fn transform_str<W: Write>(&self, writer: &mut W, s: &str) -> (res: Result<(), W::Error>)
        ensures
            W::has_room(old(writer), s@.flat_map(|c: char| Self::image(self, c))) ==> res is Ok,
            res is Ok ==> W::took(
                old(writer),
                final(writer),
                s@.flat_map(|c: char| Self::image(self, c)),
            ),
            res is Ok ==> W::stored(
                old(writer),
                final(writer),
                s@.flat_map(|c: char| Self::image(self, c)),
                final(W::inner(old(writer))),
                final(W::inner(final(writer))),
            ),
            res is Err ==> W::broke(
                old(writer),
                final(writer),
                s@.flat_map(|c: char| Self::image(self, c)),
                final(W::inner(old(writer))),
                final(W::inner(final(writer))),
            ),
            *final(W::handle(old(writer))) == *final(W::handle(final(writer))),
        default_ensures
            s@.len() == 0 ==> res is Ok && *final(writer) == *old(writer),
            res is Err ==> exists|taken: int, failing: W|
                {
                    &&& 0 <= taken < s@.len()
                    &&& #[trigger] halted(&failing, taken)
                    &&& W::took(
                        old(writer),
                        &failing,
                        s@.take(taken).flat_map(|c: char| Self::image(self, c)),
                    )
                    &&& exists|through: &mut W|
                        *through == failing && *final(through) == *final(writer)
                            && #[trigger] call_ensures(
                            Self::transform_char::<W>,
                            (self, through, s@[taken]),
                            res,
                        )
                },
    {
        let ghost start = *writer;
        let ghost image = |c: char| Self::image(self, c);
        proof {
            W::took_nothing(&start);
            W::stored_nothing(&start, final(W::inner(&start)));
            assert(s@.take(0) =~= Seq::empty());
            assert(s@.skip(0) =~= s@);
            lemma_flat_map_empty(image);
        }
        for c in it: s.chars()
            invariant
                it.seq() == s@,
                start == *old(writer),
                image == |c: char| Self::image(self, c),
                W::took(&start, &*writer, s@.take(it.index() as int).flat_map(image)),
                W::stored(
                    &start,
                    &*writer,
                    s@.take(it.index() as int).flat_map(image),
                    final(W::inner(&start)),
                    final(W::inner(&*writer)),
                ),
                W::has_room(&start, s@.flat_map(image)) ==> W::has_room(
                    &*writer,
                    s@.skip(it.index() as int).flat_map(image),
                ),
                it.index() == 0 ==> *writer == start,
                *final(W::handle(&start)) == *final(W::handle(&*writer)),
        {
            let ghost mid = *writer;
            let ghost done = s@.take(it.index() as int);
            let ghost rest = s@.skip(it.index() as int + 1);
            proof {
                assert(s@.skip(it.index() as int) =~= seq![c] + rest);
                lemma_flat_map_concat(seq![c], rest, image);
                lemma_flat_map_one(c, image);
                if W::has_room(&start, s@.flat_map(image)) {
                    W::room_prefix(&mid, image(c), rest.flat_map(image));
                }
            }
            let written = self.transform_char(writer, c);
            match written {
                Ok(()) => {},
                Err(error) => {
                    proof {
                        assert(written == Err::<(), W::Error>(error));
                        assert(s@[it.index() as int] == c);
                        assert(exists|through: &mut W|
                            *through == mid && *final(through) == *writer
                                && #[trigger] call_ensures(
                                Self::transform_char::<W>,
                                (self, through, s@[it.index() as int]),
                                written,
                            ));
                        assert(W::took(&start, &mid, s@.take(it.index() as int).flat_map(image)));
                        assert(halted(&mid, it.index() as int));
                        W::broke_after(
                            &start,
                            &mid,
                            &*writer,
                            done.flat_map(image),
                            image(c),
                            final(W::inner(&start)),
                            final(W::inner(&mid)),
                            final(W::inner(&*writer)),
                        );
                        W::broke_more(
                            &start,
                            &*writer,
                            done.flat_map(image) + image(c),
                            rest.flat_map(image),
                            final(W::inner(&start)),
                            final(W::inner(&*writer)),
                        );
                        lemma_flat_map_concat(done, seq![c] + rest, image);
                        assert(done + (seq![c] + rest) =~= s@);
                        assert((done.flat_map(image) + image(c)) + rest.flat_map(image)
                            =~= done.flat_map(image) + (image(c) + rest.flat_map(image)));
                    }
                    return Err(error);
                },
            }
            proof {
                assert(s@.take(it.index() as int + 1) =~= done + seq![c]);
                lemma_flat_map_concat(done, seq![c], image);
                W::took_then(&start, &mid, &*writer, done.flat_map(image), image(c));
                W::stored_then(
                    &start,
                    &mid,
                    &*writer,
                    done.flat_map(image),
                    image(c),
                    final(W::inner(&start)),
                    final(W::inner(&mid)),
                    final(W::inner(&*writer)),
                );
                if W::has_room(&start, s@.flat_map(image)) {
                    W::room_after(&mid, &*writer, image(c), rest.flat_map(image));
                }
            }
        }
        proof {
            assert(s@.take(s@.len() as int) =~= s@);
        }
        Ok(())
    }

    /// Turns an estimate for a text into an estimate for the rewritten text:
    /// the greatest that the rewriting can make of it, or `bytes` itself
    /// where that is not known.
    fn transform_size_hint(&self, bytes: usize) -> (adjusted: usize)
        ensures
            adjusted == Self::adjusted(self, bytes),
    ;
}

/// A reference to a transformation transforms as what it refers to.
impl<'a, T: Transform> Transform for &'a T {
    open spec fn image(&self, c: char) -> Seq<char> {
        T::image(&**self, c)
    }

    open spec fn adjusted(&self, bytes: usize) -> usize {
        T::adjusted(&**self, bytes)
    }

    fn transform_char<W: Write>(&self, writer: &mut W, c: char) -> (res: Result<(), W::Error>) {
        (**self).transform_char(writer, c)
    }

    fn transform_str<W: Write>(&self, writer: &mut W, s: &str) -> (res: Result<(), W::Error>) {
        proof {
            lemma_flat_map_agree(
                s@,
                |c: char| Self::image(self, c),
                |c: char| T::image(&**self, c),
            );
        }
        (**self).transform_str(writer, s)
    }

    fn transform_size_hint(&self, bytes: usize) -> (adjusted: usize) {
        (**self).transform_size_hint(bytes)
    }
}

/// A text has the same image under a reference as under what it refers to.
pub proof fn lemma_image_of_ref<T: Transform>(transformation: &T, text: Seq<char>)
    ensures
        image_of::<&T>(&transformation, text) == image_of::<T>(transformation, text),
{
    lemma_flat_map_agree(
        text,
        |c: char| <&T as Transform>::image(&transformation, c),
        |c: char| T::image(transformation, c),
    );
}

/// The transformation that changes nothing: every character is its own
/// image, every estimate stays what it is.
#[derive(Debug, Default, Copy, Clone)]
pub struct Identity;

impl Transform for Identity {
    open spec fn image(&self, c: char) -> Seq<char> {
        seq![c]
    }

    open spec fn adjusted(&self, bytes: usize) -> usize {
        bytes
    }

    fn transform_char<W: Write>(&self, writer: &mut W, c: char) -> (res: Result<(), W::Error>) {
        writer.write_char(c)
    }

    /// Hands the string on as a whole.
    fn transform_str<W: Write>(&self, writer: &mut W, s: &str) -> (res: Result<(), W::Error>) {
        proof {
            lemma_flat_map_identity(s@, |c: char| Self::image(self, c));
        }
        writer.write_str(s)
    }

    fn transform_size_hint(&self, bytes: usize) -> (adjusted: usize) {
        bytes
    }
}

/// A transformation put in front of a sink: all that is written into it
/// reaches the sink rewritten.
pub struct Transformer<T: Transform, W: Write> {
    transformation: T,
    writer: W,
}

impl<T: Transform, W: Write> Transformer<T, W> {
    /// The transformation that rewrites the text.
    pub closed spec fn transformation(&self) -> T {
        self.transformation
    }

    /// The sink that takes the rewritten text.
    pub closed spec fn writer(&self) -> W {
        self.writer
    }

    /// Puts `transformation` in front of `writer`.
    pub fn new(transformation: T, writer: W) -> (transformer: Self)
        ensures
            transformer.transformation() == transformation,
            transformer.writer() == writer,
    {
        Transformer { transformation, writer }
    }

    /// Takes the transformation away again and gives the sink back.
    pub fn into_inner(self) -> (writer: W)
        ensures
            writer == self.writer(),
    {
        self.writer
    }
}

impl<T: Transform, W: Write> Write for Transformer<T, W> {
    type Error = W::Error;

    type Inner = W::Inner;

    open spec fn inner(&self) -> &mut W::Inner {
        W::inner(&self.writer())
    }

    type Handle = W::Handle;

    open spec fn handle(&self) -> &mut W::Handle {
        W::handle(&self.writer())
    }

    open spec fn took(pre: &Self, post: &Self, text: Seq<char>) -> bool {
        &&& post.transformation() == pre.transformation()
        &&& W::took(&pre.writer(), &post.writer(), image_of(&pre.transformation(), text))
    }

    open spec fn stored(
        pre: &Self,
        post: &Self,
        text: Seq<char>,
        before: &W::Inner,
        after: &W::Inner,
    ) -> bool {
        &&& post.transformation() == pre.transformation()
        &&& W::stored(
            &pre.writer(),
            &post.writer(),
            image_of(&pre.transformation(), text),
            before,
            after,
        )
    }

    open spec fn broke(
        pre: &Self,
        post: &Self,
        text: Seq<char>,
        before: &W::Inner,
        after: &W::Inner,
    ) -> bool {
        &&& post.transformation() == pre.transformation()
        &&& W::broke(
            &pre.writer(),
            &post.writer(),
            image_of(&pre.transformation(), text),
            before,
            after,
        )
    }

    open spec fn has_room(&self, text: Seq<char>) -> bool {
        W::has_room(&self.writer(), image_of(&self.transformation(), text))
    }

    proof fn took_nothing(sink: &Self) {
        lemma_image_of_empty(&sink.transformation());
        W::took_nothing(&sink.writer());
    }

    proof fn took_then(
        pre: &Self,
        mid: &Self,
        post: &Self,
        first: Seq<char>,
        second: Seq<char>,
    ) {
        lemma_image_of_concat(&pre.transformation(), first, second);
        W::took_then(
            &pre.writer(),
            &mid.writer(),
            &post.writer(),
            image_of(&pre.transformation(), first),
            image_of(&pre.transformation(), second),
        );
    }

    proof fn stored_nothing(sink: &Self, end: &W::Inner) {
        lemma_image_of_empty(&sink.transformation());
        W::stored_nothing(&sink.writer(), end);
    }

    proof fn stored_then(
        pre: &Self,
        mid: &Self,
        post: &Self,
        first: Seq<char>,
        second: Seq<char>,
        pre_end: &W::Inner,
        mid_end: &W::Inner,
        post_end: &W::Inner,
    ) {
        lemma_image_of_concat(&pre.transformation(), first, second);
        W::stored_then(
            &pre.writer(),
            &mid.writer(),
            &post.writer(),
            image_of(&pre.transformation(), first),
            image_of(&pre.transformation(), second),
            pre_end,
            mid_end,
            post_end,
        );
    }

    proof fn broke_more(
        pre: &Self,
        post: &Self,
        first: Seq<char>,
        second: Seq<char>,
        before: &W::Inner,
        after: &W::Inner,
    ) {
        lemma_image_of_concat(&pre.transformation(), first, second);
        W::broke_more(
            &pre.writer(),
            &post.writer(),
            image_of(&pre.transformation(), first),
            image_of(&pre.transformation(), second),
            before,
            after,
        );
    }

    proof fn broke_after(
        pre: &Self,
        mid: &Self,
        post: &Self,
        first: Seq<char>,
        second: Seq<char>,
        pre_end: &W::Inner,
        mid_end: &W::Inner,
        post_end: &W::Inner,
    ) {
        lemma_image_of_concat(&pre.transformation(), first, second);
        W::broke_after(
            &pre.writer(),
            &mid.writer(),
            &post.writer(),
            image_of(&pre.transformation(), first),
            image_of(&pre.transformation(), second),
            pre_end,
            mid_end,
            post_end,
        );
    }

    proof fn room_prefix(sink: &Self, first: Seq<char>, second: Seq<char>) {
        lemma_image_of_concat(&sink.transformation(), first, second);
        W::room_prefix(
            &sink.writer(),
            image_of(&sink.transformation(), first),
            image_of(&sink.transformation(), second),
        );
    }

    proof fn room_after(pre: &Self, post: &Self, first: Seq<char>, second: Seq<char>) {
        lemma_image_of_concat(&pre.transformation(), first, second);
        W::room_after(
            &pre.writer(),
            &post.writer(),
            image_of(&pre.transformation(), first),
            image_of(&pre.transformation(), second),
        );
    }

    fn write_char(&mut self, c: char) -> (res: Result<(), Self::Error>) {
        proof {
            lemma_image_of_one(&self.transformation, c);
        }
        self.transformation.transform_char(&mut self.writer, c)
    }

    fn write_str(&mut self, s: &str) -> (res: Result<(), Self::Error>) {
        self.transformation.transform_str(&mut self.writer, s)
    }

    /// The hint reaches the sink as the transformation adjusts it: the
    /// sink behind is what its own `size_hint` makes of it, told the
    /// adjusted number of bytes.
    fn size_hint(&mut self, bytes: usize)
        ensures
            final(self).transformation() == old(self).transformation(),
            exists|through: &mut W|
                *through == old(self).writer() && *final(through) == final(self).writer()
                    && #[trigger] call_ensures(
                    W::size_hint,
                    (through, T::adjusted(&old(self).transformation(), bytes)),
                    (),
                ),
    {
        proof {
            lemma_image_of_empty(&self.transformation);
        }
        self.writer.size_hint(self.transformation.transform_size_hint(bytes))
    }

    /// A hint is of use where it is of use to the sink behind: the answer
    /// of that sink is handed on unchanged, so `uses` is an answer that that
    /// sink gives.
    fn uses_size_hint(&self) -> (uses: bool)
        ensures
            call_ensures(W::uses_size_hint, (&self.writer(),), uses),
    {
        self.writer.uses_size_hint()
    }
}

/// The combinator that puts a transformation in front of a value. Every
/// value has it.
pub trait IntoTransformed: Sized {
    /// Puts `transformation` in front of this value.
    fn transformed<T: Transform>(self, transformation: T) -> (transformed: Transformed<Self, T>)
        ensures
            transformed.value() == self,
            transformed.transformation() == transformation,
    ;
}

impl<V> IntoTransformed for V {
    fn transformed<T: Transform>(self, transformation: T) -> (transformed: Transformed<Self, T>) {
        Transformed::new(self, transformation)
    }
}

/// The combinator that puts a transformation in front of a sink. Every sink
/// has it.
pub trait IntoTransformer: Write {
    /// Puts `transformation` in front of this sink.
    fn transform<T: Transform>(self, transformation: T) -> (transformer: Transformer<T, Self>)
        ensures
            transformer.transformation() == transformation,
            transformer.writer() == self,
    ;
}

impl<W: Write> IntoTransformer for W {
    fn transform<T: Transform>(self, transformation: T) -> (transformer: Transformer<T, Self>) {
        Transformer::new(transformation, self)
    }
}

/// A transformation put in front of a value: what the value renders reaches
/// any sink rewritten.
pub struct Transformed<V, T: Transform> {
    value: V,
    transformation: T,
}

impl<V, T: Transform> Transformed<V, T> {
    /// The value whose rendering is rewritten.
    pub closed spec fn value(&self) -> V {
        self.value
    }

    /// The transformation that rewrites it.
    pub closed spec fn transformation(&self) -> T {
        self.transformation
    }

    /// Puts `transformation` in front of `value`.
    pub fn new(value: V, transformation: T) -> (transformed: Self)
        ensures
            transformed.value() == value,
            transformed.transformation() == transformation,
    {
        Transformed { value, transformation }
    }
}

impl<S, V: Fmt<S>, T: Transform> Fmt<S> for Transformed<V, T> {
    open spec fn rendered(&self, strategy: &S) -> Seq<char> {
        image_of(&self.transformation(), V::rendered(&self.value(), strategy))
    }

    /// The estimate of the value as the transformation adjusts it; where
    /// the value's estimate is beyond `usize`, so is this one.
    open spec fn size_estimate(&self, strategy: &S) -> nat {
        let inner = V::size_estimate(&self.value(), strategy);
        if inner <= usize::MAX {
            T::adjusted(&self.transformation(), inner as usize) as nat
        } else {
            inner
        }
    }

    open spec fn depth(&self, strategy: &S) -> nat {
        V::depth(&self.value(), strategy) + 1
    }

    /// Renders the value into a transformer that stands, for the length of
    /// this call, in front of `writer`.
    fn fmt<W: Write>(&self, writer: &mut W, strategy: &S) -> (res: Result<(), W::Error>)
        ensures
            V::depth(&self.value(), strategy) <= 1 && W::has_room(
                old(writer),
                Self::rendered(self, strategy),
            ) ==> res is Ok,
    {
        proof {
            lemma_image_of_ref(&self.transformation, V::rendered(&self.value, strategy));
        }
        let mut through = Transformer::new(&self.transformation, writer);
        self.value.fmt(&mut through, strategy)
    }

    fn size_hint(&self, strategy: &S) -> (bytes: usize) {
        self.transformation.transform_size_hint(self.value.size_hint(strategy))
    }
}

/// A value behind a transformation that changes nothing renders as the
/// value alone: where every character is its own image, the text is the
/// same, and where every estimate is adjusted to itself, so is the estimate.
pub proof fn lemma_identity_transformed<S, V: Fmt<S>, T: Transform>(
    transformed: &Transformed<V, T>,
    strategy: &S,
)
    requires
        forall|c: char| T::image(&transformed.transformation(), c) == seq![c],
    ensures
        Transformed::rendered(transformed, strategy) == V::rendered(&transformed.value(), strategy),
        (forall|bytes: usize| T::adjusted(&transformed.transformation(), bytes) == bytes)
            ==> Transformed::size_estimate(transformed, strategy) == V::size_estimate(
            &transformed.value(),
            strategy,
        ),
{
    lemma_image_of_identity(
        &transformed.transformation(),
        V::rendered(&transformed.value(), strategy),
    );
}

/// A value behind `Identity` renders as the value alone: the text is the
/// same and so is the estimate.
pub proof fn lemma_identity_is_neutral<S, V: Fmt<S>>(
    transformed: &Transformed<V, Identity>,
    strategy: &S,
)
    ensures
        Transformed::rendered(transformed, strategy) == V::rendered(&transformed.value(), strategy),
        Transformed::size_estimate(transformed, strategy) == V::size_estimate(
            &transformed.value(),
            strategy,
        ),
        estimate_covers(&transformed.value(), strategy) ==> estimate_covers(transformed, strategy),
{
    lemma_identity_transformed(transformed, strategy);
}

/// Where the adjusted estimate bounds the length of every rewritten text by
/// a bound of the text's own length, and the estimate of the value is an
/// upper bound that fits in `usize`, the estimate of the transformed value
/// is an upper bound.
pub proof fn lemma_transformed_estimate_covers<S, V: Fmt<S>, T: Transform>(
    transformed: &Transformed<V, T>,
    strategy: &S,
)
    requires
        estimate_covers(&transformed.value(), strategy),
        V::size_estimate(&transformed.value(), strategy) <= usize::MAX,
        forall|text: Seq<char>, bytes: usize|
            utf8_len(text) <= bytes ==> utf8_len(
                #[trigger] image_of(&transformed.transformation(), text),
            ) <= #[trigger] T::adjusted(&transformed.transformation(), bytes),
    ensures
        estimate_covers(transformed, strategy),
{
    let text = V::rendered(&transformed.value(), strategy);
    let bytes = V::size_estimate(&transformed.value(), strategy) as usize;
    assert(utf8_len(image_of(&transformed.transformation(), text)) <= T::adjusted(
        &transformed.transformation(),
        bytes,
    ));
}

} // verus!
