//! A sink of characters made of a sink of bytes: each character is encoded
//! and the bytes are handed on.

use crate::buffer::encode_char;
use crate::utf8::lemma_encode_concat;
use crate::utf8::lemma_encode_empty;
use crate::utf8::lemma_encode_one;
use crate::write::Write;
use core::marker::PhantomData;
use std::vec::Vec;
use void::Void;
use vstd::prelude::*;
use vstd::slice::slice_subrange;
use vstd::utf8::encode_utf8;

verus! {

/// `<Vec<u8> as genio::Write>::write_all` appends all of the bytes to the
/// vector and never fails.
#[verifier::external_body]
fn write_all(writer: &mut Vec<u8>, bytes: &[u8]) -> (res: Result<(), Void>)
    ensures
        res is Ok,
        final(writer)@ == old(writer)@ + bytes@,
{
    genio::Write::write_all(writer, bytes)
}

/// `<Vec<u8> as genio::Write>::size_hint` reserves room for `bytes` more
/// bytes and leaves what the vector holds as it is. The reservation panics
/// where the capacity would pass `isize::MAX`: those calls are left out.
#[verifier::external_body]
fn hint_size(writer: &mut Vec<u8>, bytes: usize)
    requires
        old(writer)@.len() + bytes <= isize::MAX,
    ensures
        final(writer)@ == old(writer)@,
{
    genio::Write::size_hint(writer, bytes)
}

/// `<Vec<u8> as genio::Write>::uses_size_hint` returns `true` for every
/// vector.
#[verifier::external_body]
fn hint_used(writer: &Vec<u8>) -> (uses: bool)
    ensures
        uses,
{
    genio::Write::uses_size_hint(writer)
}

/// A way of turning characters into bytes.
pub trait Encoding {
    /// The bytes that `text` is encoded as.
    spec fn encoded(text: Seq<char>) -> Seq<u8>;

    /// No text, no bytes.
    proof fn encoded_nothing()
        ensures
            Self::encoded(Seq::empty()) == Seq::<u8>::empty(),
    ;

    /// A text is encoded part by part.
    proof fn encoded_then(first: Seq<char>, second: Seq<char>)
        ensures
            Self::encoded(first + second) == Self::encoded(first) + Self::encoded(second),
    ;

    /// Appends the encoding of `chr` to `writer`.
    fn encode_char(writer: &mut Vec<u8>, chr: char) -> (res: Result<(), Void>)
        ensures
            res is Ok,
            final(writer)@ == old(writer)@ + Self::encoded(seq![chr]),
    ;

    /// Appends the encoding of `string` to `writer`.
    fn encode_str(writer: &mut Vec<u8>, string: &str) -> (res: Result<(), Void>)
        ensures
            res is Ok,
            final(writer)@ == old(writer)@ + Self::encoded(string@),
    ;
}

/// A sink of bytes as a sink of characters, in the encoding `E`.
///
/// It is a sink where the sink of bytes is a mutable reference to a vector.
pub struct Encoder<W, E> {
    writer: W,
    phantom: PhantomData<E>,
}

impl<W, E> Encoder<W, E> {
    /// The sink of bytes.
    pub closed spec fn writer(&self) -> W {
        self.writer
    }
}

impl<W, E: Encoding> Encoder<W, E> {
    /// Makes a sink of characters of `writer`.
    pub fn new(writer: W) -> (encoder: Self)
        ensures
            encoder.writer() == writer,
    {
        Encoder { writer, phantom: PhantomData }
    }

    /// Gives the sink of bytes back.
    pub fn into_inner(self) -> (writer: W)
        ensures
            writer == self.writer(),
    {
        self.writer
    }
}

impl<'a, E: Encoding> Write for Encoder<&'a mut Vec<u8>, E> {
    type Error = Void;

    type Inner = Vec<u8>;

    /// The vector that the bytes go to.
    open spec fn inner(&self) -> &mut Vec<u8> {
        self.writer()
    }

    type Handle = ();

    /// There is no other sink behind this one.
    open spec fn handle(&self) -> &mut () {
        arbitrary()
    }

    /// The vector is longer by the encoding of the text.
    open spec fn took(pre: &Self, post: &Self, text: Seq<char>) -> bool {
        post.writer()@ == pre.writer()@ + E::encoded(text)
    }

    /// The vector is the same vector, before and after.
    open spec fn stored(
        pre: &Self,
        post: &Self,
        text: Seq<char>,
        before: &Vec<u8>,
        after: &Vec<u8>,
    ) -> bool {
        before == after
    }

    /// It never fails, so there is nothing to say of it after a failure.
    open spec fn broke(
        pre: &Self,
        post: &Self,
        text: Seq<char>,
        before: &Vec<u8>,
        after: &Vec<u8>,
    ) -> bool {
        true
    }

    open spec fn has_room(&self, text: Seq<char>) -> bool {
        true
    }

    proof fn took_nothing(sink: &Self) {
        E::encoded_nothing();
        assert(sink.writer()@ + Seq::<u8>::empty() =~= sink.writer()@);
    }

    proof fn took_then(
        pre: &Self,
        mid: &Self,
        post: &Self,
        first: Seq<char>,
        second: Seq<char>,
    ) {
        E::encoded_then(first, second);
        assert((pre.writer()@ + E::encoded(first)) + E::encoded(second) =~= pre.writer()@ + (
        E::encoded(first) + E::encoded(second)));
    }

    proof fn stored_nothing(sink: &Self, end: &Vec<u8>) {
    }

    proof fn stored_then(
        pre: &Self,
        mid: &Self,
        post: &Self,
        first: Seq<char>,
        second: Seq<char>,
        pre_end: &Vec<u8>,
        mid_end: &Vec<u8>,
        post_end: &Vec<u8>,
    ) {
    }

    proof fn broke_more(
        pre: &Self,
        post: &Self,
        first: Seq<char>,
        second: Seq<char>,
        before: &Vec<u8>,
        after: &Vec<u8>,
    ) {
    }

    proof fn broke_after(
        pre: &Self,
        mid: &Self,
        post: &Self,
        first: Seq<char>,
        second: Seq<char>,
        pre_end: &Vec<u8>,
        mid_end: &Vec<u8>,
        post_end: &Vec<u8>,
    ) {
    }

    proof fn room_prefix(sink: &Self, first: Seq<char>, second: Seq<char>) {
    }

    proof fn room_after(pre: &Self, post: &Self, first: Seq<char>, second: Seq<char>) {
    }

    fn write_char(&mut self, val: char) -> (res: Result<(), Self::Error>)
        ensures
            res is Ok,
    {
        E::encode_char(&mut *self.writer, val)
    }

    fn write_str(&mut self, val: &str) -> (res: Result<(), Self::Error>)
        ensures
            res is Ok,
    {
        E::encode_str(&mut *self.writer, val)
    }

    /// Hands the hint on to the vector, where the vector can grow by that
    /// much at all: what the vector holds stays. Else the vector is not
    /// touched.
    fn size_hint(&mut self, bytes: usize)
        ensures
            final(self).writer()@ == old(self).writer()@,
            old(self).writer()@.len() + bytes > isize::MAX ==> *final(self).writer() == *old(
                self,
            ).writer(),
    {
        proof {
            E::encoded_nothing();
            assert(self.writer@ + Seq::<u8>::empty() =~= self.writer@);
        }
        let limit = usize::MAX / 2;
        let len = self.writer.len();
        if len <= limit && bytes <= limit - len {
            hint_size(&mut *self.writer, bytes);
        }
    }

    fn uses_size_hint(&self) -> (uses: bool)
        ensures
            uses,
    {
        hint_used(&*self.writer)
    }
}

/// The encoding of text as UTF-8. It is named as a type only; its one value
/// stands for nothing.
pub enum Utf8 {
    /// The encoding itself.
    Utf8,
}

impl Encoding for Utf8 {
    open spec fn encoded(text: Seq<char>) -> Seq<u8> {
        encode_utf8(text)
    }

    proof fn encoded_nothing() {
        lemma_encode_empty();
    }

    proof fn encoded_then(first: Seq<char>, second: Seq<char>) {
        lemma_encode_concat(first, second);
    }

    fn encode_char(writer: &mut Vec<u8>, chr: char) -> (res: Result<(), Void>) {
        let mut buf = [0u8; 4];
        encode_char(chr, &mut buf);
        let len = chr.len_utf8();
        proof {
            lemma_encode_one(chr);
        }
        write_all(writer, slice_subrange(buf.as_slice(), 0, len))
    }

    fn encode_str(writer: &mut Vec<u8>, string: &str) -> (res: Result<(), Void>) {
        write_all(writer, string.as_bytes())
    }
}

} // verus!
