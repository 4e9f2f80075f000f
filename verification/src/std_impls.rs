//! Text as a value and the growable string as a sink.

use crate::render::estimate_is_exact;
use crate::render::Fmt;
use crate::utf8::char_len;
use crate::utf8::lemma_encode_one;
use crate::utf8::utf8_len;
use crate::write::Write;
use crate::Display;
use std::collections::TryReserveError;
use std::string::String;
use void::Void;
use vstd::prelude::*;

verus! {

/// The error of a sink that cannot fail: `void::Void`, a type without
/// values.
#[verifier::external_type_specification]
#[verifier::external_body]
pub struct ExVoid(Void);

/// `char::len_utf8` returns the number of bytes that the character takes in
/// UTF-8.
pub assume_specification[ char::len_utf8 ](c: char) -> (len: usize)
    ensures
        len == char_len(c),
;

/// `String::push` appends the character to the end of the string.
pub assume_specification[ String::push ](string: &mut String, ch: char)
    ensures
        final(string)@ == old(string)@.push(ch),
;

/// `String::push_str` appends the string slice to the end of the string.
pub assume_specification[ String::push_str ](string: &mut String, text: &str)
    ensures
        final(string)@ == old(string)@ + text@,
;

/// `String::try_reserve` changes the capacity at most: the text stays what
/// it is, whether room could be reserved or not.
pub assume_specification[ String::try_reserve ](string: &mut String, additional: usize) -> (res:
    Result<(), TryReserveError>)
    ensures
        final(string)@ == old(string)@,
;

/// Text renders as itself.
impl Fmt<Display> for str {
    open spec fn rendered(&self, strategy: &Display) -> Seq<char> {
        self@
    }

    /// The exact length of the text in bytes.
    open spec fn size_estimate(&self, strategy: &Display) -> nat {
        utf8_len(self@)
    }

    open spec fn depth(&self, strategy: &Display) -> nat {
        0
    }

    fn fmt<W: Write>(&self, writer: &mut W, _strategy: &Display) -> (res: Result<(), W::Error>) {
        writer.write_str(self)
    }

    fn size_hint(&self, _strategy: &Display) -> (bytes: usize)
        ensures
            bytes == utf8_len(self@),
    {
        self.len()
    }
}

/// Text renders for diagnosis as it does for reading.
impl Fmt<crate::Debug> for str {
    open spec fn rendered(&self, strategy: &crate::Debug) -> Seq<char> {
        self@
    }

    /// The exact length of the text in bytes.
    open spec fn size_estimate(&self, strategy: &crate::Debug) -> nat {
        utf8_len(self@)
    }

    open spec fn depth(&self, strategy: &crate::Debug) -> nat {
        0
    }

    fn fmt<W: Write>(&self, writer: &mut W, _strategy: &crate::Debug) -> (res: Result<
        (),
        W::Error,
    >) {
        writer.write_str(self)
    }

    fn size_hint(&self, _strategy: &crate::Debug) -> (bytes: usize)
        ensures
            bytes == utf8_len(self@),
    {
        self.len()
    }
}

/// A character renders as itself.
impl Fmt<Display> for char {
    open spec fn rendered(&self, strategy: &Display) -> Seq<char> {
        seq![*self]
    }

    /// The exact length of the character in bytes.
    open spec fn size_estimate(&self, strategy: &Display) -> nat {
        char_len(*self)
    }

    open spec fn depth(&self, strategy: &Display) -> nat {
        0
    }

    fn fmt<W: Write>(&self, writer: &mut W, _strategy: &Display) -> (res: Result<(), W::Error>) {
        writer.write_char(*self)
    }

    fn size_hint(&self, _strategy: &Display) -> (bytes: usize)
        ensures
            bytes == utf8_len(seq![*self]),
    {
        proof {
            lemma_encode_one(*self);
        }
        self.len_utf8()
    }
}

/// A string renders as its text.
impl Fmt for String {
    open spec fn rendered(&self, strategy: &Display) -> Seq<char> {
        self@
    }

    /// The exact length of the text in bytes.
    open spec fn size_estimate(&self, strategy: &Display) -> nat {
        utf8_len(self@)
    }

    open spec fn depth(&self, strategy: &Display) -> nat {
        0
    }

    fn fmt<W: Write>(&self, writer: &mut W, strategy: &Display) -> (res: Result<(), W::Error>) {
        self.as_str().fmt(writer, strategy)
    }

    fn size_hint(&self, _strategy: &Display) -> (bytes: usize)
        ensures
            bytes == utf8_len(self@),
    {
        self.as_str().len()
    }
}

/// The estimate of text, of a string and of a character is exact: it is the
/// length of what they render, in bytes of UTF-8.
pub proof fn lemma_text_estimate_is_exact(text: &str, string: &String, c: char)
    ensures
        estimate_is_exact::<Display, str>(text, &Display),
        estimate_is_exact::<crate::Debug, str>(text, &crate::Debug),
        estimate_is_exact::<Display, String>(string, &Display),
        estimate_is_exact::<Display, char>(&c, &Display),
{
    lemma_encode_one(c);
}

/// The growable string as a sink: it takes every text and never fails.
impl Write for String {
    type Error = Void;

    type Inner = ();

    /// A string keeps its text in itself: there is nothing behind it.
    open spec fn inner(&self) -> &mut () {
        arbitrary()
    }

    type Handle = ();

    /// There is no other sink behind this one.
    open spec fn handle(&self) -> &mut () {
        arbitrary()
    }

    open spec fn took(pre: &Self, post: &Self, text: Seq<char>) -> bool {
        post@ == pre@ + text
    }

    open spec fn stored(pre: &Self, post: &Self, text: Seq<char>, before: &(), after: &()) -> bool {
        true
    }

    /// It never fails, so there is nothing to say of it after a failure.
    open spec fn broke(
        pre: &Self,
        post: &Self,
        text: Seq<char>,
        before: &(),
        after: &(),
    ) -> bool {
        true
    }

    open spec fn has_room(&self, text: Seq<char>) -> bool {
        true
    }

    proof fn took_nothing(sink: &Self) {
        assert(sink@ + Seq::<char>::empty() =~= sink@);
    }

    proof fn took_then(
        pre: &Self,
        mid: &Self,
        post: &Self,
        first: Seq<char>,
        second: Seq<char>,
    ) {
        assert((pre@ + first) + second =~= pre@ + (first + second));
    }

    proof fn stored_nothing(sink: &Self, end: &()) {
    }

    proof fn stored_then(
        pre: &Self,
        mid: &Self,
        post: &Self,
        first: Seq<char>,
        second: Seq<char>,
        pre_end: &(),
        mid_end: &(),
        post_end: &(),
    ) {
    }

    proof fn broke_more(
        pre: &Self,
        post: &Self,
        first: Seq<char>,
        second: Seq<char>,
        before: &(),
        after: &(),
    ) {
    }

    proof fn broke_after(
        pre: &Self,
        mid: &Self,
        post: &Self,
        first: Seq<char>,
        second: Seq<char>,
        pre_end: &(),
        mid_end: &(),
        post_end: &(),
    ) {
    }

    proof fn room_prefix(sink: &Self, first: Seq<char>, second: Seq<char>) {
    }

    proof fn room_after(pre: &Self, post: &Self, first: Seq<char>, second: Seq<char>) {
    }

    fn write_char(&mut self, val: char) -> (res: Result<(), Self::Error>)
        ensures
            res is Ok,
            final(self)@ == old(self)@.push(val),
    {
        self.push(val);
        assert(old(self)@.push(val) =~= old(self)@ + seq![val]);
        Ok(())
    }

    fn write_str(&mut self, val: &str) -> (res: Result<(), Self::Error>)
        ensures
            res is Ok,
            final(self)@ == old(self)@ + val@,
    {
        self.push_str(val);
        Ok(())
    }

    /// Reserves room for `bytes` more bytes where that much can be had.
    fn size_hint(&mut self, bytes: usize)
        ensures
            final(self)@ == old(self)@,
    {
        let _ = self.try_reserve(bytes);
        assert(old(self)@ + Seq::<char>::empty() =~= old(self)@);
    }

    fn uses_size_hint(&self) -> (uses: bool)
        ensures
            uses,
    {
        true
    }
}

} // verus!
