//! The byte slice as a sink of fixed room: what is written goes to the front
//! of the slice as UTF-8, and the slice shrinks to what is left.

use crate::utf8::char_len;
use crate::utf8::lemma_encode_concat;
use crate::utf8::lemma_encode_empty;
use crate::utf8::lemma_encode_one;
use crate::utf8::utf8_len;
use crate::write::Write;
use vstd::prelude::*;
use vstd::slice::slice_subrange;
use vstd::utf8::encode_scalar;
use vstd::utf8::encode_utf8;

verus! {

/// The error of a write that found too little room left.
#[derive(Debug, Copy, Clone, PartialEq, Eq, PartialOrd, Ord, Hash)]
pub struct BufferOverflow;

impl BufferOverflow {
    /// What the error means, in words.
    pub fn message(&self) -> (text: &'static str)
        ensures
            text@ == "Attempt to write past buffer"@,
    {
        "Attempt to write past buffer"
    }
}

/// `core::mem::replace` puts `src` into `dest` and returns what `dest` held.
pub assume_specification<Item>[ core::mem::replace::<Item> ](dest: &mut Item, src: Item) -> (prev:
    Item)
    ensures
        *final(dest) == src,
        prev == *old(dest),
;

/// `copy_from_slice` makes `dest` hold what `src` holds. It panics where the
/// two differ in length: those calls are left out.
pub assume_specification<Item: Copy>[ <[Item]>::copy_from_slice ](dest: &mut [Item], src: &[Item])
    requires
        old(dest)@.len() == src@.len(),
    ensures
        final(dest)@ == src@,
;

/// `char::encode_utf8` writes the UTF-8 encoding of the character to the
/// front of the buffer. It panics where the buffer is too short: four bytes
/// are room enough for every character.
#[verifier::external_body]
pub(crate) fn encode_char(val: char, buf: &mut [u8; 4])
    ensures
        final(buf)@.subrange(0, char_len(val) as int) == encode_scalar(val as u32),
{
    val.encode_utf8(buf);
}

/// How many characters from the front of `text` go into `room` bytes, each
/// in full.
pub open spec fn fitting(text: Seq<char>, room: nat) -> nat
    decreases text.len(),
{
    if text.len() == 0 || char_len(text[0]) > room {
        0
    } else {
        1 + fitting(text.drop_first(), (room - char_len(text[0])) as nat)
    }
}

/// No more characters fit than there are.
pub proof fn lemma_fitting_bound(text: Seq<char>, room: nat)
    ensures
        fitting(text, room) <= text.len(),
    decreases text.len(),
{
    if text.len() > 0 && char_len(text[0]) <= room {
        lemma_fitting_bound(text.drop_first(), (room - char_len(text[0])) as nat);
    }
}

/// All characters fit exactly where the whole text is no longer than the
/// room.
pub proof fn lemma_fitting_all(text: Seq<char>, room: nat)
    ensures
        fitting(text, room) == text.len() <==> utf8_len(text) <= room,
    decreases text.len(),
{
    if text.len() == 0 {
        lemma_encode_empty();
        assert(text =~= Seq::empty());
    } else {
        let rest = text.drop_first();
        assert(text =~= seq![text[0]] + rest);
        lemma_encode_concat(seq![text[0]], rest);
        lemma_encode_one(text[0]);
        if char_len(text[0]) <= room {
            lemma_fitting_all(rest, (room - char_len(text[0])) as nat);
        }
    }
}

/// The characters that fit do fit: they are no longer than the room.
pub proof fn lemma_fitting_fits(text: Seq<char>, room: nat)
    ensures
        utf8_len(text.take(fitting(text, room) as int)) <= room,
    decreases text.len(),
{
    if text.len() == 0 || char_len(text[0]) > room {
        lemma_encode_empty();
        assert(text.take(0) =~= Seq::empty());
    } else {
        let rest = text.drop_first();
        let left = (room - char_len(text[0])) as nat;
        lemma_fitting_fits(rest, left);
        lemma_fitting_bound(rest, left);
        assert(text.take(1 + fitting(rest, left) as int) =~= seq![text[0]] + rest.take(
            fitting(rest, left) as int,
        ));
        lemma_encode_concat(seq![text[0]], rest.take(fitting(rest, left) as int));
        lemma_encode_one(text[0]);
    }
}

/// Where not all of a text fits, what follows the text changes nothing:
/// as many characters fit of the longer text.
pub proof fn lemma_fitting_more(first: Seq<char>, second: Seq<char>, room: nat)
    requires
        fitting(first, room) < first.len(),
    ensures
        fitting(first + second, room) == fitting(first, room),
    decreases first.len(),
{
    assert((first + second)[0] == first[0]);
    if char_len(first[0]) <= room {
        assert((first + second).drop_first() =~= first.drop_first() + second);
        lemma_fitting_more(first.drop_first(), second, (room - char_len(first[0])) as nat);
    }
}

/// Where all of a text fits, what fits of a longer text is that text and
/// what fits, of what follows, into the room that is left.
pub proof fn lemma_fitting_after(first: Seq<char>, second: Seq<char>, room: nat)
    requires
        utf8_len(first) <= room,
    ensures
        fitting(first + second, room) == first.len() + fitting(
            second,
            (room - utf8_len(first)) as nat,
        ),
    decreases first.len(),
{
    if first.len() == 0 {
        lemma_encode_empty();
        assert(first =~= Seq::empty());
        assert(first + second =~= second);
    } else {
        let rest = first.drop_first();
        assert(first =~= seq![first[0]] + rest);
        lemma_encode_concat(seq![first[0]], rest);
        lemma_encode_one(first[0]);
        assert((first + second)[0] == first[0]);
        assert((first + second).drop_first() =~= rest + second);
        lemma_fitting_after(rest, second, (room - char_len(first[0])) as nat);
    }
}

/// A byte slice takes text as UTF-8 at its front, as long as there is room.
///
/// The slice that is the sink is the room that is left; what was written
/// lies in front of it, in the slice that it was made of.
impl<'a> Write for &'a mut [u8] {
    type Error = BufferOverflow;

    type Inner = [u8];

    open spec fn inner(&self) -> &mut [u8] {
        *self
    }

    type Handle = ();

    /// There is no other sink behind this one.
    open spec fn handle(&self) -> &mut () {
        arbitrary()
    }

    /// The text fitted, and the room is less by its length in bytes.
    open spec fn took(pre: &Self, post: &Self, text: Seq<char>) -> bool {
        &&& utf8_len(text) <= (**pre)@.len()
        &&& (**post)@ == (**pre)@.skip(utf8_len(text) as int)
    }

    /// The room that there was holds the text as UTF-8, then what the room
    /// that is left holds.
    open spec fn stored(
        pre: &Self,
        post: &Self,
        text: Seq<char>,
        before: &[u8],
        after: &[u8],
    ) -> bool {
        before@ == encode_utf8(text) + after@
    }

    /// Not all of the text fitted: the characters that did, each in full,
    /// were taken and stored, and nothing of the rest.
    open spec fn broke(
        pre: &Self,
        post: &Self,
        text: Seq<char>,
        before: &[u8],
        after: &[u8],
    ) -> bool {
        let fitted = text.take(fitting(text, (**pre)@.len()) as int);
        &&& fitted.len() < text.len()
        &&& (**post)@ == (**pre)@.skip(utf8_len(fitted) as int)
        &&& before@ == encode_utf8(fitted) + after@
    }

    open spec fn has_room(&self, text: Seq<char>) -> bool {
        utf8_len(text) <= (**self)@.len()
    }

    proof fn took_nothing(sink: &Self) {
        lemma_encode_empty();
        assert((**sink)@.skip(0) =~= (**sink)@);
    }

    proof fn took_then(
        pre: &Self,
        mid: &Self,
        post: &Self,
        first: Seq<char>,
        second: Seq<char>,
    ) {
        lemma_encode_concat(first, second);
        assert((**pre)@.skip(utf8_len(first) as int).skip(utf8_len(second) as int) =~= (**pre)@.skip(
            utf8_len(first + second) as int,
        ));
    }

    proof fn stored_nothing(sink: &Self, end: &[u8]) {
        lemma_encode_empty();
        assert(Seq::<u8>::empty() + end@ =~= end@);
    }

    proof fn stored_then(
        pre: &Self,
        mid: &Self,
        post: &Self,
        first: Seq<char>,
        second: Seq<char>,
        pre_end: &[u8],
        mid_end: &[u8],
        post_end: &[u8],
    ) {
        lemma_encode_concat(first, second);
        assert(encode_utf8(first) + (encode_utf8(second) + post_end@) =~= (encode_utf8(first)
            + encode_utf8(second)) + post_end@);
    }

    proof fn broke_more(
        pre: &Self,
        post: &Self,
        first: Seq<char>,
        second: Seq<char>,
        before: &[u8],
        after: &[u8],
    ) {
        let room = (**pre)@.len();
        lemma_fitting_bound(first, room);
        lemma_fitting_more(first, second, room);
        assert((first + second).take(fitting(first, room) as int) =~= first.take(
            fitting(first, room) as int,
        ));
    }

    proof fn broke_after(
        pre: &Self,
        mid: &Self,
        post: &Self,
        first: Seq<char>,
        second: Seq<char>,
        pre_end: &[u8],
        mid_end: &[u8],
        post_end: &[u8],
    ) {
        let room = (**pre)@.len();
        let left = (**mid)@.len();
        let fitted = second.take(fitting(second, left) as int);
        lemma_fitting_bound(second, left);
        lemma_fitting_fits(second, left);
        lemma_fitting_after(first, second, room);
        assert((first + second).take(first.len() + fitting(second, left) as int) =~= first
            + fitted);
        lemma_encode_concat(first, fitted);
        assert((**pre)@.skip(utf8_len(first) as int).skip(utf8_len(fitted) as int) =~= (**pre)@.skip(
            utf8_len(first + fitted) as int,
        ));
        assert(encode_utf8(first) + (encode_utf8(fitted) + post_end@) =~= (encode_utf8(first)
            + encode_utf8(fitted)) + post_end@);
    }

    proof fn room_prefix(sink: &Self, first: Seq<char>, second: Seq<char>) {
        lemma_encode_concat(first, second);
    }

    proof fn room_after(pre: &Self, post: &Self, first: Seq<char>, second: Seq<char>) {
        lemma_encode_concat(first, second);
    }

    /// Writes the character where all of its bytes fit, and nothing of it
    /// where they do not.
    fn write_char(&mut self, val: char) -> (res: Result<(), Self::Error>)
        ensures
            res is Ok <==> char_len(val) <= (**old(self))@.len(),
            res is Err ==> *final(self) == *old(self),
    {
        let mut buf = [0u8; 4];
        encode_char(val, &mut buf);
        let len = val.len_utf8();
        proof {
            lemma_encode_one(val);
        }
        if len <= self.len() {
            let room = core::mem::replace(self, &mut []);
            let (first, second) = room.split_at_mut(len);
            first.copy_from_slice(slice_subrange(buf.as_slice(), 0, len));
            *self = second;
            Ok(())
        } else {
            proof {
                lemma_encode_empty();
                assert(seq![val].take(0) =~= Seq::<char>::empty());
                assert((**self)@.skip(0) =~= (**self)@);
                assert(Seq::<u8>::empty() + (*final(*self))@ =~= (*final(*self))@);
            }
            Err(BufferOverflow)
        }
    }

    /// Writes the characters of `val` as long as each fits in full, and
    /// fails at the first that does not.
    fn write_str(&mut self, val: &str) -> (res: Result<(), Self::Error>)
        ensures
            res is Ok <==> utf8_len(val@) <= (**old(self))@.len(),
            Self::took(
                old(self),
                final(self),
                val@.take(fitting(val@, (**old(self))@.len()) as int),
            ),
            Self::stored(
                old(self),
                final(self),
                val@.take(fitting(val@, (**old(self))@.len()) as int),
                final(Self::inner(old(self))),
                final(Self::inner(final(self))),
            ),
    {
        let ghost start = *self;
        let ghost room = (*start)@.len();
        proof {
            Self::took_nothing(&start);
            Self::stored_nothing(&start, final(Self::inner(&start)));
            assert(val@.take(0) =~= Seq::empty());
            assert(val@.skip(0) =~= val@);
            lemma_fitting_all(val@, room);
            lemma_fitting_bound(val@, room);
        }
        for c in it: val.chars()
            invariant
                it.seq() == val@,
                start == *old(self),
                room == (*start)@.len(),
                Self::took(&start, &*self, val@.take(it.index() as int)),
                Self::stored(
                    &start,
                    &*self,
                    val@.take(it.index() as int),
                    final(Self::inner(&start)),
                    final(Self::inner(&*self)),
                ),
                fitting(val@, room) == it.index() + fitting(
                    val@.skip(it.index() as int),
                    (**self)@.len(),
                ),
                fitting(val@, room) == val@.len() <==> utf8_len(val@) <= room,
        {
            let ghost mid = *self;
            let ghost done = val@.take(it.index() as int);
            let ghost rest = val@.skip(it.index() as int);
            proof {
                assert(rest[0] == c);
                assert(rest.drop_first() =~= val@.skip(it.index() as int + 1));
                lemma_encode_one(c);
            }
            match self.write_char(c) {
                Ok(()) => {},
                Err(e) => {
                    return Err(e);
                },
            }
            proof {
                assert(val@.take(it.index() as int + 1) =~= done + seq![c]);
                Self::took_then(&start, &mid, &*self, done, seq![c]);
                Self::stored_then(
                    &start,
                    &mid,
                    &*self,
                    done,
                    seq![c],
                    final(Self::inner(&start)),
                    final(Self::inner(&mid)),
                    final(Self::inner(&*self)),
                );
            }
        }
        proof {
            assert(val@.take(val@.len() as int) =~= val@);
            assert(val@.skip(val@.len() as int) =~= Seq::<char>::empty());
        }
        Ok(())
    }

    /// The room is what it is: a hint changes nothing.
    fn size_hint(&mut self, _bytes: usize)
        ensures
            *final(self) == *old(self),
    {
        proof {
            Self::took_nothing(&*self);
            Self::stored_nothing(&*self, final(Self::inner(&*self)));
        }
    }

    fn uses_size_hint(&self) -> (uses: bool)
        ensures
            !uses,
    {
        false
    }
}

} // verus!
