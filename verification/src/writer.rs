//! A text writer over a caller's byte buffer of fixed size.
use vstd::prelude::*;

verus! {

/// Writes into a borrowed buffer (the first field) from a position (the second
/// field) that never passes the end of the buffer.
///
/// The bytes before the position are the writer's data.
pub struct FixedWriter<'a>(pub &'a mut [u8], pub usize);

/// The byte stored for a character: the low eight bits of its code point.
pub open spec fn low_byte(c: char) -> u8 {
    (c as u32 % 256) as u8
}

/// The bytes stored for a text, one for each character.
pub open spec fn low_bytes(text: Seq<char>) -> Seq<u8> {
    text.map_values(|c: char| low_byte(c))
}

/// How many bytes of a buffer of `capacity` bytes lie at or after `position`.
pub open spec fn room(capacity: nat, position: nat) -> nat {
    if position <= capacity {
        (capacity - position) as nat
    } else {
        0
    }
}

/// How many characters of a text a writer takes: all of them, or as many as there is room for.
pub open spec fn taken(capacity: nat, position: nat, text: Seq<char>) -> nat {
    if text.len() <= room(capacity, position) {
        text.len()
    } else {
        room(capacity, position)
    }
}

/// `buffer` with `bytes` laid over it, the first of them at `at`.
pub open spec fn overlaid(buffer: Seq<u8>, at: nat, bytes: Seq<u8>) -> Seq<u8> {
    Seq::new(
        buffer.len(),
        |i: int|
            if at <= i < at + bytes.len() {
                bytes[i - at]
            } else {
                buffer[i]
            },
    )
}

/// What a buffer holds once `text` has been written at `position`, cut off at the buffer's end.
pub open spec fn written(buffer: Seq<u8>, position: nat, text: Seq<char>) -> Seq<u8> {
    overlaid(buffer, position, low_bytes(text.take(taken(buffer.len(), position, text) as int)))
}

/// Where a writer stands once it has written `text`.
pub open spec fn position_after(capacity: nat, position: nat, text: Seq<char>) -> nat {
    position + taken(capacity, position, text)
}

/// How many bytes of a slice of `len` bytes are copied: all of them, or as many as there is room
/// for.
pub open spec fn copied_len(capacity: nat, position: nat, len: nat) -> nat {
    if len <= room(capacity, position) {
        len
    } else {
        room(capacity, position)
    }
}

/// What a buffer holds once `other` has been copied to `position`, cut off at the buffer's end.
pub open spec fn copied(buffer: Seq<u8>, position: nat, other: Seq<u8>) -> Seq<u8> {
    overlaid(
        buffer,
        position,
        other.take(copied_len(buffer.len(), position, other.len()) as int),
    )
}

impl<'a> FixedWriter<'a> {
    /// The whole buffer, written or not.
    pub open spec fn buffer(&self) -> Seq<u8> {
        self.0@
    }

    /// How many bytes count as written.
    pub open spec fn position(&self) -> nat {
        self.1 as nat
    }

    /// The position lies within the buffer.
    pub open spec fn wf(&self) -> bool {
        self.position() <= self.buffer().len()
    }

    /// The bytes before the position.
    pub open spec fn written_bytes(&self) -> Seq<u8> {
        self.buffer().take(self.position() as int)
    }

    /// A writer that stands at the start of `buffer`.
    ///
    /// What the writer last leaves in its buffer is what the caller's buffer holds afterwards.
    pub fn new(buffer: &'a mut [u8]) -> (writer: Self)
        ensures
            writer.wf(),
            writer.buffer() == old(buffer)@,
            writer.position() == 0,
            final(writer.0)@ == final(buffer)@,
    {
        FixedWriter(buffer, 0)
    }

    /// The bytes before the position.
    pub fn data(&self) -> (data: &[u8])
        requires
            self.wf(),
        ensures
            data@ == self.written_bytes(),
    {
        vstd::slice::slice_subrange(&*self.0, 0, self.1)
    }

    /// Copies as much of `other` as there is room for to the position on.
    ///
    /// The new position is the number of bytes copied, counted from the start of the buffer.
    pub fn copy_from_slice(&mut self, other: &[u8])
        requires
            old(self).wf(),
        ensures
            final(self).wf(),
            final(self).buffer() == copied(old(self).buffer(), old(self).position(), other@),
            final(self).position() == copied_len(
                old(self).buffer().len(),
                old(self).position(),
                other@.len(),
            ),
            final(final(self).0)@ == final(old(self).0)@,
    {
        let capacity: usize = self.0.len();
        let room: usize = capacity - self.1;
        let len: usize = if room <= other.len() {
            room
        } else {
            other.len()
        };
        let mut i: usize = 0;
        while i < len
            invariant
                i <= len <= other@.len(),
                self.1 == old(self).1,
                self.0@.len() == capacity,
                self.1 + len <= capacity,
                self.0@ == overlaid(old(self).0@, old(self).position(), other@.take(i as int)),
                final(self.0)@ == final(old(self).0)@,
            decreases len - i,
        {
            self.0[self.1 + i] = other[i];
            i += 1;
            assert(self.0@ =~= overlaid(
                old(self).0@,
                old(self).position(),
                other@.take(i as int),
            ));
        }
        self.1 = len;
    }
}

/// `core::fmt::Error`, the error of `core::fmt::Write`: it carries no information.
#[verifier::external_type_specification]
#[verifier::external_body]
pub struct ExFmtError(core::fmt::Error);

/// Makes the value of the unit struct `core::fmt::Error`. It has only one, so nothing is
/// claimed of it.
#[verifier::external_body]
fn fmt_error() -> core::fmt::Error {
    core::fmt::Error
}

impl<'a> core::fmt::Write for FixedWriter<'a> {
    /// Writes `s` at the position, one byte for each character, and moves past it.
    ///
    /// Fails if there is not room for the whole of `s`, once the room that there is has been
    /// filled.
    fn write_str(&mut self, s: &str) -> (result: Result<(), core::fmt::Error>)
        ensures
            result is Ok <==> s@.len() <= room(old(self).buffer().len(), old(self).position()),
            final(self).buffer() == written(old(self).buffer(), old(self).position(), s@),
            final(self).position() == position_after(
                old(self).buffer().len(),
                old(self).position(),
                s@,
            ),
            old(self).wf() ==> final(self).wf(),
            final(final(self).0)@ == final(old(self).0)@,
            final(self).0@.len() == old(self).0@.len(),
            forall|i: int|
                0 <= i < s@.len() && old(self).1 + i < old(self).0@.len() ==> final(self).0@[
                    old(self).1 + i
                ] as int == (#[trigger] s@[i]) as u32 % 256,
            forall|j: int|
                0 <= j < old(self).0@.len() && (j < old(self).1 || old(self).1 + s@.len() <= j)
                    ==> #[trigger] final(self).0@[j] == old(self).0@[j],
            old(self).1 + s@.len() <= old(self).0@.len() ==> final(self).1 == old(self).1
                + s@.len(),
            old(self).1 <= old(self).0@.len() < old(self).1 + s@.len() ==> final(self).1
                == old(self).0@.len(),
            result is Ok <==> s@.len() == 0 || old(self).1 + s@.len() <= old(self).0@.len(),
    {
        proof {
            law_text_is_stored_character_by_character(self.0@, self.1 as nat, s@);
        }
        let ghost buffer = self.0@;
        let ghost start = self.1 as nat;
        assert(overlaid(buffer, start, low_bytes(s@.take(0))) =~= buffer);
        for c in chars: s.chars()
            invariant
                chars.seq() == s@,
                self.0@.len() == buffer.len(),
                chars.index() <= room(buffer.len(), start),
                self.1 == start + chars.index(),
                self.0@ == overlaid(buffer, start, low_bytes(s@.take(chars.index()))),
                buffer == old(self).0@,
                start == old(self).1,
                final(self.0)@ == final(old(self).0)@,
        {
            if self.1 >= self.0.len() {
                return Err(fmt_error());
            }
            let code: u32 = c as u32;
            proof {
                assert(code as u8 == code % 256) by (bit_vector);
                assert(c == s@[chars.index()]);
            }
            self.0[self.1] = #[verifier::truncate] (code as u8);
            self.1 += 1;
            assert(self.0@ =~= overlaid(
                buffer,
                start,
                low_bytes(s@.take(chars.index() + 1)),
            ));
        }
        Ok(())
    }
}

/// Writing two texts one after the other leaves what writing them joined into one leaves, also
/// where the buffer is too small for them.
pub proof fn law_write_joins(buffer: Seq<u8>, position: nat, first: Seq<char>, second: Seq<char>)
    requires
        position <= buffer.len(),
    ensures
        written(
            written(buffer, position, first),
            position_after(buffer.len(), position, first),
            second,
        ) == written(buffer, position, first + second),
        position_after(
            buffer.len(),
            position_after(buffer.len(), position, first),
            second,
        ) == position_after(buffer.len(), position, first + second),
{
    let after = position_after(buffer.len(), position, first);
    let joined = first + second;
    let n1 = taken(buffer.len(), position, first) as int;
    let n2 = taken(buffer.len(), after, second) as int;
    let n = taken(buffer.len(), position, joined) as int;
    assert(n == n1 + n2);
    assert(n2 > 0 ==> n1 == first.len());
    assert forall|i: int| 0 <= i < n implies #[trigger] joined.take(n)[i] == (if i < n1 {
        first.take(n1)[i]
    } else {
        second.take(n2)[i - n1]
    }) by {}
    assert(written(written(buffer, position, first), after, second) =~= written(
        buffer,
        position,
        joined,
    ));
}

/// Writing keeps the data there was and adds to its end the bytes of as many characters as there
/// was room for.
pub proof fn law_write_appends(buffer: Seq<u8>, position: nat, text: Seq<char>)
    requires
        position <= buffer.len(),
    ensures
        written(buffer, position, text).len() == buffer.len(),
        position_after(buffer.len(), position, text) <= buffer.len(),
        written(buffer, position, text).take(
            position_after(buffer.len(), position, text) as int,
        ) == buffer.take(position as int) + low_bytes(
            text.take(taken(buffer.len(), position, text) as int),
        ),
{
    assert(written(buffer, position, text).take(
        position_after(buffer.len(), position, text) as int,
    ) =~= buffer.take(position as int) + low_bytes(
        text.take(taken(buffer.len(), position, text) as int),
    ));
}

/// A slice copied to the start of a buffer is then the data, cut off at the buffer's length.
pub proof fn law_copy_to_start(buffer: Seq<u8>, other: Seq<u8>)
    ensures
        copied(buffer, 0, other).len() == buffer.len(),
        copied(buffer, 0, other).take(copied_len(buffer.len(), 0, other.len()) as int)
            == other.take(copied_len(buffer.len(), 0, other.len()) as int),
        other.len() <= buffer.len() ==> copied(buffer, 0, other).take(
            copied_len(buffer.len(), 0, other.len()) as int,
        ) == other,
{
    let len = copied_len(buffer.len(), 0, other.len()) as int;
    assert(copied(buffer, 0, other).take(len) =~= other.take(len));
    assert(other.take(other.len() as int) =~= other);
}

/// A new writer stands at the start of its buffer, which is as it was.
pub proof fn law_new_writer_stands_at_the_start<'a>(buffer: &'a mut [u8], writer: FixedWriter<'a>)
    requires
        call_ensures(FixedWriter::new, (buffer,), writer),
    ensures
        old(writer.0)@ == old(buffer)@,
        writer.1 == 0,
        final(writer.0)@ == final(buffer)@,
{
}

/// The data is every byte of the buffer before the position, in order.
pub proof fn law_data_is_what_lies_before_the_position(writer: FixedWriter<'_>, data: &[u8])
    requires
        writer.1 <= writer.0@.len(),
        call_ensures(FixedWriter::data, (&writer,), data),
    ensures
        data@.len() == writer.1,
        forall|i: int| 0 <= i < writer.1 ==> #[trigger] data@[i] == old(writer.0)@[i],
{
}

/// Writing a text stores at the place of every character that fits the character's code point
/// modulo 256, changes no other byte, and moves the position past what was stored.
pub proof fn law_text_is_stored_character_by_character(
    buffer: Seq<u8>,
    position: nat,
    text: Seq<char>,
)
    ensures
        ({
            let after = written(buffer, position, text);
            let end = buffer.len();
            let len = text.len();
            &&& after.len() == end
            &&& forall|i: int|
                0 <= i < len && position + i < end ==> after[position + i] as int == (
                #[trigger] text[i]) as u32 % 256
            &&& forall|j: int|
                0 <= j < end && (j < position || position + len <= j) ==> #[trigger] after[j]
                    == buffer[j]
            &&& position + len <= end ==> position_after(end, position, text) == position + len
            &&& position <= end < position + len ==> position_after(end, position, text) == end
            &&& end < position ==> position_after(end, position, text) == position
            &&& len <= room(end, position) <==> len == 0 || position + len <= end
        }),
{
    let after = written(buffer, position, text);
    let stored = text.take(taken(buffer.len(), position, text) as int);
    assert forall|i: int| 0 <= i < text.len() && position + i < buffer.len() implies after[position
        + i] as int == (#[trigger] text[i]) as u32 % 256 by {
        assert(stored[i] == text[i]);
    }
}

/// A text of ASCII characters that fits is, after the data there was, the data: each of its bytes
/// is the code of its character.
pub proof fn law_ascii_text_is_the_data(buffer: Seq<u8>, position: nat, text: Seq<char>)
    requires
        position + text.len() <= buffer.len(),
        forall|i: int| 0 <= i < text.len() ==> (#[trigger] text[i]) as u32 <= 127,
    ensures
        ({
            let data = written(buffer, position, text).take(
                position_after(buffer.len(), position, text) as int,
            );
            &&& data.len() == position + text.len()
            &&& forall|i: int| 0 <= i < position ==> #[trigger] data[i] == buffer[i]
            &&& forall|i: int|
                0 <= i < text.len() ==> data[position + i] as int == (#[trigger] text[i]) as u32
        }),
{
    law_text_is_stored_character_by_character(buffer, position, text);
    let after = written(buffer, position, text);
    let data = after.take(position_after(buffer.len(), position, text) as int);
    assert forall|i: int| 0 <= i < text.len() implies data[position + i] as int == (
    #[trigger] text[i]) as u32 by {
        assert(after[position + i] as int == text[i] as u32 % 256);
    }
}

/// Copying stores the bytes of the slice from the position on, as many as fit, and changes no other
/// byte; the position is then the number of bytes copied.
pub proof fn law_slice_is_copied_byte_by_byte(writer: &mut FixedWriter<'_>, other: &[u8])
    requires
        old(writer).1 <= old(writer).0@.len(),
        call_ensures(FixedWriter::copy_from_slice, (writer, other), ()),
    ensures
        ({
            let at = old(writer).1 as int;
            let end = old(writer).0@.len() as int;
            let len = other@.len() as int;
            &&& final(writer).0@.len() == end
            &&& forall|i: int|
                0 <= i < len && at + i < end ==> final(writer).0@[at + i] == #[trigger] other@[i]
            &&& forall|j: int|
                0 <= j < end && (j < at || at + len <= j) ==> #[trigger] final(writer).0@[j]
                    == old(writer).0@[j]
            &&& at + len <= end ==> final(writer).1 == len
            &&& end < at + len ==> final(writer).1 == end - at
        }),
{
}

}
