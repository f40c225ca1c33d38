//! The bounded buffer that holds a record's free text.
//!
//! Free text is what is left of a sentence after its leading fields. The
//! fields that remain are appended to a buffer of fixed capacity one by one,
//! with the delimiter put back between each two. Text that does not fit is
//! an error; it is never cut short.

use crate::error::{Cause, ErrorKind};
use crate::fields::{join_fields, lemma_join_split, split_fields, Fields, DELIMITER};
use vstd::prelude::*;
use vstd::string::{is_ascii, is_ascii_spec_bytes, StringSliceAdditionalSpecFns};

verus! {

/// The largest number of bytes that a record's free text may hold.
pub const TEXT_CAPACITY: usize = 69;

/// `heapless::String`, a text buffer of fixed capacity, taken as an opaque
/// type: what it holds is known through [`text_bytes`] alone.
#[verifier::external_type_specification]
#[verifier::external_body]
pub struct ExHeaplessString<const N: usize>(heapless::String<N>);

/// The bytes that a text buffer holds, in order.
pub uninterp spec fn text_bytes(text: heapless::String<69>) -> Seq<u8>;

/// `heapless::String::new`: the buffer it returns holds nothing.
#[verifier::external_body]
fn text_new() -> (text: heapless::String<69>)
    ensures
        text_bytes(text) == Seq::<u8>::empty(),
{
    heapless::String::new()
}

/// `heapless::String::push_str`: where the buffer's bytes and those of `part`
/// together are no more than 69, `part` is appended and the call succeeds;
/// where they are more, the call fails and the buffer is left as it was.
#[verifier::external_body]
fn text_push_str(text: &mut heapless::String<69>, part: &str) -> (pushed: Result<(), ()>)
    ensures
        text_bytes(*old(text)).len() + part.spec_bytes().len() <= 69 ==> pushed is Ok
            && text_bytes(*final(text)) == text_bytes(*old(text)) + part.spec_bytes(),
        text_bytes(*old(text)).len() + part.spec_bytes().len() > 69 ==> pushed is Err
            && text_bytes(*final(text)) == text_bytes(*old(text)),
{
    text.push_str(part)
}

/// `Clone::clone` of `heapless::String`: the copy holds the bytes of the
/// buffer it was made from.
#[verifier::external_body]
pub(crate) fn text_clone(text: &heapless::String<69>) -> (copy: heapless::String<69>)
    ensures
        text_bytes(copy) == text_bytes(*text),
{
    text.clone()
}

/// The free text that the parts make up: the parts joined by the delimiter,
/// or `None` where that is more than the buffer holds.
pub open spec fn text_of(parts: Seq<Seq<u8>>) -> Option<Seq<u8>> {
    if join_fields(parts).len() <= TEXT_CAPACITY {
        Some(join_fields(parts))
    } else {
        None
    }
}

/// The number of bytes that the buffer is asked to hold once the first `k`
/// parts are appended: those parts joined, and one more delimiter where
/// another part follows them.
pub open spec fn appended_len(parts: Seq<Seq<u8>>, k: int) -> int {
    join_fields(parts.take(k)).len() + if k < parts.len() {
        1int
    } else {
        0int
    }
}

/// The first place from `from` on at which the appended parts no longer fit
/// the buffer, or the number of parts where they all fit.
pub open spec fn first_overflow(parts: Seq<Seq<u8>>, from: int) -> int
    decreases parts.len() - from,
{
    if from >= parts.len() {
        parts.len() as int
    } else if appended_len(parts, from) > TEXT_CAPACITY {
        from
    } else {
        first_overflow(parts, from + 1)
    }
}

/// The number of parts that are taken from a cursor to collect its free
/// text: all of them where the text fits, and otherwise those up to the part
/// with which the buffer ran over.
pub open spec fn parts_taken(parts: Seq<Seq<u8>>) -> int {
    first_overflow(parts, 1)
}

/// One more part makes the text longer by the part and a delimiter.
pub proof fn lemma_join_take_next(parts: Seq<Seq<u8>>, k: int)
    requires
        1 <= k < parts.len(),
    ensures
        join_fields(parts.take(k + 1)) == join_fields(parts.take(k)) + seq![DELIMITER] + parts[k],
{
    assert(parts.take(k + 1).drop_last() == parts.take(k));
}

/// What the buffer is asked to hold never shrinks as parts are appended, and
/// ends as the length of the whole text.
pub proof fn lemma_appended_len_grows(parts: Seq<Seq<u8>>, k: int)
    requires
        1 <= k <= parts.len(),
    ensures
        appended_len(parts, k) <= join_fields(parts).len(),
    decreases parts.len() - k,
{
    if k == parts.len() {
        assert(parts.take(k) == parts);
    } else {
        lemma_join_take_next(parts, k);
        lemma_appended_len_grows(parts, k + 1);
    }
}

/// Where everything before place `k` fits the buffer, the first overflow
/// from `from` on is the first from `k` on.
pub proof fn lemma_first_overflow_skips(parts: Seq<Seq<u8>>, from: int, k: int)
    requires
        1 <= from <= k,
        forall|j: int| from <= j < k && j < parts.len() ==> appended_len(parts, j) <= TEXT_CAPACITY,
    ensures
        first_overflow(parts, from) == first_overflow(parts, k),
    decreases k - from,
{
    if from < k {
        lemma_first_overflow_skips(parts, from + 1, k);
    }
}

/// No more parts are taken than there are.
pub proof fn lemma_parts_taken_bounds(parts: Seq<Seq<u8>>)
    ensures
        0 <= parts_taken(parts) <= parts.len(),
{
    lemma_first_overflow_bounds(parts, 1);
}

/// The first overflow from a place on lies at that place or after it, and
/// not after the last part.
pub proof fn lemma_first_overflow_bounds(parts: Seq<Seq<u8>>, from: int)
    requires
        0 <= from,
    ensures
        0 <= first_overflow(parts, from) <= parts.len(),
        from <= parts.len() ==> from <= first_overflow(parts, from),
    decreases parts.len() - from,
{
    if from < parts.len() {
        lemma_first_overflow_bounds(parts, from + 1);
    }
}

/// The free text of a sentence is the rest of its body, byte for byte, as
/// long as that fits the buffer.
pub proof fn lemma_text_of_body(body: Seq<u8>)
    ensures
        text_of(split_fields(body)) == (if body.len() <= TEXT_CAPACITY {
            Some(body)
        } else {
            None
        }),
{
    lemma_join_split(body);
}

/// In ASCII text, which is what the sentences of a receiver are written in,
/// every character is one byte, so that the buffer's capacity is a number
/// of characters.
pub proof fn lemma_ascii_text_len(text: &str)
    requires
        is_ascii(text),
    ensures
        text.spec_bytes().len() == text@.len(),
{
}

/// Text of exactly the buffer's capacity is accepted, and text of one byte
/// more is refused.
pub proof fn lemma_text_capacity(parts: Seq<Seq<u8>>)
    ensures
        join_fields(parts).len() == TEXT_CAPACITY ==> text_of(parts) == Some(join_fields(parts)),
        join_fields(parts).len() == TEXT_CAPACITY + 1 ==> text_of(parts) is None,
{
}

/// Collects what is left under the cursor into a buffer: the fields joined
/// by the delimiter, with none after the last. Fails where they do not fit.
pub fn collect_text(fields: &mut Fields<'_>) -> (collected: Result<heapless::String<69>, ErrorKind>)
    ensures
        (match text_of(old(fields)@) {
            Some(bytes) => collected matches Ok(text) && text_bytes(text) == bytes,
            None => collected matches Err(e) && e == ErrorKind::MalformedField(Cause::TextTooLong),
        }),
        final(fields)@ == old(fields)@.skip(parts_taken(old(fields)@)),
{
    let ghost parts = fields@;
    let ghost mut k: int = 0;
    let mut text = text_new();
    proof {
        reveal_strlit(",");
        is_ascii_spec_bytes(",");
    }
    loop
        invariant
            parts == old(fields)@,
            0 <= k <= parts.len(),
            fields@ == parts.skip(k),
            ",".spec_bytes() == seq![DELIMITER],
            text_bytes(text) == join_fields(parts.take(k)) + if 0 < k < parts.len() {
                seq![DELIMITER]
            } else {
                Seq::<u8>::empty()
            },
            forall|j: int| 1 <= j <= k ==> appended_len(parts, j) <= TEXT_CAPACITY,
        ensures
            k == parts.len(),
            fields@ == parts.skip(k),
            text_bytes(text) == join_fields(parts),
            forall|j: int| 1 <= j <= k ==> appended_len(parts, j) <= TEXT_CAPACITY,
        decreases parts.len() - k,
    {
        let part = match fields.next() {
            Some(part) => part,
            None => {
                proof {
                    assert(parts.take(k) == parts);
                }
                break ;
            },
        };
        proof {
            if k >= 1 {
                lemma_join_take_next(parts, k);
            }
            k = k + 1;
        }
        if text_push_str(&mut text, part).is_err() {
            proof {
                lemma_first_overflow_skips(parts, 1, k);
                lemma_appended_len_grows(parts, k);
            }
            return Err(ErrorKind::MalformedField(Cause::TextTooLong));
        }
        if !fields.is_empty() {
            if text_push_str(&mut text, ",").is_err() {
                proof {
                    lemma_first_overflow_skips(parts, 1, k);
                    lemma_appended_len_grows(parts, k);
                }
                return Err(ErrorKind::MalformedField(Cause::TextTooLong));
            }
        }
    }
    proof {
        lemma_first_overflow_skips(parts, 1, k + 1);
        if k >= 1 {
            assert(appended_len(parts, k) <= TEXT_CAPACITY);
        }
    }
    Ok(text)
}

} // verus!
