//! The cursor over the fields of a sentence.
//!
//! A sentence body is text in which a comma ends one field and begins the
//! next. The model of a body is the sequence of its fields, each the bytes
//! between two delimiters; the cursor hands them out from left to right, each
//! one once.

use vstd::prelude::*;
use vstd::string::StringSliceAdditionalSpecFns;
use vstd::utf8::{
    encode_utf8_valid_utf8, is_char_boundary, is_char_boundary_iff_not_is_continuation_byte,
    is_char_boundary_start_end_of_seq, valid_utf8,
};

verus! {

/// The byte that parts one field from the next: a comma.
pub const DELIMITER: u8 = 0x2c;

/// The number of bytes that stand before the first delimiter of `bytes`, or
/// all of them where it holds none.
pub open spec fn first_field_len(bytes: Seq<u8>) -> nat
    decreases bytes.len(),
{
    if bytes.len() == 0 || bytes[0] == DELIMITER {
        0
    } else {
        1 + first_field_len(bytes.skip(1))
    }
}

/// The fields of a sentence body: the runs of bytes between its delimiters.
/// A body without a delimiter is one field, be it empty.
pub open spec fn split_fields(bytes: Seq<u8>) -> Seq<Seq<u8>>
    decreases bytes.len(),
{
    let n = first_field_len(bytes) as int;
    if n >= bytes.len() {
        seq![bytes]
    } else {
        seq![bytes.take(n)] + split_fields(bytes.skip(n + 1))
    }
}

/// The fields written one after the other with a delimiter between each two,
/// and none after the last.
pub open spec fn join_fields(fields: Seq<Seq<u8>>) -> Seq<u8>
    decreases fields.len(),
{
    if fields.len() == 0 {
        Seq::empty()
    } else if fields.len() == 1 {
        fields[0]
    } else {
        join_fields(fields.drop_last()) + seq![DELIMITER] + fields.last()
    }
}

/// True when no byte of the field is a delimiter.
pub open spec fn delimiter_free(field: Seq<u8>) -> bool {
    forall|i: int| 0 <= i < field.len() ==> field[i] != DELIMITER
}

/// The field at place `i`, or `None` where the sentence ends before it.
pub open spec fn field_at(fields: Seq<Seq<u8>>, i: int) -> Option<Seq<u8>> {
    if 0 <= i < fields.len() {
        Some(fields[i])
    } else {
        None
    }
}

/// What is left of `fields` once `n` of them were asked for: the fields from
/// place `n` on, or nothing where there were no more than `n`.
pub open spec fn advance(fields: Seq<Seq<u8>>, n: nat) -> Seq<Seq<u8>> {
    if n <= fields.len() {
        fields.skip(n as int)
    } else {
        Seq::empty()
    }
}

/// The bytes of a field that was handed out, or `None` where there was none.
pub open spec fn field_bytes(input: Option<&str>) -> Option<Seq<u8>> {
    match input {
        Some(text) => Some(text.spec_bytes()),
        None => None,
    }
}

/// A forward-only cursor over the fields of one sentence body.
///
/// Its view is the sequence of the fields that it has yet to hand out.
#[derive(Debug)]
pub struct Fields<'a> {
    rest: Option<&'a str>,
}

impl<'a> View for Fields<'a> {
    type V = Seq<Seq<u8>>;

    closed spec fn view(&self) -> Seq<Seq<u8>> {
        match self.rest {
            Some(body) => split_fields(body.spec_bytes()),
            None => Seq::empty(),
        }
    }
}

impl<'a> Fields<'a> {
    /// A cursor at the first field of `body`.
    pub fn new(body: &'a str) -> (fields: Self)
        ensures
            fields@ == split_fields(body.spec_bytes()),
    {
        Fields { rest: Some(body) }
    }

    /// A cursor that has no field left.
    pub fn empty() -> (fields: Self)
        ensures
            fields@ == Seq::<Seq<u8>>::empty(),
    {
        Fields { rest: None }
    }

    /// True when every field was handed out.
    pub fn is_empty(&self) -> (empty: bool)
        ensures
            empty == (self@.len() == 0),
    {
        self.rest.is_none()
    }

    /// The next field, which stays under the cursor; `None` once the fields
    /// are used up.
    pub fn peek(&self) -> (field: Option<&'a str>)
        ensures
            field_bytes(field) == field_at(self@, 0),
    {
        match self.rest {
            Some(body) => Some(split_first(body).0),
            None => None,
        }
    }

    /// No field under a cursor holds a delimiter.
    pub proof fn lemma_delimiter_free(self)
        ensures
            forall|i: int| 0 <= i < self@.len() ==> delimiter_free(#[trigger] self@[i]),
    {
        if let Some(body) = self.rest {
            lemma_split_fields_delimiter_free(body.spec_bytes());
        }
    }

    /// Hands out the next field and moves past it; `None` once the fields
    /// are used up, and from then on.
    pub fn next(&mut self) -> (field: Option<&'a str>)
        ensures
            field_bytes(field) == field_at(old(self)@, 0),
            final(self)@ == advance(old(self)@, 1),
    {
        match self.rest {
            Some(body) => {
                let (field, rest) = split_first(body);
                self.rest = rest;
                Some(field)
            },
            None => None,
        }
    }
}

/// Parts a body into its first field and what follows the delimiter after
/// it, where there is one.
fn split_first<'a>(body: &'a str) -> (parts: (&'a str, Option<&'a str>))
    ensures
        split_fields(body.spec_bytes()).len() >= 1,
        parts.0.spec_bytes() == split_fields(body.spec_bytes())[0],
        split_fields(body.spec_bytes()).skip(1) == (match parts.1 {
            Some(rest) => split_fields(rest.spec_bytes()),
            None => Seq::empty(),
        }),
{
    let bytes = body.as_bytes();
    let mut n: usize = 0;
    while n < bytes.len() && bytes[n] != DELIMITER
        invariant
            n <= bytes@.len(),
            delimiter_free(bytes@.take(n as int)),
        decreases bytes@.len() - n,
    {
        assert(delimiter_free(bytes@.take(n + 1)));
        n += 1;
    }
    proof {
        lemma_first_field_is(bytes@, n as int);
    }
    if n == bytes.len() {
        (body, None)
    } else {
        proof {
            encode_utf8_valid_utf8(body@);
            is_char_boundary_iff_not_is_continuation_byte(bytes@, n as int);
        }
        let (field, tail) = body.split_at(n);
        proof {
            encode_utf8_valid_utf8(tail@);
            lemma_second_byte_is_char_boundary(tail.spec_bytes());
        }
        let (_, rest) = tail.split_at(1);
        proof {
            assert(rest.spec_bytes() == bytes@.skip(n + 1));
        }
        (field, Some(rest))
    }
}

/// The first field ends at a delimiter or at the end of the bytes, and holds
/// no delimiter itself.
pub proof fn lemma_first_field_len(bytes: Seq<u8>)
    ensures
        0 <= first_field_len(bytes) <= bytes.len(),
        first_field_len(bytes) < bytes.len() ==> bytes[first_field_len(bytes) as int] == DELIMITER,
        delimiter_free(bytes.take(first_field_len(bytes) as int)),
    decreases bytes.len(),
{
    if bytes.len() == 0 || bytes[0] == DELIMITER {
    } else {
        let rest = bytes.skip(1);
        lemma_first_field_len(rest);
        let n = first_field_len(rest) as int;
        let head = bytes.take(n + 1);
        assert forall|i: int| 0 <= i < head.len() implies #[trigger] head[i] != DELIMITER by {
            if i > 0 {
                assert(rest.take(n)[i - 1] == bytes[i]);
            }
        }
    }
}

/// Where the first `n` bytes hold no delimiter and a delimiter or the end
/// follows them, the first field is `n` bytes long.
pub proof fn lemma_first_field_is(bytes: Seq<u8>, n: int)
    requires
        0 <= n <= bytes.len(),
        delimiter_free(bytes.take(n)),
        n < bytes.len() ==> bytes[n] == DELIMITER,
    ensures
        first_field_len(bytes) == n,
    decreases n,
{
    if n == 0 {
    } else {
        assert(bytes.take(n)[0] == bytes[0]);
        let rest = bytes.skip(1);
        let head = rest.take(n - 1);
        assert forall|i: int| 0 <= i < head.len() implies #[trigger] head[i] != DELIMITER by {
            assert(bytes.take(n)[i + 1] == rest[i]);
        }
        lemma_first_field_is(rest, n - 1);
    }
}

/// Joining starts with the first field: the delimiter and the other fields,
/// joined, follow it.
pub proof fn lemma_join_first(fields: Seq<Seq<u8>>)
    requires
        fields.len() >= 2,
    ensures
        join_fields(fields) == fields[0] + seq![DELIMITER] + join_fields(fields.skip(1)),
    decreases fields.len(),
{
    let front = fields.drop_last();
    let tail = fields.skip(1);
    if fields.len() == 2 {
        assert(join_fields(front) == fields[0]);
    } else {
        lemma_join_first(front);
        assert(front.skip(1) == tail.drop_last());
    }
}

/// A body has at least one field, and none of its fields holds a delimiter.
pub proof fn lemma_split_fields_delimiter_free(bytes: Seq<u8>)
    ensures
        split_fields(bytes).len() >= 1,
        forall|i: int| 0 <= i < split_fields(bytes).len() ==> delimiter_free(#[trigger] split_fields(bytes)[i]),
    decreases bytes.len(),
{
    lemma_first_field_len(bytes);
    let n = first_field_len(bytes) as int;
    if n >= bytes.len() {
        assert(bytes.take(n) == bytes);
    } else {
        lemma_split_fields_delimiter_free(bytes.skip(n + 1));
    }
}

/// Splitting a body and joining its fields again gives the body back.
pub proof fn lemma_join_split(bytes: Seq<u8>)
    ensures
        join_fields(split_fields(bytes)) == bytes,
    decreases bytes.len(),
{
    lemma_first_field_len(bytes);
    let n = first_field_len(bytes) as int;
    if n >= bytes.len() {
    } else {
        let rest = bytes.skip(n + 1);
        let fields = split_fields(bytes);
        lemma_join_split(rest);
        assert(fields.skip(1) == split_fields(rest));
        lemma_join_first(fields);
    }
}

/// Joining fields that hold no delimiter and splitting the result gives the
/// fields back, provided there is at least one.
pub proof fn lemma_split_join(fields: Seq<Seq<u8>>)
    requires
        fields.len() >= 1,
        forall|i: int| 0 <= i < fields.len() ==> delimiter_free(#[trigger] fields[i]),
    ensures
        split_fields(join_fields(fields)) == fields,
    decreases fields.len(),
{
    let bytes = join_fields(fields);
    let first = fields[0];
    if fields.len() == 1 {
        lemma_first_field_is(bytes, first.len() as int);
    } else {
        let tail = fields.skip(1);
        lemma_join_first(fields);
        assert(bytes.take(first.len() as int) == first);
        lemma_first_field_is(bytes, first.len() as int);
        assert(bytes.skip(first.len() as int + 1) == join_fields(tail));
        lemma_split_join(tail);
    }
}

/// In text that begins with a delimiter, a character begins at the second
/// byte or the text ends there.
proof fn lemma_second_byte_is_char_boundary(bytes: Seq<u8>)
    requires
        valid_utf8(bytes),
        bytes.len() >= 1,
        bytes[0] == DELIMITER,
    ensures
        is_char_boundary(bytes, 1),
{
    if bytes.len() == 1 {
        is_char_boundary_start_end_of_seq(bytes);
    } else {
        reveal_with_fuel(is_char_boundary, 2);
    }
}

} // verus!
