//! Tag-length-value frames, as `yatlv` writes and parses them.
//!
//! A frame is a format byte, the number of fields, and the fields; a field is a tag, the
//! length of its value, and the value. Numbers are big-endian.

use vstd::prelude::*;

use yatlv::{FrameBuilder, FrameBuilderLike, FrameParser};

use crate::bytes::{be_bytes, be_value, byte_range, lemma_be_bytes_len, lemma_be_round_trip};

verus! {

/// `yatlv::FrameParser`; [`parsed_fields`] names the fields that it holds.
#[verifier::external_type_specification]
#[verifier::external_body]
pub struct ExFrameParser<'a>(yatlv::FrameParser<'a>);

/// `yatlv::Error`, not looked into.
#[verifier::external_type_specification]
#[verifier::external_body]
pub struct ExFrameError(yatlv::Error);

/// The fields of a frame in order: tags and values.
pub type Fields = Seq<(u16, Seq<u8>)>;

/// One field: 2 bytes of tag, 4 bytes of length, the value.
pub open spec fn field_bytes(tag: u16, value: Seq<u8>) -> Seq<u8> {
    be_bytes(tag as nat, 2) + be_bytes(value.len(), 4) + value
}

/// The fields one behind the other.
pub open spec fn body_bytes(fields: Fields) -> Seq<u8>
    decreases fields.len(),
{
    if fields.len() == 0 {
        Seq::empty()
    } else {
        field_bytes(fields[0].0, fields[0].1) + body_bytes(fields.skip(1))
    }
}

/// A frame: the format byte `1`, 4 bytes that count the fields, the fields.
pub open spec fn frame_bytes(fields: Fields) -> Seq<u8> {
    seq![1u8] + be_bytes(fields.len(), 4) + body_bytes(fields)
}

/// Whether every length in a frame with these fields fits in its 4 bytes.
pub open spec fn fits(fields: Fields) -> bool {
    &&& fields.len() < 0x1_0000_0000
    &&& forall|i: int| 0 <= i < fields.len() ==> (#[trigger] fields[i]).1.len() < 0x1_0000_0000
}

/// The value of the first field with a tag.
pub open spec fn first_value(fields: Fields, tag: u16) -> Option<Seq<u8>>
    decreases fields.len(),
{
    if fields.len() == 0 {
        None
    } else if fields[0].0 == tag {
        Some(fields[0].1)
    } else {
        first_value(fields.skip(1), tag)
    }
}

/// The fields that a `yatlv::FrameParser` holds.
pub uninterp spec fn parsed_fields(parser: yatlv::FrameParser<'_>) -> Seq<(u16, Seq<u8>)>;

/// A frame with two fields, by `yatlv::FrameBuilder`. Of a longer value's length it
/// writes the low 4 bytes.
#[verifier::external_body]
pub(crate) fn frame_of_two(tag1: u16, value1: &[u8], tag2: u16, value2: &[u8]) -> (frame: Vec<u8>)
    ensures
        frame@ == frame_bytes(seq![(tag1, value1@), (tag2, value2@)]),
{
    let mut buf = Vec::new();
    {
        let mut builder = FrameBuilder::new(&mut buf);
        builder.add_data(tag1, value1);
        builder.add_data(tag2, value2);
    }
    buf
}

/// A frame with three fields, by `yatlv::FrameBuilder`. Of a longer value's length it
/// writes the low 4 bytes.
#[verifier::external_body]
pub(crate) fn frame_of_three(
    tag1: u16,
    value1: &[u8],
    tag2: u16,
    value2: &[u8],
    tag3: u16,
    value3: &[u8],
) -> (frame: Vec<u8>)
    ensures
        frame@ == frame_bytes(seq![(tag1, value1@), (tag2, value2@), (tag3, value3@)]),
{
    let mut buf = Vec::new();
    {
        let mut builder = FrameBuilder::new(&mut buf);
        builder.add_data(tag1, value1);
        builder.add_data(tag2, value2);
        builder.add_data(tag3, value3);
    }
    buf
}

/// `yatlv::FrameParser::new`: it takes exactly the byte strings that are frames, and
/// holds the fields of the frame.
#[verifier::external_body]
pub(crate) fn parse_frame<'a>(data: &'a [u8]) -> (r: Result<yatlv::FrameParser<'a>, yatlv::Error>)
    ensures
        match r {
            Ok(parser) => fits(parsed_fields(parser)) && data@ == frame_bytes(
                parsed_fields(parser),
            ),
            Err(_) => forall|fields: Fields| fits(fields) ==> data@ != #[trigger] frame_bytes(
                fields,
            ),
        },
{
    FrameParser::new(data)
}

/// The value of the first field with a tag, where there is one.
pub assume_specification<'a>[ yatlv::FrameParser::<'a>::get_optional_data ](
    parser: &yatlv::FrameParser<'a>,
    search_tag: u16,
) -> (r: Option<&'a [u8]>)
    ensures
        match r {
            Some(value) => first_value(parsed_fields(*parser), search_tag) == Some(value@),
            None => first_value(parsed_fields(*parser), search_tag) is None,
        },
;

/// The value of the first field with a tag, and an error where there is none.
pub assume_specification<'a>[ yatlv::FrameParser::<'a>::get_data ](
    parser: &yatlv::FrameParser<'a>,
    search_tag: u16,
) -> (r: Result<&'a [u8], yatlv::Error>)
    ensures
        match r {
            Ok(value) => first_value(parsed_fields(*parser), search_tag) == Some(value@),
            Err(_) => first_value(parsed_fields(*parser), search_tag) is None,
        },
;

/// The tag and the value of a field can be told from any bytes that start with it.
proof fn lemma_field_prefix(tag: u16, value: Seq<u8>, rest: Seq<u8>)
    requires
        value.len() < 0x1_0000_0000,
    ensures
        ({
            let data = field_bytes(tag, value) + rest;
            &&& data.len() == 6 + value.len() + rest.len()
            &&& be_value(data.take(2)) == tag
            &&& be_value(data.subrange(2, 6)) == value.len()
            &&& data.subrange(6, (6 + value.len()) as int) == value
            &&& data.skip((6 + value.len()) as int) == rest
        }),
{
    let data = field_bytes(tag, value) + rest;
    lemma_be_bytes_len(tag as nat, 2);
    lemma_be_bytes_len(value.len(), 4);
    assert(byte_range(2) == 0x1_0000 && byte_range(4) == 0x1_0000_0000) by {
        reveal_with_fuel(byte_range, 5);
    }
    lemma_be_round_trip(tag as nat, 2);
    lemma_be_round_trip(value.len(), 4);
    assert(data.take(2) =~= be_bytes(tag as nat, 2));
    assert(data.subrange(2, 6) =~= be_bytes(value.len(), 4));
    assert(data.subrange(6, (6 + value.len()) as int) =~= value);
    assert(data.skip((6 + value.len()) as int) =~= rest);
}

proof fn lemma_body_injective(a: Fields, b: Fields)
    requires
        fits(a),
        fits(b),
        a.len() == b.len(),
        body_bytes(a) == body_bytes(b),
    ensures
        a == b,
    decreases a.len(),
{
    if a.len() > 0 {
        lemma_field_prefix(a[0].0, a[0].1, body_bytes(a.skip(1)));
        lemma_field_prefix(b[0].0, b[0].1, body_bytes(b.skip(1)));
        assert(fits(a.skip(1))) by {
            assert forall|i: int| 0 <= i < a.skip(1).len() implies (#[trigger] a.skip(1)[i]).1.len()
                < 0x1_0000_0000 by {
                assert(a.skip(1)[i] == a[i + 1]);
            }
        }
        assert(fits(b.skip(1))) by {
            assert forall|i: int| 0 <= i < b.skip(1).len() implies (#[trigger] b.skip(1)[i]).1.len()
                < 0x1_0000_0000 by {
                assert(b.skip(1)[i] == b[i + 1]);
            }
        }
        lemma_body_injective(a.skip(1), b.skip(1));
        assert(a =~= seq![a[0]] + a.skip(1));
        assert(b =~= seq![b[0]] + b.skip(1));
    } else {
        assert(a =~= b);
    }
}

/// A frame determines its fields: no two lists of fields are written alike.
pub proof fn lemma_frame_injective(a: Fields, b: Fields)
    requires
        fits(a),
        fits(b),
        frame_bytes(a) == frame_bytes(b),
    ensures
        a == b,
{
    let data = frame_bytes(a);
    lemma_be_bytes_len(a.len(), 4);
    lemma_be_bytes_len(b.len(), 4);
    assert(byte_range(4) == 0x1_0000_0000) by {
        reveal_with_fuel(byte_range, 5);
    }
    assert(data.subrange(1, 5) =~= be_bytes(a.len(), 4));
    assert(data.subrange(1, 5) =~= be_bytes(b.len(), 4));
    crate::bytes::lemma_be_bytes_injective(a.len(), b.len(), 4);
    assert(data.skip(5) =~= body_bytes(a));
    assert(data.skip(5) =~= body_bytes(b));
    lemma_body_injective(a, b);
}

/// The value of a tag is the one at its first place, and there is none exactly where the
/// tag has no place.
pub proof fn lemma_first_value(fields: Fields, tag: u16)
    ensures
        first_value(fields, tag) is None <==> forall|i: int|
            0 <= i < fields.len() ==> (#[trigger] fields[i]).0 != tag,
        forall|i: int|
            0 <= i < fields.len() && (#[trigger] fields[i]).0 == tag && (forall|j: int|
                0 <= j < i ==> (#[trigger] fields[j]).0 != tag) ==> first_value(fields, tag) == Some(
                fields[i].1,
            ),
    decreases fields.len(),
{
    if fields.len() > 0 && fields[0].0 != tag {
        let rest = fields.skip(1);
        lemma_first_value(rest, tag);
        assert forall|i: int| 0 <= i < fields.len() && (#[trigger] fields[i]).0 == tag && (forall|
            j: int,
        | 0 <= j < i ==> (#[trigger] fields[j]).0 != tag) implies first_value(fields, tag) == Some(
            fields[i].1,
        ) by {
            assert(rest[i - 1] == fields[i]);
            assert forall|j: int| 0 <= j < i - 1 implies (#[trigger] rest[j]).0 != tag by {
                assert(rest[j] == fields[j + 1]);
            }
        }
        if first_value(fields, tag) is None {
            assert forall|i: int| 0 <= i < fields.len() implies (#[trigger] fields[i]).0 != tag by {
                if i > 0 {
                    assert(rest[i - 1] == fields[i]);
                }
            }
        } else {
            let k = choose|k: int| 0 <= k < rest.len() && (#[trigger] rest[k]).0 == tag;
            assert(fields[k + 1] == rest[k]);
        }
    }
}

} // verus!
