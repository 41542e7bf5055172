//! The Protobuf wire format: keys, variable-length integers and fields.
//!
//! A message is a sequence of fields. A field is a key, which holds the
//! field's tag and its wire type, and a value whose extent the wire type
//! gives. Keys, variable-length integers and the extent of a field are read
//! by `prost`; the fields are taken apart here.

use vstd::prelude::*;
use vstd::slice::{slice_subrange, slice_to_vec};

verus! {

/// The error of `prost` for an input that is no valid Protobuf.
#[verifier::external_type_specification]
#[verifier::external_body]
pub struct ExDecodeError(prost::DecodeError);

/// The wire type of a field.
#[derive(Clone, Copy, PartialEq, Eq, Structural, Debug)]
pub enum WireKind {
    Varint,
    SixtyFourBit,
    LengthDelimited,
    StartGroup,
    EndGroup,
    ThirtyTwoBit,
}

/// The number that the bytes at the start of `b` write in base 128, least
/// significant group first, and how many bytes it takes. The last byte of a
/// number is the first one below 128; at most `budget` bytes are read.
pub open spec fn leb128(b: Seq<u8>, budget: nat) -> Option<(nat, nat)>
    decreases budget,
{
    if budget == 0 || b.len() == 0 {
        None
    } else if b[0] < 0x80 {
        Some((b[0] as nat, 1))
    } else {
        match leb128(b.skip(1), (budget - 1) as nat) {
            Some((v, n)) => Some(((b[0] - 0x80 + 128 * v) as nat, n + 1)),
            None => None,
        }
    }
}

/// The variable-length integer at the start of `b` and its length in bytes:
/// a base-128 number of at most ten bytes that fits into 64 bits.
pub open spec fn varint_at(b: Seq<u8>) -> Option<(u64, nat)> {
    match leb128(b, 10) {
        Some((v, n)) => if v <= u64::MAX {
            Some((v as u64, n))
        } else {
            None
        },
        None => None,
    }
}

/// The wire type with the given code.
pub open spec fn kind_of_code(code: int) -> Option<WireKind> {
    if code == 0 {
        Some(WireKind::Varint)
    } else if code == 1 {
        Some(WireKind::SixtyFourBit)
    } else if code == 2 {
        Some(WireKind::LengthDelimited)
    } else if code == 3 {
        Some(WireKind::StartGroup)
    } else if code == 4 {
        Some(WireKind::EndGroup)
    } else if code == 5 {
        Some(WireKind::ThirtyTwoBit)
    } else {
        None
    }
}

/// The key at the start of `b`: the tag, the wire type and the length of the
/// key in bytes. The key is a variable-length integer of at most 32 bits
/// whose lowest three bits are the code of the wire type and whose other
/// bits are the tag, which is at least 1.
pub open spec fn key_at(b: Seq<u8>) -> Option<(u32, WireKind, nat)> {
    match varint_at(b) {
        Some((key, n)) => if key <= u32::MAX && key / 8 >= 1 {
            match kind_of_code((key % 8) as int) {
                Some(kind) => Some(((key / 8) as u32, kind, n)),
                None => None,
            }
        } else {
            None
        },
        None => None,
    }
}

/// The extent in bytes of a group with tag `tag` whose content starts at
/// the start of `b`, end marker included, as `prost::encoding::skip_field`
/// finds it; `None` where it finds no well-formed group.
pub uninterp spec fn group_len(tag: u32, b: Seq<u8>) -> Option<nat>;

/// The extent in bytes of the value of a field of the given wire type that
/// starts at the start of `b`.
pub open spec fn value_len(kind: WireKind, tag: u32, b: Seq<u8>) -> Option<nat> {
    match kind {
        WireKind::Varint => match varint_at(b) {
            Some((_, n)) => Some(n),
            None => None,
        },
        WireKind::SixtyFourBit => if b.len() >= 8 {
            Some(8)
        } else {
            None
        },
        WireKind::ThirtyTwoBit => if b.len() >= 4 {
            Some(4)
        } else {
            None
        },
        WireKind::LengthDelimited => match varint_at(b) {
            Some((len, n)) => if n + len <= b.len() {
                Some(n + len as nat)
            } else {
                None
            },
            None => None,
        },
        WireKind::StartGroup => group_len(tag, b),
        WireKind::EndGroup => None,
    }
}

/// Reads the variable-length integer at the start of `buf`; gives its value
/// and the number of bytes that are left after it.
///
/// Wraps `prost::encoding::decode_varint`, which reads bytes up to the first
/// one below 128, at most ten, and fails on an empty buffer, on a number
/// without a last byte and on one that does not fit into 64 bits.
#[verifier::external_body]
pub(crate) fn decode_varint(buf: &[u8]) -> (r: Result<(u64, usize), prost::DecodeError>)
    ensures
        match r {
            Ok((v, left)) => left <= buf.len() && varint_at(buf@) == Some(
                (v, (buf.len() - left) as nat),
            ),
            Err(_) => varint_at(buf@) is None,
        },
{
    let mut rest = buf;
    let value = prost::encoding::decode_varint(&mut rest)?;
    Ok((value, rest.len()))
}

/// Reads the key at the start of `buf`; gives the tag, the wire type and
/// the number of bytes that are left after the key.
///
/// Wraps `prost::encoding::decode_key`, which reads a variable-length
/// integer and fails where it exceeds 32 bits, where its lowest three bits
/// are no wire type, and where the tag is zero.
#[verifier::external_body]
pub(crate) fn decode_key(buf: &[u8]) -> (r: Result<(u32, WireKind, usize), prost::DecodeError>)
    ensures
        match r {
            Ok((tag, kind, left)) => left <= buf.len() && key_at(buf@) == Some(
                (tag, kind, (buf.len() - left) as nat),
            ),
            Err(_) => key_at(buf@) is None,
        },
{
    let mut rest = buf;
    let (tag, wire_type) = prost::encoding::decode_key(&mut rest)?;
    let kind = match wire_type {
        prost::encoding::WireType::Varint => WireKind::Varint,
        prost::encoding::WireType::SixtyFourBit => WireKind::SixtyFourBit,
        prost::encoding::WireType::LengthDelimited => WireKind::LengthDelimited,
        prost::encoding::WireType::StartGroup => WireKind::StartGroup,
        prost::encoding::WireType::EndGroup => WireKind::EndGroup,
        prost::encoding::WireType::ThirtyTwoBit => WireKind::ThirtyTwoBit,
    };
    Ok((tag, kind, rest.len()))
}

/// Passes over the value of a field of the given wire type at the start of
/// `buf`; gives the number of bytes that are left after it.
///
/// Wraps `prost::encoding::skip_field`, which passes over a variable-length
/// integer, over four or eight bytes, over a length and as many bytes, or
/// over a group up to its end marker, and fails where the buffer ends
/// before the value does and on an end marker without a group.
#[verifier::external_body]
pub(crate) fn skip_field(kind: WireKind, tag: u32, buf: &[u8]) -> (r: Result<
    usize,
    prost::DecodeError,
>)
    ensures
        match r {
            Ok(left) => left <= buf.len() && value_len(kind, tag, buf@) == Some(
                (buf.len() - left) as nat,
            ),
            Err(_) => value_len(kind, tag, buf@) is None,
        },
        kind == WireKind::StartGroup ==> group_len(tag, buf@) == match r {
            Ok(left) => Some((buf.len() - left) as nat),
            Err(_) => None,
        },
{
    let wire_type = match kind {
        WireKind::Varint => prost::encoding::WireType::Varint,
        WireKind::SixtyFourBit => prost::encoding::WireType::SixtyFourBit,
        WireKind::LengthDelimited => prost::encoding::WireType::LengthDelimited,
        WireKind::StartGroup => prost::encoding::WireType::StartGroup,
        WireKind::EndGroup => prost::encoding::WireType::EndGroup,
        WireKind::ThirtyTwoBit => prost::encoding::WireType::ThirtyTwoBit,
    };
    let mut rest = buf;
    prost::encoding::skip_field(wire_type, tag, &mut rest, Default::default())?;
    Ok(rest.len())
}

/// One field of a message.
#[derive(Debug)]
pub struct Field {
    pub tag: u32,
    pub kind: WireKind,
    /// The value of a field of wire type `Varint`; zero for the others.
    pub number: u64,
    /// The bytes of a length-delimited field without its length, or the four
    /// or eight bytes of a fixed-width field; empty for the others.
    pub bytes: Vec<u8>,
}

/// What a field holds, as mathematical values.
pub struct FieldView {
    pub tag: u32,
    pub kind: WireKind,
    pub number: u64,
    pub bytes: Seq<u8>,
}

impl View for Field {
    type V = FieldView;

    open spec fn view(&self) -> FieldView {
        FieldView { tag: self.tag, kind: self.kind, number: self.number, bytes: self.bytes@ }
    }
}

/// The views of a sequence of fields.
pub open spec fn field_views(fields: Seq<Field>) -> Seq<FieldView> {
    Seq::new(fields.len(), |i: int| fields[i]@)
}

/// The field at the start of `b` and its extent in bytes, key included.
pub open spec fn field_at(b: Seq<u8>) -> Option<(FieldView, nat)> {
    match key_at(b) {
        Some((tag, kind, n)) => {
            let rest = b.skip(n as int);
            match value_len(kind, tag, rest) {
                Some(m) => Some(
                    (
                        FieldView {
                            tag,
                            kind,
                            number: match kind {
                                WireKind::Varint => varint_at(rest).unwrap().0,
                                _ => 0,
                            },
                            bytes: match kind {
                                WireKind::LengthDelimited => rest.subrange(
                                    varint_at(rest).unwrap().1 as int,
                                    m as int,
                                ),
                                WireKind::ThirtyTwoBit => rest.subrange(0, m as int),
                                WireKind::SixtyFourBit => rest.subrange(0, m as int),
                                _ => Seq::empty(),
                            },
                        },
                        n + m,
                    ),
                ),
                None => None,
            }
        },
        None => None,
    }
}

/// The fields of the message `b`, or `None` where `b` is not a sequence of
/// well-formed fields.
pub open spec fn fields_of(b: Seq<u8>) -> Option<Seq<FieldView>>
    decreases b.len(),
{
    if b.len() == 0 {
        Some(Seq::empty())
    } else {
        match field_at(b) {
            Some((f, n)) => if n == 0 || n > b.len() {
                None
            } else {
                match fields_of(b.skip(n as int)) {
                    Some(more) => Some(seq![f] + more),
                    None => None,
                }
            },
            None => None,
        }
    }
}

/// The fields `first`, then those of the message `b`.
pub open spec fn fields_after(first: Seq<FieldView>, b: Seq<u8>) -> Option<Seq<FieldView>> {
    match fields_of(b) {
        Some(more) => Some(first + more),
        None => None,
    }
}

/// A base-128 number takes at least one byte and no more than there are.
pub proof fn lemma_leb128_len(b: Seq<u8>, budget: nat)
    ensures
        leb128(b, budget) matches Some((v, n)) ==> 1 <= n <= b.len() && n <= budget,
    decreases budget,
{
    if budget > 0 && b.len() > 0 && b[0] >= 0x80 {
        lemma_leb128_len(b.skip(1), (budget - 1) as nat);
    }
}

/// Reads the field at the start of `buf`; gives the field and its extent in
/// bytes, or `None` where no well-formed field starts there.
pub fn read_field(buf: &[u8]) -> (r: Option<(Field, usize)>)
    ensures
        match r {
            Some((f, n)) => field_at(buf@) == Some((f@, n as nat)) && 1 <= n <= buf.len(),
            None => field_at(buf@) is None,
        },
{
    let (tag, kind, left) = match decode_key(buf) {
        Ok(k) => k,
        Err(_) => {
            return None;
        },
    };
    let n = buf.len() - left;
    proof {
        lemma_leb128_len(buf@, 10);
    }
    let rest = slice_subrange(buf, n, buf.len());
    proof {
        assert(rest@ =~= buf@.skip(n as int));
    }
    let after = match skip_field(kind, tag, rest) {
        Ok(l) => l,
        Err(_) => {
            return None;
        },
    };
    let m = rest.len() - after;
    let mut number: u64 = 0;
    let mut bytes: Vec<u8> = Vec::new();
    match kind {
        WireKind::Varint => {
            match decode_varint(rest) {
                Ok((v, _)) => {
                    number = v;
                },
                Err(_) => {},
            }
        },
        WireKind::LengthDelimited => {
            match decode_varint(rest) {
                Ok((_, l)) => {
                    let h = rest.len() - l;
                    bytes = slice_to_vec(slice_subrange(rest, h, m));
                },
                Err(_) => {},
            }
        },
        WireKind::ThirtyTwoBit => {
            bytes = slice_to_vec(slice_subrange(rest, 0, m));
        },
        WireKind::SixtyFourBit => {
            bytes = slice_to_vec(slice_subrange(rest, 0, m));
        },
        _ => {},
    }
    proof {
        assert(bytes@ =~= field_at(buf@).unwrap().0.bytes);
    }
    Some((Field { tag, kind, number, bytes }, n + m))
}

/// Reads the fields of the message `buf`, or `None` where `buf` is not a
/// sequence of well-formed fields.
pub fn read_fields(buf: &[u8]) -> (r: Option<Vec<Field>>)
    ensures
        match r {
            Some(fields) => fields_of(buf@) == Some(field_views(fields@)),
            None => fields_of(buf@) is None,
        },
{
    let mut fields: Vec<Field> = Vec::new();
    let mut pos: usize = 0;
    proof {
        assert(buf@.skip(0) =~= buf@);
        assert(field_views(fields@) + fields_of(buf@).unwrap_or(Seq::empty()) =~= fields_of(
            buf@,
        ).unwrap_or(Seq::empty()));
    }
    while pos < buf.len()
        invariant
            pos <= buf.len(),
            fields_of(buf@) == fields_after(field_views(fields@), buf@.skip(pos as int)),
        decreases buf.len() - pos,
    {
        let rest = slice_subrange(buf, pos, buf.len());
        proof {
            assert(rest@ =~= buf@.skip(pos as int));
        }
        let (f, n) = match read_field(rest) {
            Some(x) => x,
            None => {
                return None;
            },
        };
        let ghost before = field_views(fields@);
        let ghost fv = f@;
        fields.push(f);
        proof {
            assert(rest@.skip(n as int) =~= buf@.skip(pos + n));
            assert(field_views(fields@) =~= before + seq![fv]);
            match fields_of(buf@.skip(pos + n)) {
                Some(more) => {
                    assert(before + (seq![fv] + more) =~= (before + seq![fv]) + more);
                },
                None => {},
            }
        }
        pos = pos + n;
    }
    proof {
        assert(field_views(fields@) + Seq::<FieldView>::empty() =~= field_views(fields@));
    }
    Some(fields)
}

} // verus!
