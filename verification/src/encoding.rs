//! Plain values as bytes, in the format of the `bincode` crate.

use vstd::prelude::*;

verus! {

/// The `width` lowest bytes of `value`, lowest first.
pub open spec fn le_bytes(value: nat, width: nat) -> Seq<u8>
    decreases width,
{
    if width == 0 {
        Seq::empty()
    } else {
        seq![(value % 256) as u8] + le_bytes(value / 256, (width - 1) as nat)
    }
}

/// The number that `bytes` hold, lowest byte first.
pub open spec fn le_value(bytes: Seq<u8>) -> nat
    decreases bytes.len(),
{
    if bytes.len() == 0 {
        0
    } else {
        bytes[0] as nat + 256 * le_value(bytes.drop_first())
    }
}

/// `value` has no more than `width` bytes.
pub open spec fn fits(value: nat, width: nat) -> bool
    decreases width,
{
    if width == 0 {
        value == 0
    } else {
        fits(value / 256, (width - 1) as nat)
    }
}

/// A number that fits comes back from its bytes.
pub proof fn lemma_le_round_trip(value: nat, width: nat)
    requires
        fits(value, width),
    ensures
        le_bytes(value, width).len() == width,
        le_value(le_bytes(value, width)) == value,
    decreases width,
{
    if width > 0 {
        let rest = le_bytes(value / 256, (width - 1) as nat);
        lemma_le_round_trip(value / 256, (width - 1) as nat);
        assert(le_bytes(value, width).drop_first() =~= rest);
    }
}

/// A number is written with as many bytes as it is given.
pub proof fn lemma_le_length(value: nat, width: nat)
    ensures
        le_bytes(value, width).len() == width,
    decreases width,
{
    if width > 0 {
        lemma_le_length(value / 256, (width - 1) as nat);
    }
}

/// The integer types fit into the bytes that they take up.
pub proof fn lemma_integers_fit(a: u64, b: u16)
    ensures
        fits(a as nat, 8),
        fits(b as nat, 2),
{
    reveal_with_fuel(fits, 9);
}

/// The bytes of a pair: those of the first number, then those of the second.
pub open spec fn pair_bytes(first: u64, second: u16) -> Seq<u8> {
    le_bytes(first as nat, 8) + le_bytes(second as nat, 2)
}

/// A peer as a row of plain values: whether the address is an IPv6 one, its bits, port, flow
/// label and scope; the status; and the time of the last connection.
pub type PeerRow = (bool, u128, u16, u32, u32, u8, Option<(i64, u32)>);

/// The bits of a signed number, as a number.
pub open spec fn unsigned(value: i64) -> nat {
    if value >= 0 {
        value as nat
    } else {
        (value + 0x1_0000_0000_0000_0000) as nat
    }
}

/// The bytes of a row: those of its fields one after another. A missing time is a zero byte, and
/// a time that is there follows a byte that holds one.
pub open spec fn row_bytes(row: PeerRow) -> Seq<u8> {
    seq![if row.0 { 1u8 } else { 0u8 }] + le_bytes(row.1 as nat, 16) + le_bytes(row.2 as nat, 2)
        + le_bytes(row.3 as nat, 4) + le_bytes(row.4 as nat, 4) + seq![row.5] + match row.6 {
        Some(time) => seq![1u8] + le_bytes(unsigned(time.0), 8) + le_bytes(time.1 as nat, 4),
        None => seq![0u8],
    }
}

/// The bytes of rows, one after another.
pub open spec fn all_row_bytes(rows: Seq<PeerRow>) -> Seq<u8>
    decreases rows.len(),
{
    if rows.len() == 0 {
        Seq::empty()
    } else {
        row_bytes(rows[0]) + all_row_bytes(rows.drop_first())
    }
}

/// The bytes of a list of rows: their number, then the rows.
pub open spec fn rows_bytes(rows: Seq<PeerRow>) -> Seq<u8> {
    le_bytes(rows.len(), 8) + all_row_bytes(rows)
}

/// Two numbers that fit into the same bytes are the same.
proof fn lemma_le_injective(a: nat, b: nat, width: nat)
    requires
        fits(a, width),
        fits(b, width),
        le_bytes(a, width) == le_bytes(b, width),
    ensures
        a == b,
{
    lemma_le_round_trip(a, width);
    lemma_le_round_trip(b, width);
}

/// The fields of a row fit into the bytes that they take up, and take up all of them.
proof fn lemma_row_fields(row: PeerRow)
    ensures
        fits(row.1 as nat, 16),
        fits(row.2 as nat, 2),
        fits(row.3 as nat, 4),
        fits(row.4 as nat, 4),
        le_bytes(row.1 as nat, 16).len() == 16,
        le_bytes(row.2 as nat, 2).len() == 2,
        le_bytes(row.3 as nat, 4).len() == 4,
        le_bytes(row.4 as nat, 4).len() == 4,
        row.6 matches Some(time) ==> {
            &&& fits(unsigned(time.0), 8)
            &&& fits(time.1 as nat, 4)
            &&& le_bytes(unsigned(time.0), 8).len() == 8
            &&& le_bytes(time.1 as nat, 4).len() == 4
        },
{
    reveal_with_fuel(fits, 17);
    lemma_le_round_trip(row.1 as nat, 16);
    lemma_le_round_trip(row.2 as nat, 2);
    lemma_le_round_trip(row.3 as nat, 4);
    lemma_le_round_trip(row.4 as nat, 4);
    if let Some(time) = row.6 {
        lemma_le_round_trip(unsigned(time.0), 8);
        lemma_le_round_trip(time.1 as nat, 4);
    }
}

/// Where the parts of a row lie in bytes that start with it.
proof fn lemma_row_layout(row: PeerRow, behind: Seq<u8>)
    ensures
        ({
            let bytes = row_bytes(row) + behind;
            &&& bytes.len() >= 29
            &&& bytes[0] == if row.0 {
                1u8
            } else {
                0u8
            }
            &&& bytes.subrange(1, 17) == le_bytes(row.1 as nat, 16)
            &&& bytes.subrange(17, 19) == le_bytes(row.2 as nat, 2)
            &&& bytes.subrange(19, 23) == le_bytes(row.3 as nat, 4)
            &&& bytes.subrange(23, 27) == le_bytes(row.4 as nat, 4)
            &&& bytes[27] == row.5
            &&& match row.6 {
                Some(time) => {
                    &&& bytes.len() >= 41
                    &&& bytes[28] == 1
                    &&& bytes.subrange(29, 37) == le_bytes(unsigned(time.0), 8)
                    &&& bytes.subrange(37, 41) == le_bytes(time.1 as nat, 4)
                    &&& bytes.skip(41) == behind
                },
                None => bytes[28] == 0 && bytes.skip(29) == behind,
            }
        }),
{
    let bytes = row_bytes(row) + behind;
    lemma_row_fields(row);
    assert(bytes.subrange(1, 17) =~= le_bytes(row.1 as nat, 16));
    assert(bytes.subrange(17, 19) =~= le_bytes(row.2 as nat, 2));
    assert(bytes.subrange(19, 23) =~= le_bytes(row.3 as nat, 4));
    assert(bytes.subrange(23, 27) =~= le_bytes(row.4 as nat, 4));
    match row.6 {
        Some(time) => {
            assert(bytes.subrange(29, 37) =~= le_bytes(unsigned(time.0), 8));
            assert(bytes.subrange(37, 41) =~= le_bytes(time.1 as nat, 4));
            assert(bytes.skip(41) =~= behind);
        },
        None => {
            assert(bytes.skip(29) =~= behind);
        },
    }
}

/// Bytes that start with a row tell the row and what lies behind it.
proof fn lemma_row_injective(a: PeerRow, behind_a: Seq<u8>, b: PeerRow, behind_b: Seq<u8>)
    requires
        row_bytes(a) + behind_a == row_bytes(b) + behind_b,
    ensures
        a == b,
        behind_a == behind_b,
{
    lemma_row_layout(a, behind_a);
    lemma_row_layout(b, behind_b);
    lemma_row_fields(a);
    lemma_row_fields(b);
    lemma_le_injective(a.1 as nat, b.1 as nat, 16);
    lemma_le_injective(a.2 as nat, b.2 as nat, 2);
    lemma_le_injective(a.3 as nat, b.3 as nat, 4);
    lemma_le_injective(a.4 as nat, b.4 as nat, 4);
    if let (Some(s), Some(t)) = (a.6, b.6) {
        lemma_le_injective(unsigned(s.0), unsigned(t.0), 8);
        lemma_le_injective(s.1 as nat, t.1 as nat, 4);
        assert(s == t);
    }
}

/// The bytes of rows tell the rows, where their number is known.
proof fn lemma_all_rows_injective(a: Seq<PeerRow>, b: Seq<PeerRow>)
    requires
        a.len() == b.len(),
        all_row_bytes(a) == all_row_bytes(b),
    ensures
        a == b,
    decreases a.len(),
{
    if a.len() > 0 {
        lemma_row_injective(
            a[0],
            all_row_bytes(a.drop_first()),
            b[0],
            all_row_bytes(b.drop_first()),
        );
        lemma_all_rows_injective(a.drop_first(), b.drop_first());
        assert(a =~= seq![a[0]] + a.drop_first());
        assert(b =~= seq![b[0]] + b.drop_first());
    } else {
        assert(a =~= b);
    }
}

/// The bytes of a list of rows tell the list.
pub proof fn lemma_rows_injective(a: Seq<PeerRow>, b: Seq<PeerRow>)
    requires
        a.len() <= u64::MAX,
        b.len() <= u64::MAX,
        rows_bytes(a) == rows_bytes(b),
    ensures
        a == b,
{
    lemma_integers_fit(a.len() as u64, 0);
    lemma_integers_fit(b.len() as u64, 0);
    lemma_le_round_trip(a.len(), 8);
    lemma_le_round_trip(b.len(), 8);
    assert(rows_bytes(a).take(8) =~= le_bytes(a.len(), 8));
    assert(rows_bytes(b).take(8) =~= le_bytes(b.len(), 8));
    assert(rows_bytes(a).skip(8) =~= all_row_bytes(a));
    assert(rows_bytes(b).skip(8) =~= all_row_bytes(b));
    lemma_all_rows_injective(a, b);
}

/// The error of the `bincode` crate.
#[verifier::external_type_specification]
#[verifier::external_body]
pub struct ExErrorKind(bincode::ErrorKind);

/// Encodes a pair of numbers with `bincode::serialize`.
///
/// Trusted: the two numbers are written one after the other, with fixed width and the lowest byte
/// first, and nothing in them can make the call fail.
#[verifier::external_body]
pub(crate) fn encode_pair(first: u64, second: u16) -> (r: Result<Vec<u8>, Box<bincode::ErrorKind>>)
    ensures
        r is Ok,
        r->Ok_0@ == pair_bytes(first, second),
{
    bincode::serialize(&(first, second))
}

/// Decodes a pair of numbers with `bincode::deserialize`.
///
/// Trusted: the call succeeds exactly where there are bytes enough for both numbers, reads them
/// with fixed width and the lowest byte first, and leaves further bytes alone.
#[verifier::external_body]
pub(crate) fn decode_pair(bytes: &[u8]) -> (r: Result<(u64, u16), Box<bincode::ErrorKind>>)
    ensures
        r is Ok <==> bytes@.len() >= 10,
        r matches Ok(pair) ==> pair.0 == le_value(bytes@.subrange(0, 8)) && pair.1 == le_value(
            bytes@.subrange(8, 10),
        ),
{
    bincode::deserialize(bytes)
}

/// Encodes a list of rows with `bincode::serialize`.
///
/// Trusted: the number of rows is written with eight bytes, and the rows follow, field by field,
/// with fixed width and the lowest byte first. An option is a byte that tells whether a value is
/// there, and then the value. Nothing in the rows can make the call fail.
#[verifier::external_body]
pub(crate) fn encode_rows(rows: &Vec<PeerRow>) -> (r: Result<Vec<u8>, Box<bincode::ErrorKind>>)
    ensures
        r is Ok,
        r->Ok_0@ == rows_bytes(rows@),
{
    bincode::serialize(rows)
}

} // verus!
