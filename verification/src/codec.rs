//! The persisted shape of a table: a byte encoding of identity, stakes and
//! draw state, with a decoder that checks what it reads. Encoding and
//! decoding invert each other, so a table written after any number of bets
//! and a draw is read back with the same stakes, result and claimed flags.

use vstd::prelude::*;
use crate::category::Category;
use crate::table::DrawResult;
use crate::table::PositionStruct;
use crate::table::Table;
use crate::table::TableView;
use crate::table::TABLE_CAPACITY;
use crate::outcome::WHEEL_MAX;

verus! {

/// The eight little-endian bytes of a 64-bit word.
pub open spec fn spec_u64_le(v: u64) -> Seq<u8> {
    seq![
        (v & 0xff) as u8,
        ((v >> 8) & 0xff) as u8,
        ((v >> 16) & 0xff) as u8,
        ((v >> 24) & 0xff) as u8,
        ((v >> 32) & 0xff) as u8,
        ((v >> 40) & 0xff) as u8,
        ((v >> 48) & 0xff) as u8,
        ((v >> 56) & 0xff) as u8,
    ]
}

/// The 64-bit word read from eight little-endian bytes.
pub open spec fn spec_u64_val(s: Seq<u8>) -> u64
    recommends
        s.len() == 8,
{
    (s[0] as u64) | ((s[1] as u64) << 8) | ((s[2] as u64) << 16) | ((s[3] as u64) << 24) | ((
    s[4] as u64) << 32) | ((s[5] as u64) << 40) | ((s[6] as u64) << 48) | ((s[7] as u64) << 56)
}

/// Reading back the eight little-endian bytes of a word yields the word.
pub proof fn lemma_u64_le_round_trip(v: u64)
    ensures
        spec_u64_val(spec_u64_le(v)) == v,
{
    let s = spec_u64_le(v);
    assert(s[0] == (v & 0xff) as u8);
    assert(s[1] == ((v >> 8) & 0xff) as u8);
    assert(s[2] == ((v >> 16) & 0xff) as u8);
    assert(s[3] == ((v >> 24) & 0xff) as u8);
    assert(s[4] == ((v >> 32) & 0xff) as u8);
    assert(s[5] == ((v >> 40) & 0xff) as u8);
    assert(s[6] == ((v >> 48) & 0xff) as u8);
    assert(s[7] == ((v >> 56) & 0xff) as u8);
    assert(((v & 0xff) as u8 as u64) | (((v >> 8) & 0xff) as u8 as u64) << 8 | (((v >> 16)
        & 0xff) as u8 as u64) << 16 | (((v >> 24) & 0xff) as u8 as u64) << 24 | (((v >> 32)
        & 0xff) as u8 as u64) << 32 | (((v >> 40) & 0xff) as u8 as u64) << 40 | (((v >> 48)
        & 0xff) as u8 as u64) << 48 | (((v >> 56) & 0xff) as u8 as u64) << 56 == v)
        by (bit_vector);
}

/// The wire tag of a category.
pub open spec fn spec_cat_tag(c: Category) -> u8 {
    match c {
        Category::Red => 0,
        Category::Black => 1,
        Category::Green => 2,
        Category::Even => 3,
        Category::Odd => 4,
        Category::Low => 5,
        Category::High => 6,
        Category::Dozen1 => 7,
        Category::Dozen2 => 8,
        Category::Dozen3 => 9,
        Category::Col1 => 10,
        Category::Col2 => 11,
        Category::Col3 => 12,
    }
}

/// The category a wire tag names, if any.
pub open spec fn spec_cat_of_tag(tag: u8) -> Option<Category> {
    if tag == 0 {
        Some(Category::Red)
    } else if tag == 1 {
        Some(Category::Black)
    } else if tag == 2 {
        Some(Category::Green)
    } else if tag == 3 {
        Some(Category::Even)
    } else if tag == 4 {
        Some(Category::Odd)
    } else if tag == 5 {
        Some(Category::Low)
    } else if tag == 6 {
        Some(Category::High)
    } else if tag == 7 {
        Some(Category::Dozen1)
    } else if tag == 8 {
        Some(Category::Dozen2)
    } else if tag == 9 {
        Some(Category::Dozen3)
    } else if tag == 10 {
        Some(Category::Col1)
    } else if tag == 11 {
        Some(Category::Col2)
    } else if tag == 12 {
        Some(Category::Col3)
    } else {
        None
    }
}

/// Every category's tag reads back to the category.
pub proof fn lemma_cat_tag_round_trip(c: Category)
    ensures
        spec_cat_of_tag(spec_cat_tag(c)) == Some(c),
{
}

/// One stake on the wire: its category tag, the bettor, the amount, and the
/// claimed flag, eighteen bytes in all.
pub open spec fn spec_encode_position(p: PositionStruct) -> Seq<u8> {
    seq![spec_cat_tag(p.position)] + spec_u64_le(p.user_address) + spec_u64_le(p.amount) + seq![
        if p.is_claimed {
            1u8
        } else {
            0u8
        },
    ]
}

/// Reads one stake off the front of `s`. A tag that names no category, a
/// zero amount or a claimed byte that is not zero or one is refused.
pub open spec fn spec_parse_position(s: Seq<u8>) -> Option<(PositionStruct, Seq<u8>)> {
    if s.len() < 18 {
        None
    } else {
        match spec_cat_of_tag(s[0]) {
            None => None,
            Some(c) => {
                let user = spec_u64_val(s.subrange(1, 9));
                let amount = spec_u64_val(s.subrange(9, 17));
                if amount == 0 {
                    None
                } else if s[17] == 0 || s[17] == 1 {
                    Some(
                        (
                            PositionStruct {
                                position: c,
                                amount,
                                user_address: user,
                                is_claimed: s[17] == 1,
                            },
                            s.skip(18),
                        ),
                    )
                } else {
                    None
                }
            },
        }
    }
}

/// The stakes one after the other, in placement order.
pub open spec fn spec_encode_positions(ps: Seq<PositionStruct>) -> Seq<u8>
    decreases ps.len(),
{
    if ps.len() == 0 {
        Seq::empty()
    } else {
        spec_encode_position(ps[0]) + spec_encode_positions(ps.drop_first())
    }
}

/// Reads `count` stakes off the front of `s`.
pub open spec fn spec_parse_positions(s: Seq<u8>, count: nat) -> Option<
    (Seq<PositionStruct>, Seq<u8>),
>
    decreases count,
{
    if count == 0 {
        Some((Seq::empty(), s))
    } else {
        match spec_parse_position(s) {
            None => None,
            Some((p, r)) => match spec_parse_positions(r, (count - 1) as nat) {
                None => None,
                Some((ps, r2)) => Some((seq![p] + ps, r2)),
            },
        }
    }
}

/// The draw state on the wire: one byte says whether a number was drawn, and
/// the drawn number follows it.
pub open spec fn spec_encode_result(res: DrawResult) -> Seq<u8> {
    match res {
        DrawResult::Unset => seq![0u8],
        DrawResult::Drawn(n) => seq![1u8, n],
    }
}

/// Reads the draw state off the front of `s`; a drawn number off the wheel is
/// refused.
pub open spec fn spec_parse_result(s: Seq<u8>) -> Option<(DrawResult, Seq<u8>)> {
    if s.len() < 1 {
        None
    } else if s[0] == 0 {
        Some((DrawResult::Unset, s.skip(1)))
    } else if s[0] == 1 {
        if s.len() < 2 {
            None
        } else if s[1] <= WHEEL_MAX {
            Some((DrawResult::Drawn(s[1]), s.skip(2)))
        } else {
            None
        }
    } else {
        None
    }
}

/// A whole table on the wire: the identity, length first, then the draw
/// state, then the stakes behind their count.
pub open spec fn spec_encode(t: TableView) -> Seq<u8> {
    spec_u64_le(t.id.len() as u64) + t.id + spec_encode_result(t.result) + seq![
        t.positions.len() as u8,
    ] + spec_encode_positions(t.positions)
}

/// Reads a whole table back, refusing a count over the capacity and any
/// trailing bytes.
pub open spec fn spec_decode(s: Seq<u8>) -> Option<TableView> {
    if s.len() < 8 {
        None
    } else {
        let idlen = spec_u64_val(s.take(8)) as int;
        let r1 = s.skip(8);
        if r1.len() < idlen {
            None
        } else {
            let id = r1.take(idlen);
            let r2 = r1.skip(idlen);
            match spec_parse_result(r2) {
                None => None,
                Some((res, r3)) => {
                    if r3.len() < 1 {
                        None
                    } else {
                        let count = r3[0] as int;
                        let r4 = r3.skip(1);
                        if count > TABLE_CAPACITY as int {
                            None
                        } else {
                            match spec_parse_positions(r4, count as nat) {
                                None => None,
                                Some((ps, r5)) => {
                                    if r5.len() != 0 {
                                        None
                                    } else {
                                        Some(TableView { id, positions: ps, result: res })
                                    }
                                },
                            }
                        }
                    }
                },
            }
        }
    }
}

/// Encoding a prefix one stake longer appends that stake's bytes.
pub proof fn lemma_encode_positions_take_succ(ps: Seq<PositionStruct>, i: int)
    requires
        0 <= i < ps.len(),
    ensures
        spec_encode_positions(ps.take(i + 1)) == spec_encode_positions(ps.take(i))
            + spec_encode_position(ps[i]),
    decreases i,
{
    if i == 0 {
        assert(ps.take(0) =~= Seq::<PositionStruct>::empty());
        assert(ps.take(1)[0] == ps[0]);
        assert(ps.take(1).drop_first() =~= Seq::<PositionStruct>::empty());
        assert(spec_encode_positions(Seq::<PositionStruct>::empty()) == Seq::<u8>::empty());
        assert(spec_encode_positions(ps.take(1)) == spec_encode_position(ps[0])
            + Seq::<u8>::empty());
        assert(spec_encode_position(ps[0]) + Seq::<u8>::empty() =~= spec_encode_position(ps[0]));
        assert(Seq::<u8>::empty() + spec_encode_position(ps[0]) =~= spec_encode_position(ps[0]));
    } else {
        let q = ps.drop_first();
        lemma_encode_positions_take_succ(q, i - 1);
        assert(ps.take(i + 1)[0] == ps[0]);
        assert(ps.take(i + 1).drop_first() =~= q.take(i));
        assert(ps.take(i)[0] == ps[0]);
        assert(ps.take(i).drop_first() =~= q.take(i - 1));
        assert(q[i - 1] == ps[i]);
        assert(spec_encode_positions(ps.take(i + 1)) == spec_encode_position(ps[0])
            + spec_encode_positions(q.take(i)));
        assert(spec_encode_positions(ps.take(i)) == spec_encode_position(ps[0])
            + spec_encode_positions(q.take(i - 1)));
        assert(spec_encode_position(ps[0]) + (spec_encode_positions(q.take(i - 1))
            + spec_encode_position(ps[i])) =~= (spec_encode_position(ps[0])
            + spec_encode_positions(q.take(i - 1))) + spec_encode_position(ps[i]));
    }
}

fn cat_tag(c: Category) -> (r: u8)
    ensures
        r == spec_cat_tag(c),
{
    match c {
        Category::Red => 0,
        Category::Black => 1,
        Category::Green => 2,
        Category::Even => 3,
        Category::Odd => 4,
        Category::Low => 5,
        Category::High => 6,
        Category::Dozen1 => 7,
        Category::Dozen2 => 8,
        Category::Dozen3 => 9,
        Category::Col1 => 10,
        Category::Col2 => 11,
        Category::Col3 => 12,
    }
}

fn cat_of_tag(tag: u8) -> (r: Option<Category>)
    ensures
        r == spec_cat_of_tag(tag),
{
    if tag == 0 {
        Some(Category::Red)
    } else if tag == 1 {
        Some(Category::Black)
    } else if tag == 2 {
        Some(Category::Green)
    } else if tag == 3 {
        Some(Category::Even)
    } else if tag == 4 {
        Some(Category::Odd)
    } else if tag == 5 {
        Some(Category::Low)
    } else if tag == 6 {
        Some(Category::High)
    } else if tag == 7 {
        Some(Category::Dozen1)
    } else if tag == 8 {
        Some(Category::Dozen2)
    } else if tag == 9 {
        Some(Category::Dozen3)
    } else if tag == 10 {
        Some(Category::Col1)
    } else if tag == 11 {
        Some(Category::Col2)
    } else if tag == 12 {
        Some(Category::Col3)
    } else {
        None
    }
}

fn push_u64_le(out: &mut Vec<u8>, v: u64)
    ensures
        final(out)@ == old(out)@ + spec_u64_le(v),
{
    proof {
        assert((v & 0xff) < 256 && ((v >> 8) & 0xff) < 256 && ((v >> 16) & 0xff) < 256 && ((v
            >> 24) & 0xff) < 256 && ((v >> 32) & 0xff) < 256 && ((v >> 40) & 0xff) < 256 && ((v
            >> 48) & 0xff) < 256 && ((v >> 56) & 0xff) < 256) by (bit_vector);
    }
    out.push((v & 0xff) as u8);
    out.push(((v >> 8) & 0xff) as u8);
    out.push(((v >> 16) & 0xff) as u8);
    out.push(((v >> 24) & 0xff) as u8);
    out.push(((v >> 32) & 0xff) as u8);
    out.push(((v >> 40) & 0xff) as u8);
    out.push(((v >> 48) & 0xff) as u8);
    out.push(((v >> 56) & 0xff) as u8);
    proof {
        assert(out@ =~= old(out)@ + spec_u64_le(v));
    }
}

fn read_u64_le(bytes: &[u8], off: usize) -> (r: u64)
    requires
        off + 8 <= bytes@.len(),
    ensures
        r == spec_u64_val(bytes@.subrange(off as int, off as int + 8)),
{
    let b0 = bytes[off];
    let b1 = bytes[off + 1];
    let b2 = bytes[off + 2];
    let b3 = bytes[off + 3];
    let b4 = bytes[off + 4];
    let b5 = bytes[off + 5];
    let b6 = bytes[off + 6];
    let b7 = bytes[off + 7];
    (b0 as u64) | ((b1 as u64) << 8) | ((b2 as u64) << 16) | ((b3 as u64) << 24) | ((
    b4 as u64) << 32) | ((b5 as u64) << 40) | ((b6 as u64) << 48) | ((b7 as u64) << 56)
}

/// Writes a table out in the persisted shape.
pub fn encode(table: &Table) -> (r: Vec<u8>)
    requires
        table@.wf(),
    ensures
        r@ == spec_encode(table@),
{
    let mut out: Vec<u8> = Vec::new();
    push_u64_le(&mut out, table.id.len() as u64);
    let id_len = table.id.len();
    let mut j: usize = 0;
    while j < id_len
        invariant
            j <= id_len,
            id_len == table@.id.len(),
            out@ == spec_u64_le(table@.id.len() as u64) + table@.id.take(j as int),
        decreases id_len - j,
    {
        out.push(table.id[j]);
        proof {
            assert(spec_u64_le(table@.id.len() as u64) + table@.id.take(j as int + 1)
                =~= (spec_u64_le(table@.id.len() as u64) + table@.id.take(j as int)).push(
                table@.id[j as int],
            ));
        }
        j += 1;
    }
    proof {
        assert(table@.id.take(table@.id.len() as int) =~= table@.id);
    }
    match table.result {
        DrawResult::Unset => {
            out.push(0u8);
        },
        DrawResult::Drawn(n) => {
            out.push(1u8);
            out.push(n);
        },
    }
    out.push(table.positions.len() as u8);
    let ghost prefix = spec_u64_le(table@.id.len() as u64) + table@.id + spec_encode_result(
        table@.result,
    ) + seq![table@.positions.len() as u8];
    proof {
        assert(out@ =~= prefix + spec_encode_positions(table@.positions.take(0)));
    }
    let n_pos = table.positions.len();
    let mut i: usize = 0;
    while i < n_pos
        invariant
            i <= n_pos,
            n_pos == table@.positions.len(),
            out@ == prefix + spec_encode_positions(table@.positions.take(i as int)),
        decreases n_pos - i,
    {
        let p = table.positions[i];
        out.push(cat_tag(p.position));
        push_u64_le(&mut out, p.user_address);
        push_u64_le(&mut out, p.amount);
        out.push(if p.is_claimed { 1u8 } else { 0u8 });
        proof {
            lemma_encode_positions_take_succ(table@.positions, i as int);
            assert(out@ =~= prefix + spec_encode_positions(table@.positions.take(i as int + 1)));
        }
        i += 1;
    }
    proof {
        assert(table@.positions.take(n_pos as int) =~= table@.positions);
        assert(out@ =~= spec_encode(table@));
    }
    out
}

/// What remains of a decode once the identity, the draw state and the count
/// are read: the stakes still to be parsed, appended to those already read.
spec fn spec_decode_tail(
    id: Seq<u8>,
    res: DrawResult,
    acc: Seq<PositionStruct>,
    s: Seq<u8>,
    remaining: nat,
) -> Option<TableView> {
    match spec_parse_positions(s, remaining) {
        None => None,
        Some((ps, r)) => {
            if r.len() != 0 {
                None
            } else {
                Some(TableView { id, positions: acc + ps, result: res })
            }
        },
    }
}

/// Reads a table back from the persisted shape, checking every field it
/// reads; bytes that no table encoding produces are refused.
pub fn decode(bytes: &[u8]) -> (r: Option<Table>)
    ensures
        match r {
            Some(t) => spec_decode(bytes@) == Some(t@),
            None => spec_decode(bytes@) is None,
        },
{
    let n = bytes.len();
    if n < 8 {
        return None;
    }
    let idlen64 = read_u64_le(bytes, 0);
    proof {
        assert(bytes@.subrange(0, 8) =~= bytes@.take(8));
    }
    if idlen64 > (n - 8) as u64 {
        proof {
            assert(bytes@.skip(8).len() < spec_u64_val(bytes@.take(8)) as int);
        }
        return None;
    }
    let idlen = idlen64 as usize;
    let mut id: Vec<u8> = Vec::new();
    let mut j: usize = 0;
    while j < idlen
        invariant
            j <= idlen,
            8 + idlen <= n,
            n == bytes@.len(),
            id@ == bytes@.subrange(8, 8 + j as int),
        decreases idlen - j,
    {
        id.push(bytes[8 + j]);
        proof {
            assert(bytes@.subrange(8, 8 + j as int + 1) =~= bytes@.subrange(8, 8 + j as int).push(
                bytes@[8 + j as int],
            ));
        }
        j += 1;
    }
    proof {
        assert(id@ =~= bytes@.skip(8).take(idlen as int));
    }
    let mut off: usize = 8 + idlen;
    let ghost r2 = bytes@.skip(8).skip(idlen as int);
    proof {
        assert(r2 =~= bytes@.skip(off as int));
    }
    if off >= n {
        proof {
            assert(spec_parse_result(r2) is None);
            assert(spec_decode(bytes@) is None);
        }
        return None;
    }
    let tag = bytes[off];
    proof {
        assert(r2[0] == bytes@[off as int]);
    }
    let result: DrawResult;
    if tag == 0 {
        result = DrawResult::Unset;
        proof {
            assert(r2.skip(1) =~= bytes@.skip(off as int + 1));
        }
        off = off + 1;
    } else if tag == 1 {
        if n - off < 2 {
            proof {
                assert(spec_parse_result(r2) is None);
                assert(spec_decode(bytes@) is None);
            }
            return None;
        }
        let num = bytes[off + 1];
        proof {
            assert(r2[1] == bytes@[off as int + 1]);
        }
        if num > WHEEL_MAX {
            proof {
                assert(spec_parse_result(r2) is None);
                assert(spec_decode(bytes@) is None);
            }
            return None;
        }
        result = DrawResult::Drawn(num);
        proof {
            assert(r2.skip(2) =~= bytes@.skip(off as int + 2));
        }
        off = off + 2;
    } else {
        proof {
            assert(spec_parse_result(r2) is None);
            assert(spec_decode(bytes@) is None);
        }
        return None;
    }
    let ghost r3 = bytes@.skip(off as int);
    proof {
        assert(spec_parse_result(r2) == Some((result, r3)));
    }
    if off >= n {
        proof {
            assert(r3.len() < 1);
            assert(spec_decode(bytes@) is None);
        }
        return None;
    }
    let count = bytes[off];
    proof {
        assert(r3[0] == bytes@[off as int]);
        assert(r3.skip(1) =~= bytes@.skip(off as int + 1));
    }
    off = off + 1;
    if count as usize > TABLE_CAPACITY {
        proof {
            assert(spec_decode(bytes@) is None);
        }
        return None;
    }
    let ghost r4 = bytes@.skip(off as int);
    proof {
        assert(spec_decode(bytes@) == spec_decode_tail(
            id@,
            result,
            Seq::empty(),
            r4,
            count as nat,
        ));
    }
    let mut positions: Vec<PositionStruct> = Vec::new();
    let mut k: u8 = 0;
    while k < count
        invariant
            k <= count,
            n == bytes@.len(),
            off <= n,
            positions@.len() == k as int,
            spec_decode(bytes@) == spec_decode_tail(
                id@,
                result,
                positions@,
                bytes@.skip(off as int),
                (count - k) as nat,
            ),
        decreases count - k,
    {
        let ghost s_here = bytes@.skip(off as int);
        let ghost rem = (count - k) as nat;
        if n - off < 18 {
            proof {
                assert(spec_parse_position(s_here) is None);
                assert(spec_parse_positions(s_here, rem) is None);
            }
            return None;
        }
        let ctag = bytes[off];
        proof {
            assert(s_here[0] == bytes@[off as int]);
        }
        let c = match cat_of_tag(ctag) {
            None => {
                proof {
                    assert(spec_parse_position(s_here) is None);
                    assert(spec_parse_positions(s_here, rem) is None);
                }
                return None;
            },
            Some(c) => c,
        };
        let user = read_u64_le(bytes, off + 1);
        let amount = read_u64_le(bytes, off + 9);
        proof {
            assert(s_here.subrange(1, 9) =~= bytes@.subrange(off as int + 1, off as int + 9));
            assert(s_here.subrange(9, 17) =~= bytes@.subrange(off as int + 9, off as int + 17));
        }
        if amount == 0 {
            proof {
                assert(spec_parse_position(s_here) is None);
                assert(spec_parse_positions(s_here, rem) is None);
            }
            return None;
        }
        let cl = bytes[off + 17];
        proof {
            assert(s_here[17] == bytes@[off as int + 17]);
        }
        if cl > 1 {
            proof {
                assert(spec_parse_position(s_here) is None);
                assert(spec_parse_positions(s_here, rem) is None);
            }
            return None;
        }
        let p = PositionStruct { position: c, amount, user_address: user, is_claimed: cl == 1 };
        let ghost s_next = bytes@.skip(off as int + 18);
        proof {
            assert(s_here.skip(18) =~= s_next);
            assert(spec_parse_position(s_here) == Some((p, s_next)));
        }
        let ghost old_positions = positions@;
        positions.push(p);
        proof {
            let pr = spec_parse_positions(s_next, (rem - 1) as nat);
            if pr is Some {
                let ps2 = pr->Some_0.0;
                assert(spec_parse_positions(s_here, rem) == Some((seq![p] + ps2, pr->Some_0.1)));
                assert(old_positions + (seq![p] + ps2) =~= positions@ + ps2);
            } else {
                assert(spec_parse_positions(s_here, rem) is None);
            }
            assert(spec_decode_tail(id@, result, old_positions, s_here, rem)
                == spec_decode_tail(id@, result, positions@, s_next, (rem - 1) as nat));
        }
        off = off + 18;
        k = k + 1;
    }
    proof {
        assert(spec_parse_positions(bytes@.skip(off as int), 0) == Some(
            (Seq::<PositionStruct>::empty(), bytes@.skip(off as int)),
        ));
    }
    if off != n {
        proof {
            assert(bytes@.skip(off as int).len() != 0);
            assert(spec_decode(bytes@) is None);
        }
        return None;
    }
    proof {
        assert(bytes@.skip(off as int).len() == 0);
        assert(positions@ + Seq::<PositionStruct>::empty() =~= positions@);
    }
    Some(Table { id, positions, result })
}

/// Reading one encoded stake back yields the stake and leaves the rest.
pub proof fn lemma_position_round_trip(p: PositionStruct, rest: Seq<u8>)
    requires
        p.amount > 0,
    ensures
        spec_parse_position(spec_encode_position(p) + rest) == Some((p, rest)),
{
    let s = spec_encode_position(p) + rest;
    assert(s.subrange(1, 9) =~= spec_u64_le(p.user_address));
    assert(s.subrange(9, 17) =~= spec_u64_le(p.amount));
    lemma_u64_le_round_trip(p.user_address);
    lemma_u64_le_round_trip(p.amount);
    lemma_cat_tag_round_trip(p.position);
    assert(s[0] == spec_cat_tag(p.position));
    assert(s[17] == if p.is_claimed { 1u8 } else { 0u8 });
    assert(s.skip(18) =~= rest);
}

/// Reading the encoded stakes back yields them all and leaves the rest.
pub proof fn lemma_positions_round_trip(ps: Seq<PositionStruct>, rest: Seq<u8>)
    requires
        forall|i: int| 0 <= i < ps.len() ==> (#[trigger] ps[i]).amount > 0,
    ensures
        spec_parse_positions(spec_encode_positions(ps) + rest, ps.len()) == Some((ps, rest)),
    decreases ps.len(),
{
    if ps.len() == 0 {
        assert(spec_encode_positions(ps) + rest =~= rest);
        assert(ps =~= Seq::<PositionStruct>::empty());
    } else {
        let p = ps[0];
        let tail = ps.drop_first();
        assert((spec_encode_position(p) + spec_encode_positions(tail)) + rest
            =~= spec_encode_position(p) + (spec_encode_positions(tail) + rest));
        lemma_position_round_trip(p, spec_encode_positions(tail) + rest);
        assert(forall|i: int| 0 <= i < tail.len() ==> (#[trigger] tail[i]).amount > 0);
        lemma_positions_round_trip(tail, rest);
        assert(seq![p] + tail =~= ps);
    }
}

/// A table read back from its own encoding is the same table: the identity,
/// every stake with its claimed flag, and the draw state all survive the
/// round trip.
#[verifier::rlimit(60)]
pub proof fn lemma_codec_round_trip(t: TableView)
    requires
        t.wf(),
        t.id.len() <= u64::MAX,
    ensures
        spec_decode(spec_encode(t)) == Some(t),
{
    let s = spec_encode(t);
    let idlen64 = t.id.len() as u64;
    lemma_u64_le_round_trip(idlen64);
    assert(s.take(8) =~= spec_u64_le(idlen64));
    let r1 = s.skip(8);
    assert(r1.take(t.id.len() as int) =~= t.id);
    let r2 = r1.skip(t.id.len() as int);
    assert(r2 =~= spec_encode_result(t.result) + (seq![t.positions.len() as u8]
        + spec_encode_positions(t.positions)));
    let r3_expect = seq![t.positions.len() as u8] + spec_encode_positions(t.positions);
    match t.result {
        DrawResult::Unset => {
            assert(r2[0] == 0);
            assert(r2.skip(1) =~= r3_expect);
            assert(spec_parse_result(r2) == Some((t.result, r2.skip(1))));
        },
        DrawResult::Drawn(n) => {
            assert(r2[0] == 1);
            assert(r2[1] == n);
            assert(n <= WHEEL_MAX);
            assert(r2.skip(2) =~= r3_expect);
            assert(spec_parse_result(r2) == Some((t.result, r2.skip(2))));
        },
    }
    let r3 = r3_expect;
    assert(r3[0] == t.positions.len() as u8);
    assert(r3[0] as int == t.positions.len() as int);
    let r4 = r3.skip(1);
    assert(r4 =~= spec_encode_positions(t.positions) + Seq::<u8>::empty());
    lemma_positions_round_trip(t.positions, Seq::empty());
    assert(spec_parse_positions(r4, t.positions.len()) == Some(
        (t.positions, Seq::<u8>::empty()),
    ));
}

} // verus!
