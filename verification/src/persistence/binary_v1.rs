//! The binary wire format of a compressed model.
//!
//! The layout is, with every multi-byte integer little-endian:
//!
//! `<image width u32><image height u32>` followed by groups, each
//! `<range block size u32><entry count u32><entry>*`, where an entry is
//! `<range origin x u32><range origin y u32><domain origin x u32>
//! <domain origin y u32><rotation u8><brightness i16><saturation f64 bits>`.
//!
//! A domain block is always twice the side of its range block, so the
//! domain size is not stored; writing a model that violates this fails, and
//! reading reconstructs the domain size by doubling.

use vstd::prelude::*;

use crate::image::Coords;
use crate::image::Size;
use crate::model::Block;
use crate::model::Compressed;
use crate::model::Rotation;
use crate::model::RotationInvalidError;
use crate::model::Saturation;
use crate::model::Transformation;

verus! {

/// The error returned when a model cannot be written: some transformation's
/// domain block is not twice its range block.
#[derive(Debug, Copy, Clone, PartialEq, Eq, Structural)]
pub enum SerializationError {
    InvalidBlockSize { range_size: u32, domain_size: u32 },
}

/// The error returned when a byte stream does not hold a model: the bytes
/// end inside a group, or a rotation byte is not a rotation.  Writing into
/// a byte buffer cannot fail, so truncation is the only input-independent
/// failure left of the reader's.
#[derive(Debug, Copy, Clone, PartialEq, Eq, Structural)]
pub enum DeserializationError {
    UnexpectedEof,
    InvalidRotation(RotationInvalidError),
}

/// The four little-endian bytes of a 32-bit integer.
pub open spec fn spec_le_u32(v: u32) -> Seq<u8> {
    seq![
        (v & 0xff) as u8,
        ((v >> 8) & 0xff) as u8,
        ((v >> 16) & 0xff) as u8,
        ((v >> 24) & 0xff) as u8,
    ]
}

/// The 32-bit integer read from four little-endian bytes.
pub open spec fn spec_u32_of_le(b: Seq<u8>) -> u32 {
    (b[0] as u32) | (b[1] as u32) << 8 | (b[2] as u32) << 16 | (b[3] as u32) << 24
}

/// The eight little-endian bytes of a 64-bit integer.
pub open spec fn spec_le_u64(v: u64) -> Seq<u8> {
    seq![
        (v & 0xff) as u8,
        ((v >> 8) & 0xff) as u8,
        ((v >> 16) & 0xff) as u8,
        ((v >> 24) & 0xff) as u8,
        ((v >> 32) & 0xff) as u8,
        ((v >> 40) & 0xff) as u8,
        ((v >> 48) & 0xff) as u8,
        ((v >> 56) & 0xff) as u8,
    ]
}

/// The 64-bit integer read from eight little-endian bytes.
pub open spec fn spec_u64_of_le(b: Seq<u8>) -> u64 {
    (b[0] as u64) | (b[1] as u64) << 8 | (b[2] as u64) << 16 | (b[3] as u64) << 24 | (
    b[4] as u64) << 32 | (b[5] as u64) << 40 | (b[6] as u64) << 48 | (b[7] as u64) << 56
}

/// The two little-endian bytes of a signed 16-bit integer, in two's
/// complement.
pub open spec fn spec_le_i16(v: i16) -> Seq<u8> {
    seq![(v as u16 & 0xff) as u8, ((v as u16 >> 8) & 0xff) as u8]
}

/// The signed 16-bit integer read from two little-endian bytes.
pub open spec fn spec_i16_of_le(b: Seq<u8>) -> i16 {
    (((b[0] as u16) | (b[1] as u16) << 8)) as i16
}

/// Reading back the four bytes of a 32-bit integer returns the integer.
pub proof fn lemma_u32_le_round_trip(v: u32)
    ensures
        spec_u32_of_le(spec_le_u32(v)) == v,
{
    assert((((v & 0xff) as u8) as u32) | ((((v >> 8) & 0xff) as u8) as u32) << 8 | ((((v
        >> 16) & 0xff) as u8) as u32) << 16 | ((((v >> 24) & 0xff) as u8) as u32) << 24
        == v) by (bit_vector);
}

/// Reading back the eight bytes of a 64-bit integer returns the integer.
pub proof fn lemma_u64_le_round_trip(v: u64)
    ensures
        spec_u64_of_le(spec_le_u64(v)) == v,
{
    assert((((v & 0xff) as u8) as u64) | ((((v >> 8) & 0xff) as u8) as u64) << 8 | ((((v
        >> 16) & 0xff) as u8) as u64) << 16 | ((((v >> 24) & 0xff) as u8) as u64) << 24
        | ((((v >> 32) & 0xff) as u8) as u64) << 32 | ((((v >> 40) & 0xff) as u8) as u64)
        << 40 | ((((v >> 48) & 0xff) as u8) as u64) << 48 | ((((v >> 56) & 0xff) as u8)
        as u64) << 56 == v) by (bit_vector);
}

/// Reading back the two bytes of a signed 16-bit integer returns the
/// integer.
pub proof fn lemma_i16_le_round_trip(v: i16)
    ensures
        spec_i16_of_le(spec_le_i16(v)) == v,
{
    let u = v as u16;
    assert(((((u & 0xff) as u8) as u16) | ((((u >> 8) & 0xff) as u8) as u16) << 8) == u)
        by (bit_vector);
    assert((v as u16) as i16 == v) by (bit_vector);
}

/// Appends the four little-endian bytes of `v`.
fn push_u32_le(buf: &mut Vec<u8>, v: u32)
    ensures
        final(buf)@ == old(buf)@ + spec_le_u32(v),
{
    proof {
        assert((v & 0xff) < 256 && ((v >> 8) & 0xff) < 256 && ((v >> 16) & 0xff) < 256
            && ((v >> 24) & 0xff) < 256) by (bit_vector);
    }
    buf.push((v & 0xff) as u8);
    buf.push(((v >> 8) & 0xff) as u8);
    buf.push(((v >> 16) & 0xff) as u8);
    buf.push(((v >> 24) & 0xff) as u8);
    proof {
        assert(buf@ =~= old(buf)@ + spec_le_u32(v));
    }
}

/// Appends the eight little-endian bytes of `v`.
fn push_u64_le(buf: &mut Vec<u8>, v: u64)
    ensures
        final(buf)@ == old(buf)@ + spec_le_u64(v),
{
    proof {
        assert((v & 0xff) < 256 && ((v >> 8) & 0xff) < 256 && ((v >> 16) & 0xff) < 256
            && ((v >> 24) & 0xff) < 256 && ((v >> 32) & 0xff) < 256 && ((v >> 40) & 0xff)
            < 256 && ((v >> 48) & 0xff) < 256 && ((v >> 56) & 0xff) < 256)
            by (bit_vector);
    }
    buf.push((v & 0xff) as u8);
    buf.push(((v >> 8) & 0xff) as u8);
    buf.push(((v >> 16) & 0xff) as u8);
    buf.push(((v >> 24) & 0xff) as u8);
    buf.push(((v >> 32) & 0xff) as u8);
    buf.push(((v >> 40) & 0xff) as u8);
    buf.push(((v >> 48) & 0xff) as u8);
    buf.push(((v >> 56) & 0xff) as u8);
    proof {
        assert(buf@ =~= old(buf)@ + spec_le_u64(v));
    }
}

/// Appends the two little-endian bytes of `v`.
fn push_i16_le(buf: &mut Vec<u8>, v: i16)
    ensures
        final(buf)@ == old(buf)@ + spec_le_i16(v),
{
    let u: u16 = v as u16;
    proof {
        assert((u & 0xff) < 256 && ((u >> 8) & 0xff) < 256) by (bit_vector);
        assert(u == v as u16);
    }
    buf.push((u & 0xff) as u8);
    buf.push(((u >> 8) & 0xff) as u8);
    proof {
        assert(buf@ =~= old(buf)@ + spec_le_i16(v));
    }
}

/// Reads the 32-bit little-endian integer at `pos`.
fn read_u32_le(bytes: &[u8], pos: usize) -> (r: u32)
    requires
        pos + 4 <= bytes@.len(),
    ensures
        r == spec_u32_of_le(bytes@.subrange(pos as int, pos as int + 4)),
{
    let r = bytes[pos] as u32 | (bytes[pos + 1] as u32) << 8u32 | (bytes[pos + 2] as u32)
        << 16u32 | (bytes[pos + 3] as u32) << 24u32;
    r
}

/// Reads the 64-bit little-endian integer at `pos`.
fn read_u64_le(bytes: &[u8], pos: usize) -> (r: u64)
    requires
        pos + 8 <= bytes@.len(),
    ensures
        r == spec_u64_of_le(bytes@.subrange(pos as int, pos as int + 8)),
{
    let r = bytes[pos] as u64 | (bytes[pos + 1] as u64) << 8u64 | (bytes[pos + 2] as u64)
        << 16u64 | (bytes[pos + 3] as u64) << 24u64 | (bytes[pos + 4] as u64) << 32u64 | (
    bytes[pos + 5] as u64) << 40u64 | (bytes[pos + 6] as u64) << 48u64 | (bytes[pos
        + 7] as u64) << 56u64;
    r
}

/// Reads the signed 16-bit little-endian integer at `pos`.
fn read_i16_le(bytes: &[u8], pos: usize) -> (r: i16)
    requires
        pos + 2 <= bytes@.len(),
    ensures
        r == spec_i16_of_le(bytes@.subrange(pos as int, pos as int + 2)),
{
    let u: u16 = bytes[pos] as u16 | (bytes[pos + 1] as u16) << 8u16;
    u as i16
}

/// The 27 wire bytes of one entry, inside a group keyed by its range block
/// size.
pub open spec fn spec_entry_bytes(t: Transformation) -> Seq<u8> {
    spec_le_u32(t.range.origin.x) + spec_le_u32(t.range.origin.y) + spec_le_u32(
        t.domain.origin.x,
    ) + spec_le_u32(t.domain.origin.y) + seq![t.rotation.spec_code()] + spec_le_i16(
        t.brightness,
    ) + spec_le_u64(t.saturation.bits)
}

/// The concatenated wire bytes of a group's entries.
pub open spec fn spec_entries_bytes(g: Seq<Transformation>) -> Seq<u8>
    decreases g.len(),
{
    if g.len() == 0 {
        Seq::empty()
    } else {
        spec_entry_bytes(g.first()) + spec_entries_bytes(g.drop_first())
    }
}

/// Entries occupy 27 bytes each.
pub proof fn lemma_entries_bytes_len(g: Seq<Transformation>)
    ensures
        spec_entries_bytes(g).len() == 27 * g.len(),
    decreases g.len(),
{
    if g.len() > 0 {
        lemma_entries_bytes_len(g.drop_first());
    }
}

/// Appending an entry to a group appends its bytes.
pub proof fn lemma_entries_bytes_snoc(g: Seq<Transformation>, t: Transformation)
    ensures
        spec_entries_bytes(g.push(t)) == spec_entries_bytes(g) + spec_entry_bytes(t),
    decreases g.len(),
{
    if g.len() == 0 {
        assert(g.push(t).drop_first() =~= Seq::<Transformation>::empty());
        assert(g.push(t).first() == t);
        assert(spec_entries_bytes(Seq::<Transformation>::empty()) =~= Seq::<u8>::empty());
        assert(spec_entries_bytes(g.push(t)) =~= spec_entry_bytes(t));
        assert(spec_entries_bytes(g) + spec_entry_bytes(t) =~= spec_entry_bytes(t));
    } else {
        assert(g.push(t).drop_first() =~= g.drop_first().push(t));
        assert(g.push(t).first() == g.first());
        lemma_entries_bytes_snoc(g.drop_first(), t);
        assert(spec_entries_bytes(g.push(t)) =~= spec_entries_bytes(g) + spec_entry_bytes(
            t,
        ));
    }
}

/// The wire bytes of one group: its key, its entry count, its entries.
pub open spec fn spec_group_bytes(size: u32, g: Seq<Transformation>) -> Seq<u8> {
    spec_le_u32(size) + spec_le_u32(g.len() as u32) + spec_entries_bytes(g)
}

/// The concatenated wire bytes of a sequence of groups.
pub open spec fn spec_groups_bytes(gs: Seq<(u32, Seq<Transformation>)>) -> Seq<u8>
    decreases gs.len(),
{
    if gs.len() == 0 {
        Seq::empty()
    } else {
        spec_group_bytes(gs.first().0, gs.first().1) + spec_groups_bytes(gs.drop_first())
    }
}

/// Appending a group appends its bytes.
pub proof fn lemma_groups_bytes_snoc(
    gs: Seq<(u32, Seq<Transformation>)>,
    p: (u32, Seq<Transformation>),
)
    ensures
        spec_groups_bytes(gs.push(p)) == spec_groups_bytes(gs) + spec_group_bytes(
            p.0,
            p.1,
        ),
    decreases gs.len(),
{
    if gs.len() == 0 {
        assert(gs.push(p).drop_first() =~= Seq::<(u32, Seq<Transformation>)>::empty());
        assert(gs.push(p).first() == p);
        assert(spec_groups_bytes(Seq::<(u32, Seq<Transformation>)>::empty()) =~= Seq::<
            u8,
        >::empty());
        assert(spec_groups_bytes(gs.push(p)) =~= spec_group_bytes(p.0, p.1));
        assert(spec_groups_bytes(gs) + spec_group_bytes(p.0, p.1) =~= spec_group_bytes(
            p.0,
            p.1,
        ));
    } else {
        assert(gs.push(p).drop_first() =~= gs.drop_first().push(p));
        assert(gs.push(p).first() == gs.first());
        lemma_groups_bytes_snoc(gs.drop_first(), p);
        assert(spec_groups_bytes(gs.push(p)) =~= spec_groups_bytes(gs)
            + spec_group_bytes(p.0, p.1));
    }
}

/// Inserts a transformation into the group keyed by its range block size:
/// into the first group with that key, or into a fresh group at the end.
pub open spec fn spec_insert_grouped(
    gs: Seq<(u32, Seq<Transformation>)>,
    t: Transformation,
) -> Seq<(u32, Seq<Transformation>)>
    decreases gs.len(),
{
    if gs.len() == 0 {
        seq![(t.range.block_size, seq![t])]
    } else if gs.first().0 == t.range.block_size {
        seq![(gs.first().0, gs.first().1.push(t))] + gs.drop_first()
    } else {
        seq![gs.first()] + spec_insert_grouped(gs.drop_first(), t)
    }
}

/// The transformations grouped by range block size, keys in first-seen
/// order, entries of one group in input order.
pub open spec fn spec_groups(ts: Seq<Transformation>) -> Seq<(u32, Seq<Transformation>)>
    decreases ts.len(),
{
    if ts.len() == 0 {
        Seq::empty()
    } else {
        spec_insert_grouped(spec_groups(ts.drop_last()), ts.last())
    }
}

/// The entries of a sequence of groups, in group order.
pub open spec fn spec_flatten_groups(gs: Seq<(u32, Seq<Transformation>)>) -> Seq<
    Transformation,
>
    decreases gs.len(),
{
    if gs.len() == 0 {
        Seq::empty()
    } else {
        gs.first().1 + spec_flatten_groups(gs.drop_first())
    }
}

/// Inserting a transformation adds exactly it to the entries of the groups.
pub proof fn lemma_flatten_insert_grouped(
    gs: Seq<(u32, Seq<Transformation>)>,
    t: Transformation,
)
    ensures
        spec_flatten_groups(spec_insert_grouped(gs, t)).to_multiset()
            == spec_flatten_groups(gs).to_multiset().insert(t),
    decreases gs.len(),
{
    broadcast use vstd::seq_lib::group_to_multiset_ensures;
    broadcast use vstd::seq_lib::lemma_multiset_commutative;

    if gs.len() == 0 {
        let ins = spec_insert_grouped(gs, t);
        assert(ins.drop_first() =~= Seq::<(u32, Seq<Transformation>)>::empty());
        assert(spec_flatten_groups(ins.drop_first()) =~= Seq::<Transformation>::empty());
        assert(spec_flatten_groups(ins) =~= seq![t]);
        assert(spec_flatten_groups(gs) =~= Seq::<Transformation>::empty());
        assert(seq![t] =~= Seq::<Transformation>::empty().push(t));
        assert(spec_flatten_groups(ins).to_multiset() =~= spec_flatten_groups(
            gs,
        ).to_multiset().insert(t));
    } else if gs.first().0 == t.range.block_size {
        let ins = spec_insert_grouped(gs, t);
        assert(ins.first() == (gs.first().0, gs.first().1.push(t)));
        assert(ins.drop_first() =~= gs.drop_first());
        assert(spec_flatten_groups(ins) == ins.first().1 + spec_flatten_groups(
            ins.drop_first(),
        ));
        assert(spec_flatten_groups(ins) =~= gs.first().1.push(t) + spec_flatten_groups(
            gs.drop_first(),
        ));
        assert(gs.first().1.push(t).to_multiset() =~= gs.first().1.to_multiset().insert(
            t,
        ));
        assert(spec_flatten_groups(ins).to_multiset() =~= spec_flatten_groups(
            gs,
        ).to_multiset().insert(t));
    } else {
        let ins = spec_insert_grouped(gs, t);
        lemma_flatten_insert_grouped(gs.drop_first(), t);
        assert(ins.first() == gs.first());
        assert(ins.drop_first() =~= spec_insert_grouped(gs.drop_first(), t));
        assert(spec_flatten_groups(ins) =~= gs.first().1 + spec_flatten_groups(
            spec_insert_grouped(gs.drop_first(), t),
        ));
        assert(spec_flatten_groups(ins).to_multiset() =~= spec_flatten_groups(
            gs,
        ).to_multiset().insert(t));
    }
}

/// Grouping keeps exactly the given transformations: the entries of the
/// groups are a permutation of the input.
pub proof fn lemma_groups_multiset(ts: Seq<Transformation>)
    ensures
        spec_flatten_groups(spec_groups(ts)).to_multiset() == ts.to_multiset(),
    decreases ts.len(),
{
    broadcast use vstd::seq_lib::group_to_multiset_ensures;

    if ts.len() == 0 {
        assert(spec_flatten_groups(spec_groups(ts)) =~= Seq::<Transformation>::empty());
        assert(Seq::<Transformation>::empty().to_multiset() =~= ts.to_multiset());
    } else {
        lemma_groups_multiset(ts.drop_last());
        lemma_flatten_insert_grouped(spec_groups(ts.drop_last()), ts.last());
        assert(ts.drop_last().push(ts.last()) =~= ts);
        assert(ts.drop_last().push(ts.last()).to_multiset() =~= ts.drop_last()
            .to_multiset().insert(ts.last()));
    }
}

/// Every entry of a group produced by the grouping carries the group's key
/// as its range block size.
pub open spec fn spec_groups_keyed(gs: Seq<(u32, Seq<Transformation>)>) -> bool {
    forall|j: int|
        0 <= j < gs.len() ==> forall|i: int|
            0 <= i < (#[trigger] gs[j]).1.len() ==> (#[trigger] gs[j].1[i]).range.block_size
                == gs[j].0
}

/// Insertion preserves keying.
pub proof fn lemma_insert_grouped_keyed(
    gs: Seq<(u32, Seq<Transformation>)>,
    t: Transformation,
)
    requires
        spec_groups_keyed(gs),
    ensures
        spec_groups_keyed(spec_insert_grouped(gs, t)),
    decreases gs.len(),
{
    let ins = spec_insert_grouped(gs, t);
    if gs.len() == 0 {
        assert(ins[0].1[0] == t);
    } else if gs.first().0 == t.range.block_size {
        assert forall|j: int, i: int|
            0 <= j < ins.len() && 0 <= i < (#[trigger] ins[j]).1.len() implies (
        #[trigger] ins[j].1[i]).range.block_size == ins[j].0 by {
            if j == 0 {
                if i < gs.first().1.len() {
                    assert(gs[0].1[i].range.block_size == gs[0].0);
                } else {
                    assert(ins[0].1[i] == t);
                }
            } else {
                assert(ins[j] == gs[j]);
                assert(gs[j].1[i].range.block_size == gs[j].0);
            }
        }
    } else {
        lemma_insert_grouped_keyed(gs.drop_first(), t);
        let inner = spec_insert_grouped(gs.drop_first(), t);
        assert forall|j: int, i: int|
            0 <= j < ins.len() && 0 <= i < (#[trigger] ins[j]).1.len() implies (
        #[trigger] ins[j].1[i]).range.block_size == ins[j].0 by {
            if j == 0 {
                assert(ins[0] == gs[0]);
                assert(gs[0].1[i].range.block_size == gs[0].0);
            } else {
                assert(ins[j] == inner[j - 1]);
                assert(inner[j - 1].1[i].range.block_size == inner[j - 1].0);
            }
        }
    }
}

/// The groups of any input are keyed.
pub proof fn lemma_groups_keyed(ts: Seq<Transformation>)
    ensures
        spec_groups_keyed(spec_groups(ts)),
    decreases ts.len(),
{
    if ts.len() > 0 {
        lemma_groups_keyed(ts.drop_last());
        lemma_insert_grouped_keyed(spec_groups(ts.drop_last()), ts.last());
    }
}

/// No group of a grouping outnumbers the input.
pub proof fn lemma_group_len_bound(gs: Seq<(u32, Seq<Transformation>)>, j: int)
    requires
        0 <= j < gs.len(),
    ensures
        gs[j].1.len() <= spec_flatten_groups(gs).len(),
    decreases gs.len(),
{
    if j == 0 {
        assert(spec_flatten_groups(gs).len() == gs.first().1.len()
            + spec_flatten_groups(gs.drop_first()).len());
    } else {
        lemma_group_len_bound(gs.drop_first(), j - 1);
        assert(gs.drop_first()[j - 1] == gs[j]);
    }
}

/// The view of an executable group table: each group's entries as a
/// sequence.
pub open spec fn spec_group_table_view(gv: Seq<(u32, Vec<Transformation>)>) -> Seq<
    (u32, Seq<Transformation>),
> {
    gv.map_values(|p: (u32, Vec<Transformation>)| (p.0, p.1@))
}

/// Groups the transformations by range block size, checking the quadtree
/// invariant on the way: the first transformation whose domain block is not
/// twice its range block stops the grouping.
fn group_by_range_size(ts: &Vec<Transformation>) -> (r: Result<
    Vec<(u32, Vec<Transformation>)>,
    SerializationError,
>)
    ensures
        match r {
            Ok(gv) => (forall|i: int|
                0 <= i < ts@.len() ==> (#[trigger] ts@[i]).spec_sizes_consistent())
                && spec_group_table_view(gv@) == spec_groups(ts@),
            Err(e) => exists|i: int|
                {
                    &&& 0 <= i < ts@.len()
                    &&& !(#[trigger] ts@[i]).spec_sizes_consistent()
                    &&& forall|j: int| 0 <= j < i ==> (#[trigger] ts@[j]).spec_sizes_consistent()
                    &&& e == (SerializationError::InvalidBlockSize {
                        range_size: ts@[i].range.block_size,
                        domain_size: ts@[i].domain.block_size,
                    })
                },
        },
{
    let mut gv: Vec<(u32, Vec<Transformation>)> = Vec::new();
    let mut i: usize = 0;
    while i < ts.len()
        invariant
            i <= ts@.len(),
            forall|j: int| 0 <= j < i ==> (#[trigger] ts@[j]).spec_sizes_consistent(),
            spec_group_table_view(gv@) == spec_groups(ts@.take(i as int)),
        decreases ts@.len() - i,
    {
        let t = ts[i];
        if t.range.block_size > 0x7fff_ffff || t.domain.block_size != 2
            * t.range.block_size {
            return Err(SerializationError::InvalidBlockSize {
                range_size: t.range.block_size,
                domain_size: t.domain.block_size,
            });
        }
        let key = t.range.block_size;
        let ghost gs_old = spec_group_table_view(gv@);
        let mut j: usize = 0;
        while j < gv.len() && gv[j].0 != key
            invariant
                j <= gv@.len(),
                forall|m: int| 0 <= m < j ==> (#[trigger] gv@[m]).0 != key,
            decreases gv@.len() - j,
        {
            j = j + 1;
        }
        let found = j < gv.len();
        if found {
            let pair = gv.remove(j);
            let key0 = pair.0;
            let mut group = pair.1;
            group.push(t);
            gv.insert(j, (key0, group));
            proof {
                lemma_insert_grouped_at(gs_old, t, j as int);
                assert(spec_group_table_view(gv@) =~= gs_old.update(
                    j as int,
                    (key, gs_old[j as int].1.push(t)),
                ));
            }
        } else {
            let mut group: Vec<Transformation> = Vec::new();
            group.push(t);
            gv.push((key, group));
            proof {
                lemma_insert_grouped_missing(gs_old, t);
                assert(spec_group_table_view(gv@) =~= gs_old.push((key, seq![t])));
            }
        }
        proof {
            assert(ts@.take(i as int + 1).drop_last() =~= ts@.take(i as int));
            assert(ts@.take(i as int + 1).last() == ts@[i as int]);
        }
        i = i + 1;
    }
    proof {
        assert(ts@.take(ts@.len() as int) =~= ts@);
    }
    Ok(gv)
}

/// When the first group with the key sits at `j`, insertion updates it.
proof fn lemma_insert_grouped_at(
    gs: Seq<(u32, Seq<Transformation>)>,
    t: Transformation,
    j: int,
)
    requires
        0 <= j < gs.len(),
        gs[j].0 == t.range.block_size,
        forall|m: int| 0 <= m < j ==> (#[trigger] gs[m]).0 != t.range.block_size,
    ensures
        spec_insert_grouped(gs, t) == gs.update(j, (gs[j].0, gs[j].1.push(t))),
    decreases gs.len(),
{
    if j == 0 {
        assert(spec_insert_grouped(gs, t) =~= gs.update(
            0,
            (gs[0].0, gs[0].1.push(t)),
        ));
    } else {
        lemma_insert_grouped_at(gs.drop_first(), t, j - 1);
        assert(spec_insert_grouped(gs, t) =~= gs.update(j, (gs[j].0, gs[j].1.push(t))));
    }
}

/// When no group has the key, insertion appends a fresh group.
proof fn lemma_insert_grouped_missing(gs: Seq<(u32, Seq<Transformation>)>, t: Transformation)
    requires
        forall|m: int| 0 <= m < gs.len() ==> (#[trigger] gs[m]).0 != t.range.block_size,
    ensures
        spec_insert_grouped(gs, t) == gs.push((t.range.block_size, seq![t])),
    decreases gs.len(),
{
    if gs.len() == 0 {
        assert(spec_insert_grouped(gs, t) =~= gs.push((t.range.block_size, seq![t])));
    } else {
        lemma_insert_grouped_missing(gs.drop_first(), t);
        assert(spec_insert_grouped(gs, t) =~= gs.push((t.range.block_size, seq![t])));
    }
}

/// The full wire image of a model: the header, then the grouped entries.
pub open spec fn spec_serialized_bytes(c: Compressed) -> Seq<u8> {
    spec_le_u32(c.size.width) + spec_le_u32(c.size.height) + spec_groups_bytes(
        spec_groups(c.transformations@),
    )
}

/// Writes a model to its wire bytes.  Succeeds exactly when every
/// transformation satisfies the quadtree invariant; the first violation is
/// reported with its two block sizes.
#[verifier::rlimit(50)]
pub fn serialize(compressed: &Compressed) -> (r: Result<Vec<u8>, SerializationError>)
    requires
        compressed.transformations@.len() <= u32::MAX,
    ensures
        match r {
            Ok(bytes) => (forall|i: int|
                0 <= i < compressed.transformations@.len() ==> (
                #[trigger] compressed.transformations@[i]).spec_sizes_consistent())
                && bytes@ == spec_serialized_bytes(*compressed),
            Err(e) => exists|i: int|
                {
                    &&& 0 <= i < compressed.transformations@.len()
                    &&& !(#[trigger] compressed.transformations@[i]).spec_sizes_consistent()
                    &&& forall|j: int|
                        0 <= j < i ==> (
                        #[trigger] compressed.transformations@[j]).spec_sizes_consistent()
                    &&& e == (SerializationError::InvalidBlockSize {
                        range_size: compressed.transformations@[i].range.block_size,
                        domain_size: compressed.transformations@[i].domain.block_size,
                    })
                },
        },
{
    let gv = match group_by_range_size(&compressed.transformations) {
        Ok(gv) => gv,
        Err(e) => {
            return Err(e);
        },
    };
    let ghost gs = spec_groups(compressed.transformations@);
    proof {
        lemma_groups_multiset(compressed.transformations@);
        vstd::seq_lib::to_multiset_len(spec_flatten_groups(gs));
        vstd::seq_lib::to_multiset_len(compressed.transformations@);
    }
    let mut out: Vec<u8> = Vec::new();
    push_u32_le(&mut out, compressed.size.get_width());
    push_u32_le(&mut out, compressed.size.get_height());
    proof {
        assert(gs.take(0) =~= Seq::<(u32, Seq<Transformation>)>::empty());
        assert(spec_groups_bytes(Seq::<(u32, Seq<Transformation>)>::empty()) =~= Seq::<
            u8,
        >::empty());
        assert(out@ =~= spec_le_u32(compressed.size.width) + spec_le_u32(
            compressed.size.height,
        ) + spec_groups_bytes(gs.take(0)));
    }
    let mut gi: usize = 0;
    while gi < gv.len()
        invariant
            spec_group_table_view(gv@) == gs,
            spec_flatten_groups(gs).len() == compressed.transformations@.len(),
            compressed.transformations@.len() <= u32::MAX,
            gi <= gv@.len(),
            out@ == spec_le_u32(compressed.size.width) + spec_le_u32(
                compressed.size.height,
            ) + spec_groups_bytes(gs.take(gi as int)),
        decreases gv@.len() - gi,
    {
        proof {
            lemma_group_len_bound(gs, gi as int);
        }
        let key = gv[gi].0;
        let glen = gv[gi].1.len();
        push_u32_le(&mut out, key);
        push_u32_le(&mut out, glen as u32);
        let mut ei: usize = 0;
        while ei < glen
            invariant
                spec_group_table_view(gv@) == gs,
                gi < gv@.len(),
                ei <= glen,
                glen == gv@[gi as int].1@.len(),
                glen <= u32::MAX,
                out@ == spec_le_u32(compressed.size.width) + spec_le_u32(
                    compressed.size.height,
                ) + spec_groups_bytes(gs.take(gi as int)) + spec_le_u32(
                    gs[gi as int].0,
                ) + spec_le_u32(gs[gi as int].1.len() as u32) + spec_entries_bytes(
                    gs[gi as int].1.take(ei as int),
                ),
            decreases glen - ei,
        {
            let t = gv[gi].1[ei];
            push_u32_le(&mut out, t.range.origin.x);
            push_u32_le(&mut out, t.range.origin.y);
            push_u32_le(&mut out, t.domain.origin.x);
            push_u32_le(&mut out, t.domain.origin.y);
            out.push(t.rotation.to_code());
            push_i16_le(&mut out, t.brightness);
            push_u64_le(&mut out, t.saturation.bits);
            proof {
                let g = gs[gi as int].1;
                lemma_entries_bytes_snoc(g.take(ei as int), g[ei as int]);
                assert(g.take(ei as int + 1) =~= g.take(ei as int).push(g[ei as int]));
                assert(out@ =~= spec_le_u32(compressed.size.width) + spec_le_u32(
                    compressed.size.height,
                ) + spec_groups_bytes(gs.take(gi as int)) + spec_le_u32(
                    gs[gi as int].0,
                ) + spec_le_u32(gs[gi as int].1.len() as u32) + spec_entries_bytes(
                    gs[gi as int].1.take(ei as int + 1),
                ));
            }
            ei = ei + 1;
        }
        proof {
            let g = gs[gi as int].1;
            assert(g.take(g.len() as int) =~= g);
            lemma_groups_bytes_snoc(gs.take(gi as int), gs[gi as int]);
            assert(gs.take(gi as int + 1) =~= gs.take(gi as int).push(gs[gi as int]));
            assert(out@ =~= spec_le_u32(compressed.size.width) + spec_le_u32(
                compressed.size.height,
            ) + spec_groups_bytes(gs.take(gi as int + 1)));
        }
        gi = gi + 1;
    }
    proof {
        assert(gs.take(gs.len() as int) =~= gs);
        assert(out@ =~= spec_serialized_bytes(*compressed));
    }
    Ok(out)
}


/// A subrange of a suffix is a subrange of the whole.
proof fn lemma_skip_subrange(b: Seq<u8>, pos: int, a: int, c: int)
    requires
        0 <= pos <= b.len(),
        0 <= a <= c,
        pos + c <= b.len(),
    ensures
        b.skip(pos).subrange(a, c) == b.subrange(pos + a, pos + c),
{
    assert(b.skip(pos).subrange(a, c) =~= b.subrange(pos + a, pos + c));
}

/// A suffix of a suffix is a suffix of the whole.
proof fn lemma_skip_skip(b: Seq<u8>, pos: int, n: int)
    requires
        0 <= pos,
        0 <= n,
        pos + n <= b.len(),
    ensures
        b.skip(pos).skip(n) == b.skip(pos + n),
{
    assert(b.skip(pos).skip(n) =~= b.skip(pos + n));
}

/// Reads one entry from the front of `b` inside a group keyed `rb_size`.
/// The domain block size is reconstructed as twice the key, with 32-bit
/// wrap-around; a rotation byte above 3 is rejected.
pub open spec fn spec_parse_entry(b: Seq<u8>, rb_size: u32) -> Result<
    Transformation,
    DeserializationError,
> {
    let code = b[16];
    if code > 3 {
        Err(DeserializationError::InvalidRotation(RotationInvalidError { code }))
    } else {
        Ok(
            Transformation {
                range: Block {
                    block_size: rb_size,
                    origin: Coords {
                        x: spec_u32_of_le(b.subrange(0, 4)),
                        y: spec_u32_of_le(b.subrange(4, 8)),
                    },
                },
                domain: Block {
                    block_size: (2 * rb_size) as u32,
                    origin: Coords {
                        x: spec_u32_of_le(b.subrange(8, 12)),
                        y: spec_u32_of_le(b.subrange(12, 16)),
                    },
                },
                rotation: Rotation::spec_of_code(code),
                brightness: spec_i16_of_le(b.subrange(17, 19)),
                saturation: Saturation { bits: spec_u64_of_le(b.subrange(19, 27)) },
            },
        )
    }
}

/// Reads `count` entries from the front of `b`.
pub open spec fn spec_parse_entries(b: Seq<u8>, rb_size: u32, count: int) -> Result<
    Seq<Transformation>,
    DeserializationError,
>
    decreases count,
{
    if count <= 0 {
        Ok(Seq::empty())
    } else if b.len() < 27 {
        Err(DeserializationError::UnexpectedEof)
    } else {
        match spec_parse_entry(b, rb_size) {
            Ok(t) => match spec_parse_entries(b.skip(27), rb_size, count - 1) {
                Ok(r) => Ok(seq![t] + r),
                Err(e) => Err(e),
            },
            Err(e) => Err(e),
        }
    }
}

/// Reads groups until fewer than four bytes remain; up to three trailing
/// bytes are ignored, as a whole group header can no longer start there.
pub open spec fn spec_parse_groups(b: Seq<u8>) -> Result<
    Seq<Transformation>,
    DeserializationError,
>
    decreases b.len(),
{
    if b.len() < 4 {
        Ok(Seq::empty())
    } else if b.len() < 8 {
        Err(DeserializationError::UnexpectedEof)
    } else {
        let rb_size = spec_u32_of_le(b.subrange(0, 4));
        let count = spec_u32_of_le(b.subrange(4, 8)) as int;
        match spec_parse_entries(b.skip(8), rb_size, count) {
            Ok(g) => {
                if 8 + 27 * count > b.len() {
                    Err(DeserializationError::UnexpectedEof)
                } else {
                    match spec_parse_groups(b.skip(8 + 27 * count)) {
                        Ok(rest) => Ok(g + rest),
                        Err(e) => Err(e),
                    }
                }
            },
            Err(e) => Err(e),
        }
    }
}

/// Entries that parsed consumed 27 bytes each, so the group guard in
/// [`spec_parse_groups`] never fires on a successful group.
proof fn lemma_parse_entries_consumes(b: Seq<u8>, rb_size: u32, count: int)
    requires
        spec_parse_entries(b, rb_size, count) is Ok,
    ensures
        count >= 0 ==> 27 * count <= b.len(),
    decreases count,
{
    if count > 0 {
        lemma_parse_entries_consumes(b.skip(27), rb_size, count - 1);
    }
}

/// Reads a whole model: the two header words, then the groups.
pub open spec fn spec_parse(b: Seq<u8>) -> Result<
    (Size, Seq<Transformation>),
    DeserializationError,
> {
    if b.len() < 8 {
        Err(DeserializationError::UnexpectedEof)
    } else {
        match spec_parse_groups(b.skip(8)) {
            Ok(ts) => Ok(
                (
                    Size {
                        width: spec_u32_of_le(b.subrange(0, 4)),
                        height: spec_u32_of_le(b.subrange(4, 8)),
                    },
                    ts,
                ),
            ),
            Err(e) => Err(e),
        }
    }
}

/// Reads a model back from its wire bytes, as [`spec_parse`] describes:
/// the result is exactly the parse of the input.
#[verifier::rlimit(80)]
pub fn deserialize(bytes: &[u8]) -> (r: Result<Compressed, DeserializationError>)
    ensures
        match r {
            Ok(c) => spec_parse(bytes@) == Ok::<_, DeserializationError>(
                (c.size, c.transformations@),
            ),
            Err(e) => spec_parse(bytes@) == Err::<(Size, Seq<Transformation>), _>(e),
        },
{
    if bytes.len() < 8 {
        return Err(DeserializationError::UnexpectedEof);
    }
    let width = read_u32_le(bytes, 0);
    let height = read_u32_le(bytes, 4);
    let mut transformations: Vec<Transformation> = Vec::new();
    let mut pos: usize = 8;
    while bytes.len() - pos >= 4
        invariant
            8 <= pos <= bytes@.len(),
            spec_parse_groups(bytes@.skip(8)) == match spec_parse_groups(
                bytes@.skip(pos as int),
            ) {
                Ok(rest) => Ok::<_, DeserializationError>(transformations@ + rest),
                Err(e) => Err(e),
            },
        decreases bytes@.len() - pos,
    {
        let ghost group_start = pos as int;
        let ghost gb = bytes@.skip(group_start);
        let rb_size = read_u32_le(bytes, pos);
        proof {
            lemma_skip_subrange(bytes@, group_start, 0, 4);
        }
        if bytes.len() - pos < 8 {
            proof {
                assert(spec_parse_groups(gb) == Err::<Seq<Transformation>,
                    _,
                >(DeserializationError::UnexpectedEof));
                assert(spec_parse_groups(bytes@.skip(8)) == Err::<Seq<Transformation>,
                    _,
                >(DeserializationError::UnexpectedEof));
            }
            return Err(DeserializationError::UnexpectedEof);
        }
        let count = read_u32_le(bytes, pos + 4);
        proof {
            lemma_skip_subrange(bytes@, group_start, 4, 8);
        }
        pos = pos + 8;
        let mut group_entries: Vec<Transformation> = Vec::new();
        let mut e: u32 = 0;
        while e < count
            invariant
                8 <= group_start,
                group_start + 8 <= pos <= bytes@.len(),
                pos == group_start + 8 + 27 * e,
                e <= count,
                gb == bytes@.skip(group_start),
                rb_size == spec_u32_of_le(gb.subrange(0, 4)),
                count == spec_u32_of_le(gb.subrange(4, 8)),
                group_entries@.len() == e,
                spec_parse_groups(bytes@.skip(8)) == match spec_parse_groups(
                    bytes@.skip(group_start),
                ) {
                    Ok(rest) => Ok::<_, DeserializationError>(transformations@ + rest),
                    Err(err2) => Err(err2),
                },
                spec_parse_entries(bytes@.skip(group_start + 8), rb_size, count as int)
                    == match spec_parse_entries(
                    bytes@.skip(pos as int),
                    rb_size,
                    count - e,
                ) {
                    Ok(rest) => Ok::<_, DeserializationError>(group_entries@ + rest),
                    Err(err) => Err(err),
                },
            decreases count - e,
        {
            let ghost eb = bytes@.skip(pos as int);
            if bytes.len() - pos < 27 {
                proof {
                    assert(spec_parse_entries(eb, rb_size, (count - e) as int) == Err::<
                        Seq<Transformation>,
                        _,
                    >(DeserializationError::UnexpectedEof));
                    assert(spec_parse_entries(
                        bytes@.skip(group_start + 8),
                        rb_size,
                        count as int,
                    ) == Err::<Seq<Transformation>,
                        _,
                    >(DeserializationError::UnexpectedEof));
                    assert(gb.skip(8) =~= bytes@.skip(group_start + 8));
                    assert(gb.len() >= 8);
                    assert(spec_parse_entries(gb.skip(8), rb_size, count as int) == Err::<
                        Seq<Transformation>,
                        _,
                    >(DeserializationError::UnexpectedEof));
                    assert(spec_parse_groups(gb) == Err::<Seq<Transformation>,
                        _,
                    >(DeserializationError::UnexpectedEof)) by {
                        reveal_with_fuel(spec_parse_groups, 2);
                    }
                    assert(spec_parse_groups(bytes@.skip(8)) == Err::<
                        Seq<Transformation>,
                        _,
                    >(DeserializationError::UnexpectedEof));
                }
                return Err(DeserializationError::UnexpectedEof);
            }
            proof {
                lemma_skip_subrange(bytes@, pos as int, 0, 4);
                lemma_skip_subrange(bytes@, pos as int, 4, 8);
                lemma_skip_subrange(bytes@, pos as int, 8, 12);
                lemma_skip_subrange(bytes@, pos as int, 12, 16);
                lemma_skip_subrange(bytes@, pos as int, 17, 19);
                lemma_skip_subrange(bytes@, pos as int, 19, 27);
                assert(eb[16] == bytes@[pos as int + 16]);
            }
            let rx = read_u32_le(bytes, pos);
            let ry = read_u32_le(bytes, pos + 1 * 4);
            let dx = read_u32_le(bytes, pos + 2 * 4);
            let dy = read_u32_le(bytes, pos + 3 * 4);
            let code = bytes[pos + 16];
            let rotation = match crate::model::Rotation::from_code(code) {
                Ok(rot) => rot,
                Err(err) => {
                    proof {
                        assert(spec_parse_entry(eb, rb_size) == Err::<Transformation,
                            _,
                        >(DeserializationError::InvalidRotation(err)));
                        assert(spec_parse_entries(eb, rb_size, (count - e) as int)
                            == Err::<Seq<Transformation>,
                            _,
                        >(DeserializationError::InvalidRotation(err)));
                        assert(spec_parse_entries(
                            bytes@.skip(group_start + 8),
                            rb_size,
                            count as int,
                        ) == Err::<Seq<Transformation>,
                            _,
                        >(DeserializationError::InvalidRotation(err)));
                        assert(gb.skip(8) =~= bytes@.skip(group_start + 8));
                        assert(gb.len() >= 8);
                        assert(spec_parse_entries(gb.skip(8), rb_size, count as int)
                            == Err::<Seq<Transformation>,
                            _,
                        >(DeserializationError::InvalidRotation(err)));
                        assert(spec_parse_groups(gb) == Err::<Seq<Transformation>,
                            _,
                        >(DeserializationError::InvalidRotation(err))) by {
                            reveal_with_fuel(spec_parse_groups, 2);
                        }
                        assert(spec_parse_groups(bytes@.skip(8)) == Err::<
                            Seq<Transformation>,
                            _,
                        >(DeserializationError::InvalidRotation(err)));
                    }
                    return Err(DeserializationError::InvalidRotation(err));
                },
            };
            let brightness = read_i16_le(bytes, pos + 17);
            let sat_bits = read_u64_le(bytes, pos + 19);
            let domain_size = #[verifier::truncate] ((2u64 * (rb_size as u64)) as u32);
            let t = Transformation {
                range: Block { block_size: rb_size, origin: Coords { x: rx, y: ry } },
                domain: Block { block_size: domain_size, origin: Coords { x: dx, y: dy } },
                rotation,
                brightness,
                saturation: Saturation { bits: sat_bits },
            };
            proof {
                assert(domain_size == (2 * rb_size) as u32) by (bit_vector)
                    requires
                        domain_size == (2u64 * (rb_size as u64)) as u32,
                ;
                assert(spec_parse_entry(eb, rb_size) == Ok::<_, DeserializationError>(t));
            }
            let ghost old_pos = pos as int;
            let ghost old_ge = group_entries@;
            group_entries.push(t);
            pos = pos + 27;
            e = e + 1;
            proof {
                lemma_skip_skip(bytes@, old_pos, 27);
                assert(eb.skip(27) == bytes@.skip(pos as int));
                assert(spec_parse_entries(bytes@.skip(old_pos), rb_size, count - e + 1)
                    == match spec_parse_entries(
                    bytes@.skip(pos as int),
                    rb_size,
                    count - e,
                ) {
                    Ok(r) => Ok::<_, DeserializationError>(seq![t] + r),
                    Err(err2) => Err(err2),
                });
                assert(group_entries@ == old_ge.push(t));
                let ghost tail = spec_parse_entries(
                    bytes@.skip(pos as int),
                    rb_size,
                    count - e,
                );
                if tail is Ok {
                    let ghost r = tail->Ok_0;
                    assert(old_ge + (seq![t] + r) =~= group_entries@ + r);
                }
            }
        }
        proof {
            assert(spec_parse_entries(bytes@.skip(pos as int), rb_size, 0) == Ok::<
                Seq<Transformation>,
                DeserializationError,
            >(Seq::empty()));
            assert(group_entries@ + Seq::<Transformation>::empty() =~= group_entries@);
            assert(spec_parse_entries(bytes@.skip(group_start + 8), rb_size, count as int)
                == Ok::<_, DeserializationError>(group_entries@));
            lemma_skip_skip(bytes@, group_start, 8 + 27 * count as int);
            assert(bytes@.skip(group_start).skip(8 + 27 * count as int) == bytes@.skip(
                pos as int,
            ));
            assert(gb.skip(8) =~= bytes@.skip(group_start + 8));
            assert(gb.len() >= 8 + 27 * count as int);
            assert(spec_parse_groups(gb) == match spec_parse_groups(
                bytes@.skip(pos as int),
            ) {
                Ok(rest) => Ok::<_, DeserializationError>(group_entries@ + rest),
                Err(err) => Err(err),
            });
        }
        let ghost old_transformations = transformations@;
        let ghost appended = group_entries@;
        transformations.append(&mut group_entries);
        proof {
            assert(transformations@ == old_transformations + appended);
            assert forall|rest: Seq<Transformation>| true implies old_transformations + (
            appended + rest) =~= transformations@ + rest by {}
        }
    }
    proof {
        assert(spec_parse_groups(bytes@.skip(pos as int)) == Ok::<
            Seq<Transformation>,
            DeserializationError,
        >(Seq::empty()));
        assert(transformations@ + Seq::<Transformation>::empty() =~= transformations@);
        lemma_skip_subrange(bytes@, 0, 0, 4);
        lemma_skip_subrange(bytes@, 0, 4, 8);
    }
    Ok(Compressed { size: Size::new(width, height), transformations })
}


/// Reading back the 27 bytes of one entry returns the entry, whatever
/// follows it.
proof fn lemma_parse_entry_round_trip(t: Transformation, rest: Seq<u8>)
    requires
        t.spec_sizes_consistent(),
    ensures
        spec_parse_entry(spec_entry_bytes(t) + rest, t.range.block_size) == Ok::<
            _,
            DeserializationError,
        >(t),
{
    let b = spec_entry_bytes(t) + rest;
    assert(b.subrange(0, 4) =~= spec_le_u32(t.range.origin.x));
    assert(b.subrange(4, 8) =~= spec_le_u32(t.range.origin.y));
    assert(b.subrange(8, 12) =~= spec_le_u32(t.domain.origin.x));
    assert(b.subrange(12, 16) =~= spec_le_u32(t.domain.origin.y));
    assert(b[16] == t.rotation.spec_code());
    assert(b.subrange(17, 19) =~= spec_le_i16(t.brightness));
    assert(b.subrange(19, 27) =~= spec_le_u64(t.saturation.bits));
    lemma_u32_le_round_trip(t.range.origin.x);
    lemma_u32_le_round_trip(t.range.origin.y);
    lemma_u32_le_round_trip(t.domain.origin.x);
    lemma_u32_le_round_trip(t.domain.origin.y);
    lemma_i16_le_round_trip(t.brightness);
    lemma_u64_le_round_trip(t.saturation.bits);
    assert(t.rotation.spec_code() <= 3);
    assert(Rotation::spec_of_code(t.rotation.spec_code()) == t.rotation);
    assert(2 * t.range.block_size <= u32::MAX);
    assert((2 * t.range.block_size) as u32 == t.domain.block_size);
}

/// Reading back a group's entries returns them, whatever follows.
#[verifier::rlimit(60)]
proof fn lemma_parse_entries_round_trip(g: Seq<Transformation>, rb_size: u32, rest: Seq<u8>)
    requires
        forall|i: int|
            0 <= i < g.len() ==> (#[trigger] g[i]).spec_sizes_consistent() && g[i]
                .range.block_size == rb_size,
    ensures
        spec_parse_entries(spec_entries_bytes(g) + rest, rb_size, g.len() as int) == Ok::<
            _,
            DeserializationError,
        >(g),
    decreases g.len(),
{
    let b = spec_entries_bytes(g) + rest;
    if g.len() == 0 {
        assert(spec_entries_bytes(g) =~= Seq::<u8>::empty());
        assert(spec_parse_entries(b, rb_size, 0) == Ok::<_, DeserializationError>(Seq::<
            Transformation,
        >::empty()));
        assert(g =~= Seq::<Transformation>::empty());
    } else {
        let t = g.first();
        let tail = g.drop_first();
        lemma_entries_bytes_len(g);
        lemma_entries_bytes_len(tail);
        assert(b =~= spec_entry_bytes(t) + (spec_entries_bytes(tail) + rest));
        lemma_parse_entry_round_trip(t, spec_entries_bytes(tail) + rest);
        assert(spec_parse_entry(b, rb_size) == Ok::<_, DeserializationError>(t)) by {
            assert(t.range.block_size == rb_size);
            assert(b == spec_entry_bytes(t) + (spec_entries_bytes(tail) + rest));
        }
        assert(b.skip(27) =~= spec_entries_bytes(tail) + rest);
        assert forall|i: int| 0 <= i < tail.len() implies (
        #[trigger] tail[i]).spec_sizes_consistent() && tail[i].range.block_size
            == rb_size by {
            assert(tail[i] == g[i + 1]);
        }
        lemma_parse_entries_round_trip(tail, rb_size, rest);
        assert(seq![t] + tail =~= g);
    }
}

/// Reading back a sequence of groups returns their entries in order,
/// provided every group is keyed consistently and fits its count word.
proof fn lemma_parse_groups_round_trip(gs: Seq<(u32, Seq<Transformation>)>)
    requires
        forall|j: int|
            0 <= j < gs.len() ==> (#[trigger] gs[j]).1.len() <= u32::MAX && forall|i: int|
                0 <= i < gs[j].1.len() ==> (#[trigger] gs[j].1[i]).spec_sizes_consistent()
                    && gs[j].1[i].range.block_size == gs[j].0,
    ensures
        spec_parse_groups(spec_groups_bytes(gs)) == Ok::<_, DeserializationError>(
            spec_flatten_groups(gs),
        ),
    decreases gs.len(),
{
    let b = spec_groups_bytes(gs);
    if gs.len() == 0 {
        assert(b =~= Seq::<u8>::empty());
        assert(spec_flatten_groups(gs) =~= Seq::<Transformation>::empty());
    } else {
        let key = gs.first().0;
        let g = gs.first().1;
        let rest_groups = gs.drop_first();
        let rest_bytes = spec_groups_bytes(rest_groups);
        lemma_entries_bytes_len(g);
        assert(b == spec_group_bytes(key, g) + rest_bytes);
        assert(b.len() >= 8);
        assert(b.subrange(0, 4) =~= spec_le_u32(key));
        assert(b.subrange(4, 8) =~= spec_le_u32(g.len() as u32));
        lemma_u32_le_round_trip(key);
        lemma_u32_le_round_trip(g.len() as u32);
        assert((g.len() as u32) as int == g.len() as int);
        assert(b.skip(8) =~= spec_entries_bytes(g) + rest_bytes);
        assert forall|i: int| 0 <= i < g.len() implies (
        #[trigger] g[i]).spec_sizes_consistent() && g[i].range.block_size == key by {
            assert(gs[0].1[i] == g[i]);
        }
        lemma_parse_entries_round_trip(g, key, rest_bytes);
        assert(8 + 27 * (g.len() as int) <= b.len());
        assert(b.skip(8 + 27 * (g.len() as int)) =~= rest_bytes);
        assert forall|j: int| 0 <= j < rest_groups.len() implies (
        #[trigger] rest_groups[j]).1.len() <= u32::MAX && (forall|i: int|
            0 <= i < rest_groups[j].1.len() ==> (
            #[trigger] rest_groups[j].1[i]).spec_sizes_consistent() && rest_groups[j].1[i]
                .range.block_size == rest_groups[j].0) by {
            assert(rest_groups[j] == gs[j + 1]);
        }
        lemma_parse_groups_round_trip(rest_groups);
        assert(spec_flatten_groups(gs) == g + spec_flatten_groups(rest_groups));
    }
}

/// The binary round trip: reading back the written bytes of a model whose
/// transformations all satisfy the quadtree invariant succeeds, returns the
/// model's size exactly, and returns its transformations as a set: the
/// multiset of transformations is unchanged, while their order follows the
/// grouping by range block size.
pub proof fn lemma_serialize_parse_round_trip(c: Compressed)
    requires
        c.transformations@.len() <= u32::MAX,
        forall|i: int|
            0 <= i < c.transformations@.len() ==> (
            #[trigger] c.transformations@[i]).spec_sizes_consistent(),
    ensures
        spec_parse(spec_serialized_bytes(c)) == Ok::<_, DeserializationError>(
            (c.size, spec_flatten_groups(spec_groups(c.transformations@))),
        ),
        spec_flatten_groups(spec_groups(c.transformations@)).to_multiset()
            == c.transformations@.to_multiset(),
{
    let ts = c.transformations@;
    let gs = spec_groups(ts);
    let b = spec_serialized_bytes(c);
    lemma_groups_multiset(ts);
    lemma_groups_keyed(ts);
    vstd::seq_lib::to_multiset_len(spec_flatten_groups(gs));
    vstd::seq_lib::to_multiset_len(ts);
    lemma_groups_members_consistent(ts);
    assert forall|j: int| 0 <= j < gs.len() implies (#[trigger] gs[j]).1.len()
        <= u32::MAX && (forall|i: int|
        0 <= i < gs[j].1.len() ==> (#[trigger] gs[j].1[i]).spec_sizes_consistent()
            && gs[j].1[i].range.block_size == gs[j].0) by {
        lemma_group_len_bound(gs, j);
    }
    lemma_parse_groups_round_trip(gs);
    assert(b.len() >= 8);
    assert(b.subrange(0, 4) =~= spec_le_u32(c.size.width));
    assert(b.subrange(4, 8) =~= spec_le_u32(c.size.height));
    lemma_u32_le_round_trip(c.size.width);
    lemma_u32_le_round_trip(c.size.height);
    assert(b.skip(8) =~= spec_groups_bytes(gs));
    assert(Size { width: c.size.width, height: c.size.height } == c.size);
}

/// Every entry of every group of a grouping of consistent transformations
/// is consistent.
proof fn lemma_groups_members_consistent(ts: Seq<Transformation>)
    requires
        forall|i: int|
            0 <= i < ts.len() ==> (#[trigger] ts[i]).spec_sizes_consistent(),
    ensures
        forall|j: int, i: int|
            0 <= j < spec_groups(ts).len() && 0 <= i < (
            #[trigger] spec_groups(ts)[j]).1.len() ==> (
            #[trigger] spec_groups(ts)[j].1[i]).spec_sizes_consistent(),
{
    let gs = spec_groups(ts);
    lemma_groups_multiset(ts);
    assert forall|j: int, i: int|
        0 <= j < gs.len() && 0 <= i < (#[trigger] gs[j]).1.len() implies (
    #[trigger] gs[j].1[i]).spec_sizes_consistent() by {
        lemma_flatten_contains(gs, j, i);
        let t = gs[j].1[i];
        assert(spec_flatten_groups(gs).contains(t));
        vstd::seq_lib::to_multiset_contains(spec_flatten_groups(gs), t);
        vstd::seq_lib::to_multiset_contains(ts, t);
        assert(ts.contains(t));
        let k = choose|k: int| 0 <= k < ts.len() && ts[k] == t;
        assert(ts[k].spec_sizes_consistent());
    }
}

/// An entry of a group occurs in the flattened groups.
proof fn lemma_flatten_contains(gs: Seq<(u32, Seq<Transformation>)>, j: int, i: int)
    requires
        0 <= j < gs.len(),
        0 <= i < gs[j].1.len(),
    ensures
        spec_flatten_groups(gs).contains(gs[j].1[i]),
    decreases gs.len(),
{
    if j == 0 {
        assert(spec_flatten_groups(gs)[i] == gs[0].1[i]);
    } else {
        lemma_flatten_contains(gs.drop_first(), j - 1, i);
        assert(gs.drop_first()[j - 1] == gs[j]);
        let t = gs[j].1[i];
        let k = choose|k: int|
            0 <= k < spec_flatten_groups(gs.drop_first()).len() && spec_flatten_groups(
                gs.drop_first(),
            )[k] == t;
        assert(spec_flatten_groups(gs)[gs.first().1.len() + k] == t);
    }
}

} // verus!
