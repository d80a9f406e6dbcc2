//! The length-prefixed binary layout of on-chain records: little-endian
//! numbers, byte vectors and tables (a header of offsets followed by fields).

use vstd::prelude::*;

verus! {

/// The low `width` bytes of `v`, least significant first.
pub open spec fn le_bytes(v: nat, width: nat) -> Seq<u8>
    decreases width,
{
    if width == 0 {
        seq![]
    } else {
        seq![(v % 256) as u8] + le_bytes(v / 256, (width - 1) as nat)
    }
}

/// A 32-bit length or offset as it is written in a record.
pub open spec fn u32_le(n: nat) -> Seq<u8> {
    le_bytes(n, 4)
}

/// The concatenation of all parts, in order.
pub open spec fn flatten(parts: Seq<Seq<u8>>) -> Seq<u8>
    decreases parts.len(),
{
    if parts.len() == 0 {
        seq![]
    } else {
        flatten(parts.drop_last()) + parts.last()
    }
}

/// Size of a table header with `n` fields.
pub open spec fn header_len(n: nat) -> nat {
    4 * (n + 1)
}

/// The offsets of the first `k` fields of a table of `parts`.
pub open spec fn offsets(parts: Seq<Seq<u8>>, k: nat) -> Seq<u8>
    decreases k,
{
    if k == 0 {
        seq![]
    } else {
        offsets(parts, (k - 1) as nat) + u32_le(
            header_len(parts.len()) + flatten(parts.take(k - 1)).len(),
        )
    }
}

/// Encoded size of a table (or dynamic vector) of `parts`.
pub open spec fn table_len(parts: Seq<Seq<u8>>) -> nat {
    header_len(parts.len()) + flatten(parts).len()
}

/// A table, or a vector of variable-size items: total size, one offset per
/// part, then the parts.
pub open spec fn table(parts: Seq<Seq<u8>>) -> Seq<u8> {
    u32_le(table_len(parts)) + offsets(parts, parts.len()) + flatten(parts)
}

/// A byte vector: its length, then its bytes.
pub open spec fn fixvec(b: Seq<u8>) -> Seq<u8> {
    u32_le(b.len()) + b
}

/// An optional byte vector: empty when absent.
pub open spec fn opt_fixvec(b: Option<Seq<u8>>) -> Seq<u8> {
    match b {
        Some(v) => fixvec(v),
        None => seq![],
    }
}

/// The byte views of a list of byte vectors.
pub open spec fn views(parts: Seq<Vec<u8>>) -> Seq<Seq<u8>> {
    parts.map_values(|p: Vec<u8>| p@)
}

pub proof fn lemma_flatten_step(parts: Seq<Seq<u8>>, i: int)
    requires
        0 <= i < parts.len(),
    ensures
        flatten(parts.take(i + 1)) == flatten(parts.take(i)) + parts[i],
        flatten(parts.take(i + 1)).len() == flatten(parts.take(i)).len() + parts[i].len(),
{
    assert(parts.take(i + 1).drop_last() =~= parts.take(i));
}

pub proof fn lemma_flatten_take_le(parts: Seq<Seq<u8>>, i: int)
    requires
        0 <= i <= parts.len(),
    ensures
        flatten(parts.take(i)).len() <= flatten(parts).len(),
    decreases parts.len() - i,
{
    if i == parts.len() {
        assert(parts.take(i) =~= parts);
    } else {
        lemma_flatten_step(parts, i);
        lemma_flatten_take_le(parts, i + 1);
    }
}

pub proof fn lemma_le_bytes_len(v: nat, width: nat)
    ensures
        le_bytes(v, width).len() == width,
    decreases width,
{
    if width > 0 {
        lemma_le_bytes_len(v / 256, (width - 1) as nat);
    }
}

pub proof fn lemma_offsets_len(parts: Seq<Seq<u8>>, k: nat)
    ensures
        offsets(parts, k).len() == 4 * k,
    decreases k,
{
    if k > 0 {
        lemma_offsets_len(parts, (k - 1) as nat);
        lemma_le_bytes_len(header_len(parts.len()) + flatten(parts.take(k - 1)).len(), 4);
    }
}

/// The encoded size of a table is what its header records.
pub proof fn lemma_table_len(parts: Seq<Seq<u8>>)
    ensures
        table(parts).len() == table_len(parts),
{
    lemma_offsets_len(parts, parts.len());
    lemma_le_bytes_len(table_len(parts), 4);
}

/// Each part of a table is no longer than the table.
pub proof fn lemma_part_le_table(parts: Seq<Seq<u8>>, i: int)
    requires
        0 <= i < parts.len(),
    ensures
        parts[i].len() <= table_len(parts),
{
    lemma_flatten_step(parts, i);
    lemma_flatten_take_le(parts, i + 1);
}

/// Appends the low `width` bytes of `v`, least significant first.
pub fn push_le(out: &mut Vec<u8>, v: u128, width: usize)
    requires
        width <= 16,
    ensures
        final(out)@ == old(out)@ + le_bytes(v as nat, width as nat),
{
    let mut x: u128 = v;
    let mut i: usize = 0;
    while i < width
        invariant
            i <= width,
            out@ + le_bytes(x as nat, (width - i) as nat) == old(out)@ + le_bytes(
                v as nat,
                width as nat,
            ),
        decreases width - i,
    {
        let ghost before = out@;
        out.push((x % 256) as u8);
        proof {
            assert(le_bytes(x as nat, (width - i) as nat) == seq![(x % 256) as u8] + le_bytes(
                (x / 256) as nat,
                (width - i - 1) as nat,
            ));
            assert(out@ + le_bytes((x / 256) as nat, (width - i - 1) as nat) =~= before + le_bytes(
                x as nat,
                (width - i) as nat,
            ));
        }
        x = x / 256;
        i = i + 1;
    }
    assert(le_bytes(x as nat, 0) =~= seq![]);
    assert(out@ + le_bytes(x as nat, 0) =~= out@);
}

/// Appends all bytes of `b`.
pub fn push_all(out: &mut Vec<u8>, b: &[u8])
    ensures
        final(out)@ == old(out)@ + b@,
{
    let mut i: usize = 0;
    while i < b.len()
        invariant
            i <= b@.len(),
            out@ == old(out)@ + b@.take(i as int),
        decreases b@.len() - i,
    {
        out.push(b[i]);
        assert(b@.take(i + 1) =~= b@.take(i as int).push(b@[i as int]));
        i = i + 1;
    }
    assert(b@.take(b@.len() as int) =~= b@);
}

/// Encodes a byte vector.
pub fn encode_fixvec(b: &[u8]) -> (r: Vec<u8>)
    requires
        b@.len() <= u32::MAX,
    ensures
        r@ == fixvec(b@),
{
    let mut out: Vec<u8> = Vec::new();
    push_le(&mut out, b.len() as u128, 4);
    push_all(&mut out, b);
    out
}

/// Encodes a table (or a vector of variable-size items) from its encoded
/// parts; `None` when its size does not fit in 32 bits.
pub fn encode_table(parts: &Vec<Vec<u8>>) -> (r: Option<Vec<u8>>)
    ensures
        r is Some <==> table_len(views(parts@)) <= u32::MAX,
        r matches Some(v) ==> v@ == table(views(parts@)),
{
    let ghost ps = views(parts@);
    let n = parts.len();
    if n >= 0x3fff_ffff {
        return None;
    }
    let mut total: usize = 4 * (n + 1);
    let mut i: usize = 0;
    while i < n
        invariant
            n == parts@.len() == ps.len(),
            n < 0x3fff_ffff,
            ps == views(parts@),
            i <= n,
            total == header_len(n as nat) + flatten(ps.take(i as int)).len(),
            total <= u32::MAX,
        decreases n - i,
    {
        proof {
            lemma_flatten_step(ps, i as int);
            lemma_flatten_take_le(ps, i + 1);
        }
        if parts[i].len() > 0xffff_ffff - total {
            proof {
                lemma_flatten_take_le(ps, i + 1);
            }
            return None;
        }
        total = total + parts[i].len();
        i = i + 1;
    }
    assert(ps.take(n as int) =~= ps);
    let mut out: Vec<u8> = Vec::new();
    push_le(&mut out, total as u128, 4);
    let mut off: usize = 4 * (n + 1);
    i = 0;
    while i < n
        invariant
            n == parts@.len() == ps.len(),
            ps == views(parts@),
            table_len(ps) <= u32::MAX,
            i <= n,
            off == header_len(n as nat) + flatten(ps.take(i as int)).len(),
            out@ == u32_le(table_len(ps)) + offsets(ps, i as nat),
        decreases n - i,
    {
        proof {
            lemma_flatten_step(ps, i as int);
            lemma_flatten_take_le(ps, i + 1);
        }
        push_le(&mut out, off as u128, 4);
        proof {
            assert(offsets(ps, (i + 1) as nat) == offsets(ps, i as nat) + u32_le(off as nat));
        }
        off = off + parts[i].len();
        i = i + 1;
    }
    i = 0;
    while i < n
        invariant
            n == parts@.len() == ps.len(),
            ps == views(parts@),
            i <= n,
            out@ == u32_le(table_len(ps)) + offsets(ps, n as nat) + flatten(ps.take(i as int)),
        decreases n - i,
    {
        proof {
            lemma_flatten_step(ps, i as int);
        }
        push_all(&mut out, parts[i].as_slice());
        i = i + 1;
    }
    Some(out)
}

} // verus!
