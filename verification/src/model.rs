//! The mathematical model of the block device over its backing store. The
//! store is a map from 8-byte keys to byte strings; a key that is absent
//! reads as a block of zeroes (sparse semantics), while a present value of
//! the wrong length is corruption. Read, write and trim are defined here as
//! functions of the store, and the executable planners in `adapter` are
//! proved against these definitions.

use crate::device::DeviceConfig;
use crate::errors::ProtocolError;
use crate::keys::spec_data_key;
use vstd::arithmetic::div_mod::lemma_div_is_ordered;
use vstd::arithmetic::div_mod::lemma_div_is_ordered_by_denominator;
use vstd::arithmetic::div_mod::lemma_fundamental_div_mod;
use vstd::arithmetic::div_mod::lemma_fundamental_div_mod_converse;
use vstd::arithmetic::div_mod::lemma_mod_bound;
use vstd::prelude::*;

verus! {

/// `n` zero bytes: what a never-written block range reads as.
pub open spec fn zeros(n: int) -> Seq<u8> {
    Seq::new(n as nat, |i: int| 0u8)
}

/// The storage keys a read, trim or write-zeroes of `length` bytes at
/// `offset` covers: one key per block, starting at the block containing
/// `offset`, rounded up to whole blocks.
pub open spec fn range_keys(cfg: DeviceConfig, offset: u64, length: int) -> Seq<Seq<u8>> {
    Seq::new(
        cfg.spec_blocks_needed(length) as nat,
        |j: int| spec_data_key(cfg.spec_start_block(offset) + j),
    )
}

/// What a point lookup of each key returns against store `m`: the stored
/// value where the key is present, absence otherwise.
pub open spec fn fetch_of(m: Map<Seq<u8>, Seq<u8>>, keys: Seq<Seq<u8>>) -> Seq<
    Option<Seq<u8>>,
> {
    Seq::new(
        keys.len(),
        |j: int|
            if m.contains_key(keys[j]) {
                Some(m[keys[j]])
            } else {
                None
            },
    )
}

/// Every present block has exactly the block size: the corruption
/// boundary. Absent blocks are fine (they read as zeroes); wrong-length
/// present blocks are not.
pub open spec fn blocks_ok(bs: int, fetched: Seq<Option<Seq<u8>>>) -> bool {
    forall|j: int|
        0 <= j < fetched.len() ==> (#[trigger] fetched[j] matches Some(d) ==> d.len() == bs)
}

/// The bytes a sequence of fetched blocks concatenates to: stored bytes
/// for present blocks, zeroes for absent ones.
pub open spec fn assembled(bs: int, fetched: Seq<Option<Seq<u8>>>) -> Seq<u8>
    recommends
        1 <= bs,
{
    Seq::new(
        (fetched.len() * bs) as nat,
        |i: int|
            match fetched[i / bs] {
                Some(d) => d[i % bs],
                None => 0u8,
            },
    )
}

/// A read of `length` bytes at `offset` against store `m`: rejected for an
/// invalid offset; corruption is an error, never masked; otherwise exactly
/// the first `length` bytes of the covered blocks.
pub open spec fn read_model(
    cfg: DeviceConfig,
    m: Map<Seq<u8>, Seq<u8>>,
    offset: u64,
    length: u64,
) -> Result<Seq<u8>, ProtocolError> {
    if !cfg.addr_valid(offset) {
        Err(ProtocolError::CommandNotSupported)
    } else {
        let fetched = fetch_of(m, range_keys(cfg, offset, length as int));
        if !blocks_ok(cfg.block_size as int, fetched) {
            Err(ProtocolError::InvalidArgument)
        } else {
            Ok(assembled(cfg.block_size as int, fetched).take(length as int))
        }
    }
}

/// The batch a write of `data` at `offset` issues: one put per
/// block-size-sized chunk of `data`, at consecutive keys starting at the
/// block containing `offset`.
pub open spec fn write_puts(cfg: DeviceConfig, offset: u64, data: Seq<u8>) -> Seq<
    (Seq<u8>, Seq<u8>),
> {
    Seq::new(
        (data.len() as int / cfg.block_size as int) as nat,
        |i: int|
            (
                spec_data_key(cfg.spec_start_block(offset) + i),
                data.subrange(i * (cfg.block_size as int), (i + 1) * (cfg.block_size as int)),
            ),
    )
}

/// The store after a batch of puts is applied atomically, in order.
pub open spec fn apply_puts(m: Map<Seq<u8>, Seq<u8>>, puts: Seq<(Seq<u8>, Seq<u8>)>) -> Map<
    Seq<u8>,
    Seq<u8>,
>
    decreases puts.len(),
{
    if puts.len() == 0 {
        m
    } else {
        apply_puts(m.insert(puts[0].0, puts[0].1), puts.drop_first())
    }
}

/// A write of `data` at `offset` against store `m`: rejected for an
/// invalid offset or a length that is not whole blocks; otherwise the
/// store with the batch applied.
pub open spec fn write_model(
    cfg: DeviceConfig,
    m: Map<Seq<u8>, Seq<u8>>,
    offset: u64,
    data: Seq<u8>,
) -> Result<Map<Seq<u8>, Seq<u8>>, ProtocolError> {
    if !cfg.addr_valid(offset) {
        Err(ProtocolError::CommandNotSupported)
    } else if data.len() as int % (cfg.block_size as int) != 0 {
        Err(ProtocolError::InvalidArgument)
    } else {
        Ok(apply_puts(m, write_puts(cfg, offset, data)))
    }
}

/// The store after a batch of deletes is applied atomically, in order.
pub open spec fn apply_deletes(m: Map<Seq<u8>, Seq<u8>>, keys: Seq<Seq<u8>>) -> Map<
    Seq<u8>,
    Seq<u8>,
>
    decreases keys.len(),
{
    if keys.len() == 0 {
        m
    } else {
        apply_deletes(m.remove(keys[0]), keys.drop_first())
    }
}

/// A trim of `length` bytes at `offset` against store `m`: rejected for an
/// invalid offset; otherwise every covered key deleted, so the range reads
/// as zeroes afterwards.
pub open spec fn trim_model(
    cfg: DeviceConfig,
    m: Map<Seq<u8>, Seq<u8>>,
    offset: u64,
    length: u64,
) -> Result<Map<Seq<u8>, Seq<u8>>, ProtocolError> {
    if !cfg.addr_valid(offset) {
        Err(ProtocolError::CommandNotSupported)
    } else {
        Ok(apply_deletes(m, range_keys(cfg, offset, length as int)))
    }
}

/// Write-zeroes resolves to the very same operation as trim: unwritten
/// blocks already read as zeroes, so discarding and zero-filling are
/// indistinguishable at the storage layer.
pub open spec fn write_zeroes_model(
    cfg: DeviceConfig,
    m: Map<Seq<u8>, Seq<u8>>,
    offset: u64,
    length: u64,
) -> Result<Map<Seq<u8>, Seq<u8>>, ProtocolError> {
    trim_model(cfg, m, offset, length)
}

/// Ceiling division covers the requested length, and by less than one
/// extra block; on whole-block lengths it agrees with exact division.
pub proof fn lemma_ceil_div(len: int, bs: int)
    requires
        0 <= len,
        1 <= bs,
    ensures
        len <= ((len + bs - 1) / bs) * bs,
        ((len + bs - 1) / bs) * bs < len + bs,
        0 <= (len + bs - 1) / bs,
        len % bs == 0 ==> (len + bs - 1) / bs == len / bs,
{
    lemma_fundamental_div_mod(len + bs - 1, bs);
    lemma_mod_bound(len + bs - 1, bs);
    let q = (len + bs - 1) / bs;
    let r = (len + bs - 1) % bs;
    assert(bs * q == q * bs) by (nonlinear_arith);
    assert(len + bs - 1 == q * bs + r);
    if len % bs == 0 {
        lemma_fundamental_div_mod(len, bs);
        let q0 = len / bs;
        assert(bs * q0 == q0 * bs) by (nonlinear_arith);
        lemma_fundamental_div_mod_converse(len + bs - 1, bs, q0, bs - 1);
    }
}

/// A byte index inside block `k` of a concatenation of `bs`-sized blocks
/// divides down to block `k` and its offset within it.
pub proof fn lemma_block_index(bs: int, k: int, i: int)
    requires
        1 <= bs,
        0 <= k,
        k * bs <= i < (k + 1) * bs,
    ensures
        i / bs == k,
        i % bs == i - k * bs,
{
    assert((k + 1) * bs == k * bs + bs) by (nonlinear_arith);
    lemma_fundamental_div_mod_converse(i, bs, k, i - k * bs);
}

/// Dividing a nonnegative number by a positive one never makes it larger.
pub proof fn lemma_div_le(x: int, d: int)
    requires
        0 <= x,
        1 <= d,
    ensures
        0 <= x / d <= x,
{
    lemma_div_is_ordered_by_denominator(x, 1, d);
    lemma_fundamental_div_mod(x, d);
    lemma_mod_bound(x, d);
    if x / d < 0 {
        assert(d * (x / d) <= x / d) by (nonlinear_arith)
            requires
                1 <= d,
                x / d < 0,
        ;
    }
}

/// A byte index below `n * bs` falls in one of the first `n` blocks, at
/// the offset its remainder names.
pub proof fn lemma_div_mod_point(bs: int, n: int, i: int)
    requires
        1 <= bs,
        0 <= i < n * bs,
    ensures
        0 <= i / bs < n,
        i == (i / bs) * bs + (i % bs),
        0 <= i % bs < bs,
{
    lemma_fundamental_div_mod(i, bs);
    lemma_mod_bound(i, bs);
    lemma_div_le(i, bs);
    assert(bs * (i / bs) == (i / bs) * bs) by (nonlinear_arith);
    assert(i / bs < n) by (nonlinear_arith)
        requires
            1 <= bs,
            i < n * bs,
            i == (i / bs) * bs + (i % bs),
            0 <= i % bs,
    ;
}

/// Appending one more fetched block to an assembly appends exactly that
/// block's bytes: the stored bytes if present, a block of zeroes if not.
pub proof fn lemma_assembled_snoc(bs: int, f: Seq<Option<Seq<u8>>>, k: int)
    requires
        1 <= bs,
        0 <= k < f.len(),
        f[k] matches Some(d) ==> d.len() == bs,
    ensures
        assembled(bs, f.take(k + 1)) == assembled(bs, f.take(k)) + (match f[k] {
            Some(d) => d,
            None => zeros(bs),
        }),
{
    let blk = match f[k] {
        Some(d) => d,
        None => zeros(bs),
    };
    let lhs = assembled(bs, f.take(k + 1));
    let rhs = assembled(bs, f.take(k)) + blk;
    assert((k + 1) * bs == k * bs + bs) by (nonlinear_arith);
    assert forall|i: int| 0 <= i < lhs.len() implies lhs[i] == rhs[i] by {
        if i < k * bs {
            assert(k >= 1) by (nonlinear_arith)
                requires
                    0 <= i,
                    i < k * bs,
                    1 <= bs,
                    0 <= k,
            ;
            assert((k - 1) * bs == k * bs - bs) by (nonlinear_arith);
            lemma_div_is_ordered(i, k * bs - 1, bs);
            lemma_block_index(bs, k - 1, k * bs - 1);
        } else {
            lemma_block_index(bs, k, i);
        }
    }
    assert(lhs =~= rhs);
}

/// Keys not named in a batch of puts are untouched by it.
pub proof fn lemma_apply_puts_frame(
    m: Map<Seq<u8>, Seq<u8>>,
    puts: Seq<(Seq<u8>, Seq<u8>)>,
    k: Seq<u8>,
)
    requires
        forall|i: int| 0 <= i < puts.len() ==> (#[trigger] puts[i]).0 != k,
    ensures
        apply_puts(m, puts).contains_key(k) == m.contains_key(k),
        m.contains_key(k) ==> apply_puts(m, puts)[k] == m[k],
    decreases puts.len(),
{
    if puts.len() > 0 {
        let m1 = m.insert(puts[0].0, puts[0].1);
        assert(forall|i: int|
            0 <= i < puts.drop_first().len() ==> (#[trigger] puts.drop_first()[i]).0 != k);
        lemma_apply_puts_frame(m1, puts.drop_first(), k);
    }
}

/// A key named in a batch of puts, with no later put to the same key, ends
/// up holding that put's value.
pub proof fn lemma_apply_puts_hit(
    m: Map<Seq<u8>, Seq<u8>>,
    puts: Seq<(Seq<u8>, Seq<u8>)>,
    i: int,
)
    requires
        0 <= i < puts.len(),
        forall|j: int| i < j < puts.len() ==> (#[trigger] puts[j]).0 != puts[i].0,
    ensures
        apply_puts(m, puts).contains_key(puts[i].0),
        apply_puts(m, puts)[puts[i].0] == puts[i].1,
    decreases puts.len(),
{
    let m1 = m.insert(puts[0].0, puts[0].1);
    if i == 0 {
        assert(forall|j: int|
            0 <= j < puts.drop_first().len() ==> (#[trigger] puts.drop_first()[j]).0 != puts[0].0);
        lemma_apply_puts_frame(m1, puts.drop_first(), puts[0].0);
    } else {
        assert(puts.drop_first()[i - 1] == puts[i]);
        lemma_apply_puts_hit(m1, puts.drop_first(), i - 1);
    }
}

/// A batch of deletes never adds a key.
pub proof fn lemma_apply_deletes_subset(m: Map<Seq<u8>, Seq<u8>>, keys: Seq<Seq<u8>>, k: Seq<u8>)
    requires
        apply_deletes(m, keys).contains_key(k),
    ensures
        m.contains_key(k),
    decreases keys.len(),
{
    if keys.len() > 0 {
        lemma_apply_deletes_subset(m.remove(keys[0]), keys.drop_first(), k);
    }
}

/// Every key named in a batch of deletes is absent afterwards.
pub proof fn lemma_apply_deletes_hit(m: Map<Seq<u8>, Seq<u8>>, keys: Seq<Seq<u8>>, i: int)
    requires
        0 <= i < keys.len(),
    ensures
        !apply_deletes(m, keys).contains_key(keys[i]),
    decreases keys.len(),
{
    let m1 = m.remove(keys[0]);
    if i == 0 {
        if apply_deletes(m1, keys.drop_first()).contains_key(keys[0]) {
            lemma_apply_deletes_subset(m1, keys.drop_first(), keys[0]);
        }
    } else {
        assert(keys.drop_first()[i - 1] == keys[i]);
        lemma_apply_deletes_hit(m1, keys.drop_first(), i - 1);
    }
}

} // verus!
