//! The device-level guarantees, proved once and for all against the store
//! model: alignment rejection, exact read lengths, write/read round trips,
//! sparse zero reads, the trim/write-zeroes equivalence, and the grow-only
//! metadata protocol.

use crate::adapter::lemma_plan_bounds;
use crate::device::DeviceConfig;
use crate::errors::InitError;
use crate::errors::MetadataError;
use crate::errors::ProtocolError;
use crate::keys::lemma_data_keys_distinct;
use crate::device::DEFAULT_BLOCK_SIZE;
use crate::device::DEFAULT_DEVICE_SIZE;
use crate::metadata::attach_model;
use crate::metadata::stored_after;
use crate::metadata::upsert_model;
use crate::metadata::SizeAction;
use crate::model::apply_deletes;
use crate::model::apply_puts;
use crate::model::assembled;
use crate::model::blocks_ok;
use crate::model::fetch_of;
use crate::model::lemma_apply_deletes_hit;
use crate::model::lemma_apply_puts_hit;
use crate::model::lemma_ceil_div;
use crate::model::lemma_div_mod_point;
use crate::model::range_keys;
use crate::model::read_model;
use crate::model::trim_model;
use crate::model::write_model;
use crate::model::write_puts;
use crate::model::write_zeroes_model;
use crate::model::zeros;
use vstd::arithmetic::div_mod::lemma_fundamental_div_mod;
use vstd::arithmetic::mul::lemma_mul_inequality;
use vstd::bytes::lemma_auto_spec_u64_to_from_le_bytes;
use vstd::bytes::spec_u64_from_le_bytes;
use vstd::bytes::spec_u64_to_le_bytes;
use vstd::prelude::*;

verus! {

/// Every read, write or trim at an offset that is not a multiple of the
/// block size fails with the alignment error, for any length and any
/// data, against any store.
pub proof fn lemma_unaligned_rejected(
    cfg: DeviceConfig,
    m: Map<Seq<u8>, Seq<u8>>,
    offset: u64,
    length: u64,
    data: Seq<u8>,
)
    requires
        cfg.wf(),
        !cfg.addr_aligned(offset),
    ensures
        read_model(cfg, m, offset, length) == Err::<Seq<u8>, ProtocolError>(
            ProtocolError::CommandNotSupported,
        ),
        write_model(cfg, m, offset, data) == Err::<Map<Seq<u8>, Seq<u8>>, ProtocolError>(
            ProtocolError::CommandNotSupported,
        ),
        trim_model(cfg, m, offset, length) == Err::<Map<Seq<u8>, Seq<u8>>, ProtocolError>(
            ProtocolError::CommandNotSupported,
        ),
        write_zeroes_model(cfg, m, offset, length) == Err::<
            Map<Seq<u8>, Seq<u8>>,
            ProtocolError,
        >(ProtocolError::CommandNotSupported),
{
}

/// A successful read returns exactly the requested number of bytes,
/// whatever the length's relation to the block size: unaligned, spanning
/// several blocks, or exactly one.
pub proof fn lemma_read_exact_length(
    cfg: DeviceConfig,
    m: Map<Seq<u8>, Seq<u8>>,
    offset: u64,
    length: u64,
)
    requires
        cfg.wf(),
        length <= u32::MAX,
    ensures
        read_model(cfg, m, offset, length) matches Ok(b) ==> b.len() == length,
{
    if read_model(cfg, m, offset, length) is Ok {
        let bs = cfg.block_size as int;
        let f = fetch_of(m, range_keys(cfg, offset, length as int));
        lemma_ceil_div(length as int, bs);
        assert(assembled(bs, f).len() == cfg.spec_blocks_needed(length as int) * bs);
    }
}

/// Writing whole blocks and then reading back the same range returns the
/// data just written, unchanged, against any prior store contents.
pub proof fn lemma_write_read_round_trip(
    cfg: DeviceConfig,
    m: Map<Seq<u8>, Seq<u8>>,
    offset: u64,
    data: Seq<u8>,
)
    requires
        cfg.wf(),
        cfg.addr_valid(offset),
        data.len() as int % (cfg.block_size as int) == 0,
        data.len() <= u32::MAX,
    ensures
        write_model(cfg, m, offset, data) == Ok::<Map<Seq<u8>, Seq<u8>>, ProtocolError>(
            apply_puts(m, write_puts(cfg, offset, data)),
        ),
        read_model(cfg, apply_puts(m, write_puts(cfg, offset, data)), offset, data.len() as u64)
            == Ok::<Seq<u8>, ProtocolError>(data),
{
    let bs = cfg.block_size as int;
    let sb = cfg.spec_start_block(offset);
    let puts = write_puts(cfg, offset, data);
    let m2 = apply_puts(m, puts);
    let n = data.len() as int / bs;
    lemma_ceil_div(data.len() as int, bs);
    lemma_fundamental_div_mod(data.len() as int, bs);
    assert(bs * n == n * bs) by (nonlinear_arith);
    assert(n * bs == data.len());
    lemma_plan_bounds(cfg, offset, data.len() as int);
    assert(cfg.spec_blocks_needed(data.len() as int) == n);
    let keys = range_keys(cfg, offset, data.len() as int);
    let f = fetch_of(m2, keys);
    assert(f.len() == n);
    assert forall|j: int| 0 <= j < n implies f[j] == Some(puts[j].1) by {
        assert forall|l: int| j < l < n implies (#[trigger] puts[l]).0 != puts[j].0 by {
            lemma_data_keys_distinct(sb + j, sb + l);
        }
        lemma_apply_puts_hit(m, puts, j);
        assert(keys[j] == puts[j].0);
    }
    assert forall|j: int| 0 <= j < n implies (#[trigger] puts[j]).1.len() == bs && (forall|
        t: int,
    |
        0 <= t < bs ==> puts[j].1[t] == data[j * bs + t]) by {
        assert(0 <= j * bs) by (nonlinear_arith)
            requires
                0 <= j,
                1 <= bs,
        ;
        assert((j + 1) * bs == j * bs + bs) by (nonlinear_arith);
        lemma_mul_inequality(j + 1, n, bs);
        assert(puts[j].1 == data.subrange(j * bs, (j + 1) * bs));
    }
    assert(blocks_ok(bs, f));
    assert forall|i: int| 0 <= i < n * bs implies assembled(bs, f)[i] == data[i] by {
        lemma_div_mod_point(bs, n, i);
        let j = i / bs;
        assert(f[j] == Some(puts[j].1));
        assert(puts[j].1[i % bs] == data[j * bs + (i % bs)]);
        assert(j * bs + (i % bs) == i);
    }
    assert(assembled(bs, f) =~= data);
    assert(assembled(bs, f).take(data.len() as int) =~= data);
}

/// Reading a range that holds no stored block at all returns exactly that
/// many zero bytes: absence is logical zero.
pub proof fn lemma_unwritten_reads_zeros(
    cfg: DeviceConfig,
    m: Map<Seq<u8>, Seq<u8>>,
    offset: u64,
    length: u64,
)
    requires
        cfg.wf(),
        cfg.addr_valid(offset),
        length <= u32::MAX,
        forall|j: int|
            0 <= j < cfg.spec_blocks_needed(length as int) ==> !m.contains_key(
                #[trigger] range_keys(cfg, offset, length as int)[j],
            ),
    ensures
        read_model(cfg, m, offset, length) == Ok::<Seq<u8>, ProtocolError>(
            zeros(length as int),
        ),
{
    let bs = cfg.block_size as int;
    let n = cfg.spec_blocks_needed(length as int);
    let keys = range_keys(cfg, offset, length as int);
    let f = fetch_of(m, keys);
    assert(forall|j: int| 0 <= j < n ==> f[j] is None);
    assert(blocks_ok(bs, f));
    lemma_ceil_div(length as int, bs);
    assert forall|i: int| 0 <= i < n * bs implies assembled(bs, f)[i] == 0u8 by {
        lemma_div_mod_point(bs, n, i);
    }
    assert(assembled(bs, f).take(length as int) =~= zeros(length as int));
}

/// After a trim — or a write-zeroes, which is the very same operation —
/// reading the trimmed range returns all zeros, for previously-written and
/// never-written ranges alike.
pub proof fn lemma_trim_then_read_zeros(
    cfg: DeviceConfig,
    m: Map<Seq<u8>, Seq<u8>>,
    offset: u64,
    length: u64,
)
    requires
        cfg.wf(),
        cfg.addr_valid(offset),
        length <= u32::MAX,
    ensures
        trim_model(cfg, m, offset, length) == Ok::<Map<Seq<u8>, Seq<u8>>, ProtocolError>(
            apply_deletes(m, range_keys(cfg, offset, length as int)),
        ),
        write_zeroes_model(cfg, m, offset, length) == trim_model(cfg, m, offset, length),
        read_model(
            cfg,
            apply_deletes(m, range_keys(cfg, offset, length as int)),
            offset,
            length,
        ) == Ok::<Seq<u8>, ProtocolError>(zeros(length as int)),
{
    let keys = range_keys(cfg, offset, length as int);
    let m2 = apply_deletes(m, keys);
    assert forall|j: int|
        0 <= j < cfg.spec_blocks_needed(length as int) implies !m2.contains_key(
        #[trigger] keys[j],
    ) by {
        lemma_apply_deletes_hit(m, keys, j);
    }
    lemma_unwritten_reads_zeros(cfg, m2, offset, length);
}

/// A fetch that answers every key the read planner asked for always
/// covers the requested length: the ceiling division leaves no shortfall,
/// so the assembler's shortfall error is unreachable through the planner.
pub proof fn lemma_planned_fetch_covers_length(cfg: DeviceConfig, length: u64)
    requires
        cfg.wf(),
        length <= u32::MAX,
    ensures
        cfg.spec_blocks_needed(length as int) * cfg.block_size >= length,
{
    lemma_ceil_div(length as int, cfg.block_size as int);
}

/// Metadata monotonicity. Re-asserting the stored size is a no-op that
/// leaves the record unchanged; a request above the stored size is a grow,
/// accepted and written, and a subsequent request for that same size
/// observes it as a no-op; a request below the stored size would shrink
/// the device and is refused, leaving the record unchanged; and through
/// every outcome the stored size never decreases.
pub proof fn lemma_metadata_monotonic(record: Option<Seq<u8>>, desired: u64, prior: u64)
    ensures
        upsert_model(Some(spec_u64_to_le_bytes(prior)), prior) == Ok::<SizeAction, InitError>(
            SizeAction::Keep(prior),
        ),
        stored_after(
            Some(spec_u64_to_le_bytes(prior)),
            upsert_model(Some(spec_u64_to_le_bytes(prior)), prior),
        ) == Some(spec_u64_to_le_bytes(prior)),
        desired > prior ==> upsert_model(Some(spec_u64_to_le_bytes(prior)), desired) == Ok::<
            SizeAction,
            InitError,
        >(SizeAction::Write(desired)),
        desired < prior ==> upsert_model(Some(spec_u64_to_le_bytes(prior)), desired) == Err::<
            SizeAction,
            InitError,
        >(InitError::MetadataFailure(MetadataError::CannotShrink)),
        upsert_model(record, desired) matches Ok(SizeAction::Write(s)) ==> {
            &&& s == desired
            &&& stored_after(record, upsert_model(record, desired)) == Some(
                spec_u64_to_le_bytes(desired),
            )
            &&& upsert_model(stored_after(record, upsert_model(record, desired)), desired)
                == Ok::<SizeAction, InitError>(SizeAction::Keep(desired))
        },
        upsert_model(record, desired) is Err ==> stored_after(
            record,
            upsert_model(record, desired),
        ) == record,
        record == Some(spec_u64_to_le_bytes(prior)) ==> {
            let after = stored_after(record, upsert_model(record, desired));
            &&& after matches Some(b2)
            &&& spec_u64_from_le_bytes(after.unwrap()) >= prior
        },
{
    lemma_auto_spec_u64_to_from_le_bytes();
}

/// An attach over a previously grown store observes the larger stored
/// size unchanged: with a well-formed stored size at or above the
/// default, attach keeps it and writes nothing.
pub proof fn lemma_attach_observes_growth(s: u64)
    requires
        s >= DEFAULT_DEVICE_SIZE,
        s % DEFAULT_BLOCK_SIZE == 0,
        s <= 0x1000_0000_0000_0000,
    ensures
        attach_model(Some(spec_u64_to_le_bytes(s))) == Ok::<SizeAction, InitError>(
            SizeAction::Keep(s),
        ),
        stored_after(
            Some(spec_u64_to_le_bytes(s)),
            attach_model(Some(spec_u64_to_le_bytes(s))),
        ) == Some(spec_u64_to_le_bytes(s)),
{
    lemma_auto_spec_u64_to_from_le_bytes();
}

} // verus!
