//! The block I/O adapter's executable side. Every operation validates the
//! offset first, then either assembles the answer from fetched blocks
//! (read) or produces the exact batch the backing store must apply (write,
//! trim, write-zeroes), together with the durability flag the
//! force-unit-access (FUA) bit demands. Each function is proved against
//! the store model in `model`.

use crate::device::DeviceConfig;
use crate::errors::ProtocolError;
use crate::keys::block_to_key;
use crate::keys::spec_data_key;
use crate::keys::RESERVED_BLOCKS;
use crate::model::assembled;
use crate::model::blocks_ok;
use crate::model::lemma_assembled_snoc;
use crate::model::lemma_ceil_div;
use crate::model::lemma_div_le;
use crate::model::range_keys;
use crate::model::write_puts;
use crate::model::zeros;
use vstd::arithmetic::div_mod::lemma_fundamental_div_mod;
use vstd::arithmetic::mul::lemma_mul_inequality;
use vstd::prelude::*;
use vstd::slice::slice_subrange;
use vstd::slice::slice_to_vec;

verus! {

/// The abstract keys of an executable key list.
pub open spec fn keys_view(keys: Seq<Vec<u8>>) -> Seq<Seq<u8>> {
    Seq::new(keys.len(), |i: int| keys[i]@)
}

/// The abstract blocks of an executable fetch result.
pub open spec fn fetched_view(fetched: Seq<Option<Vec<u8>>>) -> Seq<Option<Seq<u8>>> {
    Seq::new(
        fetched.len(),
        |i: int|
            match fetched[i] {
                Some(d) => Some(d@),
                None => None,
            },
    )
}

/// The abstract batch of an executable put list.
pub open spec fn puts_view(puts: Seq<(Vec<u8>, Vec<u8>)>) -> Seq<(Seq<u8>, Seq<u8>)> {
    Seq::new(puts.len(), |i: int| (puts[i].0@, puts[i].1@))
}

/// The batch a write must apply: one put per block-sized chunk, plus
/// whether the store must persist it durably before acknowledging.
#[derive(Debug, PartialEq, Eq)]
pub struct WritePlan {
    pub puts: Vec<(Vec<u8>, Vec<u8>)>,
    pub await_durable: bool,
}

/// The batch a trim or write-zeroes must apply: the covered keys to
/// delete, plus the same durability flag.
#[derive(Debug, PartialEq, Eq)]
pub struct DeletePlan {
    pub keys: Vec<Vec<u8>>,
    pub await_durable: bool,
}

/// The storage keys of `count` consecutive blocks starting at
/// `start_block`.
fn collect_range_keys(start_block: u64, count: u64) -> (keys: Vec<Vec<u8>>)
    requires
        start_block + count + RESERVED_BLOCKS <= u64::MAX,
    ensures
        keys@.len() == count,
        forall|j: int|
            0 <= j < count ==> (#[trigger] keys@[j])@ == spec_data_key(start_block + j),
{
    let mut keys: Vec<Vec<u8>> = Vec::new();
    let mut j: u64 = 0;
    while j < count
        invariant
            j <= count,
            start_block + count + RESERVED_BLOCKS <= u64::MAX,
            keys@.len() == j,
            forall|jj: int|
                0 <= jj < j ==> (#[trigger] keys@[jj])@ == spec_data_key(start_block + jj),
        decreases count - j,
    {
        keys.push(block_to_key(start_block + j));
        j = j + 1;
    }
    keys
}

/// The bounds every planner needs: the starting block of a valid offset,
/// and the block count of a 32-bit length, leave ample headroom below
/// `u64::MAX`.
pub(crate) proof fn lemma_plan_bounds(cfg: DeviceConfig, offset: u64, length: int)
    requires
        cfg.wf(),
        cfg.addr_valid(offset),
        0 <= length <= u32::MAX,
    ensures
        0 <= cfg.spec_start_block(offset) <= offset,
        0 <= cfg.spec_blocks_needed(length) <= length,
        cfg.spec_start_block(offset) + cfg.spec_blocks_needed(length) + RESERVED_BLOCKS
            <= u64::MAX,
{
    let bs = cfg.block_size as int;
    lemma_div_le(offset as int, bs);
    lemma_div_le(length + bs - 1, bs);
    if length == 0 {
        assert(cfg.spec_blocks_needed(0) == (bs - 1) / bs);
        lemma_div_le(bs - 1, bs);
        assert((bs - 1) / bs == 0) by (nonlinear_arith)
            requires
                1 <= bs,
        ;
    } else {
        lemma_ceil_div(length, bs);
        let q = cfg.spec_blocks_needed(length);
        assert(q <= length) by (nonlinear_arith)
            requires
                0 <= q,
                0 <= length,
                1 <= bs,
                q * bs < length + bs,
        ;
    }
}

/// The keys a read of `length` bytes at `offset` must fetch, in order;
/// an invalid offset is rejected before any store access.
pub fn read_keys(cfg: &DeviceConfig, offset: u64, length: u32) -> (r: Result<
    Vec<Vec<u8>>,
    ProtocolError,
>)
    requires
        cfg.wf(),
    ensures
        r is Ok <==> cfg.addr_valid(offset),
        !cfg.addr_valid(offset) ==> r == Err::<Vec<Vec<u8>>, ProtocolError>(
            ProtocolError::CommandNotSupported,
        ),
        r matches Ok(keys) ==> keys_view(keys@) == range_keys(*cfg, offset, length as int),
{
    match cfg.check_address_valid(offset) {
        Err(e) => Err(e),
        Ok(()) => {
            proof {
                lemma_plan_bounds(*cfg, offset, length as int);
            }
            let start = cfg.start_block(offset);
            let count = cfg.blocks_needed(length);
            let keys = collect_range_keys(start, count);
            proof {
                assert(keys_view(keys@) =~= range_keys(*cfg, offset, length as int));
            }
            Ok(keys)
        },
    }
}

/// Trim: delete every key in the covered block range as one atomic batch,
/// durably when the FUA flag demands it.
pub fn trim(cfg: &DeviceConfig, offset: u64, length: u32, fua: bool) -> (r: Result<
    DeletePlan,
    ProtocolError,
>)
    requires
        cfg.wf(),
    ensures
        r is Ok <==> cfg.addr_valid(offset),
        !cfg.addr_valid(offset) ==> r == Err::<DeletePlan, ProtocolError>(
            ProtocolError::CommandNotSupported,
        ),
        r matches Ok(p) ==> keys_view(p.keys@) == range_keys(*cfg, offset, length as int)
            && p.await_durable == fua,
{
    match cfg.check_address_valid(offset) {
        Err(e) => Err(e),
        Ok(()) => {
            proof {
                lemma_plan_bounds(*cfg, offset, length as int);
            }
            let start = cfg.start_block(offset);
            let count = cfg.blocks_needed(length);
            let keys = collect_range_keys(start, count);
            proof {
                assert(keys_view(keys@) =~= range_keys(*cfg, offset, length as int));
            }
            Ok(DeletePlan { keys, await_durable: fua })
        },
    }
}

/// Write-zeroes resolves to the same delete batch as trim: the store is
/// sparse, so absent blocks already read as zeroes.
pub fn write_zeroes(cfg: &DeviceConfig, offset: u64, length: u32, fua: bool) -> (r: Result<
    DeletePlan,
    ProtocolError,
>)
    requires
        cfg.wf(),
    ensures
        r is Ok <==> cfg.addr_valid(offset),
        !cfg.addr_valid(offset) ==> r == Err::<DeletePlan, ProtocolError>(
            ProtocolError::CommandNotSupported,
        ),
        r matches Ok(p) ==> keys_view(p.keys@) == range_keys(*cfg, offset, length as int)
            && p.await_durable == fua,
{
    trim(cfg, offset, length, fua)
}

/// Assembles the answer to a read from the blocks fetched for it: stored
/// bytes where a block was present, zeroes where it was absent, truncated
/// to exactly the requested length. A present block of the wrong length is
/// corruption and fails the read; a fetch that covers less than the
/// requested length (which the planner's ceiling division never produces)
/// is an error, never silently padded.
pub fn read(cfg: &DeviceConfig, offset: u64, length: u32, fetched: &Vec<Option<Vec<u8>>>) -> (r:
    Result<Vec<u8>, ProtocolError>)
    requires
        cfg.wf(),
        fetched@.len() * cfg.block_size <= usize::MAX,
    ensures
        r is Ok <==> (cfg.addr_valid(offset) && blocks_ok(
            cfg.block_size as int,
            fetched_view(fetched@),
        ) && fetched@.len() * cfg.block_size >= length),
        !cfg.addr_valid(offset) ==> r == Err::<Vec<u8>, ProtocolError>(
            ProtocolError::CommandNotSupported,
        ),
        (cfg.addr_valid(offset) && !(blocks_ok(cfg.block_size as int, fetched_view(fetched@))
            && fetched@.len() * cfg.block_size >= length)) ==> r == Err::<Vec<u8>, ProtocolError>(
            ProtocolError::InvalidArgument,
        ),
        r matches Ok(buf) ==> {
            &&& buf@ == assembled(cfg.block_size as int, fetched_view(fetched@)).take(
                length as int,
            )
            &&& buf@.len() == length
        },
{
    match cfg.check_address_valid(offset) {
        Err(e) => {
            return Err(e);
        },
        Ok(()) => {},
    }
    let ghost fv = fetched_view(fetched@);
    let ghost bs = cfg.block_size as int;
    let bs_usize = cfg.block_size as usize;
    let mut buff: Vec<u8> = Vec::new();
    let mut k: usize = 0;
    while k < fetched.len()
        invariant
            cfg.wf(),
            cfg.addr_valid(offset),
            bs == cfg.block_size as int,
            bs_usize == cfg.block_size,
            fv == fetched_view(fetched@),
            k <= fetched@.len(),
            fetched@.len() * cfg.block_size <= usize::MAX,
            blocks_ok(bs, fv.take(k as int)),
            buff@ == assembled(bs, fv.take(k as int)),
            buff@.len() == k * bs,
        decreases fetched@.len() - k,
    {
        proof {
            lemma_mul_inequality(k as int + 1, fetched@.len() as int, bs);
            assert((k as int + 1) * bs == k as int * bs + bs) by (nonlinear_arith);
        }
        let ghost buff0 = buff@;
        match &fetched[k] {
            Some(d) => {
                if d.len() != bs_usize {
                    proof {
                        assert(fv[k as int] matches Some(b) && b.len() != bs);
                        assert(!blocks_ok(bs, fv));
                    }
                    return Err(ProtocolError::InvalidArgument);
                }
                let mut t: usize = 0;
                while t < d.len()
                    invariant
                        t <= d@.len(),
                        buff@.len() == buff0.len() + t,
                        buff0.len() + d@.len() <= usize::MAX,
                        buff@ == buff0 + d@.take(t as int),
                    decreases d@.len() - t,
                {
                    buff.push(d[t]);
                    proof {
                        assert(buff@ =~= buff0 + d@.take(t as int + 1));
                    }
                    t = t + 1;
                }
                proof {
                    assert(buff@ =~= buff0 + d@);
                    assert(fv[k as int] == Some(d@));
                }
            },
            None => {
                let mut t: usize = 0;
                while t < bs_usize
                    invariant
                        bs == bs_usize as int,
                        t <= bs_usize,
                        buff@.len() == buff0.len() + t,
                        buff@ == buff0 + zeros(t as int),
                    decreases bs_usize - t,
                {
                    buff.push(0u8);
                    proof {
                        assert(buff@ =~= buff0 + zeros(t as int + 1));
                    }
                    t = t + 1;
                }
                proof {
                    assert(buff@ =~= buff0 + zeros(bs));
                    assert(fv[k as int] is None);
                }
            },
        }
        proof {
            lemma_assembled_snoc(bs, fv, k as int);
            assert(blocks_ok(bs, fv.take(k as int + 1))) by {
                assert forall|j: int|
                    0 <= j < fv.take(k as int + 1).len() implies (#[trigger] fv.take(
                        k as int + 1,
                    )[j] matches Some(d) ==> d.len() == bs) by {
                    if j < k as int {
                        assert(fv.take(k as int)[j] matches Some(d) ==> d.len() == bs);
                    } else {
                        assert(fv.take(k as int + 1)[j] == fv[k as int]);
                    }
                }
            }
        }
        k = k + 1;
    }
    proof {
        assert(fv.take(fetched@.len() as int) =~= fv);
    }
    if buff.len() > length as usize {
        buff.truncate(length as usize);
        proof {
            assert(buff@ == assembled(bs, fv).take(length as int));
        }
        Ok(buff)
    } else if buff.len() < length as usize {
        Err(ProtocolError::InvalidArgument)
    } else {
        proof {
            assert(buff@ =~= assembled(bs, fv).take(length as int));
        }
        Ok(buff)
    }
}

/// Plans a write of `data` at `offset`: the offset must be valid and the
/// length whole blocks (this adapter never reads-modifies-writes); the
/// batch then puts each chunk at its block's key, all applied atomically,
/// durably when the FUA flag demands it.
pub fn write(cfg: &DeviceConfig, offset: u64, fua: bool, data: &Vec<u8>) -> (r: Result<
    WritePlan,
    ProtocolError,
>)
    requires
        cfg.wf(),
        data@.len() <= u32::MAX,
    ensures
        r is Ok <==> (cfg.addr_valid(offset) && data@.len() as int % (cfg.block_size as int)
            == 0),
        !cfg.addr_valid(offset) ==> r == Err::<WritePlan, ProtocolError>(
            ProtocolError::CommandNotSupported,
        ),
        (cfg.addr_valid(offset) && data@.len() as int % (cfg.block_size as int) != 0) ==> r
            == Err::<WritePlan, ProtocolError>(ProtocolError::InvalidArgument),
        r matches Ok(p) ==> {
            &&& puts_view(p.puts@) == write_puts(*cfg, offset, data@)
            &&& p.await_durable == fua
        },
{
    match cfg.check_address_valid(offset) {
        Err(e) => {
            return Err(e);
        },
        Ok(()) => {},
    }
    let bs_usize = cfg.block_size as usize;
    if data.len() % bs_usize != 0 {
        return Err(ProtocolError::InvalidArgument);
    }
    proof {
        lemma_plan_bounds(*cfg, offset, data@.len() as int);
        lemma_fundamental_div_mod(data@.len() as int, cfg.block_size as int);
        lemma_div_le(data@.len() as int, cfg.block_size as int);
        let bsi = cfg.block_size as int;
        let q = data@.len() as int / bsi;
        assert(bsi * q == q * bsi) by (nonlinear_arith);
    }
    let start = cfg.start_block(offset);
    let n = data.len() / bs_usize;
    let ghost bs = cfg.block_size as int;
    let mut puts: Vec<(Vec<u8>, Vec<u8>)> = Vec::new();
    let mut i: usize = 0;
    while i < n
        invariant
            cfg.wf(),
            bs == cfg.block_size as int,
            bs_usize == cfg.block_size,
            start == cfg.spec_start_block(offset),
            start + n + RESERVED_BLOCKS <= u64::MAX,
            n == data@.len() as int / bs,
            n * bs == data@.len(),
            data@.len() <= u32::MAX,
            i <= n,
            puts@.len() == i,
            forall|j: int|
                0 <= j < i ==> (#[trigger] puts@[j]).0@ == spec_data_key(start + j),
            forall|j: int|
                0 <= j < i ==> (#[trigger] puts@[j]).1@ == data@.subrange(j * bs, (j + 1) * bs),
        decreases n - i,
    {
        proof {
            lemma_mul_inequality(i as int + 1, n as int, bs);
            assert((i + 1) * bs == i * bs + bs) by (nonlinear_arith);
            assert(0 <= i * bs) by (nonlinear_arith)
                requires
                    0 <= i,
                    1 <= bs,
            ;
        }
        let key = block_to_key(start + i as u64);
        let chunk = slice_to_vec(slice_subrange(data.as_slice(), i * bs_usize, (i + 1) * bs_usize));
        puts.push((key, chunk));
        i = i + 1;
    }
    proof {
        assert(puts_view(puts@) =~~= write_puts(*cfg, offset, data@));
    }
    Ok(WritePlan { puts, await_durable: fua })
}

} // verus!
