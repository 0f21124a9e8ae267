//! The capacity of the stacks' buffer pools.

use vstd::prelude::*;
use vstd::string::*;

use crate::err::{ERR_OK, ERR_USE, ERR_VAL};
use crate::error::Error;
use crate::shard::SHARD_COUNT;
use crate::text;
use crate::text::{append_decimal, append_signed};

verus! {

/// The smallest capacity that can be configured.
pub const MEMP_PBUF_POOL_RUNTIME_MIN: u16 = 32;

/// The capacity that is compiled in, and the largest that can be configured.
pub const PBUF_POOL_SIZE: u16 = 512;

/// The numbers of one buffer pool.
#[derive(Clone, Copy, Debug, PartialEq, Eq, Structural)]
pub struct PbufPoolRuntimeStats {
    pub configured: u16,
    pub effective: u16,
    pub compile_capacity: u16,
    pub used: u16,
    pub max_used: u16,
    pub alloc_failures: u32,
}

/// What is said of a capacity that a stack refused with `code`.
pub open spec fn capacity_refusal(capacity: u16, code: i8) -> Seq<char> {
    if code == ERR_VAL {
        "PBUF_POOL capacity must be between "@ + text::decimal(MEMP_PBUF_POOL_RUNTIME_MIN as nat)
            + " and "@ + text::decimal(PBUF_POOL_SIZE as nat) + ", got "@ + text::decimal(
            capacity as nat,
        )
    } else if code == ERR_USE {
        "PBUF_POOL capacity must be configured before the first NetStack; restart the process to change it"@
    } else {
        "PBUF_POOL capacity configuration failed with lwIP error "@ + text::signed_decimal(
            code as int,
        )
    }
}

/// The outcome of configuring one stack that answered with `code`.
pub fn capacity_answer(capacity: u16, code: i8) -> (outcome: Result<(), Error>)
    ensures
        match outcome {
            Ok(()) => code == ERR_OK,
            Err(error) => code != ERR_OK && error.configures(capacity_refusal(capacity, code)),
        },
{
    if code == ERR_OK {
        return Ok(());
    }
    if code == ERR_VAL {
        let mut message = "PBUF_POOL capacity must be between ".to_owned();
        append_decimal(&mut message, MEMP_PBUF_POOL_RUNTIME_MIN as u64);
        message.append(" and ");
        append_decimal(&mut message, PBUF_POOL_SIZE as u64);
        message.append(", got ");
        append_decimal(&mut message, capacity as u64);
        return Err(Error::RuntimeConfig(message));
    }
    if code == ERR_USE {
        return Err(
            Error::RuntimeConfig(
                "PBUF_POOL capacity must be configured before the first NetStack; restart the process to change it".to_owned(),
            ),
        );
    }
    let mut message = "PBUF_POOL capacity configuration failed with lwIP error ".to_owned();
    append_signed(&mut message, code);
    Err(Error::RuntimeConfig(message))
}

/// Configures the buffer pools of all stacks alike, in order, and stops at the
/// first that refuses: no stack is asked before all earlier ones agreed. `set` asks
/// one stack for a capacity and returns its answer.
pub fn configure_pbuf_pool_capacity<Ask: Fn(usize, u16) -> i8>(
    capacity: u16,
    set: Ask,
) -> (outcome: Result<(), Error>)
    requires
        forall|id: usize|
            id < SHARD_COUNT && (forall|earlier: usize|
                earlier < id ==> #[trigger] call_ensures(set, (earlier, capacity), ERR_OK))
                ==> #[trigger] call_requires(set, (id, capacity)),
    ensures
        outcome is Ok ==> {
            &&& call_ensures(set, (0usize, capacity), ERR_OK)
            &&& call_ensures(set, (1usize, capacity), ERR_OK)
            &&& call_ensures(set, (2usize, capacity), ERR_OK)
            &&& call_ensures(set, (3usize, capacity), ERR_OK)
        },
        match outcome {
            Ok(()) => forall|id: usize|
                id < SHARD_COUNT ==> #[trigger] call_ensures(set, (id, capacity), ERR_OK),
            Err(error) => exists|id: usize, code: i8|
                {
                    &&& id < SHARD_COUNT
                    &&& code != ERR_OK
                    &&& #[trigger] call_ensures(set, (id, capacity), code)
                    &&& forall|earlier: usize|
                        earlier < id ==> #[trigger] call_ensures(set, (earlier, capacity), ERR_OK)
                    &&& error.configures(capacity_refusal(capacity, code))
                },
        },
{
    let mut id: usize = 0;
    while id < SHARD_COUNT
        invariant
            id <= SHARD_COUNT,
            forall|k: usize|
                k < SHARD_COUNT && (forall|earlier: usize|
                    earlier < k ==> #[trigger] call_ensures(set, (earlier, capacity), ERR_OK))
                    ==> #[trigger] call_requires(set, (k, capacity)),
            forall|k: usize| k < id ==> #[trigger] call_ensures(set, (k, capacity), ERR_OK),
        decreases SHARD_COUNT - id,
    {
        let code: i8 = set(id, capacity);
        match capacity_answer(capacity, code) {
            Ok(()) => {},
            Err(error) => {
                return Err(error);
            },
        }
        id = id + 1;
    }
    Ok(())
}

/// The numbers of the primary stack's pool. `read` asks one stack for its numbers.
pub fn pbuf_pool_runtime_stats<Read: Fn(usize) -> PbufPoolRuntimeStats>(
    read: Read,
) -> (stats: PbufPoolRuntimeStats)
    requires
        call_requires(read, (0usize,)),
    ensures
        call_ensures(read, (0usize,), stats),
{
    read(0)
}

/// The numbers of one stack's pool; `None` where there is no such stack.
pub fn pbuf_pool_runtime_stats_sharded<Read: Fn(usize) -> PbufPoolRuntimeStats>(
    shard_id: usize,
    read: Read,
) -> (stats: Option<PbufPoolRuntimeStats>)
    requires
        shard_id < SHARD_COUNT ==> call_requires(read, (shard_id,)),
    ensures
        match stats {
            Some(stats) => shard_id < SHARD_COUNT && call_ensures(read, (shard_id,), stats),
            None => shard_id >= SHARD_COUNT,
        },
{
    if shard_id < SHARD_COUNT {
        Some(read(shard_id))
    } else {
        None
    }
}

} // verus!
