//! The storage slot that holds the log, and its capacity lifecycle:
//! the slot is grown to an exact byte count before every append, the
//! growth is paid for out of the appender's funds, and the slot is
//! never shrunk.

use vstd::prelude::*;

use crate::errors::ContributionError;

verus! {

/// The persistently addressed byte region that holds the log. The
/// allocated capacity is `data.len()`; the encoded log occupies a
/// prefix of it, and bytes past that prefix are spare capacity whose
/// content carries no meaning. A region of length zero is one that
/// has never been initialized.
pub struct StorageSlot {
    pub data: Vec<u8>,
}

impl StorageSlot {
    /// A slot that holds nothing yet.
    pub fn empty() -> (s: StorageSlot)
        ensures
            s.data@ == Seq::<u8>::empty(),
    {
        let s = StorageSlot { data: Vec::new() };
        proof {
            assert(s.data@ =~= Seq::<u8>::empty());
        }
        s
    }
}

/// The number of bytes the slot would have to gain to reach
/// `required`: zero when it is already large enough.
pub open spec fn spec_growth(data: Seq<u8>, required: int) -> int {
    if required > data.len() {
        required - data.len()
    } else {
        0
    }
}

/// Grows the slot's allocated capacity to at least `required` bytes.
/// Each newly allocated byte costs `cost_per_byte`, drawn from
/// `funds`; the call fails with `InsufficientFunds`, changing nothing,
/// exactly when the funds cannot cover that cost. The slot never
/// shrinks, and the bytes it already held keep their values.
pub fn ensure_capacity(
    slot: &mut StorageSlot,
    required: usize,
    funds: &mut u64,
    cost_per_byte: u64,
) -> (r: Result<(), ContributionError>)
    ensures
        ({
            let growth = spec_growth(old(slot).data@, required as int);
            let cost = growth * cost_per_byte;
            &&& (r is Ok <==> cost <= *old(funds))
            &&& (r is Err ==> r == Err::<(), ContributionError>(
                ContributionError::InsufficientFunds,
            ) && final(slot).data@ == old(slot).data@ && *final(funds) == *old(funds))
            &&& (r is Ok ==> {
                &&& *final(funds) == *old(funds) - cost
                &&& final(slot).data@.len() == old(slot).data@.len() + growth
                &&& final(slot).data@.subrange(0, old(slot).data@.len() as int) == old(
                    slot,
                ).data@
            })
        }),
{
    if required <= slot.data.len() {
        proof {
            assert(spec_growth(slot.data@, required as int) == 0);
        }
        return Ok(());
    }
    let growth = required - slot.data.len();
    let cost = match (growth as u64).checked_mul(cost_per_byte) {
        Some(c) => c,
        None => {
            proof {
                assert(spec_growth(slot.data@, required as int) * cost_per_byte > u64::MAX
                    >= *funds);
            }
            return Err(ContributionError::InsufficientFunds);
        },
    };
    if cost > *funds {
        return Err(ContributionError::InsufficientFunds);
    }
    *funds = *funds - cost;
    let ghost prior = slot.data@;
    while slot.data.len() < required
        invariant
            prior.len() <= slot.data@.len() <= required,
            slot.data@.subrange(0, prior.len() as int) == prior,
        decreases required - slot.data@.len(),
    {
        slot.data.push(0);
        proof {
            assert(slot.data@.subrange(0, prior.len() as int) =~= prior);
        }
    }
    Ok(())
}

/// Overwrites the front of the slot with `content`, leaving the spare
/// capacity past it in place.
pub fn write_prefix(slot: &mut StorageSlot, content: &Vec<u8>)
    requires
        content@.len() <= old(slot).data@.len(),
    ensures
        final(slot).data@.len() == old(slot).data@.len(),
        final(slot).data@.subrange(0, content@.len() as int) == content@,
        final(slot).data@.skip(content@.len() as int) == old(slot).data@.skip(
            content@.len() as int,
        ),
{
    let mut i: usize = 0;
    while i < content.len()
        invariant
            0 <= i <= content@.len() <= slot.data@.len(),
            slot.data@.len() == old(slot).data@.len(),
            forall|k: int| 0 <= k < i ==> slot.data@[k] == content@[k],
            forall|k: int| i <= k < slot.data@.len() ==> slot.data@[k] == old(slot).data@[k],
        decreases content@.len() - i,
    {
        slot.data.set(i, content[i]);
        i = i + 1;
    }
    proof {
        assert(slot.data@.subrange(0, content@.len() as int) =~= content@);
        assert(slot.data@.skip(content@.len() as int) =~= old(slot).data@.skip(
            content@.len() as int,
        ));
    }
}

} // verus!
