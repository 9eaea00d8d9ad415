//! Block devices that a file system reads from.

use vstd::prelude::*;

verus! {

/// A device made of fixed-size blocks.
pub trait BlockDevice {
    /// Size in bytes of one block. A device that does not say leaves it an
    /// unknown function of the device.
    closed spec fn spec_block_size(&self) -> nat {
        vstd::pervasive::arbitrary::<spec_fn(&Self) -> nat>()(self)
    }

    /// The bytes of block `n`. A device that does not say leaves them an
    /// unknown function of the device and the block number.
    closed spec fn spec_block(&self, n: u64) -> Seq<u8> {
        vstd::pervasive::arbitrary::<spec_fn(&Self, u64) -> Seq<u8>>()(self, n)
    }

    fn block_size(&self) -> (r: usize)
        ensures
            r == self.spec_block_size(),
    ;

    /// Reads block `block_num` into the start of `buf`; the rest of `buf`
    /// is left as it is.
    fn read_block(&self, block_num: u64, buf: &mut Vec<u8>) -> (r: Result<(), ()>)
        ensures
            final(buf)@.len() == old(buf)@.len(),
            r is Ok ==> {
                &&& self.spec_block(block_num).len() == self.spec_block_size()
                &&& self.spec_block_size() <= old(buf)@.len()
                &&& final(buf)@ == self.spec_block(block_num) + old(buf)@.subrange(
                    self.spec_block_size() as int,
                    old(buf)@.len() as int,
                )
            },
    ;

    /// Writes the first block-size bytes of `buf` to block `block_num`.
    fn write_block(&mut self, block_num: u64, buf: &Vec<u8>) -> (r: Result<(), ()>);
}

/// Bytes in `count` blocks of `dev`.
pub open spec fn blocks_len<D: BlockDevice>(dev: &D, count: usize) -> nat {
    count as nat * dev.spec_block_size()
}

/// The bytes of blocks `start .. start + count` of `dev`, one after another.
pub open spec fn blocks<D: BlockDevice>(dev: &D, start: int, count: nat) -> Seq<u8>
    decreases count,
{
    if count == 0 {
        Seq::empty()
    } else {
        blocks(dev, start, (count - 1) as nat) + dev.spec_block((start + count - 1) as u64)
    }
}

/// Reads `count` consecutive blocks from `start_block` into the start of
/// `buf`; the rest of `buf` is left as it is. Fails when `buf` is too
/// short, when a block number passes `u64::MAX`, or when a read fails.
/// Reading no blocks always succeeds; otherwise whether each block read
/// succeeds is up to the device.
pub fn read_blocks<D: BlockDevice>(dev: &D, start_block: u64, count: usize, buf: &mut Vec<u8>) -> (r: Result<(), ()>)
    ensures
        final(buf)@.len() == old(buf)@.len(),
        count == 0 ==> r is Ok,
        r is Ok && count > 0 ==> {
            &&& blocks_len(dev, count) <= usize::MAX
            &&& start_block + count <= u64::MAX + 1
        },
        r is Ok ==> {
            let n = blocks_len(dev, count);
            &&& n <= old(buf)@.len()
            &&& final(buf)@ == blocks(dev, start_block as int, count as nat) + old(
                buf,
            )@.subrange(n as int, old(buf)@.len() as int)
        },
{
    if count == 0 {
        proof {
            assert(Seq::<u8>::empty() + old(buf)@.subrange(0, old(buf)@.len() as int) =~= old(
                buf,
            )@);
        }
        return Ok(());
    }
    let block_size = dev.block_size();
    let total = match count.checked_mul(block_size) {
        Some(t) => t,
        None => return Err(()),
    };
    if buf.len() < total {
        return Err(());
    }
    let mut tmp: Vec<u8> = Vec::new();
    let mut k: usize = 0;
    while k < block_size
        invariant
            k <= block_size,
            tmp@.len() == k,
        decreases block_size - k,
    {
        tmp.push(0);
        k = k + 1;
    }
    let mut i: usize = 0;
    while i < count
        invariant
            i <= count,
            total == count * block_size,
            block_size == dev.spec_block_size(),
            total <= buf@.len(),
            buf@.len() == old(buf)@.len(),
            buf@.len() <= usize::MAX,
            tmp@.len() == block_size,
            i * block_size <= total,
            start_block + i <= u64::MAX + 1,
            buf@.subrange(0, i * block_size) == blocks(dev, start_block as int, i as nat),
            buf@.subrange(i * block_size, buf@.len() as int) == old(buf)@.subrange(
                i * block_size,
                old(buf)@.len() as int,
            ),
        decreases count - i,
    {
        let lba = match start_block.checked_add(i as u64) {
            Some(l) => l,
            None => return Err(()),
        };
        let ghost before = buf@;
        proof {
            vstd::arithmetic::mul::lemma_mul_is_distributive_add_other_way(
                block_size as int,
                i as int,
                1,
            );
            vstd::arithmetic::mul::lemma_mul_inequality(i + 1, count as int, block_size as int);
        }
        if dev.read_block(lba, &mut tmp).is_err() {
            return Err(());
        }
        let begin = i * block_size;
        let mut j: usize = 0;
        while j < block_size
            invariant
                j <= block_size,
                begin + block_size <= buf@.len(),
                buf@.len() <= usize::MAX,
                buf@.len() == before.len(),
                tmp@.len() == block_size,
                buf@.subrange(0, begin as int) == before.subrange(0, begin as int),
                buf@.subrange(begin + block_size, buf@.len() as int) == before.subrange(
                    begin + block_size,
                    before.len() as int,
                ),
                forall|m: int| 0 <= m < j ==> #[trigger] buf@[begin + m] == tmp@[m],
            decreases block_size - j,
        {
            buf.set(begin + j, tmp[j]);
            j = j + 1;
        }
        proof {
            assert((i + 1) * block_size == begin + block_size);
            assert(dev.spec_block(lba) =~= tmp@.subrange(0, block_size as int));
            assert forall|m: int| begin <= m < begin + block_size implies buf@[m]
                == dev.spec_block(lba)[m - begin] by {
                assert(buf@[begin + (m - begin)] == tmp@[m - begin]);
            }
            assert forall|m: int| (i + 1) * block_size <= m < buf@.len() implies buf@[m] == old(
                buf,
            )@[m] by {
                assert(buf@[m] == buf@.subrange(begin + block_size, buf@.len() as int)[m - (begin
                    + block_size)]);
                assert(before[m] == before.subrange(i * block_size, before.len() as int)[m - i
                    * block_size]);
            }
            assert(buf@.subrange(0, (i + 1) * block_size) =~= buf@.subrange(0, begin as int)
                + dev.spec_block(lba));
            assert(blocks(dev, start_block as int, (i + 1) as nat) == blocks(
                dev,
                start_block as int,
                i as nat,
            ) + dev.spec_block((start_block + i) as u64));
            assert(before.subrange(0, begin as int) =~= before.subrange(0, i * block_size));
            assert(buf@.subrange((i + 1) * block_size, buf@.len() as int) =~= old(
                buf,
            )@.subrange((i + 1) * block_size, old(buf)@.len() as int));
        }
        i = i + 1;
    }
    proof {
        assert(buf@ =~= buf@.subrange(0, total as int) + buf@.subrange(
            total as int,
            buf@.len() as int,
        ));
    }
    Ok(())
}

} // verus!
