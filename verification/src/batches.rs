//! Batches of in-instructions derived from external-chain blocks, and the
//! packing of instructions into size-bounded batches.

use vstd::prelude::*;
use vstd::bytes::*;

verus! {

/// The network an asset or batch belongs to.
#[derive(Clone, Copy, PartialEq, Eq, Structural, Debug, Hash)]
pub enum NetworkId {
    Serai,
    Bitcoin,
    Ethereum,
    Monero,
}

/// The hash of an external-chain block.
#[derive(Clone, Copy, PartialEq, Eq, Debug, Hash)]
pub struct BlockHash(pub [u8; 32]);

/// One instruction to mint on Serai, carried in its canonical encoded form.
#[derive(Clone, PartialEq, Eq, Debug)]
pub struct InInstruction(pub Vec<u8>);

/// A bundle of in-instructions from one external-chain block: the unit of
/// mint on Serai.
#[derive(Clone, PartialEq, Eq, Debug)]
pub struct Batch {
    pub network: NetworkId,
    pub id: u32,
    pub block: BlockHash,
    pub instructions: Vec<InInstruction>,
}

impl NetworkId {
    /// Canonical one-byte encoding.
    pub open spec fn encoded(self) -> Seq<u8> {
        match self {
            NetworkId::Serai => seq![0u8],
            NetworkId::Bitcoin => seq![1u8],
            NetworkId::Ethereum => seq![2u8],
            NetworkId::Monero => seq![3u8],
        }
    }

    /// Encode the network tag.
    pub fn encode(&self) -> (r: u8)
        ensures
            seq![r] == self.encoded(),
    {
        match self {
            NetworkId::Serai => 0,
            NetworkId::Bitcoin => 1,
            NetworkId::Ethereum => 2,
            NetworkId::Monero => 3,
        }
    }
}

/// The compact length prefix used by the batch encoding: one byte below 64,
/// two bytes below 2^14, else four bytes.
pub open spec fn spec_compact_len(n: nat) -> nat {
    if n < 64 {
        1
    } else if n < 16384 {
        2
    } else {
        4
    }
}

impl Batch {
    /// The length in bytes of this batch's canonical encoding: the network
    /// tag, the batch id, the block hash, a compact count of the
    /// instructions, then each instruction's own encoding.
    pub open spec fn encoded_len(self) -> nat {
        1 + 4 + 32 + spec_compact_len(self.instructions@.len()) + Self::instructions_len(
            self.instructions@,
        )
    }

    /// The encoded length of a sequence of already-encoded instructions.
    pub open spec fn instructions_len(s: Seq<InInstruction>) -> nat
        decreases s.len(),
    {
        if s.len() == 0 {
            0
        } else {
            Self::instructions_len(s.drop_last()) + s.last().0@.len()
        }
    }
}

/// Compute the compact length prefix size for a count below 2^30.
pub fn compact_len(n: usize) -> (r: usize)
    requires
        n < 0x4000_0000,
    ensures
        r == spec_compact_len(n as nat),
{
    if n < 64 {
        1
    } else if n < 16384 {
        2
    } else {
        4
    }
}

/// A batch's encoding may not exceed this many bytes.
pub const MAX_BATCH_SIZE: usize = 25_000;

/// Appending an instruction adds its bytes to the encoded length of the
/// list.
proof fn lemma_instructions_len_push(s: Seq<InInstruction>, x: InInstruction)
    ensures
        Batch::instructions_len(s.push(x)) == Batch::instructions_len(s) + x.0@.len(),
{
    assert(s.push(x).drop_last() =~= s);
    assert(s.push(x).last() == x);
}

/// The encoded length of a list decomposes at its front.
proof fn lemma_instructions_len_front(s: Seq<InInstruction>)
    requires
        s.len() > 0,
    ensures
        Batch::instructions_len(s) == s[0].0@.len() + Batch::instructions_len(s.skip(1)),
    decreases s.len(),
{
    if s.len() == 1 {
        assert(s.drop_last() =~= Seq::<InInstruction>::empty());
        assert(s.skip(1) =~= Seq::<InInstruction>::empty());
        assert(Batch::instructions_len(s.drop_last()) == 0);
        assert(Batch::instructions_len(s.skip(1)) == 0);
    } else {
        lemma_instructions_len_front(s.drop_last());
        assert(s.drop_last()[0] == s[0]);
        assert(s.skip(1).drop_last() =~= s.drop_last().skip(1));
        assert(s.skip(1).last() == s.last());
    }
}

/// Dropping the last instruction removes its bytes.
proof fn lemma_instructions_len_drop_last(s: Seq<InInstruction>)
    requires
        s.len() > 0,
    ensures
        Batch::instructions_len(s.drop_last()) == Batch::instructions_len(s)
            - s.last().0@.len(),
{
}

/// Compute a batch's encoded length.
pub fn batch_encoded_len(b: &Batch) -> (r: usize)
    requires
        b.instructions@.len() < 0x4000_0000,
        Batch::instructions_len(b.instructions@) <= 0x4000_0000,
    ensures
        r == b.encoded_len(),
{
    let n = b.instructions.len();
    let mut sum: usize = 0;
    let mut i: usize = 0;
    proof {
        assert(b.instructions@.take(0) =~= Seq::<InInstruction>::empty());
    }
    while i < n
        invariant
            n == b.instructions@.len(),
            i <= n,
            sum == Batch::instructions_len(b.instructions@.take(i as int)),
            Batch::instructions_len(b.instructions@) <= 0x4000_0000,
        decreases n - i,
    {
        proof {
            assert(b.instructions@.take(i + 1 as int).drop_last() =~= b.instructions@.take(
                i as int,
            ));
            assert(b.instructions@.take(i + 1 as int).last() == b.instructions@[i as int]);
            lemma_instructions_len_take_le(b.instructions@, i + 1);
        }
        sum = sum + b.instructions[i].0.len();
        i += 1;
    }
    proof {
        assert(b.instructions@.take(n as int) =~= b.instructions@);
    }
    let prefix = compact_len(n);
    37 + prefix + sum
}

/// The encoded length of a prefix never exceeds the whole list's.
proof fn lemma_instructions_len_take_le(s: Seq<InInstruction>, i: int)
    requires
        0 <= i <= s.len(),
    ensures
        Batch::instructions_len(s.take(i)) <= Batch::instructions_len(s),
    decreases s.len() - i,
{
    if i < s.len() {
        assert(s.take(i + 1).drop_last() =~= s.take(i));
        assert(s.take(i + 1).last() == s[i]);
        lemma_instructions_len_take_le(s, i + 1);
    } else {
        assert(s.take(i) =~= s);
    }
}

/// The instructions of a list of batches, in order.
pub open spec fn batches_instructions(bs: Seq<Batch>) -> Seq<InInstruction>
    decreases bs.len(),
{
    if bs.len() == 0 {
        Seq::empty()
    } else {
        batches_instructions(bs.drop_last()) + bs.last().instructions@
    }
}

/// Pack sorted instructions into batches: the first takes the given id and
/// later ones count up, all for the same block; an instruction that would
/// push a batch past the size cap opens the next batch instead.
///
/// The batches carry exactly the input instructions in order, and every
/// batch fits the cap unless a single oversized instruction forces a batch
/// of its own.
pub fn build_batches(
    network: NetworkId,
    first_id: u32,
    block: BlockHash,
    instructions: Vec<InInstruction>,
) -> (r: Vec<Batch>)
    requires
        first_id + instructions@.len() < 0xffff_ffff,
        instructions@.len() < 0x0100_0000,
        Batch::instructions_len(instructions@) <= 0x4000_0000,
    ensures
        r@.len() >= 1,
        r@.len() <= instructions@.len() + 1,
        forall|j: int|
            0 <= j < r@.len() ==> {
                &&& (#[trigger] r@[j]).network == network
                &&& r@[j].block == block
                &&& r@[j].id as int == first_id + j
                &&& (r@[j].encoded_len() <= MAX_BATCH_SIZE || r@[j].instructions@.len() == 1)
            },
        batches_instructions(r@) == instructions@,
        // Only the very first batch can come out empty, and only when an
        // oversized opening instruction forced a batch of its own: when the
        // opening instruction alone fits the cap, no batch is empty.
        forall|j: int|
            0 <= j < r@.len() && (#[trigger] r@[j]).instructions@.len() == 0 ==> j == 0,
        instructions@.len() > 0 && r@.len() == 1 ==> r@[0].instructions@.len() > 0,
        (instructions@.len() > 0 && 38 + instructions@[0].0@.len() <= MAX_BATCH_SIZE) ==> forall|
            j: int,
        | 0 <= j < r@.len() ==> (#[trigger] r@[j]).instructions@.len() > 0,
{
    let ghost orig = instructions@;
    let mut remaining = instructions;
    let mut finished: Vec<Batch> = Vec::new();
    let mut current = Batch { network, id: first_id, block, instructions: Vec::new() };
    proof {
        assert(batches_instructions(finished@) =~= Seq::<InInstruction>::empty());
        assert(batches_instructions(finished@) + current.instructions@ + remaining@ =~= orig);
        assert(current.instructions@.take(0) =~= current.instructions@);
        assert(current.encoded_len() == 38);
    }
    while remaining.len() > 0
        invariant
            batches_instructions(finished@) + current.instructions@ + remaining@ == orig,
            Batch::instructions_len(current.instructions@) + Batch::instructions_len(remaining@)
                <= Batch::instructions_len(orig),
            Batch::instructions_len(orig) <= 0x4000_0000,
            current.instructions@.len() + remaining@.len() <= orig.len(),
            orig.len() < 0x0100_0000,
            first_id + orig.len() < 0xffff_ffff,
            current.network == network,
            current.block == block,
            current.id as int == first_id + finished@.len(),
            current.encoded_len() <= MAX_BATCH_SIZE || current.instructions@.len() == 1,
            forall|j: int|
                0 <= j < finished@.len() ==> {
                    &&& (#[trigger] finished@[j]).network == network
                    &&& finished@[j].block == block
                    &&& finished@[j].id as int == first_id + j
                    &&& (finished@[j].encoded_len() <= MAX_BATCH_SIZE
                        || finished@[j].instructions@.len() == 1)
                },
            finished@.len() + remaining@.len() <= orig.len(),
            forall|j: int|
                0 <= j < finished@.len() && (#[trigger] finished@[j]).instructions@.len() == 0
                    ==> j == 0,
            current.instructions@.len() == 0 ==> finished@.len() == 0 && remaining@ == orig,
            (orig.len() > 0 && 38 + orig[0].0@.len() <= MAX_BATCH_SIZE) ==> forall|j: int|
                0 <= j < finished@.len() ==> (#[trigger] finished@[j]).instructions@.len() > 0,
        decreases remaining@.len(),
    {
        let ghost pre_rem = remaining@;
        let instr = remaining.remove(0);
        let ghost pre_current = current.instructions@;
        proof {
            // The removed instruction's bytes move from the remainder's
            // account to the current batch's.
            assert(pre_rem =~= seq![instr] + remaining@);
            lemma_instructions_len_front(pre_rem);
            assert(pre_rem[0] == instr);
            assert(pre_rem.skip(1) =~= remaining@);
            lemma_instructions_len_push(current.instructions@, instr);
        }
        current.instructions.push(instr);
        let over = batch_encoded_len(&current) > MAX_BATCH_SIZE;
        if over {
            proof {
                // A sealed batch is empty only when the very first
                // instruction alone overflows the cap.
                if pre_current.len() == 0 {
                    assert(instr == orig[0]);
                    assert(current.instructions@ =~= seq![instr]);
                    assert(Batch::instructions_len(current.instructions@) == instr.0@.len()) by {
                        assert(current.instructions@.drop_last() =~= Seq::<
                            InInstruction,
                        >::empty());
                        assert(current.instructions@.last() == instr);
                    }
                    assert(current.encoded_len() == 38 + instr.0@.len());
                }
            }
            let popped = match current.instructions.pop() {
                Some(p) => p,
                None => {
                    proof {
                        assert(false);
                    }
                    InInstruction(Vec::new())
                }
            };
            proof {
                lemma_instructions_len_drop_last(pre_current.push(popped));
                assert(current.instructions@ =~= pre_current);
            }
            let next_id = current.id + 1;
            let sealed = current;
            let mut fresh_instructions: Vec<InInstruction> = Vec::new();
            fresh_instructions.push(popped);
            current = Batch { network, id: next_id, block, instructions: fresh_instructions };
            let ghost pre_finished = finished@;
            finished.push(sealed);
            proof {
                assert(finished@.drop_last() =~= pre_finished);
                assert(finished@.last() == sealed);
                assert(batches_instructions(finished@) =~= batches_instructions(pre_finished)
                    + sealed.instructions@);
                assert(batches_instructions(finished@) + current.instructions@ + remaining@
                    =~= orig);
                lemma_instructions_len_push(pre_current, popped);
                lemma_instructions_len_push(Seq::<InInstruction>::empty(), popped);
                assert(current.instructions@ =~= Seq::<InInstruction>::empty().push(popped));
            }
        } else {
            proof {
                assert(batches_instructions(finished@) + current.instructions@ + remaining@
                    =~= orig);
            }
        }
    }
    let ghost pre_finished = finished@;
    let sealed = current;
    finished.push(sealed);
    proof {
        assert(finished@.drop_last() =~= pre_finished);
        assert(finished@.last() == sealed);
        assert(batches_instructions(finished@) =~= batches_instructions(pre_finished)
            + sealed.instructions@);
        assert(remaining@ =~= Seq::<InInstruction>::empty());
        assert(batches_instructions(finished@) =~= orig);
    }
    finished
}

} // verus!
