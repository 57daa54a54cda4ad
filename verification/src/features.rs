//! What two nodes tell each other when they connect.
use vstd::prelude::*;

verus! {

/// The feature bit by which a node says that it must be able to exchange onion messages.
pub const ONION_MESSAGES_REQUIRED: usize = 38;

/// The feature bit by which a node says that it can exchange onion messages.
pub const ONION_MESSAGES_OPTIONAL: usize = 39;

/// The bits that a node announces, eight to a byte, the lowest bit of the first byte first.
/// Bits past the last byte are not set.
#[derive(Debug)]
pub struct InitFeatures {
    flags: Vec<u8>,
}

/// Whether bit `bit` is set in `flags`.
pub open spec fn flag_set(flags: Seq<u8>, bit: int) -> bool {
    &&& 0 <= bit < 8 * flags.len()
    &&& bit_of(flags[bit / 8], (bit % 8) as u8)
}

/// Whether bit `i` of a byte is set.
pub open spec fn bit_of(byte: u8, i: u8) -> bool {
    byte & (1u8 << i) != 0
}

impl View for InitFeatures {
    type V = Seq<u8>;

    closed spec fn view(&self) -> Seq<u8> {
        self.flags@
    }
}

impl InitFeatures {
    /// The features with no bit set.
    pub fn empty() -> (features: InitFeatures)
        ensures
            features@ == Seq::<u8>::empty(),
            forall|bit: int| !flag_set(features@, bit),
    {
        InitFeatures { flags: Vec::new() }
    }

    /// Sets the bit that says that onion messages can be exchanged, and no other.
    pub fn set_onion_messages_optional(&mut self)
        ensures
            forall|bit: int|
                #[trigger] flag_set(final(self)@, bit) == (flag_set(old(self)@, bit) || bit
                    == ONION_MESSAGES_OPTIONAL),
    {
        let ghost before = self.flags@;
        while self.flags.len() < 5
            invariant
                self.flags@.len() >= before.len(),
                self.flags@.len() <= 5 || self.flags@ == before,
                self.flags@.subrange(0, before.len() as int) == before,
                forall|i: int| before.len() <= i < self.flags@.len() ==> self.flags@[i] == 0u8,
            decreases 5 - self.flags.len(),
        {
            let ghost prev = self.flags@;
            self.flags.push(0);
            assert(self.flags@.subrange(0, before.len() as int) =~= prev.subrange(
                0,
                before.len() as int,
            ));
        }
        let ghost padded = self.flags@;
        let byte: u8 = self.flags[4];
        self.flags[4] = byte | 128;
        proof {
            lemma_bit_set(before, padded, self.flags@);
        }
    }

    /// Whether either of the two bits for onion messages is set.
    pub fn supports_onion_messages(&self) -> (supported: bool)
        ensures
            supported == (flag_set(self@, ONION_MESSAGES_REQUIRED as int) || flag_set(
                self@,
                ONION_MESSAGES_OPTIONAL as int,
            )),
    {
        if self.flags.len() < 5 {
            return false;
        }
        let byte: u8 = self.flags[4];
        assert((byte & 192 != 0) == (byte & (1u8 << 6u8) != 0 || byte & (1u8 << 7u8) != 0))
            by (bit_vector);
        byte & 192 != 0
    }
}

/// Padding with zero bytes and then setting the highest bit of the fifth byte sets that bit
/// and no other.
proof fn lemma_bit_set(before: Seq<u8>, padded: Seq<u8>, after: Seq<u8>)
    requires
        5 <= padded.len(),
        before.len() <= padded.len(),
        padded.subrange(0, before.len() as int) == before,
        forall|i: int| before.len() <= i < padded.len() ==> padded[i] == 0u8,
        after == padded.update(4, padded[4] | 128),
    ensures
        forall|bit: int|
            #[trigger] flag_set(after, bit) == (flag_set(before, bit) || bit
                == ONION_MESSAGES_OPTIONAL),
{
    assert forall|bit: int|
        #[trigger] flag_set(after, bit) == (flag_set(before, bit) || bit
            == ONION_MESSAGES_OPTIONAL) by {
        if 0 <= bit < 8 * padded.len() {
            let at = bit / 8;
            let i = (bit % 8) as u8;
            let byte = padded[at];
            assert(0 <= at < padded.len());
            assert(i < 8);
            assert((byte | 128) & (1u8 << i) != 0 <==> (byte & (1u8 << i) != 0 || i == 7))
                by (bit_vector)
                requires
                    i < 8,
            ;
            assert(0u8 & (1u8 << i) == 0) by (bit_vector);
            if at < before.len() {
                assert(byte == padded.subrange(0, before.len() as int)[at]);
            } else {
                assert(byte == 0);
            }
        }
    }
}

/// The message that opens a connection.
#[derive(Debug)]
pub struct Init {
    pub features: InitFeatures,
}

} // verus!
