//! Custom messages: what an onion carries, and the handler that awaits it.
use vstd::prelude::*;

verus! {

/// The lowest type that the contents of an onion message may have.
pub const MIN_CONTENTS_TYPE: u64 = 64;

/// The type of a [`TestCustomMessage`].
pub const CUSTOM_MESSAGE_TYPE: u64 = 4242;

/// The contents of a [`TestCustomMessage`].
pub const CUSTOM_MESSAGE_CONTENTS: [u8; 32] = [
    42, 42, 42, 42, 42, 42, 42, 42, 42, 42, 42, 42, 42, 42, 42, 42,
    42, 42, 42, 42, 42, 42, 42, 42, 42, 42, 42, 42, 42, 42, 42, 42,
];

/// What an onion message can carry.
pub trait CustomOnionMessageContents {
    /// The type that the contents are sent under. Contents that are not verified need not
    /// say.
    open spec fn spec_tlv_type(&self) -> u64 {
        arbitrary()
    }

    /// The bytes that the contents are sent as. Contents that are not verified need not say.
    open spec fn spec_contents(&self) -> Seq<u8> {
        arbitrary()
    }

    /// The type that the contents are sent under.
    fn tlv_type(&self) -> (tlv_type: u64)
        ensures
            tlv_type == self.spec_tlv_type(),
    ;

    /// Appends the contents to `w`. Contents of a type that is too low are never written.
    fn write(&self, w: &mut Vec<u8>)
        requires
            self.spec_tlv_type() >= MIN_CONTENTS_TYPE,
        ensures
            final(w)@ == old(w)@ + self.spec_contents(),
    ;
}

/// The message inside an onion.
#[derive(Clone, Debug)]
pub enum OnionMessageContents<T> {
    /// Contents that the caller defines.
    Custom(T),
}

/// Why a message could not be read.
#[derive(Clone, Copy, Debug, PartialEq, Eq, Structural)]
pub enum DecodeError {
    /// The source of the bytes failed.
    Io,
}

/// A message that is always the same.
#[derive(Clone, Copy, Debug, PartialEq, Eq, Structural)]
pub struct TestCustomMessage {}

impl CustomOnionMessageContents for TestCustomMessage {
    open spec fn spec_tlv_type(&self) -> u64 {
        CUSTOM_MESSAGE_TYPE
    }

    open spec fn spec_contents(&self) -> Seq<u8> {
        CUSTOM_MESSAGE_CONTENTS@
    }

    fn tlv_type(&self) -> (tlv_type: u64) {
        CUSTOM_MESSAGE_TYPE
    }

    fn write(&self, w: &mut Vec<u8>) {
        let contents: [u8; 32] = CUSTOM_MESSAGE_CONTENTS;
        let ghost before = w@;
        let mut i: usize = 0;
        while i < 32
            invariant
                i <= 32,
                contents == CUSTOM_MESSAGE_CONTENTS,
                w@ == before + contents@.take(i as int),
            decreases 32 - i,
        {
            w.push(contents[i]);
            i = i + 1;
            assert(contents@.take(i as int) =~= contents@.take(i - 1).push(contents@[i - 1]));
        }
        assert(contents@.take(32) =~= contents@);
    }
}

/// The message that a type stands for, if it is a known one.
pub open spec fn known_message(message_type: u64) -> Option<TestCustomMessage> {
    if message_type == CUSTOM_MESSAGE_TYPE {
        Some(TestCustomMessage {  })
    } else {
        None
    }
}

/// Whether reading a message of this type and contents is free of surprises: one that has
/// the type of a [`TestCustomMessage`] has its contents too.
pub open spec fn expected_contents(message_type: u64, contents: Seq<u8>) -> bool {
    message_type == CUSTOM_MESSAGE_TYPE ==> contents == CUSTOM_MESSAGE_CONTENTS@
}

/// Whether a message of this type and contents can be read without surprises.
pub fn has_expected_contents(message_type: u64, buffer: &[u8]) -> (expected: bool)
    ensures
        expected == expected_contents(message_type, buffer@),
{
    if message_type != CUSTOM_MESSAGE_TYPE {
        return true;
    }
    let contents: [u8; 32] = CUSTOM_MESSAGE_CONTENTS;
    if buffer.len() != 32 {
        assert(CUSTOM_MESSAGE_CONTENTS@.len() == 32);
        return false;
    }
    let mut i: usize = 0;
    while i < 32
        invariant
            i <= 32,
            buffer@.len() == 32,
            contents == CUSTOM_MESSAGE_CONTENTS,
            message_type == CUSTOM_MESSAGE_TYPE,
            forall|j: int| 0 <= j < i ==> buffer@[j] == contents@[j],
        decreases 32 - i,
    {
        if buffer[i] != contents[i] {
            assert(buffer@[i as int] != contents@[i as int]);
            return false;
        }
        i = i + 1;
    }
    assert(buffer@ =~= contents@);
    true
}

/// Counts down the messages that a node is still to receive.
#[derive(Debug)]
pub struct TestCustomMessageHandler {
    pub num_messages_expected: u16,
}

impl View for TestCustomMessageHandler {
    type V = u16;

    /// How many messages are still expected.
    open spec fn view(&self) -> u16 {
        self.num_messages_expected
    }
}

/// The counter one up, back to zero from the largest value.
pub open spec fn count_up(expected: u16) -> u16 {
    if expected == u16::MAX {
        0
    } else {
        (expected + 1) as u16
    }
}

/// The counter one down, to the largest value from zero.
pub open spec fn count_down(expected: u16) -> u16 {
    if expected == 0 {
        u16::MAX
    } else {
        (expected - 1) as u16
    }
}

impl TestCustomMessageHandler {
    /// A handler that expects nothing.
    pub fn new() -> (handler: TestCustomMessageHandler)
        ensures
            handler@ == 0,
    {
        TestCustomMessageHandler { num_messages_expected: 0 }
    }

    /// Expects one message more.
    pub fn expect_message(&mut self)
        ensures
            final(self)@ == count_up(old(self)@),
    {
        self.num_messages_expected = self.num_messages_expected.wrapping_add(1);
    }

    /// Takes a message in: one fewer is expected.
    pub fn handle_custom_message(&mut self, _msg: TestCustomMessage)
        ensures
            final(self)@ == count_down(old(self)@),
    {
        self.num_messages_expected = self.num_messages_expected.wrapping_sub(1);
    }

    /// Reads a message from all the bytes that its sender wrote. Only a
    /// [`TestCustomMessage`] is known; a message of another type is left alone.
    pub fn read_custom_message(&self, message_type: u64, buffer: &[u8]) -> (message: Result<
        Option<TestCustomMessage>,
        DecodeError,
    >)
        requires
            expected_contents(message_type, buffer@),
        ensures
            message == Ok::<Option<TestCustomMessage>, DecodeError>(known_message(message_type)),
    {
        if message_type == CUSTOM_MESSAGE_TYPE {
            return Ok(Some(TestCustomMessage {  }));
        }
        Ok(None)
    }

    /// Whether the handler may go: nothing is expected any more, or the thread is already
    /// panicking.
    pub fn may_drop(&self, panicking: bool) -> (may: bool)
        ensures
            may == (panicking || self@ == 0),
    {
        panicking || self.num_messages_expected == 0
    }
}

} // verus!
