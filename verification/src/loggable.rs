//! What can be logged, and how logged messages are found again.
use vstd::prelude::*;

use crate::forwarded_message::ForwardedMessage;
use crate::message::{Message, MessageHeader};
use crate::time::FrameworkTime;

verus! {

#[derive(Debug)]
pub enum SerializeError {
    IoError(String),
    SerdeJson(String),
}

impl SerializeError {
    /// The error as a message.
    pub open spec fn text(self) -> Seq<char> {
        match self {
            SerializeError::IoError(e) => "IoError: "@ + e@,
            SerializeError::SerdeJson(e) => "SerdeJson: "@ + e@,
        }
    }

    pub fn to_string(&self) -> (r: String)
        ensures
            r@ == self.text(),
    {
        match self {
            SerializeError::IoError(e) => {
                let mut text = "IoError: ".to_owned();
                text.append(e.as_str());
                text
            },
            SerializeError::SerdeJson(e) => {
                let mut text = "SerdeJson: ".to_owned();
                text.append(e.as_str());
                text
            },
        }
    }
}

#[derive(Debug)]
pub enum DeserializeError {
    MismatchedSize { actual: usize, expected: usize },
    MissingForwardedMessage,
    SerdeJson(String),
}

impl DeserializeError {
    /// The error as a message.
    pub fn to_string(&self) -> (r: String)
        ensures
            r@ == match *self {
                DeserializeError::MismatchedSize { actual, expected } =>
                "MismatchedSize: actual("@ + crate::text::decimal(actual as nat)
                    + ") vs expected("@ + crate::text::decimal(expected as nat) + ")"@,
                DeserializeError::MissingForwardedMessage => "MissingForwardedMessage"@,
                DeserializeError::SerdeJson(e) => "SerdeJson: "@ + e@,
            },
    {
        match self {
            DeserializeError::MismatchedSize { actual, expected } => {
                let mut text = "MismatchedSize: actual(".to_owned();
                crate::text::push_usize(&mut text, *actual);
                text.append(") vs expected(");
                crate::text::push_usize(&mut text, *expected);
                text.append(")");
                text
            },
            DeserializeError::MissingForwardedMessage => "MissingForwardedMessage".to_owned(),
            DeserializeError::SerdeJson(e) => {
                let mut text = "SerdeJson: ".to_owned();
                text.append(e.as_str());
                text
            },
        }
    }
}

/// A payload type that can be written to a log and read back.
pub trait Loggable: Sized {
    /// The number that identifies the type.
    spec fn tag() -> u64;

    fn value_type() -> (r: u64)
        ensures
            r == Self::tag(),
    ;

    /// Which bytes may follow `before` when the value is written, and what may
    /// come of it.
    spec fn writes(
        &self,
        before: Seq<u8>,
        after: Seq<u8>,
        r: Result<(), SerializeError>,
    ) -> bool;

    fn serialize(&self, w: &mut Vec<u8>) -> (r: Result<(), SerializeError>)
        ensures
            self.writes(old(w)@, final(w)@, r),
    ;

    /// What may come of reading the value back from bytes.
    spec fn reads(bytes: Seq<u8>, r: Result<Self, DeserializeError>) -> bool;

    fn deserialize(bytes: &[u8]) -> (r: Result<Self, DeserializeError>)
        ensures
            Self::reads(bytes@, r),
    ;
}

/// Allows lookup of a message from the log of one channel.
pub trait MessageLog<T> {
    /// What the log has for a header.
    spec fn finds(&self, header: MessageHeader) -> Option<Message<T>>;

    fn lookup(&self, header: &MessageHeader) -> (r: Option<&Message<T>>)
        ensures
            r is Some <==> self.finds(*header) is Some,
            r matches Some(message) ==> self.finds(*header) == Some(*message),
    ;
}

/// The first message that was published at `time`.
pub open spec fn first_at<F>(messages: Seq<Message<F>>, time: FrameworkTime) -> Option<Message<F>>
    decreases messages.len(),
{
    if messages.len() == 0 {
        None
    } else {
        match first_at(messages.drop_last(), time) {
            Some(message) => Some(message),
            None => if messages.last().header.published_at == time {
                Some(messages.last())
            } else {
                None
            },
        }
    }
}

/// An owned, header-indexed log of messages from one channel.
///
/// Used by replay to resolve the payload that a forwarded message refers to:
/// its serialized body only carries the header of what it forwards.
#[derive(Debug)]
pub struct ReplayMessageLog<F> {
    pub messages: Vec<Message<F>>,
}

impl<F> ReplayMessageLog<F> {
    pub fn new(messages: Vec<Message<F>>) -> (r: Self)
        ensures
            r.messages == messages,
    {
        ReplayMessageLog { messages }
    }
}

proof fn lemma_first_at_prefix<F>(messages: Seq<Message<F>>, time: FrameworkTime, k: int, n: int)
    requires
        0 <= k <= n <= messages.len(),
        first_at(messages.take(k), time) is Some,
    ensures
        first_at(messages.take(n), time) == first_at(messages.take(k), time),
    decreases n,
{
    if k < n {
        lemma_first_at_prefix(messages, time, k, n - 1);
        assert(messages.take(n).drop_last() =~= messages.take(n - 1));
    }
}

impl<F> MessageLog<F> for ReplayMessageLog<F> {
    open spec fn finds(&self, header: MessageHeader) -> Option<Message<F>> {
        first_at(self.messages@, header.published_at)
    }

    fn lookup(&self, header: &MessageHeader) -> (r: Option<&Message<F>>) {
        let ghost all = self.messages@;
        let ghost time = header.published_at;
        assert(all.take(all.len() as int) =~= all);
        let mut i: usize = 0;
        assert(all.take(0) =~= Seq::empty());
        while i < self.messages.len()
            invariant
                i <= self.messages@.len(),
                all == self.messages@,
                all.take(all.len() as int) == all,
                time == header.published_at,
                first_at(all.take(i as int), time) is None,
            decreases self.messages@.len() - i,
        {
            assert(all.take(i + 1).drop_last() =~= all.take(i as int));
            if self.messages[i].header.published_at == header.published_at {
                proof {
                    lemma_first_at_prefix(all, time, i + 1, all.len() as int);
                }
                return Some(&self.messages[i]);
            }
            i = i + 1;
        }
        None
    }
}

/// The source channel's messages, handed to what reads forwarded messages
/// back.
pub struct ForwardedMessageContext<T> {
    pub messages: Vec<(MessageHeader, T)>,
    /// The payload type of the messages.
    pub value_type: u64,
}

impl<T> ForwardedMessageContext<T> {
    pub fn new(messages: Vec<(MessageHeader, T)>, value_type: u64) -> (r: Self)
        ensures
            r.messages == messages,
            r.value_type == value_type,
    {
        ForwardedMessageContext { messages, value_type }
    }
}

impl<T: Clone> ForwardedMessageContext<T> {
    /// The messages as an owned log. They have to be of the asked type.
    pub fn to_log(&self, value_type: u64) -> (r: ReplayMessageLog<T>)
        requires
            value_type == self.value_type,
        ensures
            r.messages@.len() == self.messages@.len(),
            forall|i: int|
                0 <= i < r.messages@.len() ==> (#[trigger] r.messages@[i]).header
                    == self.messages@[i].0 && cloned(self.messages@[i].1, r.messages@[i].message),
    {
        let mut messages: Vec<Message<T>> = Vec::new();
        let mut i: usize = 0;
        while i < self.messages.len()
            invariant
                i <= self.messages@.len(),
                messages@.len() == i,
                forall|j: int|
                    0 <= j < i ==> (#[trigger] messages@[j]).header == self.messages@[j].0
                        && cloned(self.messages@[j].1, messages@[j].message),
            decreases self.messages@.len() - i,
        {
            let message = self.messages[i].1.clone();
            messages.push(Message { header: self.messages[i].0, message });
            i = i + 1;
        }
        ReplayMessageLog { messages }
    }
}

/// Whether `i` is the first of the messages that was published at `time`.
pub open spec fn first_published<T>(
    messages: Seq<(MessageHeader, T)>,
    time: FrameworkTime,
    i: int,
) -> bool {
    &&& 0 <= i < messages.len()
    &&& messages[i].0.published_at == time
    &&& forall|j: int| 0 <= j < i ==> (#[trigger] messages[j]).0.published_at != time
}

/// Whether `b` is what cloning a clone of `a` may give.
pub open spec fn copied<T: Clone>(a: T, b: T) -> bool {
    exists|mid: T| #[trigger] cloned(a, mid) && cloned(mid, b)
}

/// What a log finds is its first message of that time.
pub(crate) proof fn lemma_first_at<F>(messages: Seq<Message<F>>, time: FrameworkTime) -> (i: int)
    ensures
        first_at(messages, time) is None ==> forall|j: int|
            0 <= j < messages.len() ==> (#[trigger] messages[j]).header.published_at != time,
        first_at(messages, time) is Some ==> 0 <= i < messages.len() && messages[i]
            == first_at(messages, time)->0 && messages[i].header.published_at == time && forall|
            j: int,
        |
            0 <= j < i ==> (#[trigger] messages[j]).header.published_at != time,
    decreases messages.len(),
{
    if messages.len() == 0 {
        0
    } else {
        let rest = messages.drop_last();
        let i = lemma_first_at(rest, time);
        assert forall|j: int| 0 <= j < rest.len() implies #[trigger] messages[j] == rest[j] by {}
        if first_at(rest, time) is Some {
            i
        } else {
            messages.len() - 1
        }
    }
}

/// Puts a forwarded message together again from what its log holds: its extra
/// data, and the header of the message that it forwards. That message is
/// looked up in the log of its own channel.
pub fn resolve_forwarded<UserData, ForwardedData: Clone, L: MessageLog<ForwardedData>>(
    message: UserData,
    forwarded_message_header: MessageHeader,
    log: &L,
) -> (r: Result<ForwardedMessage<UserData, ForwardedData>, DeserializeError>)
    ensures
        r is Ok <==> log.finds(forwarded_message_header) is Some,
        r matches Err(error) ==> error is MissingForwardedMessage,
        r matches Ok(forwarded) ==> {
            let found = log.finds(forwarded_message_header)->0;
            &&& forwarded.message == message
            &&& forwarded.forwarded_message.header == found.header
            &&& cloned(found.message, forwarded.forwarded_message.message)
        },
{
    match log.lookup(&forwarded_message_header) {
        Some(found) => Ok(
            ForwardedMessage::new_boxed_forward(message, Box::new(found.clone())),
        ),
        None => Err(DeserializeError::MissingForwardedMessage),
    }
}

/// What was forwarded is found again: if the source channel's log holds the
/// message and no earlier one with its time, looking up the logged header
/// gives that message.
pub proof fn law_forwarded_message_is_found<F>(log: ReplayMessageLog<F>, i: int)
    requires
        0 <= i < log.messages@.len(),
        forall|j: int|
            0 <= j < i ==> (#[trigger] log.messages@[j]).header.published_at
                != log.messages@[i].header.published_at,
    ensures
        log.finds(log.messages@[i].header) == Some(log.messages@[i]),
{
    let all = log.messages@;
    let time = all[i].header.published_at;
    lemma_none_before(all, time, i);
    assert(all.take(i + 1).drop_last() =~= all.take(i));
    lemma_first_at_prefix(all, time, i + 1, all.len() as int);
    assert(all.take(all.len() as int) =~= all);
}

proof fn lemma_none_before<F>(messages: Seq<Message<F>>, time: FrameworkTime, n: int)
    requires
        0 <= n <= messages.len(),
        forall|j: int| 0 <= j < n ==> (#[trigger] messages[j]).header.published_at != time,
    ensures
        first_at(messages.take(n), time) is None,
    decreases n,
{
    if n > 0 {
        lemma_none_before(messages, time, n - 1);
        assert(messages.take(n).drop_last() =~= messages.take(n - 1));
    }
}

} // verus!
