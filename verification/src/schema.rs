//! Protocol descriptions: what an interface is called and which messages it
//! has, as plain values the rest of the library can reason about.
use std::sync::Arc;
use vstd::prelude::*;
use wayland_backend::protocol::Interface as GeneratedInterface;

verus! {

/// A generated protocol table of `wayland-backend`.  It is only carried
/// through: what it says is read once, by [`crate::interfaces::describe`].
#[verifier::external_type_specification]
#[verifier::external_body]
pub struct ExGeneratedInterface(wayland_backend::protocol::Interface);

/// The type of one message argument.
#[derive(Debug, Clone, Copy, PartialEq, Eq, Structural)]
pub enum ArgumentType {
    Int,
    Uint,
    Fixed,
    Str,
    Object,
    NewId,
    Array,
    Fd,
}

/// One request or event of an interface.
pub struct MessageDesc {
    pub name: String,
    /// Whether the message ends the life of the object it is sent to.
    pub is_destructor: bool,
    pub signature: Vec<ArgumentType>,
    /// The interface of the object the message creates, where the protocol
    /// fixes it.
    pub child_interface: Option<&'static GeneratedInterface>,
}

/// An interface: the position of a message in `requests` or `events` is its
/// opcode.
pub struct InterfaceDesc {
    pub name: String,
    pub version: u32,
    pub requests: Vec<MessageDesc>,
    pub events: Vec<MessageDesc>,
}

/// What a [`MessageDesc`] says.
#[verifier::ext_equal]
pub struct MessageModel {
    pub name: Seq<char>,
    pub is_destructor: bool,
    pub signature: Seq<ArgumentType>,
    pub child_interface: Option<&'static GeneratedInterface>,
}

/// What an [`InterfaceDesc`] says.
#[verifier::ext_equal]
pub struct InterfaceModel {
    pub name: Seq<char>,
    pub version: u32,
    pub requests: Seq<MessageModel>,
    pub events: Seq<MessageModel>,
}

impl View for MessageDesc {
    type V = MessageModel;

    open spec fn view(&self) -> MessageModel {
        MessageModel {
            name: self.name@,
            is_destructor: self.is_destructor,
            signature: self.signature@,
            child_interface: self.child_interface,
        }
    }
}

impl View for InterfaceDesc {
    type V = InterfaceModel;

    open spec fn view(&self) -> InterfaceModel {
        InterfaceModel {
            name: self.name@,
            version: self.version,
            requests: self.requests@.map_values(|m: MessageDesc| m@),
            events: self.events@.map_values(|m: MessageDesc| m@),
        }
    }
}

/// Which way a message travels: requests go from the client to the host,
/// events the other way.
#[derive(Debug, Clone, Copy, PartialEq, Eq, Structural)]
pub enum Direction {
    ClientToHost,
    HostToClient,
}

impl InterfaceModel {
    /// The messages that can travel in `direction`.
    pub open spec fn messages(self, direction: Direction) -> Seq<MessageModel> {
        match direction {
            Direction::ClientToHost => self.requests,
            Direction::HostToClient => self.events,
        }
    }

    /// The message that `opcode` stands for in `direction`.
    pub open spec fn message(self, direction: Direction, opcode: u16) -> Option<MessageModel> {
        if opcode < self.messages(direction).len() {
            Some(self.messages(direction)[opcode as int])
        } else {
            None
        }
    }
}

/// The first position from `from` on at which a message called `name` stands.
pub open spec fn named_from(messages: Seq<MessageModel>, name: Seq<char>, from: int) -> Option<int>
    decreases messages.len() - from,
{
    if from >= messages.len() {
        None
    } else if messages[from].name == name {
        Some(from)
    } else {
        named_from(messages, name, from + 1)
    }
}

/// The opcode of the first message called `name`: its position.
pub open spec fn opcode_named(messages: Seq<MessageModel>, name: Seq<char>) -> Option<u16> {
    match named_from(messages, name, 0) {
        Some(i) => Some(i as u16),
        None => None,
    }
}

/// `<str as PartialEq>::eq`: two strings are equal when they hold the same
/// characters.
pub assume_specification[ <str as PartialEq>::eq ](a: &str, b: &str) -> (r: bool)
    ensures
        r == (a@ == b@),
;

/// `Arc::clone`: another handle to the same value.
#[verifier::external_body]
pub(crate) fn share<T>(a: &Arc<T>) -> (r: Arc<T>)
    ensures
        r == *a,
{
    Arc::clone(a)
}

/// Whether two strings hold the same characters.
pub(crate) fn same_text(a: &str, b: &str) -> (r: bool)
    ensures
        r == (a@ == b@),
{
    *a == *b
}

fn opcode_in(messages: &Vec<MessageDesc>, name: &str) -> (r: Option<u16>)
    ensures
        r == opcode_named(messages@.map_values(|m: MessageDesc| m@), name@),
        r matches Some(opcode) ==> opcode < messages@.len(),
{
    let ghost models = messages@.map_values(|m: MessageDesc| m@);
    let mut i: usize = 0;
    while i < messages.len()
        invariant
            i <= messages.len(),
            models == messages@.map_values(|m: MessageDesc| m@),
            named_from(models, name@, 0) == named_from(models, name@, i as int),
        decreases messages.len() - i,
    {
        if same_text(messages[i].name.as_str(), name) {
            assert(#[verifier::truncate] (i as u16) <= i) by (bit_vector);
            return Some(i as u16);
        }
        i += 1;
    }
    None
}

/// The opcode of the request called `name`: its position among the requests.
pub fn request_opcode(interface: &InterfaceDesc, name: &str) -> (r: Option<u16>)
    ensures
        r == opcode_named(interface@.requests, name@),
        r matches Some(opcode) ==> opcode < interface@.requests.len(),
{
    opcode_in(&interface.requests, name)
}

/// The opcode of the event called `name`: its position among the events.
pub fn event_opcode(interface: &InterfaceDesc, name: &str) -> (r: Option<u16>)
    ensures
        r == opcode_named(interface@.events, name@),
        r matches Some(opcode) ==> opcode < interface@.events.len(),
{
    opcode_in(&interface.events, name)
}

/// An opcode found by name stands for a message of that name, provided the
/// interface has no more messages than an opcode can tell apart.
pub proof fn lemma_opcode_named(messages: Seq<MessageModel>, name: Seq<char>)
    requires
        messages.len() <= 0x1_0000,
    ensures
        opcode_named(messages, name) matches Some(opcode) ==> opcode < messages.len()
            && messages[opcode as int].name == name,
        opcode_named(messages, name) is None ==> forall|i: int|
            0 <= i < messages.len() ==> (#[trigger] messages[i]).name != name,
{
    lemma_named_from(messages, name, 0);
}

/// [`named_from`] finds the first message of that name, if there is one.
pub proof fn lemma_named_from(messages: Seq<MessageModel>, name: Seq<char>, from: int)
    requires
        0 <= from,
    ensures
        named_from(messages, name, from) matches Some(i) ==> from <= i < messages.len()
            && messages[i].name == name,
        named_from(messages, name, from) is None ==> forall|i: int|
            from <= i < messages.len() ==> (#[trigger] messages[i]).name != name,
    decreases messages.len() - from,
{
    if from < messages.len() && messages[from].name != name {
        lemma_named_from(messages, name, from + 1);
    }
}

} // verus!
