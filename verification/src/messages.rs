//! Reading and checking STUN messages.

use crate::addr::IpAddr;
use crate::bytes::{be, law_be_is_network_order};
use crate::error::{stun_result, Error, ErrorView, StunError, StunErrorView};
use crate::text::decimal;
use ipnet::IpNet;
use stun::agent::TransactionId;
use stun::attributes::{AttrType, Attributes, RawAttribute as StunAttribute};
use stun::message::{Getter, Message as StunMessage};
use stun::xoraddr::XorMappedAddress as StunAddress;
use stun::Error as StunFailure;
use vstd::prelude::*;
use vstd::utf8::{decode_utf8, valid_utf8};

verus! {

pub const ATTR_USERNAME: u16 = 0x0006;

pub const ATTR_MESSAGE_INTEGRITY: u16 = 0x0008;

pub const ATTR_XORMAPPED_ADDRESS: u16 = 0x0020;

/// The largest response that is read.
pub const MAX_MESSAGE_SIZE: usize = 1280;

/// An attribute of a message. The length is the one the header of the attribute gives.
#[derive(Debug)]
pub struct RawAttribute {
    pub typ: u16,
    pub length: u16,
    pub value: Vec<u8>,
}

/// A STUN message: its bytes, and what they were read as.
#[derive(Debug)]
pub struct Message {
    /// The method and the class, as the header has them.
    pub typ: u16,
    /// The length of what follows the header.
    pub length: u32,
    pub transaction_id: [u8; 12],
    pub attributes: Vec<RawAttribute>,
    pub raw: Vec<u8>,
}

/// A [`RawAttribute`] with its value as a sequence.
pub struct AttributeView {
    pub typ: u16,
    pub length: u16,
    pub value: Seq<u8>,
}

/// A [`Message`] with its contents as sequences.
pub struct MessageView {
    pub typ: u16,
    pub length: u32,
    pub transaction_id: Seq<u8>,
    pub attributes: Seq<AttributeView>,
    pub raw: Seq<u8>,
}

impl View for RawAttribute {
    type V = AttributeView;

    open spec fn view(&self) -> AttributeView {
        AttributeView { typ: self.typ, length: self.length, value: self.value@ }
    }
}

impl View for Message {
    type V = MessageView;

    open spec fn view(&self) -> MessageView {
        MessageView {
            typ: self.typ,
            length: self.length,
            transaction_id: self.transaction_id@,
            attributes: self.attributes@.map_values(|a: RawAttribute| a@),
            raw: self.raw@,
        }
    }
}

/// The value of the first attribute of a type.
pub open spec fn first_value(attributes: Seq<AttributeView>, typ: u16) -> Option<Seq<u8>>
    decreases attributes.len(),
{
    if attributes.len() == 0 {
        None
    } else if attributes[0].typ == typ {
        Some(attributes[0].value)
    } else {
        first_value(attributes.drop_first(), typ)
    }
}

/// The text of the message's USERNAME attribute.
pub open spec fn username(m: MessageView) -> Result<Seq<char>, StunErrorView> {
    match first_value(m.attributes, ATTR_USERNAME) {
        None => Err(StunErrorView::AttributeNotFound),
        Some(value) => if valid_utf8(value) {
            Ok(decode_utf8(value))
        } else {
            Err(StunErrorView::Utf8(value))
        },
    }
}

impl Message {
    /// The value of the first attribute of a type.
    pub fn value_of(&self, typ: u16) -> (r: Option<&Vec<u8>>)
        ensures
            match r {
                Some(value) => first_value(self@.attributes, typ) == Some(value@),
                None => first_value(self@.attributes, typ) is None,
            },
    {
        let ghost all = self@.attributes;
        assert(all.skip(0) =~= all);
        for i in 0..self.attributes.len()
            invariant
                all == self@.attributes,
                first_value(all.skip(i as int), typ) == first_value(all, typ),
        {
            assert(all.skip(i as int).drop_first() =~= all.skip(i + 1));
            assert(all.skip(i as int)[0] == self.attributes@[i as int]@);
            if self.attributes[i].typ == typ {
                return Some(&self.attributes[i].value);
            }
        }
        assert(all.skip(self.attributes@.len() as int).len() == 0);
        None
    }
}

/// The text that `stun::textattrs::TextAttribute::get_from` makes of a USERNAME attribute with
/// this value, which must be UTF-8.
#[verifier::external_body]
fn read_username(value: &[u8]) -> (r: Result<String, StunError>)
    ensures
        match r {
            Ok(text) => valid_utf8(value@) && text@ == decode_utf8(value@),
            Err(e) => !valid_utf8(value@) && e@ == StunErrorView::Utf8(value@),
        },
{
    let (typ, value) = (AttrType(ATTR_USERNAME), value.to_vec());
    let attributes = Attributes(vec![StunAttribute { typ, value, ..Default::default() }]);
    let m = StunMessage { attributes, ..Default::default() };
    let mut text = stun::textattrs::Username::new(typ, String::new());
    match text.get_from(&m) {
        Ok(()) => Ok(text.text),
        Err(StunFailure::Utf8(e)) => Err(StunError::Utf8(e.into_bytes())),
        Err(e) => Err(StunError::Other(e.to_string())),
    }
}

/// What is said of a username that is not the expected one.
pub open spec fn mismatch_text(expected: Seq<char>, actual: Seq<char>) -> Seq<char> {
    "ErrMismatchUsername expected("@ + expected + ") actual("@ + actual + ")"@
}

/// What checking a message's username comes to.
pub open spec fn username_check(m: MessageView, expected: Seq<char>) -> Result<(), ErrorView> {
    match username(m) {
        Err(e) => Err(ErrorView::Stun(e)),
        Ok(actual) => if actual == expected {
            Ok(())
        } else {
            Err(ErrorView::Other(mismatch_text(expected, actual)))
        },
    }
}

/// Checks that an inbound message carries the expected username.
pub fn assert_inbound_username(m: &Message, expected_username: &str) -> (r: Result<(), Error>)
    ensures
        match r {
            Ok(()) => username_check(m@, expected_username@) == Ok::<(), ErrorView>(()),
            Err(e) => username_check(m@, expected_username@) == Err::<(), ErrorView>(e@),
        },
{
    let value = match m.value_of(ATTR_USERNAME) {
        Some(value) => value,
        None => {
            return Err(Error::Stun(StunError::AttributeNotFound));
        },
    };
    let username = match read_username(value.as_slice()) {
        Ok(username) => username,
        Err(e) => {
            return Err(Error::Stun(e));
        },
    };
    if username == expected_username.to_owned() {
        return Ok(());
    }
    let mut text = "ErrMismatchUsername expected(".to_owned();
    text.append(expected_username);
    text.append(") actual(");
    text.append(username.as_str());
    text.append(")");
    Err(Error::Other(text))
}

/// A length with the padding that brings it to a multiple of four.
pub open spec fn padded(length: int) -> int {
    (length + 3) / 4 * 4
}

/// The bytes that attributes take in a message, headers and padding counted in.
pub open spec fn wire_size(attributes: Seq<AttributeView>) -> int
    decreases attributes.len(),
{
    if attributes.len() == 0 {
        0
    } else {
        4 + padded(attributes[0].length as int) + wire_size(attributes.drop_first())
    }
}

/// The bytes that the attributes after the first MESSAGE-INTEGRITY take.
pub open spec fn size_after_integrity(attributes: Seq<AttributeView>) -> int
    decreases attributes.len(),
{
    if attributes.len() == 0 {
        0
    } else if attributes[0].typ == ATTR_MESSAGE_INTEGRITY {
        wire_size(attributes.drop_first())
    } else {
        size_after_integrity(attributes.drop_first())
    }
}

impl MessageView {
    /// The length covers the attributes after the integrity attribute and at least that
    /// attribute's header, and the bytes reach as far as the integrity attribute begins.
    pub open spec fn integrity_in_bounds(self) -> bool {
        let length = self.length - size_after_integrity(self.attributes);
        &&& length >= 4
        &&& length - 4 <= if self.raw.len() < 4 {
            4
        } else {
            self.raw.len() as int
        }
    }

    /// The message with its length written into the header of its bytes.
    pub open spec fn with_length_written(self) -> MessageView {
        let raw = self.raw + Seq::new(
            if self.raw.len() < 4 {
                (4 - self.raw.len()) as nat
            } else {
                0
            },
            |i: int| 0u8,
        );
        MessageView {
            raw: raw.update(2, (self.length / 0x100 % 0x100) as u8).update(
                3,
                (self.length % 0x100) as u8,
            ),
            ..self
        }
    }
}

/// Whether `stun::integrity::MessageIntegrity::check` finds the first MESSAGE-INTEGRITY attribute
/// of a message to be the one that `key` gives its bytes.
pub uninterp spec fn integrity_matches(m: MessageView, key: Seq<u8>) -> bool;

/// Checks the MESSAGE-INTEGRITY attribute with `stun::integrity::MessageIntegrity::check`. A
/// message without the attribute is refused as it is. With one, the verdict is the HMAC's, which
/// is only named here, and the length in the header of the bytes ends up written anew. The lengths
/// must be such that the bytes before the attribute can be found.
#[verifier::external_body]
fn check_integrity(m: &mut Message, key: &[u8]) -> (r: Result<(), StunError>)
    requires
        first_value(old(m)@.attributes, ATTR_MESSAGE_INTEGRITY) is Some
            ==> old(m)@.integrity_in_bounds(),
    ensures
        first_value(old(m)@.attributes, ATTR_MESSAGE_INTEGRITY) is None ==> {
            &&& r is Err && r->Err_0 is AttributeNotFound
            &&& final(m)@ == old(m)@
        },
        first_value(old(m)@.attributes, ATTR_MESSAGE_INTEGRITY) is Some ==> {
            &&& (r is Ok) == integrity_matches(old(m)@, key@)
            &&& r is Err ==> r->Err_0 is IntegrityMismatch
            &&& final(m)@ == old(m)@.with_length_written()
        },
{
    let list = m.attributes.iter().map(|a| StunAttribute {
        typ: AttrType(a.typ), length: a.length, value: a.value.clone(),
    }).collect();
    let (length, attributes, raw) = (m.length, Attributes(list), m.raw.clone());
    let mut outer = StunMessage { length, attributes, raw, ..Default::default() };
    let r = stun::integrity::MessageIntegrity(key.to_vec()).check(&mut outer);
    m.raw = outer.raw;
    r.map_err(|e| match e {
        StunFailure::ErrAttributeNotFound => StunError::AttributeNotFound,
        StunFailure::ErrIntegrityMismatch => StunError::IntegrityMismatch,
        e => StunError::Other(e.to_string()),
    })
}

/// Checks that an inbound message's integrity attribute is the one that `key` gives it.
pub fn assert_inbound_message_integrity(m: &mut Message, key: &[u8]) -> (r: Result<(), Error>)
    requires
        first_value(old(m)@.attributes, ATTR_MESSAGE_INTEGRITY) is Some
            ==> old(m)@.integrity_in_bounds(),
    ensures
        first_value(old(m)@.attributes, ATTR_MESSAGE_INTEGRITY) is None ==> {
            &&& r is Err && r->Err_0@ == ErrorView::Stun(StunErrorView::AttributeNotFound)
            &&& final(m)@ == old(m)@
        },
        first_value(old(m)@.attributes, ATTR_MESSAGE_INTEGRITY) is Some ==> {
            &&& (r is Ok) == integrity_matches(old(m)@, key@)
            &&& r is Err ==> r->Err_0@ == ErrorView::Stun(StunErrorView::IntegrityMismatch)
            &&& final(m)@ == old(m)@.with_length_written()
        },
{
    stun_result(check_integrity(m, key))
}

/// The sixteen bytes that an address is masked with: the magic cookie, then the transaction id.
pub open spec fn mask(transaction_id: Seq<u8>) -> Seq<u8> {
    seq![0x21u8, 0x12u8, 0xa4u8, 0x42u8] + transaction_id
}

/// `n` bytes of an address attribute's value from its fifth on, with the mask taken off; zero
/// where the value ends.
pub open spec fn unmasked(value: Seq<u8>, transaction_id: Seq<u8>, n: nat) -> Seq<u8> {
    Seq::new(
        n,
        |i: int|
            if 4 + i < value.len() {
                value[4 + i] ^ mask(transaction_id)[i]
            } else {
                0
            },
    )
}

/// An address as a server sees it.
#[derive(Clone, Copy, Debug, PartialEq, Eq, Structural)]
pub struct XorMappedAddress {
    pub ip: IpAddr,
    pub port: u16,
}

/// What a masked address attribute holds: two bytes for the family, two for the masked port, then
/// the masked address.
pub open spec fn unmasked_address(value: Seq<u8>, transaction_id: Seq<u8>) -> Result<
    XorMappedAddress,
    StunErrorView,
> {
    let family = be(value, 0, 2);
    let port = (be(value, 2, 2) as u16) ^ 0x2112u16;
    if value.len() <= 4 {
        Err(StunErrorView::UnexpectedEof)
    } else if family == 1 {
        if value.len() > 8 {
            Err(StunErrorView::AttributeSizeOverflow)
        } else {
            let bytes = unmasked(value, transaction_id, 4);
            Ok(XorMappedAddress { ip: IpAddr::V4(be(bytes, 0, 4) as u32), port })
        }
    } else if family == 2 {
        if value.len() > 20 {
            Err(StunErrorView::AttributeSizeOverflow)
        } else {
            let bytes = unmasked(value, transaction_id, 16);
            Ok(XorMappedAddress { ip: IpAddr::V6(be(bytes, 0, 16) as u128), port })
        }
    } else {
        Err(StunErrorView::Other("bad value "@ + decimal(family as nat)))
    }
}

/// The address of the message's XOR-MAPPED-ADDRESS attribute.
pub open spec fn mapped_address(m: MessageView) -> Result<XorMappedAddress, StunErrorView> {
    match first_value(m.attributes, ATTR_XORMAPPED_ADDRESS) {
        None => Err(StunErrorView::AttributeNotFound),
        Some(value) => unmasked_address(value, m.transaction_id),
    }
}

/// The address that `stun::xoraddr::XorMappedAddress::get_from` makes of a XOR-MAPPED-ADDRESS
/// attribute with this value, in a message with this transaction id.
#[verifier::external_body]
fn read_mapped_address(value: &[u8], transaction_id: [u8; 12]) -> (r: Result<
    XorMappedAddress,
    StunError,
>)
    ensures
        match r {
            Ok(addr) => unmasked_address(value@, transaction_id@) == Ok::<
                XorMappedAddress,
                StunErrorView,
            >(addr),
            Err(e) => unmasked_address(value@, transaction_id@) == Err::<
                XorMappedAddress,
                StunErrorView,
            >(e@),
        },
{
    let (typ, value) = (AttrType(ATTR_XORMAPPED_ADDRESS), value.to_vec());
    let attributes = Attributes(vec![StunAttribute { typ, value, ..Default::default() }]);
    let transaction_id = TransactionId(transaction_id);
    let m = StunMessage { transaction_id, attributes, ..Default::default() };
    let mut a = StunAddress::default();
    a.get_from(&m).map_err(|e| match e {
        StunFailure::ErrUnexpectedEof => StunError::UnexpectedEof,
        StunFailure::ErrAttributeSizeOverflow => StunError::AttributeSizeOverflow,
        e => StunError::Other(e.to_string()),
    })?;
    let ip = match IpNet::from(a.ip) {
        IpNet::V4(n) => IpAddr::V4(n.addr().into()),
        IpNet::V6(n) => IpAddr::V6(n.addr().into()),
    };
    Ok(XorMappedAddress { ip, port: a.port })
}

/// The address that a response says the request came from.
pub fn get_xormapped_addr(resp: &Message) -> (r: Result<XorMappedAddress, Error>)
    ensures
        match r {
            Ok(addr) => mapped_address(resp@) == Ok::<XorMappedAddress, StunErrorView>(addr),
            Err(e) => mapped_address(resp@) is Err && e@ == ErrorView::Stun(
                mapped_address(resp@)->Err_0,
            ),
        },
{
    match resp.value_of(ATTR_XORMAPPED_ADDRESS) {
        Some(value) => stun_result(read_mapped_address(value.as_slice(), resp.transaction_id)),
        None => Err(Error::Stun(StunError::AttributeNotFound)),
    }
}

/// The value of the magic cookie, which every message carries in its fifth to eighth byte.
pub const MAGIC_COOKIE: u32 = 0x2112_a442;

/// The type of an attribute whose header gives the number `n`. The number that
/// XOR-MAPPED-ADDRESS had in drafts stands for its final one.
pub open spec fn attribute_type(n: int) -> u16 {
    if n == 0x8020 {
        ATTR_XORMAPPED_ADDRESS
    } else {
        n as u16
    }
}

/// The attributes that `b` is made of, one after the other: two bytes for the type, two for the
/// length, the value, and padding to a multiple of four. There are none to be had where `b` ends
/// within one.
pub open spec fn attributes_in(b: Seq<u8>) -> Option<Seq<AttributeView>>
    decreases b.len(),
{
    let length = 0x100 * b[2] + b[3];
    if b.len() == 0 {
        Some(Seq::empty())
    } else if b.len() < 4 || b.len() < 4 + padded(length) {
        None
    } else {
        let first = AttributeView {
            typ: attribute_type(0x100 * b[0] + b[1]),
            length: length as u16,
            value: b.subrange(4, 4 + length),
        };
        match attributes_in(b.skip(4 + padded(length))) {
            Some(rest) => Some(seq![first] + rest),
            None => None,
        }
    }
}

/// The message that `raw` begins with, if it does: a header with the magic cookie, then as many
/// bytes of attributes as the header says. The two highest bits of the type are not looked at.
pub open spec fn message_in(raw: Seq<u8>) -> Option<MessageView> {
    let length = be(raw, 2, 2);
    if raw.len() < 20 || be(raw, 4, 4) != MAGIC_COOKIE || raw.len() < 20 + length {
        None
    } else {
        match attributes_in(raw.subrange(20, 20 + length)) {
            Some(attributes) => Some(
                MessageView {
                    typ: (be(raw, 0, 2) % 0x4000) as u16,
                    length: length as u32,
                    transaction_id: raw.subrange(8, 20),
                    attributes,
                    raw,
                },
            ),
            None => None,
        }
    }
}

/// The error of `stun::message::Message::decode` where `raw` holds no message.
pub uninterp spec fn decode_failure(raw: Seq<u8>) -> StunErrorView;

/// Reads a message with `stun::message::Message::decode`: the one that the bytes begin with, or an
/// error exactly where there is none. Fewer bytes than a header are refused as such; what the
/// other errors say is only named here.
#[verifier::external_body]
fn decode(raw: &[u8]) -> (r: Result<Message, StunError>)
    ensures
        match r {
            Ok(m) => message_in(raw@) == Some(m@),
            Err(e) => message_in(raw@) is None && e@ == decode_failure(raw@),
        },
        r matches Err(e) ==> if raw@.len() < 20 {
            e@ is UnexpectedHeaderEof
        } else {
            e@ is Other
        },
{
    let mut m = StunMessage::new();
    m.raw = raw.to_vec();
    match m.decode() {
        Ok(()) => Ok(Message {
            typ: m.typ.value(), length: m.length, transaction_id: m.transaction_id.0, raw: m.raw,
            attributes: m.attributes.0.into_iter().map(|a| RawAttribute {
                typ: a.typ.0, length: a.length, value: a.value,
            }).collect(),
        }),
        Err(StunFailure::ErrUnexpectedHeaderEof) => Err(StunError::UnexpectedHeaderEof),
        Err(e) => Err(StunError::Other(e.to_string())),
    }
}

/// The bytes of a binding request: the type, no attributes, the magic cookie and the transaction
/// id.
pub open spec fn request_bytes(transaction_id: Seq<u8>) -> Seq<u8> {
    seq![0u8, 1u8, 0u8, 0u8, 0x21u8, 0x12u8, 0xa4u8, 0x42u8] + transaction_id
}

/// The bytes that `stun::message::Message::build` gives a binding request with a transaction id.
#[verifier::external_body]
fn build_binding_request(transaction_id: [u8; 12]) -> (r: Result<Vec<u8>, StunError>)
    ensures
        r is Ok,
        r->Ok_0@ == request_bytes(transaction_id@),
{
    let mut request = StunMessage::new();
    match request.build(&[
        Box::new(stun::message::BINDING_REQUEST),
        Box::new(TransactionId(transaction_id)),
    ]) {
        Ok(()) => Ok(request.raw),
        Err(e) => Err(StunError::Other(e.to_string())),
    }
}

/// A transaction id from `stun::agent::TransactionId::new`, which draws it at random: any twelve
/// bytes may come.
#[verifier::external_body]
fn random_transaction_id() -> (r: [u8; 12]) {
    TransactionId::new().0
}

/// A binding request to send, and whether the response is waited for only so long.
#[derive(Debug)]
pub struct StunRequest {
    pub bytes: Vec<u8>,
    pub limited: bool,
}

/// The binding request with a given transaction id. A deadline of zero is none.
pub fn binding_request(transaction_id: [u8; 12], deadline_nanos: u128) -> (r: Result<
    StunRequest,
    Error,
>)
    ensures
        r is Ok,
        r->Ok_0.bytes@ == request_bytes(transaction_id@),
        r->Ok_0.limited == (deadline_nanos > 0),
{
    match build_binding_request(transaction_id) {
        Ok(bytes) => Ok(StunRequest { bytes, limited: deadline_nanos > 0 }),
        Err(e) => Err(Error::Stun(e)),
    }
}

/// A binding request with a fresh transaction id. A deadline of zero is none.
pub fn stun_request(deadline_nanos: u128) -> (r: Result<StunRequest, Error>)
    ensures
        r is Ok,
        exists|id: [u8; 12]| r->Ok_0.bytes@ == #[trigger] request_bytes(id@),
        r->Ok_0.limited == (deadline_nanos > 0),
{
    binding_request(random_transaction_id(), deadline_nanos)
}

/// What came of waiting for a response.
#[derive(Debug)]
pub enum Reply {
    /// This many bytes were written to the front of the buffer.
    Received(usize),
    /// Receiving failed; the text says how.
    Failed(String),
    /// Receiving failed while the time for it was limited; the text says how.
    FailedInTime(String),
    /// Nothing came in time; the text says so.
    TimedOut(String),
}

/// The message that a response holds, if one came.
pub fn stun_response(buf: &[u8], reply: Reply) -> (r: Result<Message, Error>)
    requires
        reply matches Reply::Received(n) ==> n <= buf@.len(),
    ensures
        match reply {
            Reply::Received(n) => match r {
                Ok(m) => {
                    &&& message_in(buf@.take(n as int)) == Some(m@)
                    &&& m.raw@ == buf@.take(n as int)
                    &&& m.transaction_id@ == buf@.subrange(8, 20)
                },
                Err(e) => {
                    &&& message_in(buf@.take(n as int)) is None
                    &&& e@ == ErrorView::Stun(decode_failure(buf@.take(n as int)))
                    &&& if n < 20 {
                        e@ == ErrorView::Stun(StunErrorView::UnexpectedHeaderEof)
                    } else {
                        e@->Stun_0 is Other
                    }
                },
            },
            Reply::Failed(text) => r is Err && r->Err_0@ == ErrorView::Util(text@),
            Reply::FailedInTime(text) => r is Err && r->Err_0@ == ErrorView::Other(text@),
            Reply::TimedOut(text) => r is Err && r->Err_0@ == ErrorView::Other(text@),
        },
{
    match reply {
        Reply::Received(n) => {
            let raw = vstd::slice::slice_subrange(buf, 0, n);
            assert(raw@ =~= buf@.take(n as int));
            assert(n >= 20 ==> raw@.subrange(8, 20) =~= buf@.subrange(8, 20));
            stun_result(decode(raw))
        },
        Reply::Failed(text) => Err(Error::Util(text)),
        Reply::FailedInTime(text) => Err(Error::Other(text)),
        Reply::TimedOut(text) => Err(Error::Other(text)),
    }
}

proof fn lemma_integrity_within(attributes: Seq<AttributeView>)
    ensures
        0 <= wire_size(attributes),
        0 <= size_after_integrity(attributes),
        first_value(attributes, ATTR_MESSAGE_INTEGRITY) is Some ==> size_after_integrity(
            attributes,
        ) + 4 <= wire_size(attributes),
    decreases attributes.len(),
{
    if attributes.len() > 0 {
        lemma_integrity_within(attributes.drop_first());
    }
}

proof fn lemma_attributes_fill(b: Seq<u8>)
    ensures
        attributes_in(b) matches Some(attributes) ==> wire_size(attributes) == b.len(),
    decreases b.len(),
{
    let length = 0x100 * b[2] + b[3];
    if b.len() >= 4 && b.len() >= 4 + padded(length) {
        let rest = b.skip(4 + padded(length));
        lemma_attributes_fill(rest);
        if let Some(attributes) = attributes_in(b) {
            assert(attributes.drop_first() =~= attributes_in(rest)->0);
        }
    }
}

/// The attributes of a message that was read fill the length that its header gives.
pub proof fn law_attributes_fill_the_message(raw: Seq<u8>, m: MessageView)
    requires
        message_in(raw) == Some(m),
    ensures
        wire_size(m.attributes) == m.length,
        m.length == be(raw, 2, 2),
        raw.len() >= 20 + m.length,
{
    reveal_with_fuel(be, 3);
    lemma_attributes_fill(raw.subrange(20, 20 + be(raw, 2, 2)));
}

/// The integrity of a message that was read from bytes can always be checked.
pub proof fn law_read_messages_can_be_checked(raw: Seq<u8>, m: MessageView)
    requires
        message_in(raw) == Some(m),
        first_value(m.attributes, ATTR_MESSAGE_INTEGRITY) is Some,
    ensures
        m.integrity_in_bounds(),
{
    law_attributes_fill_the_message(raw, m);
    lemma_integrity_within(m.attributes);
}

/// Checking the integrity of a message that was read from bytes leaves it as it was.
pub proof fn law_check_leaves_read_messages_alone(raw: Seq<u8>, m: MessageView)
    requires
        message_in(raw) == Some(m),
    ensures
        m.with_length_written() == m,
{
    reveal_with_fuel(be, 3);
    assert(m.with_length_written().raw =~= m.raw);
}

/// A binding request is read back as one: with the type, the transaction id, and no attributes.
pub proof fn law_request_reads_back(transaction_id: Seq<u8>)
    requires
        transaction_id.len() == 12,
    ensures
        message_in(request_bytes(transaction_id)) == Some(
            MessageView {
                typ: 1,
                length: 0,
                transaction_id,
                attributes: Seq::empty(),
                raw: request_bytes(transaction_id),
            },
        ),
{
    let raw = request_bytes(transaction_id);
    reveal_with_fuel(be, 5);
    assert(raw.subrange(8, 20) =~= transaction_id);
    assert(raw.subrange(20, 20).len() == 0);
}

/// Of the attributes of a type the first counts: what is found is the value of one before which
/// there is none of the type, and nothing is found exactly where there is none at all.
pub proof fn law_first_of_its_type_counts(attributes: Seq<AttributeView>, typ: u16)
    ensures
        match first_value(attributes, typ) {
            Some(value) => exists|i: int|
                0 <= i < attributes.len() && (#[trigger] attributes[i]).typ == typ
                    && attributes[i].value == value && forall|j: int|
                    0 <= j < i ==> (#[trigger] attributes[j]).typ != typ,
            None => forall|j: int|
                0 <= j < attributes.len() ==> (#[trigger] attributes[j]).typ != typ,
        },
    decreases attributes.len(),
{
    if attributes.len() > 0 {
        let rest = attributes.drop_first();
        law_first_of_its_type_counts(rest, typ);
        if attributes[0].typ != typ {
            match first_value(rest, typ) {
                Some(value) => {
                    let i = choose|i: int|
                        0 <= i < rest.len() && (#[trigger] rest[i]).typ == typ && rest[i].value
                            == value && forall|j: int|
                            0 <= j < i ==> (#[trigger] rest[j]).typ != typ;
                    assert(attributes[i + 1] == rest[i]);
                    assert forall|j: int| 0 <= j < i + 1 implies (#[trigger] attributes[j]).typ
                        != typ by {
                        if j > 0 {
                            assert(attributes[j] == rest[j - 1]);
                        }
                    }
                },
                None => {
                    assert forall|j: int| 0 <= j < attributes.len() implies (
                    #[trigger] attributes[j]).typ != typ by {
                        if j > 0 {
                            assert(attributes[j] == rest[j - 1]);
                        }
                    }
                },
            }
        }
    }
}

proof fn lemma_first_at(attributes: Seq<AttributeView>, typ: u16, i: int)
    requires
        0 <= i < attributes.len(),
        attributes[i].typ == typ,
        forall|j: int| 0 <= j < i ==> (#[trigger] attributes[j]).typ != typ,
    ensures
        first_value(attributes, typ) == Some(attributes[i].value),
    decreases attributes.len(),
{
    if i > 0 {
        let rest = attributes.drop_first();
        assert(attributes[0].typ != typ);
        assert forall|j: int| 0 <= j < i - 1 implies (#[trigger] rest[j]).typ != typ by {
            assert(rest[j] == attributes[j + 1]);
        }
        lemma_first_at(rest, typ, i - 1);
    }
}

/// A username passes exactly if the first attribute of type 6 is the expected text. Where there is
/// no such attribute, where it is not UTF-8, and where it is another text, the refusal says so; the
/// last names both texts.
pub proof fn law_username_is_the_first_of_type_6(m: MessageView, expected: Seq<char>, i: int)
    ensures
        (forall|j: int| 0 <= j < m.attributes.len() ==> (#[trigger] m.attributes[j]).typ != 6)
            ==> username_check(m, expected) == Err::<(), ErrorView>(
            ErrorView::Stun(StunErrorView::AttributeNotFound),
        ),
        0 <= i < m.attributes.len() && m.attributes[i].typ == 6 && (forall|j: int|
            0 <= j < i ==> (#[trigger] m.attributes[j]).typ != 6) ==> {
            let value = m.attributes[i].value;
            &&& valid_utf8(value) && decode_utf8(value) == expected <==> username_check(m, expected)
                is Ok
            &&& !valid_utf8(value) ==> username_check(m, expected) == Err::<(), ErrorView>(
                ErrorView::Stun(StunErrorView::Utf8(value)),
            )
            &&& valid_utf8(value) && decode_utf8(value) != expected ==> username_check(m, expected)
                == Err::<(), ErrorView>(
                ErrorView::Other(
                    "ErrMismatchUsername expected("@ + expected + ") actual("@ + decode_utf8(value)
                        + ")"@,
                ),
            )
        },
{
    law_first_of_its_type_counts(m.attributes, 6);
    if 0 <= i < m.attributes.len() && m.attributes[i].typ == 6 && (forall|j: int|
        0 <= j < i ==> (#[trigger] m.attributes[j]).typ != 6) {
        lemma_first_at(m.attributes, 6, i);
    }
}

/// The mapped address is that of the first attribute of type 0x20, byte by byte. Its port is the
/// third and fourth byte under the mask 0x2112. Family 1 is an IPv4 address of up to four bytes,
/// family 2 an IPv6 address of up to sixteen, each byte under the mask of the magic cookie and the
/// transaction id, and zero where the value ends. What is too short or too long, and any other
/// family, is refused.
pub proof fn law_mapped_address_byte_by_byte(m: MessageView, i: int)
    requires
        m.transaction_id.len() == 12,
    ensures
        (forall|j: int| 0 <= j < m.attributes.len() ==> (#[trigger] m.attributes[j]).typ != 0x20)
            ==> mapped_address(m) == Err::<XorMappedAddress, StunErrorView>(
            StunErrorView::AttributeNotFound,
        ),
        0 <= i < m.attributes.len() && m.attributes[i].typ == 0x20 && (forall|j: int|
            0 <= j < i ==> (#[trigger] m.attributes[j]).typ != 0x20) ==> {
            let v = m.attributes[i].value;
            let family = 0x100 * v[0] + v[1];
            &&& mapped_address(m) is Ok <==> (family == 1 && 4 < v.len() <= 8) || (family == 2 && 4
                < v.len() <= 20)
            &&& v.len() <= 4 ==> mapped_address(m)->Err_0 is UnexpectedEof
            &&& family == 1 && v.len() > 8 ==> mapped_address(m)->Err_0 is AttributeSizeOverflow
            &&& family == 2 && v.len() > 20 ==> mapped_address(m)->Err_0 is AttributeSizeOverflow
            &&& mapped_address(m) matches Ok(addr) ==> addr.port == ((0x100 * v[2] + v[3]) as u16)
                ^ 0x2112u16
            &&& mapped_address(m) matches Ok(addr) ==> family == 1 && v.len() == 8 ==> addr.ip
                == IpAddr::V4(
                (0x100_0000 * (v[4] ^ 0x21u8) + 0x1_0000 * (v[5] ^ 0x12u8) + 0x100 * (v[6] ^ 0xa4u8)
                    + (v[7] ^ 0x42u8)) as u32,
            )
            &&& mapped_address(m) matches Ok(addr) ==> family == 1 ==> addr.ip == IpAddr::V4(
                be(
                    Seq::new(
                        4,
                        |k: int|
                            if 4 + k >= v.len() {
                                0u8
                            } else {
                                v[4 + k] ^ seq![0x21u8, 0x12u8, 0xa4u8, 0x42u8][k]
                            },
                    ),
                    0,
                    4,
                ) as u32,
            )
            &&& v.len() > 4 && family != 1 && family != 2 ==> mapped_address(m)->Err_0
                == StunErrorView::Other("bad value "@ + decimal(family as nat))
            &&& mapped_address(m) matches Ok(addr) ==> family == 2 ==> addr.ip == IpAddr::V6(
                be(
                    Seq::new(
                        16,
                        |k: int|
                            if 4 + k >= v.len() {
                                0u8
                            } else if k < 4 {
                                v[4 + k] ^ seq![0x21u8, 0x12u8, 0xa4u8, 0x42u8][k]
                            } else {
                                v[4 + k] ^ m.transaction_id[k - 4]
                            },
                    ),
                    0,
                    16,
                ) as u128,
            )
        },
{
    law_first_of_its_type_counts(m.attributes, 0x20);
    if 0 <= i < m.attributes.len() && m.attributes[i].typ == 0x20 && (forall|j: int|
        0 <= j < i ==> (#[trigger] m.attributes[j]).typ != 0x20) {
        lemma_first_at(m.attributes, 0x20, i);
        let v = m.attributes[i].value;
        let id = m.transaction_id;
        law_be_is_network_order(v, 0, 0, 0);
        law_be_is_network_order(v, 2, 0, 0);
        law_be_is_network_order(unmasked(v, id, 4), 0, 0, 0);
        let bytes = Seq::new(
            16,
            |k: int|
                if 4 + k >= v.len() {
                    0u8
                } else if k < 4 {
                    v[4 + k] ^ seq![0x21u8, 0x12u8, 0xa4u8, 0x42u8][k]
                } else {
                    v[4 + k] ^ id[k - 4]
                },
        );
        assert(unmasked(v, id, 16) =~= bytes);
        let four = Seq::new(
            4,
            |k: int|
                if 4 + k >= v.len() {
                    0u8
                } else {
                    v[4 + k] ^ seq![0x21u8, 0x12u8, 0xa4u8, 0x42u8][k]
                },
        );
        assert(unmasked(v, id, 4) =~= four);
    }
}

/// Attributes are read one after the other, as they are written: the type, the length, the value,
/// and as many bytes as bring the value to a multiple of four; then the rest. The draft's number
/// 0x8020 is read as 0x20. No bytes are no attributes, and bytes that end within an attribute's
/// header, or within its value, cannot be read.
pub proof fn law_attributes_read_as_written(
    head: Seq<u8>,
    value: Seq<u8>,
    padding: Seq<u8>,
    rest: Seq<u8>,
)
    requires
        head.len() == 4,
        0x100 * head[2] + head[3] == value.len(),
        padding.len() < 4,
        (value.len() + padding.len()) % 4 == 0,
    ensures
        attributes_in(Seq::empty()) == Some(Seq::<AttributeView>::empty()),
        attributes_in(head + value + padding + rest) == match attributes_in(rest) {
            Some(others) => Some(
                seq![
                    AttributeView {
                        typ: if head[0] == 0x80 && head[1] == 0x20 {
                            0x20
                        } else {
                            (0x100 * head[0] + head[1]) as u16
                        },
                        length: value.len() as u16,
                        value,
                    },
                ] + others,
            ),
            None => None,
        },
        value.len() + padding.len() > 0 ==> attributes_in(
            (head + value + padding).drop_last(),
        ) is None,
        0 < rest.len() < 4 ==> attributes_in(rest) is None,
{
    let b = head + value + padding + rest;
    assert(b[0] == head[0] && b[1] == head[1] && b[2] == head[2] && b[3] == head[3]);
    assert(b.subrange(4, 4 + value.len() as int) =~= value);
    assert(b.skip((4 + value.len() + padding.len()) as int) =~= rest);
    assert(padded(value.len() as int) == value.len() + padding.len());
    if value.len() + padding.len() > 0 {
        let cut = (head + value + padding).drop_last();
        assert(cut[0] == head[0] && cut[1] == head[1] && cut[2] == head[2] && cut[3] == head[3]);
    }
}

/// A message is read exactly if there are twenty bytes of header, the fifth to eighth are the magic
/// cookie, as many bytes follow as the third and fourth say, and they are attributes. Its type is
/// what the first two bytes say without their two highest bits, its transaction id the last twelve
/// of the header, and its bytes all that came.
pub proof fn law_message_is_its_header_and_attributes(raw: Seq<u8>)
    ensures
        ({
            let length = 0x100 * raw[2] + raw[3];
            &&& message_in(raw) is Some <==> {
                &&& raw.len() >= 20
                &&& raw[4] == 0x21 && raw[5] == 0x12 && raw[6] == 0xa4 && raw[7] == 0x42
                &&& raw.len() >= 20 + length
                &&& attributes_in(raw.subrange(20, 20 + length)) is Some
            }
            &&& message_in(raw) matches Some(m) ==> {
                &&& m.typ == (0x100 * raw[0] + raw[1]) % 0x4000
                &&& m.length == length
                &&& m.transaction_id == raw.subrange(8, 20)
                &&& attributes_in(raw.subrange(20, 20 + length)) == Some(m.attributes)
                &&& m.raw == raw
            }
        }),
{
    law_be_is_network_order(raw, 0, 0, 0);
    law_be_is_network_order(raw, 2, 0, 0);
    law_be_is_network_order(raw, 4, 0, 0);
}

/// A binding request is twenty bytes: type 1, no attributes, the magic cookie, the transaction id.
pub proof fn law_request_byte_by_byte(transaction_id: Seq<u8>)
    requires
        transaction_id.len() == 12,
    ensures
        request_bytes(transaction_id).len() == 20,
        request_bytes(transaction_id).take(8) == seq![
            0u8,
            1u8,
            0u8,
            0u8,
            0x21u8,
            0x12u8,
            0xa4u8,
            0x42u8,
        ],
        request_bytes(transaction_id).skip(8) == transaction_id,
{
    assert(request_bytes(transaction_id).take(8) =~= seq![
        0u8,
        1u8,
        0u8,
        0u8,
        0x21u8,
        0x12u8,
        0xa4u8,
        0x42u8,
    ]);
    assert(request_bytes(transaction_id).skip(8) =~= transaction_id);
}

/// Masking is undone by masking again: an address attribute whose address bytes are some bytes
/// under the mask holds those bytes.
pub proof fn law_mask_cancels(
    head: Seq<u8>,
    address: Seq<u8>,
    transaction_id: Seq<u8>,
)
    requires
        head.len() == 4,
        transaction_id.len() == 12,
        address.len() <= 16,
    ensures
        unmasked(
            head + Seq::new(address.len(), |i: int| address[i] ^ mask(transaction_id)[i]),
            transaction_id,
            address.len(),
        ) == address,
{
    let value = head + Seq::new(address.len(), |i: int| address[i] ^ mask(transaction_id)[i]);
    let back = unmasked(value, transaction_id, address.len());
    assert forall|i: int| 0 <= i < address.len() implies back[i] == address[i] by {
        let a = address[i];
        let m = mask(transaction_id)[i];
        assert((a ^ m) ^ m == a) by (bit_vector);
    }
    assert(back =~= address);
}

/// The attribute types that are looked for, by number, and the size of the largest response.
pub proof fn law_numbers_of_the_protocol()
    ensures
        ATTR_USERNAME == 6,
        ATTR_MESSAGE_INTEGRITY == 8,
        ATTR_XORMAPPED_ADDRESS == 32,
        MAX_MESSAGE_SIZE == 1280,
{
}

/// A request is waited for without limit exactly where the deadline is zero, and carries its
/// transaction id in its last twelve bytes.
pub proof fn law_deadline_of_zero_is_none(
    transaction_id: [u8; 12],
    deadline_nanos: u128,
    r: Result<StunRequest, Error>,
)
    requires
        call_ensures(binding_request, (transaction_id, deadline_nanos), r),
    ensures
        r is Ok,
        r->Ok_0.limited <==> deadline_nanos != 0,
        r->Ok_0.bytes@.len() == 20,
        r->Ok_0.bytes@.skip(8) == transaction_id@,
{
    law_request_byte_by_byte(transaction_id@);
}

/// A response that did not come is told by how it failed: a failure of the network underneath where
/// nothing limits the wait, and another error, with the same text, where something does.
pub proof fn law_missing_response_is_told(buf: &[u8], reply: Reply, r: Result<Message, Error>)
    requires
        !(reply is Received),
        call_ensures(stun_response, (buf, reply), r),
    ensures
        r is Err,
        reply matches Reply::Failed(text) ==> r->Err_0@ == ErrorView::Util(text@),
        reply matches Reply::FailedInTime(text) ==> r->Err_0@ == ErrorView::Other(text@),
        reply matches Reply::TimedOut(text) ==> r->Err_0@ == ErrorView::Other(text@),
{
}

} // verus!
