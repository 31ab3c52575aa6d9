//! The connection: its handshake state machine, its two buffers and the
//! routing of decoded methods to channels.
//!
//! The connection never touches the transport. The caller offers the
//! unread bytes of the send buffer to the transport, or lets the transport
//! fill the writable region of the receive buffer, and hands in what the
//! transport answered.

use crate::buffer::{Buffer, MAX_CAPACITY};
use crate::channel::{Channel, ChannelState};
use crate::error::{DecodeError, EncodeError};
use crate::frame::{lemma_frame_round_trip, lemma_method_frame_round_trip};
use crate::frame::{decode_frame, encode_method_frame, encode_protocol_header};
use crate::frame::{method_frame, parse_frame, payload_of, protocol_header};
use crate::frame::{FrameDecode, FrameType};
use crate::method::lemma_method_round_trip;
use crate::method::{arguments_of, decode_method, encodable, method_payload, parse_method};
use crate::method::{Method, MethodView, StartOk, StartOkView};
use crate::sasl_plain::{plain_initial, plain_response};
use crate::table::{entry, FieldTable, TAG_LONG_STRING};
use crate::table::{lemma_long_string_entry, well_formed_from};
use crate::wire::{lemma_long_string_round_trip, long_string};
use std::collections::HashMap;
use vstd::prelude::*;
use vstd::utf8::{encode_utf8, is_ascii_chars, is_ascii_chars_encode_utf8};

verus! {

/// Where the connection stands.
#[derive(Clone, Copy, Debug, PartialEq, Eq, Structural)]
pub enum ConnectionState {
    Initial,
    Connecting(ConnectingState),
    Connected,
    Closing(ClosingState),
    Closed,
    Error,
}

/// The steps of opening a connection, in the order they are taken.
#[derive(Clone, Copy, Debug, PartialEq, Eq, Structural)]
pub enum ConnectingState {
    Initial,
    SentProtocolHeader,
    ReceivedStart,
    SentStartOk,
    ReceivedSecure,
    SentSecure,
    ReceivedSecondSecure,
    ReceivedTune,
    SentOpen,
    ReceivedOpenOk,
    Error,
}

/// The steps of closing a connection, in the order they are taken.
#[derive(Clone, Copy, Debug, PartialEq, Eq, Structural)]
pub enum ClosingState {
    Initial,
    SentClose,
    ReceivedClose,
    SentCloseOk,
    ReceivedCloseOk,
    Error,
}

/// A failure of the protocol engine itself.
#[derive(Clone, Copy, Debug, PartialEq, Eq)]
pub enum ProtocolError {
    /// The operation is not allowed in the state the connection was in.
    InvalidState,
    /// Bytes that arrived could not be decoded.
    Decode(DecodeError),
    /// A reply could not be put into the send buffer.
    Encode(EncodeError),
}

/// Why an operation on the connection failed.
#[derive(Clone, Copy, Debug, PartialEq, Eq)]
pub enum ConnectionError<E> {
    /// The protocol engine failed.
    Protocol(ProtocolError),
    /// The transport failed; its error is handed on as it came.
    Transport(E),
}

/// One connection to a broker.
#[derive(Clone, Debug, PartialEq)]
pub struct Connection {
    pub state: ConnectionState,
    pub channels: HashMap<u16, Channel>,
    pub send_buffer: Buffer,
    pub receive_buffer: Buffer,
}

/// Size of each buffer of a new connection.
pub const INITIAL_BUFFER_SIZE: usize = 8192;

/// The client properties sent in connection.start-ok: the product name.
pub open spec fn client_properties() -> Seq<u8> {
    entry(encode_utf8("product"@), TAG_LONG_STRING, long_string(encode_utf8("lapin"@)))
}

/// The connection.start-ok that answers connection.start: mechanism PLAIN
/// with the default credentials, locale en_US.
pub open spec fn start_ok_reply() -> StartOkView {
    StartOkView {
        client_properties: client_properties(),
        mechanism: encode_utf8("PLAIN"@),
        response: plain_response(encode_utf8("guest"@), encode_utf8("guest"@)),
        locale: encode_utf8("en_US"@),
    }
}

/// What is left unread after the transport took `count` bytes. A count
/// beyond what was offered takes all.
pub open spec fn after_taking(unread: Seq<u8>, count: usize) -> Seq<u8> {
    if count <= unread.len() {
        unread.subrange(count as int, unread.len() as int)
    } else {
        Seq::empty()
    }
}

/// What is unread after the transport put `count` bytes into the writable
/// region. A count beyond the region commits all of it.
pub open spec fn after_filling(buffer: Buffer, count: usize) -> Seq<u8> {
    if count <= buffer.unwritten().len() {
        buffer.unread() + buffer.unwritten().subrange(0, count as int)
    } else {
        buffer.unread() + buffer.unwritten()
    }
}

/// Whether reading is allowed in a state.
pub open spec fn may_read(state: ConnectionState) -> bool {
    state != ConnectionState::Initial && state != ConnectionState::Error
}

/// How far a connection has come while opening.
pub open spec fn connecting_rank(state: ConnectingState) -> nat {
    match state {
        ConnectingState::Initial => 0,
        ConnectingState::SentProtocolHeader => 1,
        ConnectingState::ReceivedStart => 2,
        ConnectingState::SentStartOk => 3,
        ConnectingState::ReceivedSecure => 4,
        ConnectingState::SentSecure => 5,
        ConnectingState::ReceivedSecondSecure => 6,
        ConnectingState::ReceivedTune => 7,
        ConnectingState::SentOpen => 8,
        ConnectingState::ReceivedOpenOk => 9,
        ConnectingState::Error => 10,
    }
}

/// How far a connection has come while closing.
pub open spec fn closing_rank(state: ClosingState) -> nat {
    match state {
        ClosingState::Initial => 0,
        ClosingState::SentClose => 1,
        ClosingState::ReceivedClose => 2,
        ClosingState::SentCloseOk => 3,
        ClosingState::ReceivedCloseOk => 4,
        ClosingState::Error => 5,
    }
}

/// How far a connection has come in its life: every state that can follow
/// another has a greater rank, and `Error` has the greatest.
pub open spec fn rank(state: ConnectionState) -> nat {
    match state {
        ConnectionState::Initial => 0,
        ConnectionState::Connecting(step) => 1 + connecting_rank(step),
        ConnectionState::Connected => 12,
        ConnectionState::Closing(step) => 13 + closing_rank(step),
        ConnectionState::Closed => 19,
        ConnectionState::Error => 20,
    }
}

/// The lengths of the fixed texts of the reply.
pub proof fn lemma_reply_texts()
    ensures
        encode_utf8("product"@).len() == 7,
        encode_utf8("lapin"@).len() == 5,
        encode_utf8("PLAIN"@).len() == 5,
        encode_utf8("guest"@).len() == 5,
        encode_utf8("en_US"@).len() == 5,
{
    reveal_strlit("product");
    reveal_strlit("lapin");
    reveal_strlit("PLAIN");
    reveal_strlit("guest");
    reveal_strlit("en_US");
    assert(is_ascii_chars("product"@));
    assert(is_ascii_chars("lapin"@));
    assert(is_ascii_chars("PLAIN"@));
    assert(is_ascii_chars("guest"@));
    assert(is_ascii_chars("en_US"@));
    is_ascii_chars_encode_utf8("product"@);
    is_ascii_chars_encode_utf8("lapin"@);
    is_ascii_chars_encode_utf8("PLAIN"@);
    is_ascii_chars_encode_utf8("guest"@);
    is_ascii_chars_encode_utf8("en_US"@);
}

/// The reply to connection.start can always be encoded, and its frame is
/// 62 bytes long.
pub proof fn lemma_start_ok_reply_encodable()
    ensures
        encodable(MethodView::ConnectionStartOk(start_ok_reply())),
        method_frame(0, MethodView::ConnectionStartOk(start_ok_reply())) is Ok,
        method_frame(0, MethodView::ConnectionStartOk(start_ok_reply())).unwrap().len() == 62,
{
    lemma_reply_texts();
    lemma_long_string_entry(encode_utf8("product"@), encode_utf8("lapin"@));
    let reply = start_ok_reply();
    let v = MethodView::ConnectionStartOk(reply);
    assert(reply.client_properties.len() == 18);
    assert(reply.response.len() == 12);
    assert(well_formed_from(reply.client_properties, 18));
    assert(well_formed_from(reply.client_properties, 0));
    lemma_method_round_trip(v);
    lemma_long_string_round_trip(Seq::<u8>::empty(), reply.client_properties, Seq::<u8>::empty());
    lemma_long_string_round_trip(Seq::<u8>::empty(), reply.response, Seq::<u8>::empty());
    assert(arguments_of(v).len() == 22 + 6 + 16 + 6);
    assert(method_payload(v).len() == 54);
    lemma_frame_round_trip(FrameType::Method, 0, method_payload(v), Seq::<u8>::empty());
}

/// The reply to connection.start is decoded as it was encoded: a method
/// frame on channel 0 that holds the reply, whatever follows it.
pub proof fn lemma_start_ok_reply_round_trip(rest: Seq<u8>)
    ensures
        parse_frame(
            method_frame(0, MethodView::ConnectionStartOk(start_ok_reply())).unwrap() + rest,
        ) matches FrameDecode::Decoded(header, taken) && header.frame_type == FrameType::Method
            && header.channel_id == 0 && taken == 62 && parse_method(
            payload_of(
                method_frame(0, MethodView::ConnectionStartOk(start_ok_reply())).unwrap() + rest,
                header,
            ),
        ) == Ok::<MethodView, DecodeError>(MethodView::ConnectionStartOk(start_ok_reply())),
{
    let v = MethodView::ConnectionStartOk(start_ok_reply());
    lemma_start_ok_reply_encodable();
    lemma_method_frame_round_trip(0, v, rest);
    lemma_frame_round_trip(FrameType::Method, 0, method_payload(v), rest);
}

/// How the handshake answers a method of channel 0: the state and the
/// send buffer after it.
///
/// Before the protocol header was sent, and once the connection is closed
/// or broken, every method breaks the connection. While the header's
/// answer is awaited, connection.start is answered by connection.start-ok,
/// which is put into the send buffer; anything else breaks the connection,
/// and so does a send buffer without room. In every later state the method
/// changes nothing.
pub open spec fn handshake_step(
    state: ConnectionState,
    send: Buffer,
    method: MethodView,
    next_state: ConnectionState,
    next_send: Buffer,
) -> bool {
    let reply = method_frame(0, MethodView::ConnectionStartOk(start_ok_reply()));
    match state {
        ConnectionState::Initial | ConnectionState::Closed | ConnectionState::Error
        | ConnectionState::Connecting(ConnectingState::Initial)
        | ConnectionState::Connecting(ConnectingState::Error) => next_state
            == ConnectionState::Error && next_send == send,
        ConnectionState::Connecting(ConnectingState::SentProtocolHeader) => if method
            is ConnectionStart && reply is Ok && send.has_room(reply.unwrap().len()) {
            next_state == ConnectionState::Connecting(ConnectingState::SentStartOk)
                && next_send.unread() == send.unread() + reply.unwrap() && next_send.limit()
                == send.limit()
        } else {
            next_state == ConnectionState::Error && next_send == send
        },
        _ => next_state == state && next_send == send,
    }
}

/// A channel after a method addressed to it failed to decode.
pub open spec fn channel_broken(
    before: Map<u16, Channel>,
    id: u16,
    after: Map<u16, Channel>,
) -> bool {
    if before.contains_key(id) {
        after == before.insert(
            id,
            Channel {
                id: before[id].id,
                state: ChannelState::Error,
                received: before[id].received,
            },
        )
    } else {
        after == before
    }
}

/// The channels after a method was delivered to channel `id`: the method
/// is the last that the channel has received. Without such a channel
/// nothing changes.
pub open spec fn channel_received(
    before: Map<u16, Channel>,
    id: u16,
    method: MethodView,
    after: Map<u16, Channel>,
) -> bool {
    if before.contains_key(id) {
        &&& after.dom() == before.dom()
        &&& forall|other: u16|
            other != id && before.contains_key(other) ==> after[other] == before[other]
        &&& after[id].id == before[id].id
        &&& after[id].state == before[id].state
        &&& after[id].received@.len() == before[id].received@.len() + 1
        &&& after[id].received@.drop_last() == before[id].received@
        &&& after[id].received@.last()@ == method
    } else {
        after == before
    }
}

impl Connection {
    /// Both buffers are well formed.
    pub open spec fn wf(self) -> bool {
        self.send_buffer.wf() && self.receive_buffer.wf()
    }

    /// What `read` does to a connection and what it reports.
    ///
    /// Reading is refused in the states `Initial` and `Error`, which breaks
    /// the connection. A transport error is handed on and changes nothing.
    /// Else the bytes that arrived are committed and one frame is decoded
    /// from the front of the data. An incomplete frame changes nothing
    /// more. A malformed one breaks the connection, and so does a whole
    /// frame that is not a method frame, which stays unread. A method
    /// frame is dropped from the data, so that it is never decoded twice.
    /// If its method fails to decode, that breaks the connection if the
    /// frame was addressed to channel 0, else its channel, and leaves the
    /// connection to the other channels. A decoded method is handed to the
    /// handshake (channel 0) or to its channel; the report is then
    /// `Connected`, whatever state the connection is in: the state itself
    /// is the authority.
    pub open spec fn read_outcome<E>(
        self,
        received: Result<usize, E>,
        after: Connection,
        outcome: Result<ConnectionState, ConnectionError<E>>,
    ) -> bool {
        if !may_read(self.state) {
            &&& outcome == Err::<ConnectionState, ConnectionError<E>>(
                ConnectionError::Protocol(ProtocolError::InvalidState),
            )
            &&& after.state == ConnectionState::Error
            &&& after.channels == self.channels
            &&& after.send_buffer == self.send_buffer
            &&& after.receive_buffer == self.receive_buffer
        } else {
            match received {
                Err(e) => outcome == Err::<ConnectionState, ConnectionError<E>>(
                    ConnectionError::Transport(e),
                ) && after == self,
                Ok(count) => {
                    let data = after_filling(self.receive_buffer, count);
                    let limit = self.receive_buffer.limit();
                    after.receive_buffer.limit() == limit && match parse_frame(data) {
                        FrameDecode::Incomplete => {
                            &&& outcome == Ok::<ConnectionState, ConnectionError<E>>(self.state)
                            &&& after.state == self.state
                            &&& after.channels == self.channels
                            &&& after.send_buffer == self.send_buffer
                            &&& after.receive_buffer.unread() == data
                        },
                        FrameDecode::Malformed(e) => {
                            &&& outcome == Err::<ConnectionState, ConnectionError<E>>(
                                ConnectionError::Protocol(ProtocolError::Decode(e)),
                            )
                            &&& after.state == ConnectionState::Error
                            &&& after.channels == self.channels
                            &&& after.send_buffer == self.send_buffer
                            &&& after.receive_buffer.unread() == data
                        },
                        FrameDecode::Decoded(header, taken) => if header.frame_type
                            != FrameType::Method {
                            &&& outcome == Err::<ConnectionState, ConnectionError<E>>(
                                ConnectionError::Protocol(
                                    ProtocolError::Decode(DecodeError::UnexpectedFrameType),
                                ),
                            )
                            &&& after.state == ConnectionState::Error
                            &&& after.channels == self.channels
                            &&& after.send_buffer == self.send_buffer
                            &&& after.receive_buffer.unread() == data
                        } else {
                            match parse_method(payload_of(data, header)) {
                                Err(e) => {
                                    &&& outcome == Err::<ConnectionState, ConnectionError<E>>(
                                        ConnectionError::Protocol(ProtocolError::Decode(e)),
                                    )
                                    &&& after.send_buffer == self.send_buffer
                                    &&& after.receive_buffer.unread() == data.subrange(
                                        taken as int,
                                        data.len() as int,
                                    )
                                    &&& if header.channel_id == 0 {
                                        after.state == ConnectionState::Error && after.channels
                                            == self.channels
                                    } else {
                                        after.state == self.state && channel_broken(
                                            self.channels@,
                                            header.channel_id,
                                            after.channels@,
                                        )
                                    }
                                },
                                Ok(method) => {
                                    &&& outcome == Ok::<ConnectionState, ConnectionError<E>>(
                                        ConnectionState::Connected,
                                    )
                                    &&& after.receive_buffer.unread() == data.subrange(
                                        taken as int,
                                        data.len() as int,
                                    )
                                    &&& if header.channel_id == 0 {
                                        after.channels == self.channels && handshake_step(
                                            self.state,
                                            self.send_buffer,
                                            method,
                                            after.state,
                                            after.send_buffer,
                                        )
                                    } else {
                                        after.state == self.state && after.send_buffer
                                            == self.send_buffer && channel_received(
                                            self.channels@,
                                            header.channel_id,
                                            method,
                                            after.channels@,
                                        )
                                    }
                                },
                            }
                        },
                    }
                },
            }
        }
    }

    /// A connection that has not started: state `Initial`, channel 0 alone,
    /// two empty buffers.
    pub fn new() -> (connection: Connection)
        ensures
            connection.wf(),
            connection.state == ConnectionState::Initial,
            connection.channels@.dom() == set![0u16],
            connection.channels@[0].id == 0,
            connection.channels@[0].state == ChannelState::Initial,
            connection.channels@[0].received@ == Seq::<Method>::empty(),
            connection.send_buffer.unread() == Seq::<u8>::empty(),
            connection.receive_buffer.unread() == Seq::<u8>::empty(),
            connection.send_buffer.unwritten().len() == INITIAL_BUFFER_SIZE,
            connection.receive_buffer.unwritten().len() == INITIAL_BUFFER_SIZE,
            connection.send_buffer.limit() == MAX_CAPACITY,
            connection.receive_buffer.limit() == MAX_CAPACITY,
    {
        let mut channels: HashMap<u16, Channel> = HashMap::new();
        channels.insert(0, Channel::global());
        assert(channels@.dom() =~= set![0u16]);
        Connection {
            state: ConnectionState::Initial,
            channels,
            send_buffer: Buffer::with_capacity(INITIAL_BUFFER_SIZE),
            receive_buffer: Buffer::with_capacity(INITIAL_BUFFER_SIZE),
        }
    }

    /// First half of connecting, before the transport is touched: puts the
    /// protocol header into the send buffer. Allowed in state `Initial`
    /// only; in any other state the connection breaks. It breaks too when
    /// the send buffer has no room for the header, and the buffer is then
    /// left as it was. Where the header was put, the state stays `Initial`
    /// and moves on only when `connect` learns that the transport took the
    /// write.
    pub fn prepare_connect(&mut self) -> (outcome: Result<(), ProtocolError>)
        requires
            old(self).wf(),
        ensures
            final(self).wf(),
            final(self).channels == old(self).channels,
            final(self).receive_buffer == old(self).receive_buffer,
            final(self).send_buffer.limit() == old(self).send_buffer.limit(),
            old(self).state != ConnectionState::Initial ==> outcome == Err::<(), ProtocolError>(
                ProtocolError::InvalidState,
            ),
            old(self).state != ConnectionState::Initial ==> final(self).state
                == ConnectionState::Error,
            old(self).state != ConnectionState::Initial ==> final(self).send_buffer
                == old(self).send_buffer,
            old(self).state == ConnectionState::Initial && old(self).send_buffer.has_room(8)
                ==> final(self).state == ConnectionState::Initial,
            old(self).state == ConnectionState::Initial && old(self).send_buffer.has_room(8)
                ==> outcome is Ok,
            old(self).state == ConnectionState::Initial && old(self).send_buffer.has_room(8)
                ==> final(self).send_buffer.unread() == old(self).send_buffer.unread()
                + protocol_header(),
            old(self).state == ConnectionState::Initial && !old(self).send_buffer.has_room(8)
                ==> outcome == Err::<(), ProtocolError>(
                ProtocolError::Encode(EncodeError::BufferExhausted),
            ),
            old(self).state == ConnectionState::Initial && !old(self).send_buffer.has_room(8)
                ==> final(self).state == ConnectionState::Error,
            old(self).state == ConnectionState::Initial && !old(self).send_buffer.has_room(8)
                ==> final(self).send_buffer == old(self).send_buffer,
    {
        if self.state != ConnectionState::Initial {
            self.state = ConnectionState::Error;
            return Err(ProtocolError::InvalidState);
        }
        let header = encode_protocol_header();
        match self.send_buffer.write(header.as_slice()) {
            Ok(()) => Ok(()),
            Err(_) => {
                self.state = ConnectionState::Error;
                Err(ProtocolError::Encode(EncodeError::BufferExhausted))
            },
        }
    }

    /// Second half of connecting: takes what the transport answered when
    /// it was offered the unread bytes of the send buffer. Allowed in state
    /// `Initial` only; in any other state the connection breaks. A write
    /// that the transport took, however short, moves the connection to
    /// `Connecting(SentProtocolHeader)`; what it did not take stays
    /// buffered. A transport error is handed on and changes nothing.
    pub fn connect<E>(&mut self, written: Result<usize, E>) -> (outcome: Result<
        ConnectionState,
        ConnectionError<E>,
    >)
        requires
            old(self).wf(),
        ensures
            final(self).wf(),
            final(self).channels == old(self).channels,
            final(self).receive_buffer == old(self).receive_buffer,
            final(self).send_buffer.limit() == old(self).send_buffer.limit(),
            old(self).state != ConnectionState::Initial ==> outcome == Err::<
                ConnectionState,
                ConnectionError<E>,
            >(ConnectionError::Protocol(ProtocolError::InvalidState)) && final(self).state
                == ConnectionState::Error && final(self).send_buffer == old(self).send_buffer,
            old(self).state == ConnectionState::Initial ==> match written {
                Ok(count) => outcome == Ok::<ConnectionState, ConnectionError<E>>(
                    ConnectionState::Connecting(ConnectingState::SentProtocolHeader),
                ) && final(self).state == ConnectionState::Connecting(
                    ConnectingState::SentProtocolHeader,
                ) && final(self).send_buffer.unread() == after_taking(
                    old(self).send_buffer.unread(),
                    count,
                ),
                Err(e) => outcome == Err::<ConnectionState, ConnectionError<E>>(
                    ConnectionError::Transport(e),
                ) && *final(self) == *old(self),
            },
    {
        if self.state != ConnectionState::Initial {
            self.state = ConnectionState::Error;
            return Err(ConnectionError::Protocol(ProtocolError::InvalidState));
        }
        match written {
            Ok(count) => {
                self.sent(count);
                self.state = ConnectionState::Connecting(ConnectingState::SentProtocolHeader);
                Ok(self.state)
            },
            Err(e) => Err(ConnectionError::Transport(e)),
        }
    }

    /// Takes what the transport answered when it was offered the unread
    /// bytes of the send buffer. The bytes it took are dropped from the
    /// buffer; the rest stays for a later write. A transport error is
    /// handed on and changes nothing. The state never changes.
    pub fn write<E>(&mut self, written: Result<usize, E>) -> (outcome: Result<
        ConnectionState,
        ConnectionError<E>,
    >)
        requires
            old(self).wf(),
        ensures
            final(self).wf(),
            final(self).state == old(self).state,
            final(self).channels == old(self).channels,
            final(self).receive_buffer == old(self).receive_buffer,
            final(self).send_buffer.limit() == old(self).send_buffer.limit(),
            match written {
                Ok(count) => outcome == Ok::<ConnectionState, ConnectionError<E>>(old(self).state)
                    && final(self).send_buffer.unread() == after_taking(
                    old(self).send_buffer.unread(),
                    count,
                ),
                Err(e) => outcome == Err::<ConnectionState, ConnectionError<E>>(
                    ConnectionError::Transport(e),
                ) && *final(self) == *old(self),
            },
    {
        match written {
            Ok(count) => {
                self.sent(count);
                Ok(self.state)
            },
            Err(e) => Err(ConnectionError::Transport(e)),
        }
    }

    /// Drops from the send buffer the bytes that the transport took.
    fn sent(&mut self, count: usize)
        requires
            old(self).wf(),
        ensures
            final(self).wf(),
            final(self).state == old(self).state,
            final(self).channels == old(self).channels,
            final(self).receive_buffer == old(self).receive_buffer,
            final(self).send_buffer.limit() == old(self).send_buffer.limit(),
            final(self).send_buffer.unread() == after_taking(old(self).send_buffer.unread(), count),
    {
        let offered: usize = self.send_buffer.available_data();
        let taken: usize = if count > offered {
            offered
        } else {
            count
        };
        let _ = self.send_buffer.consume(taken);
        assert(self.send_buffer.unread() =~= after_taking(old(self).send_buffer.unread(), count));
    }

    /// To be called before the transport is asked for bytes: says whether
    /// reading is allowed. It is not in the states `Initial` and `Error`,
    /// and asking there breaks the connection.
    pub fn prepare_read(&mut self) -> (outcome: Result<(), ProtocolError>)
        ensures
            old(self).wf() ==> final(self).wf(),
            final(self).channels == old(self).channels,
            final(self).send_buffer == old(self).send_buffer,
            final(self).receive_buffer == old(self).receive_buffer,
            may_read(old(self).state) ==> outcome is Ok && final(self).state == old(self).state,
            !may_read(old(self).state) ==> outcome == Err::<(), ProtocolError>(
                ProtocolError::InvalidState,
            ) && final(self).state == ConnectionState::Error,
    {
        if self.state == ConnectionState::Initial || self.state == ConnectionState::Error {
            self.state = ConnectionState::Error;
            return Err(ProtocolError::InvalidState);
        }
        Ok(())
    }

    /// Handles a method that arrived on channel 0, as `handshake_step`
    /// says.
    pub fn handle_global_method(&mut self, method: Method)
        requires
            old(self).wf(),
        ensures
            final(self).wf(),
            final(self).channels == old(self).channels,
            final(self).receive_buffer == old(self).receive_buffer,
            handshake_step(
                old(self).state,
                old(self).send_buffer,
                method@,
                final(self).state,
                final(self).send_buffer,
            ),
    {
        proof {
            lemma_start_ok_reply_encodable();
        }
        match self.state {
            ConnectionState::Initial | ConnectionState::Closed | ConnectionState::Error => {
                self.state = ConnectionState::Error;
            },
            ConnectionState::Connecting(connecting_state) => {
                match connecting_state {
                    ConnectingState::Initial | ConnectingState::Error => {
                        self.state = ConnectionState::Error;
                    },
                    ConnectingState::SentProtocolHeader => {
                        match method {
                            Method::ConnectionStart(_) => {
                                self.state = match self.send_start_ok() {
                                    Ok(()) => ConnectionState::Connecting(
                                        ConnectingState::SentStartOk,
                                    ),
                                    Err(_) => ConnectionState::Error,
                                };
                            },
                            _ => {
                                self.state = ConnectionState::Error;
                            },
                        }
                    },
                    _ => {},
                }
            },
            ConnectionState::Connected => {},
            ConnectionState::Closing(_) => {},
        }
    }

    /// Puts the connection.start-ok frame into the send buffer.
    fn send_start_ok(&mut self) -> (outcome: Result<(), EncodeError>)
        requires
            old(self).wf(),
        ensures
            final(self).wf(),
            final(self).state == old(self).state,
            final(self).channels == old(self).channels,
            final(self).receive_buffer == old(self).receive_buffer,
            outcome is Ok <==> old(self).send_buffer.has_room(
                method_frame(0, MethodView::ConnectionStartOk(start_ok_reply())).unwrap().len(),
            ),
            outcome is Ok ==> final(self).send_buffer.unread() == old(self).send_buffer.unread()
                + method_frame(0, MethodView::ConnectionStartOk(start_ok_reply())).unwrap(),
            outcome is Err ==> final(self).send_buffer == old(self).send_buffer,
            final(self).send_buffer.limit() == old(self).send_buffer.limit(),
    {
        proof {
            lemma_reply_texts();
            lemma_start_ok_reply_encodable();
        }
        let mut properties = FieldTable::new();
        let inserted = properties.insert_long_string("product".as_bytes(), "lapin".as_bytes());
        assert(inserted);
        assert(properties@ =~= client_properties());
        let response = plain_initial("guest", "guest");
        let start_ok = Method::ConnectionStartOk(
            StartOk {
                client_properties: properties,
                mechanism: vstd::slice::slice_to_vec("PLAIN".as_bytes()),
                response,
                locale: vstd::slice::slice_to_vec("en_US".as_bytes()),
            },
        );
        assert(start_ok@ == MethodView::ConnectionStartOk(start_ok_reply()));
        let frame = match encode_method_frame(0, &start_ok) {
            Ok(bytes) => bytes,
            Err(e) => {
                return Err(e);
            },
        };
        match self.send_buffer.write(frame.as_slice()) {
            Ok(()) => Ok(()),
            Err(_) => Err(EncodeError::BufferExhausted),
        }
    }

    /// Marks the channel of a method that failed to decode as broken.
    fn break_channel(&mut self, id: u16)
        requires
            old(self).wf(),
            id != 0,
        ensures
            final(self).wf(),
            final(self).state == old(self).state,
            final(self).send_buffer == old(self).send_buffer,
            final(self).receive_buffer == old(self).receive_buffer,
            channel_broken(old(self).channels@, id, final(self).channels@),
    {
        broadcast use vstd::std_specs::hash::group_hash_axioms;

        match self.channels.remove(&id) {
            Some(channel) => {
                let broken = Channel {
                    id: channel.id,
                    state: ChannelState::Error,
                    received: channel.received,
                };
                self.channels.insert(id, broken);
                assert(self.channels@ =~= old(self).channels@.insert(id, broken));
            },
            None => {
                assert(self.channels@ =~= old(self).channels@);
            },
        }
    }

    /// Hands a decoded method to the channel it was addressed to. A
    /// method for a channel that does not exist is dropped.
    fn deliver(&mut self, id: u16, method: Method)
        requires
            old(self).wf(),
            id != 0,
        ensures
            final(self).wf(),
            final(self).state == old(self).state,
            final(self).send_buffer == old(self).send_buffer,
            final(self).receive_buffer == old(self).receive_buffer,
            channel_received(old(self).channels@, id, method@, final(self).channels@),
    {
        broadcast use vstd::std_specs::hash::group_hash_axioms;

        match self.channels.remove(&id) {
            Some(channel) => {
                let mut channel = channel;
                channel.received_method(method);
                self.channels.insert(id, channel);
                assert(self.channels@.dom() =~= old(self).channels@.dom());
                assert(channel.received@.drop_last() =~= old(self).channels@[id].received@);
            },
            None => {
                assert(self.channels@ =~= old(self).channels@);
            },
        }
    }

    /// Takes what the transport answered when it was asked to fill the
    /// writable region of the receive buffer, and handles at most one
    /// frame, as `read_outcome` says.
    pub fn read<E>(&mut self, received: Result<usize, E>) -> (outcome: Result<
        ConnectionState,
        ConnectionError<E>,
    >)
        requires
            old(self).wf(),
        ensures
            final(self).wf(),
            old(self).read_outcome(received, *final(self), outcome),
    {
        if self.state == ConnectionState::Initial || self.state == ConnectionState::Error {
            self.state = ConnectionState::Error;
            return Err(ConnectionError::Protocol(ProtocolError::InvalidState));
        }
        let count: usize = match received {
            Ok(count) => count,
            Err(e) => {
                return Err(ConnectionError::Transport(e));
            },
        };
        let space: usize = self.receive_buffer.available_space();
        self.receive_buffer.fill(
            if count > space {
                space
            } else {
                count
            },
        );
        let ghost data = self.receive_buffer.unread();
        assert(data =~= after_filling(old(self).receive_buffer, count));
        let (header, taken) = match decode_frame(self.receive_buffer.data()) {
            FrameDecode::Incomplete => {
                return Ok(self.state);
            },
            FrameDecode::Malformed(e) => {
                self.state = ConnectionState::Error;
                return Err(ConnectionError::Protocol(ProtocolError::Decode(e)));
            },
            FrameDecode::Decoded(header, taken) => (header, taken),
        };
        if header.frame_type != FrameType::Method {
            self.state = ConnectionState::Error;
            return Err(
                ConnectionError::Protocol(ProtocolError::Decode(DecodeError::UnexpectedFrameType)),
            );
        }
        let bytes = self.receive_buffer.data();
        let total: usize = bytes.len();
        assert(8 + header.size <= total);
        let decoded = decode_method(
            vstd::slice::slice_subrange(bytes, 7, 7 + header.size as usize),
        );
        let _ = self.receive_buffer.consume(taken);
        let method = match decoded {
            Ok(method) => method,
            Err(e) => {
                if header.channel_id == 0 {
                    self.state = ConnectionState::Error;
                } else {
                    self.break_channel(header.channel_id);
                }
                return Err(ConnectionError::Protocol(ProtocolError::Decode(e)));
            },
        };
        if header.channel_id == 0 {
            self.handle_global_method(method);
        } else {
            self.deliver(header.channel_id, method);
        }
        Ok(ConnectionState::Connected)
    }
}

/// The handshake never steps back, and a broken connection stays broken.
pub proof fn lemma_handshake_never_steps_back(
    state: ConnectionState,
    send: Buffer,
    method: MethodView,
    next_state: ConnectionState,
    next_send: Buffer,
)
    requires
        handshake_step(state, send, method, next_state, next_send),
    ensures
        rank(next_state) >= rank(state),
        state == ConnectionState::Error ==> next_state == ConnectionState::Error,
{
}

/// Reading never steps back, and a broken connection stays broken.
pub proof fn lemma_read_never_steps_back<E>(
    before: Connection,
    received: Result<usize, E>,
    after: Connection,
    outcome: Result<ConnectionState, ConnectionError<E>>,
)
    requires
        before.read_outcome(received, after, outcome),
    ensures
        rank(after.state) >= rank(before.state),
        before.state == ConnectionState::Error ==> after.state == ConnectionState::Error,
{
}

} // verus!
