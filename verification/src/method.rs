//! Methods: the typed messages that method frames carry.
//!
//! The two methods that open the handshake are decoded field by field.
//! Every other method is carried as its identifiers and argument bytes.

use crate::error::{DecodeError, EncodeError};
use crate::table::{well_formed_table, FieldTable};
use crate::wire::{copy_range, put_bytes, put_u16, put_u32, read_u16};
use crate::wire::{long_string, long_string_at, short_string, short_string_at};
use crate::wire::{take_long_string, take_short_string, u16_at, u16_be, u32_at};
use crate::wire::{lemma_long_string_round_trip, lemma_short_string_round_trip};
use crate::wire::{lemma_u16_be_len, lemma_u16_bytes_round_trip, lemma_u16_written};
use crate::wire::{lemma_u32_be_len, lemma_u32_bytes_round_trip};
use vstd::prelude::*;

verus! {

/// Class identifier of the connection class.
pub const CLASS_CONNECTION: u16 = 10;

/// Method identifier of connection.start.
pub const METHOD_START: u16 = 10;

/// Method identifier of connection.start-ok.
pub const METHOD_START_OK: u16 = 11;

/// connection.start: the server opens the negotiation.
#[derive(Clone, Debug, PartialEq, Eq)]
pub struct Start {
    pub version_major: u8,
    pub version_minor: u8,
    pub server_properties: FieldTable,
    pub mechanisms: Vec<u8>,
    pub locales: Vec<u8>,
}

/// connection.start-ok: the client picks a mechanism and a locale.
#[derive(Clone, Debug, PartialEq, Eq)]
pub struct StartOk {
    pub client_properties: FieldTable,
    pub mechanism: Vec<u8>,
    pub response: Vec<u8>,
    pub locale: Vec<u8>,
}

/// A decoded method.
#[derive(Clone, Debug, PartialEq, Eq)]
pub enum Method {
    ConnectionStart(Start),
    ConnectionStartOk(StartOk),
    /// Any method but the two above.
    Other { class_id: u16, method_id: u16, arguments: Vec<u8> },
}

/// What a `Start` holds.
pub struct StartView {
    pub version_major: u8,
    pub version_minor: u8,
    pub server_properties: Seq<u8>,
    pub mechanisms: Seq<u8>,
    pub locales: Seq<u8>,
}

/// What a `StartOk` holds.
pub struct StartOkView {
    pub client_properties: Seq<u8>,
    pub mechanism: Seq<u8>,
    pub response: Seq<u8>,
    pub locale: Seq<u8>,
}

/// What a `Method` holds.
pub enum MethodView {
    ConnectionStart(StartView),
    ConnectionStartOk(StartOkView),
    Other { class_id: u16, method_id: u16, arguments: Seq<u8> },
}

impl View for Start {
    type V = StartView;

    open spec fn view(&self) -> StartView {
        StartView {
            version_major: self.version_major,
            version_minor: self.version_minor,
            server_properties: self.server_properties@,
            mechanisms: self.mechanisms@,
            locales: self.locales@,
        }
    }
}

impl View for StartOk {
    type V = StartOkView;

    open spec fn view(&self) -> StartOkView {
        StartOkView {
            client_properties: self.client_properties@,
            mechanism: self.mechanism@,
            response: self.response@,
            locale: self.locale@,
        }
    }
}

impl View for Method {
    type V = MethodView;

    open spec fn view(&self) -> MethodView {
        match self {
            Method::ConnectionStart(start) => MethodView::ConnectionStart(start@),
            Method::ConnectionStartOk(start_ok) => MethodView::ConnectionStartOk(start_ok@),
            Method::Other { class_id, method_id, arguments } => MethodView::Other {
                class_id: *class_id,
                method_id: *method_id,
                arguments: arguments@,
            },
        }
    }
}

impl Method {
    /// The field tables inside are well formed.
    pub open spec fn wf(&self) -> bool {
        match self {
            Method::ConnectionStart(start) => start.server_properties.wf(),
            Method::ConnectionStartOk(start_ok) => start_ok.client_properties.wf(),
            Method::Other { .. } => true,
        }
    }
}

/// Whether the identifiers are those of a method that is decoded field by
/// field.
pub open spec fn is_known(class_id: u16, method_id: u16) -> bool {
    class_id == CLASS_CONNECTION && (method_id == METHOD_START || method_id == METHOD_START_OK)
}

/// Whether a method can be put on the wire: every field fits its length
/// prefix, the tables are well formed, and a method carried as bytes does
/// not claim the identifiers of a decoded one.
pub open spec fn encodable(v: MethodView) -> bool {
    match v {
        MethodView::ConnectionStart(s) => well_formed_table(s.server_properties)
            && s.server_properties.len() <= u32::MAX && s.mechanisms.len() <= u32::MAX
            && s.locales.len() <= u32::MAX,
        MethodView::ConnectionStartOk(s) => well_formed_table(s.client_properties)
            && s.client_properties.len() <= u32::MAX && s.mechanism.len() <= 255
            && s.response.len() <= u32::MAX && s.locale.len() <= 255,
        MethodView::Other { class_id, method_id, arguments } => !is_known(class_id, method_id),
    }
}

/// The argument bytes of connection.start.
pub open spec fn start_arguments(s: StartView) -> Seq<u8> {
    seq![s.version_major, s.version_minor] + long_string(s.server_properties) + long_string(
        s.mechanisms,
    ) + long_string(s.locales)
}

/// The argument bytes of connection.start-ok.
pub open spec fn start_ok_arguments(s: StartOkView) -> Seq<u8> {
    long_string(s.client_properties) + short_string(s.mechanism) + long_string(s.response)
        + short_string(s.locale)
}

/// Class identifier of a method.
pub open spec fn class_of(v: MethodView) -> u16 {
    match v {
        MethodView::Other { class_id, method_id, arguments } => class_id,
        _ => CLASS_CONNECTION,
    }
}

/// Method identifier of a method.
pub open spec fn method_of(v: MethodView) -> u16 {
    match v {
        MethodView::ConnectionStart(s) => METHOD_START,
        MethodView::ConnectionStartOk(s) => METHOD_START_OK,
        MethodView::Other { class_id, method_id, arguments } => method_id,
    }
}

/// Argument bytes of a method.
pub open spec fn arguments_of(v: MethodView) -> Seq<u8> {
    match v {
        MethodView::ConnectionStart(s) => start_arguments(s),
        MethodView::ConnectionStartOk(s) => start_ok_arguments(s),
        MethodView::Other { class_id, method_id, arguments } => arguments,
    }
}

/// The payload of the frame that carries a method: class, method,
/// arguments.
pub open spec fn method_payload(v: MethodView) -> Seq<u8> {
    u16_be(class_of(v)) + u16_be(method_of(v)) + arguments_of(v)
}

/// The connection.start that `a` is the arguments of.
pub open spec fn parse_start(a: Seq<u8>) -> Option<StartView> {
    if a.len() < 2 {
        None
    } else {
        match long_string_at(a, 2) {
            None => None,
            Some(table) => match long_string_at(a, (6 + table.len()) as int) {
                None => None,
                Some(mechanisms) => match long_string_at(
                    a,
                    (10 + table.len() + mechanisms.len()) as int,
                ) {
                    None => None,
                    Some(locales) => if 14 + table.len() + mechanisms.len() + locales.len()
                        == a.len() && well_formed_table(table) {
                        Some(
                            StartView {
                                version_major: a[0],
                                version_minor: a[1],
                                server_properties: table,
                                mechanisms,
                                locales,
                            },
                        )
                    } else {
                        None
                    },
                },
            },
        }
    }
}

/// The connection.start-ok that `a` is the arguments of.
pub open spec fn parse_start_ok(a: Seq<u8>) -> Option<StartOkView> {
    match long_string_at(a, 0) {
        None => None,
        Some(table) => match short_string_at(a, (4 + table.len()) as int) {
            None => None,
            Some(mechanism) => match long_string_at(
                a,
                (5 + table.len() + mechanism.len()) as int,
            ) {
                None => None,
                Some(response) => match short_string_at(
                    a,
                    (9 + table.len() + mechanism.len() + response.len()) as int,
                ) {
                    None => None,
                    Some(locale) => if 10 + table.len() + mechanism.len() + response.len()
                        + locale.len() == a.len() && well_formed_table(table) {
                        Some(
                            StartOkView {
                                client_properties: table,
                                mechanism,
                                response,
                                locale,
                            },
                        )
                    } else {
                        None
                    },
                },
            },
        },
    }
}

/// The method that `payload` encodes. The payload must be used up.
pub open spec fn parse_method(payload: Seq<u8>) -> Result<MethodView, DecodeError> {
    if payload.len() < 4 {
        Err(DecodeError::MalformedMethod)
    } else {
        let class_id = u16_at(payload, 0);
        let method_id = u16_at(payload, 2);
        let arguments = payload.subrange(4, payload.len() as int);
        if class_id == CLASS_CONNECTION && method_id == METHOD_START {
            match parse_start(arguments) {
                Some(s) => Ok(MethodView::ConnectionStart(s)),
                None => Err(DecodeError::MalformedMethod),
            }
        } else if class_id == CLASS_CONNECTION && method_id == METHOD_START_OK {
            match parse_start_ok(arguments) {
                Some(s) => Ok(MethodView::ConnectionStartOk(s)),
                None => Err(DecodeError::MalformedMethod),
            }
        } else {
            Ok(MethodView::Other { class_id, method_id, arguments })
        }
    }
}

fn decode_start(args: &[u8]) -> (start: Option<Start>)
    ensures
        match start {
            Some(s) => parse_start(args@) == Some(s@) && s.server_properties.wf(),
            None => parse_start(args@) is None,
        },
{
    if args.len() < 2 {
        return None;
    }
    let table = match take_long_string(args, 2) {
        Some(bytes) => bytes,
        None => {
            return None;
        },
    };
    let mechanisms_at: usize = 6 + table.len();
    let mechanisms = match take_long_string(args, mechanisms_at) {
        Some(bytes) => bytes,
        None => {
            return None;
        },
    };
    let locales_at: usize = mechanisms_at + 4 + mechanisms.len();
    let locales = match take_long_string(args, locales_at) {
        Some(bytes) => bytes,
        None => {
            return None;
        },
    };
    if locales_at + 4 + locales.len() != args.len() {
        return None;
    }
    let server_properties = match FieldTable::from_bytes(table) {
        Some(t) => t,
        None => {
            return None;
        },
    };
    Some(
        Start {
            version_major: args[0],
            version_minor: args[1],
            server_properties,
            mechanisms,
            locales,
        },
    )
}

fn decode_start_ok(args: &[u8]) -> (start_ok: Option<StartOk>)
    ensures
        match start_ok {
            Some(s) => parse_start_ok(args@) == Some(s@) && s.client_properties.wf(),
            None => parse_start_ok(args@) is None,
        },
{
    let total: usize = args.len();
    let table = match take_long_string(args, 0) {
        Some(bytes) => bytes,
        None => {
            return None;
        },
    };
    let mechanism_at: usize = 4 + table.len();
    let mechanism = match take_short_string(args, mechanism_at) {
        Some(bytes) => bytes,
        None => {
            return None;
        },
    };
    let response_at: usize = mechanism_at + 1 + mechanism.len();
    let response = match take_long_string(args, response_at) {
        Some(bytes) => bytes,
        None => {
            return None;
        },
    };
    let locale_at: usize = response_at + 4 + response.len();
    let locale = match take_short_string(args, locale_at) {
        Some(bytes) => bytes,
        None => {
            return None;
        },
    };
    if locale_at + 1 + locale.len() != total {
        return None;
    }
    let client_properties = match FieldTable::from_bytes(table) {
        Some(t) => t,
        None => {
            return None;
        },
    };
    Some(StartOk { client_properties, mechanism, response, locale })
}

/// Decodes the payload of a method frame.
pub fn decode_method(payload: &[u8]) -> (decoded: Result<Method, DecodeError>)
    ensures
        match decoded {
            Ok(method) => parse_method(payload@) == Ok::<MethodView, DecodeError>(method@)
                && method.wf(),
            Err(e) => parse_method(payload@) == Err::<MethodView, DecodeError>(e),
        },
{
    if payload.len() < 4 {
        return Err(DecodeError::MalformedMethod);
    }
    let class_id: u16 = read_u16(payload, 0);
    let method_id: u16 = read_u16(payload, 2);
    let args = vstd::slice::slice_subrange(payload, 4, payload.len());
    if class_id == CLASS_CONNECTION && method_id == METHOD_START {
        match decode_start(args) {
            Some(start) => Ok(Method::ConnectionStart(start)),
            None => Err(DecodeError::MalformedMethod),
        }
    } else if class_id == CLASS_CONNECTION && method_id == METHOD_START_OK {
        match decode_start_ok(args) {
            Some(start_ok) => Ok(Method::ConnectionStartOk(start_ok)),
            None => Err(DecodeError::MalformedMethod),
        }
    } else {
        Ok(Method::Other { class_id, method_id, arguments: copy_range(payload, 4, payload.len()) })
    }
}

/// Appends a long string, or says that the content is too long for one.
fn put_long_string(out: &mut Vec<u8>, content: &[u8]) -> (fits: bool)
    ensures
        fits == (content@.len() <= u32::MAX),
        fits ==> final(out)@ == old(out)@ + long_string(content@),
        !fits ==> final(out)@ == old(out)@,
{
    if content.len() > 0xffff_ffff {
        return false;
    }
    put_u32(out, content.len() as u32);
    put_bytes(out, content);
    assert(out@ =~= old(out)@ + long_string(content@));
    true
}

/// Appends a short string, or says that the content is too long for one.
fn put_short_string(out: &mut Vec<u8>, content: &[u8]) -> (fits: bool)
    ensures
        fits == (content@.len() <= 255),
        fits ==> final(out)@ == old(out)@ + short_string(content@),
        !fits ==> final(out)@ == old(out)@,
{
    if content.len() > 255 {
        return false;
    }
    out.push(content.len() as u8);
    put_bytes(out, content);
    assert(out@ =~= old(out)@ + short_string(content@));
    true
}

/// Encodes a method as the payload of a method frame.
pub fn encode_method(method: &Method) -> (encoded: Result<Vec<u8>, EncodeError>)
    requires
        method.wf(),
    ensures
        match encoded {
            Ok(bytes) => encodable(method@) && bytes@ == method_payload(method@),
            Err(e) => !encodable(method@) && e == EncodeError::Unencodable,
        },
{
    let mut out: Vec<u8> = Vec::new();
    match method {
        Method::ConnectionStart(start) => {
            put_u16(&mut out, CLASS_CONNECTION);
            put_u16(&mut out, METHOD_START);
            out.push(start.version_major);
            out.push(start.version_minor);
            if !put_long_string(&mut out, start.server_properties.as_bytes()) {
                return Err(EncodeError::Unencodable);
            }
            if !put_long_string(&mut out, start.mechanisms.as_slice()) {
                return Err(EncodeError::Unencodable);
            }
            if !put_long_string(&mut out, start.locales.as_slice()) {
                return Err(EncodeError::Unencodable);
            }
            assert(out@ =~= method_payload(method@));
        },
        Method::ConnectionStartOk(start_ok) => {
            put_u16(&mut out, CLASS_CONNECTION);
            put_u16(&mut out, METHOD_START_OK);
            if !put_long_string(&mut out, start_ok.client_properties.as_bytes()) {
                return Err(EncodeError::Unencodable);
            }
            if !put_short_string(&mut out, start_ok.mechanism.as_slice()) {
                return Err(EncodeError::Unencodable);
            }
            if !put_long_string(&mut out, start_ok.response.as_slice()) {
                return Err(EncodeError::Unencodable);
            }
            if !put_short_string(&mut out, start_ok.locale.as_slice()) {
                return Err(EncodeError::Unencodable);
            }
            assert(out@ =~= method_payload(method@));
        },
        Method::Other { class_id, method_id, arguments } => {
            if *class_id == CLASS_CONNECTION && (*method_id == METHOD_START || *method_id
                == METHOD_START_OK) {
                return Err(EncodeError::Unencodable);
            }
            put_u16(&mut out, *class_id);
            put_u16(&mut out, *method_id);
            put_bytes(&mut out, arguments.as_slice());
            assert(out@ =~= method_payload(method@));
        },
    }
    Ok(out)
}

/// The arguments of a connection.start are read back as written.
pub proof fn lemma_start_round_trip(s: StartView)
    requires
        encodable(MethodView::ConnectionStart(s)),
    ensures
        parse_start(start_arguments(s)) == Some(s),
{
    let a = start_arguments(s);
    let empty = Seq::<u8>::empty();
    let head = seq![s.version_major, s.version_minor];
    let with_table = head + long_string(s.server_properties);
    let with_mechanisms = with_table + long_string(s.mechanisms);
    assert(a =~= head + long_string(s.server_properties) + (long_string(s.mechanisms)
        + long_string(s.locales)));
    lemma_long_string_round_trip(
        head,
        s.server_properties,
        long_string(s.mechanisms) + long_string(s.locales),
    );
    assert(a =~= with_table + long_string(s.mechanisms) + long_string(s.locales));
    lemma_long_string_round_trip(with_table, s.mechanisms, long_string(s.locales));
    assert(a =~= with_mechanisms + long_string(s.locales) + empty);
    lemma_long_string_round_trip(with_mechanisms, s.locales, empty);
    assert(a[0] == s.version_major && a[1] == s.version_minor);
}

/// The arguments of a connection.start-ok are read back as written.
pub proof fn lemma_start_ok_round_trip(s: StartOkView)
    requires
        encodable(MethodView::ConnectionStartOk(s)),
    ensures
        parse_start_ok(start_ok_arguments(s)) == Some(s),
{
    let a = start_ok_arguments(s);
    let empty = Seq::<u8>::empty();
    let with_table = long_string(s.client_properties);
    let with_mechanism = with_table + short_string(s.mechanism);
    let with_response = with_mechanism + long_string(s.response);
    assert(a =~= empty + long_string(s.client_properties) + (short_string(s.mechanism)
        + long_string(s.response) + short_string(s.locale)));
    lemma_long_string_round_trip(
        empty,
        s.client_properties,
        short_string(s.mechanism) + long_string(s.response) + short_string(s.locale),
    );
    assert(a =~= with_table + short_string(s.mechanism) + (long_string(s.response) + short_string(
        s.locale,
    )));
    lemma_short_string_round_trip(
        with_table,
        s.mechanism,
        long_string(s.response) + short_string(s.locale),
    );
    assert(a =~= with_mechanism + long_string(s.response) + short_string(s.locale));
    lemma_long_string_round_trip(with_mechanism, s.response, short_string(s.locale));
    assert(a =~= with_response + short_string(s.locale) + empty);
    lemma_short_string_round_trip(with_response, s.locale, empty);
}

/// Decoding the encoding of a method gives the method back.
pub proof fn lemma_method_round_trip(v: MethodView)
    requires
        encodable(v),
    ensures
        parse_method(method_payload(v)) == Ok::<MethodView, DecodeError>(v),
        method_payload(v).len() == 4 + arguments_of(v).len(),
{
    let payload = method_payload(v);
    let empty = Seq::<u8>::empty();
    lemma_u16_be_len(class_of(v));
    lemma_u16_be_len(method_of(v));
    assert(payload =~= empty + u16_be(class_of(v)) + (u16_be(method_of(v)) + arguments_of(v)));
    lemma_u16_written(empty, class_of(v), u16_be(method_of(v)) + arguments_of(v));
    lemma_u16_written(u16_be(class_of(v)), method_of(v), arguments_of(v));
    assert(payload.subrange(4, payload.len() as int) =~= arguments_of(v));
    match v {
        MethodView::ConnectionStart(s) => {
            lemma_start_round_trip(s);
        },
        MethodView::ConnectionStartOk(s) => {
            lemma_start_ok_round_trip(s);
        },
        MethodView::Other { class_id, method_id, arguments } => {},
    }
}

/// A long string that was read is written out as the bytes it was read
/// from.
pub proof fn lemma_long_string_read(a: Seq<u8>, at: int)
    requires
        long_string_at(a, at) is Some,
    ensures
        long_string_at(a, at).unwrap().len() <= u32::MAX,
        long_string(long_string_at(a, at).unwrap()) == a.subrange(
            at,
            at + 4 + long_string_at(a, at).unwrap().len(),
        ),
{
    let content = long_string_at(a, at).unwrap();
    lemma_u32_bytes_round_trip(a, at);
    lemma_u32_be_len(u32_at(a, at));
    assert(long_string(content) =~= a.subrange(at, at + 4 + content.len()));
}

/// A short string that was read is written out as the bytes it was read
/// from.
pub proof fn lemma_short_string_read(a: Seq<u8>, at: int)
    requires
        short_string_at(a, at) is Some,
    ensures
        short_string_at(a, at).unwrap().len() <= 255,
        short_string(short_string_at(a, at).unwrap()) == a.subrange(
            at,
            at + 1 + short_string_at(a, at).unwrap().len(),
        ),
{
    let content = short_string_at(a, at).unwrap();
    assert(short_string(content) =~= a.subrange(at, at + 1 + content.len()));
}

/// Encoding a decoded method gives the payload back: only the encoding of
/// a method is decoded, and no two payloads decode to the same method.
pub proof fn lemma_payload_round_trip(payload: Seq<u8>)
    requires
        parse_method(payload) is Ok,
    ensures
        encodable(parse_method(payload).unwrap()),
        method_payload(parse_method(payload).unwrap()) == payload,
{
    let v = parse_method(payload).unwrap();
    let a = payload.subrange(4, payload.len() as int);
    lemma_u16_bytes_round_trip(payload, 0);
    lemma_u16_bytes_round_trip(payload, 2);
    lemma_u16_be_len(class_of(v));
    lemma_u16_be_len(method_of(v));
    match v {
        MethodView::ConnectionStart(s) => {
            let table_end = 6 + s.server_properties.len();
            let mechanisms_end = table_end + 4 + s.mechanisms.len();
            lemma_long_string_read(a, 2);
            lemma_long_string_read(a, table_end as int);
            lemma_long_string_read(a, mechanisms_end as int);
            assert(start_arguments(s) =~= a);
        },
        MethodView::ConnectionStartOk(s) => {
            let table_end = 4 + s.client_properties.len();
            let mechanism_end = table_end + 1 + s.mechanism.len();
            let response_end = mechanism_end + 4 + s.response.len();
            lemma_long_string_read(a, 0);
            lemma_short_string_read(a, table_end as int);
            lemma_long_string_read(a, mechanism_end as int);
            lemma_short_string_read(a, response_end as int);
            assert(start_ok_arguments(s) =~= a);
        },
        MethodView::Other { class_id, method_id, arguments } => {},
    }
    assert(method_payload(v) =~= payload);
}

} // verus!
