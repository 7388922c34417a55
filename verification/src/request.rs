//! A request or a response: one header, the attribute groups, and at most
//! one payload.
use vstd::prelude::*;
use vstd::string::{StrSliceExecFns, StringExecFns};
use crate::attribute::{
    GroupView, IppAttributes, ATTRIBUTES_CHARSET, ATTRIBUTES_NATURAL_LANGUAGE, DEFAULT_CHARSET,
    DEFAULT_NATURAL_LANGUAGE, PRINTER_URI,
};
use crate::buffer::{buffer_put_slice, bytes_contents};
use crate::error::ParseError;
use crate::grammar::{attribute_wf, groups_wf, spec_message_bytes, spec_parse_message};
use crate::reader::{IppReader, ReaderView};
use crate::roundtrip::{attributes_wf, lemma_message_roundtrip};
use crate::header::{IppHeader, IppVersion};
use crate::operation::{Operation, StatusCode};
use crate::payload::IppPayload;
use crate::tag::DelimiterTag;
use crate::text::lemma_ascii_len;
use crate::wellformed::lemma_parsed_message_wf;
use crate::value::{AttributeView, IppAttribute, IppValue, ValueView};

verus! {

/// The request id of every new request.
pub const FIRST_REQUEST_ID: u32 = 1;

/// The mathematical content of an [`IppRequestResponse`].
pub struct RequestView<R> {
    pub header: IppHeader,
    pub groups: Seq<GroupView>,
    pub payload: Option<IppPayload<R>>,
}

/// A request or a response. `R` is the type of handle through which a
/// payload is read.
pub struct IppRequestResponse<R> {
    pub(crate) header: IppHeader,
    pub(crate) attributes: IppAttributes,
    pub(crate) payload: Option<IppPayload<R>>,
}

impl<R> View for IppRequestResponse<R> {
    type V = RequestView<R>;

    closed spec fn view(&self) -> RequestView<R> {
        RequestView { header: self.header, groups: self.attributes@, payload: self.payload }
    }
}

/// The two attributes that open the operation attributes of every message:
/// the character set, always `utf-8`, and the natural language, always `en`.
pub open spec fn spec_bootstrap() -> Seq<AttributeView> {
    seq![
        AttributeView { name: ATTRIBUTES_CHARSET@, value: ValueView::Charset(DEFAULT_CHARSET@) },
        AttributeView {
            name: ATTRIBUTES_NATURAL_LANGUAGE@,
            value: ValueView::NaturalLanguage(DEFAULT_NATURAL_LANGUAGE@),
        },
    ]
}

/// A target address as a request states it: a leading `http` is replaced by
/// `ipp`, so that `http://` becomes `ipp://` and `https://` becomes
/// `ipps://`; any other address stays as it is.
pub open spec fn spec_normalize_uri(uri: Seq<char>) -> Seq<char> {
    if uri.len() >= 4 && uri.subrange(0, 4) == seq!['h', 't', 't', 'p'] {
        seq!['i', 'p', 'p'] + uri.subrange(4, uri.len() as int)
    } else {
        uri
    }
}

/// The groups of a new message: one group of operation attributes, holding
/// the two opening attributes and then `extra`.
pub open spec fn spec_initial_groups(extra: Seq<AttributeView>) -> Seq<GroupView> {
    seq![
        GroupView { tag: DelimiterTag::OperationAttributes, attributes: spec_bootstrap() + extra },
    ]
}

/// The attributes that state the target of a request: the printer's address
/// where one is given, else nothing.
pub open spec fn spec_target(uri: Option<&str>) -> Seq<AttributeView> {
    match uri {
        Some(u) => seq![spec_printer_uri(u@)],
        None => Seq::empty(),
    }
}

/// The attribute that addresses the printer at `uri`.
pub open spec fn spec_printer_uri(uri: Seq<char>) -> AttributeView {
    AttributeView { name: PRINTER_URI@, value: ValueView::Uri(spec_normalize_uri(uri)) }
}

/// The two opening attributes are well formed.
pub proof fn lemma_bootstrap_wf()
    ensures
        attributes_wf(spec_bootstrap()),
        vstd::utf8::encode_utf8(PRINTER_URI@).len() == 11,
{
    reveal_strlit("attributes-charset");
    reveal_strlit("attributes-natural-language");
    reveal_strlit("printer-uri");
    reveal_strlit("utf-8");
    reveal_strlit("en");
    lemma_ascii_len(ATTRIBUTES_CHARSET@);
    lemma_ascii_len(ATTRIBUTES_NATURAL_LANGUAGE@);
    lemma_ascii_len(PRINTER_URI@);
    lemma_ascii_len(DEFAULT_CHARSET@);
    lemma_ascii_len(DEFAULT_NATURAL_LANGUAGE@);
    assert(attribute_wf(spec_bootstrap()[0]));
    assert(attribute_wf(spec_bootstrap()[1]));
}

/// The groups of a new message are well formed where the attributes behind
/// the two opening ones are.
pub proof fn lemma_initial_groups_wf(extra: Seq<AttributeView>)
    requires
        attributes_wf(extra),
    ensures
        groups_wf(spec_initial_groups(extra)),
{
    lemma_bootstrap_wf();
    let all = spec_bootstrap() + extra;
    assert forall|i: int| 0 <= i < all.len() implies attribute_wf(#[trigger] all[i]) by {
        if i < 2 {
            assert(all[i] == spec_bootstrap()[i]);
        } else {
            assert(all[i] == extra[i - 2]);
        }
    }
}

/// Replaces a leading `http` by `ipp`.
pub fn normalize_uri(uri: &str) -> (r: String)
    ensures
        r@ == spec_normalize_uri(uri@),
{
    let n: usize = uri.unicode_len();
    if n >= 4 && uri.get_char(0) == 'h' && uri.get_char(1) == 't' && uri.get_char(2) == 't'
        && uri.get_char(3) == 'p' {
        let rest = uri.substring_char(4, n);
        let r = String::from_str("ipp").concat(rest);
        proof {
            reveal_strlit("ipp");
            assert(uri@.subrange(0, 4) =~= seq!['h', 't', 't', 'p']);
            assert("ipp"@ =~= seq!['i', 'p', 'p']);
        }
        r
    } else {
        proof {
            if uri@.len() >= 4 && uri@.subrange(0, 4) == seq!['h', 't', 't', 'p'] {
                assert(uri@.subrange(0, 4)[0] == 'h');
                assert(uri@.subrange(0, 4)[1] == 't');
                assert(uri@.subrange(0, 4)[2] == 't');
                assert(uri@.subrange(0, 4)[3] == 'p');
            }
        }
        String::from_str(uri)
    }
}

impl<R> IppRequestResponse<R> {
    /// A message with the given header, the two opening attributes and no
    /// payload.
    fn with_header(header: IppHeader) -> (r: IppRequestResponse<R>)
        ensures
            r@.header == header,
            r@.groups == spec_initial_groups(Seq::empty()),
            r@.payload is None,
    {
        let mut retval = IppRequestResponse {
            header,
            attributes: IppAttributes::new(),
            payload: None,
        };
        retval.attributes_mut().add(
            DelimiterTag::OperationAttributes,
            IppAttribute::new(ATTRIBUTES_CHARSET, IppValue::Charset(String::from_str(DEFAULT_CHARSET))),
        );
        retval.attributes_mut().add(
            DelimiterTag::OperationAttributes,
            IppAttribute::new(
                ATTRIBUTES_NATURAL_LANGUAGE,
                IppValue::NaturalLanguage(String::from_str(DEFAULT_NATURAL_LANGUAGE)),
            ),
        );
        assert(retval@.groups =~= spec_initial_groups(Seq::empty())) by {
            assert(retval@.groups[0].attributes =~= spec_bootstrap() + Seq::empty());
        }
        retval
    }

    /// A new request for `operation`, with the first request id. It holds
    /// one group of operation attributes: the character set, the natural
    /// language, and, where `uri` is given, the printer's address with a
    /// leading `http` replaced by `ipp`.
    pub fn new(version: IppVersion, operation: Operation, uri: Option<&str>) -> (r:
        IppRequestResponse<R>)
        ensures
            r@.header == (IppHeader {
                version,
                code: operation.spec_code(),
                request_id: FIRST_REQUEST_ID,
            }),
            r@.groups == spec_initial_groups(spec_target(uri)),
            r@.payload is None,
            (match uri {
                Some(u) => vstd::utf8::encode_utf8(spec_normalize_uri(u@)).len() <= 0xffff,
                None => true,
            }) ==> groups_wf(r@.groups),
    {
        proof {
            lemma_bootstrap_wf();
            match uri {
                Some(u) => {
                    if vstd::utf8::encode_utf8(spec_normalize_uri(u@)).len() <= 0xffff {
                        assert(attribute_wf(spec_printer_uri(u@)));
                        lemma_initial_groups_wf(seq![spec_printer_uri(u@)]);
                    }
                },
                None => {
                    lemma_initial_groups_wf(Seq::empty());
                },
            }
        }
        let hdr = IppHeader::new(version, operation.code(), FIRST_REQUEST_ID);
        let mut retval = Self::with_header(hdr);
        if let Some(uri) = uri {
            retval.attributes_mut().add(
                DelimiterTag::OperationAttributes,
                IppAttribute::new(PRINTER_URI, IppValue::Uri(normalize_uri(uri))),
            );
            assert(retval@.groups =~= spec_initial_groups(seq![spec_printer_uri(uri@)])) by {
                assert(retval@.groups[0].attributes =~= spec_bootstrap() + seq![
                    spec_printer_uri(uri@),
                ]);
            }
        }
        retval
    }

    /// A new response that reports `status` to the request `id`. It holds
    /// one group of operation attributes: the character set and the natural
    /// language.
    pub fn new_response(version: IppVersion, status: StatusCode, id: u32) -> (r:
        IppRequestResponse<R>)
        ensures
            r@.header == (IppHeader { version, code: status.spec_code(), request_id: id }),
            r@.groups == spec_initial_groups(Seq::empty()),
            r@.payload is None,
            groups_wf(r@.groups),
    {
        proof {
            lemma_initial_groups_wf(Seq::empty());
        }
        let hdr = IppHeader::new(version, status.code(), id);
        Self::with_header(hdr)
    }

    /// The header.
    pub fn header(&self) -> (h: &IppHeader)
        ensures
            *h == self@.header,
    {
        &self.header
    }

    /// The header, for change in place: the message ends up with the header
    /// that the caller leaves behind, and is otherwise unchanged.
    pub fn header_mut(&mut self) -> (h: &mut IppHeader)
        ensures
            *h == old(self)@.header,
            final(self)@ == (RequestView { header: *final(h), ..old(self)@ }),
    {
        &mut self.header
    }

    /// The attribute groups.
    pub fn attributes(&self) -> (a: &IppAttributes)
        ensures
            a@ == self@.groups,
    {
        &self.attributes
    }

    /// The attribute groups, for change in place: the message ends up with
    /// the groups that the caller leaves behind, and is otherwise unchanged.
    pub fn attributes_mut(&mut self) -> (a: &mut IppAttributes)
        ensures
            a@ == old(self)@.groups,
            final(self)@ == (RequestView { groups: final(a)@, ..old(self)@ }),
    {
        &mut self.attributes
    }

    /// The payload, if the message has one.
    pub fn payload(&self) -> (p: Option<&IppPayload<R>>)
        ensures
            match p {
                Some(inner) => self@.payload == Some(*inner),
                None => self@.payload is None,
            },
    {
        self.payload.as_ref()
    }

    /// The place of the payload, for change in place: the message ends up
    /// with the payload, or the absence of one, that the caller leaves
    /// behind, and is otherwise unchanged.
    pub fn payload_mut(&mut self) -> (p: &mut Option<IppPayload<R>>)
        ensures
            *p == old(self)@.payload,
            final(self)@ == (RequestView { payload: *final(p), ..old(self)@ }),
    {
        &mut self.payload
    }

    /// Decodes a message from the bytes that a transport received: the
    /// message, without a payload, and the place in `data` where the payload
    /// starts. The bytes from that place on were not looked at; the caller
    /// hands them, and whatever the transport still brings, on as the
    /// payload. A decoded message is well formed. On any failure nothing of
    /// what was read is handed out.
    pub fn from_bytes(data: &[u8]) -> (r: Result<(IppRequestResponse<R>, usize), ParseError>)
        ensures
            match r {
                Ok((message, end)) => end <= data@.len() && message@.payload is None && groups_wf(
                    message@.groups,
                ) && spec_parse_message(data@) == Ok::<
                    (IppHeader, Seq<GroupView>, int),
                    ParseError,
                >((message@.header, message@.groups, end as int)),
                Err(e) => spec_parse_message(data@) == Err::<
                    (IppHeader, Seq<GroupView>, int),
                    ParseError,
                >(e),
            },
    {
        proof {
            lemma_parsed_message_wf(data@);
        }
        let header = match IppHeader::from_bytes(data) {
            Err(e) => {
                return Err(e);
            },
            Ok(header) => header,
        };
        match IppAttributes::from_bytes(data, 8) {
            Err(e) => Err(e),
            Ok((attributes, end)) => Ok((IppRequestResponse { header, attributes, payload: None }, end)),
        }
    }

    /// The bytes of the message without its payload.
    pub open spec fn spec_bytes(&self) -> Seq<u8> {
        spec_message_bytes(self@.header, self@.groups)
    }

    /// Encodes the header and the attribute groups; the payload is not part
    /// of the result.
    pub fn to_vec(&self) -> (out: Vec<u8>)
        ensures
            out@ == self.spec_bytes(),
    {
        let mut out = self.header.to_bytes();
        self.attributes.write(&mut out);
        out
    }

    /// Encodes the header and the attribute groups into a frozen buffer; the
    /// payload is not part of the result. The encoding must not be longer
    /// than the largest buffer that can be allocated.
    pub fn to_bytes(&self) -> (out: bytes::Bytes)
        requires
            self.spec_bytes().len() <= isize::MAX,
        ensures
            bytes_contents(out) == self.spec_bytes(),
    {
        let header = self.header.to_bytes();
        let attributes = self.attributes.to_bytes();
        let mut buffer = bytes::BytesMut::new();
        buffer_put_slice(&mut buffer, header.as_slice());
        buffer_put_slice(&mut buffer, attributes.as_slice());
        buffer.freeze()
    }

    /// Encodes the header and the attribute groups into a frozen buffer, or
    /// returns `None` where the encoding is longer than the largest buffer
    /// that can be allocated.
    pub fn try_to_bytes(&self) -> (r: Option<bytes::Bytes>)
        ensures
            r is Some <==> self.spec_bytes().len() <= isize::MAX,
            r matches Some(out) ==> bytes_contents(out) == self.spec_bytes(),
    {
        let all = self.to_vec();
        if all.len() <= isize::MAX as usize {
            let mut buffer = bytes::BytesMut::new();
            buffer_put_slice(&mut buffer, all.as_slice());
            Some(buffer.freeze())
        } else {
            None
        }
    }

    /// Turns the message into one forward-only source of bytes: the encoded
    /// header and attributes first, then the payload, which is handed on as
    /// it is and never copied.
    pub fn into_reader(self) -> (r: IppReader<R>)
        ensures
            r@ == (ReaderView { head: self.spec_bytes(), pos: 0, payload: self@.payload }),
    {
        let head = self.to_vec();
        IppReader::new(head, self.payload)
    }

    /// Round trip of a message: where its groups are well formed, the bytes
    /// of a message, whatever payload follows them, decode to its header and
    /// its groups, and the payload is found to start right behind them.
    pub proof fn lemma_roundtrip(self, payload: Seq<u8>)
        requires
            groups_wf(self@.groups),
        ensures
            spec_parse_message(self.spec_bytes() + payload) == Ok::<
                (IppHeader, Seq<GroupView>, int),
                ParseError,
            >((self@.header, self@.groups, self.spec_bytes().len() as int)),
    {
        lemma_message_roundtrip(self@.header, self@.groups, payload);
    }
}

} // verus!
