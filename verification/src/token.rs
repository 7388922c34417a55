//! The flat layer of the wire format. Behind the header a message is a run of
//! tokens, closed by the end-of-attributes tag: a delimiter tag, which is one
//! byte, or a record of a value tag, a name and a value field, each of the two
//! behind its two-byte length.
use vstd::prelude::*;
use crate::error::ParseError;
use crate::tag::{DelimiterTag, ValueTag};
use crate::wire::{
    get_u16, lemma_u16_roundtrip, put_len16, put_slice, spec_len16, spec_u16_at, spec_u16_be,
};

verus! {

/// The byte that closes the attribute section.
pub const END_OF_ATTRIBUTES: u8 = 0x03;

/// A record as the stream carries it.
pub struct RecordView {
    pub tag: ValueTag,
    pub name: Seq<u8>,
    pub value: Seq<u8>,
}

/// A token as the stream carries it.
pub enum TokenView {
    Group(DelimiterTag),
    Value(RecordView),
}

/// The record with the given tag, name and value field.
pub open spec fn record(tag: ValueTag, name: Seq<u8>, value: Seq<u8>) -> TokenView {
    TokenView::Value(RecordView { tag, name, value })
}

impl RecordView {
    /// The bytes of a record.
    pub open spec fn encoded(self) -> Seq<u8> {
        seq![self.tag.spec_to_u8()] + spec_u16_be(spec_len16(self.name.len())) + self.name
            + spec_u16_be(spec_len16(self.value.len())) + self.value
    }

    /// True where both lengths fit their two-byte fields.
    pub open spec fn wf(self) -> bool {
        self.name.len() <= 0xffff && self.value.len() <= 0xffff
    }
}

impl TokenView {
    /// The bytes of a token.
    pub open spec fn encoded(self) -> Seq<u8> {
        match self {
            TokenView::Group(d) => seq![d.spec_to_u8()],
            TokenView::Value(r) => r.encoded(),
        }
    }

    /// True of a token that can be read back from its bytes: a delimiter
    /// other than end-of-attributes, or a record whose lengths fit.
    pub open spec fn wf(self) -> bool {
        match self {
            TokenView::Group(d) => d != DelimiterTag::EndOfAttributes,
            TokenView::Value(r) => r.wf(),
        }
    }
}

/// The bytes of a run of tokens, one after the other.
pub open spec fn tokens_bytes(ts: Seq<TokenView>) -> Seq<u8>
    decreases ts.len(),
{
    if ts.len() == 0 {
        Seq::empty()
    } else {
        ts[0].encoded() + tokens_bytes(ts.drop_first())
    }
}

/// True where every token of the run can be read back from its bytes.
pub open spec fn tokens_wf(ts: Seq<TokenView>) -> bool {
    forall|i: int| 0 <= i < ts.len() ==> (#[trigger] ts[i]).wf()
}

/// The token that starts at `pos` and the position behind it. The caller
/// has seen that a byte stands at `pos`.
#[verifier::opaque]
pub open spec fn spec_lex_token(s: Seq<u8>, pos: int) -> Result<(TokenView, int), ParseError>
    recommends
        0 <= pos < s.len(),
{
    if let Some(d) = DelimiterTag::spec_from_u8(s[pos]) {
        Ok((TokenView::Group(d), pos + 1))
    } else if let Some(tag) = ValueTag::spec_from_u8(s[pos]) {
        if pos + 3 > s.len() {
            Err(ParseError::UnexpectedEndOfStream)
        } else {
            let name_len = spec_u16_at(s, pos + 1) as int;
            if pos + 5 + name_len > s.len() {
                Err(ParseError::UnexpectedEndOfStream)
            } else {
                let value_len = spec_u16_at(s, pos + 3 + name_len) as int;
                if pos + 5 + name_len + value_len > s.len() {
                    Err(ParseError::UnexpectedEndOfStream)
                } else {
                    Ok(
                        (
                            record(
                                tag,
                                s.subrange(pos + 3, pos + 3 + name_len),
                                s.subrange(pos + 5 + name_len, pos + 5 + name_len + value_len),
                            ),
                            pos + 5 + name_len + value_len,
                        ),
                    )
                }
            }
        }
    } else {
        Err(ParseError::UnknownTag(s[pos]))
    }
}

/// The tokens from `pos` on, and how they end: with the position behind the
/// end-of-attributes tag, or with the error on which reading stopped. The
/// stream must hold that tag: running out of bytes first is an
/// `UnexpectedEndOfStream`, and so is a record cut short. A tag byte of
/// neither vocabulary is an `UnknownTag`. The tokens before an error are
/// still given: whoever reads them in order meets the error only where it
/// stands.
pub open spec fn spec_lex(s: Seq<u8>, pos: int) -> (Seq<TokenView>, Result<int, ParseError>)
    decreases s.len() - pos,
{
    if pos < 0 || pos >= s.len() {
        (Seq::empty(), Err(ParseError::UnexpectedEndOfStream))
    } else if s[pos] == END_OF_ATTRIBUTES {
        (Seq::empty(), Ok(pos + 1))
    } else {
        match spec_lex_token(s, pos) {
            Err(e) => (Seq::empty(), Err(e)),
            Ok((t, next)) => if pos < next <= s.len() {
                (seq![t] + spec_lex(s, next).0, spec_lex(s, next).1)
            } else {
                (Seq::empty(), Err(ParseError::UnexpectedEndOfStream))
            },
        }
    }
}

/// A stretch of the input, from `start` up to `end`.
#[derive(Clone, Copy, Debug, PartialEq, Eq, Structural)]
pub struct Span {
    pub start: usize,
    pub end: usize,
}

impl Span {
    /// True where the stretch lies inside a stream of `len` bytes.
    pub open spec fn wf(self, len: nat) -> bool {
        self.start <= self.end <= len
    }

    /// The bytes of the stretch.
    pub open spec fn of(self, s: Seq<u8>) -> Seq<u8> {
        s.subrange(self.start as int, self.end as int)
    }

    /// The bytes of the stretch.
    pub(crate) fn slice<'a>(&self, data: &'a [u8]) -> (out: &'a [u8])
        requires
            self.wf(data@.len()),
        ensures
            out@ == self.of(data@),
    {
        vstd::slice::slice_subrange(data, self.start, self.end)
    }
}

/// A token found in an input: a record holds the places of its name and of
/// its value field, not copies of them.
#[derive(Clone, Copy, Debug, PartialEq, Eq, Structural)]
pub enum Token {
    Group(DelimiterTag),
    Value { tag: ValueTag, name: Span, value: Span },
}

impl Token {
    /// True where the token's stretches lie inside a stream of `len` bytes.
    pub open spec fn wf(self, len: nat) -> bool {
        match self {
            Token::Group(_) => true,
            Token::Value { tag, name, value } => name.wf(len) && value.wf(len),
        }
    }

    /// The token with its bytes taken from the stream `s`.
    pub open spec fn view_in(self, s: Seq<u8>) -> TokenView {
        match self {
            Token::Group(d) => TokenView::Group(d),
            Token::Value { tag, name, value } => record(tag, name.of(s), value.of(s)),
        }
    }
}

/// The tokens with their bytes taken from the stream `s`.
pub open spec fn tokens_view(tokens: Seq<Token>, s: Seq<u8>) -> Seq<TokenView> {
    Seq::new(tokens.len(), |i: int| tokens[i].view_in(s))
}

/// True where every token lies inside a stream of `len` bytes.
pub open spec fn tokens_in(tokens: Seq<Token>, len: nat) -> bool {
    forall|i: int| 0 <= i < tokens.len() ==> (#[trigger] tokens[i]).wf(len)
}

/// Reads the token at `pos`.
fn lex_token(data: &[u8], pos: usize) -> (r: Result<(Token, usize), ParseError>)
    requires
        pos < data@.len(),
    ensures
        match r {
            Ok((t, next)) => t.wf(data@.len()) && pos < next <= data@.len() && spec_lex_token(
                data@,
                pos as int,
            ) == Ok::<(TokenView, int), ParseError>((t.view_in(data@), next as int)),
            Err(e) => spec_lex_token(data@, pos as int) == Err::<(TokenView, int), ParseError>(e),
        },
{
    proof {
        reveal(spec_lex_token);
    }
    let b: u8 = data[pos];
    if let Some(d) = DelimiterTag::from_u8(b) {
        return Ok((Token::Group(d), pos + 1));
    }
    let tag = match ValueTag::from_u8(b) {
        Some(tag) => tag,
        None => {
            return Err(ParseError::UnknownTag(b));
        },
    };
    let len: usize = data.len();
    if len - pos < 3 {
        return Err(ParseError::UnexpectedEndOfStream);
    }
    let name_len: usize = get_u16(data, pos + 1) as usize;
    if len - pos - 3 < name_len || len - pos - 3 - name_len < 2 {
        return Err(ParseError::UnexpectedEndOfStream);
    }
    let name_start: usize = pos + 3;
    let name_end: usize = name_start + name_len;
    let value_len: usize = get_u16(data, name_end) as usize;
    if len - name_end - 2 < value_len {
        return Err(ParseError::UnexpectedEndOfStream);
    }
    let value_start: usize = name_end + 2;
    let value_end: usize = value_start + value_len;
    Ok(
        (
            Token::Value {
                tag,
                name: Span { start: name_start, end: name_end },
                value: Span { start: value_start, end: value_end },
            },
            value_end,
        ),
    )
}

/// The end of a run of tokens as a position in the mathematical integers.
pub open spec fn end_view(end: Result<usize, ParseError>) -> Result<int, ParseError> {
    match end {
        Ok(at) => Ok(at as int),
        Err(e) => Err(e),
    }
}

/// Splits the input from `pos` into tokens, up to the end-of-attributes tag
/// or to the first error, and returns them with the position behind that tag
/// or with that error.
pub fn tokenize(data: &[u8], pos: usize) -> (r: (Vec<Token>, Result<usize, ParseError>))
    ensures
        tokens_in(r.0@, data@.len()),
        spec_lex(data@, pos as int) == (tokens_view(r.0@, data@), end_view(r.1)),
        r.1 matches Ok(end) ==> pos < end <= data@.len(),
{
    let mut tokens: Vec<Token> = Vec::new();
    let mut at: usize = pos;
    proof {
        assert(tokens_view(tokens@, data@) + spec_lex(data@, at as int).0 =~= spec_lex(
            data@,
            at as int,
        ).0);
    }
    loop
        invariant
            pos <= at,
            tokens_in(tokens@, data@.len()),
            spec_lex(data@, pos as int) == (
                tokens_view(tokens@, data@) + spec_lex(data@, at as int).0,
                spec_lex(data@, at as int).1,
            ),
        decreases data@.len() - at,
    {
        if at >= data.len() {
            assert(tokens_view(tokens@, data@) + Seq::<TokenView>::empty() =~= tokens_view(
                tokens@,
                data@,
            ));
            return (tokens, Err(ParseError::UnexpectedEndOfStream));
        }
        if data[at] == END_OF_ATTRIBUTES {
            assert(tokens_view(tokens@, data@) + Seq::<TokenView>::empty() =~= tokens_view(
                tokens@,
                data@,
            ));
            return (tokens, Ok(at + 1));
        }
        match lex_token(data, at) {
            Err(e) => {
                assert(tokens_view(tokens@, data@) + Seq::<TokenView>::empty() =~= tokens_view(
                    tokens@,
                    data@,
                ));
                return (tokens, Err(e));
            },
            Ok((t, next)) => {
                proof {
                    let done = tokens_view(tokens@, data@);
                    let more = tokens_view(tokens@.push(t), data@);
                    let rest = spec_lex(data@, next as int).0;
                    assert(more =~= done + seq![t.view_in(data@)]);
                    assert(done + (seq![t.view_in(data@)] + rest) =~= more + rest);
                }
                tokens.push(t);
                at = next;
            },
        }
    }
}

/// Appends the bytes of a record.
pub fn put_record(out: &mut Vec<u8>, tag: ValueTag, name: &[u8], value: &[u8])
    ensures
        final(out)@ == old(out)@ + record(tag, name@, value@).encoded(),
{
    out.push(tag.to_u8());
    put_len16(out, name.len());
    put_slice(out, name);
    put_len16(out, value.len());
    put_slice(out, value);
    assert(out@ =~= old(out)@ + record(tag, name@, value@).encoded());
}

/// The bytes of a run of tokens followed by another are the bytes of the
/// first followed by those of the second.
pub proof fn lemma_tokens_bytes_concat(a: Seq<TokenView>, b: Seq<TokenView>)
    ensures
        tokens_bytes(a + b) == tokens_bytes(a) + tokens_bytes(b),
    decreases a.len(),
{
    if a.len() == 0 {
        assert(a + b =~= b);
        assert(tokens_bytes(a) + tokens_bytes(b) =~= tokens_bytes(b));
    } else {
        lemma_tokens_bytes_concat(a.drop_first(), b);
        assert((a + b).drop_first() =~= a.drop_first() + b);
        assert(tokens_bytes(a + b) =~= tokens_bytes(a) + tokens_bytes(b));
    }
}

/// The bytes of a run of one token are the bytes of that token.
pub proof fn lemma_tokens_bytes_one(t: TokenView)
    ensures
        tokens_bytes(seq![t]) == t.encoded(),
{
    assert(seq![t].drop_first() =~= Seq::<TokenView>::empty());
    assert(tokens_bytes(seq![t]) =~= t.encoded() + tokens_bytes(Seq::<TokenView>::empty()));
    assert(t.encoded() + Seq::<u8>::empty() =~= t.encoded());
}

/// A well-formed token is read back from its bytes wherever they stand in a
/// stream, and it never starts with the end-of-attributes byte.
pub proof fn lemma_lex_token(before: Seq<u8>, t: TokenView, after: Seq<u8>)
    requires
        t.wf(),
    ensures
        t.encoded().len() >= 1,
        (before + t.encoded() + after)[before.len() as int] != END_OF_ATTRIBUTES,
        spec_lex_token(before + t.encoded() + after, before.len() as int) == Ok::<
            (TokenView, int),
            ParseError,
        >((t, (before.len() + t.encoded().len()) as int)),
{
    reveal(spec_lex_token);
    let s = before + t.encoded() + after;
    let pos = before.len() as int;
    assert(s[pos] == t.encoded()[0]);
    match t {
        TokenView::Group(d) => {
            d.lemma_byte_roundtrip();
        },
        TokenView::Value(r) => {
            r.tag.lemma_byte_roundtrip();
            let n = r.name.len() as int;
            let m = r.value.len() as int;
            let b = r.encoded();
            assert(b.len() == 5 + n + m);
            lemma_u16_roundtrip(spec_len16(r.name.len()));
            lemma_u16_roundtrip(spec_len16(r.value.len()));
            assert(s[pos + 1] == b[1] && b[1] == spec_u16_be(spec_len16(r.name.len()))[0]);
            assert(s[pos + 2] == b[2] && b[2] == spec_u16_be(spec_len16(r.name.len()))[1]);
            assert(spec_u16_at(s, pos + 1) == n);
            assert(s[pos + 3 + n] == b[3 + n] && b[3 + n] == spec_u16_be(
                spec_len16(r.value.len()),
            )[0]);
            assert(s[pos + 4 + n] == b[4 + n] && b[4 + n] == spec_u16_be(
                spec_len16(r.value.len()),
            )[1]);
            assert(spec_u16_at(s, pos + 3 + n) == m);
            assert(s.subrange(pos + 3, pos + 3 + n) =~= r.name);
            assert(s.subrange(pos + 5 + n, pos + 5 + n + m) =~= r.value);
        },
    }
}

/// Lexing is the inverse of writing tokens: a run of well-formed tokens,
/// written out and closed by the end-of-attributes byte, is read back as
/// that run, whatever stands before and behind.
pub proof fn lemma_lex_roundtrip(before: Seq<u8>, ts: Seq<TokenView>, after: Seq<u8>)
    requires
        tokens_wf(ts),
    ensures
        spec_lex(
            before + tokens_bytes(ts) + seq![END_OF_ATTRIBUTES] + after,
            before.len() as int,
        ) == (ts, Ok::<int, ParseError>((before.len() + tokens_bytes(ts).len() + 1) as int)),
    decreases ts.len(),
{
    let s = before + tokens_bytes(ts) + seq![END_OF_ATTRIBUTES] + after;
    let pos = before.len() as int;
    if ts.len() == 0 {
        assert(s[pos] == END_OF_ATTRIBUTES);
        assert(ts =~= Seq::<TokenView>::empty());
        assert(tokens_bytes(ts).len() == 0);
    } else {
        let t = ts[0];
        let rest = ts.drop_first();
        let tail = tokens_bytes(rest) + seq![END_OF_ATTRIBUTES] + after;
        let next = pos + t.encoded().len();
        assert(tokens_bytes(ts).len() == t.encoded().len() + tokens_bytes(rest).len());
        let before2 = before + t.encoded();
        assert(s == before + t.encoded() + tail) by {
            assert(s =~= before + t.encoded() + tail);
        }
        assert(s == before2 + tokens_bytes(rest) + seq![END_OF_ATTRIBUTES] + after) by {
            assert(s =~= before2 + tokens_bytes(rest) + seq![END_OF_ATTRIBUTES] + after);
        }
        assert(tokens_wf(rest)) by {
            assert forall|i: int| 0 <= i < rest.len() implies (#[trigger] rest[i]).wf() by {
                assert(rest[i] == ts[i + 1]);
            }
        }
        lemma_lex_token(before, t, tail);
        lemma_lex_roundtrip(before2, rest, after);
        assert(seq![t] + rest =~= ts);
        assert(spec_lex_token(s, pos) == Ok::<(TokenView, int), ParseError>((t, next)));
        assert(spec_lex(s, next) == (
            rest,
            Ok::<int, ParseError>((before.len() + tokens_bytes(ts).len() + 1) as int),
        ));
        assert(0 <= pos < s.len());
        assert(s[pos] != END_OF_ATTRIBUTES);
        assert(pos < next <= s.len());
    }
}

/// A byte of neither tag vocabulary, met where a token must start, stops
/// lexing with `UnknownTag` and that byte, behind the well-formed tokens
/// that were read before it.
pub proof fn lemma_lex_unknown_tag(before: Seq<u8>, ts: Seq<TokenView>, b: u8, after: Seq<u8>)
    requires
        tokens_wf(ts),
        DelimiterTag::spec_from_u8(b) is None,
        ValueTag::spec_from_u8(b) is None,
    ensures
        spec_lex(before + tokens_bytes(ts) + seq![b] + after, before.len() as int) == (
            ts,
            Err::<int, ParseError>(ParseError::UnknownTag(b)),
        ),
    decreases ts.len(),
{
    let s = before + tokens_bytes(ts) + seq![b] + after;
    let pos = before.len() as int;
    if ts.len() == 0 {
        assert(s[pos] == b);
        assert(ts =~= Seq::<TokenView>::empty());
        assert(spec_lex_token(s, pos) == Err::<(TokenView, int), ParseError>(
            ParseError::UnknownTag(b),
        )) by {
            reveal(spec_lex_token);
        }
    } else {
        let t = ts[0];
        let rest = ts.drop_first();
        let tail = tokens_bytes(rest) + seq![b] + after;
        let next = pos + t.encoded().len();
        let before2 = before + t.encoded();
        assert(s == before + t.encoded() + tail) by {
            assert(s =~= before + t.encoded() + tail);
        }
        assert(s == before2 + tokens_bytes(rest) + seq![b] + after) by {
            assert(s =~= before2 + tokens_bytes(rest) + seq![b] + after);
        }
        assert(tokens_wf(rest)) by {
            assert forall|i: int| 0 <= i < rest.len() implies (#[trigger] rest[i]).wf() by {
                assert(rest[i] == ts[i + 1]);
            }
        }
        lemma_lex_token(before, t, tail);
        lemma_lex_unknown_tag(before2, rest, b, after);
        assert(seq![t] + rest =~= ts);
        assert(spec_lex_token(s, pos) == Ok::<(TokenView, int), ParseError>((t, next)));
        assert(0 <= pos < s.len());
        assert(s[pos] != END_OF_ATTRIBUTES);
        assert(pos < next <= s.len());
    }
}

/// A token cut short is an `UnexpectedEndOfStream`: where only a proper part
/// of a well-formed token's bytes is left at the end of the stream, no token
/// is read there.
pub proof fn lemma_lex_token_cut(before: Seq<u8>, t: TokenView, m: int)
    requires
        t.wf(),
        1 <= m < t.encoded().len(),
    ensures
        (before + t.encoded().subrange(0, m))[before.len() as int] != END_OF_ATTRIBUTES,
        spec_lex_token(before + t.encoded().subrange(0, m), before.len() as int) == Err::<
            (TokenView, int),
            ParseError,
        >(ParseError::UnexpectedEndOfStream),
{
    reveal(spec_lex_token);
    let b = t.encoded();
    let s = before + b.subrange(0, m);
    let pos = before.len() as int;
    assert(s[pos] == b[0]);
    match t {
        TokenView::Group(d) => {},
        TokenView::Value(r) => {
            r.tag.lemma_byte_roundtrip();
            let n = r.name.len() as int;
            let v = r.value.len() as int;
            assert(b.len() == 5 + n + v);
            lemma_u16_roundtrip(spec_len16(r.name.len()));
            lemma_u16_roundtrip(spec_len16(r.value.len()));
            if m >= 3 {
                assert(s[pos + 1] == b[1] && b[1] == spec_u16_be(spec_len16(r.name.len()))[0]);
                assert(s[pos + 2] == b[2] && b[2] == spec_u16_be(spec_len16(r.name.len()))[1]);
                assert(spec_u16_at(s, pos + 1) == n);
                if m >= 5 + n {
                    assert(s[pos + 3 + n] == b[3 + n] && b[3 + n] == spec_u16_be(
                        spec_len16(r.value.len()),
                    )[0]);
                    assert(s[pos + 4 + n] == b[4 + n] && b[4 + n] == spec_u16_be(
                        spec_len16(r.value.len()),
                    )[1]);
                    assert(spec_u16_at(s, pos + 3 + n) == v);
                }
            }
        },
    }
}

/// A stream cut anywhere before its end-of-attributes tag ends with
/// `UnexpectedEndOfStream`, behind those of its tokens that are still whole.
pub proof fn lemma_lex_truncated(before: Seq<u8>, ts: Seq<TokenView>, n: int)
    requires
        tokens_wf(ts),
        before.len() <= n <= before.len() + tokens_bytes(ts).len(),
    ensures
        ({
            let got = spec_lex((before + tokens_bytes(ts)).subrange(0, n), before.len() as int);
            &&& got.1 == Err::<int, ParseError>(ParseError::UnexpectedEndOfStream)
            &&& got.0.len() <= ts.len()
            &&& forall|k: int| 0 <= k < got.0.len() ==> got.0[k] == ts[k]
        }),
    decreases ts.len(),
{
    let s = (before + tokens_bytes(ts)).subrange(0, n);
    let pos = before.len() as int;
    if ts.len() == 0 || n == pos {
    } else {
        let t = ts[0];
        let rest = ts.drop_first();
        let tb = t.encoded();
        assert(tokens_bytes(ts) == tb + tokens_bytes(rest));
        if n < pos + tb.len() {
            assert(s == before + tb.subrange(0, n - pos)) by {
                assert(s =~= before + tb.subrange(0, n - pos));
            }
            lemma_lex_token_cut(before, t, n - pos);
        } else {
            let next = pos + tb.len();
            let after = s.subrange(next, n);
            let before2 = before + tb;
            assert(s == before + tb + after) by {
                assert(s =~= before + tb + after);
            }
            assert(s == (before2 + tokens_bytes(rest)).subrange(0, n)) by {
                assert(s =~= (before2 + tokens_bytes(rest)).subrange(0, n));
            }
            assert(tokens_wf(rest)) by {
                assert forall|i: int| 0 <= i < rest.len() implies (#[trigger] rest[i]).wf() by {
                    assert(rest[i] == ts[i + 1]);
                }
            }
            lemma_lex_token(before, t, after);
            lemma_lex_truncated(before2, rest, n);
            let got2 = spec_lex(s, next);
            let got = spec_lex(s, pos);
            assert(spec_lex_token(s, pos) == Ok::<(TokenView, int), ParseError>((t, next)));
            assert(0 <= pos < s.len());
            assert(s[pos] != END_OF_ATTRIBUTES);
            assert(pos < next <= s.len());
            assert(got.0 == seq![t] + got2.0);
            assert forall|k: int| 0 <= k < got.0.len() implies got.0[k] == ts[k] by {
                if k > 0 {
                    assert(got.0[k] == got2.0[k - 1]);
                    assert(rest[k - 1] == ts[k]);
                }
            }
        }
    }
}

/// Every token that lexing finds can be read back from its bytes: its
/// lengths came out of two-byte fields, and no delimiter among the tokens is
/// the end-of-attributes tag.
pub proof fn lemma_lexed_tokens_wf(s: Seq<u8>, pos: int)
    ensures
        tokens_wf(spec_lex(s, pos).0),
    decreases s.len() - pos,
{
    if 0 <= pos < s.len() && s[pos] != END_OF_ATTRIBUTES {
        if let Ok((t, next)) = spec_lex_token(s, pos) {
            if pos < next <= s.len() {
                lemma_lexed_tokens_wf(s, next);
                let rest = spec_lex(s, next).0;
                let all = spec_lex(s, pos).0;
                assert(t.wf()) by {
                    reveal(spec_lex_token);
                    DelimiterTag::lemma_from_byte(s[pos]);
                }
                assert forall|i: int| 0 <= i < all.len() implies (#[trigger] all[i]).wf() by {
                    if i > 0 {
                        assert(all[i] == rest[i - 1]);
                    }
                }
            }
        }
    }
}

} // verus!
