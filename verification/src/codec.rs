//! Subscription protocol codec: encodes the outbound `connection_init` and
//! `start` envelopes, and decodes inbound envelopes into typed events —
//! the handshake acknowledgment, a mutation event for a subscribed query,
//! or an unknown envelope that is dropped. A frame that does not parse, or
//! lacks a required field, is a malformed message: the frame alone is
//! dropped and the session goes on.

use vstd::prelude::*;
use vstd::string::StringExecFns;
use crate::json::{
    LexMode, LexState, Token, TokenModel, chars_of, digit_of, extract_path, extract_spec,
    hex_val, is_bmp_scalar, is_digit, lex, lex_fold, lex_init, lex_spec, lex_step, strs_model, tokens_model, valid_spec,
    valid_tokens,
};
use crate::store::{MutationEvent, MutationEventModel};

verus! {

/// A free-text message from the client to the server.
pub struct ClientMessage {
    pub text: String,
}

/// The empty payload of the handshake envelope.
pub struct PayloadEmp {}

/// The handshake envelope: `{"type":"connection_init","payload":{}}`.
pub struct ClientMessageGQLInit {
    pub msg_type: String,
    pub payload: PayloadEmp,
}

/// The payload of a subscribe envelope: the subscription query text.
pub struct Payload {
    pub query: String,
}

/// The subscribe envelope: `{"id":...,"type":"start","payload":{"query":...}}`.
pub struct ClientMessageGQLPay {
    pub id: String,
    pub msg_type: String,
    pub payload: Payload,
}

/// What a decoded inbound envelope means to the session.
#[derive(Debug, PartialEq)]
pub enum ServerEnvelope {
    /// The server acknowledged the handshake; informational only.
    ConnectionAck,
    /// A mutation event for the subscribed query.
    Data(MutationEvent),
    /// An envelope of an unrecognized type; dropped.
    UnknownType,
    /// A data envelope with an unrecognized mutation type; dropped.
    UnknownMutation,
}

/// Mathematical model of a decoded envelope.
pub enum ServerEnvelopeModel {
    ConnectionAck,
    Data(MutationEventModel),
    UnknownType,
    UnknownMutation,
}

impl View for ServerEnvelope {
    type V = ServerEnvelopeModel;

    open spec fn view(&self) -> ServerEnvelopeModel {
        match self {
            ServerEnvelope::ConnectionAck => ServerEnvelopeModel::ConnectionAck,
            ServerEnvelope::Data(ev) => ServerEnvelopeModel::Data(ev@),
            ServerEnvelope::UnknownType => ServerEnvelopeModel::UnknownType,
            ServerEnvelope::UnknownMutation => ServerEnvelopeModel::UnknownMutation,
        }
    }
}

/// Why an inbound frame was rejected.
#[derive(Clone, Copy, Debug, PartialEq, Eq, Structural)]
pub enum DecodeError {
    /// The frame is not in the wire dialect or lacks a required field.
    /// The frame is dropped; the session is otherwise unaffected.
    MalformedMessage,
}

// ------------------------------------------------------------------
// Encoding
// ------------------------------------------------------------------

/// The hexadecimal digit character for a value below sixteen.
pub open spec fn hex_digit(v: u32) -> char {
    if v < 10 {
        ((48 + v) as u8) as char
    } else {
        ((87 + v) as u8) as char
    }
}

/// How one character is written inside a JSON string literal: the named
/// escapes for the quote, the backslash and the common controls, a
/// `\u00..` escape for the other controls, and the character itself
/// otherwise.
pub open spec fn escape_char(c: char) -> Seq<char> {
    if c == '"' {
        seq!['\\', '"']
    } else if c == '\\' {
        seq!['\\', '\\']
    } else if c == '\n' {
        seq!['\\', 'n']
    } else if c == '\r' {
        seq!['\\', 'r']
    } else if c == '\t' {
        seq!['\\', 't']
    } else if c == '\u{0008}' {
        seq!['\\', 'b']
    } else if c == '\u{000C}' {
        seq!['\\', 'f']
    } else if (c as u32) < 0x20 {
        seq!['\\', 'u', '0', '0', hex_digit((c as u32) / 16), hex_digit((c as u32) % 16)]
    } else {
        seq![c]
    }
}

/// A whole string's characters, escaped.
pub open spec fn escape_seq(s: Seq<char>) -> Seq<char>
    decreases s.len(),
{
    if s.len() == 0 {
        Seq::empty()
    } else {
        escape_char(s[0]) + escape_seq(s.drop_first())
    }
}

/// Append one string's escaped characters to `out`.
fn escape_into(out: &mut String, s: &str)
    ensures
        final(out)@ == old(out)@ + escape_seq(s@),
{
    let cs = chars_of(s);
    let n = cs.len();
    let mut i: usize = 0;
    proof {
        assert(s@.skip(0) =~= s@);
    }
    while i < n
        invariant
            n == s@.len(),
            cs@ == s@,
            i <= n,
            out@ + escape_seq(s@.skip(i as int)) == old(out)@ + escape_seq(s@),
        decreases n - i,
    {
        let ghost pre = out@;
        let c = cs[i];
        if c == '"' {
            out.push('\\');
            out.push('"');
        } else if c == '\\' {
            out.push('\\');
            out.push('\\');
        } else if c == '\n' {
            out.push('\\');
            out.push('n');
        } else if c == '\r' {
            out.push('\\');
            out.push('r');
        } else if c == '\t' {
            out.push('\\');
            out.push('t');
        } else if c == '\u{0008}' {
            out.push('\\');
            out.push('b');
        } else if c == '\u{000C}' {
            out.push('\\');
            out.push('f');
        } else if (c as u32) < 0x20 {
            out.push('\\');
            out.push('u');
            out.push('0');
            out.push('0');
            let hi = (c as u32) / 16;
            let lo = (c as u32) % 16;
            out.push(hex_digit_char(hi));
            out.push(hex_digit_char(lo));
        } else {
            out.push(c);
        }
        proof {
            assert(out@ =~= pre + escape_char(c));
            assert(s@.skip(i as int).drop_first() =~= s@.skip(i as int + 1));
            assert(pre + (escape_char(c) + escape_seq(s@.skip(i as int + 1))) =~= (pre
                + escape_char(c)) + escape_seq(s@.skip(i as int + 1)));
        }
        i = i + 1;
    }
    proof {
        assert(out@ + escape_seq(s@.skip(n as int)) =~= out@);
    }
}

/// The hexadecimal digit for a value below sixteen.
fn hex_digit_char(v: u32) -> (c: char)
    requires
        v < 16,
    ensures
        c == hex_digit(v),
{
    if v < 10 {
        ((48 + v) as u8) as char
    } else {
        ((87 + v) as u8) as char
    }
}

/// The handshake envelope's wire text.
pub open spec fn init_envelope(t: Seq<char>) -> Seq<char> {
    "{\"type\":\""@ + escape_seq(t) + "\",\"payload\":{}}"@
}

/// The subscribe envelope's wire text.
pub open spec fn start_envelope(id: Seq<char>, t: Seq<char>, q: Seq<char>) -> Seq<char> {
    "{\"id\":\""@ + escape_seq(id) + "\",\"type\":\""@ + escape_seq(t) + "\",\"payload\":{\"query\":\""@
        + escape_seq(q) + "\"}}"@
}

/// Encode the handshake envelope.
pub fn encode_init(msg: &ClientMessageGQLInit) -> (r: String)
    ensures
        r@ == init_envelope(msg.msg_type@),
{
    let mut out = String::new();
    out.append("{\"type\":\"");
    escape_into(&mut out, msg.msg_type.as_str());
    out.append("\",\"payload\":{}}");
    proof {
        assert(out@ =~= init_envelope(msg.msg_type@));
    }
    out
}

/// Encode the subscribe envelope.
pub fn encode_start(msg: &ClientMessageGQLPay) -> (r: String)
    ensures
        r@ == start_envelope(msg.id@, msg.msg_type@, msg.payload.query@),
{
    let mut out = String::new();
    out.append("{\"id\":\"");
    escape_into(&mut out, msg.id.as_str());
    out.append("\",\"type\":\"");
    escape_into(&mut out, msg.msg_type.as_str());
    out.append("\",\"payload\":{\"query\":\"");
    escape_into(&mut out, msg.payload.query.as_str());
    out.append("\"}}");
    proof {
        assert(out@ =~= start_envelope(msg.id@, msg.msg_type@, msg.payload.query@));
    }
    out
}


proof fn lemma_lex_fold_concat(st: LexState, a: Seq<char>, b: Seq<char>)
    ensures
        lex_fold(st, a + b) == lex_fold(lex_fold(st, a), b),
    decreases a.len(),
{
    if a.len() == 0 {
        assert(a + b =~= b);
    } else {
        assert((a + b)[0] == a[0]);
        assert((a + b).drop_first() =~= a.drop_first() + b);
        lemma_lex_fold_concat(lex_step(st, a[0]), a.drop_first(), b);
    }
}

/// One escaped character, fed to the tokenizer inside a string literal,
/// comes back as exactly that character.
#[verifier::rlimit(100)]
proof fn lemma_escape_char_lex(t: Seq<TokenModel>, acc: Seq<char>, c: char)
    ensures
        (lex_fold(
            LexState { tokens: t, mode: LexMode::InStr { acc }, failed: false },
            escape_char(c),
        ) == LexState { tokens: t, mode: LexMode::InStr { acc: acc.push(c) }, failed: false }),
{
    reveal_with_fuel(lex_fold, 8);
    let st0 = LexState { tokens: t, mode: LexMode::InStr { acc }, failed: false };
    if c == '"' || c == '\\' || c == '\n' || c == '\r' || c == '\t' || c == '\u{0008}' || c
        == '\u{000C}' {
        assert(escape_char(c).drop_first() =~= seq![escape_char(c)[1]]);
        assert(seq![escape_char(c)[1]].drop_first() =~= Seq::<char>::empty());
    } else if (c as u32) < 0x20 {
        let hi = (c as u32) / 16;
        let lo = (c as u32) % 16;
        let e = escape_char(c);
        assert(e == seq!['\\', 'u', '0', '0', hex_digit(hi), hex_digit(lo)]);
        let s1 = lex_step(st0, '\\');
        assert(s1.mode == LexMode::InEsc { acc });
        let s2 = lex_step(s1, 'u');
        assert(s2.mode == (LexMode::InUni { acc, code: 0, k: 0 }));
        let s3 = lex_step(s2, '0');
        assert(hex_val('0') == 0);
        assert(s3.mode == (LexMode::InUni { acc, code: 0, k: 1 }));
        let s4 = lex_step(s3, '0');
        assert(s4.mode == (LexMode::InUni { acc, code: 0, k: 2 }));
        let s5 = lex_step(s4, hex_digit(hi));
        assert(hi < 2);
        assert(hex_val(hex_digit(hi)) == hi);
        assert(s5.mode == (LexMode::InUni { acc, code: hi, k: 3 }));
        let s6 = lex_step(s5, hex_digit(lo));
        assert(lo < 16);
        assert(hex_val(hex_digit(lo)) == lo);
        assert(hi * 16 + lo == c as u32);
        assert(is_bmp_scalar((c as u32)));
        vstd::utf8::char_u32_cast(c, c as u32);
        assert(s6.mode == (LexMode::InStr { acc: acc.push(c) }));
        assert(e.drop_first() =~= seq!['u', '0', '0', hex_digit(hi), hex_digit(lo)]);
        assert(e.drop_first().drop_first() =~= seq!['0', '0', hex_digit(hi), hex_digit(lo)]);
        assert(e.drop_first().drop_first().drop_first() =~= seq![
            '0',
            hex_digit(hi),
            hex_digit(lo),
        ]);
        assert(e.drop_first().drop_first().drop_first().drop_first() =~= seq![
            hex_digit(hi),
            hex_digit(lo),
        ]);
        assert(e.drop_first().drop_first().drop_first().drop_first().drop_first() =~= seq![
            hex_digit(lo),
        ]);
        assert(seq![hex_digit(lo)].drop_first() =~= Seq::<char>::empty());
        assert(lex_fold(st0, e) == s6);
    } else {
        assert(escape_char(c) == seq![c]);
        assert(seq![c].drop_first() =~= Seq::<char>::empty());
    }
}

/// A whole escaped string, fed to the tokenizer inside a string literal,
/// comes back as exactly that string.
proof fn lemma_escape_body_lex(t: Seq<TokenModel>, acc: Seq<char>, s: Seq<char>)
    ensures
        (lex_fold(
            LexState { tokens: t, mode: LexMode::InStr { acc }, failed: false },
            escape_seq(s),
        ) == LexState { tokens: t, mode: LexMode::InStr { acc: acc + s }, failed: false }),
    decreases s.len(),
{
    if s.len() == 0 {
        assert(acc + s =~= acc);
    } else {
        let st0 = LexState { tokens: t, mode: LexMode::InStr { acc }, failed: false };
        lemma_lex_fold_concat(st0, escape_char(s[0]), escape_seq(s.drop_first()));
        lemma_escape_char_lex(t, acc, s[0]);
        lemma_escape_body_lex(t, acc.push(s[0]), s.drop_first());
        assert(acc.push(s[0]) + s.drop_first() =~= acc + s);
    }
}

/// The escaper and the tokenizer agree: a quoted, escaped string lexes to
/// exactly the one string token holding the original characters. So every
/// string value the encoder writes, the decoder reads back unchanged.
pub proof fn lemma_escape_lex_round_trip(s: Seq<char>)
    ensures
        lex_spec(seq!['"'] + escape_seq(s) + seq!['"']) == Some(seq![TokenModel::TStr(s)]),
{
    reveal_with_fuel(lex_fold, 3);
    let input = seq!['"'] + escape_seq(s) + seq!['"'];
    lemma_lex_fold_concat(lex_init(), seq!['"'] + escape_seq(s), seq!['"']);
    lemma_lex_fold_concat(lex_init(), seq!['"'], escape_seq(s));
    assert(seq!['"'].drop_first() =~= Seq::<char>::empty());
    let s1 = lex_fold(lex_init(), seq!['"']);
    assert(s1 == LexState {
        tokens: Seq::<TokenModel>::empty(),
        mode: LexMode::InStr { acc: Seq::<char>::empty() },
        failed: false,
    });
    lemma_escape_body_lex(Seq::<TokenModel>::empty(), Seq::<char>::empty(), s);
    assert(Seq::<char>::empty() + s =~= s);
    let s2 = lex_fold(s1, escape_seq(s));
    let s3 = lex_fold(s2, seq!['"']);
    assert((seq!['"'] + escape_seq(s)) + seq!['"'] =~= input);
    assert(s3.tokens =~= seq![TokenModel::TStr(s)]);
}


#[verifier::rlimit(100)]
proof fn lemma_init_head()
    ensures
        (lex_fold(lex_init(), "{\"type\":\""@) == LexState {
            tokens: seq![TokenModel::LBrace, TokenModel::TStr("type"@), TokenModel::Colon],
            mode: LexMode::InStr { acc: Seq::<char>::empty() },
            failed: false,
        }),
{
    reveal_with_fuel(lex_fold, 12);
    reveal_strlit("{\"type\":\"");
    reveal_strlit("type");
    assert("{\"type\":\""@.len() == 9);
    assert(Seq::<char>::empty().push('t').push('y').push('p').push('e') =~= "type"@);
    assert(lex_fold(lex_init(), "{\"type\":\""@).tokens =~= seq![
        TokenModel::LBrace,
        TokenModel::TStr("type"@),
        TokenModel::Colon,
    ]);
}

#[verifier::rlimit(100)]
proof fn lemma_init_tail(tk: Seq<TokenModel>, t: Seq<char>)
    ensures
        (lex_fold(
            LexState { tokens: tk, mode: LexMode::InStr { acc: t }, failed: false },
            "\",\"payload\":{}}"@,
        ) == LexState {
            tokens: tk + seq![
                TokenModel::TStr(t),
                TokenModel::Comma,
                TokenModel::TStr("payload"@),
                TokenModel::Colon,
                TokenModel::LBrace,
                TokenModel::RBrace,
                TokenModel::RBrace,
            ],
            mode: LexMode::Top,
            failed: false,
        }),
{
    reveal_with_fuel(lex_fold, 20);
    reveal_strlit("\",\"payload\":{}}");
    reveal_strlit("payload");
    assert("\",\"payload\":{}}"@.len() == 15);
    assert(Seq::<char>::empty().push('p').push('a').push('y').push('l').push('o').push('a').push(
        'd',
    ) =~= "payload"@);
    let st0 = LexState { tokens: tk, mode: LexMode::InStr { acc: t }, failed: false };
    assert(lex_fold(st0, "\",\"payload\":{}}"@).tokens =~= tk + seq![
        TokenModel::TStr(t),
        TokenModel::Comma,
        TokenModel::TStr("payload"@),
        TokenModel::Colon,
        TokenModel::LBrace,
        TokenModel::RBrace,
        TokenModel::RBrace,
    ]);
}

/// The handshake envelope the encoder writes is well-formed in the wire
/// dialect: it lexes to exactly the object `{"type": t, "payload": {}}`,
/// and that token sequence is one complete, well-formed value.
pub proof fn lemma_init_envelope_wire_shape(t: Seq<char>)
    ensures
        (lex_spec(init_envelope(t)) == Some(
            seq![
                TokenModel::LBrace,
                TokenModel::TStr("type"@),
                TokenModel::Colon,
                TokenModel::TStr(t),
                TokenModel::Comma,
                TokenModel::TStr("payload"@),
                TokenModel::Colon,
                TokenModel::LBrace,
                TokenModel::RBrace,
                TokenModel::RBrace,
            ],
        )),
        valid_spec(lex_spec(init_envelope(t))->Some_0),
{
    let a = "{\"type\":\""@;
    let b = "\",\"payload\":{}}"@;
    let head_toks = seq![TokenModel::LBrace, TokenModel::TStr("type"@), TokenModel::Colon];
    lemma_lex_fold_concat(lex_init(), a + escape_seq(t), b);
    lemma_lex_fold_concat(lex_init(), a, escape_seq(t));
    assert((a + escape_seq(t)) + b =~= init_envelope(t));
    lemma_init_head();
    lemma_escape_body_lex(head_toks, Seq::<char>::empty(), t);
    assert(Seq::<char>::empty() + t =~= t);
    lemma_init_tail(head_toks, t);
    let toks = seq![
        TokenModel::LBrace,
        TokenModel::TStr("type"@),
        TokenModel::Colon,
        TokenModel::TStr(t),
        TokenModel::Comma,
        TokenModel::TStr("payload"@),
        TokenModel::Colon,
        TokenModel::LBrace,
        TokenModel::RBrace,
        TokenModel::RBrace,
    ];
    assert(head_toks + seq![
        TokenModel::TStr(t),
        TokenModel::Comma,
        TokenModel::TStr("payload"@),
        TokenModel::Colon,
        TokenModel::LBrace,
        TokenModel::RBrace,
        TokenModel::RBrace,
    ] =~= toks);
    reveal_with_fuel(crate::json::valid_fold, 12);
    assert(valid_spec(toks));
}


#[verifier::rlimit(100)]
proof fn lemma_start_head()
    ensures
        (lex_fold(lex_init(), "{\"id\":\""@) == LexState {
            tokens: seq![TokenModel::LBrace, TokenModel::TStr("id"@), TokenModel::Colon],
            mode: LexMode::InStr { acc: Seq::<char>::empty() },
            failed: false,
        }),
{
    reveal_with_fuel(lex_fold, 10);
    reveal_strlit("{\"id\":\"");
    reveal_strlit("id");
    assert("{\"id\":\""@.len() == 7);
    assert(Seq::<char>::empty().push('i').push('d') =~= "id"@);
    assert(lex_fold(lex_init(), "{\"id\":\""@).tokens =~= seq![
        TokenModel::LBrace,
        TokenModel::TStr("id"@),
        TokenModel::Colon,
    ]);
}

#[verifier::rlimit(100)]
proof fn lemma_start_mid(tk: Seq<TokenModel>, x: Seq<char>)
    ensures
        (lex_fold(
            LexState { tokens: tk, mode: LexMode::InStr { acc: x }, failed: false },
            "\",\"type\":\""@,
        ) == LexState {
            tokens: tk + seq![
                TokenModel::TStr(x),
                TokenModel::Comma,
                TokenModel::TStr("type"@),
                TokenModel::Colon,
            ],
            mode: LexMode::InStr { acc: Seq::<char>::empty() },
            failed: false,
        }),
{
    reveal_with_fuel(lex_fold, 12);
    reveal_strlit("\",\"type\":\"");
    reveal_strlit("type");
    assert("\",\"type\":\""@.len() == 10);
    assert(Seq::<char>::empty().push('t').push('y').push('p').push('e') =~= "type"@);
    let st0 = LexState { tokens: tk, mode: LexMode::InStr { acc: x }, failed: false };
    assert(lex_fold(st0, "\",\"type\":\""@).tokens =~= tk + seq![
        TokenModel::TStr(x),
        TokenModel::Comma,
        TokenModel::TStr("type"@),
        TokenModel::Colon,
    ]);
}

#[verifier::rlimit(100)]
proof fn lemma_start_payload(tk: Seq<TokenModel>, x: Seq<char>)
    ensures
        (lex_fold(
            LexState { tokens: tk, mode: LexMode::InStr { acc: x }, failed: false },
            "\",\"payload\":{\"query\":\""@,
        ) == LexState {
            tokens: tk + seq![
                TokenModel::TStr(x),
                TokenModel::Comma,
                TokenModel::TStr("payload"@),
                TokenModel::Colon,
                TokenModel::LBrace,
                TokenModel::TStr("query"@),
                TokenModel::Colon,
            ],
            mode: LexMode::InStr { acc: Seq::<char>::empty() },
            failed: false,
        }),
{
    reveal_with_fuel(lex_fold, 25);
    reveal_strlit("\",\"payload\":{\"query\":\"");
    reveal_strlit("payload");
    reveal_strlit("query");
    assert("\",\"payload\":{\"query\":\""@.len() == 22);
    assert(Seq::<char>::empty().push('p').push('a').push('y').push('l').push('o').push('a').push(
        'd',
    ) =~= "payload"@);
    assert(Seq::<char>::empty().push('q').push('u').push('e').push('r').push('y') =~= "query"@);
    let st0 = LexState { tokens: tk, mode: LexMode::InStr { acc: x }, failed: false };
    assert(lex_fold(st0, "\",\"payload\":{\"query\":\""@).tokens =~= tk + seq![
        TokenModel::TStr(x),
        TokenModel::Comma,
        TokenModel::TStr("payload"@),
        TokenModel::Colon,
        TokenModel::LBrace,
        TokenModel::TStr("query"@),
        TokenModel::Colon,
    ]);
}

#[verifier::rlimit(100)]
proof fn lemma_start_close(tk: Seq<TokenModel>, x: Seq<char>)
    ensures
        (lex_fold(
            LexState { tokens: tk, mode: LexMode::InStr { acc: x }, failed: false },
            "\"}}"@,
        ) == LexState {
            tokens: tk + seq![TokenModel::TStr(x), TokenModel::RBrace, TokenModel::RBrace],
            mode: LexMode::Top,
            failed: false,
        }),
{
    reveal_with_fuel(lex_fold, 6);
    reveal_strlit("\"}}");
    assert("\"}}"@.len() == 3);
    let st0 = LexState { tokens: tk, mode: LexMode::InStr { acc: x }, failed: false };
    assert(lex_fold(st0, "\"}}"@).tokens =~= tk + seq![
        TokenModel::TStr(x),
        TokenModel::RBrace,
        TokenModel::RBrace,
    ]);
}

/// The token shape of the subscribe envelope: the object
/// `{"id": id, "type": t, "payload": {"query": q}}`.
pub open spec fn start_envelope_tokens(id: Seq<char>, t: Seq<char>, q: Seq<char>) -> Seq<
    TokenModel,
> {
    seq![
        TokenModel::LBrace,
        TokenModel::TStr("id"@),
        TokenModel::Colon,
        TokenModel::TStr(id),
        TokenModel::Comma,
        TokenModel::TStr("type"@),
        TokenModel::Colon,
        TokenModel::TStr(t),
        TokenModel::Comma,
        TokenModel::TStr("payload"@),
        TokenModel::Colon,
        TokenModel::LBrace,
        TokenModel::TStr("query"@),
        TokenModel::Colon,
        TokenModel::TStr(q),
        TokenModel::RBrace,
        TokenModel::RBrace,
    ]
}

/// The subscribe envelope the encoder writes is well-formed in the wire
/// dialect: it lexes to exactly the object
/// `{"id": id, "type": t, "payload": {"query": q}}`, and that token
/// sequence is one complete, well-formed value.
#[verifier::rlimit(100)]
pub proof fn lemma_start_envelope_wire_shape(id: Seq<char>, t: Seq<char>, q: Seq<char>)
    ensures
        (lex_spec(start_envelope(id, t, q)) == Some(start_envelope_tokens(id, t, q))),
        valid_spec(start_envelope_tokens(id, t, q)),
{
    let a = "{\"id\":\""@;
    let b = "\",\"type\":\""@;
    let c = "\",\"payload\":{\"query\":\""@;
    let d = "\"}}"@;
    let p1 = a + escape_seq(id);
    let p2 = p1 + b;
    let p3 = p2 + escape_seq(t);
    let p4 = p3 + c;
    let p5 = p4 + escape_seq(q);
    lemma_lex_fold_concat(lex_init(), p5, d);
    lemma_lex_fold_concat(lex_init(), p4, escape_seq(q));
    lemma_lex_fold_concat(lex_init(), p3, c);
    lemma_lex_fold_concat(lex_init(), p2, escape_seq(t));
    lemma_lex_fold_concat(lex_init(), p1, b);
    lemma_lex_fold_concat(lex_init(), a, escape_seq(id));
    assert(p5 + d =~= start_envelope(id, t, q));
    lemma_start_head();
    let tk1 = seq![TokenModel::LBrace, TokenModel::TStr("id"@), TokenModel::Colon];
    lemma_escape_body_lex(tk1, Seq::<char>::empty(), id);
    assert(Seq::<char>::empty() + id =~= id);
    lemma_start_mid(tk1, id);
    let tk2 = tk1 + seq![
        TokenModel::TStr(id),
        TokenModel::Comma,
        TokenModel::TStr("type"@),
        TokenModel::Colon,
    ];
    lemma_escape_body_lex(tk2, Seq::<char>::empty(), t);
    assert(Seq::<char>::empty() + t =~= t);
    lemma_start_payload(tk2, t);
    let tk3 = tk2 + seq![
        TokenModel::TStr(t),
        TokenModel::Comma,
        TokenModel::TStr("payload"@),
        TokenModel::Colon,
        TokenModel::LBrace,
        TokenModel::TStr("query"@),
        TokenModel::Colon,
    ];
    lemma_escape_body_lex(tk3, Seq::<char>::empty(), q);
    assert(Seq::<char>::empty() + q =~= q);
    lemma_start_close(tk3, q);
    assert(tk3 + seq![TokenModel::TStr(q), TokenModel::RBrace, TokenModel::RBrace]
        =~= start_envelope_tokens(id, t, q));
    reveal_with_fuel(crate::json::valid_fold, 20);
    assert(valid_spec(start_envelope_tokens(id, t, q)));
}

// ------------------------------------------------------------------
// Decoding
// ------------------------------------------------------------------

/// Every character is a decimal digit, and there is at least one.
pub open spec fn all_digits(s: Seq<char>) -> bool {
    s.len() > 0 && forall|i: int| 0 <= i < s.len() ==> is_digit(s[i])
}

/// The value of a decimal digit string.
pub open spec fn digits_val(s: Seq<char>) -> nat
    decreases s.len(),
{
    if s.len() == 0 {
        0
    } else {
        digits_val(s.drop_last()) * 10 + digit_of(s.last())
    }
}

proof fn lemma_digits_prefix(s: Seq<char>, i: int)
    requires
        0 <= i <= s.len(),
    ensures
        digits_val(s.take(i)) <= digits_val(s),
    decreases s.len(),
{
    if i < s.len() {
        assert(s.drop_last().take(i) =~= s.take(i));
        lemma_digits_prefix(s.drop_last(), i);
    } else {
        assert(s.take(i) =~= s);
    }
}

/// The points a scalar token carries: a non-negative number, or a string
/// of decimal digits (the wire sometimes carries the number as text).
pub open spec fn points_of(t: TokenModel) -> Option<u64> {
    match t {
        TokenModel::TInt(v) => if 0 <= v {
            Some(v as u64)
        } else {
            None
        },
        TokenModel::TStr(s) => if all_digits(s) && digits_val(s) <= u64::MAX {
            Some(digits_val(s) as u64)
        } else {
            None
        },
        _ => None,
    }
}

/// Parse a decimal digit string into points.
fn parse_points_str(s: &String) -> (r: Option<u64>)
    ensures
        r == points_of(TokenModel::TStr(s@)),
{
    let cs = chars_of(s.as_str());
    let n = cs.len();
    if n == 0 {
        return None;
    }
    let mut acc: u64 = 0;
    let mut i: usize = 0;
    while i < n
        invariant
            n == s@.len(),
            cs@ == s@,
            n > 0,
            i <= n,
            forall|j: int| 0 <= j < i ==> is_digit(s@[j]),
            acc as nat == digits_val(s@.take(i as int)),
        decreases n - i,
    {
        let c = cs[i];
        if !(('0' as u32) <= (c as u32) && (c as u32) <= ('9' as u32)) {
            return None;
        }
        let d = (c as u32 - '0' as u32) as u64;
        let nv: u128 = acc as u128 * 10 + d as u128;
        proof {
            assert(s@.take(i as int + 1).drop_last() =~= s@.take(i as int));
            assert(s@.take(i as int + 1).last() == s@[i as int]);
        }
        if nv > u64::MAX as u128 {
            proof {
                lemma_digits_prefix(s@, i as int + 1);
            }
            return None;
        }
        acc = nv as u64;
        i = i + 1;
    }
    proof {
        assert(s@.take(n as int) =~= s@);
    }
    Some(acc)
}

/// The points a scalar token carries.
fn points_of_token(t: &Token) -> (r: Option<u64>)
    ensures
        r == points_of(t@),
{
    match t {
        Token::TInt(v) => {
            if *v >= 0 {
                Some(*v as u64)
            } else {
                None
            }
        },
        Token::TStr(s) => parse_points_str(s),
        _ => None,
    }
}

/// The key path to the envelope's type field.
pub open spec fn type_path() -> Seq<Seq<char>> {
    seq!["type"@]
}

/// The key path to one field of the mutation record of the subscribed query.
pub open spec fn book_path(field: Seq<char>, key: Seq<char>) -> Seq<Seq<char>> {
    seq!["payload"@, "data"@, field, key]
}

/// The string at the given path, when the path names a string.
pub open spec fn str_at(ts: Seq<TokenModel>, path: Seq<Seq<char>>) -> Option<Seq<char>> {
    match extract_spec(ts, path) {
        Some(TokenModel::TStr(s)) => Some(s),
        _ => None,
    }
}

/// The points at the given path, when the path names a usable scalar.
pub open spec fn points_at(ts: Seq<TokenModel>, path: Seq<Seq<char>>) -> Option<u64> {
    match extract_spec(ts, path) {
        Some(t) => points_of(t),
        None => None,
    }
}

/// What a `data` envelope decodes to.
pub open spec fn data_event_spec(ts: Seq<TokenModel>, field: Seq<char>) -> Result<
    ServerEnvelopeModel,
    DecodeError,
> {
    match str_at(ts, book_path(field, "mutationType"@)) {
        None => Err(DecodeError::MalformedMessage),
        Some(mt) => {
            if mt == "CREATED"@ || mt == "UPDATED"@ || mt == "DELETED"@ {
                match str_at(ts, book_path(field, "id"@)) {
                    None => Err(DecodeError::MalformedMessage),
                    Some(id) => {
                        if mt == "DELETED"@ {
                            Ok(ServerEnvelopeModel::Data(MutationEventModel::Deleted { id }))
                        } else {
                            match (
                                str_at(ts, book_path(field, "name"@)),
                                str_at(ts, book_path(field, "author"@)),
                                points_at(ts, book_path(field, "points"@)),
                            ) {
                                (Some(name), Some(author), Some(points)) => {
                                    if mt == "CREATED"@ {
                                        Ok(
                                            ServerEnvelopeModel::Data(
                                                MutationEventModel::Created {
                                                    id,
                                                    name,
                                                    author,
                                                    points,
                                                },
                                            ),
                                        )
                                    } else {
                                        Ok(
                                            ServerEnvelopeModel::Data(
                                                MutationEventModel::Updated {
                                                    id,
                                                    name,
                                                    author,
                                                    points,
                                                },
                                            ),
                                        )
                                    }
                                },
                                _ => Err(DecodeError::MalformedMessage),
                            }
                        }
                    },
                }
            } else {
                Ok(ServerEnvelopeModel::UnknownMutation)
            }
        },
    }
}

/// What an inbound frame decodes to: the handshake acknowledgment, a
/// mutation event of the subscribed query named `field`, an unknown
/// envelope, or a malformed-message error.
pub open spec fn decode_spec(s: Seq<char>, field: Seq<char>) -> Result<
    ServerEnvelopeModel,
    DecodeError,
> {
    match lex_spec(s) {
        None => Err(DecodeError::MalformedMessage),
        Some(ts) => {
            if !valid_spec(ts) {
                Err(DecodeError::MalformedMessage)
            } else {
                match str_at(ts, type_path()) {
                    None => Err(DecodeError::MalformedMessage),
                    Some(ty) => {
                        if ty == "connection_ack"@ {
                            Ok(ServerEnvelopeModel::ConnectionAck)
                        } else if ty == "data"@ {
                            data_event_spec(ts, field)
                        } else {
                            Ok(ServerEnvelopeModel::UnknownType)
                        }
                    },
                }
            }
        },
    }
}

/// The string token at a path of a token sequence, when it is a string.
fn str_at_exec(ts: &Vec<Token>, path: &Vec<String>) -> (r: Option<String>)
    ensures
        match r {
            Some(v) => str_at(tokens_model(ts@), strs_model(path@)) == Some(v@),
            None => str_at(tokens_model(ts@), strs_model(path@)) is None,
        },
{
    match extract_path(ts, path) {
        Some(Token::TStr(v)) => Some(v),
        _ => None,
    }
}

/// Build the path to one field of the mutation record.
fn book_path_exec(field: &str, key: &str) -> (r: Vec<String>)
    ensures
        strs_model(r@) == book_path(field@, key@),
{
    let mut r: Vec<String> = Vec::new();
    r.push(String::from_str("payload"));
    r.push(String::from_str("data"));
    r.push(String::from_str(field));
    r.push(String::from_str(key));
    proof {
        assert(strs_model(r@) =~= book_path(field@, key@));
    }
    r
}

/// Decode the `data` envelope's mutation record.
fn data_event(ts: &Vec<Token>, field: &str) -> (r: Result<ServerEnvelope, DecodeError>)
    ensures
        match r {
            Ok(env) => data_event_spec(tokens_model(ts@), field@) == Ok::<
                ServerEnvelopeModel,
                DecodeError,
            >(env@),
            Err(e) => data_event_spec(tokens_model(ts@), field@) == Err::<
                ServerEnvelopeModel,
                DecodeError,
            >(e),
        },
{
    let mt = match str_at_exec(ts, &book_path_exec(field, "mutationType")) {
        Some(v) => v,
        None => {
            return Err(DecodeError::MalformedMessage);
        },
    };
    let created = mt == String::from_str("CREATED");
    let updated = mt == String::from_str("UPDATED");
    let deleted = mt == String::from_str("DELETED");
    if !(created || updated || deleted) {
        return Ok(ServerEnvelope::UnknownMutation);
    }
    let id = match str_at_exec(ts, &book_path_exec(field, "id")) {
        Some(v) => v,
        None => {
            return Err(DecodeError::MalformedMessage);
        },
    };
    if deleted {
        return Ok(ServerEnvelope::Data(MutationEvent::Deleted { id }));
    }
    let name = match str_at_exec(ts, &book_path_exec(field, "name")) {
        Some(v) => v,
        None => {
            return Err(DecodeError::MalformedMessage);
        },
    };
    let author = match str_at_exec(ts, &book_path_exec(field, "author")) {
        Some(v) => v,
        None => {
            return Err(DecodeError::MalformedMessage);
        },
    };
    let points_tok = match extract_path(ts, &book_path_exec(field, "points")) {
        Some(t) => t,
        None => {
            return Err(DecodeError::MalformedMessage);
        },
    };
    let points = match points_of_token(&points_tok) {
        Some(p) => p,
        None => {
            return Err(DecodeError::MalformedMessage);
        },
    };
    if created {
        Ok(ServerEnvelope::Data(MutationEvent::Created { id, name, author, points }))
    } else {
        Ok(ServerEnvelope::Data(MutationEvent::Updated { id, name, author, points }))
    }
}

/// Decode one inbound text frame for the subscribed query named `field`.
pub fn decode_frame(s: &str, field: &str) -> (r: Result<ServerEnvelope, DecodeError>)
    ensures
        match r {
            Ok(env) => decode_spec(s@, field@) == Ok::<ServerEnvelopeModel, DecodeError>(env@),
            Err(e) => decode_spec(s@, field@) == Err::<ServerEnvelopeModel, DecodeError>(e),
        },
{
    let cs = chars_of(s);
    let ts = match lex(&cs) {
        Some(ts) => ts,
        None => {
            return Err(DecodeError::MalformedMessage);
        },
    };
    if !valid_tokens(&ts) {
        return Err(DecodeError::MalformedMessage);
    }
    let mut tpath: Vec<String> = Vec::new();
    tpath.push(String::from_str("type"));
    proof {
        assert(strs_model(tpath@) =~= type_path());
    }
    let ty = match str_at_exec(&ts, &tpath) {
        Some(v) => v,
        None => {
            return Err(DecodeError::MalformedMessage);
        },
    };
    if ty == String::from_str("connection_ack") {
        Ok(ServerEnvelope::ConnectionAck)
    } else if ty == String::from_str("data") {
        data_event(&ts, field)
    } else {
        Ok(ServerEnvelope::UnknownType)
    }
}

} // verus!
