//! Token-level machinery for the subscription wire format: a tokenizer, a
//! well-formedness check, and a path extractor for JSON texts.
//!
//! The dialect is the one this protocol puts on the wire: objects, arrays,
//! strings with the single-character escapes (`\" \\ \/ \b \f \n \r \t`)
//! and `\uXXXX` escapes for non-surrogate values, integer numbers, `true`,
//! `false` and `null`. Fractions, exponents and surrogate pairs are reported
//! as malformed rather than decoded; characters outside the basic plane
//! travel as raw text.
//!
//! Each pass is a state machine folded over its input; the specification
//! gives the machine as a spec function over sequences, and the executable
//! code mirrors it step by step.

use vstd::prelude::*;
use vstd::string::StrSliceExecFns;
use vstd::string::StringExecFns;

verus! {

/// Relies on String::push: appends the given character to the end of the
/// string. vstd gives String no specification for it.
pub assume_specification[ String::push ](s: &mut String, c: char)
    ensures
        final(s)@ == old(s)@.push(c),
;

/// Relies on char::from_u32: every value below 0x110000 that is not a
/// surrogate is Some; the precondition admits only those, so the call
/// cannot return None.
#[verifier::external_body]
fn char_of_u32(v: u32) -> (c: char)
    requires
        v < 0xD800 || (0xE000 <= v && v < 0x10000),
    ensures
        c == (v as char),
{
    char::from_u32(v).expect("a non-surrogate scalar value is a char")
}

/// One lexical token of the wire dialect.
#[derive(Debug, PartialEq)]
pub enum Token {
    LBrace,
    RBrace,
    LBracket,
    RBracket,
    Colon,
    Comma,
    TStr(String),
    TInt(i64),
    TBool(bool),
    TNull,
}

/// Mathematical model of a token.
pub enum TokenModel {
    LBrace,
    RBrace,
    LBracket,
    RBracket,
    Colon,
    Comma,
    TStr(Seq<char>),
    TInt(int),
    TBool(bool),
    TNull,
}

impl View for Token {
    type V = TokenModel;

    open spec fn view(&self) -> TokenModel {
        match self {
            Token::LBrace => TokenModel::LBrace,
            Token::RBrace => TokenModel::RBrace,
            Token::LBracket => TokenModel::LBracket,
            Token::RBracket => TokenModel::RBracket,
            Token::Colon => TokenModel::Colon,
            Token::Comma => TokenModel::Comma,
            Token::TStr(s) => TokenModel::TStr(s@),
            Token::TInt(v) => TokenModel::TInt(*v as int),
            Token::TBool(b) => TokenModel::TBool(*b),
            Token::TNull => TokenModel::TNull,
        }
    }
}

pub open spec fn is_ws(c: char) -> bool {
    c == ' ' || c == '\n' || c == '\r' || c == '\t'
}

pub open spec fn is_digit(c: char) -> bool {
    '0' as u32 <= c as u32 && c as u32 <= '9' as u32
}

pub open spec fn digit_of(c: char) -> nat {
    (c as u32 - '0' as u32) as nat
}

pub open spec fn is_word_char(c: char) -> bool {
    'a' as u32 <= c as u32 && c as u32 <= 'z' as u32
}

pub open spec fn is_hex(c: char) -> bool {
    is_digit(c) || ('a' as u32 <= c as u32 && c as u32 <= 'f' as u32) || ('A' as u32 <= c as u32
        && c as u32 <= 'F' as u32)
}

/// The value of one hexadecimal digit character.
pub open spec fn hex_val(c: char) -> u32 {
    if is_digit(c) {
        (c as u32 - 48) as u32
    } else if 'a' as u32 <= c as u32 && c as u32 <= 'f' as u32 {
        (c as u32 - 87) as u32
    } else {
        (c as u32 - 55) as u32
    }
}

/// Is the value one that a `char` can carry (a scalar in the basic plane).
pub open spec fn is_bmp_scalar(v: u32) -> bool {
    v < 0xD800 || (0xE000 <= v && v < 0x10000)
}

/// The largest magnitude a number token may reach: `-2^63` through
/// `2^63 - 1`, the range of the token's integer.
pub open spec fn num_bound(neg: bool) -> nat {
    if neg {
        9223372036854775808nat
    } else {
        9223372036854775807nat
    }
}

/// What the tokenizer is in the middle of.
pub enum LexMode {
    /// Between tokens.
    Top,
    /// Inside a string literal; `acc` holds the unescaped prefix.
    InStr { acc: Seq<char> },
    /// Inside a string literal, right after a backslash.
    InEsc { acc: Seq<char> },
    /// Inside a `\uXXXX` escape: `code` is the value of the `k` hexadecimal
    /// digits read so far.
    InUni { acc: Seq<char>, code: u32, k: nat },
    /// Inside a number; `any` says whether a digit has been seen.
    InNum { neg: bool, val: nat, any: bool },
    /// Inside a bare word (`true`, `false`, `null`).
    InWord { acc: Seq<char> },
}

/// Model of the tokenizer's state after some prefix of the input.
pub struct LexState {
    pub tokens: Seq<TokenModel>,
    pub mode: LexMode,
    pub failed: bool,
}

pub open spec fn lex_init() -> LexState {
    LexState { tokens: Seq::empty(), mode: LexMode::Top, failed: false }
}

/// One character arriving between tokens.
pub open spec fn lex_top_step(tokens: Seq<TokenModel>, c: char) -> LexState {
    if is_ws(c) {
        LexState { tokens, mode: LexMode::Top, failed: false }
    } else if c == '{' {
        LexState { tokens: tokens.push(TokenModel::LBrace), mode: LexMode::Top, failed: false }
    } else if c == '}' {
        LexState { tokens: tokens.push(TokenModel::RBrace), mode: LexMode::Top, failed: false }
    } else if c == '[' {
        LexState { tokens: tokens.push(TokenModel::LBracket), mode: LexMode::Top, failed: false }
    } else if c == ']' {
        LexState { tokens: tokens.push(TokenModel::RBracket), mode: LexMode::Top, failed: false }
    } else if c == ':' {
        LexState { tokens: tokens.push(TokenModel::Colon), mode: LexMode::Top, failed: false }
    } else if c == ',' {
        LexState { tokens: tokens.push(TokenModel::Comma), mode: LexMode::Top, failed: false }
    } else if c == '"' {
        LexState { tokens, mode: LexMode::InStr { acc: Seq::empty() }, failed: false }
    } else if c == '-' {
        LexState { tokens, mode: LexMode::InNum { neg: true, val: 0, any: false }, failed: false }
    } else if is_digit(c) {
        LexState {
            tokens,
            mode: LexMode::InNum { neg: false, val: digit_of(c), any: true },
            failed: false,
        }
    } else if is_word_char(c) {
        LexState { tokens, mode: LexMode::InWord { acc: seq![c] }, failed: false }
    } else {
        LexState { tokens, mode: LexMode::Top, failed: true }
    }
}

/// The token a finished number makes.
pub open spec fn num_token(neg: bool, val: nat) -> TokenModel {
    if neg {
        TokenModel::TInt(-(val as int))
    } else {
        TokenModel::TInt(val as int)
    }
}

/// The token a finished bare word makes, if it is a keyword.
pub open spec fn word_token(acc: Seq<char>) -> Option<TokenModel> {
    if acc == "true"@ {
        Some(TokenModel::TBool(true))
    } else if acc == "false"@ {
        Some(TokenModel::TBool(false))
    } else if acc == "null"@ {
        Some(TokenModel::TNull)
    } else {
        None
    }
}

/// What the escape character after a backslash stands for.
pub open spec fn unescaped(c: char) -> Option<char> {
    if c == '"' {
        Some('"')
    } else if c == '\\' {
        Some('\\')
    } else if c == '/' {
        Some('/')
    } else if c == 'b' {
        Some('\u{0008}')
    } else if c == 'f' {
        Some('\u{000C}')
    } else if c == 'n' {
        Some('\n')
    } else if c == 'r' {
        Some('\r')
    } else if c == 't' {
        Some('\t')
    } else {
        None
    }
}

/// One character arriving at the tokenizer.
pub open spec fn lex_step(st: LexState, c: char) -> LexState {
    if st.failed {
        st
    } else {
        match st.mode {
            LexMode::Top => lex_top_step(st.tokens, c),
            LexMode::InStr { acc } => {
                if c == '"' {
                    LexState {
                        tokens: st.tokens.push(TokenModel::TStr(acc)),
                        mode: LexMode::Top,
                        failed: false,
                    }
                } else if c == '\\' {
                    LexState { tokens: st.tokens, mode: LexMode::InEsc { acc }, failed: false }
                } else if (c as u32) < 0x20 {
                    LexState { tokens: st.tokens, mode: st.mode, failed: true }
                } else {
                    LexState {
                        tokens: st.tokens,
                        mode: LexMode::InStr { acc: acc.push(c) },
                        failed: false,
                    }
                }
            },
            LexMode::InEsc { acc } => {
                if c == 'u' {
                    LexState {
                        tokens: st.tokens,
                        mode: LexMode::InUni { acc, code: 0, k: 0 },
                        failed: false,
                    }
                } else {
                    match unescaped(c) {
                        Some(u) => LexState {
                            tokens: st.tokens,
                            mode: LexMode::InStr { acc: acc.push(u) },
                            failed: false,
                        },
                        None => LexState { tokens: st.tokens, mode: st.mode, failed: true },
                    }
                }
            },
            LexMode::InUni { acc, code, k } => {
                if is_hex(c) && code < 0x1000 {
                    let nc = (code * 16 + hex_val(c)) as u32;
                    if k >= 3 {
                        if is_bmp_scalar(nc) {
                            LexState {
                                tokens: st.tokens,
                                mode: LexMode::InStr { acc: acc.push(nc as char) },
                                failed: false,
                            }
                        } else {
                            LexState { tokens: st.tokens, mode: st.mode, failed: true }
                        }
                    } else {
                        LexState {
                            tokens: st.tokens,
                            mode: LexMode::InUni { acc, code: nc, k: k + 1 },
                            failed: false,
                        }
                    }
                } else {
                    LexState { tokens: st.tokens, mode: st.mode, failed: true }
                }
            },
            LexMode::InNum { neg, val, any } => {
                if is_digit(c) {
                    let nv = val * 10 + digit_of(c);
                    if nv > num_bound(neg) {
                        LexState { tokens: st.tokens, mode: st.mode, failed: true }
                    } else {
                        LexState {
                            tokens: st.tokens,
                            mode: LexMode::InNum { neg, val: nv, any: true },
                            failed: false,
                        }
                    }
                } else if !any {
                    LexState { tokens: st.tokens, mode: st.mode, failed: true }
                } else {
                    lex_top_step(st.tokens.push(num_token(neg, val)), c)
                }
            },
            LexMode::InWord { acc } => {
                if is_word_char(c) {
                    LexState {
                        tokens: st.tokens,
                        mode: LexMode::InWord { acc: acc.push(c) },
                        failed: false,
                    }
                } else {
                    match word_token(acc) {
                        Some(t) => lex_top_step(st.tokens.push(t), c),
                        None => LexState { tokens: st.tokens, mode: st.mode, failed: true },
                    }
                }
            },
        }
    }
}

/// The tokenizer folded over a whole character sequence.
pub open spec fn lex_fold(st: LexState, s: Seq<char>) -> LexState
    decreases s.len(),
{
    if s.len() == 0 {
        st
    } else {
        lex_fold(lex_step(st, s[0]), s.drop_first())
    }
}

/// Close out the tokenizer at end of input.
pub open spec fn lex_finish(st: LexState) -> Option<Seq<TokenModel>> {
    if st.failed {
        None
    } else {
        match st.mode {
            LexMode::Top => Some(st.tokens),
            LexMode::InNum { neg, val, any } => {
                if any {
                    Some(st.tokens.push(num_token(neg, val)))
                } else {
                    None
                }
            },
            LexMode::InWord { acc } => {
                match word_token(acc) {
                    Some(t) => Some(st.tokens.push(t)),
                    None => None,
                }
            },
            _ => None,
        }
    }
}

/// The tokens of a character sequence, or `None` when it does not lex.
pub open spec fn lex_spec(s: Seq<char>) -> Option<Seq<TokenModel>> {
    lex_finish(lex_fold(lex_init(), s))
}

/// Executable tokenizer state. The mode is kept flattened: `tag` says which
/// mode the machine is in and the other fields carry that mode's data.
struct Lexer {
    tokens: Vec<Token>,
    tag: LexTag,
    acc: String,
    neg: bool,
    val: u64,
    any: bool,
    ucode: u32,
    ucount: u8,
    failed: bool,
}

#[derive(Clone, Copy, PartialEq, Eq, Structural, Debug)]
enum LexTag {
    Top,
    InStr,
    InEsc,
    InUni,
    InNum,
    InWord,
}

impl View for Lexer {
    type V = LexState;

    closed spec fn view(&self) -> LexState {
        LexState {
            tokens: self.tokens@.map_values(|t: Token| t@),
            mode: match self.tag {
                LexTag::Top => LexMode::Top,
                LexTag::InStr => LexMode::InStr { acc: self.acc@ },
                LexTag::InEsc => LexMode::InEsc { acc: self.acc@ },
                LexTag::InUni => LexMode::InUni {
                    acc: self.acc@,
                    code: self.ucode,
                    k: self.ucount as nat,
                },
                LexTag::InNum => LexMode::InNum {
                    neg: self.neg,
                    val: self.val as nat,
                    any: self.any,
                },
                LexTag::InWord => LexMode::InWord { acc: self.acc@ },
            },
            failed: self.failed,
        }
    }
}

impl Lexer {
    spec fn inv(&self) -> bool {
        &&& self.neg ==> self.val <= 9223372036854775808u64
        &&& !self.neg ==> self.val <= 9223372036854775807u64
    }

    fn new() -> (r: Lexer)
        ensures
            r@ == lex_init(),
            r.inv(),
    {
        let r = Lexer {
            tokens: Vec::new(),
            tag: LexTag::Top,
            acc: String::new(),
            neg: false,
            val: 0,
            any: false,
            ucode: 0,
            ucount: 0,
            failed: false,
        };
        proof {
            assert(r@.tokens =~= lex_init().tokens);
        }
        r
    }

    /// Handle one character while between tokens.
    fn top_step(&mut self, c: char)
        requires
            old(self)@.mode == LexMode::Top,
            !old(self)@.failed,
            old(self).inv(),
        ensures
            final(self)@ == lex_top_step(old(self)@.tokens, c),
            final(self).inv(),
    {
        if c == ' ' || c == '\n' || c == '\r' || c == '\t' {
        } else if c == '{' {
            self.tokens.push(Token::LBrace);
        } else if c == '}' {
            self.tokens.push(Token::RBrace);
        } else if c == '[' {
            self.tokens.push(Token::LBracket);
        } else if c == ']' {
            self.tokens.push(Token::RBracket);
        } else if c == ':' {
            self.tokens.push(Token::Colon);
        } else if c == ',' {
            self.tokens.push(Token::Comma);
        } else if c == '"' {
            self.tag = LexTag::InStr;
            self.acc = String::new();
        } else if c == '-' {
            self.tag = LexTag::InNum;
            self.neg = true;
            self.val = 0;
            self.any = false;
        } else if ('0' as u32) <= (c as u32) && (c as u32) <= ('9' as u32) {
            self.tag = LexTag::InNum;
            self.neg = false;
            self.val = (c as u32 - '0' as u32) as u64;
            self.any = true;
        } else if ('a' as u32) <= (c as u32) && (c as u32) <= ('z' as u32) {
            self.tag = LexTag::InWord;
            self.acc = String::new();
            self.acc.push(c);
            proof {
                assert(self.acc@ =~= seq![c]);
            }
        } else {
            self.failed = true;
        }
        proof {
            assert(final(self)@.tokens =~= lex_top_step(old(self)@.tokens, c).tokens);
        }
    }

    /// Handle one character.
    fn step(&mut self, c: char)
        requires
            old(self).inv(),
        ensures
            final(self)@ == lex_step(old(self)@, c),
            final(self).inv(),
    {
        if self.failed {
            return ;
        }
        match self.tag {
            LexTag::Top => {
                self.top_step(c);
            },
            LexTag::InStr => {
                if c == '"' {
                    let mut acc = String::new();
                    core::mem::swap(&mut acc, &mut self.acc);
                    self.tokens.push(Token::TStr(acc));
                    self.tag = LexTag::Top;
                    proof {
                        assert(final(self)@.tokens =~= lex_step(old(self)@, c).tokens);
                    }
                } else if c == '\\' {
                    self.tag = LexTag::InEsc;
                } else if (c as u32) < 0x20 {
                    self.failed = true;
                } else {
                    self.acc.push(c);
                }
            },
            LexTag::InEsc => {
                if c == 'u' {
                    self.tag = LexTag::InUni;
                    self.ucode = 0;
                    self.ucount = 0;
                    return ;
                }
                let u: Option<char> = if c == '"' {
                    Some('"')
                } else if c == '\\' {
                    Some('\\')
                } else if c == '/' {
                    Some('/')
                } else if c == 'b' {
                    Some('\u{0008}')
                } else if c == 'f' {
                    Some('\u{000C}')
                } else if c == 'n' {
                    Some('\n')
                } else if c == 'r' {
                    Some('\r')
                } else if c == 't' {
                    Some('\t')
                } else {
                    None
                };
                match u {
                    Some(uc) => {
                        self.acc.push(uc);
                        self.tag = LexTag::InStr;
                    },
                    None => {
                        self.failed = true;
                    },
                }
            },
            LexTag::InUni => {
                let d: Option<u32> = if ('0' as u32) <= (c as u32) && (c as u32) <= ('9' as u32) {
                    Some(c as u32 - 48)
                } else if ('a' as u32) <= (c as u32) && (c as u32) <= ('f' as u32) {
                    Some(c as u32 - 87)
                } else if ('A' as u32) <= (c as u32) && (c as u32) <= ('F' as u32) {
                    Some(c as u32 - 55)
                } else {
                    None
                };
                match d {
                    Some(v) => {
                        if self.ucode < 0x1000 {
                            let nc = self.ucode * 16 + v;
                            if self.ucount >= 3 {
                                if nc < 0xD800 || nc >= 0xE000 {
                                    let uc = char_of_u32(nc);
                                    self.acc.push(uc);
                                    self.tag = LexTag::InStr;
                                } else {
                                    self.failed = true;
                                }
                            } else {
                                self.ucode = nc;
                                self.ucount = self.ucount + 1;
                            }
                        } else {
                            self.failed = true;
                        }
                    },
                    None => {
                        self.failed = true;
                    },
                }
            },
            LexTag::InNum => {
                if ('0' as u32) <= (c as u32) && (c as u32) <= ('9' as u32) {
                    let d = (c as u32 - '0' as u32) as u64;
                    let bound: u64 = if self.neg {
                        9223372036854775808u64
                    } else {
                        9223372036854775807u64
                    };
                    let nv: u128 = self.val as u128 * 10 + d as u128;
                    if nv > bound as u128 {
                        self.failed = true;
                    } else {
                        self.val = nv as u64;
                        self.any = true;
                    }
                } else if !self.any {
                    self.failed = true;
                } else {
                    let t = self.int_token();
                    self.tokens.push(t);
                    self.tag = LexTag::Top;
                    proof {
                        assert(self@.tokens =~= old(self)@.tokens.push(
                            num_token(old(self).neg, old(self).val as nat),
                        ));
                    }
                    self.top_step(c);
                }
            },
            LexTag::InWord => {
                if ('a' as u32) <= (c as u32) && (c as u32) <= ('z' as u32) {
                    self.acc.push(c);
                } else {
                    match self.word_token_exec() {
                        Some(t) => {
                            self.tokens.push(t);
                            self.tag = LexTag::Top;
                            proof {
                                assert(self@.tokens =~= old(self)@.tokens.push(t@));
                            }
                            self.top_step(c);
                        },
                        None => {
                            self.failed = true;
                        },
                    }
                }
            },
        }
    }

    /// The finished number as a token.
    fn int_token(&self) -> (t: Token)
        requires
            self.neg ==> self.val <= 9223372036854775808u64,
            !self.neg ==> self.val <= 9223372036854775807u64,
        ensures
            t@ == num_token(self.neg, self.val as nat),
    {
        if self.neg {
            Token::TInt((-(self.val as i128)) as i64)
        } else {
            Token::TInt(self.val as i64)
        }
    }

    /// The finished bare word as a token, if it is a keyword.
    fn word_token_exec(&self) -> (t: Option<Token>)
        ensures
            match t {
                Some(tok) => word_token(self.acc@) == Some(tok@),
                None => word_token(self.acc@) is None,
            },
    {
        if self.acc == String::from_str("true") {
            Some(Token::TBool(true))
        } else if self.acc == String::from_str("false") {
            Some(Token::TBool(false))
        } else if self.acc == String::from_str("null") {
            Some(Token::TNull)
        } else {
            None
        }
    }

    /// Close out the tokenizer at end of input.
    fn finish(self) -> (r: Option<Vec<Token>>)
        requires
            self.inv(),
        ensures
            match r {
                Some(ts) => lex_finish(self@) == Some(ts@.map_values(|t: Token| t@)),
                None => lex_finish(self@) is None,
            },
    {
        if self.failed {
            return None;
        }
        match self.tag {
            LexTag::Top => Some(self.tokens),
            LexTag::InNum => {
                if self.any {
                    let t = self.int_token();
                    let mut tokens = self.tokens;
                    tokens.push(t);
                    proof {
                        assert(tokens@.map_values(|x: Token| x@) =~= self@.tokens.push(
                            num_token(self.neg, self.val as nat),
                        ));
                    }
                    Some(tokens)
                } else {
                    None
                }
            },
            LexTag::InWord => {
                match self.word_token_exec() {
                    Some(t) => {
                        let mut tokens = self.tokens;
                        tokens.push(t);
                        proof {
                            assert(tokens@.map_values(|x: Token| x@) =~= self@.tokens.push(t@));
                        }
                        Some(tokens)
                    },
                    None => None,
                }
            },
            _ => None,
        }
    }
}

/// The characters of a string, in order.
pub fn chars_of(s: &str) -> (v: Vec<char>)
    ensures
        v@ == s@,
{
    let n = s.unicode_len();
    let mut v: Vec<char> = Vec::new();
    let mut i: usize = 0;
    while i < n
        invariant
            n == s@.len(),
            i <= n,
            v@ == s@.take(i as int),
        decreases n - i,
    {
        v.push(s.get_char(i));
        i = i + 1;
        proof {
            assert(v@ =~= s@.take(i as int));
        }
    }
    proof {
        assert(s@.take(n as int) =~= s@);
    }
    v
}

/// Tokenize a character sequence; `None` when it is not in the dialect.
pub fn lex(s: &Vec<char>) -> (r: Option<Vec<Token>>)
    ensures
        match r {
            Some(ts) => lex_spec(s@) == Some(ts@.map_values(|t: Token| t@)),
            None => lex_spec(s@) is None,
        },
{
    let mut lx = Lexer::new();
    let n = s.len();
    let mut i: usize = 0;
    proof {
        assert(s@.skip(0) =~= s@);
    }
    while i < n
        invariant
            n == s@.len(),
            i <= n,
            lx.inv(),
            lex_fold(lx@, s@.skip(i as int)) == lex_fold(lex_init(), s@),
        decreases n - i,
    {
        let ghost pre = lx@;
        let c = s[i];
        lx.step(c);
        proof {
            assert(s@.skip(i as int).drop_first() =~= s@.skip(i as int + 1));
            assert(lex_fold(pre, s@.skip(i as int)) == lex_fold(
                lex_step(pre, c),
                s@.skip(i as int + 1),
            ));
        }
        i = i + 1;
    }
    proof {
        assert(s@.skip(n as int) =~= Seq::<char>::empty());
    }
    lx.finish()
}


/// The model of a token sequence.
pub open spec fn tokens_model(ts: Seq<Token>) -> Seq<TokenModel> {
    ts.map_values(|t: Token| t@)
}

/// The model of a key path.
pub open spec fn strs_model(v: Seq<String>) -> Seq<Seq<char>> {
    v.map_values(|s: String| s@)
}

/// Is the token one of the four scalar kinds.
pub open spec fn is_scalar(t: TokenModel) -> bool {
    match t {
        TokenModel::TStr(_) => true,
        TokenModel::TInt(_) => true,
        TokenModel::TBool(_) => true,
        TokenModel::TNull => true,
        _ => false,
    }
}

/// Where the structural check stands between tokens.
#[derive(Clone, Copy, PartialEq, Eq, Structural, Debug)]
pub enum VPhase {
    /// A value is expected.
    PVal,
    /// Right after `[`: a value or `]`.
    PArrStart,
    /// Right after `{`: a key or `}`.
    PObjStart,
    /// After a comma in an object: a key.
    PObjKey,
    /// After a key: a colon.
    PObjColon,
    /// A value just ended inside a container: a comma or its close.
    PAfter,
    /// The one top-level value ended.
    PDone,
}

/// Model of the structural check's state: the stack holds one entry per
/// open container, `true` for an object, `false` for an array.
pub struct ValidState {
    pub stack: Seq<bool>,
    pub phase: VPhase,
    pub failed: bool,
}

pub open spec fn valid_init() -> ValidState {
    ValidState { stack: Seq::empty(), phase: VPhase::PVal, failed: false }
}

/// The phase after a value ends with the given containers still open.
pub open spec fn complete_phase(stack: Seq<bool>) -> VPhase {
    if stack.len() == 0 {
        VPhase::PDone
    } else {
        VPhase::PAfter
    }
}

/// A token arriving where a value is expected.
pub open spec fn valid_value_step(stack: Seq<bool>, t: TokenModel) -> ValidState {
    if is_scalar(t) {
        ValidState { stack, phase: complete_phase(stack), failed: false }
    } else if t == TokenModel::LBrace {
        ValidState { stack: stack.push(true), phase: VPhase::PObjStart, failed: false }
    } else if t == TokenModel::LBracket {
        ValidState { stack: stack.push(false), phase: VPhase::PArrStart, failed: false }
    } else {
        ValidState { stack, phase: VPhase::PVal, failed: true }
    }
}

/// The state after the innermost container closes.
pub open spec fn valid_pop(stack: Seq<bool>) -> ValidState {
    let s2 = stack.drop_last();
    ValidState { stack: s2, phase: complete_phase(s2), failed: false }
}

/// One token arriving at the structural check.
pub open spec fn valid_step(st: ValidState, t: TokenModel) -> ValidState {
    if st.failed {
        st
    } else {
        match st.phase {
            VPhase::PVal => valid_value_step(st.stack, t),
            VPhase::PArrStart => if t == TokenModel::RBracket {
                valid_pop(st.stack)
            } else {
                valid_value_step(st.stack, t)
            },
            VPhase::PObjStart => match t {
                TokenModel::TStr(_) => ValidState { stack: st.stack, phase: VPhase::PObjColon, failed: false },
                TokenModel::RBrace => valid_pop(st.stack),
                _ => ValidState { failed: true, ..st },
            },
            VPhase::PObjKey => match t {
                TokenModel::TStr(_) => ValidState { stack: st.stack, phase: VPhase::PObjColon, failed: false },
                _ => ValidState { failed: true, ..st },
            },
            VPhase::PObjColon => if t == TokenModel::Colon {
                ValidState { stack: st.stack, phase: VPhase::PVal, failed: false }
            } else {
                ValidState { failed: true, ..st }
            },
            VPhase::PAfter => if st.stack.last() {
                if t == TokenModel::Comma {
                    ValidState { stack: st.stack, phase: VPhase::PObjKey, failed: false }
                } else if t == TokenModel::RBrace {
                    valid_pop(st.stack)
                } else {
                    ValidState { failed: true, ..st }
                }
            } else {
                if t == TokenModel::Comma {
                    ValidState { stack: st.stack, phase: VPhase::PVal, failed: false }
                } else if t == TokenModel::RBracket {
                    valid_pop(st.stack)
                } else {
                    ValidState { failed: true, ..st }
                }
            },
            VPhase::PDone => ValidState { failed: true, ..st },
        }
    }
}

/// The structural check folded over a token sequence.
pub open spec fn valid_fold(st: ValidState, ts: Seq<TokenModel>) -> ValidState
    decreases ts.len(),
{
    if ts.len() == 0 {
        st
    } else {
        valid_fold(valid_step(st, ts[0]), ts.drop_first())
    }
}

/// Is the token sequence one complete, well-formed value.
pub open spec fn valid_spec(ts: Seq<TokenModel>) -> bool {
    let st = valid_fold(valid_init(), ts);
    !st.failed && st.phase == VPhase::PDone
}

/// Executable structural check state.
struct Validator {
    stack: Vec<bool>,
    phase: VPhase,
    failed: bool,
}

impl View for Validator {
    type V = ValidState;

    closed spec fn view(&self) -> ValidState {
        ValidState { stack: self.stack@, phase: self.phase, failed: self.failed }
    }
}

impl Validator {
    /// The phases that may pop or read the stack top keep it nonempty.
    spec fn inv(&self) -> bool {
        (self.phase == VPhase::PArrStart || self.phase == VPhase::PObjStart || self.phase
            == VPhase::PObjKey || self.phase == VPhase::PObjColon || self.phase == VPhase::PAfter)
            ==> self.stack@.len() >= 1
    }

    fn new() -> (r: Validator)
        ensures
            r@ == valid_init(),
            r.inv(),
    {
        let r = Validator { stack: Vec::new(), phase: VPhase::PVal, failed: false };
        proof {
            assert(r@.stack =~= valid_init().stack);
        }
        r
    }

    /// Close the innermost container.
    fn pop_close(&mut self)
        requires
            old(self)@.stack.len() >= 1,
            !old(self)@.failed,
        ensures
            final(self)@ == valid_pop(old(self)@.stack),
            final(self).inv(),
    {
        self.stack.pop();
        if self.stack.len() == 0 {
            self.phase = VPhase::PDone;
        } else {
            self.phase = VPhase::PAfter;
        }
        proof {
            assert(final(self)@.stack =~= old(self)@.stack.drop_last());
        }
    }

    /// A token arriving where a value is expected.
    fn value_step(&mut self, t: &Token)
        requires
            !old(self)@.failed,
        ensures
            final(self)@ == valid_value_step(old(self)@.stack, t@),
            final(self).inv(),
    {
        match t {
            Token::TStr(_) | Token::TInt(_) | Token::TBool(_) | Token::TNull => {
                if self.stack.len() == 0 {
                    self.phase = VPhase::PDone;
                } else {
                    self.phase = VPhase::PAfter;
                }
            },
            Token::LBrace => {
                self.stack.push(true);
                self.phase = VPhase::PObjStart;
            },
            Token::LBracket => {
                self.stack.push(false);
                self.phase = VPhase::PArrStart;
            },
            _ => {
                self.phase = VPhase::PVal;
                self.failed = true;
            },
        }
    }

    /// One token arriving at the structural check.
    fn step(&mut self, t: &Token)
        requires
            old(self).inv(),
        ensures
            final(self)@ == valid_step(old(self)@, t@),
            final(self).inv(),
    {
        if self.failed {
            return ;
        }
        match self.phase {
            VPhase::PVal => {
                self.value_step(t);
            },
            VPhase::PArrStart => {
                if let Token::RBracket = t {
                    self.pop_close();
                } else {
                    self.value_step(t);
                }
            },
            VPhase::PObjStart => {
                match t {
                    Token::TStr(_) => {
                        self.phase = VPhase::PObjColon;
                    },
                    Token::RBrace => {
                        self.pop_close();
                    },
                    _ => {
                        self.failed = true;
                    },
                }
            },
            VPhase::PObjKey => {
                match t {
                    Token::TStr(_) => {
                        self.phase = VPhase::PObjColon;
                    },
                    _ => {
                        self.failed = true;
                    },
                }
            },
            VPhase::PObjColon => {
                if let Token::Colon = t {
                    self.phase = VPhase::PVal;
                } else {
                    self.failed = true;
                }
            },
            VPhase::PAfter => {
                let top = self.stack[self.stack.len() - 1];
                if top {
                    match t {
                        Token::Comma => {
                            self.phase = VPhase::PObjKey;
                        },
                        Token::RBrace => {
                            self.pop_close();
                        },
                        _ => {
                            self.failed = true;
                        },
                    }
                } else {
                    match t {
                        Token::Comma => {
                            self.phase = VPhase::PVal;
                        },
                        Token::RBracket => {
                            self.pop_close();
                        },
                        _ => {
                            self.failed = true;
                        },
                    }
                }
            },
            VPhase::PDone => {
                self.failed = true;
            },
        }
    }
}

/// Check that a token sequence is one complete, well-formed value.
pub fn valid_tokens(ts: &Vec<Token>) -> (r: bool)
    ensures
        r == valid_spec(tokens_model(ts@)),
{
    let mut va = Validator::new();
    let n = ts.len();
    let mut i: usize = 0;
    proof {
        assert(tokens_model(ts@).skip(0) =~= tokens_model(ts@));
    }
    while i < n
        invariant
            n == ts@.len(),
            i <= n,
            va.inv(),
            valid_fold(va@, tokens_model(ts@).skip(i as int)) == valid_fold(
                valid_init(),
                tokens_model(ts@),
            ),
        decreases n - i,
    {
        let ghost pre = va@;
        va.step(&ts[i]);
        proof {
            let tm = tokens_model(ts@);
            assert(tm.skip(i as int).drop_first() =~= tm.skip(i as int + 1));
            assert(tm.skip(i as int)[0] == ts@[i as int]@);
            assert(valid_fold(pre, tm.skip(i as int)) == valid_fold(
                valid_step(pre, ts@[i as int]@),
                tm.skip(i as int + 1),
            ));
        }
        i = i + 1;
    }
    proof {
        assert(tokens_model(ts@).skip(n as int) =~= Seq::<TokenModel>::empty());
    }
    let ok = !va.failed;
    let done = match va.phase {
        VPhase::PDone => true,
        _ => false,
    };
    ok && done
}


impl Clone for Token {
    /// Clone a token; the copy models the same token.
    fn clone(&self) -> (r: Token)
        ensures
            r@ == self@,
    {
        match self {
            Token::LBrace => Token::LBrace,
            Token::RBrace => Token::RBrace,
            Token::LBracket => Token::LBracket,
            Token::RBracket => Token::RBracket,
            Token::Colon => Token::Colon,
            Token::Comma => Token::Comma,
            Token::TStr(v) => Token::TStr(v.clone()),
            Token::TInt(v) => Token::TInt(*v),
            Token::TBool(v) => Token::TBool(*v),
            Token::TNull => Token::TNull,
        }
    }
}

/// Model of the path extractor's state. The extractor walks a well-formed
/// token sequence and finds the scalar value reached from the root object
/// by following the keys of `path`, first occurrence first. `m` counts how
/// many leading path components are matched by the chain of open objects,
/// and `pend` says that the key just read matched component `m`, so the
/// value about to come either is the target (when the whole path matched)
/// or extends the chain (when it is an object).
pub struct ExtractState {
    pub stack: Seq<bool>,
    pub phase: VPhase,
    pub m: nat,
    pub pend: bool,
    pub found: Option<TokenModel>,
}

pub open spec fn ext_init() -> ExtractState {
    ExtractState { stack: Seq::empty(), phase: VPhase::PVal, m: 0, pend: false, found: None }
}

/// Cut the matched prefix back when containers above it have closed:
/// component `j` stays matched only while the object it named is open.
pub open spec fn ext_trunc(m: nat, depth: nat) -> nat {
    if m >= depth {
        if depth == 0 {
            0
        } else {
            (depth - 1) as nat
        }
    } else {
        m
    }
}

/// A token arriving where a value is expected.
pub open spec fn ext_value_step(st: ExtractState, t: TokenModel, path: Seq<Seq<char>>) -> ExtractState {
    if is_scalar(t) {
        let found2 = if st.pend && st.m + 1 == path.len() && st.found is None {
            Some(t)
        } else {
            st.found
        };
        ExtractState {
            stack: st.stack,
            phase: complete_phase(st.stack),
            m: st.m,
            pend: false,
            found: found2,
        }
    } else if t == TokenModel::LBrace {
        let m2 = if st.pend && st.m + 1 < path.len() {
            st.m + 1
        } else {
            st.m
        };
        ExtractState {
            stack: st.stack.push(true),
            phase: VPhase::PObjStart,
            m: m2,
            pend: false,
            found: st.found,
        }
    } else if t == TokenModel::LBracket {
        ExtractState {
            stack: st.stack.push(false),
            phase: VPhase::PArrStart,
            m: st.m,
            pend: false,
            found: st.found,
        }
    } else {
        st
    }
}

/// The state after the innermost container closes.
pub open spec fn ext_pop(st: ExtractState) -> ExtractState {
    let s2 = st.stack.drop_last();
    ExtractState {
        stack: s2,
        phase: complete_phase(s2),
        m: ext_trunc(st.m, s2.len()),
        pend: false,
        found: st.found,
    }
}

/// One token arriving at the path extractor.
pub open spec fn ext_step(st: ExtractState, t: TokenModel, path: Seq<Seq<char>>) -> ExtractState {
    match st.phase {
        VPhase::PVal => ext_value_step(st, t, path),
        VPhase::PArrStart => if t == TokenModel::RBracket {
            ext_pop(st)
        } else {
            ext_value_step(st, t, path)
        },
        VPhase::PObjStart | VPhase::PObjKey => match t {
            TokenModel::TStr(k) => ExtractState {
                stack: st.stack,
                phase: VPhase::PObjColon,
                m: st.m,
                pend: st.m < path.len() && st.stack.len() == st.m + 1 && k == path[st.m as int],
                found: st.found,
            },
            TokenModel::RBrace => if st.phase == VPhase::PObjStart {
                ext_pop(st)
            } else {
                st
            },
            _ => st,
        },
        VPhase::PObjColon => if t == TokenModel::Colon {
            ExtractState { phase: VPhase::PVal, ..st }
        } else {
            st
        },
        VPhase::PAfter => if st.stack.last() {
            if t == TokenModel::Comma {
                ExtractState { phase: VPhase::PObjKey, pend: false, ..st }
            } else if t == TokenModel::RBrace {
                ext_pop(st)
            } else {
                st
            }
        } else {
            if t == TokenModel::Comma {
                ExtractState { phase: VPhase::PVal, pend: false, ..st }
            } else if t == TokenModel::RBracket {
                ext_pop(st)
            } else {
                st
            }
        },
        VPhase::PDone => st,
    }
}

/// The path extractor folded over a token sequence.
pub open spec fn ext_fold(st: ExtractState, ts: Seq<TokenModel>, path: Seq<Seq<char>>) -> ExtractState
    decreases ts.len(),
{
    if ts.len() == 0 {
        st
    } else {
        ext_fold(ext_step(st, ts[0], path), ts.drop_first(), path)
    }
}

/// The scalar at the given key path of a well-formed token sequence, or
/// `None` when the path names nothing, names a container, or runs through
/// an array.
pub open spec fn extract_spec(ts: Seq<TokenModel>, path: Seq<Seq<char>>) -> Option<TokenModel> {
    ext_fold(ext_init(), ts, path).found
}

/// Executable path extractor state.
struct Extractor {
    stack: Vec<bool>,
    phase: VPhase,
    m: usize,
    pend: bool,
    found: Option<Token>,
}

impl View for Extractor {
    type V = ExtractState;

    closed spec fn view(&self) -> ExtractState {
        ExtractState {
            stack: self.stack@,
            phase: self.phase,
            m: self.m as nat,
            pend: self.pend,
            found: match self.found {
                Some(t) => Some(t@),
                None => None,
            },
        }
    }
}

impl Extractor {
    /// The phases that pop or read the stack top keep it nonempty, and the
    /// matched counter stays within the path while a match is pending.
    spec fn inv(&self, path: Seq<Seq<char>>) -> bool {
        &&& (self.phase == VPhase::PArrStart || self.phase == VPhase::PObjStart || self.phase
            == VPhase::PObjKey || self.phase == VPhase::PObjColon || self.phase == VPhase::PAfter)
            ==> self.stack@.len() >= 1
        &&& self.pend ==> (self.m as nat) < path.len()
    }

    fn new() -> (r: Extractor)
        ensures
            r@ == ext_init(),
            forall|path: Seq<Seq<char>>| r.inv(path),
    {
        let r = Extractor { stack: Vec::new(), phase: VPhase::PVal, m: 0, pend: false, found: None };
        proof {
            assert(r@.stack =~= ext_init().stack);
        }
        r
    }

    /// Close the innermost container.
    fn pop_close(&mut self, ghost_path: Ghost<Seq<Seq<char>>>)
        requires
            old(self)@.stack.len() >= 1,
        ensures
            final(self)@ == ext_pop(old(self)@),
            final(self).inv(ghost_path@),
    {
        self.stack.pop();
        let d = self.stack.len();
        if self.m >= d {
            if d == 0 {
                self.m = 0;
            } else {
                self.m = d - 1;
            }
        }
        self.pend = false;
        if d == 0 {
            self.phase = VPhase::PDone;
        } else {
            self.phase = VPhase::PAfter;
        }
        proof {
            assert(final(self)@.stack =~= old(self)@.stack.drop_last());
        }
    }

    /// A token arriving where a value is expected.
    fn value_step(&mut self, t: &Token, path: &Vec<String>)
        requires
            old(self).inv(strs_model(path@)),
        ensures
            final(self)@ == ext_value_step(old(self)@, t@, strs_model(path@)),
            final(self).inv(strs_model(path@)),
    {
        match t {
            Token::TStr(_) | Token::TInt(_) | Token::TBool(_) | Token::TNull => {
                let plen = path.len();
                proof {
                    assert(strs_model(path@).len() == path@.len());
                }
                if self.pend {
                    if self.m + 1 == plen {
                        if match self.found {
                            None => true,
                            Some(_) => false,
                        } {
                            self.found = Some(t.clone());
                        }
                    }
                }
                self.pend = false;
                if self.stack.len() == 0 {
                    self.phase = VPhase::PDone;
                } else {
                    self.phase = VPhase::PAfter;
                }
            },
            Token::LBrace => {
                let plen = path.len();
                proof {
                    assert(strs_model(path@).len() == path@.len());
                }
                if self.pend {
                    if self.m + 1 < plen {
                        self.m = self.m + 1;
                    }
                }
                self.pend = false;
                self.stack.push(true);
                self.phase = VPhase::PObjStart;
            },
            Token::LBracket => {
                self.pend = false;
                self.stack.push(false);
                self.phase = VPhase::PArrStart;
            },
            _ => {},
        }
    }

    /// One token arriving at the path extractor.
    fn step(&mut self, t: &Token, path: &Vec<String>)
        requires
            old(self).inv(strs_model(path@)),
        ensures
            final(self)@ == ext_step(old(self)@, t@, strs_model(path@)),
            final(self).inv(strs_model(path@)),
    {
        match self.phase {
            VPhase::PVal => {
                self.value_step(t, path);
            },
            VPhase::PArrStart => {
                if let Token::RBracket = t {
                    self.pop_close(Ghost(strs_model(path@)));
                } else {
                    self.value_step(t, path);
                }
            },
            VPhase::PObjStart | VPhase::PObjKey => {
                match t {
                    Token::TStr(k) => {
                        self.pend = self.m < path.len() && self.stack.len() == self.m + 1 && *k
                            == path[self.m];
                        self.phase = VPhase::PObjColon;
                    },
                    Token::RBrace => {
                        let at_start = match self.phase {
                            VPhase::PObjStart => true,
                            _ => false,
                        };
                        if at_start {
                            self.pop_close(Ghost(strs_model(path@)));
                        }
                    },
                    _ => {},
                }
            },
            VPhase::PObjColon => {
                if let Token::Colon = t {
                    self.phase = VPhase::PVal;
                }
            },
            VPhase::PAfter => {
                let top = self.stack[self.stack.len() - 1];
                if top {
                    match t {
                        Token::Comma => {
                            self.phase = VPhase::PObjKey;
                            self.pend = false;
                        },
                        Token::RBrace => {
                            self.pop_close(Ghost(strs_model(path@)));
                        },
                        _ => {},
                    }
                } else {
                    match t {
                        Token::Comma => {
                            self.phase = VPhase::PVal;
                            self.pend = false;
                        },
                        Token::RBracket => {
                            self.pop_close(Ghost(strs_model(path@)));
                        },
                        _ => {},
                    }
                }
            },
            VPhase::PDone => {},
        }
    }
}

/// The scalar token at the given key path of a well-formed token sequence.
pub fn extract_path(ts: &Vec<Token>, path: &Vec<String>) -> (r: Option<Token>)
    ensures
        match r {
            Some(t) => extract_spec(tokens_model(ts@), strs_model(path@)) == Some(t@),
            None => extract_spec(tokens_model(ts@), strs_model(path@)) is None,
        },
{
    let mut ex = Extractor::new();
    let n = ts.len();
    let mut i: usize = 0;
    proof {
        assert(tokens_model(ts@).skip(0) =~= tokens_model(ts@));
    }
    while i < n
        invariant
            n == ts@.len(),
            i <= n,
            ex.inv(strs_model(path@)),
            ext_fold(ex@, tokens_model(ts@).skip(i as int), strs_model(path@)) == ext_fold(
                ext_init(),
                tokens_model(ts@),
                strs_model(path@),
            ),
        decreases n - i,
    {
        let ghost pre = ex@;
        ex.step(&ts[i], path);
        proof {
            let tm = tokens_model(ts@);
            let pm = strs_model(path@);
            assert(tm.skip(i as int).drop_first() =~= tm.skip(i as int + 1));
            assert(tm.skip(i as int)[0] == ts@[i as int]@);
            assert(ext_fold(pre, tm.skip(i as int), pm) == ext_fold(
                ext_step(pre, ts@[i as int]@, pm),
                tm.skip(i as int + 1),
                pm,
            ));
        }
        i = i + 1;
    }
    proof {
        assert(tokens_model(ts@).skip(n as int) =~= Seq::<TokenModel>::empty());
    }
    ex.found
}

} // verus!
