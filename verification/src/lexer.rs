//! Lexer: scans raw source bytes into an ordered token sequence in one
//! forward pass, greedy longest-match first. The function `spec_tokenize`
//! is the mathematical definition of the scan; `Lexer::tokenize` is proved
//! to compute exactly that.

use vstd::prelude::*;
use crate::error::{ErrorClass, ErrorKind, SkError};
use crate::token::{SpecKind, SpecToken, Token, TokenKind, TokenSpan, tokens_view};

verus! {

/// Bytes skipped between tokens: space, tab, line feed, carriage return.
pub open spec fn is_ws(b: u8) -> bool {
    b == 32 || b == 9 || b == 10 || b == 13
}

/// ASCII decimal digit.
pub open spec fn is_digit(b: u8) -> bool {
    48 <= b && b <= 57
}

/// ASCII letter.
pub open spec fn is_alpha(b: u8) -> bool {
    (65 <= b && b <= 90) || (97 <= b && b <= 122)
}

/// A byte that may continue an identifier: letter, digit or underscore.
pub open spec fn is_ident_byte(b: u8) -> bool {
    is_alpha(b) || is_digit(b) || b == 95
}

/// A byte that may continue a number literal: digit, underscore or dot.
pub open spec fn is_number_byte(b: u8) -> bool {
    is_digit(b) || b == 95 || b == 46
}

/// The kind of a two-byte operator, if `a` followed by `b` forms one.
pub open spec fn two_byte_kind(a: u8, b: u8) -> Option<SpecKind> {
    if a == 45 && b == 62 {
        Some(SpecKind::Arrow)
    } else if a == 58 && b == 58 {
        Some(SpecKind::ColonColon)
    } else if a == 61 && b == 61 {
        Some(SpecKind::EqualEqual)
    } else if a == 33 && b == 61 {
        Some(SpecKind::BangEqual)
    } else if a == 60 && b == 61 {
        Some(SpecKind::LessEqual)
    } else if a == 62 && b == 61 {
        Some(SpecKind::MoreEqual)
    } else {
        None
    }
}

/// The kind of a one-byte operator or delimiter, if `b` is one.
pub open spec fn one_byte_kind(b: u8) -> Option<SpecKind> {
    if b == 61 {
        Some(SpecKind::Equal)
    } else if b == 45 {
        Some(SpecKind::Minus)
    } else if b == 43 {
        Some(SpecKind::Plus)
    } else if b == 47 {
        Some(SpecKind::Slash)
    } else if b == 42 {
        Some(SpecKind::Star)
    } else if b == 37 {
        Some(SpecKind::Modulo)
    } else if b == 94 {
        Some(SpecKind::Exponent)
    } else if b == 58 {
        Some(SpecKind::Colon)
    } else if b == 60 {
        Some(SpecKind::Less)
    } else if b == 62 {
        Some(SpecKind::More)
    } else if b == 33 {
        Some(SpecKind::Bang)
    } else if b == 46 {
        Some(SpecKind::Dot)
    } else if b == 40 {
        Some(SpecKind::LPar)
    } else if b == 41 {
        Some(SpecKind::RPar)
    } else if b == 123 {
        Some(SpecKind::LCurl)
    } else if b == 125 {
        Some(SpecKind::RCurl)
    } else if b == 59 {
        Some(SpecKind::SemiColon)
    } else if b == 44 {
        Some(SpecKind::Comma)
    } else if b == 63 {
        Some(SpecKind::QMark)
    } else {
        None
    }
}

/// The keyword-table lookup: text that matches no keyword is an identifier
/// carrying the raw matched bytes.
pub open spec fn kw_of(t: Seq<u8>) -> SpecKind {
    if t == seq![118u8, 97u8, 114u8] {
        SpecKind::Var
    } else if t == seq![99u8, 111u8, 110u8, 115u8, 116u8] {
        SpecKind::Const
    } else if t == seq![105u8, 102u8] {
        SpecKind::If
    } else if t == seq![101u8, 108u8, 115u8, 101u8] {
        SpecKind::Else
    } else if t == seq![101u8, 108u8, 105u8, 102u8] {
        SpecKind::Elif
    } else if t == seq![100u8, 101u8, 102u8] {
        SpecKind::Def
    } else if t == seq![102u8, 114u8, 111u8, 109u8] {
        SpecKind::From
    } else if t == seq![105u8, 109u8, 112u8, 111u8, 114u8, 116u8] {
        SpecKind::Import
    } else if t == seq![99u8, 108u8, 97u8, 115u8, 115u8] {
        SpecKind::Class
    } else if t == seq![109u8, 101u8, 116u8, 104u8, 111u8, 100u8, 115u8] {
        SpecKind::Methods
    } else if t == seq![114u8, 101u8, 116u8, 117u8, 114u8, 110u8] {
        SpecKind::Return
    } else if t == seq![102u8, 108u8, 97u8, 103u8] {
        SpecKind::Flag
    } else if t == seq![112u8, 114u8, 105u8, 110u8, 116u8] {
        SpecKind::Print
    } else {
        SpecKind::Ident(t)
    }
}

/// Number of consecutive identifier-continuation bytes starting at `i`.
pub open spec fn ident_run_len(src: Seq<u8>, i: int) -> nat
    decreases src.len() - i,
{
    if 0 <= i && i < src.len() && is_ident_byte(src[i]) {
        1 + ident_run_len(src, i + 1)
    } else {
        0
    }
}

/// Number of consecutive number-continuation bytes starting at `i`.
pub open spec fn number_run_len(src: Seq<u8>, i: int) -> nat
    decreases src.len() - i,
{
    if 0 <= i && i < src.len() && is_number_byte(src[i]) {
        1 + number_run_len(src, i + 1)
    } else {
        0
    }
}

/// Distance from `i` to the next double-quote byte, or `None` if the rest of
/// the source holds none.
pub open spec fn quote_dist(src: Seq<u8>, i: int) -> Option<nat>
    decreases src.len() - i,
{
    if !(0 <= i && i < src.len()) {
        None
    } else if src[i] == 34 {
        Some(0)
    } else {
        match quote_dist(src, i + 1) {
            Some(d) => Some(d + 1),
            None => None,
        }
    }
}

pub proof fn lemma_ident_run(src: Seq<u8>, i: int)
    requires
        0 <= i <= src.len(),
    ensures
        i + ident_run_len(src, i) <= src.len(),
        forall|k: int| i <= k < i + ident_run_len(src, i) ==> is_ident_byte(src[k]),
        i + ident_run_len(src, i) < src.len() ==> !is_ident_byte(
            src[i + ident_run_len(src, i)],
        ),
    decreases src.len() - i,
{
    if i < src.len() && is_ident_byte(src[i]) {
        lemma_ident_run(src, i + 1);
    }
}

pub proof fn lemma_number_run(src: Seq<u8>, i: int)
    requires
        0 <= i <= src.len(),
    ensures
        i + number_run_len(src, i) <= src.len(),
        forall|k: int| i <= k < i + number_run_len(src, i) ==> is_number_byte(src[k]),
        i + number_run_len(src, i) < src.len() ==> !is_number_byte(
            src[i + number_run_len(src, i)],
        ),
    decreases src.len() - i,
{
    if i < src.len() && is_number_byte(src[i]) {
        lemma_number_run(src, i + 1);
    }
}

pub proof fn lemma_quote_dist(src: Seq<u8>, i: int)
    requires
        0 <= i <= src.len(),
    ensures
        match quote_dist(src, i) {
            Some(d) => i + d < src.len() && src[i + d] == 34 && forall|k: int|
                i <= k < i + d ==> src[k] != 34,
            None => forall|k: int| i <= k < src.len() ==> src[k] != 34,
        },
    decreases src.len() - i,
{
    if i < src.len() && src[i] != 34 {
        lemma_quote_dist(src, i + 1);
    }
}

/// Prepends a token to the result of lexing the rest of the source.
pub open spec fn lex_cons(t: SpecToken, rest: Result<Seq<SpecToken>, int>) -> Result<
    Seq<SpecToken>,
    int,
> {
    match rest {
        Ok(ts) => Ok(seq![t] + ts),
        Err(at) => Err(at),
    }
}

/// The token sequence produced from `src` starting at byte `pos`, or the
/// byte position at which scanning fails. Whitespace is skipped; multi-byte
/// operators match before single-byte ones; string literals take everything
/// up to the next quote (end of input first is a failure); numbers greedily
/// take digits, underscores and dots; letter-led runs of identifier bytes go
/// through the keyword table; exactly one `EOF` token ends the sequence.
pub open spec fn lex_from(src: Seq<u8>, pos: int) -> Result<Seq<SpecToken>, int>
    decreases src.len() - pos,
    via lex_from_decreases
{
    if pos < 0 {
        Err(pos)
    } else if pos >= src.len() {
        Ok(seq![SpecToken { kind: SpecKind::EOF, begin: src.len() as int, last: src.len() as int }])
    } else {
        let b = src[pos];
        if is_ws(b) {
            lex_from(src, pos + 1)
        } else if pos + 1 < src.len() && two_byte_kind(b, src[pos + 1]) is Some {
            lex_cons(
                SpecToken {
                    kind: two_byte_kind(b, src[pos + 1])->Some_0,
                    begin: pos,
                    last: pos + 1,
                },
                lex_from(src, pos + 2),
            )
        } else if one_byte_kind(b) is Some {
            lex_cons(
                SpecToken { kind: one_byte_kind(b)->Some_0, begin: pos, last: pos },
                lex_from(src, pos + 1),
            )
        } else if b == 34 {
            match quote_dist(src, pos + 1) {
                Some(d) => lex_cons(
                    SpecToken {
                        kind: SpecKind::Str(src.subrange(pos + 1, pos + 1 + d)),
                        begin: pos,
                        last: pos + 1 + d,
                    },
                    lex_from(src, pos + 2 + d),
                ),
                None => Err(pos),
            }
        } else if is_digit(b) {
            let j = pos + 1 + number_run_len(src, pos + 1);
            lex_cons(
                SpecToken { kind: SpecKind::Number(src.subrange(pos, j)), begin: pos, last: j - 1 },
                lex_from(src, j),
            )
        } else if is_alpha(b) {
            let j = pos + 1 + ident_run_len(src, pos + 1);
            lex_cons(
                SpecToken { kind: kw_of(src.subrange(pos, j)), begin: pos, last: j - 1 },
                lex_from(src, j),
            )
        } else {
            Err(pos)
        }
    }
}

#[via_fn]
proof fn lex_from_decreases(src: Seq<u8>, pos: int) {
    if 0 <= pos < src.len() {
        let b = src[pos];
        if b == 34 {
            lemma_quote_dist(src, pos + 1);
        } else if is_digit(b) {
            lemma_number_run(src, pos + 1);
        } else if is_alpha(b) {
            lemma_ident_run(src, pos + 1);
        }
    }
}

/// The full scan of a source buffer.
pub open spec fn spec_tokenize(src: Seq<u8>) -> Result<Seq<SpecToken>, int> {
    lex_from(src, 0)
}

/// The stored literal text of a token agrees with the source bytes its span
/// covers: identifiers and numbers carry exactly the spanned bytes, and a
/// string literal carries the spanned bytes without the two quote bytes.
pub open spec fn token_text_ok(src: Seq<u8>, t: SpecToken) -> bool {
    match t.kind {
        SpecKind::Ident(x) => x == src.subrange(t.begin, t.last + 1),
        SpecKind::Number(x) => x == src.subrange(t.begin, t.last + 1),
        SpecKind::Str(x) => x == src.subrange(t.begin + 1, t.last),
        _ => true,
    }
}

#[verifier::rlimit(100)]
proof fn lemma_lex_from_props(src: Seq<u8>, pos: int)
    requires
        0 <= pos <= src.len(),
        lex_from(src, pos) matches Ok(_),
    ensures
        ({
            let toks = lex_from(src, pos)->Ok_0;
            &&& toks.len() >= 1
            &&& toks.last().kind is EOF
            &&& toks.last().begin == src.len()
            &&& toks.last().last == src.len()
            &&& forall|i: int| 0 <= i < toks.len() - 1 ==> !(#[trigger] toks[i].kind is EOF)
            &&& forall|i: int|
                0 <= i < toks.len() - 1 ==> pos <= #[trigger] toks[i].begin && toks[i].begin
                    <= toks[i].last && toks[i].last < src.len()
            &&& toks[0].begin >= pos
            &&& forall|i: int|
                0 <= i < toks.len() - 1 ==> #[trigger] toks[i].last < toks[i + 1].begin
            &&& forall|k: int| pos <= k < toks[0].begin ==> is_ws(#[trigger] src[k])
            &&& forall|i: int, k: int|
                #![trigger toks[i].last, src[k]]
                0 <= i < toks.len() - 1 && toks[i].last < k < toks[i + 1].begin ==> is_ws(src[k])
            &&& forall|i: int| 0 <= i < toks.len() - 1 ==> token_text_ok(src, #[trigger] toks[i])
        }),
    decreases src.len() - pos,
{
    let toks = lex_from(src, pos)->Ok_0;
    if pos >= src.len() {
        // Base case: the sequence is just the terminal EOF token.
    } else {
        let b = src[pos];
        if is_ws(b) {
            lemma_lex_from_props(src, pos + 1);
        } else {
            let next: int = if pos + 1 < src.len() && two_byte_kind(b, src[pos + 1]) is Some {
                pos + 2
            } else if one_byte_kind(b) is Some {
                pos + 1
            } else if b == 34 {
                lemma_quote_dist(src, pos + 1);
                let d = quote_dist(src, pos + 1)->Some_0;
                pos + 2 + d
            } else if is_digit(b) {
                lemma_number_run(src, pos + 1);
                pos + 1 + number_run_len(src, pos + 1)
            } else {
                lemma_ident_run(src, pos + 1);
                pos + 1 + ident_run_len(src, pos + 1)
            };
            lemma_lex_from_props(src, next);
            let rest = lex_from(src, next)->Ok_0;
            assert(toks =~= seq![toks[0]] + rest);
            assert(forall|i: int| 1 <= i < toks.len() ==> #[trigger] toks[i] == rest[i - 1]);
        }
    }
}

/// Law: for any source that scans successfully, the token spans tile the
/// source in encounter order — they sit left to right without overlapping,
/// every byte between two consecutive spans (and before the first) is
/// whitespace, and exactly one EOF token, pointing at the end of the source,
/// closes the sequence. Concatenating the spanned bytes in order therefore
/// reproduces the source with only whitespace omitted.
pub proof fn lemma_spans_tile_source(src: Seq<u8>)
    requires
        spec_tokenize(src) matches Ok(_),
    ensures
        ({
            let toks = spec_tokenize(src)->Ok_0;
            &&& toks.len() >= 1
            &&& toks.last().kind is EOF
            &&& toks.last().begin == src.len()
            &&& forall|i: int| 0 <= i < toks.len() - 1 ==> !(#[trigger] toks[i].kind is EOF)
            &&& forall|i: int|
                0 <= i < toks.len() - 1 ==> 0 <= #[trigger] toks[i].begin && toks[i].begin
                    <= toks[i].last && toks[i].last < src.len()
            &&& forall|i: int|
                0 <= i < toks.len() - 1 ==> #[trigger] toks[i].last < toks[i + 1].begin
            &&& forall|k: int| 0 <= k < toks[0].begin ==> is_ws(#[trigger] src[k])
            &&& forall|i: int, k: int|
                #![trigger toks[i].last, src[k]]
                0 <= i < toks.len() - 1 && toks[i].last < k < toks[i + 1].begin ==> is_ws(src[k])
        }),
{
    lemma_lex_from_props(src, 0);
}

/// Law: re-slicing the source at a token's recorded span reproduces exactly
/// that token's stored literal text, for every token of a successful scan.
pub proof fn lemma_token_text_matches_span(src: Seq<u8>)
    requires
        spec_tokenize(src) matches Ok(_),
    ensures
        forall|i: int|
            0 <= i < spec_tokenize(src)->Ok_0.len() ==> token_text_ok(
                src,
                #[trigger] spec_tokenize(src)->Ok_0[i],
            ),
{
    lemma_lex_from_props(src, 0);
    let toks = spec_tokenize(src)->Ok_0;
    assert(token_text_ok(src, toks[toks.len() - 1]));
}

/// Scans raw source bytes into tokens in a single forward pass.
pub struct Lexer {
    stream: Vec<u8>,
    pos: usize,
}

impl Lexer {
    /// A lexer positioned at the start of `source`.
    pub fn new(source: Vec<u8>) -> (l: Lexer)
        ensures
            l.source() == source@,
            l.position() == 0,
    {
        Lexer { stream: source, pos: 0 }
    }

    /// The source bytes this lexer scans.
    pub closed spec fn source(&self) -> Seq<u8> {
        self.stream@
    }

    /// How far the scan has advanced into the source.
    pub closed spec fn position(&self) -> int {
        self.pos as int
    }

    /// Scans the whole source. Returns the token sequence that
    /// `spec_tokenize` defines, or the fatal lex error (unterminated string
    /// literal, or a byte no token can start with) at the position where
    /// `spec_tokenize` fails — with no tokens at all.
    pub fn tokenize(&mut self) -> (r: Result<Vec<Token>, SkError>)
        requires
            old(self).position() == 0,
        ensures
            final(self).source() == old(self).source(),
            match spec_tokenize(old(self).source()) {
                Ok(ts) => r matches Ok(out) && tokens_view(out@) == ts,
                Err(at) => r matches Err(e) && e.kind is LexError && e.class is Error
                    && e.span == (TokenSpan { 0: at as usize, 1: at as usize }),
            },
    {
        let ghost src = self.stream@;
        let mut out: Vec<Token> = Vec::new();
        proof {
            assert(tokens_view(out@) =~= Seq::<SpecToken>::empty());
            match lex_from(src, 0) {
                Ok(ts) => {
                    assert(tokens_view(out@) + ts =~= ts);
                },
                Err(_) => {},
            }
        }
        loop
            invariant_except_break
                lex_from(src, 0) == lex_cons_all(tokens_view(out@), lex_from(src, self.pos as int)),
            invariant
                self.stream@ == src,
                src == old(self).source(),
                self.pos <= self.stream.len(),
            ensures
                self.stream@ == src,
                match spec_tokenize(src) {
                    Ok(ts) => tokens_view(out@) == ts,
                    Err(_) => false,
                },
            decreases self.stream.len() - self.pos,
        {
            let pos = self.pos;
            let n = self.stream.len();
            if pos >= n {
                let t = Token { kind: TokenKind::EOF, span: TokenSpan(n, n) };
                proof {
                    assert(tokens_view(out@.push(t)) =~= tokens_view(out@) + seq![t@]);
                    assert(lex_from(src, pos as int) == Ok::<_, int>(seq![t@]));
                    assert(tokens_view(out@) + seq![t@] =~= tokens_view(out@).push(t@));
                }
                out.push(t);
                proof {
                    let ts = lex_from(src, 0)->Ok_0;
                    assert(ts =~= tokens_view(out@));
                }
                break;
            }
            let b = self.stream[pos];
            if b == 32 || b == 9 || b == 10 || b == 13 {
                // Whitespace between tokens is skipped.
                self.pos = pos + 1;
                continue;
            }
            let two = if pos + 1 < n {
                two_byte_token(b, self.stream[pos + 1])
            } else {
                None
            };
            match two {
                Some(kind) => {
                    let ghost t = SpecToken { kind: kind@, begin: pos as int, last: pos + 1 };
                    let ghost prev = out@;
                    out.push(Token { kind, span: TokenSpan(pos, pos + 1) });
                    proof {
                        lemma_push_token(src, pos as int, pos + 2, t, tokens_view(prev));
                        assert(tokens_view(out@) =~= tokens_view(prev).push(t));
                    }
                    self.pos = pos + 2;
                },
                None => {
                    if let Some(kind) = one_byte_token(b) {
                        let ghost t = SpecToken { kind: kind@, begin: pos as int, last: pos as int };
                        let ghost prev = out@;
                        out.push(Token { kind, span: TokenSpan(pos, pos) });
                        proof {
                            lemma_push_token(src, pos as int, pos + 1, t, tokens_view(prev));
                            assert(tokens_view(out@) =~= tokens_view(prev).push(t));
                        }
                        self.pos = pos + 1;
                    } else if b == 34 {
                        // String literal: take everything up to the closing quote.
                        let mut j = pos + 1;
                        while j < n && self.stream[j] != 34
                            invariant
                                self.stream@ == src,
                                n == src.len(),
                                pos + 1 <= j <= n,
                                forall|k: int| pos + 1 <= k < j ==> src[k] != 34,
                            decreases n - j,
                        {
                            j += 1;
                        }
                        proof {
                            lemma_quote_dist(src, pos + 1 as int);
                        }
                        if j >= n {
                            // Unterminated string literal: fatal, no tokens.
                            assert(quote_dist(src, pos + 1) is None);
                            return Err(lex_error_at(pos));
                        }
                        assert(quote_dist(src, pos + 1) matches Some(d) && pos + 1 + d == j);
                        let text = copy_range(&self.stream, pos + 1, j);
                        let ghost t = SpecToken {
                            kind: SpecKind::Str(src.subrange(pos + 1, j as int)),
                            begin: pos as int,
                            last: j as int,
                        };
                        let ghost prev = out@;
                        out.push(Token { kind: TokenKind::Str(text), span: TokenSpan(pos, j) });
                        proof {
                            lemma_push_token(src, pos as int, j + 1, t, tokens_view(prev));
                            assert(tokens_view(out@) =~= tokens_view(prev).push(t));
                        }
                        self.pos = j + 1;
                    } else if 48 <= b && b <= 57 {
                        // Number literal: digits, underscores and dots, greedily.
                        let mut j = pos + 1;
                        while j < n && number_byte(self.stream[j])
                            invariant
                                self.stream@ == src,
                                n == src.len(),
                                pos + 1 <= j <= n,
                                forall|k: int| pos + 1 <= k < j ==> is_number_byte(src[k]),
                            decreases n - j,
                        {
                            j += 1;
                        }
                        proof {
                            lemma_number_run(src, pos + 1 as int);
                            assert(j == pos + 1 + number_run_len(src, pos + 1 as int));
                        }
                        let text = copy_range(&self.stream, pos, j);
                        let ghost t = SpecToken {
                            kind: SpecKind::Number(src.subrange(pos as int, j as int)),
                            begin: pos as int,
                            last: j - 1,
                        };
                        let ghost prev = out@;
                        out.push(Token { kind: TokenKind::Number(text), span: TokenSpan(pos, j - 1) });
                        proof {
                            lemma_push_token(src, pos as int, j as int, t, tokens_view(prev));
                            assert(tokens_view(out@) =~= tokens_view(prev).push(t));
                        }
                        self.pos = j;
                    } else if (65 <= b && b <= 90) || (97 <= b && b <= 122) {
                        // Identifier or keyword: letters, digits and underscores.
                        let mut j = pos + 1;
                        while j < n && ident_byte(self.stream[j])
                            invariant
                                self.stream@ == src,
                                n == src.len(),
                                pos + 1 <= j <= n,
                                forall|k: int| pos + 1 <= k < j ==> is_ident_byte(src[k]),
                            decreases n - j,
                        {
                            j += 1;
                        }
                        proof {
                            lemma_ident_run(src, pos + 1 as int);
                            assert(j == pos + 1 + ident_run_len(src, pos + 1 as int));
                        }
                        let text = copy_range(&self.stream, pos, j);
                        let kind = kw_lookup(text);
                        let ghost t = SpecToken {
                            kind: kw_of(src.subrange(pos as int, j as int)),
                            begin: pos as int,
                            last: j - 1,
                        };
                        let ghost prev = out@;
                        out.push(Token { kind, span: TokenSpan(pos, j - 1) });
                        proof {
                            lemma_push_token(src, pos as int, j as int, t, tokens_view(prev));
                            assert(tokens_view(out@) =~= tokens_view(prev).push(t));
                        }
                        self.pos = j;
                    } else {
                        // No token can start with this byte: fatal, no tokens.
                        return Err(lex_error_at(pos));
                    }
                },
            }
        }
        Ok(out)
    }
}

/// Appending one more scanned token to the output keeps the loop's relation
/// between the finished prefix and the rest of the scan.
proof fn lemma_push_token(src: Seq<u8>, pos: int, next: int, t: SpecToken, prefix: Seq<SpecToken>)
    requires
        lex_from(src, pos) == lex_cons(t, lex_from(src, next)),
        lex_from(src, 0) == lex_cons_all(prefix, lex_from(src, pos)),
    ensures
        lex_from(src, 0) == lex_cons_all(prefix.push(t), lex_from(src, next)),
{
    match lex_from(src, next) {
        Ok(rest) => {
            assert(prefix + (seq![t] + rest) =~= prefix.push(t) + rest);
        },
        Err(_) => {},
    }
}

/// Prepends a whole prefix of already-scanned tokens to the rest of a scan.
pub open spec fn lex_cons_all(prefix: Seq<SpecToken>, rest: Result<Seq<SpecToken>, int>) -> Result<
    Seq<SpecToken>,
    int,
> {
    match rest {
        Ok(ts) => Ok(prefix + ts),
        Err(at) => Err(at),
    }
}

/// The fatal lex error pointing at byte `at`.
fn lex_error_at(at: usize) -> (e: SkError)
    ensures
        e.kind is LexError,
        e.class is Error,
        e.span == (TokenSpan { 0: at, 1: at }),
{
    SkError {
        class: ErrorClass::Error,
        kind: ErrorKind::LexError(String::from_str("cannot scan a token here")),
        span: TokenSpan(at, at),
    }
}

/// A fresh copy of the bytes `v[a..b]`.
pub fn copy_range(v: &Vec<u8>, a: usize, b: usize) -> (r: Vec<u8>)
    requires
        a <= b <= v@.len(),
    ensures
        r@ == v@.subrange(a as int, b as int),
{
    let mut r: Vec<u8> = Vec::new();
    let mut i = a;
    while i < b
        invariant
            a <= i <= b <= v@.len(),
            r@ == v@.subrange(a as int, i as int),
        decreases b - i,
    {
        r.push(v[i]);
        proof {
            assert(v@.subrange(a as int, i + 1 as int) =~= v@.subrange(a as int, i as int).push(
                v@[i as int],
            ));
        }
        i += 1;
    }
    r
}

/// Whether `b` may continue a number literal.
fn number_byte(b: u8) -> (r: bool)
    ensures
        r == is_number_byte(b),
{
    (48 <= b && b <= 57) || b == 95 || b == 46
}

/// Whether `b` may continue an identifier.
fn ident_byte(b: u8) -> (r: bool)
    ensures
        r == is_ident_byte(b),
{
    (48 <= b && b <= 57) || (65 <= b && b <= 90) || (97 <= b && b <= 122) || b == 95
}

/// The two-byte operator token starting with `a` then `b`, if any.
fn two_byte_token(a: u8, b: u8) -> (k: Option<TokenKind>)
    ensures
        match k {
            Some(kind) => two_byte_kind(a, b) == Some(kind@),
            None => two_byte_kind(a, b) is None,
        },
{
    if a == 45 && b == 62 {
        Some(TokenKind::Arrow)
    } else if a == 58 && b == 58 {
        Some(TokenKind::ColonColon)
    } else if a == 61 && b == 61 {
        Some(TokenKind::EqualEqual)
    } else if a == 33 && b == 61 {
        Some(TokenKind::BangEqual)
    } else if a == 60 && b == 61 {
        Some(TokenKind::LessEqual)
    } else if a == 62 && b == 61 {
        Some(TokenKind::MoreEqual)
    } else {
        None
    }
}

/// The one-byte operator or delimiter token `b`, if any.
fn one_byte_token(b: u8) -> (k: Option<TokenKind>)
    ensures
        match k {
            Some(kind) => one_byte_kind(b) == Some(kind@),
            None => one_byte_kind(b) is None,
        },
{
    if b == 61 {
        Some(TokenKind::Equal)
    } else if b == 45 {
        Some(TokenKind::Minus)
    } else if b == 43 {
        Some(TokenKind::Plus)
    } else if b == 47 {
        Some(TokenKind::Slash)
    } else if b == 42 {
        Some(TokenKind::Star)
    } else if b == 37 {
        Some(TokenKind::Modulo)
    } else if b == 94 {
        Some(TokenKind::Exponent)
    } else if b == 58 {
        Some(TokenKind::Colon)
    } else if b == 60 {
        Some(TokenKind::Less)
    } else if b == 62 {
        Some(TokenKind::More)
    } else if b == 33 {
        Some(TokenKind::Bang)
    } else if b == 46 {
        Some(TokenKind::Dot)
    } else if b == 40 {
        Some(TokenKind::LPar)
    } else if b == 41 {
        Some(TokenKind::RPar)
    } else if b == 123 {
        Some(TokenKind::LCurl)
    } else if b == 125 {
        Some(TokenKind::RCurl)
    } else if b == 59 {
        Some(TokenKind::SemiColon)
    } else if b == 44 {
        Some(TokenKind::Comma)
    } else if b == 63 {
        Some(TokenKind::QMark)
    } else {
        None
    }
}

/// The keyword table: matches the scanned identifier text against every
/// keyword, falling back to an identifier token carrying the raw text.
fn kw_lookup(text: Vec<u8>) -> (k: TokenKind)
    ensures
        k@ == kw_of(text@),
{
    let n = text.len();
    if n == 2 && text[0] == 105 && text[1] == 102 {
        proof { assert(text@ =~= seq![105u8, 102u8]); }
        return TokenKind::If;
    }
    if n == 3 && text[0] == 118 && text[1] == 97 && text[2] == 114 {
        proof { assert(text@ =~= seq![118u8, 97u8, 114u8]); }
        return TokenKind::Var;
    }
    if n == 3 && text[0] == 100 && text[1] == 101 && text[2] == 102 {
        proof { assert(text@ =~= seq![100u8, 101u8, 102u8]); }
        return TokenKind::Def;
    }
    if n == 4 && text[0] == 101 && text[1] == 108 && text[2] == 115 && text[3] == 101 {
        proof { assert(text@ =~= seq![101u8, 108u8, 115u8, 101u8]); }
        return TokenKind::Else;
    }
    if n == 4 && text[0] == 101 && text[1] == 108 && text[2] == 105 && text[3] == 102 {
        proof { assert(text@ =~= seq![101u8, 108u8, 105u8, 102u8]); }
        return TokenKind::Elif;
    }
    if n == 4 && text[0] == 102 && text[1] == 114 && text[2] == 111 && text[3] == 109 {
        proof { assert(text@ =~= seq![102u8, 114u8, 111u8, 109u8]); }
        return TokenKind::From;
    }
    if n == 4 && text[0] == 102 && text[1] == 108 && text[2] == 97 && text[3] == 103 {
        proof { assert(text@ =~= seq![102u8, 108u8, 97u8, 103u8]); }
        return TokenKind::Flag;
    }
    if n == 5 && text[0] == 99 && text[1] == 111 && text[2] == 110 && text[3] == 115 && text[4]
        == 116 {
        proof { assert(text@ =~= seq![99u8, 111u8, 110u8, 115u8, 116u8]); }
        return TokenKind::Const;
    }
    if n == 5 && text[0] == 99 && text[1] == 108 && text[2] == 97 && text[3] == 115 && text[4]
        == 115 {
        proof { assert(text@ =~= seq![99u8, 108u8, 97u8, 115u8, 115u8]); }
        return TokenKind::Class;
    }
    if n == 5 && text[0] == 112 && text[1] == 114 && text[2] == 105 && text[3] == 110 && text[4]
        == 116 {
        proof { assert(text@ =~= seq![112u8, 114u8, 105u8, 110u8, 116u8]); }
        return TokenKind::Print;
    }
    if n == 6 && text[0] == 105 && text[1] == 109 && text[2] == 112 && text[3] == 111 && text[4]
        == 114 && text[5] == 116 {
        proof { assert(text@ =~= seq![105u8, 109u8, 112u8, 111u8, 114u8, 116u8]); }
        return TokenKind::Import;
    }
    if n == 6 && text[0] == 114 && text[1] == 101 && text[2] == 116 && text[3] == 117 && text[4]
        == 114 && text[5] == 110 {
        proof { assert(text@ =~= seq![114u8, 101u8, 116u8, 117u8, 114u8, 110u8]); }
        return TokenKind::Return;
    }
    if n == 7 && text[0] == 109 && text[1] == 101 && text[2] == 116 && text[3] == 104 && text[4]
        == 111 && text[5] == 100 && text[6] == 115 {
        proof { assert(text@ =~= seq![109u8, 101u8, 116u8, 104u8, 111u8, 100u8, 115u8]); }
        return TokenKind::Methods;
    }
    TokenKind::Ident(text)
}

} // verus!
