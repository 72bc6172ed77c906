//! The lexer: turns a raw source string into an ordered token sequence
//! terminated by a single end-of-input marker.  It scans left to right with
//! a greedy, longest-match rule: two-character comparison operators are
//! tried before single characters, and digit and identifier runs are
//! maximal.  Any unrecognized character is a fatal lexical error carrying
//! the zero-based column where it stands.

use vstd::prelude::*;
use vstd::string::StrSliceExecFns;
use vstd::string::StringExecFns;

use crate::CompileError;
use crate::util::{is_alpha, is_digit, is_ident_char, split_digits, split_var_names, str_eq};

verus! {

/// The classes a token can fall in.
#[derive(Clone, Copy, Debug, PartialEq, Eq, Structural)]
pub enum TokenKind {
    /// An operator or punctuation character or pair.
    Reserved,
    /// A variable name.
    IDENT,
    /// A run of decimal digits.
    NUM,
    /// The reserved word `return`.
    RETURN,
    /// The end-of-input marker, present exactly once, at the tail.
    EOF,
}

/// One token: its class and its exact source text.
#[derive(Debug)]
pub struct Token {
    pub kind: TokenKind,
    pub string: String,
}

/// The mathematical image of a token: its class and its text as a
/// character sequence.
#[verifier::ext_equal]
pub struct TokenV {
    pub kind: TokenKind,
    pub text: Seq<char>,
}

impl View for Token {
    type V = TokenV;

    open spec fn view(&self) -> TokenV {
        TokenV { kind: self.kind, text: self.string@ }
    }
}

impl Token {
    pub fn new(kind: TokenKind, string: String) -> (t: Token)
        ensures
            t@.kind == kind,
            t@.text == string@,
    {
        Token { kind, string }
    }
}

/// The image of a token vector: each token replaced by its view.
pub open spec fn toks_of(ts: Seq<Token>) -> Seq<TokenV> {
    ts.map_values(|t: Token| t@)
}

/// A whitespace character the lexer skips.
pub open spec fn is_space(c: char) -> bool {
    c == ' ' || c == '\t' || c == '\n' || c == '\r'
}

/// A single-character operator or punctuation mark.
pub open spec fn is_single_op(c: char) -> bool {
    c == '+' || c == '-' || c == '*' || c == '/' || c == '(' || c == ')' || c == '>' || c == '<'
        || c == '=' || c == ';'
}

/// A two-character comparison operator starts at `pos`.
pub open spec fn two_char_op_at(s: Seq<char>, pos: int) -> bool {
    pos + 2 <= s.len() && s[pos + 1] == '=' && (s[pos] == '=' || s[pos] == '!' || s[pos] == '>'
        || s[pos] == '<')
}

/// The length of the maximal digit run of `s` starting at `pos`.
pub open spec fn digit_run(s: Seq<char>, pos: int) -> nat
    decreases s.len() - pos,
{
    if 0 <= pos < s.len() && is_digit(s[pos]) {
        1 + digit_run(s, pos + 1)
    } else {
        0
    }
}

/// The length of the maximal identifier-character run of `s` starting at
/// `pos`.
pub open spec fn ident_run(s: Seq<char>, pos: int) -> nat
    decreases s.len() - pos,
{
    if 0 <= pos < s.len() && is_ident_char(s[pos]) {
        1 + ident_run(s, pos + 1)
    } else {
        0
    }
}

/// The text of the reserved word that names a return statement.
pub open spec fn return_text() -> Seq<char> {
    seq!['r', 'e', 't', 'u', 'r', 'n']
}

/// What the lexer means: scanning `s` from `pos` with the tokens in `acc`
/// already produced, it either fails on the first unrecognized character
/// or yields the whole token sequence, end marker included.
pub open spec fn sp_lex(s: Seq<char>, pos: int, acc: Seq<TokenV>) -> Result<
    Seq<TokenV>,
    CompileError,
>
    decreases s.len() - pos,
{
    if !(0 <= pos < s.len()) {
        Ok(acc.push(TokenV { kind: TokenKind::EOF, text: seq!['\0'] }))
    } else if two_char_op_at(s, pos) {
        sp_lex(
            s,
            pos + 2,
            acc.push(TokenV { kind: TokenKind::Reserved, text: s.subrange(pos, pos + 2) }),
        )
    } else if is_space(s[pos]) {
        sp_lex(s, pos + 1, acc)
    } else if is_single_op(s[pos]) {
        sp_lex(
            s,
            pos + 1,
            acc.push(TokenV { kind: TokenKind::Reserved, text: seq![s[pos]] }),
        )
    } else if is_digit(s[pos]) {
        let r0 = digit_run(s, pos) as int;
        let r = if r0 < 1 {
            1
        } else if r0 > s.len() - pos {
            s.len() - pos
        } else {
            r0
        };
        sp_lex(
            s,
            pos + r,
            acc.push(TokenV { kind: TokenKind::NUM, text: s.subrange(pos, pos + r) }),
        )
    } else if is_alpha(s[pos]) || s[pos] == '_' {
        let r0 = ident_run(s, pos) as int;
        let r = if r0 < 1 {
            1
        } else if r0 > s.len() - pos {
            s.len() - pos
        } else {
            r0
        };
        let text = s.subrange(pos, pos + r);
        let kind = if text == return_text() {
            TokenKind::RETURN
        } else {
            TokenKind::IDENT
        };
        sp_lex(s, pos + r, acc.push(TokenV { kind, text }))
    } else {
        Err(CompileError::Lexical { column: pos as usize, found: s[pos] })
    }
}

/// A maximal digit run is pinned by its characterization: all digits up to
/// `r`, and a non-digit (or the end) right after.
pub proof fn lemma_digit_run_char(s: Seq<char>, pos: int, r: int)
    requires
        0 <= pos,
        0 <= r,
        pos + r <= s.len(),
        forall|j: int| pos <= j < pos + r ==> is_digit(s[j]),
        pos + r < s.len() ==> !is_digit(s[pos + r]),
    ensures
        digit_run(s, pos) == r,
    decreases r,
{
    if r == 0 {
    } else {
        assert(is_digit(s[pos]));
        lemma_digit_run_char(s, pos + 1, r - 1);
    }
}

/// A maximal identifier run is pinned the same way.
pub proof fn lemma_ident_run_char(s: Seq<char>, pos: int, r: int)
    requires
        0 <= pos,
        0 <= r,
        pos + r <= s.len(),
        forall|j: int| pos <= j < pos + r ==> is_ident_char(s[j]),
        pos + r < s.len() ==> !is_ident_char(s[pos + r]),
    ensures
        ident_run(s, pos) == r,
    decreases r,
{
    if r == 0 {
    } else {
        assert(is_ident_char(s[pos]));
        lemma_ident_run_char(s, pos + 1, r - 1);
    }
}

/// The lexer.  It owns no state: the whole scan happens in `tokenize`.
pub struct Tokenizer {}

impl Tokenizer {
    pub fn new() -> (t: Tokenizer) {
        Tokenizer {  }
    }

    /// Scan `input` into its token sequence, or report the first
    /// unrecognized character and its column.
    pub fn tokenize(&self, input: String) -> (r: Result<Vec<Token>, CompileError>)
        ensures
            match sp_lex(input@, 0, Seq::<TokenV>::empty()) {
                Ok(toks) => r is Ok && toks_of(r->Ok_0@) == toks,
                Err(e) => r == Err::<Vec<Token>, CompileError>(e),
            },
    {
        let s = input.as_str();
        let len = s.unicode_len();
        let mut tokens: Vec<Token> = Vec::new();
        let mut pos: usize = 0;
        proof {
            assert(toks_of(tokens@) =~= Seq::<TokenV>::empty());
        }
        while pos < len
            invariant
                pos <= len,
                len == s@.len(),
                s@ == input@,
                sp_lex(input@, 0, Seq::<TokenV>::empty()) == sp_lex(
                    input@,
                    pos as int,
                    toks_of(tokens@),
                ),
            decreases len - pos,
        {
            let mut two_letters = false;
            if pos + 1 < len {
                let a = s.get_char(pos);
                let b = s.get_char(pos + 1);
                if b == '=' && (a == '=' || a == '!' || a == '>' || a == '<') {
                    let text = s.substring_char(pos, pos + 2);
                    let ghost prev = tokens@;
                    tokens.push(Token::new(TokenKind::Reserved, String::from_str(text)));
                    proof {
                        assert(two_char_op_at(input@, pos as int));
                        assert(toks_of(tokens@) =~~= toks_of(prev).push(
                            TokenV {
                                kind: TokenKind::Reserved,
                                text: input@.subrange(pos as int, pos + 2),
                            },
                        ));
                    }
                    pos = pos + 2;
                    two_letters = true;
                }
            }
            if two_letters {
            } else {
            let c = s.get_char(pos);
            proof {
                assert(!two_char_op_at(input@, pos as int));
            }
            if c == ' ' || c == '\t' || c == '\n' || c == '\r' {
                pos = pos + 1;
            } else if c == '+' || c == '-' || c == '*' || c == '/' || c == '(' || c == ')'
                || c == '>' || c == '<' || c == '=' || c == ';' {
                let text = s.substring_char(pos, pos + 1);
                let ghost prev = tokens@;
                tokens.push(Token::new(TokenKind::Reserved, String::from_str(text)));
                proof {
                    assert(toks_of(tokens@) =~~= toks_of(prev).push(
                        TokenV { kind: TokenKind::Reserved, text: seq![input@[pos as int]] },
                    ));
                }
                pos = pos + 1;
            } else if '0' <= c && c <= '9' {
                let rest = s.substring_char(pos, len);
                let run = split_digits(rest);
                proof {
                    assert forall|j: int| pos <= j < pos + run implies is_digit(input@[j]) by {
                        assert(is_digit(rest@[j - pos]));
                    }
                    if pos + run < len {
                        assert(rest@[run as int] == input@[pos + run]);
                    }
                    lemma_digit_run_char(input@, pos as int, run as int);
                    assert(rest@[0] == input@[pos as int]);
                    assert(run >= 1);
                }
                let text = s.substring_char(pos, pos + run);
                let ghost prev = tokens@;
                tokens.push(Token::new(TokenKind::NUM, String::from_str(text)));
                proof {
                    assert(toks_of(tokens@) =~~= toks_of(prev).push(
                        TokenV {
                            kind: TokenKind::NUM,
                            text: input@.subrange(pos as int, pos + run as int),
                        },
                    ));
                }
                pos = pos + run;
            } else if ('a' <= c && c <= 'z') || ('A' <= c && c <= 'Z') || c == '_' {
                let rest = s.substring_char(pos, len);
                let run = split_var_names(rest);
                proof {
                    assert forall|j: int| pos <= j < pos + run implies is_ident_char(
                        input@[j],
                    ) by {
                        assert(is_ident_char(rest@[j - pos]));
                    }
                    if pos + run < len {
                        assert(rest@[run as int] == input@[pos + run]);
                    }
                    lemma_ident_run_char(input@, pos as int, run as int);
                    assert(rest@[0] == input@[pos as int]);
                    assert(is_ident_char(input@[pos as int]));
                    assert(run >= 1);
                }
                let text = s.substring_char(pos, pos + run);
                proof {
                    reveal_strlit("return");
                    assert("return"@ =~= return_text());
                }
                let kind = if str_eq(text, "return") {
                    TokenKind::RETURN
                } else {
                    TokenKind::IDENT
                };
                let ghost prev = tokens@;
                tokens.push(Token::new(kind, String::from_str(text)));
                proof {
                    assert(toks_of(tokens@) =~~= toks_of(prev).push(
                        TokenV { kind, text: input@.subrange(pos as int, pos + run as int) },
                    ));
                }
                pos = pos + run;
            } else {
                return Err(CompileError::Lexical { column: pos, found: c });
            }
            }
        }
        let eof_text = String::from_str("\0");
        proof {
            reveal_strlit("\0");
            assert(eof_text@ =~= seq!['\0']);
        }
        let ghost prev = tokens@;
        tokens.push(Token::new(TokenKind::EOF, eof_text));
        proof {
            assert(toks_of(tokens@) =~~= toks_of(prev).push(
                TokenV { kind: TokenKind::EOF, text: seq!['\0'] },
            ));
        }
        Ok(tokens)
    }
}

} // verus!
