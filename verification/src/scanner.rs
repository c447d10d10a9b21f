use vstd::prelude::*;

use crate::error::CellError;
use crate::strutil::{str_chars, subrange_string};

verus! {

// The scanner turns source text into tokens. Comments (`#` to end of line)
// and whitespace are consumed. `==`, `>=`, `<=` are taken greedily; a lone
// `=` is an error. A `-` directly before a digit begins a negative number
// literal; otherwise it is subtraction. Identifiers start with an ASCII
// letter and continue with ASCII alphanumerics; `param`, `cell` and `if`
// are keywords. Numbers are decimal digits with one optional fraction part.

/// A token of the source language. Identifier and number tokens own their text.
#[derive(Debug, Clone, PartialEq)]
pub enum Token {
    Param,
    Cell,
    If,
    Ident(String),
    Number(String),
    QMark,
    SemiColon,
    Colon,
    Comma,
    ParOpen,
    ParClose,
    Add,
    Sub,
    Mul,
    Div,
    Mod,
    Equal,
    Greater,
    GreaterEqual,
    Less,
    LessEqual,
}

/// The mathematical shadow of `Token`: text as a character sequence.
pub enum TokenModel {
    Param,
    Cell,
    If,
    Ident(Seq<char>),
    Number(Seq<char>),
    QMark,
    SemiColon,
    Colon,
    Comma,
    ParOpen,
    ParClose,
    Add,
    Sub,
    Mul,
    Div,
    Mod,
    Equal,
    Greater,
    GreaterEqual,
    Less,
    LessEqual,
}

impl View for Token {
    type V = TokenModel;

    open spec fn view(&self) -> TokenModel {
        match self {
            Token::Param => TokenModel::Param,
            Token::Cell => TokenModel::Cell,
            Token::If => TokenModel::If,
            Token::Ident(s) => TokenModel::Ident(s@),
            Token::Number(s) => TokenModel::Number(s@),
            Token::QMark => TokenModel::QMark,
            Token::SemiColon => TokenModel::SemiColon,
            Token::Colon => TokenModel::Colon,
            Token::Comma => TokenModel::Comma,
            Token::ParOpen => TokenModel::ParOpen,
            Token::ParClose => TokenModel::ParClose,
            Token::Add => TokenModel::Add,
            Token::Sub => TokenModel::Sub,
            Token::Mul => TokenModel::Mul,
            Token::Div => TokenModel::Div,
            Token::Mod => TokenModel::Mod,
            Token::Equal => TokenModel::Equal,
            Token::Greater => TokenModel::Greater,
            Token::GreaterEqual => TokenModel::GreaterEqual,
            Token::Less => TokenModel::Less,
            Token::LessEqual => TokenModel::LessEqual,
        }
    }
}

/// A token sequence, seen through each token's model.
pub open spec fn tokens_view(ts: Seq<Token>) -> Seq<TokenModel> {
    ts.map_values(|t: Token| t@)
}

/// An ASCII decimal digit.
pub open spec fn is_digit(c: char) -> bool {
    48 <= c as u32 <= 57
}

/// An ASCII letter.
pub open spec fn is_letter(c: char) -> bool {
    (65 <= c as u32 <= 90) || (97 <= c as u32 <= 122)
}

/// An ASCII letter or digit, the identifier continuation set.
pub open spec fn is_alnum(c: char) -> bool {
    is_letter(c) || is_digit(c)
}

/// Blank space between tokens.
pub open spec fn is_space(c: char) -> bool {
    c == ' ' || c == '\t' || c == '\r' || c == '\n'
}

/// The position just past a comment that began before `i`: one past the
/// next newline, or the end of input.
pub open spec fn comment_end(s: Seq<char>, i: nat) -> nat
    decreases s.len() - i,
{
    if i >= s.len() {
        s.len()
    } else if s[i as int] == '\n' {
        i + 1
    } else {
        comment_end(s, i + 1)
    }
}

/// The position just past a run of digits starting at `i`.
pub open spec fn digits_end(s: Seq<char>, i: nat) -> nat
    decreases s.len() - i,
{
    if i >= s.len() || !is_digit(s[i as int]) {
        i
    } else {
        digits_end(s, i + 1)
    }
}

/// The position just past a number whose digits start at `i`: the integer
/// digits, then one `.` and more digits where a digit follows the dot.
pub open spec fn number_end(s: Seq<char>, i: nat) -> nat {
    let j = digits_end(s, i);
    if j < s.len() && s[j as int] == '.' && j + 1 < s.len() && is_digit(s[j as int + 1]) {
        digits_end(s, j + 1)
    } else {
        j
    }
}

/// The position just past an identifier whose continuation starts at `i`.
pub open spec fn ident_end(s: Seq<char>, i: nat) -> nat
    decreases s.len() - i,
{
    if i >= s.len() || !is_alnum(s[i as int]) {
        i
    } else {
        ident_end(s, i + 1)
    }
}

pub proof fn lemma_comment_end_bounds(s: Seq<char>, i: nat)
    requires
        i <= s.len(),
    ensures
        i <= comment_end(s, i) <= s.len(),
    decreases s.len() - i,
{
    if i < s.len() && s[i as int] != '\n' {
        lemma_comment_end_bounds(s, i + 1);
    }
}

pub proof fn lemma_digits_end_bounds(s: Seq<char>, i: nat)
    requires
        i <= s.len(),
    ensures
        i <= digits_end(s, i) <= s.len(),
    decreases s.len() - i,
{
    if i < s.len() && is_digit(s[i as int]) {
        lemma_digits_end_bounds(s, i + 1);
    }
}

pub proof fn lemma_number_end_bounds(s: Seq<char>, i: nat)
    requires
        i <= s.len(),
    ensures
        i <= number_end(s, i) <= s.len(),
{
    lemma_digits_end_bounds(s, i);
    let j = digits_end(s, i);
    if j < s.len() && s[j as int] == '.' && j + 1 < s.len() && is_digit(s[j as int + 1]) {
        lemma_digits_end_bounds(s, j + 1);
    }
}

pub proof fn lemma_ident_end_bounds(s: Seq<char>, i: nat)
    requires
        i <= s.len(),
    ensures
        i <= ident_end(s, i) <= s.len(),
    decreases s.len() - i,
{
    if i < s.len() && is_alnum(s[i as int]) {
        lemma_ident_end_bounds(s, i + 1);
    }
}

/// Prepend a token to a scan result, keeping the first error.
pub open spec fn cons_tok(t: TokenModel, r: Result<Seq<TokenModel>, nat>) -> Result<
    Seq<TokenModel>,
    nat,
> {
    match r {
        Ok(ts) => Ok(seq![t] + ts),
        Err(e) => Err(e),
    }
}

/// The token stream of the source from position `i` on, or the position of
/// the first ill-formed character.
pub open spec fn scan_spec(s: Seq<char>, i: nat) -> Result<Seq<TokenModel>, nat>
    decreases s.len() - i,
    when i <= s.len()
    via scan_spec_decreases
{
    if i >= s.len() {
        Ok(Seq::empty())
    } else {
        let c = s[i as int];
        if c == '#' {
            scan_spec(s, comment_end(s, i + 1))
        } else if is_space(c) {
            scan_spec(s, i + 1)
        } else if c == ',' {
            cons_tok(TokenModel::Comma, scan_spec(s, i + 1))
        } else if c == '?' {
            cons_tok(TokenModel::QMark, scan_spec(s, i + 1))
        } else if c == ';' {
            cons_tok(TokenModel::SemiColon, scan_spec(s, i + 1))
        } else if c == ':' {
            cons_tok(TokenModel::Colon, scan_spec(s, i + 1))
        } else if c == '+' {
            cons_tok(TokenModel::Add, scan_spec(s, i + 1))
        } else if c == '*' {
            cons_tok(TokenModel::Mul, scan_spec(s, i + 1))
        } else if c == '/' {
            cons_tok(TokenModel::Div, scan_spec(s, i + 1))
        } else if c == '%' {
            cons_tok(TokenModel::Mod, scan_spec(s, i + 1))
        } else if c == '(' {
            cons_tok(TokenModel::ParOpen, scan_spec(s, i + 1))
        } else if c == ')' {
            cons_tok(TokenModel::ParClose, scan_spec(s, i + 1))
        } else if c == '>' {
            if i + 1 < s.len() && s[i as int + 1] == '=' {
                cons_tok(TokenModel::GreaterEqual, scan_spec(s, i + 2))
            } else {
                cons_tok(TokenModel::Greater, scan_spec(s, i + 1))
            }
        } else if c == '<' {
            if i + 1 < s.len() && s[i as int + 1] == '=' {
                cons_tok(TokenModel::LessEqual, scan_spec(s, i + 2))
            } else {
                cons_tok(TokenModel::Less, scan_spec(s, i + 1))
            }
        } else if c == '=' {
            if i + 1 < s.len() && s[i as int + 1] == '=' {
                cons_tok(TokenModel::Equal, scan_spec(s, i + 2))
            } else {
                Err(i)
            }
        } else if c == '-' {
            if i + 1 < s.len() && is_digit(s[i as int + 1]) {
                let end = number_end(s, i + 1);
                cons_tok(TokenModel::Number(s.subrange(i as int, end as int)), scan_spec(s, end))
            } else {
                cons_tok(TokenModel::Sub, scan_spec(s, i + 1))
            }
        } else if is_digit(c) {
            let end = number_end(s, i + 1);
            cons_tok(TokenModel::Number(s.subrange(i as int, end as int)), scan_spec(s, end))
        } else if is_letter(c) {
            let end = ident_end(s, i + 1);
            let t = s.subrange(i as int, end as int);
            let tok = if t == "param"@ {
                TokenModel::Param
            } else if t == "cell"@ {
                TokenModel::Cell
            } else if t == "if"@ {
                TokenModel::If
            } else {
                TokenModel::Ident(t)
            };
            cons_tok(tok, scan_spec(s, end))
        } else {
            Err(i)
        }
    }
}

#[via_fn]
proof fn scan_spec_decreases(s: Seq<char>, i: nat) {
    if i < s.len() {
        lemma_comment_end_bounds(s, i + 1);
        lemma_number_end_bounds(s, i + 1);
        lemma_ident_end_bounds(s, i + 1);
    }
}

fn is_digit_x(c: char) -> (r: bool)
    ensures
        r == is_digit(c),
{
    let u = c as u32;
    48 <= u && u <= 57
}

fn is_letter_x(c: char) -> (r: bool)
    ensures
        r == is_letter(c),
{
    let u = c as u32;
    (65 <= u && u <= 90) || (97 <= u && u <= 122)
}

fn is_space_x(c: char) -> (r: bool)
    ensures
        r == is_space(c),
{
    c == ' ' || c == '\t' || c == '\r' || c == '\n'
}

fn comment_end_x(cs: &Vec<char>, i: usize) -> (r: usize)
    requires
        i <= cs@.len(),
    ensures
        r == comment_end(cs@, i as nat),
        i <= r <= cs@.len(),
    decreases cs@.len() - i,
{
    if i >= cs.len() {
        cs.len()
    } else if cs[i] == '\n' {
        i + 1
    } else {
        comment_end_x(cs, i + 1)
    }
}

fn digits_end_x(cs: &Vec<char>, i: usize) -> (r: usize)
    requires
        i <= cs@.len(),
    ensures
        r == digits_end(cs@, i as nat),
        i <= r <= cs@.len(),
    decreases cs@.len() - i,
{
    if i >= cs.len() || !is_digit_x(cs[i]) {
        i
    } else {
        digits_end_x(cs, i + 1)
    }
}

fn number_end_x(cs: &Vec<char>, i: usize) -> (r: usize)
    requires
        i <= cs@.len(),
    ensures
        r == number_end(cs@, i as nat),
        i <= r <= cs@.len(),
{
    let j = digits_end_x(cs, i);
    if j < cs.len() && cs[j] == '.' && j + 1 < cs.len() && is_digit_x(cs[j + 1]) {
        digits_end_x(cs, j + 1)
    } else {
        j
    }
}

fn ident_end_x(cs: &Vec<char>, i: usize) -> (r: usize)
    requires
        i <= cs@.len(),
    ensures
        r == ident_end(cs@, i as nat),
        i <= r <= cs@.len(),
    decreases cs@.len() - i,
{
    if i >= cs.len() || !(is_letter_x(cs[i]) || is_digit_x(cs[i])) {
        i
    } else {
        ident_end_x(cs, i + 1)
    }
}

proof fn lemma_prepend_view(t: Token, rest: Seq<Token>)
    ensures
        tokens_view(rest.insert(0, t)) == seq![t@] + tokens_view(rest),
{
    assert(tokens_view(rest.insert(0, t)) =~= seq![t@] + tokens_view(rest));
}

/// Scan from position `i` to the end of the character vector.
fn scan_at(cs: &Vec<char>, i: usize) -> (r: Result<Vec<Token>, CellError>)
    requires
        i <= cs@.len(),
    ensures
        match r {
            Ok(toks) => scan_spec(cs@, i as nat) == Ok::<Seq<TokenModel>, nat>(
                tokens_view(toks@),
            ),
            Err(e) => e matches CellError::Lex { position } && scan_spec(cs@, i as nat)
                == Err::<Seq<TokenModel>, nat>(position as nat),
        },
    decreases cs@.len() - i, 1int,
{
    if i >= cs.len() {
        proof {
            assert(tokens_view(Seq::<Token>::empty()) =~= Seq::<TokenModel>::empty());
        }
        return Ok(Vec::new());
    }
    let c = cs[i];
    if c == '#' {
        let j = comment_end_x(cs, i + 1);
        scan_at(cs, j)
    } else if is_space_x(c) {
        scan_at(cs, i + 1)
    } else if c == ',' {
        scan_one(cs, i, Token::Comma, i + 1)
    } else if c == '?' {
        scan_one(cs, i, Token::QMark, i + 1)
    } else if c == ';' {
        scan_one(cs, i, Token::SemiColon, i + 1)
    } else if c == ':' {
        scan_one(cs, i, Token::Colon, i + 1)
    } else if c == '+' {
        scan_one(cs, i, Token::Add, i + 1)
    } else if c == '*' {
        scan_one(cs, i, Token::Mul, i + 1)
    } else if c == '/' {
        scan_one(cs, i, Token::Div, i + 1)
    } else if c == '%' {
        scan_one(cs, i, Token::Mod, i + 1)
    } else if c == '(' {
        scan_one(cs, i, Token::ParOpen, i + 1)
    } else if c == ')' {
        scan_one(cs, i, Token::ParClose, i + 1)
    } else if c == '>' {
        if i + 1 < cs.len() && cs[i + 1] == '=' {
            scan_one(cs, i, Token::GreaterEqual, i + 2)
        } else {
            scan_one(cs, i, Token::Greater, i + 1)
        }
    } else if c == '<' {
        if i + 1 < cs.len() && cs[i + 1] == '=' {
            scan_one(cs, i, Token::LessEqual, i + 2)
        } else {
            scan_one(cs, i, Token::Less, i + 1)
        }
    } else if c == '=' {
        if i + 1 < cs.len() && cs[i + 1] == '=' {
            scan_one(cs, i, Token::Equal, i + 2)
        } else {
            Err(CellError::Lex { position: i })
        }
    } else if c == '-' {
        if i + 1 < cs.len() && is_digit_x(cs[i + 1]) {
            let end = number_end_x(cs, i + 1);
            let text = subrange_string(cs, i, end);
            scan_one(cs, i, Token::Number(text), end)
        } else {
            scan_one(cs, i, Token::Sub, i + 1)
        }
    } else if is_digit_x(c) {
        let end = number_end_x(cs, i + 1);
        let text = subrange_string(cs, i, end);
        scan_one(cs, i, Token::Number(text), end)
    } else if is_letter_x(c) {
        let end = ident_end_x(cs, i + 1);
        let text = subrange_string(cs, i, end);
        let tok = if text == "param".to_owned() {
            Token::Param
        } else if text == "cell".to_owned() {
            Token::Cell
        } else if text == "if".to_owned() {
            Token::If
        } else {
            Token::Ident(text)
        };
        scan_one(cs, i, tok, end)
    } else {
        Err(CellError::Lex { position: i })
    }
}

/// Emit one token at position `i`, then scan on from `next`.
fn scan_one(cs: &Vec<char>, i: usize, t: Token, next: usize) -> (r: Result<Vec<Token>, CellError>)
    requires
        i < next <= cs@.len(),
    ensures
        match r {
            Ok(toks) => cons_tok(t@, scan_spec(cs@, next as nat)) == Ok::<Seq<TokenModel>, nat>(
                tokens_view(toks@),
            ),
            Err(e) => e matches CellError::Lex { position } && cons_tok(
                t@,
                scan_spec(cs@, next as nat),
            ) == Err::<Seq<TokenModel>, nat>(position as nat),
        },
    decreases cs@.len() - i, 0int,
{
    let mut rest = match scan_at(cs, next) {
        Ok(v) => v,
        Err(e) => {
            return Err(e);
        },
    };
    proof {
        lemma_prepend_view(t, rest@);
    }
    rest.insert(0, t);
    Ok(rest)
}

/// Scan a whole source text into tokens, or report the position of the
/// first ill-formed character.
pub fn scan(input: &str) -> (r: Result<Vec<Token>, CellError>)
    ensures
        match r {
            Ok(toks) => scan_spec(input@, 0) == Ok::<Seq<TokenModel>, nat>(tokens_view(toks@)),
            Err(e) => e matches CellError::Lex { position } && scan_spec(input@, 0)
                == Err::<Seq<TokenModel>, nat>(position as nat),
        },
{
    let cs = str_chars(input);
    scan_at(&cs, 0)
}

} // verus!
