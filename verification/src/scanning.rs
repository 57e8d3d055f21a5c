use vstd::prelude::*;

use crate::errors::ScanError;
use crate::token::{OperatorType, Token, TokenModel, TokenType};

verus! {

// ---------------------------------------------------------------------------
// Character classes
// ---------------------------------------------------------------------------

/// Whitespace, as the expression grammar understands it: the ASCII
/// whitespace characters.
pub open spec fn is_space_char(c: char) -> bool {
    c == ' ' || c == '\t' || c == '\n' || c == '\r' || c == '\x0b' || c == '\x0c'
}

/// An ASCII digit.
pub open spec fn is_digit_char(c: char) -> bool {
    48 <= c as u32 && c as u32 <= 57
}

/// One of the six single-character tokens.
pub open spec fn is_symbol_char(c: char) -> bool {
    c == '(' || c == ')' || c == '+' || c == '-' || c == '*' || c == '/'
}

/// The characters that may appear anywhere in a scannable input: whitespace,
/// the six symbols, digits, and the decimal point.
pub open spec fn is_input_char(c: char) -> bool {
    is_space_char(c) || is_symbol_char(c) || is_digit_char(c) || c == '.'
}

/// The token kind of a single-character symbol.
pub open spec fn symbol_kind(c: char) -> TokenType {
    if c == '(' {
        TokenType::LeftParen
    } else if c == ')' {
        TokenType::RightParen
    } else if c == '+' {
        TokenType::Operator(OperatorType::Add)
    } else if c == '-' {
        TokenType::Operator(OperatorType::Subtract)
    } else if c == '*' {
        TokenType::Operator(OperatorType::Multiply)
    } else {
        TokenType::Operator(OperatorType::Divide)
    }
}

// ---------------------------------------------------------------------------
// The shape of a number
// ---------------------------------------------------------------------------

/// How many consecutive ASCII digits stand at offset `i`.
pub open spec fn digit_run(src: Seq<char>, i: nat) -> nat
    decreases src.len() - i,
{
    if i < src.len() && is_digit_char(src[i as int]) {
        (digit_run(src, i + 1) + 1) as nat
    } else {
        0
    }
}

/// Where the number that starts at offset `i` ends: a run of digits,
/// optionally followed by a decimal point and a further run of digits. A
/// decimal point with no digit after it is not part of the number.
pub open spec fn number_end(src: Seq<char>, i: nat) -> nat {
    let j = (i + digit_run(src, i)) as nat;
    if j + 1 < src.len() && src[j as int] == '.' && is_digit_char(src[(j + 1) as int]) {
        ((j + 1) + digit_run(src, j + 1)) as nat
    } else {
        j
    }
}

/// A lexeme of the number form: one or more digits, optionally followed by a
/// decimal point and one or more further digits.
pub open spec fn is_number_lexeme(s: Seq<char>) -> bool {
    s.len() > 0 && is_digit_char(s[0]) && number_end(s, 0) == s.len()
}

// ---------------------------------------------------------------------------
// The scanner, as a mathematical function
// ---------------------------------------------------------------------------

/// Scanning the text from offset `i` on: the tokens of the rest of the text,
/// ending with the end-of-input marker, or the first unexpected character.
pub open spec fn spec_scan_from(src: Seq<char>, i: nat) -> Result<Seq<TokenModel>, ScanError>
    decreases src.len() - i,
{
    if i >= src.len() {
        Ok(seq![TokenModel { kind: TokenType::Eof, lexeme: Seq::empty(), position: i }])
    } else if is_space_char(src[i as int]) {
        spec_scan_from(src, i + 1)
    } else if is_symbol_char(src[i as int]) {
        match spec_scan_from(src, i + 1) {
            Ok(rest) => Ok(
                seq![
                    TokenModel {
                        kind: symbol_kind(src[i as int]),
                        lexeme: seq![src[i as int]],
                        position: i,
                    },
                ] + rest,
            ),
            Err(e) => Err(e),
        }
    } else if is_digit_char(src[i as int]) {
        let e = number_end(src, i);
        if i < e && e <= src.len() {
            match spec_scan_from(src, e) {
                Ok(rest) => Ok(
                    seq![
                        TokenModel {
                            kind: TokenType::Operand,
                            lexeme: src.subrange(i as int, e as int),
                            position: i,
                        },
                    ] + rest,
                ),
                Err(er) => Err(er),
            }
        } else {
            // A digit at `i` always gives i < number_end(src, i) <= src.len(),
            // so this branch is never the value; see lemma_number_end_bounds.
            Err(ScanError::UnexpectedChar(src[i as int], i as usize))
        }
    } else {
        Err(ScanError::UnexpectedChar(src[i as int], i as usize))
    }
}

/// Scanning a whole text from its start.
pub open spec fn spec_scan(src: Seq<char>) -> Result<Seq<TokenModel>, ScanError> {
    spec_scan_from(src, 0)
}

/// Tokens already produced, joined with the outcome of scanning the rest.
pub open spec fn scan_cont(
    done: Seq<TokenModel>,
    rest: Result<Seq<TokenModel>, ScanError>,
) -> Result<Seq<TokenModel>, ScanError> {
    match rest {
        Ok(ts) => Ok(done + ts),
        Err(e) => Err(e),
    }
}

// ---------------------------------------------------------------------------
// Facts about digit runs and number ends
// ---------------------------------------------------------------------------

/// A digit run lies within the text, consists of digits, and is maximal.
pub proof fn lemma_digit_run_bounds(src: Seq<char>, i: nat)
    requires
        i <= src.len(),
    ensures
        i + digit_run(src, i) <= src.len(),
        forall|k: int| i <= k < i + digit_run(src, i) ==> is_digit_char(src[k]),
        i + digit_run(src, i) == src.len() || !is_digit_char(
            src[(i + digit_run(src, i)) as int],
        ),
    decreases src.len() - i,
{
    if i < src.len() && is_digit_char(src[i as int]) {
        lemma_digit_run_bounds(src, i + 1);
    }
}

/// A maximal run of digits seen in the text is exactly the digit run.
pub proof fn lemma_digit_run_exact(src: Seq<char>, i: nat, j: nat)
    requires
        i <= j <= src.len(),
        forall|k: int| i <= k < j ==> is_digit_char(src[k]),
        j == src.len() || !is_digit_char(src[j as int]),
    ensures
        i + digit_run(src, i) == j,
    decreases j - i,
{
    if i < j {
        lemma_digit_run_exact(src, i + 1, j);
    }
}

/// A number that starts at a digit ends past that digit and within the text.
pub proof fn lemma_number_end_bounds(src: Seq<char>, i: nat)
    requires
        i < src.len(),
        is_digit_char(src[i as int]),
    ensures
        i < number_end(src, i),
        number_end(src, i) <= src.len(),
{
    lemma_digit_run_bounds(src, i);
    let j = (i + digit_run(src, i)) as nat;
    if j + 1 < src.len() && src[j as int] == '.' && is_digit_char(src[(j + 1) as int]) {
        lemma_digit_run_bounds(src, j + 1);
    }
}

// ---------------------------------------------------------------------------
// The scanner, executable
// ---------------------------------------------------------------------------

/// The character at offset `i`, or the NUL sentinel past the end.
pub open spec fn spec_peek(src: Seq<char>, i: nat) -> char {
    if i < src.len() {
        src[i as int]
    } else {
        '\0'
    }
}

fn is_space(c: char) -> (r: bool)
    ensures
        r == is_space_char(c),
{
    c == ' ' || c == '\t' || c == '\n' || c == '\r' || c == '\x0b' || c == '\x0c'
}

fn is_digit(c: char) -> (r: bool)
    ensures
        r == is_digit_char(c),
{
    let u = c as u32;
    48 <= u && u <= 57
}

fn is_at_end(source: &str, current: usize) -> (r: bool)
    ensures
        r == (current >= source@.len()),
{
    current >= source.unicode_len()
}

fn peek(source: &str, current: usize) -> (c: char)
    ensures
        c == spec_peek(source@, current as nat),
{
    if current < source.unicode_len() {
        source.get_char(current)
    } else {
        '\0'
    }
}

fn peek_next(source: &str, current: usize) -> (c: char)
    requires
        current < usize::MAX,
    ensures
        c == spec_peek(source@, current as nat + 1),
{
    peek(source, current + 1)
}

fn advance(source: &str, current: &mut usize) -> (r: Option<char>)
    ensures
        match r {
            Some(c) => *old(current) < source@.len() && c == source@[*old(current) as int]
                && *final(current) == *old(current) + 1,
            None => *old(current) >= source@.len() && *final(current) == *old(current),
        },
{
    if *current < source.unicode_len() {
        let c = source.get_char(*current);
        *current = *current + 1;
        Some(c)
    } else {
        None
    }
}

fn skip_whitespace(source: &str, current: &mut usize)
    ensures
        *old(current) <= *final(current),
        *old(current) <= source@.len() ==> *final(current) <= source@.len(),
        forall|k: int| *old(current) <= k < *final(current) ==> is_space_char(source@[k]),
        *final(current) >= source@.len() || !is_space_char(source@[*final(current) as int]),
        spec_scan_from(source@, *final(current) as nat) == spec_scan_from(
            source@,
            *old(current) as nat,
        ),
{
    let n = source.unicode_len();
    while *current < n && is_space(peek(source, *current))
        invariant
            *old(current) <= *current,
            n == source@.len(),
            *old(current) <= source@.len() ==> *current <= source@.len(),
            forall|k: int| *old(current) <= k < *current ==> is_space_char(source@[k]),
            spec_scan_from(source@, *current as nat) == spec_scan_from(
                source@,
                *old(current) as nat,
            ),
        decreases source@.len() - *current,
    {
        *current = *current + 1;
    }
}

/// Move `current` past the run of digits that stands at it.
fn skip_digits(source: &str, current: &mut usize)
    ensures
        *final(current) as nat == *old(current) + digit_run(source@, *old(current) as nat),
        *old(current) <= source@.len() ==> *final(current) <= source@.len(),
{
    let n = source.unicode_len();
    let ghost start = *current as nat;
    while *current < n && is_digit(peek(source, *current))
        invariant
            start <= *current,
            n == source@.len(),
            *current <= source@.len() || *current == start,
            forall|k: int| start <= k < *current ==> is_digit_char(source@[k]),
        decreases source@.len() - *current,
    {
        *current = *current + 1;
    }
    proof {
        if start <= source@.len() {
            lemma_digit_run_exact(source@, start, *current as nat);
        }
    }
}

/// Whether a lexeme has the number form: digits, optionally a decimal point
/// and more digits.
pub(crate) fn lexeme_is_number(s: &str) -> (r: bool)
    ensures
        r == is_number_lexeme(s@),
{
    let n = s.unicode_len();
    if n == 0 {
        return false;
    }
    if !is_digit(s.get_char(0)) {
        return false;
    }
    let mut current: usize = 0;
    skip_digits(s, &mut current);
    if current < n && peek(s, current) == '.' && is_digit(peek_next(s, current)) {
        advance(s, &mut current);
        skip_digits(s, &mut current);
    }
    current == n
}

fn create_token(kind: TokenType, lexeme: String, position: usize) -> (t: Token)
    ensures
        t@ == (TokenModel { kind, lexeme: lexeme@, position: position as nat }),
{
    Token::new(kind, lexeme, position)
}

/// Scan the number whose first digit, at offset `start`, was just consumed.
fn create_number_token(source: &str, current: &mut usize, start: usize) -> (t: Token)
    requires
        start < source@.len(),
        is_digit_char(source@[start as int]),
        *old(current) == start + 1,
    ensures
        *final(current) as nat == number_end(source@, start as nat),
        start < *final(current) <= source@.len(),
        t@ == (TokenModel {
            kind: TokenType::Operand,
            lexeme: source@.subrange(start as int, *final(current) as int),
            position: start as nat,
        }),
{
    let n = source.unicode_len();
    proof {
        lemma_number_end_bounds(source@, start as nat);
    }
    skip_digits(source, current);
    proof {
        // the consumed first digit joins the run that follows it
        assert(*current as nat == start + digit_run(source@, start as nat));
    }
    if *current < n && peek(source, *current) == '.' && is_digit(peek_next(source, *current)) {
        advance(source, current);
        skip_digits(source, current);
    }
    let lexeme = source.substring_char(start, *current);
    Token::new(TokenType::Operand, lexeme.to_owned(), start)
}

/// Scan one token at offset `current`, which holds no whitespace.
fn scan_token(source: &str, current: &mut usize) -> (r: Result<Token, ScanError>)
    requires
        *old(current) < source@.len(),
        !is_space_char(source@[*old(current) as int]),
    ensures
        match r {
            Ok(t) => {
                &&& *old(current) < *final(current) <= source@.len()
                &&& t@.position == *old(current) as nat
                &&& t@.lexeme == source@.subrange(*old(current) as int, *final(current) as int)
                &&& *final(current) as nat == *old(current) + t@.lexeme.len()
                &&& t@.kind == (if is_digit_char(source@[*old(current) as int]) {
                    TokenType::Operand
                } else {
                    symbol_kind(source@[*old(current) as int])
                })
                &&& (is_digit_char(source@[*old(current) as int]) || is_symbol_char(
                    source@[*old(current) as int],
                ))
                &&& spec_scan_from(source@, *old(current) as nat) == scan_cont(
                    seq![t@],
                    spec_scan_from(source@, *final(current) as nat),
                )
            },
            Err(e) => {
                &&& e == ScanError::UnexpectedChar(
                    source@[*old(current) as int],
                    *old(current),
                )
                &&& *final(current) == *old(current) + 1
                &&& spec_scan_from(source@, *old(current) as nat) == Err::<
                    Seq<TokenModel>,
                    ScanError,
                >(e)
            },
        },
{
    let start = *current;
    let c = advance(source, current).unwrap();
    match c {
        '(' => Ok(create_token(TokenType::LeftParen, symbol_lexeme(source, start), start)),
        ')' => Ok(create_token(TokenType::RightParen, symbol_lexeme(source, start), start)),
        '+' => Ok(
            create_token(
                TokenType::Operator(OperatorType::Add),
                symbol_lexeme(source, start),
                start,
            ),
        ),
        '-' => Ok(
            create_token(
                TokenType::Operator(OperatorType::Subtract),
                symbol_lexeme(source, start),
                start,
            ),
        ),
        '*' => Ok(
            create_token(
                TokenType::Operator(OperatorType::Multiply),
                symbol_lexeme(source, start),
                start,
            ),
        ),
        '/' => Ok(
            create_token(
                TokenType::Operator(OperatorType::Divide),
                symbol_lexeme(source, start),
                start,
            ),
        ),
        _ => {
            if is_digit(c) {
                return Ok(create_number_token(source, current, start));
            }
            Err(ScanError::UnexpectedChar(c, start))
        },
    }
}

/// The one-character lexeme of the symbol at offset `position`.
fn symbol_lexeme(source: &str, position: usize) -> (lexeme: String)
    requires
        position < source@.len(),
    ensures
        lexeme@ == seq![source@[position as int]],
        lexeme@ == source@.subrange(position as int, position as int + 1),
{
    let n = source.unicode_len();
    assert(position < n);
    let s = source.substring_char(position, position + 1);
    proof {
        assert(s@ =~= seq![source@[position as int]]);
    }
    s.to_owned()
}

/// Scan a whole source text into its token sequence: the scanner's result is
/// exactly the mathematical scan of the text, and a successful scan always
/// ends with the end-of-input token.
pub fn scan(source: String) -> (r: Result<Vec<Token>, ScanError>)
    ensures
        (match (r, spec_scan(source@)) {
            (Ok(v), Ok(ts)) => v@.map_values(|t: Token| t@) == ts,
            (Err(e1), Err(e2)) => e1 == e2,
            _ => false,
        }),
        r matches Ok(v) ==> v@.len() > 0 && v@[v@.len() - 1].kind == TokenType::Eof,
{
    let s = source.as_str();
    let mut tokens: Vec<Token> = Vec::new();
    let mut current: usize = 0;
    proof {
        assert(Seq::<TokenModel>::empty() + spec_scan_from(s@, 0).unwrap() =~= spec_scan_from(
            s@,
            0,
        ).unwrap());
        lemma_scan_from_ends_eof(s@, 0);
    }
    while !is_at_end(s, current)
        invariant_except_break
            current <= s@.len(),
            s@ == source@,
            scan_cont(tokens@.map_values(|t: Token| t@), spec_scan_from(s@, current as nat))
                == spec_scan(s@),
        ensures
            current == s@.len(),
            s@ == source@,
            scan_cont(tokens@.map_values(|t: Token| t@), spec_scan_from(s@, current as nat))
                == spec_scan(s@),
        decreases s@.len() - current,
    {
        skip_whitespace(s, &mut current);
        if is_at_end(s, current) {
            break;
        }
        let ghost done = tokens@.map_values(|t: Token| t@);
        match scan_token(s, &mut current) {
            Ok(t) => {
                tokens.push(t);
                proof {
                    assert(tokens@.map_values(|t2: Token| t2@) =~= done.push(t@));
                    match spec_scan_from(s@, current as nat) {
                        Ok(rest) => {
                            assert(done + (seq![t@] + rest) =~= done.push(t@) + rest);
                        },
                        Err(_) => {},
                    }
                }
            },
            Err(e) => {
                return Err(e);
            },
        }
    }
    let eof = Token::new(TokenType::Eof, String::new(), current);
    tokens.push(eof);
    proof {
        let ghost done = tokens@.map_values(|t: Token| t@);
        assert(spec_scan_from(s@, current as nat) == Ok::<Seq<TokenModel>, ScanError>(
            seq![TokenModel { kind: TokenType::Eof, lexeme: Seq::empty(), position: s@.len() }],
        ));
        assert(done =~= spec_scan(s@).unwrap());
    }
    Ok(tokens)
}

// ---------------------------------------------------------------------------
// Laws of the scanner
// ---------------------------------------------------------------------------

/// A successful scan is never empty and ends with the end-of-input token.
pub proof fn lemma_scan_from_ends_eof(src: Seq<char>, i: nat)
    ensures
        spec_scan_from(src, i) matches Ok(ts) ==> ts.len() > 0 && ts[ts.len() - 1].kind
            == TokenType::Eof,
    decreases src.len() - i,
{
    if i >= src.len() {
    } else if is_space_char(src[i as int]) {
        lemma_scan_from_ends_eof(src, i + 1);
    } else if is_symbol_char(src[i as int]) {
        lemma_scan_from_ends_eof(src, i + 1);
    } else if is_digit_char(src[i as int]) {
        let e = number_end(src, i);
        if i < e && e <= src.len() {
            lemma_scan_from_ends_eof(src, e);
        }
    }
}

/// The token sequence of a successful scan keeps source order: positions
/// strictly increase from token to token, every token but the end marker
/// begins before the end of the text, and the end marker carries the scan's
/// final offset, the character length of the text.
pub proof fn lemma_scan_positions(src: Seq<char>)
    ensures
        spec_scan(src) matches Ok(ts) ==> {
            &&& ts.len() >= 1
            &&& ts[ts.len() - 1].position == src.len()
            &&& (forall|k: int| 0 <= k < ts.len() - 1 ==> (#[trigger] ts[k].position) < ts[k + 1].position)
            &&& (forall|k: int| 0 <= k < ts.len() - 1 ==> (#[trigger] ts[k].position) < src.len())
        },
{
    lemma_scan_from_positions(src, 0);
}

proof fn lemma_scan_from_positions(src: Seq<char>, i: nat)
    requires
        i <= src.len(),
    ensures
        spec_scan_from(src, i) matches Ok(ts) ==> {
            &&& ts.len() >= 1
            &&& ts[ts.len() - 1].position == src.len()
            &&& (forall|k: int| 0 <= k < ts.len() - 1 ==> (#[trigger] ts[k].position) < ts[k + 1].position)
            &&& (forall|k: int|
                0 <= k < ts.len() - 1 ==> i <= (#[trigger] ts[k].position) && ts[k].position < src.len())
        },
    decreases src.len() - i,
{
    if i >= src.len() {
    } else if is_space_char(src[i as int]) {
        lemma_scan_from_positions(src, i + 1);
    } else if is_symbol_char(src[i as int]) {
        lemma_scan_from_positions(src, i + 1);
        match spec_scan_from(src, i + 1) {
            Ok(rest) => {
                let head = TokenModel {
                    kind: symbol_kind(src[i as int]),
                    lexeme: seq![src[i as int]],
                    position: i,
                };
                lemma_prepend_positions(src, head, rest, i, i + 1);
            },
            Err(_) => {},
        }
    } else if is_digit_char(src[i as int]) {
        let e = number_end(src, i);
        if i < e && e <= src.len() {
            lemma_scan_from_positions(src, e);
            match spec_scan_from(src, e) {
                Ok(rest) => {
                    let head = TokenModel {
                        kind: TokenType::Operand,
                        lexeme: src.subrange(i as int, e as int),
                        position: i,
                    };
                    lemma_prepend_positions(src, head, rest, i, e);
                },
                Err(_) => {},
            }
        }
    }
}

/// Prepending a token that begins at `i` before the tokens of the rest of
/// the text, all of which begin at or after `next`, keeps the order.
proof fn lemma_prepend_positions(
    src: Seq<char>,
    head: TokenModel,
    rest: Seq<TokenModel>,
    i: nat,
    next: nat,
)
    requires
        head.position == i,
        i < next <= src.len(),
        rest.len() >= 1,
        rest[rest.len() - 1].position == src.len(),
        forall|k: int| 0 <= k < rest.len() - 1 ==> (#[trigger] rest[k].position) < rest[k + 1].position,
        forall|k: int|
            0 <= k < rest.len() - 1 ==> next <= (#[trigger] rest[k].position) && rest[k].position < src.len(),
    ensures
        ({
            let ts = seq![head] + rest;
            &&& ts.len() >= 1
            &&& ts[ts.len() - 1].position == src.len()
            &&& (forall|k: int| 0 <= k < ts.len() - 1 ==> (#[trigger] ts[k].position) < ts[k + 1].position)
            &&& (forall|k: int|
                0 <= k < ts.len() - 1 ==> i <= (#[trigger] ts[k].position) && ts[k].position < src.len())
        }),
{
    let ts = seq![head] + rest;
    assert(forall|k: int| 1 <= k < ts.len() ==> ts[k] == rest[k - 1]);
    assert(ts[0].position < ts[1].position);
}

/// A text that is one whole number literal scans to exactly two tokens: an
/// operand token whose lexeme is the text itself, verbatim, and the
/// end-of-input marker.
pub proof fn lemma_scan_number_literal(src: Seq<char>)
    requires
        is_number_lexeme(src),
    ensures
        spec_scan(src) == Ok::<Seq<TokenModel>, ScanError>(
            seq![
                TokenModel { kind: TokenType::Operand, lexeme: src, position: 0 },
                TokenModel { kind: TokenType::Eof, lexeme: Seq::empty(), position: src.len() },
            ],
        ),
{
    lemma_number_end_bounds(src, 0);
    assert(src.subrange(0, src.len() as int) =~= src);
    assert(spec_scan_from(src, src.len()) == Ok::<Seq<TokenModel>, ScanError>(
        seq![TokenModel { kind: TokenType::Eof, lexeme: Seq::empty(), position: src.len() }],
    ));
    assert(seq![TokenModel { kind: TokenType::Operand, lexeme: src, position: 0 }] + seq![
        TokenModel { kind: TokenType::Eof, lexeme: Seq::empty(), position: src.len() },
    ] =~= seq![
        TokenModel { kind: TokenType::Operand, lexeme: src, position: 0 },
        TokenModel { kind: TokenType::Eof, lexeme: Seq::empty(), position: src.len() },
    ]);
}

/// Scanning from `i` fails at offset `p`, the first offset at or past `i`
/// whose character is outside the input alphabet, provided no decimal point
/// stands between `i` and `p`.
proof fn lemma_scan_from_unexpected(src: Seq<char>, i: nat, p: nat)
    requires
        i <= p < src.len(),
        !is_input_char(src[p as int]),
        forall|k: int| i <= k < p ==> is_input_char(src[k]),
        forall|k: int| i <= k < p ==> src[k] != '.',
    ensures
        spec_scan_from(src, i) == Err::<Seq<TokenModel>, ScanError>(
            ScanError::UnexpectedChar(src[p as int], p as usize),
        ),
    decreases p - i,
{
    if i == p {
    } else if is_space_char(src[i as int]) || is_symbol_char(src[i as int]) {
        lemma_scan_from_unexpected(src, i + 1, p);
    } else {
        // an input character that is neither whitespace, a symbol nor a
        // point is a digit
        assert(is_digit_char(src[i as int]));
        lemma_digit_run_bounds(src, i);
        let j = (i + digit_run(src, i)) as nat;
        // the run cannot reach p, whose character is no digit
        assert(j <= p) by {
            if j > p {
                assert(is_digit_char(src[p as int]));
            }
        }
        // no point stands at or before p, so the number ends at the run
        let e = number_end(src, i);
        assert(e == j);
        lemma_number_end_bounds(src, i);
        lemma_scan_from_unexpected(src, e, p);
    }
}

/// Scanning a text that holds a character outside the input alphabet
/// `0-9 ( ) + - * / . \s` fails with `UnexpectedChar` naming the first such
/// character and its exact offset — provided no decimal point stands before
/// that offset. (A decimal point is in the alphabet, but one that stands
/// outside a number is itself a scan failure at its own offset, and so can
/// fail first.)
pub proof fn lemma_scan_unexpected_char(src: Seq<char>, p: nat)
    requires
        p < src.len(),
        !is_input_char(src[p as int]),
        forall|k: int| 0 <= k < p ==> is_input_char(src[k]),
        forall|k: int| 0 <= k < p ==> src[k] != '.',
    ensures
        spec_scan(src) == Err::<Seq<TokenModel>, ScanError>(
            ScanError::UnexpectedChar(src[p as int], p as usize),
        ),
{
    lemma_scan_from_unexpected(src, 0, p);
}

/// An empty or all-whitespace text scans to the end-of-input token alone.
pub proof fn lemma_scan_blank(src: Seq<char>)
    requires
        forall|k: int| 0 <= k < src.len() ==> is_space_char(src[k]),
    ensures
        spec_scan(src) == Ok::<Seq<TokenModel>, ScanError>(
            seq![TokenModel { kind: TokenType::Eof, lexeme: Seq::empty(), position: src.len() }],
        ),
{
    lemma_scan_from_blank(src, 0);
}

proof fn lemma_scan_from_blank(src: Seq<char>, i: nat)
    requires
        i <= src.len(),
        forall|k: int| i <= k < src.len() ==> is_space_char(src[k]),
    ensures
        spec_scan_from(src, i) == Ok::<Seq<TokenModel>, ScanError>(
            seq![TokenModel { kind: TokenType::Eof, lexeme: Seq::empty(), position: src.len() }],
        ),
    decreases src.len() - i,
{
    if i < src.len() {
        lemma_scan_from_blank(src, i + 1);
    }
}

} // verus!
