//! The lexical scanner: a single left-to-right pass that classifies each
//! lexeme of the source buffer and emits the corresponding token, skipping
//! whitespace and comments.
//!
//! The scan is specified by [`scan_from`], a character-level model that fixes
//! the classification priority at every lexeme start: whitespace, then line
//! comment, then block comment, then operator, then structural symbol, then
//! numeric run, then string literal; any other character is an unrecognized
//! character and yields `Symbol::Invalid`.  A string literal or block comment
//! still open at the end of the buffer also yields `Symbol::Invalid`, and the
//! scan stops there.

use vstd::prelude::*;
use vstd::string::StrSliceExecFns;

use crate::definitions::{Operation, Symbol, Token, TokenView};

verus! {

/// Whether `c` is scanned as whitespace: the six ASCII whitespace characters.
pub open spec fn is_space_char(c: char) -> bool {
    c == ' ' || c == '\t' || c == '\n' || c == '\r' || c == '\u{b}' || c == '\u{c}'
}

/// Whether `c` is a decimal digit.
pub open spec fn is_digit_char(c: char) -> bool {
    48 <= c as u32 && c as u32 <= 57
}

/// Whether `c` is an arithmetic operator character.
pub open spec fn is_operator_char(c: char) -> bool {
    c == '+' || c == '-' || c == '*' || c == '/' || c == '%'
}

/// The operator that `c` stands for.
pub open spec fn operator_of(c: char) -> Operation {
    if c == '+' {
        Operation::Plus
    } else if c == '-' {
        Operation::Minus
    } else if c == '*' {
        Operation::Multiply
    } else if c == '/' {
        Operation::Divide
    } else {
        Operation::Modulus
    }
}

/// Whether `c` is a structural symbol character.
pub open spec fn is_symbol_char(c: char) -> bool {
    c == '(' || c == ')' || c == ';'
}

/// The symbol that `c` stands for.
pub open spec fn symbol_of(c: char) -> Symbol {
    if c == '(' {
        Symbol::ParensL
    } else if c == ')' {
        Symbol::ParensR
    } else {
        Symbol::SemiColon
    }
}

/// The first position at or after `i` holding `c`, or `s.len()` if there is
/// none.
pub open spec fn find_char(s: Seq<char>, i: int, c: char) -> int
    decreases s.len() - i,
{
    if i < 0 || i >= s.len() {
        s.len() as int
    } else if s[i] == c {
        i
    } else {
        find_char(s, i + 1, c)
    }
}

/// The first position at or after `i` holding a non-digit, or `s.len()` if
/// the digits run to the end.
pub open spec fn digit_run_end(s: Seq<char>, i: int) -> int
    decreases s.len() - i,
{
    if i < 0 || i >= s.len() {
        s.len() as int
    } else if !is_digit_char(s[i]) {
        i
    } else {
        digit_run_end(s, i + 1)
    }
}

/// The first position `j` at or after `i` where `*/` begins, or `s.len()` if
/// there is none.
pub open spec fn block_close(s: Seq<char>, i: int) -> int
    decreases s.len() - i,
{
    if i < 0 || i + 1 >= s.len() {
        s.len() as int
    } else if s[i] == '*' && s[i + 1] == '/' {
        i
    } else {
        block_close(s, i + 1)
    }
}

pub proof fn lemma_find_char_bounds(s: Seq<char>, i: int, c: char)
    requires
        0 <= i <= s.len(),
    ensures
        i <= find_char(s, i, c) <= s.len(),
    decreases s.len() - i,
{
    if i < s.len() && s[i] != c {
        lemma_find_char_bounds(s, i + 1, c);
    }
}

pub proof fn lemma_digit_run_end_bounds(s: Seq<char>, i: int)
    requires
        0 <= i <= s.len(),
    ensures
        i <= digit_run_end(s, i) <= s.len(),
    decreases s.len() - i,
{
    if i < s.len() && is_digit_char(s[i]) {
        lemma_digit_run_end_bounds(s, i + 1);
    }
}

pub proof fn lemma_block_close_bounds(s: Seq<char>, i: int)
    requires
        0 <= i <= s.len(),
    ensures
        i <= block_close(s, i) <= s.len(),
        block_close(s, i) < s.len() ==> block_close(s, i) + 2 <= s.len(),
    decreases s.len() - i,
{
    if i + 1 < s.len() && !(s[i] == '*' && s[i + 1] == '/') {
        lemma_block_close_bounds(s, i + 1);
    }
}

/// The token sequence that scanning `s` from position `i` emits.
///
/// At each lexeme start the classification is tried in a fixed priority
/// order; the two-character comment openers are checked before the
/// single-character `/` operator, so `//` and `/*` are never read as
/// division.  Whitespace and comments consume their span and emit nothing.
/// A numeric run is greedy; a string literal reaches to the nearest
/// following quote and keeps both quotes in its payload.  An unrecognized
/// character emits `Symbol::Invalid` and the scan goes on behind it; a
/// string literal or block comment left unterminated emits one
/// `Symbol::Invalid` and the scan stops.
pub open spec fn scan_from(s: Seq<char>, i: int) -> Seq<TokenView>
    decreases s.len() - i,
{
    if i < 0 || i >= s.len() {
        Seq::empty()
    } else if is_space_char(s[i]) {
        scan_from(s, i + 1)
    } else if s[i] == '/' && i + 1 < s.len() && s[i + 1] == '/' {
        let e = find_char(s, i + 2, '\n');
        proof {
            lemma_find_char_bounds(s, i + 2, '\n');
        }
        scan_from(s, e)
    } else if s[i] == '/' && i + 1 < s.len() && s[i + 1] == '*' {
        let j = block_close(s, i + 2);
        proof {
            lemma_block_close_bounds(s, i + 2);
        }
        if j < s.len() {
            scan_from(s, j + 2)
        } else {
            seq![TokenView::Symbol(Symbol::Invalid)]
        }
    } else if is_operator_char(s[i]) {
        seq![TokenView::Operator(operator_of(s[i]))] + scan_from(s, i + 1)
    } else if is_symbol_char(s[i]) {
        seq![TokenView::Symbol(symbol_of(s[i]))] + scan_from(s, i + 1)
    } else if is_digit_char(s[i]) {
        let e = digit_run_end(s, i);
        proof {
            lemma_digit_run_end_bounds(s, i + 1);
        }
        seq![TokenView::NumericLiteral(s.subrange(i, e))] + scan_from(s, e)
    } else if s[i] == '"' {
        let q = find_char(s, i + 1, '"');
        proof {
            lemma_find_char_bounds(s, i + 1, '"');
        }
        if q < s.len() {
            seq![TokenView::StringLiteral(s.subrange(i, q + 1))] + scan_from(s, q + 1)
        } else {
            seq![TokenView::Symbol(Symbol::Invalid)]
        }
    } else {
        seq![TokenView::Symbol(Symbol::Invalid)] + scan_from(s, i + 1)
    }
}

/// The token sequence that scanning all of `s` emits.
pub open spec fn scan(s: Seq<char>) -> Seq<TokenView> {
    scan_from(s, 0)
}

fn space_char(c: char) -> (b: bool)
    ensures
        b == is_space_char(c),
{
    c == ' ' || c == '\t' || c == '\n' || c == '\r' || c == '\u{b}' || c == '\u{c}'
}

fn digit_char(c: char) -> (b: bool)
    ensures
        b == is_digit_char(c),
{
    let u = c as u32;
    48 <= u && u <= 57
}

fn operator_char(c: char) -> (b: bool)
    ensures
        b == is_operator_char(c),
{
    c == '+' || c == '-' || c == '*' || c == '/' || c == '%'
}

fn operator_value(c: char) -> (op: Operation)
    ensures
        op == operator_of(c),
{
    if c == '+' {
        Operation::Plus
    } else if c == '-' {
        Operation::Minus
    } else if c == '*' {
        Operation::Multiply
    } else if c == '/' {
        Operation::Divide
    } else {
        Operation::Modulus
    }
}

fn symbol_char(c: char) -> (b: bool)
    ensures
        b == is_symbol_char(c),
{
    c == '(' || c == ')' || c == ';'
}

fn symbol_value(c: char) -> (sym: Symbol)
    ensures
        sym == symbol_of(c),
{
    if c == '(' {
        Symbol::ParensL
    } else if c == ')' {
        Symbol::ParensR
    } else {
        Symbol::SemiColon
    }
}

/// Collects the characters of `s` for random access during the scan.
fn chars_vec(s: &str) -> (r: Vec<char>)
    ensures
        r@ == s@,
{
    let n = s.unicode_len();
    let mut r: Vec<char> = Vec::new();
    let mut k: usize = 0;
    while k < n
        invariant
            k <= n,
            n == s@.len(),
            r@ == s@.subrange(0, k as int),
        decreases n - k,
    {
        let c = s.get_char(k);
        r.push(c);
        k = k + 1;
        assert(r@ =~= s@.subrange(0, k as int));
    }
    assert(r@ =~= s@);
    r
}

/// The first position at or after `from` holding `c`, or the length if
/// there is none.
fn find_char_at(cs: &Vec<char>, from: usize, c: char) -> (r: usize)
    requires
        from <= cs@.len(),
    ensures
        r == find_char(cs@, from as int, c),
        from <= r <= cs@.len(),
{
    let n = cs.len();
    let mut k = from;
    while k < n
        invariant
            from <= k <= n,
            n == cs@.len(),
            find_char(cs@, from as int, c) == find_char(cs@, k as int, c),
        decreases n - k,
    {
        if cs[k] == c {
            return k;
        }
        k = k + 1;
    }
    n
}

/// The first position at or after `from` holding a non-digit, or the length
/// if the digits run to the end.
fn digit_run_end_at(cs: &Vec<char>, from: usize) -> (r: usize)
    requires
        from <= cs@.len(),
    ensures
        r == digit_run_end(cs@, from as int),
        from <= r <= cs@.len(),
{
    let n = cs.len();
    let mut k = from;
    while k < n
        invariant
            from <= k <= n,
            n == cs@.len(),
            digit_run_end(cs@, from as int) == digit_run_end(cs@, k as int),
        decreases n - k,
    {
        if !digit_char(cs[k]) {
            return k;
        }
        k = k + 1;
    }
    n
}

/// The first position at or after `from` where `*/` begins, or the length if
/// there is none.
fn block_close_at(cs: &Vec<char>, from: usize) -> (r: usize)
    requires
        from <= cs@.len(),
    ensures
        r == block_close(cs@, from as int),
        from <= r <= cs@.len(),
{
    let n = cs.len();
    let mut k = from;
    while k < n && k + 1 < n
        invariant
            from <= k <= n,
            n == cs@.len(),
            block_close(cs@, from as int) == block_close(cs@, k as int),
        decreases n - k,
    {
        if cs[k] == '*' && cs[k + 1] == '/' {
            return k;
        }
        k = k + 1;
    }
    n
}

/// Hands back the span `[from, to)` of the buffer as an owned payload.
fn span_text(buf: &str, from: usize, to: usize) -> (r: String)
    requires
        from <= to <= buf@.len(),
    ensures
        r@ == buf@.subrange(from as int, to as int),
{
    buf.substring_char(from, to).to_owned()
}

/// Scans the whole buffer left to right and hands back its token sequence.
///
/// The result is exactly the sequence that the model [`scan`] assigns to the
/// buffer's characters: tokens appear in the order their lexemes occur, and
/// whitespace and comments contribute none.  The scan is total: malformed
/// input yields `Symbol::Invalid` tokens instead of a failure.
pub fn tokenizer(buf: &str) -> (r: Vec<Token>)
    ensures
        r.deep_view() == scan(buf@),
{
    let cs = chars_vec(buf);
    let n = cs.len();
    let mut tokens: Vec<Token> = Vec::new();
    let mut pos: usize = 0;
    assert(tokens.deep_view() =~= Seq::<TokenView>::empty());
    while pos < n
        invariant
            pos <= n,
            n == cs@.len(),
            cs@ == buf@,
            scan(buf@) == tokens.deep_view() + scan_from(buf@, pos as int),
        decreases n - pos,
    {
        let ghost prev = tokens.deep_view();
        let ghost p = pos as int;
        let c = cs[pos];
        if space_char(c) {
            pos = pos + 1;
            assert(scan_from(buf@, p) == scan_from(buf@, pos as int));
        } else if c == '/' && pos + 1 < n && cs[pos + 1] == '/' {
            let e = find_char_at(&cs, pos + 2, '\n');
            assert(scan_from(buf@, p) == scan_from(buf@, e as int));
            pos = e;
        } else if c == '/' && pos + 1 < n && cs[pos + 1] == '*' {
            let j = block_close_at(&cs, pos + 2);
            if j < n {
                proof {
                    lemma_block_close_bounds(buf@, p + 2);
                }
                pos = j + 2;
                assert(scan_from(buf@, p) == scan_from(buf@, pos as int));
            } else {
                tokens.push(Token::Symbol(Symbol::Invalid));
                assert(scan_from(buf@, p) =~= seq![TokenView::Symbol(Symbol::Invalid)]);
                assert(tokens.deep_view() =~= prev + scan_from(buf@, p));
                pos = n;
            }
        } else if operator_char(c) {
            tokens.push(Token::Operator(operator_value(c)));
            pos = pos + 1;
            assert(tokens.deep_view() =~= prev + seq![TokenView::Operator(operator_of(c))]);
            assert(scan_from(buf@, p) == seq![TokenView::Operator(operator_of(c))] + scan_from(
                buf@,
                pos as int,
            ));
        } else if symbol_char(c) {
            tokens.push(Token::Symbol(symbol_value(c)));
            pos = pos + 1;
            assert(tokens.deep_view() =~= prev + seq![TokenView::Symbol(symbol_of(c))]);
            assert(scan_from(buf@, p) == seq![TokenView::Symbol(symbol_of(c))] + scan_from(
                buf@,
                pos as int,
            ));
        } else if digit_char(c) {
            let e = digit_run_end_at(&cs, pos);
            proof {
                lemma_digit_run_end_bounds(buf@, p + 1);
            }
            let text = span_text(buf, pos, e);
            tokens.push(Token::NumericLiteral(text));
            assert(tokens.deep_view() =~= prev + seq![
                TokenView::NumericLiteral(buf@.subrange(p, e as int)),
            ]);
            assert(scan_from(buf@, p) == seq![
                TokenView::NumericLiteral(buf@.subrange(p, e as int)),
            ] + scan_from(buf@, e as int));
            pos = e;
        } else if c == '"' {
            let q = find_char_at(&cs, pos + 1, '"');
            if q < n {
                let text = span_text(buf, pos, q + 1);
                tokens.push(Token::StringLiteral(text));
                assert(tokens.deep_view() =~= prev + seq![
                    TokenView::StringLiteral(buf@.subrange(p, q + 1)),
                ]);
                assert(scan_from(buf@, p) == seq![
                    TokenView::StringLiteral(buf@.subrange(p, q + 1)),
                ] + scan_from(buf@, q + 1));
                pos = q + 1;
            } else {
                tokens.push(Token::Symbol(Symbol::Invalid));
                assert(scan_from(buf@, p) =~= seq![TokenView::Symbol(Symbol::Invalid)]);
                assert(tokens.deep_view() =~= prev + scan_from(buf@, p));
                pos = n;
            }
        } else {
            tokens.push(Token::Symbol(Symbol::Invalid));
            pos = pos + 1;
            assert(tokens.deep_view() =~= prev + seq![TokenView::Symbol(Symbol::Invalid)]);
            assert(scan_from(buf@, p) == seq![TokenView::Symbol(Symbol::Invalid)] + scan_from(
                buf@,
                pos as int,
            ));
        }
        proof {
            assert(tokens.deep_view() + scan_from(buf@, pos as int) =~= prev + scan_from(buf@, p));
        }
    }
    assert(scan_from(buf@, pos as int) =~= Seq::<TokenView>::empty());
    assert(tokens.deep_view() =~= tokens.deep_view() + Seq::<TokenView>::empty());
    tokens
}

} // verus!
