//! The parse stage stub: the downstream consumer of the token sequence.
//! For now it accepts only the text of a numeric literal and hands back the
//! corresponding token.

use vstd::prelude::*;

use crate::definitions::{Token, TokenView};
use crate::tokenizer::is_digit_char;

verus! {

/// Turns the text of a numeric literal into its token.
///
/// The buffer must be a non-empty run of decimal digits -- exactly the
/// payload shape that the scanner gives a numeric literal.
pub fn parser(buf: &str) -> (r: Token)
    requires
        buf@.len() > 0,
        forall|k: int| 0 <= k < buf@.len() ==> is_digit_char(#[trigger] buf@[k]),
    ensures
        r@ == TokenView::NumericLiteral(buf@),
{
    Token::NumericLiteral(buf.to_owned())
}

} // verus!
