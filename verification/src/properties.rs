//! Laws of the scan: how the token sequence of a buffer relates to the token
//! sequences of its parts.
//!
//! The key notion is a *sealed* buffer ([`sealed`]): one in which every
//! lexeme the scan meets is delimited strictly inside the buffer, so that
//! appending further text cannot change how the buffer itself scans.  A
//! sealed buffer concatenates cleanly ([`lemma_scan_concat`]), and inserting
//! sealed, token-free filler such as whitespace or closed comments between
//! two parts leaves the token sequence unchanged
//! ([`lemma_format_insensitive`]).

use vstd::prelude::*;

use crate::definitions::{Symbol, TokenView};
use crate::tokenizer::{
    block_close, digit_run_end, find_char, is_digit_char, is_operator_char, is_space_char,
    is_symbol_char, lemma_block_close_bounds, lemma_digit_run_end_bounds, lemma_find_char_bounds,
    scan, scan_from,
};

verus! {

/// Whether every lexeme that scanning `s` from `i` meets is delimited
/// strictly inside `s`: comments and strings are closed, a digit run is
/// followed by a non-digit, and a final `/` does not stand last (where a
/// following character could turn it into a comment opener).
pub open spec fn sealed_from(s: Seq<char>, i: int) -> bool
    decreases s.len() - i,
{
    if i < 0 || i >= s.len() {
        true
    } else if is_space_char(s[i]) {
        sealed_from(s, i + 1)
    } else if s[i] == '/' && i + 1 < s.len() && s[i + 1] == '/' {
        let e = find_char(s, i + 2, '\n');
        proof {
            lemma_find_char_bounds(s, i + 2, '\n');
        }
        e < s.len() && sealed_from(s, e)
    } else if s[i] == '/' && i + 1 < s.len() && s[i + 1] == '*' {
        let j = block_close(s, i + 2);
        proof {
            lemma_block_close_bounds(s, i + 2);
        }
        j < s.len() && sealed_from(s, j + 2)
    } else if is_operator_char(s[i]) {
        (s[i] == '/' ==> i + 1 < s.len()) && sealed_from(s, i + 1)
    } else if is_symbol_char(s[i]) {
        sealed_from(s, i + 1)
    } else if is_digit_char(s[i]) {
        let e = digit_run_end(s, i);
        proof {
            lemma_digit_run_end_bounds(s, i + 1);
        }
        e < s.len() && sealed_from(s, e)
    } else if s[i] == '"' {
        let q = find_char(s, i + 1, '"');
        proof {
            lemma_find_char_bounds(s, i + 1, '"');
        }
        q < s.len() && sealed_from(s, q + 1)
    } else {
        sealed_from(s, i + 1)
    }
}

/// Whether every lexeme of `s` is delimited strictly inside `s`.
pub open spec fn sealed(s: Seq<char>) -> bool {
    sealed_from(s, 0)
}

proof fn lemma_find_char_append(a: Seq<char>, b: Seq<char>, i: int, c: char)
    requires
        0 <= i,
        find_char(a, i, c) < a.len(),
    ensures
        find_char(a + b, i, c) == find_char(a, i, c),
    decreases a.len() - i,
{
    if i < a.len() {
        if a[i] != c {
            lemma_find_char_append(a, b, i + 1, c);
        }
    }
}

proof fn lemma_digit_run_end_append(a: Seq<char>, b: Seq<char>, i: int)
    requires
        0 <= i,
        digit_run_end(a, i) < a.len(),
    ensures
        digit_run_end(a + b, i) == digit_run_end(a, i),
    decreases a.len() - i,
{
    if i < a.len() {
        if is_digit_char(a[i]) {
            lemma_digit_run_end_append(a, b, i + 1);
        }
    }
}

proof fn lemma_block_close_append(a: Seq<char>, b: Seq<char>, i: int)
    requires
        0 <= i,
        block_close(a, i) < a.len(),
    ensures
        block_close(a + b, i) == block_close(a, i),
    decreases a.len() - i,
{
    if i + 1 < a.len() {
        if !(a[i] == '*' && a[i + 1] == '/') {
            lemma_block_close_append(a, b, i + 1);
        }
    }
}

proof fn lemma_find_char_offset(a: Seq<char>, b: Seq<char>, j: int, c: char)
    requires
        0 <= j <= b.len(),
    ensures
        find_char(a + b, a.len() + j, c) == a.len() + find_char(b, j, c),
    decreases b.len() - j,
{
    if j < b.len() {
        if b[j] != c {
            lemma_find_char_offset(a, b, j + 1, c);
        }
    }
}

proof fn lemma_digit_run_end_offset(a: Seq<char>, b: Seq<char>, j: int)
    requires
        0 <= j <= b.len(),
    ensures
        digit_run_end(a + b, a.len() + j) == a.len() + digit_run_end(b, j),
    decreases b.len() - j,
{
    if j < b.len() {
        if is_digit_char(b[j]) {
            lemma_digit_run_end_offset(a, b, j + 1);
        }
    }
}

proof fn lemma_block_close_offset(a: Seq<char>, b: Seq<char>, j: int)
    requires
        0 <= j <= b.len(),
    ensures
        block_close(a + b, a.len() + j) == a.len() + block_close(b, j),
    decreases b.len() - j,
{
    if j + 1 < b.len() {
        if !(b[j] == '*' && b[j + 1] == '/') {
            lemma_block_close_offset(a, b, j + 1);
        }
    }
}

/// Scanning the appended text behind `a` sees the appended text alone.
proof fn lemma_scan_from_offset(a: Seq<char>, b: Seq<char>, j: int)
    requires
        0 <= j <= b.len(),
    ensures
        scan_from(a + b, a.len() + j) == scan_from(b, j),
    decreases b.len() - j,
{
    let u = a + b;
    let i = a.len() + j;
    if j < b.len() {
        if is_space_char(b[j]) {
            lemma_scan_from_offset(a, b, j + 1);
        } else if b[j] == '/' && j + 1 < b.len() && b[j + 1] == '/' {
            let e = find_char(b, j + 2, '\n');
            lemma_find_char_offset(a, b, j + 2, '\n');
            lemma_find_char_bounds(b, j + 2, '\n');
            lemma_scan_from_offset(a, b, e);
        } else if b[j] == '/' && j + 1 < b.len() && b[j + 1] == '*' {
            let k = block_close(b, j + 2);
            lemma_block_close_offset(a, b, j + 2);
            lemma_block_close_bounds(b, j + 2);
            if k < b.len() {
                lemma_scan_from_offset(a, b, k + 2);
            }
        } else if is_operator_char(b[j]) {
            lemma_scan_from_offset(a, b, j + 1);
            if b[j] == '/' && j + 1 == b.len() {
                // a lone `/` at the very end: in `u` too there is no next
                // character, so it scans as the divide operator there as well
                assert(scan_from(u, i) =~= scan_from(b, j));
            }
        } else if is_symbol_char(b[j]) {
            lemma_scan_from_offset(a, b, j + 1);
        } else if is_digit_char(b[j]) {
            let e = digit_run_end(b, j);
            lemma_digit_run_end_offset(a, b, j);
            lemma_digit_run_end_bounds(b, j + 1);
            assert(u.subrange(i, a.len() + e) =~= b.subrange(j, e));
            lemma_scan_from_offset(a, b, e);
        } else if b[j] == '"' {
            let q = find_char(b, j + 1, '"');
            lemma_find_char_offset(a, b, j + 1, '"');
            lemma_find_char_bounds(b, j + 1, '"');
            if q < b.len() {
                assert(u.subrange(i, a.len() + q + 1) =~= b.subrange(j, q + 1));
                lemma_scan_from_offset(a, b, q + 1);
            }
        } else {
            lemma_scan_from_offset(a, b, j + 1);
        }
    }
}

proof fn lemma_scan_from_concat_aux(a: Seq<char>, b: Seq<char>, i: int)
    requires
        0 <= i <= a.len(),
        sealed_from(a, i),
    ensures
        scan_from(a + b, i) == scan_from(a, i) + scan_from(b, 0),
    decreases a.len() - i,
{
    let u = a + b;
    if i == a.len() {
        lemma_scan_from_offset(a, b, 0);
        assert(scan_from(a, i) + scan_from(b, 0) =~= scan_from(b, 0));
    } else if is_space_char(a[i]) {
        lemma_scan_from_concat_aux(a, b, i + 1);
    } else if a[i] == '/' && i + 1 < a.len() && a[i + 1] == '/' {
        let e = find_char(a, i + 2, '\n');
        lemma_find_char_bounds(a, i + 2, '\n');
        lemma_find_char_append(a, b, i + 2, '\n');
        lemma_scan_from_concat_aux(a, b, e);
    } else if a[i] == '/' && i + 1 < a.len() && a[i + 1] == '*' {
        let j = block_close(a, i + 2);
        lemma_block_close_bounds(a, i + 2);
        lemma_block_close_append(a, b, i + 2);
        lemma_scan_from_concat_aux(a, b, j + 2);
    } else if is_operator_char(a[i]) {
        lemma_scan_from_concat_aux(a, b, i + 1);
        assert(scan_from(u, i) =~= scan_from(a, i) + scan_from(b, 0));
    } else if is_symbol_char(a[i]) {
        lemma_scan_from_concat_aux(a, b, i + 1);
        assert(scan_from(u, i) =~= scan_from(a, i) + scan_from(b, 0));
    } else if is_digit_char(a[i]) {
        let e = digit_run_end(a, i);
        lemma_digit_run_end_bounds(a, i + 1);
        lemma_digit_run_end_append(a, b, i);
        assert(u.subrange(i, e) =~= a.subrange(i, e));
        lemma_scan_from_concat_aux(a, b, e);
        assert(scan_from(u, i) =~= scan_from(a, i) + scan_from(b, 0));
    } else if a[i] == '"' {
        let q = find_char(a, i + 1, '"');
        lemma_find_char_bounds(a, i + 1, '"');
        lemma_find_char_append(a, b, i + 1, '"');
        assert(u.subrange(i, q + 1) =~= a.subrange(i, q + 1));
        lemma_scan_from_concat_aux(a, b, q + 1);
        assert(scan_from(u, i) =~= scan_from(a, i) + scan_from(b, 0));
    } else {
        lemma_scan_from_concat_aux(a, b, i + 1);
        assert(scan_from(u, i) =~= scan_from(a, i) + scan_from(b, 0));
    }
}

/// Order preservation: when every lexeme of `a` is delimited inside `a`,
/// the scan of the concatenation is the concatenation of the scans, whatever
/// text follows.
pub proof fn lemma_scan_concat(a: Seq<char>, b: Seq<char>)
    requires
        sealed(a),
    ensures
        scan(a + b) == scan(a) + scan(b),
{
    lemma_scan_from_concat_aux(a, b, 0);
}

proof fn lemma_sealed_from_offset(a: Seq<char>, b: Seq<char>, j: int)
    requires
        0 <= j <= b.len(),
        sealed_from(b, j),
    ensures
        sealed_from(a + b, a.len() + j),
    decreases b.len() - j,
{
    let u = a + b;
    if j < b.len() {
        if is_space_char(b[j]) {
            lemma_sealed_from_offset(a, b, j + 1);
        } else if b[j] == '/' && j + 1 < b.len() && b[j + 1] == '/' {
            let e = find_char(b, j + 2, '\n');
            lemma_find_char_offset(a, b, j + 2, '\n');
            lemma_find_char_bounds(b, j + 2, '\n');
            lemma_sealed_from_offset(a, b, e);
        } else if b[j] == '/' && j + 1 < b.len() && b[j + 1] == '*' {
            let k = block_close(b, j + 2);
            lemma_block_close_offset(a, b, j + 2);
            lemma_block_close_bounds(b, j + 2);
            lemma_sealed_from_offset(a, b, k + 2);
        } else if is_operator_char(b[j]) {
            lemma_sealed_from_offset(a, b, j + 1);
        } else if is_symbol_char(b[j]) {
            lemma_sealed_from_offset(a, b, j + 1);
        } else if is_digit_char(b[j]) {
            let e = digit_run_end(b, j);
            lemma_digit_run_end_offset(a, b, j);
            lemma_digit_run_end_bounds(b, j + 1);
            lemma_sealed_from_offset(a, b, e);
        } else if b[j] == '"' {
            let q = find_char(b, j + 1, '"');
            lemma_find_char_offset(a, b, j + 1, '"');
            lemma_find_char_bounds(b, j + 1, '"');
            lemma_sealed_from_offset(a, b, q + 1);
        } else {
            lemma_sealed_from_offset(a, b, j + 1);
        }
    }
}

proof fn lemma_sealed_concat_aux(a: Seq<char>, b: Seq<char>, i: int)
    requires
        0 <= i <= a.len(),
        sealed_from(a, i),
        sealed(b),
    ensures
        sealed_from(a + b, i),
    decreases a.len() - i,
{
    if i == a.len() {
        lemma_sealed_from_offset(a, b, 0);
    } else if is_space_char(a[i]) {
        lemma_sealed_concat_aux(a, b, i + 1);
    } else if a[i] == '/' && i + 1 < a.len() && a[i + 1] == '/' {
        let e = find_char(a, i + 2, '\n');
        lemma_find_char_bounds(a, i + 2, '\n');
        lemma_find_char_append(a, b, i + 2, '\n');
        lemma_sealed_concat_aux(a, b, e);
    } else if a[i] == '/' && i + 1 < a.len() && a[i + 1] == '*' {
        let j = block_close(a, i + 2);
        lemma_block_close_bounds(a, i + 2);
        lemma_block_close_append(a, b, i + 2);
        lemma_sealed_concat_aux(a, b, j + 2);
    } else if is_operator_char(a[i]) {
        lemma_sealed_concat_aux(a, b, i + 1);
    } else if is_symbol_char(a[i]) {
        lemma_sealed_concat_aux(a, b, i + 1);
    } else if is_digit_char(a[i]) {
        let e = digit_run_end(a, i);
        lemma_digit_run_end_bounds(a, i + 1);
        lemma_digit_run_end_append(a, b, i);
        lemma_sealed_concat_aux(a, b, e);
    } else if a[i] == '"' {
        let q = find_char(a, i + 1, '"');
        lemma_find_char_bounds(a, i + 1, '"');
        lemma_find_char_append(a, b, i + 1, '"');
        lemma_sealed_concat_aux(a, b, q + 1);
    } else {
        lemma_sealed_concat_aux(a, b, i + 1);
    }
}

/// Sealed buffers compose: the laws above can be applied again across the
/// joint, so any number of insertions at sealed boundaries is covered.
pub proof fn lemma_sealed_concat(a: Seq<char>, b: Seq<char>)
    requires
        sealed(a),
        sealed(b),
    ensures
        sealed(a + b),
{
    lemma_sealed_concat_aux(a, b, 0);
}

proof fn lemma_whitespace_elides_from(w: Seq<char>, i: int)
    requires
        0 <= i <= w.len(),
        forall|k: int| 0 <= k < w.len() ==> is_space_char(w[k]),
    ensures
        sealed_from(w, i),
        scan_from(w, i) == Seq::<TokenView>::empty(),
    decreases w.len() - i,
{
    if i < w.len() {
        lemma_whitespace_elides_from(w, i + 1);
    }
}

/// A run of pure whitespace is sealed and contributes no token.
pub proof fn lemma_whitespace_elides(w: Seq<char>)
    requires
        forall|k: int| 0 <= k < w.len() ==> is_space_char(w[k]),
    ensures
        sealed(w),
        scan(w) == Seq::<TokenView>::empty(),
{
    lemma_whitespace_elides_from(w, 0);
}

/// Idempotence under formatting: inserting sealed, token-free filler --
/// a whitespace run, or a closed comment -- between two parts of a buffer
/// leaves the emitted token sequence unchanged.
pub proof fn lemma_format_insensitive(a: Seq<char>, w: Seq<char>, b: Seq<char>)
    requires
        sealed(a),
        sealed(w),
        scan(w) == Seq::<TokenView>::empty(),
    ensures
        scan(a + w + b) == scan(a + b),
{
    lemma_scan_concat(a, w + b);
    assert(a + w + b =~= a + (w + b));
    lemma_scan_concat(w, b);
    lemma_scan_concat(a, b);
    assert(scan(w) + scan(b) =~= scan(b));
}

proof fn lemma_find_char_absent(s: Seq<char>, i: int, c: char)
    requires
        0 <= i <= s.len(),
        forall|k: int| i <= k < s.len() ==> s[k] != c,
    ensures
        find_char(s, i, c) == s.len(),
    decreases s.len() - i,
{
    if i < s.len() {
        lemma_find_char_absent(s, i + 1, c);
    }
}

proof fn lemma_digit_run_end_all(d: Seq<char>, i: int)
    requires
        0 <= i <= d.len(),
        forall|k: int| i <= k < d.len() ==> is_digit_char(d[k]),
    ensures
        digit_run_end(d, i) == d.len(),
    decreases d.len() - i,
{
    if i < d.len() {
        lemma_digit_run_end_all(d, i + 1);
    }
}

proof fn lemma_block_close_found(s: Seq<char>, i: int, j: int)
    requires
        0 <= i <= j,
        j + 1 < s.len(),
        s[j] == '*',
        s[j + 1] == '/',
        forall|k: int| i <= k < j ==> !(#[trigger] s[k] == '*' && s[k + 1] == '/'),
    ensures
        block_close(s, i) == j,
    decreases j - i,
{
    if i < j {
        lemma_block_close_found(s, i + 1, j);
    }
}

/// Literal round-trip: a non-empty run of decimal digits scans to exactly
/// one numeric literal carrying those digits.
pub proof fn lemma_digit_run_scans_to_literal(d: Seq<char>)
    requires
        d.len() > 0,
        forall|k: int| 0 <= k < d.len() ==> is_digit_char(d[k]),
    ensures
        scan(d) == seq![TokenView::NumericLiteral(d)],
{
    lemma_digit_run_end_all(d, 0);
    assert(!is_space_char(d[0]) && d[0] != '/' && !is_operator_char(d[0]) && !is_symbol_char(d[0]));
    assert(d.subrange(0, d.len() as int) =~= d);
    assert(scan_from(d, d.len() as int) =~= Seq::<TokenView>::empty());
    assert(scan(d) =~= seq![TokenView::NumericLiteral(d)]);
}

/// Comment elision, line form: `//` followed by any newline-free text scans
/// to no token at all.
pub proof fn lemma_line_comment_elided(s: Seq<char>)
    requires
        forall|k: int| 0 <= k < s.len() ==> s[k] != '\n',
    ensures
        scan(seq!['/', '/'] + s) == Seq::<TokenView>::empty(),
{
    let u = seq!['/', '/'] + s;
    assert(u[0] == '/' && u[1] == '/');
    assert forall|k: int| 2 <= k < u.len() implies u[k] != '\n' by {
        assert(u[k] == s[k - 2]);
    }
    lemma_find_char_absent(u, 2, '\n');
    assert(scan_from(u, u.len() as int) =~= Seq::<TokenView>::empty());
    assert(scan_from(u, 0) == scan_from(u, find_char(u, 2, '\n')));
}

/// Comment elision, block form: `/*`, any text free of `*/`, then `*/`
/// scans to no token at all, newlines included; the whole is sealed.
pub proof fn lemma_block_comment_elided(s: Seq<char>)
    requires
        forall|k: int| 0 <= k && k + 1 < s.len() ==> !(#[trigger] s[k] == '*' && s[k + 1] == '/'),
    ensures
        scan(seq!['/', '*'] + s + seq!['*', '/']) == Seq::<TokenView>::empty(),
        sealed(seq!['/', '*'] + s + seq!['*', '/']),
{
    let u = seq!['/', '*'] + s + seq!['*', '/'];
    let j = 2 + s.len() as int;
    assert(u.len() == s.len() + 4);
    assert(u[0] == '/' && u[1] == '*');
    assert(u[j] == '*' && u[j + 1] == '/');
    assert forall|k: int| 2 <= k < j implies !(#[trigger] u[k] == '*' && u[k + 1] == '/') by {
        assert(u[k] == s[k - 2]);
        if k + 1 < j {
            assert(u[k + 1] == s[k - 1]);
        } else {
            assert(u[k + 1] == '*');
        }
    }
    lemma_block_close_found(u, 2, j);
    assert(scan_from(u, u.len() as int) =~= Seq::<TokenView>::empty());
    assert(sealed_from(u, u.len() as int));
    assert(scan_from(u, 0) == scan_from(u, j + 2));
    assert(sealed_from(u, 0) == sealed_from(u, j + 2));
}

/// Unterminated string: an opening quote never followed by a closing quote
/// scans to exactly one `Invalid` marker, and the scan stops there.
pub proof fn lemma_unterminated_string_invalid(s: Seq<char>)
    requires
        forall|k: int| 0 <= k < s.len() ==> s[k] != '"',
    ensures
        scan(seq!['"'] + s) == seq![TokenView::Symbol(Symbol::Invalid)],
{
    let u = seq!['"'] + s;
    assert(u[0] == '"');
    assert forall|k: int| 1 <= k < u.len() implies u[k] != '"' by {
        assert(u[k] == s[k - 1]);
    }
    lemma_find_char_absent(u, 1, '"');
}

} // verus!
