//! Lexical tokens and the tokenizer.
//!
//! The tokenizer scans the (already lowercased) source text left to right and
//! extracts, with this priority at each position: a word (optional leading
//! colons, letters, optionally one trailing digit), a signed decimal number,
//! or a punctuation mark (`[ ] != == < > + - * /`). Characters that start no
//! such shape are skipped, so tokenizing never fails. Words are mapped to
//! keywords (long names and their two-letter aliases), variable references
//! (leading colon) or bare identifiers.

use vstd::prelude::*;
use vstd::string::{StrSliceExecFns, StringExecFns};
use crate::num::{clip, Num, RAW_MAX};

verus! {

/// A lexical token. Numbers carry the fixed-point value of the literal.
#[derive(Clone, Debug, PartialEq)]
pub enum Token {
    Clear,
    Setpos,
    Penup,
    Pendown,
    Setcolor,
    Setpensize,
    Forward,
    Back,
    Right,
    Left,
    Arc,
    Circle,
    Repeat,
    LBracket,
    RBracket,
    To,
    End,
    Number(Num),
    Ident(String),
    Var(String),
    If,
    Gtr,
    Less,
    Eq,
    Neq,
    Add,
    Sub,
    Mul,
    Div,
}

/// The mathematical image of a [`Token`]: numbers as unbounded integers
/// (raw fixed-point units), names as character sequences.
pub ghost enum TokenV {
    Clear,
    Setpos,
    Penup,
    Pendown,
    Setcolor,
    Setpensize,
    Forward,
    Back,
    Right,
    Left,
    Arc,
    Circle,
    Repeat,
    LBracket,
    RBracket,
    To,
    End,
    Number(int),
    Ident(Seq<char>),
    Var(Seq<char>),
    If,
    Gtr,
    Less,
    Eq,
    Neq,
    Add,
    Sub,
    Mul,
    Div,
}

pub open spec fn token_view(t: Token) -> TokenV {
    match t {
        Token::Clear => TokenV::Clear,
        Token::Setpos => TokenV::Setpos,
        Token::Penup => TokenV::Penup,
        Token::Pendown => TokenV::Pendown,
        Token::Setcolor => TokenV::Setcolor,
        Token::Setpensize => TokenV::Setpensize,
        Token::Forward => TokenV::Forward,
        Token::Back => TokenV::Back,
        Token::Right => TokenV::Right,
        Token::Left => TokenV::Left,
        Token::Arc => TokenV::Arc,
        Token::Circle => TokenV::Circle,
        Token::Repeat => TokenV::Repeat,
        Token::LBracket => TokenV::LBracket,
        Token::RBracket => TokenV::RBracket,
        Token::To => TokenV::To,
        Token::End => TokenV::End,
        Token::Number(n) => TokenV::Number(n@),
        Token::Ident(s) => TokenV::Ident(s@),
        Token::Var(s) => TokenV::Var(s@),
        Token::If => TokenV::If,
        Token::Gtr => TokenV::Gtr,
        Token::Less => TokenV::Less,
        Token::Eq => TokenV::Eq,
        Token::Neq => TokenV::Neq,
        Token::Add => TokenV::Add,
        Token::Sub => TokenV::Sub,
        Token::Mul => TokenV::Mul,
        Token::Div => TokenV::Div,
    }
}

pub open spec fn tokens_view(ts: Seq<Token>) -> Seq<TokenV> {
    ts.map_values(|t: Token| token_view(t))
}

// ---------------------------------------------------------------------------
// Character classes
// ---------------------------------------------------------------------------

pub open spec fn is_colon_c(c: char) -> bool {
    c == ':'
}

pub open spec fn is_letter_c(c: char) -> bool {
    (97 <= c as u32 && c as u32 <= 122) || (65 <= c as u32 && c as u32 <= 90)
}

pub open spec fn is_digit_c(c: char) -> bool {
    48 <= c as u32 && c as u32 <= 57
}

pub open spec fn digit_val(c: char) -> int {
    c as u32 - 48
}

// ---------------------------------------------------------------------------
// Spans: length of the prefix on which a predicate holds
// ---------------------------------------------------------------------------

pub open spec fn span_of(s: Seq<char>, p: spec_fn(char) -> bool) -> nat
    decreases s.len(),
{
    if s.len() > 0 && p(s[0]) {
        (1 + span_of(s.drop_first(), p)) as nat
    } else {
        0
    }
}

pub proof fn lemma_span_of(s: Seq<char>, p: spec_fn(char) -> bool)
    ensures
        span_of(s, p) <= s.len(),
        forall|j: int| 0 <= j < span_of(s, p) ==> p(s[j]),
        span_of(s, p) < s.len() ==> !p(s[span_of(s, p) as int]),
    decreases s.len(),
{
    if s.len() > 0 && p(s[0]) {
        lemma_span_of(s.drop_first(), p);
        assert forall|j: int| 0 <= j < span_of(s, p) implies p(s[j]) by {
            if j > 0 {
                assert(s.drop_first()[j - 1] == s[j]);
            }
        }
    }
}

/// The span is the unique length with these properties.
pub proof fn lemma_span_of_is(s: Seq<char>, p: spec_fn(char) -> bool, n: nat)
    requires
        n <= s.len(),
        forall|j: int| 0 <= j < n ==> p(s[j]),
        n < s.len() ==> !p(s[n as int]),
    ensures
        span_of(s, p) == n,
    decreases s.len(),
{
    if s.len() > 0 && p(s[0]) {
        assert(n > 0);
        assert forall|j: int| 0 <= j < n - 1 implies p(s.drop_first()[j]) by {
            assert(s.drop_first()[j] == s[j + 1]);
        }
        assert(n - 1 < s.drop_first().len() ==> !p(s.drop_first()[n - 1]));
        lemma_span_of_is(s.drop_first(), p, (n - 1) as nat);
    } else {
        assert(n == 0);
    }
}

// ---------------------------------------------------------------------------
// Numeric literals
// ---------------------------------------------------------------------------

/// Value of a digit sequence read most-significant first.
pub open spec fn digits_value(s: Seq<char>) -> int
    decreases s.len(),
{
    if s.len() == 0 {
        0
    } else {
        digits_value(s.drop_last()) * 10 + digit_val(s.last())
    }
}

pub open spec fn pow10(n: nat) -> int
    decreases n,
{
    if n == 0 {
        1
    } else {
        10 * pow10((n - 1) as nat)
    }
}

pub proof fn lemma_digits_value_bounds(s: Seq<char>)
    requires
        forall|j: int| 0 <= j < s.len() ==> is_digit_c(s[j]),
    ensures
        0 <= digits_value(s) < pow10(s.len()),
    decreases s.len(),
{
    if s.len() > 0 {
        lemma_digits_value_bounds(s.drop_last());
    }
}

/// Fractional digits contribute at the model's four-digit resolution:
/// the first four count, anything further is dropped.
pub open spec fn frac_value(s: Seq<char>) -> int {
    if s.len() >= 4 {
        digits_value(s.subrange(0, 4))
    } else {
        digits_value(s) * pow10((4 - s.len()) as nat)
    }
}

// ---------------------------------------------------------------------------
// Matching at the head of the text
// ---------------------------------------------------------------------------

/// Length of a word (colons, letters, at most one trailing digit) starting
/// at the head of `s`; zero when no word starts there.
pub open spec fn word_len(s: Seq<char>) -> nat {
    let nc = span_of(s, |c: char| is_colon_c(c));
    let nl = span_of(s.skip(nc as int), |c: char| is_letter_c(c));
    if nl == 0 {
        0
    } else {
        let base = nc + nl;
        if base < s.len() && is_digit_c(s[base as int]) {
            base + 1
        } else {
            base
        }
    }
}

/// Length of a signed decimal literal starting at the head of `s`;
/// zero when none starts there. A fractional part needs a digit after
/// the dot to count.
pub open spec fn num_len(s: Seq<char>) -> nat {
    let start: nat = if s.len() > 0 && s[0] == '-' {
        1
    } else {
        0
    };
    let ni = span_of(s.skip(start as int), |c: char| is_digit_c(c));
    if ni == 0 {
        0
    } else {
        let p = start + ni;
        if p < s.len() && s[p as int] == '.' && p + 1 < s.len() && is_digit_c(s[p as int + 1]) {
            let nf = span_of(s.skip(p as int + 1), |c: char| is_digit_c(c));
            p + 1 + nf
        } else {
            p
        }
    }
}

/// Fixed-point value of the literal at the head of `s` (meaningful when
/// `num_len(s) > 0`): integer part scaled, the first four fraction digits
/// added, the whole clipped into the representable range.
pub open spec fn num_value(s: Seq<char>) -> int
    recommends
        num_len(s) > 0,
{
    let neg = s.len() > 0 && s[0] == '-';
    let start: nat = if neg {
        1
    } else {
        0
    };
    let ni = span_of(s.skip(start as int), |c: char| is_digit_c(c));
    let ip = s.subrange(start as int, (start + ni) as int);
    let p = start + ni;
    let frac = if p < s.len() && s[p as int] == '.' && p + 1 < s.len() && is_digit_c(
        s[p as int + 1],
    ) {
        let nf = span_of(s.skip(p as int + 1), |c: char| is_digit_c(c));
        s.subrange(p as int + 1, (p + 1 + nf) as int)
    } else {
        Seq::<char>::empty()
    };
    let mag = digits_value(ip) * 10000 + frac_value(frac);
    clip(
        if neg {
            -mag
        } else {
            mag
        },
    )
}

/// Length of a punctuation token at the head of `s`; zero when none.
pub open spec fn punct_len(s: Seq<char>) -> nat {
    if s.len() == 0 {
        0
    } else {
        let c = s[0];
        if c == '[' || c == ']' || c == '<' || c == '>' || c == '+' || c == '-' || c == '*' || c
            == '/' {
            1
        } else if (c == '!' || c == '=') && s.len() >= 2 && s[1] == '=' {
            2
        } else {
            0
        }
    }
}

pub open spec fn punct_tok(s: Seq<char>) -> TokenV
    recommends
        punct_len(s) > 0,
{
    let c = s[0];
    if c == '[' {
        TokenV::LBracket
    } else if c == ']' {
        TokenV::RBracket
    } else if c == '<' {
        TokenV::Less
    } else if c == '>' {
        TokenV::Gtr
    } else if c == '+' {
        TokenV::Add
    } else if c == '-' {
        TokenV::Sub
    } else if c == '*' {
        TokenV::Mul
    } else if c == '/' {
        TokenV::Div
    } else if c == '!' {
        TokenV::Neq
    } else {
        TokenV::Eq
    }
}

/// Keyword table: long names and their aliases; otherwise a variable
/// reference (leading colon) or a bare identifier.
pub open spec fn classify_word(w: Seq<char>) -> TokenV {
    if w == "clear"@ || w == "cs"@ {
        TokenV::Clear
    } else if w == "setpos"@ {
        TokenV::Setpos
    } else if w == "penup"@ || w == "pu"@ {
        TokenV::Penup
    } else if w == "pendown"@ || w == "pd"@ {
        TokenV::Pendown
    } else if w == "setcolor"@ || w == "sc"@ {
        TokenV::Setcolor
    } else if w == "setpensize"@ || w == "ps"@ {
        TokenV::Setpensize
    } else if w == "forward"@ || w == "fd"@ {
        TokenV::Forward
    } else if w == "circle"@ || w == "ci"@ {
        TokenV::Circle
    } else if w == "arc"@ {
        TokenV::Arc
    } else if w == "back"@ || w == "bk"@ {
        TokenV::Back
    } else if w == "right"@ || w == "rt"@ {
        TokenV::Right
    } else if w == "left"@ || w == "lt"@ {
        TokenV::Left
    } else if w == "repeat"@ || w == "rp"@ {
        TokenV::Repeat
    } else if w == "to"@ {
        TokenV::To
    } else if w == "end"@ {
        TokenV::End
    } else if w == "if"@ {
        TokenV::If
    } else if w.len() > 0 && w[0] == ':' {
        TokenV::Var(w)
    } else {
        TokenV::Ident(w)
    }
}

// ---------------------------------------------------------------------------
// The tokenizer
// ---------------------------------------------------------------------------

/// The token stream of `s`: at each position the longest word, else a
/// number, else punctuation; characters starting none of these are skipped.
pub open spec fn spec_tokenize(s: Seq<char>) -> Seq<TokenV>
    decreases s.len(),
    via spec_tokenize_dec
{
    if s.len() == 0 {
        Seq::empty()
    } else {
        let wl = word_len(s);
        let nl = num_len(s);
        let pl = punct_len(s);
        if wl > 0 {
            seq![classify_word(s.take(wl as int))] + spec_tokenize(s.skip(wl as int))
        } else if nl > 0 {
            seq![TokenV::Number(num_value(s))] + spec_tokenize(s.skip(nl as int))
        } else if pl > 0 {
            seq![punct_tok(s)] + spec_tokenize(s.skip(pl as int))
        } else {
            spec_tokenize(s.skip(1))
        }
    }
}

#[via_fn]
proof fn spec_tokenize_dec(s: Seq<char>) {
    lemma_match_lens(s);
}

// ---------------------------------------------------------------------------
// Executable scanner
// ---------------------------------------------------------------------------

fn is_letter(c: char) -> (b: bool)
    ensures
        b == is_letter_c(c),
{
    let u = c as u32;
    (97 <= u && u <= 122) || (65 <= u && u <= 90)
}

fn is_digit(c: char) -> (b: bool)
    ensures
        b == is_digit_c(c),
{
    let u = c as u32;
    48 <= u && u <= 57
}

fn str_eq(a: &str, b: &str) -> (r: bool)
    ensures
        r == (a@ == b@),
{
    String::from_str(a) == String::from_str(b)
}

fn to_chars(s: &str) -> (r: Vec<char>)
    ensures
        r@ == s@,
{
    let n = s.unicode_len();
    let mut v: Vec<char> = Vec::new();
    let mut i: usize = 0;
    while i < n
        invariant
            i <= n,
            n == s@.len(),
            v@ == s@.take(i as int),
        decreases n - i,
    {
        v.push(s.get_char(i));
        assert(s@.take(i as int).push(s@[i as int]) =~= s@.take(i + 1));
        i += 1;
    }
    assert(s@.take(n as int) =~= s@);
    v
}

fn scan_colons(chars: &Vec<char>, start: usize) -> (k: usize)
    requires
        start <= chars@.len(),
    ensures
        start <= k <= chars@.len(),
        (k - start) as nat == span_of(chars@.skip(start as int), |c: char| is_colon_c(c)),
{
    let n = chars.len();
    let mut k: usize = start;
    while k < n && chars[k] == ':'
        invariant
            start <= k <= n,
            n == chars@.len(),
            forall|j: int| start <= j < k ==> is_colon_c(chars@[j]),
        decreases n - k,
    {
        k += 1;
    }
    proof {
        let s = chars@.skip(start as int);
        assert forall|j: int| 0 <= j < k - start implies is_colon_c(s[j]) by {
            assert(s[j] == chars@[start + j]);
        }
        if ((k - start) as int) < s.len() {
            assert(s[(k - start) as int] == chars@[k as int]);
        }
        lemma_span_of_is(s, |c: char| is_colon_c(c), (k - start) as nat);
    }
    k
}

fn scan_letters(chars: &Vec<char>, start: usize) -> (k: usize)
    requires
        start <= chars@.len(),
    ensures
        start <= k <= chars@.len(),
        (k - start) as nat == span_of(chars@.skip(start as int), |c: char| is_letter_c(c)),
{
    let n = chars.len();
    let mut k: usize = start;
    while k < n && is_letter(chars[k])
        invariant
            start <= k <= n,
            n == chars@.len(),
            forall|j: int| start <= j < k ==> is_letter_c(chars@[j]),
        decreases n - k,
    {
        k += 1;
    }
    proof {
        let s = chars@.skip(start as int);
        assert forall|j: int| 0 <= j < k - start implies is_letter_c(s[j]) by {
            assert(s[j] == chars@[start + j]);
        }
        if ((k - start) as int) < s.len() {
            assert(s[(k - start) as int] == chars@[k as int]);
        }
        lemma_span_of_is(s, |c: char| is_letter_c(c), (k - start) as nat);
    }
    k
}

fn scan_digits(chars: &Vec<char>, start: usize) -> (k: usize)
    requires
        start <= chars@.len(),
    ensures
        start <= k <= chars@.len(),
        (k - start) as nat == span_of(chars@.skip(start as int), |c: char| is_digit_c(c)),
{
    let n = chars.len();
    let mut k: usize = start;
    while k < n && is_digit(chars[k])
        invariant
            start <= k <= n,
            n == chars@.len(),
            forall|j: int| start <= j < k ==> is_digit_c(chars@[j]),
        decreases n - k,
    {
        k += 1;
    }
    proof {
        let s = chars@.skip(start as int);
        assert forall|j: int| 0 <= j < k - start implies is_digit_c(s[j]) by {
            assert(s[j] == chars@[start + j]);
        }
        if ((k - start) as int) < s.len() {
            assert(s[(k - start) as int] == chars@[k as int]);
        }
        lemma_span_of_is(s, |c: char| is_digit_c(c), (k - start) as nat);
    }
    k
}

/// Digit-run value, saturating at 2^63 (anything at or above it clips later).
fn read_digits(chars: &Vec<char>, from: usize, to: usize) -> (v: i128)
    requires
        from <= to <= chars@.len(),
        forall|j: int| from <= j < to ==> is_digit_c(chars@[j]),
    ensures
        0 <= v <= 9223372036854775808i128,
        v < 9223372036854775808i128 ==> v == digits_value(chars@.subrange(from as int, to as int)),
        v == 9223372036854775808i128 ==> digits_value(chars@.subrange(from as int, to as int))
            >= 9223372036854775808,
{
    let mut v: i128 = 0;
    let mut j: usize = from;
    while j < to
        invariant
            from <= j <= to <= chars@.len(),
            forall|jj: int| from <= jj < to ==> is_digit_c(chars@[jj]),
            0 <= v <= 9223372036854775808i128,
            v < 9223372036854775808i128 ==> v == digits_value(
                chars@.subrange(from as int, j as int),
            ),
            v == 9223372036854775808i128 ==> digits_value(chars@.subrange(from as int, j as int))
                >= 9223372036854775808,
        decreases to - j,
    {
        let ghost pre = chars@.subrange(from as int, j as int);
        let ghost post = chars@.subrange(from as int, j + 1);
        proof {
            assert(post.drop_last() =~= pre);
            assert(post.last() == chars@[j as int]);
            lemma_digits_value_bounds(pre);
        }
        let d: i128 = (chars[j] as u32 - 48) as i128;
        if v < 9223372036854775808i128 {
            let v2: i128 = v * 10 + d;
            if v2 >= 9223372036854775808i128 {
                v = 9223372036854775808i128;
                proof {
                    assert(digits_value(post) == v2 >= 9223372036854775808);
                }
            } else {
                v = v2;
            }
        } else {
            proof {
                let dv = digits_value(pre);
                assert(digits_value(post) == dv * 10 + digit_val(chars@[j as int]));
                assert(dv * 10 == dv + 9 * dv);
            }
        }
        j += 1;
    }
    v
}

/// Parse the literal with integer digits in `[ds, de)` and fraction digits
/// in `[fs, fe)` (an empty range when there is no fraction).
fn parse_number(chars: &Vec<char>, ds: usize, de: usize, fs: usize, fe: usize, neg: bool) -> (r:
    Num)
    requires
        ds <= de <= chars@.len(),
        fs <= fe <= chars@.len(),
        forall|j: int| ds <= j < de ==> is_digit_c(chars@[j]),
        forall|j: int| fs <= j < fe ==> is_digit_c(chars@[j]),
    ensures
        ({
            let mag = digits_value(chars@.subrange(ds as int, de as int)) * 10000 + frac_value(
                chars@.subrange(fs as int, fe as int),
            );
            r@ == clip(
                if neg {
                    -mag
                } else {
                    mag
                },
            )
        }),
{
    let ghost ipart = chars@.subrange(ds as int, de as int);
    let ghost fpart = chars@.subrange(fs as int, fe as int);
    let vi = read_digits(chars, ds, de);
    let flen: usize = fe - fs;
    let use4: usize = if flen > 4 {
        4
    } else {
        flen
    };
    let vf = read_digits(chars, fs, fs + use4);
    proof {
        reveal_with_fuel(pow10, 6);
        lemma_digits_value_bounds(chars@.subrange(fs as int, (fs + use4) as int));
        if flen >= 4 {
            assert(fpart.subrange(0, 4) =~= chars@.subrange(fs as int, (fs + use4) as int));
        } else {
            assert(fpart =~= chars@.subrange(fs as int, (fs + use4) as int));
        }
    }
    let pad: i128 = if use4 == 0 {
        10000
    } else if use4 == 1 {
        1000
    } else if use4 == 2 {
        100
    } else if use4 == 3 {
        10
    } else {
        1
    };
    let fr: i128 = vf * pad;
    proof {
        assert(0 <= fr < 10000);
        assert(fr == frac_value(fpart));
    }
    if vi == 9223372036854775808i128 {
        proof {
            let mag = digits_value(ipart) * 10000 + frac_value(fpart);
            assert(digits_value(ipart) * 10000 >= 9223372036854775808i128 * 10000);
            assert(mag > RAW_MAX as int);
        }
        if neg {
            Num { raw: -RAW_MAX }
        } else {
            Num { raw: RAW_MAX }
        }
    } else {
        let w: i128 = vi * 10000 + fr;
        let w2: i128 = if neg {
            -w
        } else {
            w
        };
        Num { raw: crate::num::clamp_raw(w2) }
    }
}

/// Map a scanned word to its token: keyword, variable, or identifier.
fn classify(sub: &str, first_colon: bool) -> (t: Token)
    requires
        sub@.len() > 0,
        first_colon == (sub@[0] == ':'),
    ensures
        token_view(t) == classify_word(sub@),
{
    if str_eq(sub, "clear") || str_eq(sub, "cs") {
        Token::Clear
    } else if str_eq(sub, "setpos") {
        Token::Setpos
    } else if str_eq(sub, "penup") || str_eq(sub, "pu") {
        Token::Penup
    } else if str_eq(sub, "pendown") || str_eq(sub, "pd") {
        Token::Pendown
    } else if str_eq(sub, "setcolor") || str_eq(sub, "sc") {
        Token::Setcolor
    } else if str_eq(sub, "setpensize") || str_eq(sub, "ps") {
        Token::Setpensize
    } else if str_eq(sub, "forward") || str_eq(sub, "fd") {
        Token::Forward
    } else if str_eq(sub, "circle") || str_eq(sub, "ci") {
        Token::Circle
    } else if str_eq(sub, "arc") {
        Token::Arc
    } else if str_eq(sub, "back") || str_eq(sub, "bk") {
        Token::Back
    } else if str_eq(sub, "right") || str_eq(sub, "rt") {
        Token::Right
    } else if str_eq(sub, "left") || str_eq(sub, "lt") {
        Token::Left
    } else if str_eq(sub, "repeat") || str_eq(sub, "rp") {
        Token::Repeat
    } else if str_eq(sub, "to") {
        Token::To
    } else if str_eq(sub, "end") {
        Token::End
    } else if str_eq(sub, "if") {
        Token::If
    } else if first_colon {
        Token::Var(String::from_str(sub))
    } else {
        Token::Ident(String::from_str(sub))
    }
}

/// Match a word starting at position `i`; `None` when no word starts there.
#[verifier::rlimit(60)]
fn match_word(chars: &Vec<char>, src: &str, i: usize) -> (res: Option<(Token, usize)>)
    requires
        chars@ == src@,
        i < chars@.len(),
    ensures
        match res {
            Some((t, l)) => {
                let rest = src@.skip(i as int);
                &&& 1 <= l && i + l <= chars@.len()
                &&& word_len(rest) == l
                &&& token_view(t) == classify_word(rest.take(l as int))
            },
            None => word_len(src@.skip(i as int)) == 0,
        },
{
    let ghost rest = src@.skip(i as int);
    let n = chars.len();
    let k1 = scan_colons(chars, i);
    let k2 = scan_letters(chars, k1);
    proof {
        assert(src@.skip(i as int).skip((k1 - i) as int) =~= src@.skip(k1 as int));
    }
    if k2 > k1 {
        let kw: usize = if k2 < n && is_digit(chars[k2]) {
            k2 + 1
        } else {
            k2
        };
        proof {
            if ((k2 - i) as int) < rest.len() {
                assert(rest[(k2 - i) as int] == src@[k2 as int]);
            }
            assert(word_len(rest) == kw - i);
            assert(rest.take((kw - i) as int) =~= src@.subrange(i as int, kw as int));
            assert(rest[0] == src@[i as int]);
            assert(src@.subrange(i as int, kw as int)[0] == src@[i as int]);
        }
        let sub = src.substring_char(i, kw);
        let t = classify(sub, chars[i] == ':');
        proof {
            assert(classify_word(sub@) == classify_word(rest.take((kw - i) as int)));
        }
        Some((t, kw - i))
    } else {
        None
    }
}

/// Match a numeric literal starting at position `i`.
#[verifier::rlimit(60)]
fn match_number(chars: &Vec<char>, src: &str, i: usize) -> (res: Option<(Token, usize)>)
    requires
        chars@ == src@,
        i < chars@.len(),
    ensures
        match res {
            Some((t, l)) => {
                let rest = src@.skip(i as int);
                &&& 1 <= l && i + l <= chars@.len()
                &&& num_len(rest) == l
                &&& token_view(t) == TokenV::Number(num_value(rest))
            },
            None => num_len(src@.skip(i as int)) == 0,
        },
{
    let ghost rest = src@.skip(i as int);
    let n = chars.len();
    let neg = chars[i] == '-';
    let ds: usize = if neg {
        i + 1
    } else {
        i
    };
    proof {
        assert(rest[0] == src@[i as int]);
    }
    if ds > n {
        return None;
    }
    let de = scan_digits(chars, ds);
    proof {
        assert(src@.skip(i as int).skip((ds - i) as int) =~= src@.skip(ds as int));
    }
    if de == ds {
        return None;
    }
    let mut fs: usize = de;
    let mut fe: usize = de;
    let mut endpos: usize = de;
    if de < n && chars[de] == '.' && de + 1 < n && is_digit(chars[de + 1]) {
        let f2 = scan_digits(chars, de + 1);
        fs = de + 1;
        fe = f2;
        endpos = f2;
        proof {
            assert(src@.skip(i as int).skip((de + 1 - i) as int) =~= src@.skip(de + 1));
        }
    }
    proof {
        if ((de - i) as int) < rest.len() {
            assert(rest[(de - i) as int] == src@[de as int]);
        }
        if ((de - i) as int) + 1 < rest.len() {
            assert(rest[(de - i) as int + 1] == src@[de as int + 1]);
        }
        assert(num_len(rest) == endpos - i);
        assert(rest.subrange((ds - i) as int, (de - i) as int) =~= src@.subrange(
            ds as int,
            de as int,
        ));
        if fe > fs {
            assert(rest.subrange((fs - i) as int, (fe - i) as int) =~= src@.subrange(
                fs as int,
                fe as int,
            ));
        } else {
            assert(src@.subrange(fs as int, fe as int) =~= Seq::<char>::empty());
        }
        lemma_span_of(chars@.skip(ds as int), |c: char| is_digit_c(c));
        assert forall|j: int| ds <= j < de implies is_digit_c(chars@[j]) by {
            assert(chars@.skip(ds as int)[j - ds] == chars@[j]);
        }
        if fe > fs {
            lemma_span_of(chars@.skip(fs as int), |c: char| is_digit_c(c));
            assert forall|j: int| fs <= j < fe implies is_digit_c(chars@[j]) by {
                assert(chars@.skip(fs as int)[j - fs] == chars@[j]);
            }
        }
    }
    let v = parse_number(chars, ds, de, fs, fe, neg);
    proof {
        assert(num_value(rest) == v@);
    }
    Some((Token::Number(v), endpos - i))
}

/// Match a punctuation token starting at position `i`.
fn match_punct(chars: &Vec<char>, src: &str, i: usize) -> (res: Option<(Token, usize)>)
    requires
        chars@ == src@,
        i < chars@.len(),
    ensures
        match res {
            Some((t, l)) => {
                let rest = src@.skip(i as int);
                &&& 1 <= l && i + l <= chars@.len()
                &&& punct_len(rest) == l
                &&& token_view(t) == punct_tok(rest)
            },
            None => punct_len(src@.skip(i as int)) == 0,
        },
{
    let ghost rest = src@.skip(i as int);
    let n = chars.len();
    let c = chars[i];
    proof {
        assert(rest[0] == src@[i as int]);
        if 1 < rest.len() {
            assert(rest[1] == src@[i as int + 1]);
        }
    }
    if c == '[' {
        Some((Token::LBracket, 1))
    } else if c == ']' {
        Some((Token::RBracket, 1))
    } else if c == '<' {
        Some((Token::Less, 1))
    } else if c == '>' {
        Some((Token::Gtr, 1))
    } else if c == '+' {
        Some((Token::Add, 1))
    } else if c == '-' {
        Some((Token::Sub, 1))
    } else if c == '*' {
        Some((Token::Mul, 1))
    } else if c == '/' {
        Some((Token::Div, 1))
    } else if (c == '!' || c == '=') && i + 1 < n && chars[i + 1] == '=' {
        if c == '!' {
            Some((Token::Neq, 2))
        } else {
            Some((Token::Eq, 2))
        }
    } else {
        None
    }
}

/// Find the token starting at position `i`, with the count of characters
/// it covers; `None` skips one character that starts no token.
fn next_token(chars: &Vec<char>, src: &str, i: usize) -> (res: (Option<Token>, usize))
    requires
        chars@ == src@,
        i < chars@.len(),
    ensures
        1 <= res.1 && i + res.1 <= chars@.len(),
        match res.0 {
            Some(t) => spec_tokenize(src@.skip(i as int)) == seq![token_view(t)]
                + spec_tokenize(src@.skip(i + res.1)),
            None => res.1 == 1 && spec_tokenize(src@.skip(i as int)) == spec_tokenize(
                src@.skip(i + 1),
            ),
        },
{
    let ghost rest = src@.skip(i as int);
    let mut step: usize = 1;
    let mut tok: Option<Token> = None;
    if let Some((t, l)) = match_word(chars, src, i) {
        tok = Some(t);
        step = l;
    } else if let Some((t, l)) = match_number(chars, src, i) {
        tok = Some(t);
        step = l;
    } else if let Some((t, l)) = match_punct(chars, src, i) {
        tok = Some(t);
        step = l;
    }
    proof {
        assert(rest.skip(step as int) =~= src@.skip(i + step));
        match &tok {
            Some(t) => {
                assert(spec_tokenize(rest) == seq![token_view(*t)] + spec_tokenize(
                    rest.skip(step as int),
                ));
            },
            None => {
                assert(word_len(rest) == 0 && num_len(rest) == 0 && punct_len(rest) == 0);
            },
        }
    }
    (tok, step)
}

/// Tokenize (already lowercased) source text.
pub(crate) fn tokenize(src: &str) -> (r: Vec<Token>)
    ensures
        tokens_view(r@) == spec_tokenize(src@),
{
    let chars = to_chars(src);
    let n = chars.len();
    let mut out: Vec<Token> = Vec::new();
    let mut i: usize = 0;
    proof {
        assert(src@.skip(0) =~= src@);
        assert(tokens_view(out@) =~= Seq::<TokenV>::empty());
        assert(Seq::<TokenV>::empty() + spec_tokenize(src@) =~= spec_tokenize(src@));
    }
    while i < n
        invariant
            i <= n,
            n == chars@.len(),
            chars@ == src@,
            spec_tokenize(src@) == tokens_view(out@) + spec_tokenize(src@.skip(i as int)),
        decreases n - i,
    {
        let ghost pre_out = out@;
        let (tok, step) = next_token(&chars, src, i);
        match tok {
            Some(t) => {
                let ghost tv = token_view(t);
                out.push(t);
                proof {
                    assert(tokens_view(out@) =~= tokens_view(pre_out).push(tv));
                    assert(tokens_view(out@) + spec_tokenize(src@.skip(i + step))
                        =~= tokens_view(pre_out) + spec_tokenize(src@.skip(i as int)));
                }
            },
            None => {},
        }
        i += step;
    }
    proof {
        assert(src@.skip(n as int) =~= Seq::<char>::empty());
        assert(tokens_view(out@) + Seq::<TokenV>::empty() =~= tokens_view(out@));
    }
    out
}

pub proof fn lemma_match_lens(s: Seq<char>)
    ensures
        word_len(s) <= s.len(),
        num_len(s) <= s.len(),
        punct_len(s) <= s.len(),
{
    lemma_span_of(s, |c: char| is_colon_c(c));
    let nc = span_of(s, |c: char| is_colon_c(c));
    lemma_span_of(s.skip(nc as int), |c: char| is_letter_c(c));
    let start: nat = if s.len() > 0 && s[0] == '-' {
        1
    } else {
        0
    };
    lemma_span_of(s.skip(start as int), |c: char| is_digit_c(c));
    let ni = span_of(s.skip(start as int), |c: char| is_digit_c(c));
    if ni > 0 {
        let p = start + ni;
        if p < s.len() && s[p as int] == '.' && p + 1 < s.len() && is_digit_c(s[p as int + 1]) {
            lemma_span_of(s.skip(p as int + 1), |c: char| is_digit_c(c));
        }
    }
}

} // verus!
