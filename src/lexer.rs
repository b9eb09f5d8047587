use vstd::prelude::*;

verus! {

/// The lexical class of a raw token.
#[derive(Clone, Copy, PartialEq, Eq, Structural, Debug)]
pub enum RawTokenKind {
    Word,
    Number,
    Str,
    Symbol,
    Whitespace,
    Semicolon,
}

/// A lexeme of the source: its class, its characters and where it starts.
#[derive(Clone, Debug)]
pub struct RawToken {
    pub kind: RawTokenKind,
    pub text: Vec<char>,
    pub position: usize,
}

pub open spec fn is_word_start(c: char) -> bool {
    ('a' <= c && c <= 'z') || ('A' <= c && c <= 'Z') || c == '_'
}

pub open spec fn is_digit(c: char) -> bool {
    '0' <= c && c <= '9'
}

pub open spec fn is_word_char(c: char) -> bool {
    is_word_start(c) || is_digit(c)
}

pub open spec fn is_space(c: char) -> bool {
    c == ' ' || c == '\t' || c == '\n' || c == '\r'
}

/// `a` followed by `b` is one of `==`, `!=`, `<=`, `>=`, `&&`, `||`.
pub open spec fn is_two_char_operator(a: char, b: char) -> bool {
    ((a == '=' || a == '!' || a == '<' || a == '>') && b == '=') || (a == '&' && b == '&') || (a == '|' && b
        == '|')
}

/// Length of the run of word characters starting at `j`.
pub open spec fn word_run(src: Seq<char>, j: int) -> int
    decreases src.len() - j,
{
    if 0 <= j < src.len() && is_word_char(src[j]) {
        1 + word_run(src, j + 1)
    } else {
        0
    }
}

/// Length of the run of digits starting at `j`.
pub open spec fn digit_run(src: Seq<char>, j: int) -> int
    decreases src.len() - j,
{
    if 0 <= j < src.len() && is_digit(src[j]) {
        1 + digit_run(src, j + 1)
    } else {
        0
    }
}

/// Length of the run of whitespace starting at `j`.
pub open spec fn space_run(src: Seq<char>, j: int) -> int
    decreases src.len() - j,
{
    if 0 <= j < src.len() && is_space(src[j]) {
        1 + space_run(src, j + 1)
    } else {
        0
    }
}

/// Characters from `j` (inside a string literal) up to and including the closing
/// quote; a backslash takes the next character with it. Runs to the end when the
/// literal is not closed.
pub open spec fn string_rest(src: Seq<char>, j: int) -> int
    decreases src.len() - j,
{
    if j < 0 || j >= src.len() {
        0
    } else if src[j] == '\\' && j + 1 < src.len() {
        2 + string_rest(src, j + 2)
    } else if src[j] == '"' {
        1
    } else {
        1 + string_rest(src, j + 1)
    }
}

/// Class and length of the lexeme that starts at `i` (longest match).
pub open spec fn lexeme(src: Seq<char>, i: int) -> (RawTokenKind, int) {
    let c = src[i];
    if is_word_start(c) {
        (RawTokenKind::Word, word_run(src, i))
    } else if is_digit(c) {
        let d = digit_run(src, i);
        if i + d + 1 < src.len() && src[i + d] == '.' && is_digit(src[i + d + 1]) {
            (RawTokenKind::Number, d + 1 + digit_run(src, i + d + 1))
        } else {
            (RawTokenKind::Number, d)
        }
    } else if c == '"' {
        (RawTokenKind::Str, 1 + string_rest(src, i + 1))
    } else if is_space(c) {
        (RawTokenKind::Whitespace, space_run(src, i))
    } else if c == ';' {
        (RawTokenKind::Semicolon, 1)
    } else if i + 1 < src.len() && is_two_char_operator(c, src[i + 1]) {
        (RawTokenKind::Symbol, 2)
    } else {
        (RawTokenKind::Symbol, 1)
    }
}

proof fn lemma_lexeme_positive(src: Seq<char>, i: int)
    requires
        0 <= i < src.len(),
    ensures
        lexeme(src, i).1 >= 1,
        i + lexeme(src, i).1 <= src.len(),
{
    lemma_word_run_bound(src, i);
    lemma_digit_run_bound(src, i);
    lemma_space_run_bound(src, i);
    lemma_word_run_bound(src, i + 1);
    lemma_digit_run_bound(src, i + 1);
    lemma_space_run_bound(src, i + 1);
    lemma_string_rest_bound(src, i + 1);
    let d = digit_run(src, i);
    if i + d + 1 < src.len() {
        lemma_digit_run_bound(src, i + d + 1);
    }
}

proof fn lemma_word_run_bound(src: Seq<char>, j: int)
    requires
        0 <= j <= src.len(),
    ensures
        0 <= word_run(src, j) <= src.len() - j,
    decreases src.len() - j,
{
    if j < src.len() {
        lemma_word_run_bound(src, j + 1);
    }
}

proof fn lemma_digit_run_bound(src: Seq<char>, j: int)
    requires
        0 <= j <= src.len(),
    ensures
        0 <= digit_run(src, j) <= src.len() - j,
    decreases src.len() - j,
{
    if j < src.len() {
        lemma_digit_run_bound(src, j + 1);
    }
}

proof fn lemma_space_run_bound(src: Seq<char>, j: int)
    requires
        0 <= j <= src.len(),
    ensures
        0 <= space_run(src, j) <= src.len() - j,
    decreases src.len() - j,
{
    if j < src.len() {
        lemma_space_run_bound(src, j + 1);
    }
}

proof fn lemma_string_rest_bound(src: Seq<char>, j: int)
    requires
        0 <= j <= src.len(),
    ensures
        0 <= string_rest(src, j) <= src.len() - j,
    decreases src.len() - j,
{
    if j < src.len() {
        if src[j] == '\\' && j + 1 < src.len() {
            lemma_string_rest_bound(src, j + 2);
        } else if src[j] != '"' {
            lemma_string_rest_bound(src, j + 1);
        }
    }
}

/// The lexemes of `src` from `i` on, as (class, start, length); whitespace is left out
/// when `strip` is set.
pub open spec fn lexed(src: Seq<char>, i: int, strip: bool) -> Seq<(RawTokenKind, int, int)>
    decreases src.len() - i,
{
    if i < 0 || i >= src.len() {
        Seq::empty()
    } else {
        let (k, n) = lexeme(src, i);
        if n < 1 || i + n > src.len() {
            Seq::empty()
        } else {
            let rest = lexed(src, i + n, strip);
            if strip && k == RawTokenKind::Whitespace {
                rest
            } else {
                seq![(k, i, n)] + rest
            }
        }
    }
}

/// A raw token as (class, start, length).
pub open spec fn token_shape(t: RawToken) -> (RawTokenKind, int, int) {
    (t.kind, t.position as int, t.text@.len() as int)
}

fn char_is_word_start(c: char) -> (r: bool)
    ensures
        r == is_word_start(c),
{
    ('a' <= c && c <= 'z') || ('A' <= c && c <= 'Z') || c == '_'
}

fn char_is_digit(c: char) -> (r: bool)
    ensures
        r == is_digit(c),
{
    '0' <= c && c <= '9'
}

fn char_is_space(c: char) -> (r: bool)
    ensures
        r == is_space(c),
{
    c == ' ' || c == '\t' || c == '\n' || c == '\r'
}

fn scan_word(src: &Vec<char>, start: usize) -> (r: usize)
    requires
        start <= src@.len(),
    ensures
        r == word_run(src@, start as int),
{
    let mut j = start;
    while j < src.len() && (char_is_word_start(src[j]) || char_is_digit(src[j]))
        invariant
            start <= j <= src@.len(),
            word_run(src@, start as int) == (j - start) + word_run(src@, j as int),
        decreases src@.len() - j,
    {
        j += 1;
    }
    j - start
}

fn scan_digits(src: &Vec<char>, start: usize) -> (r: usize)
    requires
        start <= src@.len(),
    ensures
        r == digit_run(src@, start as int),
{
    let mut j = start;
    while j < src.len() && char_is_digit(src[j])
        invariant
            start <= j <= src@.len(),
            digit_run(src@, start as int) == (j - start) + digit_run(src@, j as int),
        decreases src@.len() - j,
    {
        j += 1;
    }
    j - start
}

fn scan_space(src: &Vec<char>, start: usize) -> (r: usize)
    requires
        start <= src@.len(),
    ensures
        r == space_run(src@, start as int),
{
    let mut j = start;
    while j < src.len() && char_is_space(src[j])
        invariant
            start <= j <= src@.len(),
            space_run(src@, start as int) == (j - start) + space_run(src@, j as int),
        decreases src@.len() - j,
    {
        j += 1;
    }
    j - start
}

fn scan_string(src: &Vec<char>, start: usize) -> (r: usize)
    requires
        start <= src@.len(),
    ensures
        r == string_rest(src@, start as int),
{
    let mut j = start;
    loop
        invariant
            start <= j <= src@.len(),
            string_rest(src@, start as int) == (j - start) + string_rest(src@, j as int),
        decreases src@.len() - j,
    {
        if j >= src.len() {
            return j - start;
        }
        if src[j] == '\\' && j + 1 < src.len() {
            j += 2;
        } else if src[j] == '"' {
            return j + 1 - start;
        } else {
            j += 1;
        }
    }
}

fn is_operator_pair(a: char, b: char) -> (r: bool)
    ensures
        r == is_two_char_operator(a, b),
{
    ((a == '=' || a == '!' || a == '<' || a == '>') && b == '=') || (a == '&' && b == '&') || (a == '|' && b == '|')
}

fn scan_lexeme(src: &Vec<char>, i: usize) -> (r: (RawTokenKind, usize))
    requires
        i < src@.len(),
    ensures
        r.0 == lexeme(src@, i as int).0,
        r.1 == lexeme(src@, i as int).1,
{
    proof {
        lemma_lexeme_positive(src@, i as int);
        lemma_string_rest_bound(src@, i + 1);
    }
    let total = src.len();
    let c = src[i];
    if char_is_word_start(c) {
        (RawTokenKind::Word, scan_word(src, i))
    } else if char_is_digit(c) {
        let d = scan_digits(src, i);
        proof {
            lemma_digit_run_bound(src@, i as int);
        }
        if i + d < total - 1 && src[i + d] == '.' && char_is_digit(src[i + d + 1]) {
            let e = scan_digits(src, i + d + 1);
            (RawTokenKind::Number, d + 1 + e)
        } else {
            (RawTokenKind::Number, d)
        }
    } else if c == '"' {
        (RawTokenKind::Str, 1 + scan_string(src, i + 1))
    } else if char_is_space(c) {
        (RawTokenKind::Whitespace, scan_space(src, i))
    } else if c == ';' {
        (RawTokenKind::Semicolon, 1)
    } else if i < src.len() - 1 && is_operator_pair(c, src[i + 1]) {
        (RawTokenKind::Symbol, 2)
    } else {
        (RawTokenKind::Symbol, 1)
    }
}

/// Splits source characters into lexemes, longest match first: identifiers and
/// keywords, decimal integers and decimals, double-quoted strings (a backslash escapes
/// the next character), runs of whitespace, semicolons, the two-character operators
/// `== != <= >= && ||`, and any other character on its own. Whitespace is left out
/// when `strip_whitespace` is set. Never fails.
pub fn tokenize(source: &Vec<char>, strip_whitespace: bool) -> (r: Vec<RawToken>)
    ensures
        r@.map_values(|t: RawToken| token_shape(t)) == lexed(source@, 0, strip_whitespace),
        forall|k: int|
            0 <= k < r@.len() ==> (#[trigger] r@[k]).text@ == source@.subrange(
                r@[k].position as int,
                r@[k].position + r@[k].text@.len(),
            ),
{
    let mut result: Vec<RawToken> = Vec::new();
    let total = source.len();
    let mut i: usize = 0;
    while i < source.len()
        invariant
            i <= source@.len(),
            total == source@.len(),
            lexed(source@, 0, strip_whitespace) == result@.map_values(|t: RawToken| token_shape(t)) + lexed(
                source@,
                i as int,
                strip_whitespace,
            ),
            forall|k: int|
                0 <= k < result@.len() ==> (#[trigger] result@[k]).text@ == source@.subrange(
                    result@[k].position as int,
                    result@[k].position + result@[k].text@.len(),
                ),
        decreases source@.len() - i,
    {
        let (kind, n) = scan_lexeme(source, i);
        proof {
            lemma_lexeme_positive(source@, i as int);
        }
        let ghost before = result@;
        if !(strip_whitespace && kind == RawTokenKind::Whitespace) {
            let mut text: Vec<char> = Vec::new();
            let mut k: usize = 0;
            while k < n
                invariant
                    k <= n,
                    i + n <= source@.len(),
                    total == source@.len(),
                    text@ == source@.subrange(i as int, i + k),
                decreases n - k,
            {
                text.push(source[i + k]);
                proof {
                    assert(source@.subrange(i as int, i + k + 1) =~= source@.subrange(i as int, i + k).push(
                        source@[i + k],
                    ));
                }
                k += 1;
            }
            result.push(RawToken { kind, text, position: i });
            proof {
                assert(result@.map_values(|t: RawToken| token_shape(t)) =~= before.map_values(
                    |t: RawToken| token_shape(t),
                ) + seq![(kind, i as int, n as int)]);
            }
        }
        i = i + n;
    }
    proof {
        assert(lexed(source@, i as int, strip_whitespace) =~= Seq::empty());
    }
    result
}

} // verus!
