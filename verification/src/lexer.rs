use vstd::prelude::*;
use vstd::string::StrSliceExecFns;
use crate::token::{Token, TokenModel};

verus! {

// ---------------------------------------------------------------------------
// Character classes.
//
// Whitespace is space, tab and newline.  A word starts with a letter and
// continues through letters and underscores; a number is a run of decimal
// digits.  The NUL character doubles as the end-of-input sentinel, so it
// belongs to no class.
// ---------------------------------------------------------------------------

/// Whitespace: space, tab or newline.
pub open spec fn is_ws_char(c: char) -> bool {
    c == ' ' || c == '\t' || c == '\n'
}

/// An ASCII letter.
pub open spec fn is_letter_char(c: char) -> bool {
    ('a' as u32) <= (c as u32) && (c as u32) <= ('z' as u32) || ('A' as u32) <= (c as u32) && (c
        as u32) <= ('Z' as u32)
}

/// A character that may continue a word: a letter or an underscore.
pub open spec fn is_word_char(c: char) -> bool {
    is_letter_char(c) || c == '_'
}

/// An ASCII decimal digit.
pub open spec fn is_digit_char(c: char) -> bool {
    ('0' as u32) <= (c as u32) && (c as u32) <= ('9' as u32)
}

/// The numeric value of a decimal digit character.
pub open spec fn digit_val(c: char) -> int {
    c as u32 - '0' as u32
}

fn is_ws(c: char) -> (b: bool)
    ensures
        b == is_ws_char(c),
{
    c == ' ' || c == '\t' || c == '\n'
}

fn is_letter(c: char) -> (b: bool)
    ensures
        b == is_letter_char(c),
{
    let u = c as u32;
    ('a' as u32) <= u && u <= ('z' as u32) || ('A' as u32) <= u && u <= ('Z' as u32)
}

fn is_word(c: char) -> (b: bool)
    ensures
        b == is_word_char(c),
{
    is_letter(c) || c == '_'
}

fn is_digit(c: char) -> (b: bool)
    ensures
        b == is_digit_char(c),
{
    let u = c as u32;
    ('0' as u32) <= u && u <= ('9' as u32)
}

// ---------------------------------------------------------------------------
// Scanning positions.
// ---------------------------------------------------------------------------

/// The character at `pos`, with NUL standing in for end of input.
pub open spec fn char_at(input: Seq<char>, pos: int) -> char {
    if 0 <= pos < input.len() {
        input[pos]
    } else {
        '\0'
    }
}

/// The first position at or after `pos` that does not hold whitespace.
pub open spec fn skip_ws_from(input: Seq<char>, pos: int) -> int
    decreases input.len() - pos,
{
    if 0 <= pos < input.len() && is_ws_char(input[pos]) {
        skip_ws_from(input, pos + 1)
    } else {
        pos
    }
}

/// The first position at or after `pos` that does not hold a word character.
pub open spec fn word_end(input: Seq<char>, pos: int) -> int
    decreases input.len() - pos,
{
    if 0 <= pos < input.len() && is_word_char(input[pos]) {
        word_end(input, pos + 1)
    } else {
        pos
    }
}

/// The first position at or after `pos` that does not hold a digit.
pub open spec fn digits_end(input: Seq<char>, pos: int) -> int
    decreases input.len() - pos,
{
    if 0 <= pos < input.len() && is_digit_char(input[pos]) {
        digits_end(input, pos + 1)
    } else {
        pos
    }
}

/// The first position at or after `pos` holding a closing quote or the NUL
/// sentinel, or the end of input.
pub open spec fn string_end(input: Seq<char>, pos: int) -> int
    decreases input.len() - pos,
{
    if 0 <= pos < input.len() && input[pos] != '"' && input[pos] != '\0' {
        string_end(input, pos + 1)
    } else {
        pos
    }
}

proof fn lemma_skip_ws_bounds(input: Seq<char>, pos: int)
    requires
        0 <= pos <= input.len(),
    ensures
        pos <= skip_ws_from(input, pos) <= input.len(),
    decreases input.len() - pos,
{
    if pos < input.len() && is_ws_char(input[pos]) {
        lemma_skip_ws_bounds(input, pos + 1);
    }
}

proof fn lemma_word_end_bounds(input: Seq<char>, pos: int)
    requires
        0 <= pos <= input.len(),
    ensures
        pos <= word_end(input, pos) <= input.len(),
    decreases input.len() - pos,
{
    if pos < input.len() && is_word_char(input[pos]) {
        lemma_word_end_bounds(input, pos + 1);
    }
}

proof fn lemma_digits_end_bounds(input: Seq<char>, pos: int)
    requires
        0 <= pos <= input.len(),
    ensures
        pos <= digits_end(input, pos) <= input.len(),
    decreases input.len() - pos,
{
    if pos < input.len() && is_digit_char(input[pos]) {
        lemma_digits_end_bounds(input, pos + 1);
    }
}

proof fn lemma_string_end_bounds(input: Seq<char>, pos: int)
    requires
        0 <= pos <= input.len(),
    ensures
        pos <= string_end(input, pos) <= input.len(),
    decreases input.len() - pos,
{
    if pos < input.len() && input[pos] != '"' && input[pos] != '\0' {
        lemma_string_end_bounds(input, pos + 1);
    }
}

// ---------------------------------------------------------------------------
// Token values.
// ---------------------------------------------------------------------------

/// The value of a run of decimal digits, most significant first.
pub open spec fn spec_digits_val(s: Seq<char>) -> int
    decreases s.len(),
{
    if s.len() == 0 {
        0
    } else {
        spec_digits_val(s.drop_last()) * 10 + digit_val(s.last())
    }
}

/// The 64-bit value carried by a number token: the digit run's value, or 0
/// when it does not fit in a signed 64-bit integer.
pub open spec fn spec_number_value(s: Seq<char>) -> i64 {
    if spec_digits_val(s) > i64::MAX {
        0
    } else {
        spec_digits_val(s) as i64
    }
}

/// The token for a word starting at `pos` (which must hold a letter): a
/// keyword, a two-word compound, or an identifier.  A failed compound match
/// falls back to an identifier for the first word, with the second word
/// already consumed.
pub open spec fn spec_word_token(input: Seq<char>, pos: int) -> (TokenModel, int) {
    let e = word_end(input, pos);
    let w = input.subrange(pos, e);
    if w == "touch"@ {
        let p2 = skip_ws_from(input, e);
        let e2 = word_end(input, p2);
        if input.subrange(p2, e2) == "grass"@ {
            (TokenModel::TouchGrass, e2)
        } else {
            (TokenModel::Identifier("touch"@), e2)
        }
    } else if w == "fr"@ {
        let p2 = skip_ws_from(input, e);
        let e2 = word_end(input, p2);
        if input.subrange(p2, e2) == "fr"@ {
            (TokenModel::FrFr, e2)
        } else {
            (TokenModel::Identifier("fr"@), e2)
        }
    } else if w == "go"@ {
        (TokenModel::Go, e)
    } else if w == "outside"@ {
        (TokenModel::Outside, e)
    } else if w == "if"@ {
        (TokenModel::If, e)
    } else if w == "then"@ {
        (TokenModel::Then, e)
    } else if w == "instead"@ {
        (TokenModel::Instead, e)
    } else if w == "print"@ {
        (TokenModel::Print, e)
    } else if w == "as"@ {
        (TokenModel::As, e)
    } else if w == "number"@ {
        (TokenModel::NumberType, e)
    } else if w == "cap"@ {
        (TokenModel::Cap, e)
    } else if w == "no_cap"@ {
        (TokenModel::NoCap, e)
    } else if w == "bugatti"@ {
        (TokenModel::Bugatti, e)
    } else if w == "set"@ {
        (TokenModel::Assign, e)
    } else if w == "to"@ {
        (TokenModel::To, e)
    } else if w == "while"@ {
        (TokenModel::While, e)
    } else {
        (TokenModel::Identifier(w), e)
    }
}

/// The next token starting at `pos`, and the position just past it.
pub open spec fn spec_next_token(input: Seq<char>, pos: int) -> (TokenModel, int) {
    let p = skip_ws_from(input, pos);
    let c = char_at(input, p);
    if c == '\0' {
        (TokenModel::EOF, p)
    } else if c == '"' {
        let e = string_end(input, p + 1);
        if char_at(input, e) == '"' {
            (TokenModel::String(input.subrange(p + 1, e)), e + 1)
        } else {
            (TokenModel::String(input.subrange(p + 1, e)), e)
        }
    } else if c == '>' {
        (TokenModel::GreaterThan, p + 1)
    } else if c == '<' {
        (TokenModel::LessThan, p + 1)
    } else if c == '=' {
        (TokenModel::Equals, p + 1)
    } else if c == '+' {
        (TokenModel::Plus, p + 1)
    } else if c == '-' {
        (TokenModel::Minus, p + 1)
    } else if is_letter_char(c) {
        spec_word_token(input, p)
    } else if is_digit_char(c) {
        let e = digits_end(input, p);
        (TokenModel::Number(spec_number_value(input.subrange(p, e))), e)
    } else {
        (TokenModel::Illegal(c), p + 1)
    }
}

/// Whether the token starting at `pos` is a string literal that runs into
/// the end of input without a closing quote.
pub open spec fn spec_unterminated(input: Seq<char>, pos: int) -> bool {
    let p = skip_ws_from(input, pos);
    char_at(input, p) == '"' && char_at(input, string_end(input, p + 1)) != '"'
}

/// The next token starting at `pos` lies within the input, and any token
/// other than the end-of-input marker makes progress.
pub proof fn lemma_next_token_in_range(input: Seq<char>, pos: int)
    requires
        0 <= pos <= input.len(),
    ensures
        ({
            let (t, p) = spec_next_token(input, pos);
            pos <= p <= input.len() && (!(t is EOF) ==> p > pos)
        }),
{
    let p = skip_ws_from(input, pos);
    lemma_skip_ws_bounds(input, pos);
    let c = char_at(input, p);
    if c == '"' {
        lemma_string_end_bounds(input, p + 1);
    } else if is_letter_char(c) {
        let e = word_end(input, p);
        lemma_word_end_bounds(input, p + 1);
        assert(e == word_end(input, p + 1));
        let p2 = skip_ws_from(input, e);
        lemma_skip_ws_bounds(input, e);
        lemma_word_end_bounds(input, p2);
    } else if is_digit_char(c) {
        lemma_digits_end_bounds(input, p + 1);
        assert(digits_end(input, p) == digits_end(input, p + 1));
    }
}

/// The whole token stream of the input from `pos` on, ending just before
/// the end-of-input marker.
pub open spec fn spec_tokenize(input: Seq<char>, pos: int) -> Seq<TokenModel>
    decreases input.len() - pos,
    when 0 <= pos <= input.len()
    via spec_tokenize_decreases
{
    let (t, p) = spec_next_token(input, pos);
    if t is EOF {
        Seq::empty()
    } else {
        seq![t] + spec_tokenize(input, p)
    }
}

#[via_fn]
proof fn spec_tokenize_decreases(input: Seq<char>, pos: int) {
    lemma_next_token_in_range(input, pos);
}

/// The diagnostics issued while tokenizing the input from `pos` on: one
/// line for each unterminated string literal, in order.
pub open spec fn spec_lex_diags(input: Seq<char>, pos: int) -> Seq<Seq<char>>
    decreases input.len() - pos,
    when 0 <= pos <= input.len()
    via spec_lex_diags_decreases
{
    let (t, p) = spec_next_token(input, pos);
    if t is EOF {
        Seq::empty()
    } else {
        let here: Seq<Seq<char>> = if spec_unterminated(input, pos) {
            seq!["Error: Unterminated string literal"@]
        } else {
            Seq::empty()
        };
        here + spec_lex_diags(input, p)
    }
}

#[via_fn]
proof fn spec_lex_diags_decreases(input: Seq<char>, pos: int) {
    lemma_next_token_in_range(input, pos);
}

// ---------------------------------------------------------------------------
// String comparison.
// ---------------------------------------------------------------------------

/// Character-by-character string equality.
fn str_eq(a: &str, b: &str) -> (r: bool)
    ensures
        r == (a@ == b@),
{
    let n = a.unicode_len();
    if n != b.unicode_len() {
        return false;
    }
    let mut i: usize = 0;
    while i < n
        invariant
            i <= n,
            n == a@.len(),
            n == b@.len(),
            forall|j: int| 0 <= j < i ==> a@[j] == b@[j],
        decreases n - i,
    {
        if a.get_char(i) != b.get_char(i) {
            return false;
        }
        i = i + 1;
    }
    proof {
        assert(a@ =~= b@);
    }
    true
}

// ---------------------------------------------------------------------------
// The lexer.
// ---------------------------------------------------------------------------

/// The lexer: a cursor over the source text that hands out one token per
/// call to `next_token`.  The cursor only moves forward.
pub struct Lexer {
    input: String,
    len: usize,
    position: usize,
    read_position: usize,
    ch: char,
    diagnostics: Vec<String>,
}

impl Lexer {
    /// The source text.
    pub closed spec fn src(&self) -> Seq<char> {
        self.input@
    }

    /// The cursor position.
    pub closed spec fn pos(&self) -> int {
        self.position as int
    }

    /// The diagnostics issued so far.
    pub closed spec fn diags(&self) -> Seq<Seq<char>> {
        self.diagnostics@.map_values(|s: String| s@)
    }

    /// Well-formedness: the cached length matches the text, the read
    /// position sits one past the cursor, and the current character is the
    /// one under the cursor (NUL at end of input).
    pub closed spec fn wf(&self) -> bool {
        &&& self.len == self.input@.len()
        &&& self.len < usize::MAX
        &&& self.read_position == self.position + 1
        &&& self.position <= self.len
        &&& self.ch == char_at(self.input@, self.position as int)
    }

    /// Makes a lexer over the given source text, with the cursor on the
    /// first character.
    pub fn new(input: String) -> (l: Lexer)
        requires
            input@.len() < usize::MAX,
        ensures
            l.wf(),
            l.src() == input@,
            l.pos() == 0,
            l.diags() == Seq::<Seq<char>>::empty(),
    {
        let len = input.as_str().unicode_len();
        let ch = if len == 0 {
            '\0'
        } else {
            input.as_str().get_char(0)
        };
        let l = Lexer { input, len, position: 0, read_position: 1, ch, diagnostics: Vec::new() };
        proof {
            assert(l.diags() =~= Seq::<Seq<char>>::empty());
        }
        l
    }

    /// Hands the accumulated diagnostics over.
    pub fn into_diagnostics(self) -> (d: Vec<String>)
        ensures
            d@.map_values(|s: String| s@) == self.diags(),
    {
        self.diagnostics
    }

    /// Moves the cursor one character forward.
    fn read_char(&mut self)
        requires
            old(self).wf(),
            old(self).position < old(self).len,
        ensures
            final(self).wf(),
            final(self).input == old(self).input,
            final(self).len == old(self).len,
            final(self).diagnostics == old(self).diagnostics,
            final(self).position == old(self).position + 1,
    {
        if self.read_position >= self.len {
            self.ch = '\0';
        } else {
            self.ch = self.input.as_str().get_char(self.read_position);
        }
        self.position = self.read_position;
        self.read_position = self.read_position + 1;
    }

    /// Skips whitespace under the cursor.
    fn skip_whitespace(&mut self)
        requires
            old(self).wf(),
        ensures
            final(self).wf(),
            final(self).input == old(self).input,
            final(self).len == old(self).len,
            final(self).diagnostics == old(self).diagnostics,
            final(self).position as int == skip_ws_from(old(self).input@, old(self).position as int),
    {
        let ghost pos0 = self.position as int;
        while is_ws(self.ch)
            invariant
                self.wf(),
                self.input == old(self).input,
                self.len == old(self).len,
                self.diagnostics == old(self).diagnostics,
                skip_ws_from(self.input@, pos0) == skip_ws_from(self.input@, self.position as int),
            decreases self.len - self.position,
        {
            self.read_char();
        }
    }

    /// Reads a maximal run of word characters starting at the cursor.
    fn read_word(&mut self) -> (w: String)
        requires
            old(self).wf(),
        ensures
            final(self).wf(),
            final(self).input == old(self).input,
            final(self).len == old(self).len,
            final(self).diagnostics == old(self).diagnostics,
            final(self).position as int == word_end(old(self).input@, old(self).position as int),
            w@ == old(self).input@.subrange(
                old(self).position as int,
                word_end(old(self).input@, old(self).position as int),
            ),
    {
        let start = self.position;
        while is_word(self.ch)
            invariant
                self.wf(),
                self.input == old(self).input,
                self.len == old(self).len,
                self.diagnostics == old(self).diagnostics,
                start <= self.position,
                word_end(self.input@, start as int) == word_end(self.input@, self.position as int),
            decreases self.len - self.position,
        {
            self.read_char();
        }
        self.input.as_str().substring_char(start, self.position).to_owned()
    }

    /// Reads string-literal contents up to a closing quote or the end of
    /// input, consuming the closing quote when present and reporting an
    /// unterminated literal otherwise.
    fn read_string(&mut self) -> (s: String)
        requires
            old(self).wf(),
        ensures
            final(self).wf(),
            final(self).input == old(self).input,
            final(self).len == old(self).len,
            ({
                let e = string_end(old(self).input@, old(self).position as int);
                &&& s@ == old(self).input@.subrange(old(self).position as int, e)
                &&& (char_at(old(self).input@, e) == '"' ==> final(self).position as int == e + 1
                    && final(self).diagnostics == old(self).diagnostics)
                &&& (char_at(old(self).input@, e) != '"' ==> final(self).position as int == e
                    && final(self).diags() == old(self).diags().push(
                    "Error: Unterminated string literal"@,
                ))
            }),
    {
        let start = self.position;
        while self.ch != '"' && self.ch != '\0'
            invariant
                self.wf(),
                self.input == old(self).input,
                self.len == old(self).len,
                self.diagnostics == old(self).diagnostics,
                start <= self.position,
                string_end(self.input@, start as int) == string_end(
                    self.input@,
                    self.position as int,
                ),
            decreases self.len - self.position,
        {
            self.read_char();
        }
        let s = self.input.as_str().substring_char(start, self.position).to_owned();
        if self.ch == '"' {
            self.read_char();
        } else {
            let ghost diags0 = self.diags();
            self.diagnostics.push("Error: Unterminated string literal".to_owned());
            proof {
                assert(self.diags() =~= diags0.push("Error: Unterminated string literal"@));
            }
        }
        s
    }

    /// Reads a maximal run of digits starting at the cursor and returns its
    /// value, or 0 when the run does not fit in a signed 64-bit integer.
    fn read_number(&mut self) -> (n: i64)
        requires
            old(self).wf(),
        ensures
            final(self).wf(),
            final(self).input == old(self).input,
            final(self).len == old(self).len,
            final(self).diagnostics == old(self).diagnostics,
            final(self).position as int == digits_end(old(self).input@, old(self).position as int),
            n == spec_number_value(
                old(self).input@.subrange(
                    old(self).position as int,
                    digits_end(old(self).input@, old(self).position as int),
                ),
            ),
    {
        let start = self.position;
        let mut acc: u64 = 0;
        let mut over: bool = false;
        while is_digit(self.ch)
            invariant
                self.wf(),
                self.input == old(self).input,
                self.len == old(self).len,
                self.diagnostics == old(self).diagnostics,
                start <= self.position,
                digits_end(self.input@, start as int) == digits_end(
                    self.input@,
                    self.position as int,
                ),
                !over ==> acc == spec_digits_val(
                    self.input@.subrange(start as int, self.position as int),
                ),
                over ==> spec_digits_val(self.input@.subrange(start as int, self.position as int))
                    > u64::MAX,
                forall|j: int|
                    start <= j < self.position ==> is_digit_char(#[trigger] self.input@[j]),
            decreases self.len - self.position,
        {
            let ghost pre = self.input@.subrange(start as int, self.position as int);
            let d: u64 = (self.ch as u32 - 48) as u64;
            proof {
                assert(self.input@.subrange(start as int, self.position as int + 1).drop_last()
                    =~= pre);
                assert(self.input@.subrange(start as int, self.position as int + 1).last()
                    == self.ch);
            }
            if !over {
                match acc.checked_mul(10) {
                    Some(x) => match x.checked_add(d) {
                        Some(y) => { acc = y; },
                        None => { over = true; },
                    },
                    None => { over = true; },
                }
            }
            self.read_char();
        }
        if over || acc > (i64::MAX as u64) {
            proof {
                let s = self.input@.subrange(start as int, self.position as int);
                assert(spec_digits_val(s) > i64::MAX);
            }
            0
        } else {
            acc as i64
        }
    }

    /// Produces the next token, consuming exactly the characters that
    /// belong to it plus any whitespace skipped beforehand.  Past the end
    /// of input it returns the end-of-input marker, stably.
    pub fn next_token(&mut self) -> (t: Token)
        requires
            old(self).wf(),
        ensures
            final(self).wf(),
            final(self).src() == old(self).src(),
            ({
                let (tm, p) = spec_next_token(old(self).src(), old(self).pos());
                t@ == tm && final(self).pos() == p
            }),
            !spec_unterminated(old(self).src(), old(self).pos()) ==> final(self).diags() == old(
                self,
            ).diags(),
            spec_unterminated(old(self).src(), old(self).pos()) ==> final(self).diags() == old(
                self,
            ).diags().push("Error: Unterminated string literal"@),
    {
        self.skip_whitespace();

        if self.ch == '\0' {
            return Token::EOF;
        }
        if self.ch == '"' {
            self.read_char();
            let s = self.read_string();
            return Token::String(s);
        }
        if self.ch == '>' {
            self.read_char();
            return Token::GreaterThan;
        }
        if self.ch == '<' {
            self.read_char();
            return Token::LessThan;
        }
        if self.ch == '=' {
            self.read_char();
            return Token::Equals;
        }
        if self.ch == '+' {
            self.read_char();
            return Token::Plus;
        }
        if self.ch == '-' {
            self.read_char();
            return Token::Minus;
        }
        if is_letter(self.ch) {
            let w = self.read_word();
            if str_eq(w.as_str(), "touch") {
                self.skip_whitespace();
                let w2 = self.read_word();
                if str_eq(w2.as_str(), "grass") {
                    return Token::TouchGrass;
                } else {
                    return Token::Identifier("touch".to_owned());
                }
            }
            if str_eq(w.as_str(), "fr") {
                self.skip_whitespace();
                let w2 = self.read_word();
                if str_eq(w2.as_str(), "fr") {
                    return Token::FrFr;
                } else {
                    return Token::Identifier("fr".to_owned());
                }
            }
            if str_eq(w.as_str(), "go") {
                return Token::Go;
            }
            if str_eq(w.as_str(), "outside") {
                return Token::Outside;
            }
            if str_eq(w.as_str(), "if") {
                return Token::If;
            }
            if str_eq(w.as_str(), "then") {
                return Token::Then;
            }
            if str_eq(w.as_str(), "instead") {
                return Token::Instead;
            }
            if str_eq(w.as_str(), "print") {
                return Token::Print;
            }
            if str_eq(w.as_str(), "as") {
                return Token::As;
            }
            if str_eq(w.as_str(), "number") {
                return Token::NumberType;
            }
            if str_eq(w.as_str(), "cap") {
                return Token::Cap;
            }
            if str_eq(w.as_str(), "no_cap") {
                return Token::NoCap;
            }
            if str_eq(w.as_str(), "bugatti") {
                return Token::Bugatti;
            }
            if str_eq(w.as_str(), "set") {
                return Token::Assign;
            }
            if str_eq(w.as_str(), "to") {
                return Token::To;
            }
            if str_eq(w.as_str(), "while") {
                return Token::While;
            }
            return Token::Identifier(w);
        }
        if is_digit(self.ch) {
            let n = self.read_number();
            return Token::Number(n);
        }
        let c = self.ch;
        self.read_char();
        Token::Illegal(c)
    }
}

} // verus!
