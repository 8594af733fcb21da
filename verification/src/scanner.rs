use crate::tokens::{token_models, Token, TokenModel, TokenType};
use vstd::prelude::*;
use vstd::string::StrSliceExecFns;
use vstd::string::StringExecFns;

verus! {

// ---------------------------------------------------------------------------
// Character classes
//
// The scanner classifies characters with the Unicode-aware predicates of
// `char`. Their exact extension is not restated here; each gets a name, and
// the scan is specified over those names.
// ---------------------------------------------------------------------------

/// Whether `char::is_numeric` holds of `c`.
pub uninterp spec fn is_numeric_char(c: char) -> bool;

/// Whether `char::is_alphabetic` holds of `c`.
pub uninterp spec fn is_alphabetic_char(c: char) -> bool;

/// Relies on char::is_numeric: the classification depends on the character
/// alone.
#[verifier::external_body]
fn char_numeric(c: char) -> (r: bool)
    ensures
        r == is_numeric_char(c),
{
    c.is_numeric()
}

/// Relies on char::is_alphabetic: the classification depends on the
/// character alone.
#[verifier::external_body]
fn char_alphabetic(c: char) -> (r: bool)
    ensures
        r == is_alphabetic_char(c),
{
    c.is_alphabetic()
}

/// Relies on char::is_alphanumeric, documented as holding exactly when
/// char::is_alphabetic or char::is_numeric holds.
#[verifier::external_body]
fn char_alphanumeric(c: char) -> (r: bool)
    ensures
        r == (is_alphabetic_char(c) || is_numeric_char(c)),
{
    c.is_alphanumeric()
}

// ---------------------------------------------------------------------------
// Diagnostics
// ---------------------------------------------------------------------------

/// What a lexical diagnostic reports. Both kinds are recoverable: scanning
/// continues with the next character.
#[derive(Debug, Clone, Copy, PartialEq, Eq, Structural)]
pub enum DiagnosticKind {
    /// A character no lexeme can start with; it is discarded.
    UnexpectedCharacter(char),
    /// A string literal still open when the input ended.
    UnterminatedString,
}

/// The mathematical value of a diagnostic.
#[verifier::ext_equal]
pub ghost struct DiagnosticModel {
    pub line: nat,
    pub kind: DiagnosticKind,
}

/// A problem found during one scan pass, tagged with the 1-based source line
/// it was found on.
#[derive(Debug, Clone, Copy, PartialEq, Eq, Structural)]
pub struct Diagnostic {
    pub line: usize,
    pub kind: DiagnosticKind,
}

impl View for Diagnostic {
    type V = DiagnosticModel;

    open spec fn view(&self) -> DiagnosticModel {
        DiagnosticModel { line: self.line as nat, kind: self.kind }
    }
}

/// The models of a sequence of diagnostics, element for element.
pub open spec fn diagnostic_models(ds: Seq<Diagnostic>) -> Seq<DiagnosticModel> {
    ds.map_values(|d: Diagnostic| d@)
}

/// Mapping a diagnostic sequence commutes with appending one diagnostic.
pub proof fn lemma_diagnostic_models_push(ds: Seq<Diagnostic>, d: Diagnostic)
    ensures
        diagnostic_models(ds.push(d)) == diagnostic_models(ds) + seq![d@],
{
    assert(diagnostic_models(ds.push(d)) =~= diagnostic_models(ds) + seq![d@]);
}

// ---------------------------------------------------------------------------
// The specification of one scan pass
// ---------------------------------------------------------------------------

/// The index just past the maximal run of numeric characters starting at `i`.
pub open spec fn digit_run_end(s: Seq<char>, i: nat) -> nat
    decreases s.len() - i,
{
    if i >= s.len() {
        i
    } else if is_numeric_char(s[i as int]) {
        digit_run_end(s, i + 1)
    } else {
        i
    }
}

/// The index just past the maximal run of alphanumeric characters starting
/// at `i`.
pub open spec fn alnum_run_end(s: Seq<char>, i: nat) -> nat
    decreases s.len() - i,
{
    if i >= s.len() {
        i
    } else if is_alphabetic_char(s[i as int]) || is_numeric_char(s[i as int]) {
        alnum_run_end(s, i + 1)
    } else {
        i
    }
}

/// The first index at or after `i` holding a closing `"`, or the input's
/// length when there is none: where the body of a string literal ends.
pub open spec fn string_body_end(s: Seq<char>, i: nat) -> nat
    decreases s.len() - i,
{
    if i >= s.len() {
        i
    } else if s[i as int] == '"' {
        i
    } else {
        string_body_end(s, i + 1)
    }
}

/// The first index at or after `i` holding a newline, or the input's length:
/// where a line comment's discarded text ends (the newline itself stays).
pub open spec fn comment_end(s: Seq<char>, i: nat) -> nat
    decreases s.len() - i,
{
    if i >= s.len() {
        i
    } else if s[i as int] == '\n' {
        i
    } else {
        comment_end(s, i + 1)
    }
}

/// How many newline characters `s[i..j)` holds.
pub open spec fn newline_count(s: Seq<char>, i: nat, j: nat) -> nat
    decreases j,
{
    if j <= i {
        0
    } else {
        newline_count(s, i, (j - 1) as nat) + if s[j as int - 1] == '\n' {
            1nat
        } else {
            0nat
        }
    }
}

/// The index just past a number lexeme whose digits continue at `i`: the
/// maximal digit run, then a fractional part exactly when a `.` follows and
/// the character after it is again a digit (so a trailing `.` is never
/// absorbed).
pub open spec fn number_end(s: Seq<char>, i: nat) -> nat {
    let d = digit_run_end(s, i);
    if d < s.len() && s[d as int] == '.' && d + 1 < s.len() && is_numeric_char(
        s[d as int + 1],
    ) {
        digit_run_end(s, d + 2)
    } else {
        d
    }
}

/// The keyword table: the category of an identifier-shaped lexeme — the
/// matching reserved word's category if the text is one of the sixteen
/// reserved words, and Identifier otherwise. A fixed, read-only mapping,
/// written as a pure function so any number of concurrent scans may consult
/// it.
pub open spec fn identifier_type(s: Seq<char>) -> TokenType {
    if s.len() == 2 {
        if s[0] == 'i' && s[1] == 'f' {
            TokenType::If
        } else if s[0] == 'o' && s[1] == 'r' {
            TokenType::Or
        } else {
            TokenType::Identifier
        }
    } else if s.len() == 3 {
        if s[0] == 'a' && s[1] == 'n' && s[2] == 'd' {
            TokenType::And
        } else if s[0] == 'f' && s[1] == 'o' && s[2] == 'r' {
            TokenType::For
        } else if s[0] == 'f' && s[1] == 'u' && s[2] == 'n' {
            TokenType::Fun
        } else if s[0] == 'n' && s[1] == 'i' && s[2] == 'l' {
            TokenType::Nil
        } else if s[0] == 'v' && s[1] == 'a' && s[2] == 'r' {
            TokenType::Var
        } else {
            TokenType::Identifier
        }
    } else if s.len() == 4 {
        if s[0] == 'e' && s[1] == 'l' && s[2] == 's' && s[3] == 'e' {
            TokenType::Else
        } else if s[0] == 't' && s[1] == 'h' && s[2] == 'i' && s[3] == 's' {
            TokenType::This
        } else if s[0] == 't' && s[1] == 'r' && s[2] == 'u' && s[3] == 'e' {
            TokenType::True
        } else {
            TokenType::Identifier
        }
    } else if s.len() == 5 {
        if s[0] == 'c' && s[1] == 'l' && s[2] == 'a' && s[3] == 's' && s[4] == 's' {
            TokenType::Class
        } else if s[0] == 'f' && s[1] == 'a' && s[2] == 'l' && s[3] == 's' && s[4] == 'e' {
            TokenType::False
        } else if s[0] == 'p' && s[1] == 'r' && s[2] == 'i' && s[3] == 'n' && s[4] == 't' {
            TokenType::Print
        } else if s[0] == 's' && s[1] == 'u' && s[2] == 'p' && s[3] == 'e' && s[4] == 'r' {
            TokenType::Super
        } else if s[0] == 'w' && s[1] == 'h' && s[2] == 'i' && s[3] == 'l' && s[4] == 'e' {
            TokenType::While
        } else {
            TokenType::Identifier
        }
    } else if s.len() == 6 {
        if s[0] == 'r' && s[1] == 'e' && s[2] == 't' && s[3] == 'u' && s[4] == 'r' && s[5]
            == 'n' {
            TokenType::Return
        } else {
            TokenType::Identifier
        }
    } else {
        TokenType::Identifier
    }
}

/// The category a fixed single-character lexeme emits, or None when the
/// character is not such punctuation (`/` is handled apart, for comments).
pub open spec fn single_char_type(c: char) -> Option<TokenType> {
    if c == '(' {
        Some(TokenType::LeftParen)
    } else if c == ')' {
        Some(TokenType::RightParen)
    } else if c == '{' {
        Some(TokenType::LeftBrace)
    } else if c == '}' {
        Some(TokenType::RightBrace)
    } else if c == ',' {
        Some(TokenType::Comma)
    } else if c == '.' {
        Some(TokenType::Dot)
    } else if c == '-' {
        Some(TokenType::Minus)
    } else if c == '+' {
        Some(TokenType::Plus)
    } else if c == ';' {
        Some(TokenType::SemiColon)
    } else if c == '*' {
        Some(TokenType::Star)
    } else {
        None
    }
}

/// The characters that may begin a two-character operator, resolved with one
/// character of lookahead.
pub open spec fn is_lookahead_char(c: char) -> bool {
    c == '!' || c == '=' || c == '<' || c == '>'
}

/// The two-character operator emitted when a lookahead character is followed
/// by `=`.
pub open spec fn with_equal_type(c: char) -> TokenType {
    if c == '!' {
        TokenType::BangEqual
    } else if c == '=' {
        TokenType::EqualEqual
    } else if c == '<' {
        TokenType::LessEqual
    } else {
        TokenType::GreaterEqual
    }
}

/// The one-character operator emitted when a lookahead character is not
/// followed by `=`.
pub open spec fn alone_type(c: char) -> TokenType {
    if c == '!' {
        TokenType::Bang
    } else if c == '=' {
        TokenType::Equal
    } else if c == '<' {
        TokenType::Less
    } else {
        TokenType::Greater
    }
}

/// Everything one scan pass produces from a given position onward: the
/// remaining token stream — always ending in the Eof token — and the
/// remaining diagnostics, in order.
#[verifier::ext_equal]
pub ghost struct ScanOutput {
    pub tokens: Seq<TokenModel>,
    pub diags: Seq<DiagnosticModel>,
}

/// One token model.
pub open spec fn tok(t: TokenType, lexeme: Seq<char>, line: nat) -> TokenModel {
    TokenModel { token_type: t, lexeme, line }
}

/// Where the lexeme that starts at `i` ends: the cursor's position after
/// one step of the scan, classified from `s[i]` exactly as the scanner's
/// per-lexeme algorithm reads it. (`i` must lie on a character.)
pub open spec fn step_end(s: Seq<char>, i: nat) -> nat {
    let c = s[i as int];
    if single_char_type(c) is Some {
        i + 1
    } else if is_lookahead_char(c) {
        if i + 1 < s.len() && s[i as int + 1] == '=' {
            i + 2
        } else {
            i + 1
        }
    } else if c == ' ' || c == '\r' || c == '\t' || c == '\n' {
        i + 1
    } else if c == '"' {
        let e = string_body_end(s, i + 1);
        if e < s.len() {
            e + 1
        } else {
            e
        }
    } else if c == '/' {
        if i + 1 < s.len() && s[i as int + 1] == '/' {
            comment_end(s, i + 2)
        } else {
            i + 1
        }
    } else if is_numeric_char(c) {
        number_end(s, i + 1)
    } else if is_alphabetic_char(c) {
        alnum_run_end(s, i + 1)
    } else {
        i + 1
    }
}

/// The line counter after the lexeme that starts at `i` on line `line`: one
/// more for a consumed newline, one more per newline embedded in a string
/// literal's body, and unchanged otherwise. (Only a newline or a `"` can
/// reach a line-changing branch of the scan, so those two cases suffice.)
pub open spec fn step_line(s: Seq<char>, i: nat, line: nat) -> nat {
    let c = s[i as int];
    if c == '\n' {
        line + 1
    } else if c == '"' {
        line + newline_count(s, i + 1, string_body_end(s, i + 1))
    } else {
        line
    }
}

/// The tokens the lexeme that starts at `i` emits: exactly one for
/// punctuation, operators, terminated strings, numbers and identifiers, and
/// none for whitespace, newlines, comments and discarded characters.
pub open spec fn step_tokens(s: Seq<char>, i: nat, line: nat) -> Seq<TokenModel> {
    let c = s[i as int];
    match single_char_type(c) {
        Some(t) => seq![tok(t, s.subrange(i as int, i as int + 1), line)],
        None => {
            if is_lookahead_char(c) {
                if i + 1 < s.len() && s[i as int + 1] == '=' {
                    seq![tok(with_equal_type(c), s.subrange(i as int, i as int + 2), line)]
                } else {
                    seq![tok(alone_type(c), s.subrange(i as int, i as int + 1), line)]
                }
            } else if c == ' ' || c == '\r' || c == '\t' || c == '\n' {
                Seq::empty()
            } else if c == '"' {
                let e = string_body_end(s, i + 1);
                if e < s.len() {
                    seq![tok(TokenType::String, s.subrange(i as int, e as int + 1), line)]
                } else {
                    Seq::empty()
                }
            } else if c == '/' {
                if i + 1 < s.len() && s[i as int + 1] == '/' {
                    Seq::empty()
                } else {
                    seq![tok(TokenType::Slash, s.subrange(i as int, i as int + 1), line)]
                }
            } else if is_numeric_char(c) {
                seq![
                    tok(TokenType::Number, s.subrange(i as int, number_end(s, i + 1) as int), line),
                ]
            } else if is_alphabetic_char(c) {
                let lexeme = s.subrange(i as int, alnum_run_end(s, i + 1) as int);
                seq![tok(identifier_type(lexeme), lexeme, line)]
            } else {
                Seq::empty()
            }
        },
    }
}

/// The diagnostics the lexeme that starts at `i` yields: exactly one for an
/// unexpected character or an unterminated string, and none otherwise.
pub open spec fn step_diags(s: Seq<char>, i: nat, line: nat) -> Seq<DiagnosticModel> {
    let c = s[i as int];
    if single_char_type(c) is Some || is_lookahead_char(c) || c == ' ' || c == '\r' || c == '\t'
        || c == '\n' || c == '/' {
        Seq::empty()
    } else if c == '"' {
        if string_body_end(s, i + 1) < s.len() {
            Seq::empty()
        } else {
            seq![DiagnosticModel { line, kind: DiagnosticKind::UnterminatedString }]
        }
    } else if is_numeric_char(c) || is_alphabetic_char(c) {
        Seq::empty()
    } else {
        seq![DiagnosticModel { line, kind: DiagnosticKind::UnexpectedCharacter(c) }]
    }
}

/// The complete result of scanning `s` from index `i` on line `line`: the
/// lexeme at `i` contributes its step's tokens and diagnostics, and the rest
/// of the input follows from where that step ends. At the end of the input
/// exactly one Eof token with an empty lexeme and the final line count
/// remains.
pub open spec fn scan_from(s: Seq<char>, i: nat, line: nat) -> ScanOutput
    decreases s.len() - i,
    via scan_from_decreases
{
    if i >= s.len() {
        ScanOutput {
            tokens: seq![tok(TokenType::Eof, Seq::empty(), line)],
            diags: Seq::empty(),
        }
    } else {
        let rest = scan_from(s, step_end(s, i), step_line(s, i, line));
        ScanOutput {
            tokens: step_tokens(s, i, line) + rest.tokens,
            diags: step_diags(s, i, line) + rest.diags,
        }
    }
}

#[via_fn]
proof fn scan_from_decreases(s: Seq<char>, i: nat, line: nat) {
    if i < s.len() {
        lemma_step_end_bounds(s, i);
    }
}

/// One step always advances the cursor and never leaves the input.
pub proof fn lemma_step_end_bounds(s: Seq<char>, i: nat)
    requires
        i < s.len(),
    ensures
        i < step_end(s, i),
        step_end(s, i) <= s.len(),
{
    lemma_string_body_end(s, i + 1);
    lemma_comment_end(s, i + 2);
    lemma_number_end(s, i + 1);
    lemma_alnum_run_end(s, i + 1);
}

/// No step emits the Eof token: it arises only from the end of the input.
pub proof fn lemma_step_tokens_no_eof(s: Seq<char>, i: nat, line: nat)
    requires
        i < s.len(),
    ensures
        forall|k: int|
            0 <= k < step_tokens(s, i, line).len() ==> step_tokens(
                s,
                i,
                line,
            )[k].token_type != TokenType::Eof,
{
}

// ---------------------------------------------------------------------------
// Bounds of the run-end helpers
// ---------------------------------------------------------------------------

/// A digit run neither moves backward nor leaves the input.
pub proof fn lemma_digit_run_end(s: Seq<char>, i: nat)
    ensures
        i <= digit_run_end(s, i),
        i <= s.len() ==> digit_run_end(s, i) <= s.len(),
    decreases s.len() - i,
{
    if i < s.len() && is_numeric_char(s[i as int]) {
        lemma_digit_run_end(s, i + 1);
    }
}

/// An alphanumeric run neither moves backward nor leaves the input.
pub proof fn lemma_alnum_run_end(s: Seq<char>, i: nat)
    ensures
        i <= alnum_run_end(s, i),
        i <= s.len() ==> alnum_run_end(s, i) <= s.len(),
    decreases s.len() - i,
{
    if i < s.len() && (is_alphabetic_char(s[i as int]) || is_numeric_char(s[i as int])) {
        lemma_alnum_run_end(s, i + 1);
    }
}

/// A string body's end neither moves backward nor leaves the input.
pub proof fn lemma_string_body_end(s: Seq<char>, i: nat)
    ensures
        i <= string_body_end(s, i),
        i <= s.len() ==> string_body_end(s, i) <= s.len(),
    decreases s.len() - i,
{
    if i < s.len() && s[i as int] != '"' {
        lemma_string_body_end(s, i + 1);
    }
}

/// A comment's end neither moves backward nor leaves the input.
pub proof fn lemma_comment_end(s: Seq<char>, i: nat)
    ensures
        i <= comment_end(s, i),
        i <= s.len() ==> comment_end(s, i) <= s.len(),
    decreases s.len() - i,
{
    if i < s.len() && s[i as int] != '\n' {
        lemma_comment_end(s, i + 1);
    }
}

/// A number lexeme's end neither moves backward nor leaves the input.
pub proof fn lemma_number_end(s: Seq<char>, i: nat)
    ensures
        i <= number_end(s, i),
        i <= s.len() ==> number_end(s, i) <= s.len(),
{
    lemma_digit_run_end(s, i);
    let d = digit_run_end(s, i);
    if d < s.len() && s[d as int] == '.' && d + 1 < s.len() && is_numeric_char(
        s[d as int + 1],
    ) {
        lemma_digit_run_end(s, d + 2);
    }
}

// ---------------------------------------------------------------------------
// The scanner
// ---------------------------------------------------------------------------

/// The complete product of one scan pass: the ordered token stream,
/// terminated by exactly one Eof token, and every lexical diagnostic the
/// pass recorded. When diagnostics are present the caller is expected to
/// report all of them before any downstream stage proceeds.
pub struct ScanResult {
    pub tokens: Vec<Token>,
    pub diagnostics: Vec<Diagnostic>,
}

/// A cursor over the full source text that repeatedly advances and
/// classifies characters. The text is decoded once into its characters so
/// every lookahead is O(1) whatever bytes the source holds.
pub struct Scanner {
    source: String,
    chars: Vec<char>,
    start: usize,
    current: usize,
    line: usize,
}

/// The source decoded into its sequence of characters.
fn chars_of(s: &str) -> (r: Vec<char>)
    ensures
        r@ == s@,
{
    let n = s.unicode_len();
    let mut r: Vec<char> = Vec::new();
    let mut i: usize = 0;
    while i < n
        invariant
            i <= n,
            n == s@.len(),
            r@ == s@.subrange(0, i as int),
        decreases n - i,
    {
        let c = s.get_char(i);
        r.push(c);
        proof {
            assert(r@ =~= s@.subrange(0, i as int + 1));
        }
        i = i + 1;
    }
    proof {
        assert(s@.subrange(0, n as int) =~= s@);
    }
    r
}

impl Scanner {
    /// The source text being scanned, as its sequence of characters.
    pub closed spec fn text(&self) -> Seq<char> {
        self.chars@
    }

    /// Index of the next unread character.
    pub closed spec fn pos(&self) -> nat {
        self.current as nat
    }

    /// Index where the lexeme currently being recognized starts.
    pub closed spec fn lexeme_start(&self) -> nat {
        self.start as nat
    }

    /// Current 1-based line number.
    pub closed spec fn line_no(&self) -> nat {
        self.line as nat
    }

    /// Internal consistency: the decoded characters are the source text, the
    /// cursor indices are ordered and in range, and the line counter has
    /// grown by at most one per consumed character.
    pub closed spec fn wf(&self) -> bool {
        &&& self.chars@ == self.source@
        &&& self.start <= self.current
        &&& self.current <= self.chars@.len()
        &&& 1 <= self.line
        &&& self.line <= self.current + 1
        &&& self.chars@.len() < usize::MAX
    }

    /// A fresh scanner over `source`, at its first character on line 1.
    /// (The length bound is the machine's: the cursor is a `usize`.)
    pub fn create(source: String) -> (r: Self)
        requires
            source@.len() < usize::MAX,
        ensures
            r.wf(),
            r.text() == source@,
            r.pos() == 0,
            r.lexeme_start() == 0,
            r.line_no() == 1,
    {
        let chars = chars_of(source.as_str());
        Scanner { source, chars, start: 0, current: 0, line: 1 }
    }

    /// Whether the cursor has consumed the entire source.
    fn is_at_end(&self) -> (r: bool)
        requires
            self.wf(),
        ensures
            r == (self.pos() == self.text().len()),
    {
        self.current >= self.chars.len()
    }

    /// The next unread character, or the NUL sentinel at the end of input;
    /// the cursor does not move.
    fn peek(&self) -> (c: char)
        requires
            self.wf(),
        ensures
            c == (if self.pos() < self.text().len() {
                self.text()[self.pos() as int]
            } else {
                '\0'
            }),
    {
        if self.is_at_end() {
            return '\0';
        }
        self.chars[self.current]
    }

    /// The character after the next unread one, or the NUL sentinel when the
    /// input ends before it; the cursor does not move.
    fn peek_next(&self) -> (c: char)
        requires
            self.wf(),
        ensures
            c == (if self.pos() + 1 < self.text().len() {
                self.text()[self.pos() as int + 1]
            } else {
                '\0'
            }),
    {
        if self.current + 1 >= self.chars.len() {
            return '\0';
        }
        self.chars[self.current + 1]
    }

    /// Consumes and returns one character.
    fn advance(&mut self) -> (c: char)
        requires
            old(self).wf(),
            old(self).pos() < old(self).text().len(),
        ensures
            final(self).wf(),
            final(self).text() == old(self).text(),
            final(self).lexeme_start() == old(self).lexeme_start(),
            final(self).line_no() == old(self).line_no(),
            final(self).pos() == old(self).pos() + 1,
            c == old(self).text()[old(self).pos() as int],
    {
        let c = self.chars[self.current];
        self.current = self.current + 1;
        c
    }

    /// One character of lookahead: consumes the next character exactly when
    /// it equals `c`, and reports whether it did.
    fn match_char(&mut self, c: char) -> (r: bool)
        requires
            old(self).wf(),
        ensures
            final(self).wf(),
            final(self).text() == old(self).text(),
            final(self).lexeme_start() == old(self).lexeme_start(),
            final(self).line_no() == old(self).line_no(),
            r == (old(self).pos() < old(self).text().len() && old(self).text()[old(
                self,
            ).pos() as int] == c),
            final(self).pos() == (if r {
                old(self).pos() + 1
            } else {
                old(self).pos()
            }),
    {
        if self.is_at_end() {
            return false;
        }
        if self.chars[self.current] != c {
            return false;
        }
        self.current = self.current + 1;
        true
    }

    /// Emits one token of category `t` over the current lexeme — the exact
    /// source characters from `start` up to the cursor — at the current line.
    fn add_token(&self, t: TokenType, out: &mut Vec<Token>)
        requires
            self.wf(),
        ensures
            token_models(final(out)@) == token_models(old(out)@) + seq![
                (TokenModel {
                    token_type: t,
                    lexeme: self.text().subrange(
                        self.lexeme_start() as int,
                        self.pos() as int,
                    ),
                    line: self.line_no(),
                }),
            ],
    {
        let piece = self.source.as_str().substring_char(self.start, self.current);
        let lexeme = String::from_str(piece);
        out.push(Token::create(t, lexeme, self.line));
        proof {
            crate::tokens::lemma_token_models_push(old(out)@, out@[out@.len() - 1]);
        }
    }

    /// Scans the rest of a number, its first digit already consumed: the
    /// maximal digit run, then a fractional part only when a `.` is followed
    /// by another digit. Emits one Number token over the full matched text;
    /// no numeric value is computed by the scanner itself.
    #[verifier::loop_isolation(false)]
    fn handle_number(&mut self, out: &mut Vec<Token>)
        requires
            old(self).wf(),
        ensures
            final(self).wf(),
            final(self).text() == old(self).text(),
            final(self).lexeme_start() == old(self).lexeme_start(),
            final(self).line_no() == old(self).line_no(),
            final(self).pos() == number_end(old(self).text(), old(self).pos()),
            token_models(final(out)@) == token_models(old(out)@) + seq![
                (TokenModel {
                    token_type: TokenType::Number,
                    lexeme: old(self).text().subrange(
                        old(self).lexeme_start() as int,
                        number_end(old(self).text(), old(self).pos()) as int,
                    ),
                    line: old(self).line_no(),
                }),
            ],
    {
        let ghost s = self.chars@;
        let ghost p0 = self.current as nat;
        let ghost start0 = self.start as nat;
        let ghost line0 = self.line as nat;
        let ghost d = digit_run_end(s, p0);
        proof {
            lemma_digit_run_end(s, p0);
        }
        while !self.is_at_end() && char_numeric(self.peek())
            invariant
                self.wf(),
                self.chars@ == s,
                self.start as nat == start0,
                self.line as nat == line0,
                p0 <= self.current as nat,
                digit_run_end(s, self.current as nat) == d,
            decreases s.len() - self.current,
        {
            proof {
                assert(digit_run_end(s, self.current as nat) == digit_run_end(
                    s,
                    self.current as nat + 1,
                ));
            }
            self.advance();
        }
        proof {
            assert(digit_run_end(s, self.current as nat) == self.current as nat);
        }
        // A fractional part only when the `.` is followed by another digit.
        if !self.is_at_end() && self.peek() == '.' {
            if self.current + 1 < self.chars.len() && char_numeric(self.peek_next()) {
                self.advance();
                let ghost d2 = digit_run_end(s, d + 1);
                proof {
                    lemma_digit_run_end(s, d + 1);
                    assert(digit_run_end(s, d + 1) == digit_run_end(s, d + 2));
                }
                while !self.is_at_end() && char_numeric(self.peek())
                    invariant
                        self.wf(),
                        self.chars@ == s,
                        self.start as nat == start0,
                        self.line as nat == line0,
                        d + 1 <= self.current as nat,
                        digit_run_end(s, self.current as nat) == d2,
                    decreases s.len() - self.current,
                {
                    proof {
                        assert(digit_run_end(s, self.current as nat) == digit_run_end(
                            s,
                            self.current as nat + 1,
                        ));
                    }
                    self.advance();
                }
                proof {
                    assert(digit_run_end(s, self.current as nat) == self.current as nat);
                }
            }
        }
        proof {
            assert(self.current as nat == number_end(s, p0));
        }
        self.add_token(TokenType::Number, out);
    }

    /// Scans the rest of an identifier or keyword, its first character
    /// already consumed: the maximal alphanumeric run, then one keyword
    /// table lookup to classify the lexeme.
    #[verifier::loop_isolation(false)]
    fn handle_identifier(&mut self, out: &mut Vec<Token>)
        requires
            old(self).wf(),
        ensures
            final(self).wf(),
            final(self).text() == old(self).text(),
            final(self).lexeme_start() == old(self).lexeme_start(),
            final(self).line_no() == old(self).line_no(),
            final(self).pos() == alnum_run_end(old(self).text(), old(self).pos()),
            token_models(final(out)@) == token_models(old(out)@) + seq![
                (TokenModel {
                    token_type: identifier_type(
                        old(self).text().subrange(
                            old(self).lexeme_start() as int,
                            alnum_run_end(old(self).text(), old(self).pos()) as int,
                        ),
                    ),
                    lexeme: old(self).text().subrange(
                        old(self).lexeme_start() as int,
                        alnum_run_end(old(self).text(), old(self).pos()) as int,
                    ),
                    line: old(self).line_no(),
                }),
            ],
    {
        let ghost s = self.chars@;
        let ghost p0 = self.current as nat;
        let ghost start0 = self.start as nat;
        let ghost line0 = self.line as nat;
        let ghost e = alnum_run_end(s, p0);
        proof {
            lemma_alnum_run_end(s, p0);
        }
        while !self.is_at_end() && char_alphanumeric(self.peek())
            invariant
                self.wf(),
                self.chars@ == s,
                self.start as nat == start0,
                self.line as nat == line0,
                p0 <= self.current as nat,
                alnum_run_end(s, self.current as nat) == e,
            decreases s.len() - self.current,
        {
            proof {
                assert(alnum_run_end(s, self.current as nat) == alnum_run_end(
                    s,
                    self.current as nat + 1,
                ));
            }
            self.advance();
        }
        proof {
            assert(alnum_run_end(s, self.current as nat) == self.current as nat);
        }
        let t = identifier_token_type(&self.chars, self.start, self.current);
        self.add_token(t, out);
    }

    /// Scans the rest of a string literal, its opening quote already
    /// consumed, tracking embedded newlines for line counting. On success
    /// emits one String token whose lexeme spans the full quoted text
    /// including both delimiters, on the line the literal started; a literal
    /// still open at the end of input is reported as an unterminated-string
    /// diagnostic on that same line, and no token is emitted.
    #[verifier::loop_isolation(false)]
    fn handle_string(&mut self, out: &mut Vec<Token>, diags: &mut Vec<Diagnostic>)
        requires
            old(self).wf(),
            old(self).lexeme_start() + 1 == old(self).pos(),
        ensures
            final(self).wf(),
            final(self).text() == old(self).text(),
            final(self).lexeme_start() == old(self).lexeme_start(),
            final(self).line_no() == old(self).line_no() + newline_count(
                old(self).text(),
                old(self).pos(),
                string_body_end(old(self).text(), old(self).pos()),
            ),
            (string_body_end(old(self).text(), old(self).pos()) < old(self).text().len() ==> {
                &&& final(self).pos() == string_body_end(old(self).text(), old(self).pos()) + 1
                &&& token_models(final(out)@) == token_models(old(out)@) + seq![
                    (TokenModel {
                        token_type: TokenType::String,
                        lexeme: old(self).text().subrange(
                            old(self).lexeme_start() as int,
                            string_body_end(old(self).text(), old(self).pos()) as int + 1,
                        ),
                        line: old(self).line_no(),
                    }),
                ]
                &&& final(diags)@ == old(diags)@
            }),
            (string_body_end(old(self).text(), old(self).pos()) >= old(self).text().len() ==> {
                &&& final(self).pos() == old(self).text().len()
                &&& final(out)@ == old(out)@
                &&& diagnostic_models(final(diags)@) == diagnostic_models(old(diags)@) + seq![
                    (DiagnosticModel {
                        line: old(self).line_no(),
                        kind: DiagnosticKind::UnterminatedString,
                    }),
                ]
            }),
    {
        let ghost s = self.chars@;
        let ghost p0 = self.current as nat;
        let ghost start0 = self.start as nat;
        let ghost line0 = self.line as nat;
        let ghost e = string_body_end(s, p0);
        let line_start = self.line;
        proof {
            lemma_string_body_end(s, p0);
        }
        while !self.is_at_end() && self.peek() != '"'
            invariant
                self.wf(),
                self.chars@ == s,
                self.start as nat == start0,
                p0 <= self.current as nat,
                string_body_end(s, self.current as nat) == e,
                self.line as nat == line0 + newline_count(s, p0, self.current as nat),
            decreases s.len() - self.current,
        {
            proof {
                assert(string_body_end(s, self.current as nat) == string_body_end(
                    s,
                    self.current as nat + 1,
                ));
                assert(newline_count(s, p0, self.current as nat + 1) == newline_count(
                    s,
                    p0,
                    self.current as nat,
                ) + (if s[self.current as int] == '\n' {
                    1nat
                } else {
                    0nat
                }));
            }
            let c = self.advance();
            if c == '\n' {
                self.line = self.line + 1;
            }
        }
        proof {
            assert(string_body_end(s, self.current as nat) == self.current as nat);
        }
        if self.is_at_end() {
            // Unterminated string: record the problem and emit nothing.
            diags.push(
                Diagnostic { line: line_start, kind: DiagnosticKind::UnterminatedString },
            );
            proof {
                lemma_diagnostic_models_push(old(diags)@, diags@[diags@.len() - 1]);
            }
        } else {
            self.advance();  // the closing quote
            let piece = self.source.as_str().substring_char(self.start, self.current);
            let lexeme = String::from_str(piece);
            out.push(Token::create(TokenType::String, lexeme, line_start));
            proof {
                crate::tokens::lemma_token_models_push(old(out)@, out@[out@.len() - 1]);
            }
        }
    }

    /// Recognizes exactly one lexeme starting at the cursor — `start` must
    /// already sit on it — and advances past exactly that lexeme: the cursor
    /// lands on the step's end and the line counter on the step's line;
    /// exactly the step's tokens (at most one) are appended after everything
    /// already emitted, and exactly the step's diagnostics (at most one) are
    /// recorded after everything already reported.
    #[verifier::loop_isolation(false)]
    fn scan_token(&mut self, out: &mut Vec<Token>, diags: &mut Vec<Diagnostic>)
        requires
            old(self).wf(),
            old(self).pos() < old(self).text().len(),
            old(self).lexeme_start() == old(self).pos(),
        ensures
            final(self).wf(),
            final(self).text() == old(self).text(),
            final(self).lexeme_start() == old(self).lexeme_start(),
            final(self).pos() == step_end(old(self).text(), old(self).pos()),
            final(self).line_no() == step_line(
                old(self).text(),
                old(self).pos(),
                old(self).line_no(),
            ),
            old(self).pos() < final(self).pos() <= final(self).text().len(),
            token_models(final(out)@) == token_models(old(out)@) + step_tokens(
                old(self).text(),
                old(self).pos(),
                old(self).line_no(),
            ),
            diagnostic_models(final(diags)@) == diagnostic_models(old(diags)@) + step_diags(
                old(self).text(),
                old(self).pos(),
                old(self).line_no(),
            ),
    {
        let ghost s = self.chars@;
        let ghost i = self.current as nat;
        let ghost l0 = self.line as nat;
        proof {
            lemma_step_end_bounds(s, i);
        }
        let c = self.advance();
        if let Some(t) = single_char_token_type(c) {
            self.add_token(t, out);
            proof {
                assert(self.current as nat == step_end(s, i));
                assert(self.line as nat == step_line(s, i, l0));
                assert(token_models(out@) =~= token_models(old(out)@) + step_tokens(s, i, l0));
                assert(diagnostic_models(diags@) =~= diagnostic_models(old(diags)@) + step_diags(
                    s,
                    i,
                    l0,
                ));
            }
        } else if c == '!' || c == '=' || c == '<' || c == '>' {
            let matched = self.match_char('=');
            let t = if matched {
                two_char_token_type(c)
            } else {
                one_char_token_type(c)
            };
            self.add_token(t, out);
            proof {
                assert(self.current as nat == step_end(s, i));
                assert(self.line as nat == step_line(s, i, l0));
                assert(token_models(out@) =~= token_models(old(out)@) + step_tokens(s, i, l0));
                assert(diagnostic_models(diags@) =~= diagnostic_models(old(diags)@) + step_diags(
                    s,
                    i,
                    l0,
                ));
            }
        } else if c == ' ' || c == '\r' || c == '\t' {
            // Whitespace is consumed and discarded.
            proof {
                assert(self.current as nat == step_end(s, i));
                assert(self.line as nat == step_line(s, i, l0));
                assert(token_models(out@) =~= token_models(old(out)@) + step_tokens(s, i, l0));
                assert(diagnostic_models(diags@) =~= diagnostic_models(old(diags)@) + step_diags(
                    s,
                    i,
                    l0,
                ));
            }
        } else if c == '\n' {
            self.line = self.line + 1;
            proof {
                assert(self.current as nat == step_end(s, i));
                assert(self.line as nat == step_line(s, i, l0));
                assert(token_models(out@) =~= token_models(old(out)@) + step_tokens(s, i, l0));
                assert(diagnostic_models(diags@) =~= diagnostic_models(old(diags)@) + step_diags(
                    s,
                    i,
                    l0,
                ));
            }
        } else if c == '"' {
            self.handle_string(out, diags);
            proof {
                lemma_string_body_end(s, i + 1);
                assert(self.current as nat == step_end(s, i));
                assert(self.line as nat == step_line(s, i, l0));
                assert(token_models(out@) =~= token_models(old(out)@) + step_tokens(s, i, l0));
                assert(diagnostic_models(diags@) =~= diagnostic_models(old(diags)@) + step_diags(
                    s,
                    i,
                    l0,
                ));
            }
        } else if c == '/' {
            if self.match_char('/') {
                // A line comment: discard through end of line, exclusive.
                let ghost ce = comment_end(s, i + 2);
                proof {
                    lemma_comment_end(s, i + 2);
                }
                while !self.is_at_end() && self.peek() != '\n'
                    invariant
                        self.wf(),
                        self.chars@ == s,
                        self.start as nat == i,
                        self.line as nat == l0,
                        i + 2 <= self.current as nat,
                        comment_end(s, self.current as nat) == ce,
                    decreases s.len() - self.current,
                {
                    proof {
                        assert(comment_end(s, self.current as nat) == comment_end(
                            s,
                            self.current as nat + 1,
                        ));
                    }
                    self.advance();
                }
                proof {
                    assert(comment_end(s, self.current as nat) == self.current as nat);
                    assert(self.current as nat == step_end(s, i));
                    assert(self.line as nat == step_line(s, i, l0));
                    assert(token_models(out@) =~= token_models(old(out)@) + step_tokens(s, i, l0));
                    assert(diagnostic_models(diags@) =~= diagnostic_models(old(diags)@)
                        + step_diags(s, i, l0));
                }
            } else {
                self.add_token(TokenType::Slash, out);
                proof {
                    assert(self.current as nat == step_end(s, i));
                    assert(self.line as nat == step_line(s, i, l0));
                    assert(token_models(out@) =~= token_models(old(out)@) + step_tokens(s, i, l0));
                    assert(diagnostic_models(diags@) =~= diagnostic_models(old(diags)@)
                        + step_diags(s, i, l0));
                }
            }
        } else if char_numeric(c) {
            self.handle_number(out);
            proof {
                lemma_number_end(s, i + 1);
                assert(self.current as nat == step_end(s, i));
                assert(self.line as nat == step_line(s, i, l0));
                assert(token_models(out@) =~= token_models(old(out)@) + step_tokens(s, i, l0));
                assert(diagnostic_models(diags@) =~= diagnostic_models(old(diags)@) + step_diags(
                    s,
                    i,
                    l0,
                ));
            }
        } else if char_alphabetic(c) {
            self.handle_identifier(out);
            proof {
                lemma_alnum_run_end(s, i + 1);
                assert(self.current as nat == step_end(s, i));
                assert(self.line as nat == step_line(s, i, l0));
                assert(token_models(out@) =~= token_models(old(out)@) + step_tokens(s, i, l0));
                assert(diagnostic_models(diags@) =~= diagnostic_models(old(diags)@) + step_diags(
                    s,
                    i,
                    l0,
                ));
            }
        } else {
            // No lexeme can start here: report it and go on with the next
            // character rather than aborting.
            diags.push(
                Diagnostic { line: self.line, kind: DiagnosticKind::UnexpectedCharacter(c) },
            );
            proof {
                lemma_diagnostic_models_push(old(diags)@, diags@[diags@.len() - 1]);
                assert(self.current as nat == step_end(s, i));
                assert(self.line as nat == step_line(s, i, l0));
                assert(token_models(out@) =~= token_models(old(out)@) + step_tokens(s, i, l0));
                assert(diagnostic_models(diags@) =~= diagnostic_models(old(diags)@) + step_diags(
                    s,
                    i,
                    l0,
                ));
            }
        }
    }

    /// Consumes the entire remaining source in one pass and returns the
    /// complete ordered token stream together with every diagnostic the pass
    /// recorded: exactly the scan of the text from the cursor's position.
    /// The stream always ends with exactly one Eof token, whose lexeme is
    /// empty and whose line is the final line count reached; a malformed
    /// character or string never halts the pass.
    #[verifier::loop_isolation(false)]
    pub fn scan_tokens(&mut self) -> (r: ScanResult)
        requires
            old(self).wf(),
        ensures
            final(self).wf(),
            final(self).text() == old(self).text(),
            token_models(r.tokens@) == scan_from(
                old(self).text(),
                old(self).pos(),
                old(self).line_no(),
            ).tokens,
            diagnostic_models(r.diagnostics@) == scan_from(
                old(self).text(),
                old(self).pos(),
                old(self).line_no(),
            ).diags,
            r.tokens@.len() >= 1,
            r.tokens@[r.tokens@.len() - 1]@.token_type == TokenType::Eof,
            r.tokens@[r.tokens@.len() - 1]@.lexeme.len() == 0,
            forall|k: int|
                0 <= k < r.tokens@.len() - 1 ==> r.tokens@[k]@.token_type != TokenType::Eof,
    {
        let ghost s = self.chars@;
        let ghost i0 = self.current as nat;
        let ghost l0 = self.line as nat;
        let mut tokens: Vec<Token> = Vec::new();
        let mut diagnostics: Vec<Diagnostic> = Vec::new();
        proof {
            assert(token_models(tokens@) =~= Seq::<TokenModel>::empty());
            assert(diagnostic_models(diagnostics@) =~= Seq::<DiagnosticModel>::empty());
            assert(token_models(tokens@) + scan_from(s, i0, l0).tokens =~= scan_from(
                s,
                i0,
                l0,
            ).tokens);
            assert(diagnostic_models(diagnostics@) + scan_from(s, i0, l0).diags =~= scan_from(
                s,
                i0,
                l0,
            ).diags);
        }
        while !self.is_at_end()
            invariant
                self.wf(),
                self.chars@ == s,
                token_models(tokens@) + scan_from(s, self.current as nat, self.line as nat).tokens
                    == scan_from(s, i0, l0).tokens,
                diagnostic_models(diagnostics@) + scan_from(
                    s,
                    self.current as nat,
                    self.line as nat,
                ).diags == scan_from(s, i0, l0).diags,
            decreases s.len() - self.current,
        {
            let ghost p = self.current as nat;
            let ghost l = self.line as nat;
            self.start = self.current;
            self.scan_token(&mut tokens, &mut diagnostics);
            proof {
                lemma_step_end_bounds(s, p);
                assert(scan_from(s, p, l).tokens =~= step_tokens(s, p, l) + scan_from(
                    s,
                    step_end(s, p),
                    step_line(s, p, l),
                ).tokens);
                assert(scan_from(s, p, l).diags =~= step_diags(s, p, l) + scan_from(
                    s,
                    step_end(s, p),
                    step_line(s, p, l),
                ).diags);
                assert(token_models(tokens@) + scan_from(
                    s,
                    self.current as nat,
                    self.line as nat,
                ).tokens =~= scan_from(s, i0, l0).tokens);
                assert(diagnostic_models(diagnostics@) + scan_from(
                    s,
                    self.current as nat,
                    self.line as nat,
                ).diags =~= scan_from(s, i0, l0).diags);
            }
        }
        proof {
            assert(scan_from(s, self.current as nat, self.line as nat).tokens =~= seq![
                tok(TokenType::Eof, Seq::empty(), self.line as nat),
            ]);
            assert(scan_from(s, self.current as nat, self.line as nat).diags
                =~= Seq::<DiagnosticModel>::empty());
            assert(diagnostic_models(diagnostics@) =~= scan_from(s, i0, l0).diags);
        }
        let ghost pre = tokens@;
        tokens.push(Token::create(TokenType::Eof, String::new(), self.line));
        proof {
            crate::tokens::lemma_token_models_push(pre, tokens@[tokens@.len() - 1]);
            assert(token_models(tokens@) =~= scan_from(s, i0, l0).tokens);
            lemma_scan_from_terminator(s, i0, l0);
            assert forall|k: int| 0 <= k < tokens@.len() - 1 implies tokens@[k]@.token_type
                != TokenType::Eof by {
                assert(token_models(tokens@)[k] == tokens@[k]@);
                assert(scan_from(s, i0, l0).tokens[k].token_type != TokenType::Eof);
            }
        }
        ScanResult { tokens, diagnostics }
    }
}

/// The category of the identifier-shaped lexeme `chars[start..end)`: the
/// keyword table consulted once, by exhaustive comparison against the
/// sixteen reserved words.
fn identifier_token_type(chars: &Vec<char>, start: usize, end: usize) -> (t: TokenType)
    requires
        start <= end <= chars@.len(),
    ensures
        t == identifier_type(chars@.subrange(start as int, end as int)),
{
    let n = end - start;
    if n == 2 {
        let c0 = chars[start];
        let c1 = chars[start + 1];
        if c0 == 'i' && c1 == 'f' {
            TokenType::If
        } else if c0 == 'o' && c1 == 'r' {
            TokenType::Or
        } else {
            TokenType::Identifier
        }
    } else if n == 3 {
        let c0 = chars[start];
        let c1 = chars[start + 1];
        let c2 = chars[start + 2];
        if c0 == 'a' && c1 == 'n' && c2 == 'd' {
            TokenType::And
        } else if c0 == 'f' && c1 == 'o' && c2 == 'r' {
            TokenType::For
        } else if c0 == 'f' && c1 == 'u' && c2 == 'n' {
            TokenType::Fun
        } else if c0 == 'n' && c1 == 'i' && c2 == 'l' {
            TokenType::Nil
        } else if c0 == 'v' && c1 == 'a' && c2 == 'r' {
            TokenType::Var
        } else {
            TokenType::Identifier
        }
    } else if n == 4 {
        let c0 = chars[start];
        let c1 = chars[start + 1];
        let c2 = chars[start + 2];
        let c3 = chars[start + 3];
        if c0 == 'e' && c1 == 'l' && c2 == 's' && c3 == 'e' {
            TokenType::Else
        } else if c0 == 't' && c1 == 'h' && c2 == 'i' && c3 == 's' {
            TokenType::This
        } else if c0 == 't' && c1 == 'r' && c2 == 'u' && c3 == 'e' {
            TokenType::True
        } else {
            TokenType::Identifier
        }
    } else if n == 5 {
        let c0 = chars[start];
        let c1 = chars[start + 1];
        let c2 = chars[start + 2];
        let c3 = chars[start + 3];
        let c4 = chars[start + 4];
        if c0 == 'c' && c1 == 'l' && c2 == 'a' && c3 == 's' && c4 == 's' {
            TokenType::Class
        } else if c0 == 'f' && c1 == 'a' && c2 == 'l' && c3 == 's' && c4 == 'e' {
            TokenType::False
        } else if c0 == 'p' && c1 == 'r' && c2 == 'i' && c3 == 'n' && c4 == 't' {
            TokenType::Print
        } else if c0 == 's' && c1 == 'u' && c2 == 'p' && c3 == 'e' && c4 == 'r' {
            TokenType::Super
        } else if c0 == 'w' && c1 == 'h' && c2 == 'i' && c3 == 'l' && c4 == 'e' {
            TokenType::While
        } else {
            TokenType::Identifier
        }
    } else if n == 6 {
        let c0 = chars[start];
        let c1 = chars[start + 1];
        let c2 = chars[start + 2];
        let c3 = chars[start + 3];
        let c4 = chars[start + 4];
        let c5 = chars[start + 5];
        if c0 == 'r' && c1 == 'e' && c2 == 't' && c3 == 'u' && c4 == 'r' && c5 == 'n' {
            TokenType::Return
        } else {
            TokenType::Identifier
        }
    } else {
        TokenType::Identifier
    }
}

/// The category a fixed single-character lexeme emits, or None.
fn single_char_token_type(c: char) -> (r: Option<TokenType>)
    ensures
        r == single_char_type(c),
{
    if c == '(' {
        Some(TokenType::LeftParen)
    } else if c == ')' {
        Some(TokenType::RightParen)
    } else if c == '{' {
        Some(TokenType::LeftBrace)
    } else if c == '}' {
        Some(TokenType::RightBrace)
    } else if c == ',' {
        Some(TokenType::Comma)
    } else if c == '.' {
        Some(TokenType::Dot)
    } else if c == '-' {
        Some(TokenType::Minus)
    } else if c == '+' {
        Some(TokenType::Plus)
    } else if c == ';' {
        Some(TokenType::SemiColon)
    } else if c == '*' {
        Some(TokenType::Star)
    } else {
        None
    }
}

/// The two-character operator emitted when `c` is followed by `=`.
fn two_char_token_type(c: char) -> (r: TokenType)
    ensures
        r == with_equal_type(c),
{
    if c == '!' {
        TokenType::BangEqual
    } else if c == '=' {
        TokenType::EqualEqual
    } else if c == '<' {
        TokenType::LessEqual
    } else {
        TokenType::GreaterEqual
    }
}

/// The one-character operator emitted when `c` is not followed by `=`.
fn one_char_token_type(c: char) -> (r: TokenType)
    ensures
        r == alone_type(c),
{
    if c == '!' {
        TokenType::Bang
    } else if c == '=' {
        TokenType::Equal
    } else if c == '<' {
        TokenType::Less
    } else {
        TokenType::Greater
    }
}

// ---------------------------------------------------------------------------
// Laws of the scan
// ---------------------------------------------------------------------------

/// For every input text, start position and line, the token stream one scan
/// pass yields is never empty, its last element is the Eof token with an
/// empty lexeme, and no other element is an Eof token — the terminator
/// appears exactly once, even for empty input.
pub proof fn lemma_scan_from_terminator(s: Seq<char>, i: nat, line: nat)
    ensures
        scan_from(s, i, line).tokens.len() >= 1,
        scan_from(s, i, line).tokens.last().token_type == TokenType::Eof,
        scan_from(s, i, line).tokens.last().lexeme.len() == 0,
        forall|k: int|
            0 <= k < scan_from(s, i, line).tokens.len() - 1 ==> scan_from(
                s,
                i,
                line,
            ).tokens[k].token_type != TokenType::Eof,
    decreases s.len() - i,
{
    if i < s.len() {
        lemma_step_end_bounds(s, i);
        lemma_step_tokens_no_eof(s, i, line);
        lemma_scan_from_terminator(s, step_end(s, i), step_line(s, i, line));
        let a = step_tokens(s, i, line);
        let b = scan_from(s, step_end(s, i), step_line(s, i, line)).tokens;
        assert(scan_from(s, i, line).tokens == a + b);
        assert forall|k: int|
            0 <= k < scan_from(s, i, line).tokens.len() - 1 implies scan_from(
            s,
            i,
            line,
        ).tokens[k].token_type != TokenType::Eof by {
            if k < a.len() {
                assert((a + b)[k] == a[k]);
                assert(a[k].token_type != TokenType::Eof);
            } else {
                assert((a + b)[k] == b[k - a.len()]);
                assert(b[k - a.len()].token_type != TokenType::Eof);
            }
        }
    }
}

/// A string literal still open at the end of the input is never silent and
/// never yields a partial token: the scan from its opening quote yields
/// exactly one diagnostic — unterminated string, on the line the literal
/// started — and no token besides the final Eof, whose line counts every
/// newline the open literal held.
pub proof fn lemma_unterminated_string_reported(s: Seq<char>, i: nat, line: nat)
    requires
        i < s.len(),
        s[i as int] == '\"',
        string_body_end(s, i + 1) >= s.len(),
    ensures
        scan_from(s, i, line).diags == seq![
            (DiagnosticModel { line, kind: DiagnosticKind::UnterminatedString }),
        ],
        scan_from(s, i, line).tokens == seq![
            tok(TokenType::Eof, Seq::empty(), line + newline_count(s, i + 1, s.len())),
        ],
{
    lemma_string_body_end(s, i + 1);
    assert(string_body_end(s, i + 1) == s.len());
    assert(step_end(s, i) == s.len());
    assert(step_line(s, i, line) == line + newline_count(s, i + 1, s.len()));
    assert(scan_from(s, s.len(), step_line(s, i, line)).tokens =~= seq![
        tok(TokenType::Eof, Seq::empty(), line + newline_count(s, i + 1, s.len())),
    ]);
    assert(scan_from(s, s.len(), step_line(s, i, line)).diags =~= Seq::<DiagnosticModel>::empty());
    assert(scan_from(s, i, line).diags =~= seq![
        (DiagnosticModel { line, kind: DiagnosticKind::UnterminatedString }),
    ]);
    assert(scan_from(s, i, line).tokens =~= seq![
        tok(TokenType::Eof, Seq::empty(), line + newline_count(s, i + 1, s.len())),
    ]);
}

} // verus!
