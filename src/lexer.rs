//! The lexer: a model of the token grammar over characters, and a cursor
//! over a source text proved to follow it.
use vstd::prelude::*;
use crate::token::{LexError, Spanned, SpannedV, Token, TokenV};

verus! {

pub open spec fn is_digit(c: char) -> bool {
    '0' <= c && c <= '9'
}

pub open spec fn is_letter(c: char) -> bool {
    ('a' <= c && c <= 'z') || ('A' <= c && c <= 'Z')
}

pub open spec fn id_start(c: char) -> bool {
    c == '_' || is_letter(c)
}

pub open spec fn id_continue(c: char) -> bool {
    c == '_' || is_digit(c)
}

/// Whether `c` may stand inside an identifier after its first character.
pub open spec fn id_char(c: char) -> bool {
    id_start(c) || id_continue(c)
}

/// Whether `ch` may begin an identifier: `_` or an ASCII letter.
pub fn is_id_start(ch: char) -> (r: bool)
    ensures
        r == id_start(ch),
{
    ch == '_' || ('a' <= ch && ch <= 'z') || ('A' <= ch && ch <= 'Z')
}

/// Whether `ch` is `_` or an ASCII digit.
pub fn is_id_continue(ch: char) -> (r: bool)
    ensures
        r == id_continue(ch),
{
    ch == '_' || ('0' <= ch && ch <= '9')
}

/// Whether `c` has Unicode's White_Space property: tab through carriage
/// return, space, next line, no-break space, ogham space mark, the spaces
/// from en quad to hair space, the line and paragraph separators, narrow
/// no-break space, medium mathematical space and ideographic space.
pub open spec fn white_space(c: char) -> bool {
    let v = c as u32;
    (0x9 <= v && v <= 0xD) || v == 0x20 || v == 0x85 || v == 0xA0 || v == 0x1680 || (0x2000 <= v
        && v <= 0x200A) || v == 0x2028 || v == 0x2029 || v == 0x202F || v == 0x205F || v == 0x3000
}

/// Whether `c` has Unicode's White_Space property.
fn is_white_space(c: char) -> (r: bool)
    ensures
        r == white_space(c),
{
    let v = c as u32;
    (0x9 <= v && v <= 0xD) || v == 0x20 || v == 0x85 || v == 0xA0 || v == 0x1680 || (0x2000 <= v
        && v <= 0x200A) || v == 0x2028 || v == 0x2029 || v == 0x202F || v == 0x205F || v == 0x3000
}

} // verus!

verus! {

/// Number of bytes that UTF-8 spends on `c`.
pub open spec fn utf8_len(c: char) -> nat {
    if (c as u32) < 0x80 {
        1
    } else if (c as u32) < 0x800 {
        2
    } else if (c as u32) < 0x10000 {
        3
    } else {
        4
    }
}

/// Byte offset, in the UTF-8 encoding of `s`, of the character at index `i`.
pub open spec fn byte_offset(s: Seq<char>, i: int) -> nat
    decreases i,
{
    if i <= 0 {
        0
    } else {
        byte_offset(s, i - 1) + utf8_len(s[i - 1])
    }
}

/// End of the run of identifier characters that starts at `i`.
pub open spec fn id_end(s: Seq<char>, i: int) -> int
    decreases s.len() - i,
{
    if 0 <= i < s.len() && id_char(s[i]) {
        id_end(s, i + 1)
    } else {
        i
    }
}

/// End of the run of ASCII digits that starts at `i`.
pub open spec fn digits_end(s: Seq<char>, i: int) -> int
    decreases s.len() - i,
{
    if 0 <= i < s.len() && is_digit(s[i]) {
        digits_end(s, i + 1)
    } else {
        i
    }
}

/// Index of the first `"` at or after `i`, or the length of `s` if there is none.
pub open spec fn quote_from(s: Seq<char>, i: int) -> int
    decreases s.len() - i,
{
    if 0 <= i < s.len() && s[i] != '"' {
        quote_from(s, i + 1)
    } else {
        i
    }
}

/// End of a number literal whose first digit is at `i`: its digits, then a
/// dot and more digits only where a digit follows the dot at once.
pub open spec fn number_end(s: Seq<char>, i: int) -> int {
    let e = digits_end(s, i);
    if e + 1 < s.len() && s[e] == '.' && is_digit(s[e + 1]) {
        digits_end(s, e + 1)
    } else {
        e
    }
}

/// The keyword that `w` spells, if any.
pub open spec fn keyword(w: Seq<char>) -> Option<TokenV> {
    if w == "and"@ {
        Some(TokenV::And)
    } else if w == "else"@ {
        Some(TokenV::Else)
    } else if w == "false"@ {
        Some(TokenV::False)
    } else if w == "fn"@ {
        Some(TokenV::Fn)
    } else if w == "for"@ {
        Some(TokenV::For)
    } else if w == "if"@ {
        Some(TokenV::If)
    } else if w == "nil"@ {
        Some(TokenV::Nil)
    } else if w == "or"@ {
        Some(TokenV::Or)
    } else if w == "print"@ {
        Some(TokenV::Print)
    } else if w == "return"@ {
        Some(TokenV::Return)
    } else if w == "this"@ {
        Some(TokenV::This)
    } else if w == "true"@ {
        Some(TokenV::True)
    } else if w == "let"@ {
        Some(TokenV::Let)
    } else if w == "while"@ {
        Some(TokenV::While)
    } else {
        None
    }
}

/// The token for an identifier-shaped word: its keyword, or an identifier.
pub open spec fn word_token(w: Seq<char>) -> TokenV {
    match keyword(w) {
        Some(t) => t,
        None => TokenV::Identifier(w),
    }
}

/// A lexical error, with character indices in place of byte offsets.
pub enum FailV {
    Unterminated(int),
    Unexpected(char, int),
}

/// What the lexer finds at a character index: the end of the input, a token
/// with the indices of its first character and of the one after it, or an
/// error with the index where lexing goes on.
pub enum Step {
    Done,
    Found(TokenV, int, int),
    Fail(FailV, int),
}

/// The token that begins at `i`, or after `i` when `i` is `=` and the one
/// before it is given (`single` without a following `=`, `double` with one).
pub open spec fn with_equal(s: Seq<char>, i: int, single: TokenV, double: TokenV) -> Step {
    if i + 1 < s.len() && s[i + 1] == '=' {
        Step::Found(double, i, i + 2)
    } else {
        Step::Found(single, i, i + 1)
    }
}

/// What follows the start of a line comment, from index `i` on: the comment
/// runs to the next newline, which is then a token of its own.
pub open spec fn scan_comment(s: Seq<char>, i: int) -> Step
    decreases s.len() - i,
{
    if i < 0 || i >= s.len() {
        Step::Done
    } else if s[i] == '\n' {
        Step::Found(TokenV::NewLine, i, i + 1)
    } else {
        scan_comment(s, i + 1)
    }
}

/// The next token of `s` at or after index `i`.
pub open spec fn scan(s: Seq<char>, i: int) -> Step
    decreases s.len() - i,
{
    if i < 0 || i >= s.len() {
        Step::Done
    } else {
        let c = s[i];
        if c == '{' {
            Step::Found(TokenV::OpenBrace, i, i + 1)
        } else if c == '}' {
            Step::Found(TokenV::CloseBrace, i, i + 1)
        } else if c == '(' {
            Step::Found(TokenV::OpenParen, i, i + 1)
        } else if c == ')' {
            Step::Found(TokenV::CloseParen, i, i + 1)
        } else if c == '[' {
            Step::Found(TokenV::OpenBracket, i, i + 1)
        } else if c == ']' {
            Step::Found(TokenV::CloseBracket, i, i + 1)
        } else if c == ',' {
            Step::Found(TokenV::Comma, i, i + 1)
        } else if c == '.' {
            Step::Found(TokenV::Dot, i, i + 1)
        } else if c == '+' {
            Step::Found(TokenV::Plus, i, i + 1)
        } else if c == '-' {
            Step::Found(TokenV::Minus, i, i + 1)
        } else if c == '*' {
            Step::Found(TokenV::Star, i, i + 1)
        } else if c == '/' {
            if i + 1 < s.len() && s[i + 1] == '/' {
                scan_comment(s, i + 2)
            } else {
                Step::Found(TokenV::Slash, i, i + 1)
            }
        } else if c == '!' {
            with_equal(s, i, TokenV::Not, TokenV::NotEqual)
        } else if c == '=' {
            with_equal(s, i, TokenV::Equal, TokenV::EqualEqual)
        } else if c == '>' {
            with_equal(s, i, TokenV::Greater, TokenV::GreaterEqual)
        } else if c == '<' {
            with_equal(s, i, TokenV::Less, TokenV::LessEqual)
        } else if c == '"' {
            let q = quote_from(s, i + 1);
            if q < s.len() {
                Step::Found(TokenV::String(s.subrange(i + 1, q)), i, q + 1)
            } else {
                Step::Fail(FailV::Unterminated(i), s.len() as int)
            }
        } else if c == '\n' {
            Step::Found(TokenV::NewLine, i, i + 1)
        } else if id_start(c) {
            let e = id_end(s, i);
            Step::Found(word_token(s.subrange(i, e)), i, e)
        } else if is_digit(c) {
            let e = number_end(s, i);
            Step::Found(TokenV::Number(s.subrange(i, e)), i, e)
        } else if white_space(c) {
            scan(s, i + 1)
        } else {
            Step::Fail(FailV::Unexpected(c, i), i + 1)
        }
    }
}

} // verus!

verus! {

/// Relies on `str::chars`: the characters of `s`, in order.
#[verifier::external_body]
pub(crate) fn chars_of(s: &str) -> (r: Vec<char>)
    ensures
        r@ == s@,
{
    s.chars().collect()
}

/// Number of bytes that UTF-8 spends on `c`.
fn utf8_width(c: char) -> (r: usize)
    ensures
        r == utf8_len(c),
{
    let v = c as u32;
    if v < 0x80 {
        1
    } else if v < 0x800 {
        2
    } else if v < 0x10000 {
        3
    } else {
        4
    }
}

proof fn lemma_byte_offset_mono(s: Seq<char>, i: int, j: int)
    requires
        0 <= i <= j,
    ensures
        byte_offset(s, i) <= byte_offset(s, j),
    decreases j - i,
{
    if i < j {
        lemma_byte_offset_mono(s, i, j - 1);
    }
}

/// Whether two texts hold the same characters.
pub(crate) fn same_text(a: &str, b: &str) -> (r: bool)
    ensures
        r == (a@ == b@),
{
    let n = a.unicode_len();
    if n != b.unicode_len() {
        return false;
    }
    let mut i: usize = 0;
    while i < n
        invariant
            n == a@.len(),
            n == b@.len(),
            i <= n,
            a@.subrange(0, i as int) == b@.subrange(0, i as int),
        decreases n - i,
    {
        if a.get_char(i) != b.get_char(i) {
            return false;
        }
        assert(a@.subrange(0, i + 1) == a@.subrange(0, i as int).push(a@[i as int]));
        assert(b@.subrange(0, i + 1) == b@.subrange(0, i as int).push(b@[i as int]));
        i = i + 1;
    }
    assert(a@ == a@.subrange(0, n as int));
    assert(b@ == b@.subrange(0, n as int));
    true
}

/// The token for an identifier-shaped word: its keyword, or an identifier
/// that owns the word.
fn word_to_token(w: &str) -> (r: Token)
    ensures
        r@ == word_token(w@),
{
    if same_text(w, "and") {
        Token::And
    } else if same_text(w, "else") {
        Token::Else
    } else if same_text(w, "false") {
        Token::False
    } else if same_text(w, "fn") {
        Token::Fn
    } else if same_text(w, "for") {
        Token::For
    } else if same_text(w, "if") {
        Token::If
    } else if same_text(w, "nil") {
        Token::Nil
    } else if same_text(w, "or") {
        Token::Or
    } else if same_text(w, "print") {
        Token::Print
    } else if same_text(w, "return") {
        Token::Return
    } else if same_text(w, "this") {
        Token::This
    } else if same_text(w, "true") {
        Token::True
    } else if same_text(w, "let") {
        Token::Let
    } else if same_text(w, "while") {
        Token::While
    } else {
        Token::Identifier(w.to_owned())
    }
}

/// A cursor over a source text that yields its tokens one at a time.
pub struct Lexer<'input> {
    source: &'input str,
    chars: Vec<char>,
    offsets: Vec<usize>,
    pos: usize,
}

impl<'input> Lexer<'input> {
    /// The characters of the source text.
    pub closed spec fn text(&self) -> Seq<char> {
        self.chars@
    }

    /// Index of the character where the next token is looked for.
    pub closed spec fn position(&self) -> int {
        self.pos as int
    }

    pub closed spec fn wf(&self) -> bool {
        &&& self.chars@ == self.source@
        &&& self.offsets@.len() == self.chars@.len() + 1
        &&& forall|j: int|
            0 <= j <= self.chars@.len() ==> #[trigger] self.offsets@[j] == byte_offset(
                self.chars@,
                j,
            )
        &&& self.pos <= self.chars@.len()
    }

    /// A lexer at the start of `source`.
    pub fn new(source: &'input str) -> (r: Lexer<'input>)
        requires
            byte_offset(source@, source@.len() as int) <= usize::MAX,
        ensures
            r.wf(),
            r.text() == source@,
            r.position() == 0,
    {
        let chars = chars_of(source);
        let n = chars.len();
        let mut offsets: Vec<usize> = Vec::new();
        offsets.push(0);
        let mut acc: usize = 0;
        let mut k: usize = 0;
        while k < n
            invariant
                n == chars@.len(),
                chars@ == source@,
                byte_offset(source@, source@.len() as int) <= usize::MAX,
                k <= n,
                offsets@.len() == k + 1,
                acc == byte_offset(chars@, k as int),
                forall|j: int| 0 <= j <= k ==> #[trigger] offsets@[j] == byte_offset(chars@, j),
            decreases n - k,
        {
            proof {
                lemma_byte_offset_mono(chars@, k + 1, n as int);
            }
            acc = acc + utf8_width(chars[k]);
            offsets.push(acc);
            k = k + 1;
        }
        Lexer { source, chars, offsets, pos: 0 }
    }
}

} // verus!

verus! {

/// What the lexer returns for a step of the model.
pub open spec fn step_outcome(s: Seq<char>, st: Step, r: Option<Result<Spanned, LexError>>) -> bool {
    match st {
        Step::Done => r is None,
        Step::Found(t, a, b) => match r {
            Some(Ok(sp)) => sp.token@ == t && sp.start == byte_offset(s, a) && sp.end
                == byte_offset(s, b),
            _ => false,
        },
        Step::Fail(f, _) => r == Some(Err::<Spanned, LexError>(fail_error(s, f))),
    }
}

/// A lexical error of the model, with byte offsets.
pub open spec fn fail_error(s: Seq<char>, f: FailV) -> LexError {
    match f {
        FailV::Unterminated(a) => LexError::UnterminatedString { start: byte_offset(s, a) as usize },
        FailV::Unexpected(c, a) => LexError::UnexpectedChar { ch: c, pos: byte_offset(s, a) as usize },
    }
}

/// Index where lexing goes on after a step of the model.
pub open spec fn step_next(s: Seq<char>, st: Step) -> int {
    match st {
        Step::Done => s.len() as int,
        Step::Found(_, _, b) => b,
        Step::Fail(_, n) => n,
    }
}

impl<'input> Lexer<'input> {
    fn byte_at(&self, i: usize) -> (r: usize)
        requires
            self.wf(),
            i <= self.chars@.len(),
        ensures
            r == byte_offset(self.chars@, i as int),
    {
        self.offsets[i]
    }

    fn text_between(&self, from: usize, to: usize) -> (r: String)
        requires
            self.wf(),
            from <= to <= self.chars@.len(),
        ensures
            r@ == self.chars@.subrange(from as int, to as int),
    {
        self.source.substring_char(from, to).to_owned()
    }

    fn run_id(&self, i: usize) -> (e: usize)
        requires
            self.wf(),
            i < self.chars@.len(),
            id_char(self.chars@[i as int]),
        ensures
            e == id_end(self.chars@, i as int),
            i < e <= self.chars@.len(),
    {
        let n = self.chars.len();
        let mut j = i;
        while j < n && (is_id_start(self.chars[j]) || is_id_continue(self.chars[j]))
            invariant
                self.wf(),
                n == self.chars@.len(),
                i <= j <= n,
                j == i ==> id_char(self.chars@[i as int]),
                id_end(self.chars@, j as int) == id_end(self.chars@, i as int),
            decreases n - j,
        {
            j = j + 1;
        }
        j
    }

    fn run_digits(&self, i: usize) -> (e: usize)
        requires
            self.wf(),
            i < self.chars@.len(),
            is_digit(self.chars@[i as int]),
        ensures
            e == digits_end(self.chars@, i as int),
            i < e <= self.chars@.len(),
    {
        let n = self.chars.len();
        let mut j = i;
        while j < n && '0' <= self.chars[j] && self.chars[j] <= '9'
            invariant
                self.wf(),
                n == self.chars@.len(),
                i <= j <= n,
                j == i ==> is_digit(self.chars@[i as int]),
                digits_end(self.chars@, j as int) == digits_end(self.chars@, i as int),
            decreases n - j,
        {
            j = j + 1;
        }
        j
    }

    fn find_quote(&self, i: usize) -> (q: usize)
        requires
            self.wf(),
            i <= self.chars@.len(),
        ensures
            q == quote_from(self.chars@, i as int),
            i <= q <= self.chars@.len(),
    {
        let n = self.chars.len();
        let mut j = i;
        while j < n && self.chars[j] != '"'
            invariant
                self.wf(),
                n == self.chars@.len(),
                i <= j <= n,
                quote_from(self.chars@, j as int) == quote_from(self.chars@, i as int),
            decreases n - j,
        {
            j = j + 1;
        }
        j
    }

    fn skip_to_line_end(&self, i: usize) -> (j: usize)
        requires
            self.wf(),
            i <= self.chars@.len(),
        ensures
            i <= j <= self.chars@.len(),
            j == self.chars@.len() || self.chars@[j as int] == '\n',
            scan_comment(self.chars@, j as int) == scan_comment(self.chars@, i as int),
    {
        let n = self.chars.len();
        let mut j = i;
        while j < n && self.chars[j] != '\n'
            invariant
                self.wf(),
                n == self.chars@.len(),
                i <= j <= n,
                scan_comment(self.chars@, j as int) == scan_comment(self.chars@, i as int),
            decreases n - j,
        {
            j = j + 1;
        }
        j
    }

    fn emit(&mut self, t: Token, a: usize, b: usize) -> (r: Option<Result<Spanned, LexError>>)
        requires
            old(self).wf(),
            a < b <= old(self).chars@.len(),
        ensures
            final(self).wf(),
            final(self).chars@ == old(self).chars@,
            final(self).pos == b,
            byte_offset(old(self).chars@, a as int) <= usize::MAX,
            byte_offset(old(self).chars@, b as int) <= usize::MAX,
            r == Some(
                Ok::<Spanned, LexError>(
                    (Spanned {
                        start: byte_offset(old(self).chars@, a as int) as usize,
                        token: t,
                        end: byte_offset(old(self).chars@, b as int) as usize,
                    }),
                ),
            ),
    {
        let start = self.byte_at(a);
        let end = self.byte_at(b);
        self.pos = b;
        Some(Ok(Spanned { start, token: t, end }))
    }
}

} // verus!

verus! {

impl<'input> Lexer<'input> {
    /// The next token, with its byte span, or a lexical error; `None` once the
    /// input is used up. Whitespace other than a newline, and line comments,
    /// are passed over.
    pub fn next_token(&mut self) -> (r: Option<Result<Spanned, LexError>>)
        requires
            old(self).wf(),
        ensures
            final(self).wf(),
            final(self).text() == old(self).text(),
            step_outcome(old(self).text(), scan(old(self).text(), old(self).position()), r),
            final(self).position() == step_next(
                old(self).text(),
                scan(old(self).text(), old(self).position()),
            ),
            r is Some ==> final(self).position() > old(self).position(),
    {
        let ghost s = self.chars@;
        let ghost target = scan(s, self.pos as int);
        let n = self.chars.len();
        loop
            invariant
                self.wf(),
                self.chars@ == s,
                s == old(self).chars@,
                target == scan(s, old(self).pos as int),
                n == s.len(),
                scan(s, self.pos as int) == target,
                self.pos >= old(self).pos,
            decreases n - self.pos,
        {
            let i = self.pos;
            if i >= n {
                return None;
            }
            let c = self.chars[i];
            let eq_next = i + 1 < n && self.chars[i + 1] == '=';
            if c == '{' {
                return self.emit(Token::OpenBrace, i, i + 1);
            } else if c == '}' {
                return self.emit(Token::CloseBrace, i, i + 1);
            } else if c == '(' {
                return self.emit(Token::OpenParen, i, i + 1);
            } else if c == ')' {
                return self.emit(Token::CloseParen, i, i + 1);
            } else if c == '[' {
                return self.emit(Token::OpenBracket, i, i + 1);
            } else if c == ']' {
                return self.emit(Token::CloseBracket, i, i + 1);
            } else if c == ',' {
                return self.emit(Token::Comma, i, i + 1);
            } else if c == '.' {
                return self.emit(Token::Dot, i, i + 1);
            } else if c == '+' {
                return self.emit(Token::Plus, i, i + 1);
            } else if c == '-' {
                return self.emit(Token::Minus, i, i + 1);
            } else if c == '*' {
                return self.emit(Token::Star, i, i + 1);
            } else if c == '/' {
                if i + 1 < n && self.chars[i + 1] == '/' {
                    let j = self.skip_to_line_end(i + 2);
                    self.pos = j;
                    continue;
                }
                return self.emit(Token::Slash, i, i + 1);
            } else if c == '!' {
                if eq_next {
                    return self.emit(Token::NotEqual, i, i + 2);
                }
                return self.emit(Token::Not, i, i + 1);
            } else if c == '=' {
                if eq_next {
                    return self.emit(Token::EqualEqual, i, i + 2);
                }
                return self.emit(Token::Equal, i, i + 1);
            } else if c == '>' {
                if eq_next {
                    return self.emit(Token::GreaterEqual, i, i + 2);
                }
                return self.emit(Token::Greater, i, i + 1);
            } else if c == '<' {
                if eq_next {
                    return self.emit(Token::LessEqual, i, i + 2);
                }
                return self.emit(Token::Less, i, i + 1);
            } else if c == '"' {
                let q = self.find_quote(i + 1);
                if q < n {
                    let text = self.text_between(i + 1, q);
                    return self.emit(Token::String(text), i, q + 1);
                }
                let start = self.byte_at(i);
                self.pos = n;
                return Some(Err(LexError::UnterminatedString { start }));
            } else if c == '\n' {
                return self.emit(Token::NewLine, i, i + 1);
            } else if is_id_start(c) {
                let e = self.run_id(i);
                let word = self.source.substring_char(i, e);
                let t = word_to_token(word);
                return self.emit(t, i, e);
            } else if '0' <= c && c <= '9' {
                let e1 = self.run_digits(i);
                let mut e = e1;
                if e1 < n - 1 && self.chars[e1] == '.' && '0' <= self.chars[e1 + 1]
                    && self.chars[e1 + 1] <= '9' {
                    e = self.run_digits(e1 + 1);
                }
                let text = self.text_between(i, e);
                return self.emit(Token::Number(text), i, e);
            } else if is_white_space(c) {
                self.pos = i + 1;
            } else {
                let pos = self.byte_at(i);
                self.pos = i + 1;
                return Some(Err(LexError::UnexpectedChar { ch: c, pos }));
            }
        }
    }
}

} // verus!

verus! {

/// `p` put in front of the tokens of `r`; an error stays as it is.
pub open spec fn prepend(
    p: Seq<SpannedV>,
    r: Result<Seq<SpannedV>, LexError>,
) -> Result<Seq<SpannedV>, LexError> {
    match r {
        Ok(rest) => Ok(p + rest),
        Err(e) => Err(e),
    }
}

/// The tokens of `s` from index `i` on, up to the end or the first lexical
/// error. Each step of the model moves forward (`scan_moves_forward` in
/// `laws`), so the test on `b` always holds; it gives the termination
/// measure what it needs.
pub open spec fn lex_from(s: Seq<char>, i: int) -> Result<Seq<SpannedV>, LexError>
    decreases s.len() - i,
{
    match scan(s, i) {
        Step::Done => Ok(Seq::empty()),
        Step::Found(t, a, b) => if i < b <= s.len() {
            prepend(
                seq![SpannedV { start: byte_offset(s, a), token: t, end: byte_offset(s, b) }],
                lex_from(s, b),
            )
        } else {
            Ok(Seq::empty())
        },
        Step::Fail(f, _) => Err(fail_error(s, f)),
    }
}

/// The tokens of a whole text.
pub open spec fn lex_spec(s: Seq<char>) -> Result<Seq<SpannedV>, LexError> {
    lex_from(s, 0)
}

/// The model of a list of spanned tokens.
pub open spec fn spans_view(v: Seq<Spanned>) -> Seq<SpannedV> {
    v.map_values(|x: Spanned| x@)
}

/// All tokens of `source` with their byte spans, or the first lexical error.
pub fn lex(source: &str) -> (r: Result<Vec<Spanned>, LexError>)
    requires
        byte_offset(source@, source@.len() as int) <= usize::MAX,
    ensures
        match r {
            Ok(v) => lex_spec(source@) == Ok::<Seq<SpannedV>, LexError>(spans_view(v@)),
            Err(e) => lex_spec(source@) == Err::<Seq<SpannedV>, LexError>(e),
        },
{
    let mut lexer = Lexer::new(source);
    let ghost s = source@;
    let mut out: Vec<Spanned> = Vec::new();
    loop
        invariant
            lexer.wf(),
            lexer.text() == s,
            s == source@,
            lex_spec(s) == prepend(spans_view(out@), lex_from(s, lexer.position())),
            0 <= lexer.position() <= s.len(),
        decreases s.len() - lexer.position(),
    {
        let ghost i = lexer.position();
        match lexer.next_token() {
            None => {
                assert(scan(s, i) is Done);
                assert(lex_from(s, i) == Ok::<Seq<SpannedV>, LexError>(Seq::empty()));
                assert(spans_view(out@) + Seq::<SpannedV>::empty() =~= spans_view(out@));
                return Ok(out);
            },
            Some(Err(e)) => {
                assert(scan(s, i) is Fail);
                assert(lex_from(s, i) == Err::<Seq<SpannedV>, LexError>(e));
                return Err(e);
            },
            Some(Ok(sp)) => {
                let ghost v = sp@;
                proof {
                    let p = spans_view(out@);
                    let p2 = spans_view(out@.push(sp));
                    assert(p2 =~= p.push(v));
                    match lex_from(s, lexer.position()) {
                        Ok(rest) => {
                            assert(p + (seq![v] + rest) =~= p.push(v) + rest);
                        },
                        Err(_) => {},
                    }
                }
                out.push(sp);
            },
        }
    }
}

} // verus!
