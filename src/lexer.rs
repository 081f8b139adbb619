//! The lexer: turns source text into tokens, one per call.
use crate::text::{
    alphabetic, is_alphabetic, is_numeric, is_whitespace, lowercase, numeric, push_char, to_lower,
    white_space,
};
use vstd::prelude::*;

verus! {

/// The instruction mnemonics of the language.
#[derive(Copy, Clone, Debug, PartialEq, Eq, Structural)]
pub enum Operator {
    ADD,
    SUB,
    MOV,
    EQ,
    NEQ,
    JMP,
}

/// The operator named by a word whose lower-case mapping is `low`: `add`,
/// `sub` and `mov` in any letter case, `EQ`, `NEQ` and `JMP` in upper case only.
pub open spec fn operator_named(low: Seq<char>, word: Seq<char>) -> Option<Operator> {
    if low == seq!['a', 'd', 'd'] {
        Some(Operator::ADD)
    } else if low == seq!['s', 'u', 'b'] {
        Some(Operator::SUB)
    } else if low == seq!['m', 'o', 'v'] {
        Some(Operator::MOV)
    } else if word == seq!['E', 'Q'] {
        Some(Operator::EQ)
    } else if word == seq!['N', 'E', 'Q'] {
        Some(Operator::NEQ)
    } else if word == seq!['J', 'M', 'P'] {
        Some(Operator::JMP)
    } else {
        None
    }
}

/// The operator that a mnemonic names.
pub open spec fn mnemonic(text: Seq<char>) -> Option<Operator> {
    operator_named(lowercase(text), text)
}

impl Operator {
    /// Resolves a mnemonic; `None` when it names no operator.
    pub fn from_mnemonic(text: &str) -> (r: Option<Operator>)
        ensures
            r == mnemonic(text@),
    {
        let low = to_lower(text);
        Operator::from_words(low.as_str(), text)
    }

    /// Resolves the word `word`, given `low`, its lower-case mapping; `None`
    /// when it names no operator.
    pub fn from_words(low: &str, word: &str) -> (r: Option<Operator>)
        ensures
            r == operator_named(low@, word@),
    {
        let low = String::from_str(low);
        let word = String::from_str(word);
        proof {
            reveal_strlit("add");
            reveal_strlit("sub");
            reveal_strlit("mov");
            reveal_strlit("EQ");
            reveal_strlit("NEQ");
            reveal_strlit("JMP");
            assert("add"@ =~= seq!['a', 'd', 'd']);
            assert("sub"@ =~= seq!['s', 'u', 'b']);
            assert("mov"@ =~= seq!['m', 'o', 'v']);
            assert("EQ"@ =~= seq!['E', 'Q']);
            assert("NEQ"@ =~= seq!['N', 'E', 'Q']);
            assert("JMP"@ =~= seq!['J', 'M', 'P']);
        }
        if low == String::from_str("add") {
            Some(Operator::ADD)
        } else if low == String::from_str("sub") {
            Some(Operator::SUB)
        } else if low == String::from_str("mov") {
            Some(Operator::MOV)
        } else if word == String::from_str("EQ") {
            Some(Operator::EQ)
        } else if word == String::from_str("NEQ") {
            Some(Operator::NEQ)
        } else if word == String::from_str("JMP") {
            Some(Operator::JMP)
        } else {
            None
        }
    }
}

/// A lexical token. Each but `EOF` carries the row and column of the cursor
/// once the token, and the whitespace that ended it, have been consumed.
#[derive(Debug, PartialEq)]
pub enum Token {
    Op(Operator, u32, u32),
    Ident(String, u32, u32),
    REGISTER(String, u32, u32),
    IMMEDIATE(String, u32, u32),
    EOF,
}

/// What a token stands for: its kind, its text and its place.
pub enum TokenView {
    Op(Operator, int, int),
    Ident(Seq<char>, int, int),
    Register(Seq<char>, int, int),
    Immediate(Seq<char>, int, int),
    End,
}

impl View for Token {
    type V = TokenView;

    open spec fn view(&self) -> TokenView {
        match self {
            Token::Op(o, r, c) => TokenView::Op(*o, *r as int, *c as int),
            Token::Ident(t, r, c) => TokenView::Ident(t@, *r as int, *c as int),
            Token::REGISTER(t, r, c) => TokenView::Register(t@, *r as int, *c as int),
            Token::IMMEDIATE(t, r, c) => TokenView::Immediate(t@, *r as int, *c as int),
            Token::EOF => TokenView::End,
        }
    }
}

/// A malformed token, with the row and column where the lexer stopped.
#[derive(Debug, PartialEq)]
pub enum LexError {
    /// An immediate holds a character that is neither a digit nor whitespace.
    ExpectedDigit(char, u32, u32),
    /// A register is not `%<letter><digit>` followed by whitespace or the end;
    /// the offending character, or `None` at the end of the text.
    MalformedRegister(Option<char>, u32, u32),
    /// A `.` with nothing after it.
    EmptyLabel(u32, u32),
    /// A word that names no operator.
    UnknownOperator(String, u32, u32),
}

/// What a lexical error stands for: its kind, what it names, and its place.
pub enum LexErrorView {
    ExpectedDigit(char, int, int),
    MalformedRegister(Option<char>, int, int),
    EmptyLabel(int, int),
    UnknownOperator(Seq<char>, int, int),
}

impl View for LexError {
    type V = LexErrorView;

    open spec fn view(&self) -> LexErrorView {
        match self {
            LexError::ExpectedDigit(ch, r, c) => LexErrorView::ExpectedDigit(*ch, *r as int, *c as int),
            LexError::MalformedRegister(ch, r, c) => LexErrorView::MalformedRegister(
                *ch,
                *r as int,
                *c as int,
            ),
            LexError::EmptyLabel(r, c) => LexErrorView::EmptyLabel(*r as int, *c as int),
            LexError::UnknownOperator(t, r, c) => LexErrorView::UnknownOperator(
                t@,
                *r as int,
                *c as int,
            ),
        }
    }
}

/// The outcome of one call of the lexer, as a value of the model.
pub open spec fn scanned(r: Result<Token, LexError>) -> Result<TokenView, LexErrorView> {
    match r {
        Ok(t) => Ok(t@),
        Err(e) => Err(e@),
    }
}

/// The row once the first `n` characters of `s` are consumed: the newlines among them.
pub open spec fn row_at(s: Seq<char>, n: int) -> int
    decreases n,
{
    if n <= 0 {
        0
    } else if s[n - 1] == '\n' {
        row_at(s, n - 1) + 1
    } else {
        row_at(s, n - 1)
    }
}

/// The column once the first `n` characters of `s` are consumed: the
/// characters consumed since the last newline.
pub open spec fn col_at(s: Seq<char>, n: int) -> int
    decreases n,
{
    if n <= 0 {
        0
    } else if s[n - 1] == '\n' {
        0
    } else {
        col_at(s, n - 1) + 1
    }
}

/// The first index from `i` on that does not hold whitespace.
pub open spec fn skip_blank(s: Seq<char>, i: int) -> int
    decreases s.len() - i,
{
    if 0 <= i < s.len() && white_space(s[i]) {
        skip_blank(s, i + 1)
    } else {
        i
    }
}

/// The first index from `i` on that holds whitespace, or the end.
pub open spec fn word_end(s: Seq<char>, i: int) -> int
    decreases s.len() - i,
{
    if 0 <= i < s.len() && !white_space(s[i]) {
        word_end(s, i + 1)
    } else {
        i
    }
}

/// The first index from `i` on that holds whitespace or a non-numeric character.
pub open spec fn digits_end(s: Seq<char>, i: int) -> int
    decreases s.len() - i,
{
    if 0 <= i < s.len() && !white_space(s[i]) && numeric(s[i]) {
        digits_end(s, i + 1)
    } else {
        i
    }
}

/// Where the cursor stands once a token that ends at `e` and the whitespace
/// character after it, if any, are consumed.
pub open spec fn past(s: Seq<char>, e: int) -> int {
    if e < s.len() {
        e + 1
    } else {
        e
    }
}

/// A character that may name a register: alphabetic and not numeric.
pub open spec fn register_letter(c: char) -> bool {
    !white_space(c) && alphabetic(c) && !numeric(c)
}

/// A character that may number a register.
pub open spec fn register_digit(c: char) -> bool {
    !white_space(c) && numeric(c)
}

/// The rest of an immediate whose text so far is `t`, the cursor at `p`:
/// digits up to whitespace or the end.
pub open spec fn scan_immediate(s: Seq<char>, p: int, t: Seq<char>) -> (
    Result<TokenView, LexErrorView>,
    int,
) {
    let d = digits_end(s, p);
    if d < s.len() && !white_space(s[d]) {
        (Err(LexErrorView::ExpectedDigit(s[d], row_at(s, d + 1), col_at(s, d + 1))), d + 1)
    } else {
        let e = past(s, d);
        (Ok(TokenView::Immediate(t + s.subrange(p, d), row_at(s, e), col_at(s, e))), e)
    }
}

/// The rest of a register whose text so far is `t`, the cursor at `p`: a
/// letter and a digit, then whitespace or the end, which is not consumed.
pub open spec fn scan_register(s: Seq<char>, p: int, t: Seq<char>) -> (
    Result<TokenView, LexErrorView>,
    int,
) {
    if p >= s.len() {
        (Err(LexErrorView::MalformedRegister(None, row_at(s, p), col_at(s, p))), p)
    } else if !register_letter(s[p]) {
        (
            Err(LexErrorView::MalformedRegister(Some(s[p]), row_at(s, p + 1), col_at(s, p + 1))),
            p + 1,
        )
    } else if p + 1 >= s.len() {
        (Err(LexErrorView::MalformedRegister(None, row_at(s, p + 1), col_at(s, p + 1))), p + 1)
    } else if !register_digit(s[p + 1]) {
        (
            Err(
                LexErrorView::MalformedRegister(Some(s[p + 1]), row_at(s, p + 2), col_at(s, p + 2)),
            ),
            p + 2,
        )
    } else if p + 2 < s.len() && !white_space(s[p + 2]) {
        (
            Err(
                LexErrorView::MalformedRegister(Some(s[p + 2]), row_at(s, p + 2), col_at(s, p + 2)),
            ),
            p + 2,
        )
    } else {
        (
            Ok(TokenView::Register(t + s.subrange(p, p + 2), row_at(s, p + 2), col_at(s, p + 2))),
            p + 2,
        )
    }
}

/// The rest of a label whose text so far is `t`, the cursor at `p`: at least
/// one character up to whitespace or the end.
pub open spec fn scan_ident(s: Seq<char>, p: int, t: Seq<char>) -> (
    Result<TokenView, LexErrorView>,
    int,
) {
    let e = word_end(s, p);
    if e == p {
        (Err(LexErrorView::EmptyLabel(row_at(s, p), col_at(s, p))), p)
    } else {
        let f = past(s, e);
        (Ok(TokenView::Ident(t + s.subrange(p, e), row_at(s, f), col_at(s, f))), f)
    }
}

/// The rest of a mnemonic whose text so far is `t`, the cursor at `p`: the
/// characters up to whitespace or the end, resolved as an operator.
pub open spec fn scan_operator(s: Seq<char>, p: int, t: Seq<char>) -> (
    Result<TokenView, LexErrorView>,
    int,
) {
    let e = word_end(s, p);
    let f = past(s, e);
    let text = t + s.subrange(p, e);
    match mnemonic(text) {
        Some(o) => (Ok(TokenView::Op(o, row_at(s, f), col_at(s, f))), f),
        None => (Err(LexErrorView::UnknownOperator(text, row_at(s, f), col_at(s, f))), f),
    }
}

/// One call of the lexer on text `s` with the cursor at `i`: the token or
/// error it yields and where the cursor stands afterwards. Whitespace is
/// skipped; the first other character picks the kind of token.
pub open spec fn scan(s: Seq<char>, i: int) -> (Result<TokenView, LexErrorView>, int) {
    let start = skip_blank(s, i);
    if start >= s.len() {
        (Ok(TokenView::End), start)
    } else {
        let c = s[start];
        if c == '%' {
            scan_register(s, start + 1, seq![c])
        } else if c == '.' {
            scan_ident(s, start + 1, seq![c])
        } else if numeric(c) {
            scan_immediate(s, start + 1, seq![c])
        } else {
            scan_operator(s, start + 1, seq![c])
        }
    }
}

/// Row and column never exceed the number of characters consumed.
pub proof fn lemma_cursor_bounds(s: Seq<char>, n: int)
    requires
        0 <= n <= s.len(),
    ensures
        0 <= row_at(s, n) <= n,
        0 <= col_at(s, n) <= n,
    decreases n,
{
    if n > 0 {
        lemma_cursor_bounds(s, n - 1);
    }
}

/// The ends of runs lie between their start and the end of the text.
pub proof fn lemma_run_bounds(s: Seq<char>, i: int)
    requires
        0 <= i <= s.len(),
    ensures
        i <= skip_blank(s, i) <= s.len(),
        i <= word_end(s, i) <= s.len(),
        i <= digits_end(s, i) <= s.len(),
    decreases s.len() - i,
{
    if i < s.len() {
        lemma_run_bounds(s, i + 1);
    }
}

/// The cursor never moves back nor past the end, and every call that does not
/// find the end of the input consumes at least one character.
pub proof fn lemma_scan_progress(s: Seq<char>, i: int)
    requires
        0 <= i <= s.len(),
    ensures
        i <= scan(s, i).1 <= s.len(),
        scan(s, i).0 != Ok::<TokenView, LexErrorView>(TokenView::End) ==> i < scan(s, i).1,
{
    lemma_run_bounds(s, i);
    let start = skip_blank(s, i);
    if start < s.len() {
        lemma_run_bounds(s, start + 1);
    }
}

proof fn lemma_blank_run(s: Seq<char>, j: int, i: int)
    requires
        0 <= j <= i <= s.len(),
        forall|k: int| j <= k < i ==> white_space(#[trigger] s[k]),
        i == s.len() || !white_space(s[i]),
    ensures
        skip_blank(s, j) == i,
    decreases i - j,
{
    if j < i {
        lemma_blank_run(s, j + 1, i);
    }
}

/// With the cursor at `j` and only whitespace from `j` to `i`, a register
/// `%<letter><digit>` at `i`, followed by whitespace or the end of the text, is
/// scanned as a register with exactly that text, the sigil included; the
/// whitespace after it is left for the next call. A letter is an alphabetic
/// character that is not also numeric.
pub proof fn lemma_register_token(s: Seq<char>, j: int, i: int)
    requires
        0 <= j <= i,
        i + 3 <= s.len(),
        forall|k: int| j <= k < i ==> white_space(#[trigger] s[k]),
        s[i] == '%',
        alphabetic(s[i + 1]),
        !numeric(s[i + 1]),
        numeric(s[i + 2]),
        i + 3 == s.len() || white_space(s[i + 3]),
    ensures
        scan(s, j) == (
            Ok::<TokenView, LexErrorView>(
                TokenView::Register(s.subrange(i, i + 3), row_at(s, i + 3), col_at(s, i + 3)),
            ),
            i + 3,
        ),
{
    lemma_blank_run(s, j, i);
    assert(seq!['%'] + s.subrange(i + 1, i + 3) =~= s.subrange(i, i + 3));
}

/// With the cursor at `j` and only whitespace from `j` to `i`, a run of numeric
/// characters from `i` to `e`, ended by whitespace or the end of the text, is
/// scanned as an immediate with exactly that run as its text.
pub proof fn lemma_immediate_token(s: Seq<char>, j: int, i: int, e: int)
    requires
        0 <= j <= i < e <= s.len(),
        forall|k: int| j <= k < i ==> white_space(#[trigger] s[k]),
        forall|k: int| i <= k < e ==> numeric(#[trigger] s[k]),
        e == s.len() || white_space(s[e]),
    ensures
        scan(s, j) == (
            Ok::<TokenView, LexErrorView>(
                TokenView::Immediate(s.subrange(i, e), row_at(s, past(s, e)), col_at(s, past(s, e))),
            ),
            past(s, e),
        ),
{
    assert(numeric(s[i]));
    lemma_blank_run(s, j, i);
    lemma_digits_run(s, i + 1, e);
    assert(seq![s[i]] + s.subrange(i + 1, e) =~= s.subrange(i, e));
}

proof fn lemma_digits_run(s: Seq<char>, i: int, e: int)
    requires
        0 <= i <= e <= s.len(),
        forall|k: int| i <= k < e ==> numeric(#[trigger] s[k]),
        e == s.len() || white_space(s[e]),
    ensures
        digits_end(s, i) == e,
    decreases e - i,
{
    if i < e {
        assert(numeric(s[i]));
        lemma_digits_run(s, i + 1, e);
    }
}

/// With the cursor at `j` and only whitespace from `j` to `i`, a `.` at `i`
/// followed by one or more characters other than whitespace, up to whitespace
/// or the end of the text at `e`, is scanned as a label whose text holds the
/// `.` and those characters.
pub proof fn lemma_label_token(s: Seq<char>, j: int, i: int, e: int)
    requires
        0 <= j <= i,
        i + 1 < e <= s.len(),
        forall|k: int| j <= k < i ==> white_space(#[trigger] s[k]),
        s[i] == '.',
        forall|k: int| i < k < e ==> !white_space(#[trigger] s[k]),
        e == s.len() || white_space(s[e]),
    ensures
        scan(s, j) == (
            Ok::<TokenView, LexErrorView>(
                TokenView::Ident(s.subrange(i, e), row_at(s, past(s, e)), col_at(s, past(s, e))),
            ),
            past(s, e),
        ),
{
    lemma_blank_run(s, j, i);
    lemma_word_run(s, i + 1, e);
    assert(seq!['.'] + s.subrange(i + 1, e) =~= s.subrange(i, e));
}

proof fn lemma_word_run(s: Seq<char>, i: int, e: int)
    requires
        0 <= i <= e <= s.len(),
        forall|k: int| i <= k < e ==> !white_space(#[trigger] s[k]),
        e == s.len() || white_space(s[e]),
    ensures
        word_end(s, i) == e,
    decreases e - i,
{
    if i < e {
        lemma_word_run(s, i + 1, e);
    }
}

/// Once a call has yielded the end of the input, every further call yields it
/// again and leaves the cursor where it is.
pub proof fn lemma_end_is_stable(s: Seq<char>, i: int)
    requires
        0 <= i <= s.len(),
        scan(s, i).0 == Ok::<TokenView, LexErrorView>(TokenView::End),
    ensures
        scan(s, scan(s, i).1) == scan(s, i),
{
    lemma_run_bounds(s, i);
}

/// Two lexers over the same text with their cursors at the same place yield
/// the same next token and leave their cursors at the same place: scanning a
/// text twice gives the same tokens.
pub proof fn lemma_scan_deterministic(a: &Lexer, b: &Lexer)
    requires
        a.wf(),
        b.wf(),
        a.text() == b.text(),
        a.pos() == b.pos(),
    ensures
        scan(a.text(), a.pos()) == scan(b.text(), b.pos()),
{
}

/// The lexer's state: the text, the cursor in it, and the row and column
/// that the consumed characters give.
pub struct Lexer {
    chars: Vec<char>,
    pos: usize,
    row: u32,
    col: u32,
}

impl Lexer {
    /// The text being scanned.
    pub closed spec fn text(&self) -> Seq<char> {
        self.chars@
    }

    /// The number of characters consumed so far.
    pub closed spec fn pos(&self) -> int {
        self.pos as int
    }

    /// The cursor lies in the text and the row and column match it.
    pub closed spec fn wf(&self) -> bool {
        &&& self.pos <= self.chars.len() <= u32::MAX
        &&& self.row == row_at(self.chars@, self.pos as int)
        &&& self.col == col_at(self.chars@, self.pos as int)
    }

    /// The cursor lies within the text, whose length fits a `u32`.
    pub proof fn lemma_bounds(&self)
        requires
            self.wf(),
        ensures
            0 <= self.pos() <= self.text().len() <= u32::MAX,
    {
    }

    /// A lexer at the start of `text`.
    pub fn new(text: &str) -> (r: Lexer)
        requires
            text@.len() <= u32::MAX,
        ensures
            r.wf(),
            r.text() == text@,
            r.pos() == 0,
    {
        let mut chars: Vec<char> = Vec::new();
        for c in it: text.chars()
            invariant
                chars@ == it.seq().take(it.index() as int),
        {
            chars.push(c);
        }
        proof {
            assert(chars@ =~= text@);
        }
        Lexer { chars, pos: 0, row: 0, col: 0 }
    }

    /// The character under the cursor, or `None` once the text is consumed.
    pub fn cur(&self) -> (r: Option<char>)
        requires
            self.wf(),
        ensures
            r == (if self.pos() < self.text().len() {
                Some(self.text()[self.pos()])
            } else {
                None
            }),
    {
        if self.pos < self.chars.len() {
            Some(self.chars[self.pos])
        } else {
            None
        }
    }

    /// The row of the cursor: the newlines consumed so far.
    pub fn row(&self) -> (r: u32)
        requires
            self.wf(),
        ensures
            r == row_at(self.text(), self.pos()),
    {
        self.row
    }

    /// The column of the cursor: the characters consumed since the last newline.
    pub fn col(&self) -> (r: u32)
        requires
            self.wf(),
        ensures
            r == col_at(self.text(), self.pos()),
    {
        self.col
    }

    /// Moves the cursor past one character; at the end of the text, does nothing.
    pub fn consume(&mut self)
        requires
            old(self).wf(),
        ensures
            final(self).wf(),
            final(self).text() == old(self).text(),
            final(self).pos() == if old(self).pos() < old(self).text().len() {
                old(self).pos() + 1
            } else {
                old(self).pos()
            },
    {
        if self.pos < self.chars.len() {
            let c = self.chars[self.pos];
            proof {
                lemma_cursor_bounds(self.chars@, self.pos as int);
            }
            self.pos = self.pos + 1;
            if c == '\n' {
                self.row = self.row + 1;
                self.col = 0;
            } else {
                self.col = self.col + 1;
            }
        }
    }

    /// Scans the next token. Once the text is consumed, every call yields `EOF`
    /// and leaves the lexer as it is.
    pub fn parse_token(&mut self) -> (r: Result<Token, LexError>)
        requires
            old(self).wf(),
        ensures
            final(self).wf(),
            final(self).text() == old(self).text(),
            (scanned(r), final(self).pos()) == scan(old(self).text(), old(self).pos()),
    {
        let ghost s = self.text();
        let ghost i = self.pos();
        loop
            invariant
                self.wf(),
                self.text() == s,
                s == old(self).text(),
                i == old(self).pos(),
                i <= self.pos(),
                skip_blank(s, i) == skip_blank(s, self.pos()),
            decreases s.len() - self.pos(),
        {
            match self.cur() {
                None => {
                    return Ok(Token::EOF);
                },
                Some(c) => {
                    self.consume();
                    if is_whitespace(c) {
                        continue ;
                    }
                    let mut token = String::new();
                    push_char(&mut token, c);
                    assert(token@ =~= seq![c]);
                    if c == '%' {
                        return self.register(token);
                    } else if c == '.' {
                        return self.ident(token);
                    } else if is_numeric(c) {
                        return self.intermediate(token);
                    } else {
                        return self.op(token);
                    }
                },
            }
        }
    }

    /// Scans the digits of an immediate whose text so far is `token`, and the
    /// whitespace that ends it.
    #[verifier::loop_isolation(false)]
    fn intermediate(&mut self, token: String) -> (r: Result<Token, LexError>)
        requires
            old(self).wf(),
        ensures
            final(self).wf(),
            final(self).text() == old(self).text(),
            (scanned(r), final(self).pos()) == scan_immediate(
                old(self).text(),
                old(self).pos(),
                token@,
            ),
    {
        let ghost s = self.text();
        let ghost p = self.pos();
        let ghost t = token@;
        let mut token = token;
        loop
            invariant
                self.wf(),
                self.text() == s,
                s == old(self).text(),
                p == old(self).pos(),
                p <= self.pos(),
                digits_end(s, p) == digits_end(s, self.pos()),
                token@ == t + s.subrange(p, self.pos()),
            decreases s.len() - self.pos(),
        {
            match self.cur() {
                None => {
                    return Ok(Token::IMMEDIATE(token, self.row, self.col));
                },
                Some(c) => {
                    self.consume();
                    if is_whitespace(c) {
                        return Ok(Token::IMMEDIATE(token, self.row, self.col));
                    }
                    if !is_numeric(c) {
                        return Err(LexError::ExpectedDigit(c, self.row, self.col));
                    }
                    push_char(&mut token, c);
                    assert(token@ =~= t + s.subrange(p, self.pos()));
                },
            }
        }
    }

    /// Scans the letter and the digit of a register whose text so far is
    /// `token`. The character after them must be whitespace or the end of the
    /// text; it is left unconsumed.
    pub fn register(&mut self, token: String) -> (r: Result<Token, LexError>)
        requires
            old(self).wf(),
        ensures
            final(self).wf(),
            final(self).text() == old(self).text(),
            (scanned(r), final(self).pos()) == scan_register(
                old(self).text(),
                old(self).pos(),
                token@,
            ),
    {
        let ghost s = self.text();
        let ghost p = self.pos();
        let ghost t = token@;
        let mut token = token;
        let letter = match self.cur() {
            Some(c) => c,
            None => {
                return Err(LexError::MalformedRegister(None, self.row, self.col));
            },
        };
        self.consume();
        if is_whitespace(letter) || !is_alphabetic(letter) || is_numeric(letter) {
            return Err(LexError::MalformedRegister(Some(letter), self.row, self.col));
        }
        push_char(&mut token, letter);
        let digit = match self.cur() {
            Some(c) => c,
            None => {
                return Err(LexError::MalformedRegister(None, self.row, self.col));
            },
        };
        self.consume();
        if is_whitespace(digit) || !is_numeric(digit) {
            return Err(LexError::MalformedRegister(Some(digit), self.row, self.col));
        }
        push_char(&mut token, digit);
        if let Some(next) = self.cur() {
            if !is_whitespace(next) {
                return Err(LexError::MalformedRegister(Some(next), self.row, self.col));
            }
        }
        assert(token@ =~= t + s.subrange(p, p + 2));
        Ok(Token::REGISTER(token, self.row, self.col))
    }

    /// Scans the rest of a label whose text so far is `token`: at least one
    /// character, up to and including the whitespace that ends it.
    #[verifier::loop_isolation(false)]
    fn ident(&mut self, token: String) -> (r: Result<Token, LexError>)
        requires
            old(self).wf(),
        ensures
            final(self).wf(),
            final(self).text() == old(self).text(),
            (scanned(r), final(self).pos()) == scan_ident(old(self).text(), old(self).pos(), token@),
    {
        let ghost s = self.text();
        let ghost p = self.pos();
        let ghost t = token@;
        let mut token = token;
        proof {
            lemma_run_bounds(s, p);
        }
        match self.cur() {
            None => {
                return Err(LexError::EmptyLabel(self.row, self.col));
            },
            Some(c) => {
                if is_whitespace(c) {
                    return Err(LexError::EmptyLabel(self.row, self.col));
                }
                proof {
                    lemma_run_bounds(s, p + 1);
                }
            },
        }
        loop
            invariant
                self.wf(),
                self.text() == s,
                s == old(self).text(),
                p == old(self).pos(),
                p <= self.pos(),
                p < word_end(s, p),
                word_end(s, p) == word_end(s, self.pos()),
                token@ == t + s.subrange(p, self.pos()),
            decreases s.len() - self.pos(),
        {
            match self.cur() {
                None => {
                    return Ok(Token::Ident(token, self.row, self.col));
                },
                Some(c) => {
                    self.consume();
                    if is_whitespace(c) {
                        return Ok(Token::Ident(token, self.row, self.col));
                    }
                    push_char(&mut token, c);
                    assert(token@ =~= t + s.subrange(p, self.pos()));
                },
            }
        }
    }

    /// Scans the rest of a mnemonic whose text so far is `token`, up to and
    /// including the whitespace that ends it, and resolves it.
    #[verifier::loop_isolation(false)]
    fn op(&mut self, token: String) -> (r: Result<Token, LexError>)
        requires
            old(self).wf(),
        ensures
            final(self).wf(),
            final(self).text() == old(self).text(),
            (scanned(r), final(self).pos()) == scan_operator(
                old(self).text(),
                old(self).pos(),
                token@,
            ),
    {
        let ghost s = self.text();
        let ghost p = self.pos();
        let ghost t = token@;
        let mut token = token;
        loop
            invariant
                self.wf(),
                self.text() == s,
                s == old(self).text(),
                p == old(self).pos(),
                p <= self.pos(),
                word_end(s, p) == word_end(s, self.pos()),
                token@ == t + s.subrange(p, self.pos()),
            decreases s.len() - self.pos(),
        {
            let done = match self.cur() {
                None => true,
                Some(c) => {
                    self.consume();
                    if is_whitespace(c) {
                        true
                    } else {
                        push_char(&mut token, c);
                        assert(token@ =~= t + s.subrange(p, self.pos()));
                        false
                    }
                },
            };
            if done {
                break ;
            }
        }
        match Operator::from_mnemonic(token.as_str()) {
            Some(o) => Ok(Token::Op(o, self.row, self.col)),
            None => Err(LexError::UnknownOperator(token, self.row, self.col)),
        }
    }
}

} // verus!
