use vstd::prelude::*;

use std::rc::Rc;

verus! {

/// The characters treated as whitespace between lexemes.
pub open spec fn is_lisp_whitespace(c: char) -> bool {
    c == ' ' || c == '\t' || c == '\n' || c == '\r'
}

/// The characters that end a line, and with it a comment lexeme.
pub open spec fn is_line_break(c: char) -> bool {
    c == '\n' || c == '\r'
}

/// The first position at or after `i` whose character is not whitespace
/// (or the end of the buffer).
pub open spec fn whitespace_end(b: Seq<char>, i: int) -> int
    decreases b.len() - i when 0 <= i <= b.len()
{
    if i == b.len() {
        i
    } else if is_lisp_whitespace(b[i]) {
        whitespace_end(b, i + 1)
    } else {
        i
    }
}

/// The first position at or after `i` whose character ends an atom lexeme:
/// whitespace or a parenthesis (or the end of the buffer).
pub open spec fn atom_end(b: Seq<char>, i: int) -> int
    decreases b.len() - i when 0 <= i <= b.len()
{
    if i == b.len() {
        i
    } else if is_lisp_whitespace(b[i]) || b[i] == '(' || b[i] == ')' {
        i
    } else {
        atom_end(b, i + 1)
    }
}

/// The first position at or after `i` that holds a line break
/// (or the end of the buffer).
pub open spec fn line_end(b: Seq<char>, i: int) -> int
    decreases b.len() - i when 0 <= i <= b.len()
{
    if i == b.len() {
        i
    } else if is_line_break(b[i]) {
        i
    } else {
        line_end(b, i + 1)
    }
}

/// The position just past a string lexeme whose body starts at `i` (the
/// opening quote sits at `i - 1`). A backslash always consumes the following
/// character; an unterminated string runs to the end of the buffer.
pub open spec fn string_body_end(b: Seq<char>, i: int) -> int
    decreases b.len() - i when 0 <= i <= b.len()
{
    if i == b.len() {
        i
    } else if b[i] == '"' {
        i + 1
    } else if b[i] == '\\' {
        if i + 2 <= b.len() {
            string_body_end(b, i + 2)
        } else {
            b.len() as int
        }
    } else {
        string_body_end(b, i + 1)
    }
}

/// The span `[start, end)` of the next lexeme at or after position `i`, or
/// `None` when only whitespace remains. After skipping whitespace, the rules
/// are, in priority order: `(`, `)` and `'` are one-character lexemes; `#'`
/// is a two-character lexeme; `"` opens a string lexeme; `;` opens a comment
/// lexeme that runs to the end of the line; anything else is an atom lexeme
/// that runs until whitespace or a parenthesis.
pub open spec fn next_span(b: Seq<char>, i: int) -> Option<(int, int)> {
    let s = whitespace_end(b, i);
    if s == b.len() {
        Option::None
    } else {
        let e = if b[s] == '(' || b[s] == ')' || b[s] == '\'' {
            s + 1
        } else if b[s] == '#' && s + 1 < b.len() && b[s + 1] == '\'' {
            s + 2
        } else if b[s] == '"' {
            string_body_end(b, s + 1)
        } else if b[s] == ';' {
            line_end(b, s)
        } else {
            atom_end(b, s)
        };
        Option::Some((s, e))
    }
}

pub proof fn lemma_whitespace_end(b: Seq<char>, i: int)
    requires
        0 <= i <= b.len(),
    ensures
        i <= whitespace_end(b, i) <= b.len(),
        whitespace_end(b, i) < b.len() ==> !is_lisp_whitespace(b[whitespace_end(b, i)]),
    decreases b.len() - i,
{
    if i < b.len() && is_lisp_whitespace(b[i]) {
        lemma_whitespace_end(b, i + 1);
    }
}

pub proof fn lemma_atom_end(b: Seq<char>, i: int)
    requires
        0 <= i <= b.len(),
    ensures
        i <= atom_end(b, i) <= b.len(),
    decreases b.len() - i,
{
    if i < b.len() && !(is_lisp_whitespace(b[i]) || b[i] == '(' || b[i] == ')') {
        lemma_atom_end(b, i + 1);
    }
}

pub proof fn lemma_line_end(b: Seq<char>, i: int)
    requires
        0 <= i <= b.len(),
    ensures
        i <= line_end(b, i) <= b.len(),
    decreases b.len() - i,
{
    if i < b.len() && !is_line_break(b[i]) {
        lemma_line_end(b, i + 1);
    }
}

pub proof fn lemma_string_body_end(b: Seq<char>, i: int)
    requires
        0 <= i <= b.len(),
    ensures
        i <= string_body_end(b, i) <= b.len(),
    decreases b.len() - i,
{
    if i < b.len() && b[i] != '"' {
        if b[i] == '\\' {
            if i + 2 <= b.len() {
                lemma_string_body_end(b, i + 2);
            }
        } else {
            lemma_string_body_end(b, i + 1);
        }
    }
}

/// Every lexeme span is non-empty, in bounds, and starts no earlier than the
/// scan position it was produced from.
pub proof fn lemma_next_span_bounds(b: Seq<char>, i: int)
    requires
        0 <= i <= b.len(),
    ensures
        match next_span(b, i) {
            Option::Some((s, e)) => i <= s < e <= b.len(),
            Option::None => whitespace_end(b, i) == b.len(),
        },
{
    lemma_whitespace_end(b, i);
    let s = whitespace_end(b, i);
    if s < b.len() {
        if b[s] == '(' || b[s] == ')' || b[s] == '\'' {
        } else if b[s] == '#' && s + 1 < b.len() && b[s + 1] == '\'' {
        } else if b[s] == '"' {
            lemma_string_body_end(b, s + 1);
        } else if b[s] == ';' {
            lemma_line_end(b, s + 1);
        } else {
            lemma_atom_end(b, s + 1);
        }
    }
}

/// Splits a complete input buffer into lexeme spans.
///
/// The scanner shares the buffer with every span it emits instead of copying
/// it, and advances a cursor one lexeme per [`Scanner::next`] call.
pub struct Scanner {
    i: usize,
    buffer: Rc<String>,
}

/// One lexeme span: half-open character offsets into the shared buffer.
pub struct ScanToken {
    start: usize,
    end: usize,
    buffer: Rc<String>,
}

fn is_whitespace_char(c: char) -> (r: bool)
    ensures
        r == is_lisp_whitespace(c),
{
    c == ' ' || c == '\t' || c == '\n' || c == '\r'
}

fn is_atom_stop_char(c: char) -> (r: bool)
    ensures
        r == (is_lisp_whitespace(c) || c == '(' || c == ')'),
{
    is_whitespace_char(c) || c == '(' || c == ')'
}

fn is_line_break_char(c: char) -> (r: bool)
    ensures
        r == is_line_break(c),
{
    c == '\n' || c == '\r'
}

impl Scanner {
    /// The buffer being scanned, as a sequence of characters.
    pub closed spec fn buf(&self) -> Seq<char> {
        self.buffer@
    }

    /// The current cursor position, in characters.
    pub closed spec fn pos(&self) -> int {
        self.i as int
    }

    /// The cursor never runs past the end of the buffer.
    pub open spec fn wf(&self) -> bool {
        self.pos() <= self.buf().len()
    }

    /// Starts a scan at the beginning of the given text.
    pub fn from_str(buffer: &str) -> (r: Scanner)
        ensures
            r.wf(),
            r.buf() == buffer@,
            r.pos() == 0,
    {
        Scanner { i: 0, buffer: Rc::new(buffer.to_owned()) }
    }

    /// Advances the cursor past any run of whitespace.
    pub fn skip_whitespace(&mut self)
        requires
            old(self).wf(),
        ensures
            final(self).wf(),
            final(self).buf() == old(self).buf(),
            final(self).pos() == whitespace_end(old(self).buf(), old(self).pos()),
    {
        while self.i < (*self.buffer).as_str().unicode_len()
            && is_whitespace_char((*self.buffer).as_str().get_char(self.i))
            invariant
                self.wf(),
                self.buf() == old(self).buf(),
                whitespace_end(self.buf(), self.pos())
                    == whitespace_end(old(self).buf(), old(self).pos()),
            decreases self.buf().len() - self.pos(),
        {
            self.i = self.i + 1;
        }
    }

    /// Advances the cursor to the end of an atom lexeme: the next whitespace
    /// character or parenthesis.
    pub fn skip_to_end(&mut self)
        requires
            old(self).wf(),
        ensures
            final(self).wf(),
            final(self).buf() == old(self).buf(),
            final(self).pos() == atom_end(old(self).buf(), old(self).pos()),
    {
        while self.i < (*self.buffer).as_str().unicode_len()
            && !is_atom_stop_char((*self.buffer).as_str().get_char(self.i))
            invariant
                self.wf(),
                self.buf() == old(self).buf(),
                atom_end(self.buf(), self.pos())
                    == atom_end(old(self).buf(), old(self).pos()),
            decreases self.buf().len() - self.pos(),
        {
            self.i = self.i + 1;
        }
    }

    /// Advances the cursor to the next line break, consuming a comment
    /// lexeme.
    fn skip_line(&mut self)
        requires
            old(self).wf(),
        ensures
            final(self).wf(),
            final(self).buf() == old(self).buf(),
            final(self).pos() == line_end(old(self).buf(), old(self).pos()),
    {
        while self.i < (*self.buffer).as_str().unicode_len()
            && !is_line_break_char((*self.buffer).as_str().get_char(self.i))
            invariant
                self.wf(),
                self.buf() == old(self).buf(),
                line_end(self.buf(), self.pos())
                    == line_end(old(self).buf(), old(self).pos()),
            decreases self.buf().len() - self.pos(),
        {
            self.i = self.i + 1;
        }
    }

    /// Advances the cursor past a string lexeme: the cursor must sit on the
    /// opening quote; a backslash escapes the following character; an
    /// unterminated string consumes the rest of the buffer.
    pub fn skip_string(&mut self)
        requires
            old(self).wf(),
            old(self).pos() < old(self).buf().len(),
            old(self).buf()[old(self).pos()] == '"',
        ensures
            final(self).wf(),
            final(self).buf() == old(self).buf(),
            final(self).pos() == string_body_end(old(self).buf(), old(self).pos() + 1),
    {
        let n = (*self.buffer).as_str().unicode_len();
        self.i = self.i + 1;
        while self.i < n && (*self.buffer).as_str().get_char(self.i) != '"'
            invariant
                self.wf(),
                self.buf() == old(self).buf(),
                n == self.buf().len(),
                string_body_end(self.buf(), self.pos())
                    == string_body_end(old(self).buf(), old(self).pos() + 1),
            decreases self.buf().len() - self.pos(),
        {
            if (*self.buffer).as_str().get_char(self.i) == '\\' {
                if self.i + 1 < n {
                    self.i = self.i + 2;
                } else {
                    self.i = n;
                }
            } else {
                self.i = self.i + 1;
            }
        }
        if self.i < n {
            self.i = self.i + 1;
        }
    }

    /// Whether the cursor has reached the end of the buffer.
    pub fn at_end(&self) -> (r: bool)
        ensures
            r == (self.pos() >= self.buf().len()),
    {
        self.i >= (*self.buffer).as_str().unicode_len()
    }

    /// Produces the next lexeme span, or `None` when only whitespace
    /// remains. The emitted span shares the buffer with the scanner.
    pub fn next(&mut self) -> (r: Option<ScanToken>)
        requires
            old(self).wf(),
        ensures
            final(self).wf(),
            final(self).buf() == old(self).buf(),
            match next_span(old(self).buf(), old(self).pos()) {
                Option::Some((s, e)) => {
                    &&& r matches Option::Some(t) && t.buf() == old(self).buf()
                        && t.start() == s && t.end() == e
                    &&& final(self).pos() == e
                },
                Option::None => r is None && final(self).pos() == old(self).buf().len(),
            },
    {
        proof {
            lemma_next_span_bounds(old(self).buf(), old(self).pos());
        }
        self.skip_whitespace();

        if self.at_end() {
            return None;
        }

        let start = self.i;
        let n = (*self.buffer).as_str().unicode_len();
        let peek = (*self.buffer).as_str().get_char(self.i);
        if peek == '\'' {
            self.i = self.i + 1;
        } else if peek == '(' {
            self.i = self.i + 1;
        } else if peek == ')' {
            self.i = self.i + 1;
        } else if peek == '#' && self.i + 1 < n
            && (*self.buffer).as_str().get_char(self.i + 1) == '\'' {
            self.i = self.i + 2;
        } else if peek == '"' {
            self.skip_string();
        } else if peek == ';' {
            self.skip_line();
        } else {
            self.skip_to_end();
        }

        Some(ScanToken { start, end: self.i, buffer: self.buffer.clone() })
    }
}

impl ScanToken {
    /// The buffer this span points into, as a sequence of characters.
    pub closed spec fn buf(&self) -> Seq<char> {
        self.buffer@
    }

    /// The first character offset of the span.
    pub closed spec fn start(&self) -> int {
        self.start as int
    }

    /// The character offset just past the span.
    pub closed spec fn end(&self) -> int {
        self.end as int
    }

    /// Copies the spanned text out of the shared buffer, or returns `None`
    /// when the span does not lie inside it.
    pub fn get_string(&self) -> (r: Option<String>)
        ensures
            if self.start() <= self.end() <= self.buf().len() {
                r matches Option::Some(s) && s@ == self.buf().subrange(
                    self.start(),
                    self.end(),
                )
            } else {
                r is None
            },
    {
        let n = (*self.buffer).as_str().unicode_len();
        if self.start <= self.end && self.end <= n {
            Some((*self.buffer).as_str().substring_char(self.start, self.end).to_owned())
        } else {
            None
        }
    }
}

} // verus!
