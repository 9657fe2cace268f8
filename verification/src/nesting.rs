//! How deep inside blocks and brackets a place in an mq script is.
//!
//! Blocks are `def`, `fn`, `->`, `foreach`, `while`, `loop`, `match`, `module` and `do`; an `end`
//! or a `;` closes the innermost block, and a closing bracket the innermost bracket. Words count where they stand as code: not in strings, comments
//! or selectors, and not as a part of a longer name.

use vstd::prelude::*;

use crate::text;
use crate::text::{is_text, Trim};

verus! {

/// What is open at a place in a script.
#[derive(Clone, Copy, Debug, PartialEq, Eq, Structural)]
pub enum Open {
    /// A bracket of any kind.
    Bracket,
    /// A block of which the head is read: a `:` or a `do` may still lead to its body.
    Head,
    /// A block of which the body is read.
    Body,
}

/// What the characters at a place in a script are a part of.
#[derive(Clone, Copy, Debug, PartialEq, Eq, Structural)]
pub enum Reading {
    /// Code between words.
    Code,
    /// A word, which may turn out to open or to close a block.
    Word,
    /// A name that opens and closes nothing.
    Name,
    /// What follows a `-`, which may turn out to be an arrow.
    Dash,
    /// A string.
    Quoted,
    /// The character behind a backslash in a string.
    QuotedEscape,
    /// An interpolated string.
    Template,
    /// The character behind a backslash in an interpolated string.
    TemplateEscape,
    /// The character behind a `$` in an interpolated string.
    TemplateDollar,
    /// An expression in an interpolated string.
    Hole,
    /// A comment.
    Comment,
}

/// What the last word leads to.
#[derive(Clone, Copy, Debug, PartialEq, Eq, Structural)]
pub enum Last {
    /// The name of what is defined.
    Naming,
    /// The expression of a `try` or a `catch`, in front of which a `do` opens nothing.
    Trying,
    /// Anything.
    Plain,
}

/// The model of a [`Nesting`].
pub ghost struct NestingView {
    pub reading: Reading,
    pub word: Seq<char>,
    pub last: Last,
    pub open: Seq<Open>,
}

/// The start of a script.
pub open spec fn outermost() -> NestingView {
    NestingView { reading: Reading::Code, word: seq![], last: Last::Plain, open: seq![] }
}

/// Whether a word can begin with this character.
pub open spec fn begins_word(c: char) -> bool {
    'a' <= c <= 'z' || 'A' <= c <= 'Z' || c == '_'
}

/// Whether a word goes on with this character.
pub open spec fn continues_word(c: char) -> bool {
    begins_word(c) || '0' <= c <= '9' || ('\u{80}' <= c && !text::is_white(c))
}

/// Whether this word opens a block that has a head.
pub open spec fn opens_block(word: Seq<char>) -> bool {
    ||| word == "def"@
    ||| word == "fn"@
    ||| word == "foreach"@
    ||| word == "while"@
    ||| word == "loop"@
    ||| word == "match"@
    ||| word == "module"@
}

/// What is open once the body of the innermost block has begun.
pub open spec fn begun(open: Seq<Open>) -> Seq<Open> {
    if open.len() > 0 && open.last() == Open::Head {
        open.drop_last().push(Open::Body)
    } else {
        open
    }
}

/// What is open around the innermost block; none where no block is open.
pub open spec fn without_block(open: Seq<Open>) -> Option<Seq<Open>>
    decreases open.len(),
{
    if open.len() == 0 {
        None
    } else if open.last() == Open::Bracket {
        without_block(open.drop_last())
    } else {
        Some(open.drop_last())
    }
}

/// What is open around the innermost bracket; none where no bracket is open.
pub open spec fn without_bracket(open: Seq<Open>) -> Option<Seq<Open>>
    decreases open.len(),
{
    if open.len() == 0 {
        None
    } else if open.last() == Open::Bracket {
        Some(open.drop_last())
    } else {
        without_bracket(open.drop_last())
    }
}

/// What is open behind an `end` or a `;`: the innermost block is closed, and with it the brackets
/// that were left open inside it. Where no block is open nothing is closed.
pub open spec fn block_closed(open: Seq<Open>) -> Seq<Open> {
    match without_block(open) {
        Some(around) => around,
        None => open,
    }
}

/// What is open behind a closing bracket: the innermost bracket is closed, and with it the blocks
/// that were left open inside it. Where no bracket is open nothing is closed.
pub open spec fn bracket_closed(open: Seq<Open>) -> Seq<Open> {
    match without_bracket(open) {
        Some(around) => around,
        None => open,
    }
}

/// What is open behind a word. A `do` in place of the `:` of a head leads to the body of that
/// block; any other opens a block of its own.
pub open spec fn open_after(state: NestingView) -> Seq<Open> {
    let open = state.open;
    if opens_block(state.word) {
        begun(open).push(Open::Head)
    } else if state.word == "end"@ {
        block_closed(open)
    } else if state.word == "do"@ {
        if open.len() > 0 && open.last() == Open::Head {
            begun(open)
        } else if state.last == Last::Trying {
            open
        } else {
            open.push(Open::Body)
        }
    } else if state.last == Last::Naming {
        open
    } else {
        begun(open)
    }
}

/// What a word leads to.
pub open spec fn leads_to(word: Seq<char>) -> Last {
    if word == "def"@ || word == "module"@ {
        Last::Naming
    } else if word == "try"@ || word == "catch"@ {
        Last::Trying
    } else {
        Last::Plain
    }
}

/// Behind a word.
pub open spec fn after_word(state: NestingView) -> NestingView {
    NestingView {
        reading: Reading::Code,
        word: seq![],
        last: leads_to(state.word),
        open: open_after(state),
    }
}

/// Behind one more character that does not belong to a word or a string that was begun before it.
pub open spec fn after_code(state: NestingView, c: char) -> NestingView {
    let plain = NestingView { reading: Reading::Code, last: Last::Plain, ..state };
    if text::is_white(c) {
        NestingView { reading: Reading::Code, ..state }
    } else if begins_word(c) {
        NestingView { reading: Reading::Word, word: seq![c], ..state }
    } else if c == '#' {
        NestingView { reading: Reading::Comment, ..state }
    } else if c == '(' || c == '[' || c == '{' {
        NestingView { open: state.open.push(Open::Bracket), ..plain }
    } else if c == ')' || c == ']' || c == '}' {
        NestingView { open: bracket_closed(state.open), ..plain }
    } else if c == ';' {
        NestingView { open: block_closed(state.open), ..plain }
    } else {
        NestingView {
            reading: if c == '"' {
                Reading::Quoted
            } else if c == '.' || c == '$' {
                Reading::Name
            } else if c == '-' {
                Reading::Dash
            } else {
                Reading::Code
            },
            open: begun(state.open),
            ..plain
        }
    }
}

/// Behind one more character.
pub open spec fn after_char(state: NestingView, c: char) -> NestingView {
    match state.reading {
        Reading::Code => after_code(state, c),
        Reading::Word => if continues_word(c) {
            NestingView { word: state.word.push(c), ..state }
        } else if c == '"' && state.word == "s"@ {
            NestingView { reading: Reading::Template, ..after_word(state) }
        } else if (c == '-' || c == '*') && !opens_block(state.word) && state.word != "end"@
            && state.word != "do"@ {
            NestingView { reading: Reading::Name, ..after_word(state) }
        } else {
            after_code(after_word(state), c)
        },
        Reading::Name => if continues_word(c) || c == '-' || c == '*' {
            state
        } else {
            after_code(state, c)
        },
        Reading::Dash => if c == '>' {
            NestingView {
                reading: Reading::Code,
                open: state.open.push(Open::Head),
                ..state
            }
        } else {
            after_code(state, c)
        },
        Reading::Quoted => NestingView {
            reading: if c == '\\' {
                Reading::QuotedEscape
            } else if c == '"' {
                Reading::Code
            } else {
                Reading::Quoted
            },
            ..state
        },
        Reading::QuotedEscape => NestingView { reading: Reading::Quoted, ..state },
        Reading::Template => NestingView {
            reading: if c == '\\' {
                Reading::TemplateEscape
            } else if c == '$' {
                Reading::TemplateDollar
            } else if c == '"' {
                Reading::Code
            } else {
                Reading::Template
            },
            ..state
        },
        Reading::TemplateEscape => NestingView { reading: Reading::Template, ..state },
        Reading::TemplateDollar => NestingView {
            reading: if c == '{' {
                Reading::Hole
            } else if c == '\\' {
                Reading::TemplateEscape
            } else if c == '"' {
                Reading::Code
            } else {
                Reading::Template
            },
            ..state
        },
        Reading::Hole => NestingView {
            reading: if c == '}' {
                Reading::Template
            } else {
                Reading::Hole
            },
            ..state
        },
        Reading::Comment => NestingView {
            reading: if c == '\n' || c == '\r' {
                Reading::Code
            } else {
                Reading::Comment
            },
            ..state
        },
    }
}

/// Behind some more characters.
pub open spec fn after_chars(state: NestingView, chars: Seq<char>) -> NestingView
    decreases chars.len(),
{
    if chars.len() == 0 {
        state
    } else {
        after_char(after_chars(state, chars.drop_last()), chars.last())
    }
}

/// Behind one more line and its end.
pub open spec fn after_line(state: NestingView, line: Seq<char>) -> NestingView {
    after_char(after_chars(state, line), '\n')
}

/// A place in a script: what is open there, the outermost first, and what of a word or a string
/// is read so far.
#[derive(Debug)]
pub struct Nesting {
    pub reading: Reading,
    pub word: Vec<char>,
    pub last: Last,
    pub open: Vec<Open>,
}

impl View for Nesting {
    type V = NestingView;

    open spec fn view(&self) -> NestingView {
        NestingView {
            reading: self.reading,
            word: self.word@,
            last: self.last,
            open: self.open@,
        }
    }
}

/// Whether a word can begin with this character.
fn can_begin(c: char) -> (yes: bool)
    ensures
        yes == begins_word(c),
{
    ('a' <= c && c <= 'z') || ('A' <= c && c <= 'Z') || c == '_'
}

/// Whether a word goes on with this character.
fn can_continue(c: char) -> (yes: bool)
    ensures
        yes == continues_word(c),
{
    can_begin(c) || ('0' <= c && c <= '9') || ('\u{80}' <= c && !Trim::White.is_taken(c))
}

/// Whether this word opens a block that has a head.
fn is_opener(word: &[char]) -> (yes: bool)
    ensures
        yes == opens_block(word@),
{
    is_text(word, "def") || is_text(word, "fn") || is_text(word, "foreach") || is_text(
        word,
        "while",
    ) || is_text(word, "loop") || is_text(word, "match") || is_text(word, "module")
}

impl Nesting {
    /// The start of a script.
    pub fn new() -> (start: Nesting)
        ensures
            start@ == outermost(),
    {
        let start = Nesting {
            reading: Reading::Code,
            word: Vec::new(),
            last: Last::Plain,
            open: Vec::new(),
        };
        assert(start.word@ =~= seq![]);
        assert(start.open@ =~= seq![]);
        start
    }

    /// How many blocks and brackets are open.
    pub fn depth(&self) -> (depth: usize)
        ensures
            depth == self@.open.len(),
    {
        self.open.len()
    }

    /// Whether the innermost is a block of which the head is read.
    fn in_head(&self) -> (yes: bool)
        ensures
            yes == (self@.open.len() > 0 && self@.open.last() == Open::Head),
    {
        self.open.len() > 0 && self.open[self.open.len() - 1] == Open::Head
    }

    /// The body of the innermost block has begun.
    fn begin(&mut self)
        ensures
            final(self)@ == (NestingView { open: begun(old(self)@.open), ..old(self)@ }),
    {
        if self.in_head() {
            let _ = self.open.pop();
            self.open.push(Open::Body);
        }
    }

    /// Close the innermost block, if there is one.
    fn close_block(&mut self)
        ensures
            final(self)@ == (NestingView { open: block_closed(old(self)@.open), ..old(self)@ }),
    {
        let mut n: usize = self.open.len();
        assert(self.open@.take(n as int) =~= self.open@);
        while n > 0 && self.open[n - 1] == Open::Bracket
            invariant
                n <= self.open@.len(),
                *self == *old(self),
                without_block(self.open@.take(n as int)) == without_block(self.open@),
            decreases n,
        {
            assert(self.open@.take(n as int).drop_last() =~= self.open@.take(n - 1));
            n -= 1;
        }
        if n > 0 {
            assert(self.open@.take(n as int).drop_last() =~= self.open@.take(n - 1));
            self.open.truncate(n - 1);
        }
    }

    /// Close the innermost bracket, if there is one.
    fn close_bracket(&mut self)
        ensures
            final(self)@ == (NestingView { open: bracket_closed(old(self)@.open), ..old(self)@ }),
    {
        let mut n: usize = self.open.len();
        assert(self.open@.take(n as int) =~= self.open@);
        while n > 0 && self.open[n - 1] != Open::Bracket
            invariant
                n <= self.open@.len(),
                *self == *old(self),
                without_bracket(self.open@.take(n as int)) == without_bracket(self.open@),
            decreases n,
        {
            assert(self.open@.take(n as int).drop_last() =~= self.open@.take(n - 1));
            n -= 1;
        }
        if n > 0 {
            assert(self.open@.take(n as int).drop_last() =~= self.open@.take(n - 1));
            self.open.truncate(n - 1);
        }
    }

    /// The word that was read has ended.
    fn end_word(&mut self)
        ensures
            final(self)@ == after_word(old(self)@),
    {
        let word = self.word.as_slice();
        let last = if is_text(word, "def") || is_text(word, "module") {
            Last::Naming
        } else if is_text(word, "try") || is_text(word, "catch") {
            Last::Trying
        } else {
            Last::Plain
        };
        let opens = is_opener(word);
        let is_end = is_text(word, "end");
        let is_do = is_text(word, "do");
        if opens {
            self.begin();
            self.open.push(Open::Head);
        } else if is_end {
            self.close_block();
        } else if is_do {
            if self.in_head() {
                self.begin();
            } else if self.last != Last::Trying {
                self.open.push(Open::Body);
            }
        } else if self.last != Last::Naming {
            self.begin();
        }
        self.reading = Reading::Code;
        self.word = Vec::new();
        self.last = last;
        assert(self.word@ =~= seq![]);
    }

    /// Read a character that does not belong to a word or a string that was begun before it.
    fn read_code(&mut self, c: char)
        ensures
            final(self)@ == after_code(old(self)@, c),
    {
        if Trim::White.is_taken(c) {
            self.reading = Reading::Code;
        } else if can_begin(c) {
            self.reading = Reading::Word;
            self.word = Vec::new();
            self.word.push(c);
            assert(self.word@ =~= seq![c]);
        } else if c == '#' {
            self.reading = Reading::Comment;
        } else {
            self.last = Last::Plain;
            self.reading = if c == '"' {
                Reading::Quoted
            } else if c == '.' || c == '$' {
                Reading::Name
            } else if c == '-' {
                Reading::Dash
            } else {
                Reading::Code
            };
            if c == '(' || c == '[' || c == '{' {
                self.open.push(Open::Bracket);
            } else if c == ')' || c == ']' || c == '}' {
                self.close_bracket();
            } else if c == ';' {
                self.close_block();
            } else {
                self.begin();
            }
        }
    }

    /// Read one more character.
    pub fn read_char(&mut self, c: char)
        ensures
            final(self)@ == after_char(old(self)@, c),
    {
        match self.reading {
            Reading::Code => self.read_code(c),
            Reading::Word => {
                let word = self.word.as_slice();
                let opens_template = c == '"' && is_text(word, "s");
                let goes_on = (c == '-' || c == '*') && !is_opener(word) && !is_text(word, "end")
                    && !is_text(word, "do");
                if can_continue(c) {
                    self.word.push(c);
                } else {
                    self.end_word();
                    if opens_template {
                        self.reading = Reading::Template;
                    } else if goes_on {
                        self.reading = Reading::Name;
                    } else {
                        self.read_code(c);
                    }
                }
            },
            Reading::Name => {
                if !(can_continue(c) || c == '-' || c == '*') {
                    self.read_code(c);
                }
            },
            Reading::Dash => {
                if c == '>' {
                    self.reading = Reading::Code;
                    self.open.push(Open::Head);
                } else {
                    self.read_code(c);
                }
            },
            Reading::Quoted => {
                if c == '\\' {
                    self.reading = Reading::QuotedEscape;
                } else if c == '"' {
                    self.reading = Reading::Code;
                }
            },
            Reading::QuotedEscape => {
                self.reading = Reading::Quoted;
            },
            Reading::Template => {
                if c == '\\' {
                    self.reading = Reading::TemplateEscape;
                } else if c == '$' {
                    self.reading = Reading::TemplateDollar;
                } else if c == '"' {
                    self.reading = Reading::Code;
                }
            },
            Reading::TemplateEscape => {
                self.reading = Reading::Template;
            },
            Reading::TemplateDollar => {
                self.reading = if c == '{' {
                    Reading::Hole
                } else if c == '\\' {
                    Reading::TemplateEscape
                } else if c == '"' {
                    Reading::Code
                } else {
                    Reading::Template
                };
            },
            Reading::Hole => {
                if c == '}' {
                    self.reading = Reading::Template;
                }
            },
            Reading::Comment => {
                if c == '\n' || c == '\r' {
                    self.reading = Reading::Code;
                }
            },
        }
    }

    /// Read one more line and its end.
    pub fn read_line(&mut self, line: &[char])
        ensures
            final(self)@ == after_line(old(self)@, line@),
    {
        let ghost start = self@;
        let mut i: usize = 0;
        assert(line@.take(0) =~= seq![]);
        while i < line.len()
            invariant
                i <= line@.len(),
                start == old(self)@,
                self@ == after_chars(start, line@.take(i as int)),
            decreases line@.len() - i,
        {
            proof {
                assert(line@.take(i + 1).drop_last() =~= line@.take(i as int));
                assert(line@.take(i + 1).last() == line@[i as int]);
            }
            self.read_char(line[i]);
            i += 1;
        }
        assert(line@.take(line@.len() as int) =~= line@);
        self.read_char('\n');
    }
}

/// Behind some characters and then some more.
proof fn lemma_after_both(state: NestingView, a: Seq<char>, b: Seq<char>)
    ensures
        after_chars(state, a + b) == after_chars(after_chars(state, a), b),
    decreases b.len(),
{
    if b.len() == 0 {
        assert(a + b =~= a);
    } else {
        assert((a + b).drop_last() =~= a + b.drop_last());
        assert((a + b).last() == b.last());
        lemma_after_both(state, a, b.drop_last());
    }
}

/// White space in front of code leaves everything as it is.
proof fn lemma_white_start(state: NestingView, line: Seq<char>)
    requires
        state.reading == Reading::Code,
    ensures
        after_chars(state, line) == after_chars(state, text::trimmed_start(line, Trim::White)),
    decreases line.len(),
{
    if line.len() > 0 && text::is_white(line.first()) {
        let first = line.take(1);
        assert(first + line.drop_first() =~= line);
        lemma_after_both(state, first, line.drop_first());
        assert(first.drop_last() =~= seq![]);
        assert(after_chars(state, first.drop_last()) == state);
        assert(after_chars(state, first) == state);
        lemma_white_start(state, line.drop_first());
    }
}

/// White space behind code ends a word, which the end of the line would do anyway.
proof fn lemma_white_end(state: NestingView, line: Seq<char>)
    requires
        after_chars(state, text::trimmed_end(line, Trim::White)).reading == Reading::Word,
    ensures
        after_line(state, line) == after_word(
            after_chars(state, text::trimmed_end(line, Trim::White)),
        ),
    decreases line.len(),
{
    if line.len() > 0 && text::is_white(line.last()) {
        lemma_white_end(state, line.drop_last());
    }
}

/// A line of code that holds nothing but `end` closes the innermost block, with the brackets that
/// were left open inside it, and nothing where no block is open.
pub proof fn law_end_closes_innermost(state: NestingView, line: Seq<char>)
    requires
        state.reading == Reading::Code,
        text::trimmed(line, Trim::White) == "end"@,
    ensures
        after_line(state, line).reading == Reading::Code,
        after_line(state, line).open == block_closed(state.open),
{
    let start = text::trimmed_start(line, Trim::White);
    reveal_strlit("end");
    reveal_strlit("s");
    reveal_strlit("do");
    let e = seq!['e'];
    let en = seq!['e', 'n'];
    assert("end"@ =~= en.push('d'));
    assert(en =~= e.push('n'));
    assert(e =~= Seq::<char>::empty().push('e'));
    assert("end"@.drop_last() =~= en);
    assert(en.drop_last() =~= e);
    assert(e.drop_last() =~= seq![]);
    assert(after_chars(state, e.drop_last()) == state);
    assert(after_chars(state, e).word =~= e);
    assert(after_chars(state, en).word =~= en);
    assert(after_chars(state, "end"@).word =~= "end"@);
    lemma_white_start(state, line);
    lemma_white_end(state, start);
    reveal_strlit("def");
    reveal_strlit("fn");
    reveal_strlit("foreach");
    reveal_strlit("while");
    reveal_strlit("loop");
    reveal_strlit("match");
    reveal_strlit("module");
    assert("def"@[0] == 'd');
    assert("fn"@[0] == 'f');
    assert("foreach"@[0] == 'f');
    assert("while"@[0] == 'w');
    assert("loop"@[0] == 'l');
    assert("match"@[0] == 'm');
    assert("module"@[0] == 'm');
}

/// Whether a place is inside a string.
pub open spec fn in_string(reading: Reading) -> bool {
    match reading {
        Reading::Quoted => true,
        Reading::QuotedEscape => true,
        Reading::Template => true,
        Reading::TemplateEscape => true,
        Reading::TemplateDollar => true,
        Reading::Hole => true,
        _ => false,
    }
}

/// A line begins as code, unless a string goes on from the line above.
pub proof fn law_line_begins(state: NestingView, line: Seq<char>)
    ensures
        after_line(state, line).reading == Reading::Code || in_string(
            after_line(state, line).reading,
        ),
{
}

/// A string goes on until a quote, and nothing in it opens or closes anything.
proof fn lemma_string_goes_on(state: NestingView, chars: Seq<char>)
    requires
        in_string(state.reading),
        !chars.contains('"'),
    ensures
        in_string(after_chars(state, chars).reading),
        after_chars(state, chars).open == state.open,
    decreases chars.len(),
{
    if chars.len() > 0 {
        let before = chars.drop_last();
        assert(chars[chars.len() - 1] == chars.last());
        assert(!before.contains('"')) by {
            if before.contains('"') {
                let i = choose|i: int| 0 <= i < before.len() && before[i] == '"';
                assert(chars[i] == '"');
            }
        }
        lemma_string_goes_on(state, before);
    }
}

/// Trimming white space takes no quote away.
proof fn lemma_trim_keeps_quotes(line: Seq<char>)
    requires
        line.contains('"'),
    ensures
        text::trimmed_start(line, Trim::White).contains('"'),
        text::trimmed_end(line, Trim::White).contains('"'),
    decreases line.len(),
{
    let i = choose|i: int| 0 <= i < line.len() && line[i] == '"';
    if text::is_white(line.first()) {
        assert(line.drop_first()[i - 1] == '"');
        lemma_trim_keeps_quotes(line.drop_first());
    }
    if text::is_white(line.last()) {
        assert(line.drop_last()[i] == '"');
        lemma_trim_keeps_quotes(line.drop_last());
    }
}

/// A line in a string that holds nothing but `end` closes nothing.
pub proof fn law_end_in_string_closes_nothing(state: NestingView, line: Seq<char>)
    requires
        in_string(state.reading),
        text::trimmed(line, Trim::White) == "end"@,
    ensures
        after_line(state, line).open == state.open,
{
    if line.contains('"') {
        lemma_trim_keeps_quotes(line);
        lemma_trim_keeps_quotes(text::trimmed_start(line, Trim::White));
        reveal_strlit("end");
        assert(!"end"@.contains('"'));
    }
    lemma_string_goes_on(state, line);
}

/// Whether a text is one word.
pub open spec fn is_word(word: Seq<char>) -> bool {
    &&& word.len() > 0
    &&& begins_word(word[0])
    &&& forall|i: int| 0 < i < word.len() ==> continues_word(#[trigger] word[i])
}

/// A word is read as one.
proof fn lemma_read_word(state: NestingView, word: Seq<char>, n: int)
    requires
        state.reading == Reading::Code,
        is_word(word),
        0 < n <= word.len(),
    ensures
        after_chars(state, word.take(n)) == (NestingView {
            reading: Reading::Word,
            word: word.take(n),
            ..state
        }),
    decreases n,
{
    let part = word.take(n);
    assert(part.drop_last() =~= word.take(n - 1));
    assert(part.last() == word[n - 1]);
    if n == 1 {
        assert(part.drop_last() =~= seq![]);
        assert(after_chars(state, part.drop_last()) == state);
        assert(seq![word[0]] =~= part);
        assert(!text::is_white(word[0]));
    } else {
        lemma_read_word(state, word, n - 1);
        assert(word.take(n - 1).push(word[n - 1]) =~= part);
    }
}

/// Behind a word and a space.
proof fn lemma_word_and_space(state: NestingView, word: Seq<char>)
    requires
        state.reading == Reading::Code,
        is_word(word),
    ensures
        after_chars(state, word.push(' ')) == after_word(
            NestingView { reading: Reading::Word, word, ..state },
        ),
{
    lemma_read_word(state, word, word.len() as int);
    assert(word.take(word.len() as int) =~= word);
    assert(word.push(' ').drop_last() =~= word);
    let read = NestingView { reading: Reading::Word, word, ..state };
    assert(after_char(read, ' ') == after_code(after_word(read), ' '));
}

/// The words that open and close blocks.
proof fn lemma_block_words()
    ensures
        "def"@ =~= seq!['d', 'e', 'f'],
        "fn"@ =~= seq!['f', 'n'],
        "foreach"@ =~= seq!['f', 'o', 'r', 'e', 'a', 'c', 'h'],
        "while"@ =~= seq!['w', 'h', 'i', 'l', 'e'],
        "loop"@ =~= seq!['l', 'o', 'o', 'p'],
        "match"@ =~= seq!['m', 'a', 't', 'c', 'h'],
        "module"@ =~= seq!['m', 'o', 'd', 'u', 'l', 'e'],
        "end"@ =~= seq!['e', 'n', 'd'],
        "do"@ =~= seq!['d', 'o'],
        "try"@ =~= seq!['t', 'r', 'y'],
        "catch"@ =~= seq!['c', 'a', 't', 'c', 'h'],
{
    reveal_strlit("def");
    reveal_strlit("fn");
    reveal_strlit("foreach");
    reveal_strlit("while");
    reveal_strlit("loop");
    reveal_strlit("match");
    reveal_strlit("module");
    reveal_strlit("end");
    reveal_strlit("do");
    reveal_strlit("try");
    reveal_strlit("catch");
}

/// Of the words of a script, those that begin a block open one, `end` closes the innermost block,
/// `do` opens one unless it stands where the body of a block begins or behind a `try` or `catch`,
/// and any other word opens and closes nothing.
pub proof fn law_words_that_open_and_close(state: NestingView, word: Seq<char>)
    requires
        state.reading == Reading::Code,
        is_word(word),
    ensures
        ({
            let now = after_chars(state, word.push(' '));
            let opener = word == seq!['d', 'e', 'f'] || word == seq!['f', 'n'] || word == seq![
                'f',
                'o',
                'r',
                'e',
                'a',
                'c',
                'h',
            ] || word == seq!['w', 'h', 'i', 'l', 'e'] || word == seq!['l', 'o', 'o', 'p'] || word
                == seq!['m', 'a', 't', 'c', 'h'] || word == seq!['m', 'o', 'd', 'u', 'l', 'e'];
            let in_head = state.open.len() > 0 && state.open.last() == Open::Head;
            &&& now.reading == Reading::Code
            &&& opener ==> now.open.len() == state.open.len() + 1 && now.open.last() == Open::Head
            &&& word == seq!['e', 'n', 'd'] ==> now.open == block_closed(state.open)
            &&& word == seq!['d', 'o'] && in_head ==> now.open.len() == state.open.len()
                && now.open.last() == Open::Body
            &&& word == seq!['d', 'o'] && !in_head && state.last != Last::Trying ==> now.open
                == state.open.push(Open::Body)
            &&& word == seq!['d', 'o'] && !in_head && state.last == Last::Trying ==> now.open
                == state.open
            &&& !opener && word != seq!['e', 'n', 'd'] && word != seq!['d', 'o'] ==> now.open.len()
                == state.open.len() && (state.open.len() > 0 ==> (now.open.last() == Open::Bracket
                <==> state.open.last() == Open::Bracket) && now.open.drop_last()
                == state.open.drop_last())
            &&& (word == seq!['t', 'r', 'y'] || word == seq!['c', 'a', 't', 'c', 'h']) <==> now.last
                == Last::Trying
        }),
{
    lemma_word_and_space(state, word);
    lemma_block_words();
    let now = after_chars(state, word.push(' '));
    if state.open.len() > 0 {
        assert(begun(state.open).drop_last() =~= state.open.drop_last());
    }
    assert("def"@[0] == 'd' && "def"@.len() == 3 && "do"@.len() == 2 && "fn"@.len() == 2);
    assert("end"@.len() == 3 && "end"@[0] == 'e' && "try"@.len() == 3 && "try"@[0] == 't');
    assert("match"@[0] == 'm' && "while"@[0] == 'w' && "catch"@[0] == 'c');
    assert("do"@[0] == 'd' && "fn"@[0] == 'f');
    assert("catch"@.len() == 5 && "loop"@.len() == 4 && "module"@.len() == 6 && "foreach"@.len()
        == 7 && "match"@.len() == 5 && "while"@.len() == 5);
}

/// An `end` or a `;` closes the innermost block with the brackets inside it, and a closing bracket
/// the innermost bracket with the blocks inside it; where there is none, nothing is closed. What
/// lies around stays open.
pub proof fn law_closing(outer: Seq<Open>, block: Open, inner: Seq<Open>)
    requires
        block != Open::Bracket,
    ensures
        (forall|i: int| 0 <= i < inner.len() ==> (#[trigger] inner[i]) == Open::Bracket) ==> {
            &&& block_closed(outer.push(block) + inner) == outer
            &&& block_closed(inner) == inner
        },
        (forall|i: int| 0 <= i < inner.len() ==> (#[trigger] inner[i]) != Open::Bracket) ==> {
            &&& bracket_closed(outer.push(Open::Bracket) + inner) == outer
            &&& bracket_closed(inner) == inner
        },
    decreases inner.len(),
{
    if inner.len() == 0 {
        assert(outer.push(block) + inner =~= outer.push(block));
        assert(outer.push(block).drop_last() =~= outer);
        assert(outer.push(Open::Bracket) + inner =~= outer.push(Open::Bracket));
        assert(outer.push(Open::Bracket).drop_last() =~= outer);
    } else {
        let fewer = inner.drop_last();
        assert(forall|i: int| 0 <= i < fewer.len() ==> (#[trigger] fewer[i]) == inner[i]);
        assert(inner.last() == inner[inner.len() - 1]);
        law_closing(outer, block, fewer);
        assert((outer.push(block) + inner).drop_last() =~= outer.push(block) + fewer);
        assert((outer.push(Open::Bracket) + inner).drop_last() =~= outer.push(Open::Bracket)
            + fewer);
        lemma_nothing_to_close(inner);
    }
}

proof fn lemma_nothing_to_close(open: Seq<Open>)
    ensures
        (forall|i: int| 0 <= i < open.len() ==> (#[trigger] open[i]) == Open::Bracket)
            ==> without_block(open) is None,
        (forall|i: int| 0 <= i < open.len() ==> (#[trigger] open[i]) != Open::Bracket)
            ==> without_bracket(open) is None,
    decreases open.len(),
{
    if open.len() > 0 {
        let fewer = open.drop_last();
        assert(forall|i: int| 0 <= i < fewer.len() ==> (#[trigger] fewer[i]) == open[i]);
        assert(open.last() == open[open.len() - 1]);
        lemma_nothing_to_close(fewer);
    }
}

/// The brackets and the semicolon of a script, and the arrow of a function.
pub proof fn law_signs_that_open_and_close(state: NestingView, c: char)
    requires
        state.reading == Reading::Code,
    ensures
        c == '(' || c == '[' || c == '{' ==> after_char(state, c).open == state.open.push(
            Open::Bracket,
        ),
        c == ')' || c == ']' || c == '}' ==> after_char(state, c).open == bracket_closed(
            state.open,
        ),
        c == ';' ==> after_char(state, c).open == block_closed(state.open),
        c == ':' || c == ',' || c == '|' || c == '=' || c == '+' ==> after_char(
            state,
            c,
        ).open.len() == state.open.len() && after_char(state, c).reading == Reading::Code,
        c == ' ' || c == '\n' || c == '\t' ==> after_char(state, c).open == state.open && after_char(
            state,
            c,
        ).reading == Reading::Code,
        after_char(after_char(state, '-'), '>').open.len() == state.open.len() + 1,
        after_char(after_char(state, '-'), '>').open.last() == Open::Head,
{
}

/// What stands in a string, up to the quote that ends it, opens and closes nothing, and nor does
/// what stands in a comment, up to the end of its line.
pub proof fn law_strings_and_comments_do_not_count(state: NestingView, inner: Seq<char>)
    requires
        state.reading == Reading::Code,
    ensures
        !inner.contains('"') && !inner.contains('\\') ==> {
            let now = after_chars(state, seq!['"'] + inner + seq!['"']);
            &&& now.reading == Reading::Code
            &&& now.open.len() == state.open.len()
        },
        !inner.contains('\n') && !inner.contains('\r') ==> {
            let now = after_chars(state, seq!['#'] + inner + seq!['\n']);
            &&& now.reading == Reading::Code
            &&& now.open == state.open
        },
{
    let quote = seq!['"'];
    let none = Seq::<char>::empty();
    assert(none.push('"') =~= quote);
    assert(quote.drop_last() =~= none);
    assert(after_chars(state, quote.drop_last()) == state);
    let in_quotes = after_chars(state, quote);
    assert(in_quotes == after_char(state, '"'));
    lemma_after_both(state, quote + inner, quote);
    lemma_after_both(state, quote, inner);
    if !inner.contains('"') && !inner.contains('\\') {
        lemma_plain_string(in_quotes, inner);
        let held = after_chars(in_quotes, inner);
        assert(after_chars(held, quote.drop_last()) == held);
        assert(after_chars(held, quote) == after_char(held, '"'));
    }
    let hash = seq!['#'];
    let feed = seq!['\n'];
    assert(hash.drop_last() =~= none);
    assert(after_chars(state, hash.drop_last()) == state);
    let in_comment = after_chars(state, hash);
    assert(in_comment == after_char(state, '#'));
    lemma_after_both(state, hash + inner, feed);
    lemma_after_both(state, hash, inner);
    if !inner.contains('\n') && !inner.contains('\r') {
        lemma_comment_goes_on(in_comment, inner);
        let held = after_chars(in_comment, inner);
        assert(feed.drop_last() =~= none);
        assert(after_chars(held, feed.drop_last()) == held);
        assert(after_chars(held, feed) == after_char(held, '\n'));
    }
}

proof fn lemma_plain_string(state: NestingView, inner: Seq<char>)
    requires
        state.reading == Reading::Quoted,
        !inner.contains('"'),
        !inner.contains('\\'),
    ensures
        after_chars(state, inner) == state,
    decreases inner.len(),
{
    if inner.len() > 0 {
        let before = inner.drop_last();
        assert(inner[inner.len() - 1] == inner.last());
        assert(forall|i: int| 0 <= i < before.len() ==> (#[trigger] before[i]) == inner[i]);
        lemma_plain_string(state, before);
    }
}

proof fn lemma_comment_goes_on(state: NestingView, inner: Seq<char>)
    requires
        state.reading == Reading::Comment,
        !inner.contains('\n'),
        !inner.contains('\r'),
    ensures
        after_chars(state, inner) == state,
    decreases inner.len(),
{
    if inner.len() > 0 {
        let before = inner.drop_last();
        assert(inner[inner.len() - 1] == inner.last());
        assert(forall|i: int| 0 <= i < before.len() ==> (#[trigger] before[i]) == inner[i]);
        lemma_comment_goes_on(state, before);
    }
}

/// A name behind a dot or a dollar sign, or behind a dash that belongs to it, opens and closes
/// nothing, whatever it is.
pub proof fn law_names_do_not_count(state: NestingView, sign: char, name: Seq<char>)
    requires
        state.reading == Reading::Code,
        sign == '.' || sign == '$',
        forall|i: int| 0 <= i < name.len() ==> continues_word(#[trigger] name[i]) || name[i] == '-',
    ensures
        after_chars(state, seq![sign] + name).open.len() == state.open.len(),
        after_chars(state, seq![sign] + name).reading == Reading::Name,
    decreases name.len(),
{
    let all = seq![sign] + name;
    if name.len() == 0 {
        assert(all.drop_last() =~= seq![]);
        assert(after_chars(state, all.drop_last()) == state);
    } else {
        let before = name.drop_last();
        assert(forall|i: int| 0 <= i < before.len() ==> (#[trigger] before[i]) == name[i]);
        assert(name.last() == name[name.len() - 1]);
        assert(all.drop_last() =~= seq![sign] + before);
        law_names_do_not_count(state, sign, before);
    }
}

/// Nothing is open at the start of a script, and what a place holds is what its parts hold.
pub proof fn law_places(place: Nesting)
    ensures
        outermost().open.len() == 0,
        outermost().reading == Reading::Code,
        place@.reading == place.reading,
        place@.word == place.word@,
        place@.last == place.last,
        place@.open == place.open@,
{
}

/// Words are made of ASCII letters, digits and underscores, and do not begin with a digit; letters
/// beyond ASCII belong to them too.
pub proof fn law_word_characters(c: char)
    ensures
        begins_word(c) <==> ('a' <= c && c <= 'z') || ('A' <= c && c <= 'Z') || c == '_',
        c <= '\u{7f}' ==> (continues_word(c) <==> begins_word(c) || ('0' <= c && c <= '9')),
        '\u{c0}' <= c <= '\u{24f}' ==> continues_word(c),
{
}

/// A backslash in a string takes the character behind it along, a quote too. An interpolated
/// string goes on up to its quote, and what stands in its braces counts for nothing.
pub proof fn law_strings_go_on(state: NestingView, c: char)
    ensures
        state.reading == Reading::Quoted ==> after_char(after_char(state, '\\'), c) == state,
        state.reading == Reading::Template ==> {
            &&& after_char(after_char(state, '\\'), c) == state
            &&& c != '"' && c != '\\' && c != '$' ==> after_char(state, c) == state
            &&& after_char(state, '"') == (NestingView { reading: Reading::Code, ..state })
            &&& after_char(after_char(state, '$'), '{') == (NestingView {
                reading: Reading::Hole,
                ..state
            })
        },
        state.reading == Reading::Hole ==> {
            &&& c != '}' ==> after_char(state, c) == state
            &&& after_char(state, '}') == (NestingView { reading: Reading::Template, ..state })
        },
        state.reading == Reading::Word && state.word == seq!['s'] ==> after_char(
            state,
            '"',
        ).reading == Reading::Template,
        state.reading == Reading::Word && state.word != seq!['s'] ==> after_char(
            state,
            '"',
        ).reading == Reading::Quoted,
{
    reveal_strlit("s");
    assert("s"@ =~= seq!['s']);
}

/// A dash belongs to the name in front of it, and what follows it to the same name: such a name
/// opens and closes nothing.
pub proof fn law_dashed_names(state: NestingView, word: Seq<char>, rest: Seq<char>)
    requires
        state.reading == Reading::Code,
        is_word(word),
        !opens_block(word),
        word != "end"@,
        word != "do"@,
        forall|i: int| 0 <= i < rest.len() ==> continues_word(#[trigger] rest[i]) || rest[i] == '-',
    ensures
        after_chars(state, word.push('-') + rest).open.len() == state.open.len(),
        after_chars(state, word.push('-') + rest).reading == Reading::Name,
    decreases rest.len(),
{
    let all = word.push('-') + rest;
    if rest.len() == 0 {
        lemma_read_word(state, word, word.len() as int);
        assert(word.take(word.len() as int) =~= word);
        assert(all =~= word.push('-'));
        assert(all.drop_last() =~= word);
    } else {
        let before = rest.drop_last();
        assert(forall|i: int| 0 <= i < before.len() ==> (#[trigger] before[i]) == rest[i]);
        assert(rest.last() == rest[rest.len() - 1]);
        assert(all.drop_last() =~= word.push('-') + before);
        law_dashed_names(state, word, before);
    }
}

} // verus!
