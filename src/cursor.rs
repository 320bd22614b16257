use crate::location::Location;
use vstd::prelude::*;
use vstd::std_specs::iter::IteratorSpec;

verus! {

broadcast use vstd::string::group_string_axioms;

/// Line and column (both 1-based) of the character at offset `n` of `text`:
/// every newline before it starts a new line.
pub open spec fn line_col(text: Seq<char>, n: int) -> (int, int)
    decreases n,
{
    if n <= 0 {
        (1, 1)
    } else {
        let (line, col) = line_col(text, n - 1);
        if text[n - 1] == '\n' {
            (line + 1, 1)
        } else {
            (line, col + 1)
        }
    }
}

/// The location of offset `n` of `text`.
pub open spec fn location_at(text: Seq<char>, n: int) -> Location {
    Location {
        line: line_col(text, n).0 as usize,
        col: line_col(text, n).1 as usize,
        char_num: n as usize,
    }
}

pub proof fn lemma_line_col_bounds(text: Seq<char>, n: int)
    requires
        0 <= n,
    ensures
        1 <= line_col(text, n).0 <= n + 1,
        1 <= line_col(text, n).1 <= n + 1,
    decreases n,
{
    if n > 0 {
        lemma_line_col_bounds(text, n - 1);
    }
}

/// A class of characters that `eat_while` can consume.
#[derive(Clone, Copy, Debug, PartialEq, Eq, Structural)]
pub enum CharClass {
    /// ASCII digits `0`-`9`.
    Digit,
    /// ASCII letters, digits and `_`.
    SymbolMiddle,
}

pub open spec fn is_digit_spec(c: char) -> bool {
    '0' <= c <= '9'
}

pub open spec fn is_symbol_start_spec(c: char) -> bool {
    ('a' <= c <= 'z') || ('A' <= c <= 'Z') || c == '_'
}

pub open spec fn is_symbol_middle_spec(c: char) -> bool {
    is_symbol_start_spec(c) || is_digit_spec(c)
}

impl CharClass {
    pub open spec fn contains(self, c: char) -> bool {
        match self {
            CharClass::Digit => is_digit_spec(c),
            CharClass::SymbolMiddle => is_symbol_middle_spec(c),
        }
    }

    pub fn test(self, c: char) -> (r: bool)
        ensures
            r == self.contains(c),
    {
        match self {
            CharClass::Digit => is_digit(c),
            CharClass::SymbolMiddle => is_symbol_middle(c),
        }
    }
}

pub fn is_digit(c: char) -> (r: bool)
    ensures
        r == is_digit_spec(c),
{
    '0' <= c && c <= '9'
}

pub fn is_symbol_start(c: char) -> (r: bool)
    ensures
        r == is_symbol_start_spec(c),
{
    ('a' <= c && c <= 'z') || ('A' <= c && c <= 'Z') || c == '_'
}

pub fn is_symbol_middle(c: char) -> (r: bool)
    ensures
        r == is_symbol_middle_spec(c),
{
    is_symbol_start(c) || is_digit(c)
}

/// The first offset at or after `i` whose character is not in `class`.
pub open spec fn run_end(text: Seq<char>, i: int, class: CharClass) -> int
    decreases text.len() - i,
{
    if i < 0 || i >= text.len() || !class.contains(text[i]) {
        if i < 0 { 0 } else { i }
    } else {
        run_end(text, i + 1, class)
    }
}

pub proof fn lemma_run_end(text: Seq<char>, i: int, class: CharClass)
    requires
        0 <= i,
    ensures
        i <= run_end(text, i, class),
        i <= text.len() ==> run_end(text, i, class) <= text.len(),
        forall|k: int| i <= k < run_end(text, i, class) ==> class.contains(#[trigger] text[k]),
        run_end(text, i, class) < text.len() ==> !class.contains(text[run_end(text, i, class)]),
    decreases text.len() - i,
{
    if i < text.len() && class.contains(text[i]) {
        lemma_run_end(text, i + 1, class);
    }
}

/// A forward cursor over the characters of a source text that tracks the
/// location of the next character.
pub struct Cursor {
    chars: Vec<char>,
    pos: usize,
    current_loc: Location,
}

impl Cursor {
    /// The whole text the cursor runs over.
    pub closed spec fn text(&self) -> Seq<char> {
        self.chars@
    }

    /// The offset of the next character.
    pub closed spec fn pos(&self) -> int {
        self.pos as int
    }

    pub proof fn lemma_wf(&self)
        requires
            self.wf(),
        ensures
            0 <= self.pos() <= self.text().len() < usize::MAX,
    {
    }

    /// The location of the next character.
    pub fn current_loc(&self) -> (r: Location)
        requires
            self.wf(),
        ensures
            r == location_at(self.text(), self.pos()),
    {
        self.current_loc
    }

    pub closed spec fn wf(&self) -> bool {
        &&& self.pos <= self.chars@.len()
        &&& self.chars@.len() < usize::MAX
        &&& self.current_loc == location_at(self.chars@, self.pos as int)
    }

    pub fn new(input: &str) -> (r: Cursor)
        requires
            input@.len() < usize::MAX,
        ensures
            r.wf(),
            r.text() == input@,
            r.pos() == 0,
    {
        let mut it = input.chars();
        let mut chars: Vec<char> = Vec::new();
        loop
            invariant
                it.obeys_prophetic_iter_laws(),
                it.decrease() is Some,
                chars@ + it.remaining() == input@,
            ensures
                chars@ == input@,
            decreases it.decrease()->0,
        {
            match it.next() {
                Some(c) => {
                    assert(chars@.push(c) + it.remaining() == chars@ + seq![c] + it.remaining());
                    chars.push(c);
                },
                None => {
                    break ;
                },
            }
        }
        Cursor { chars, pos: 0, current_loc: Location { line: 1, col: 1, char_num: 0 } }
    }

    /// Takes the next character, with its location.
    pub fn next(&mut self) -> (r: Option<(char, Location)>)
        requires
            old(self).wf(),
        ensures
            final(self).wf(),
            final(self).text() == old(self).text(),
            old(self).pos() < old(self).text().len() ==> {
                &&& r == Some(
                    (
                        old(self).text()[old(self).pos()],
                        location_at(old(self).text(), old(self).pos()),
                    ),
                )
                &&& final(self).pos() == old(self).pos() + 1
            },
            old(self).pos() >= old(self).text().len() ==> {
                &&& r is None
                &&& final(self).pos() == old(self).pos()
            },
    {
        let loc = self.current_loc;
        if self.pos < self.chars.len() {
            let c = self.chars[self.pos];
            proof {
                lemma_line_col_bounds(self.chars@, self.pos as int);
            }
            if c == '\n' {
                self.current_loc = Location {
                    line: loc.line + 1,
                    col: 1,
                    char_num: loc.char_num + 1,
                };
            } else {
                self.current_loc = Location {
                    line: loc.line,
                    col: loc.col + 1,
                    char_num: loc.char_num + 1,
                };
            }
            self.pos = self.pos + 1;
            Some((c, loc))
        } else {
            None
        }
    }

    /// The character `n` places ahead (0 is the next one), with its location.
    pub fn peek(&self, n: usize) -> (r: Option<(char, Location)>)
        requires
            self.wf(),
        ensures
            self.pos() + n < self.text().len() ==> r == Some(
                (self.text()[self.pos() + n], location_at(self.text(), self.pos() + n)),
            ),
            self.pos() + n >= self.text().len() ==> r is None,
    {
        if n < self.chars.len() - self.pos {
            let mut loc = self.current_loc;
            let mut i: usize = 0;
            while i < n
                invariant
                    self.wf(),
                    i <= n,
                    n < self.chars@.len() - self.pos,
                    loc == location_at(self.chars@, self.pos + i),
                decreases n - i,
            {
                let c = self.chars[self.pos + i];
                proof {
                    lemma_line_col_bounds(self.chars@, self.pos + i);
                }
                if c == '\n' {
                    loc = Location { line: loc.line + 1, col: 1, char_num: loc.char_num + 1 };
                } else {
                    loc = Location { line: loc.line, col: loc.col + 1, char_num: loc.char_num + 1 };
                }
                i = i + 1;
            }
            Some((self.chars[self.pos + n], loc))
        } else {
            None
        }
    }

    /// The character `n` places ahead (0 is the next one).
    pub fn peek_char(&self, n: usize) -> (r: Option<char>)
        requires
            self.wf(),
        ensures
            self.pos() + n < self.text().len() ==> r == Some(self.text()[self.pos() + n]),
            self.pos() + n >= self.text().len() ==> r is None,
    {
        if n < self.chars.len() - self.pos {
            Some(self.chars[self.pos + n])
        } else {
            None
        }
    }

    /// Takes `n + 1` characters and returns the last of them, with its
    /// location; `None` when the text ends first.
    pub fn consume(&mut self, n: usize) -> (r: Option<(char, Location)>)
        requires
            old(self).wf(),
        ensures
            final(self).wf(),
            final(self).text() == old(self).text(),
            old(self).pos() + n < old(self).text().len() ==> {
                &&& r == Some(
                    (
                        old(self).text()[old(self).pos() + n],
                        location_at(old(self).text(), old(self).pos() + n),
                    ),
                )
                &&& final(self).pos() == old(self).pos() + n + 1
            },
            old(self).pos() + n >= old(self).text().len() ==> {
                &&& r is None
                &&& final(self).pos() == old(self).text().len()
            },
    {
        let mut i: usize = 0;
        while i < n
            invariant
                self.wf(),
                self.text() == old(self).text(),
                i <= n,
                self.pos() == vstd::math::min(old(self).pos() + i, self.text().len() as int),
            decreases n - i,
        {
            self.next();
            i = i + 1;
        }
        self.next()
    }

    /// Takes characters while they are in `class`; returns the location of
    /// the last one taken, or `None` when none was.
    pub fn eat_while(&mut self, class: CharClass) -> (r: Option<Location>)
        requires
            old(self).wf(),
        ensures
            final(self).wf(),
            final(self).text() == old(self).text(),
            final(self).pos() == run_end(old(self).text(), old(self).pos(), class),
            final(self).pos() == old(self).pos() ==> r is None,
            final(self).pos() > old(self).pos() ==> r == Some(
                location_at(old(self).text(), final(self).pos() - 1),
            ),
    {
        let mut last_loc: Option<Location> = None;
        proof {
            lemma_run_end(self.text(), self.pos(), class);
        }
        while self.pos < self.chars.len() && class.test(self.chars[self.pos])
            invariant
                self.wf(),
                self.text() == old(self).text(),
                old(self).pos() <= self.pos() <= run_end(old(self).text(), old(self).pos(), class),
                run_end(old(self).text(), self.pos(), class) == run_end(
                    old(self).text(),
                    old(self).pos(),
                    class,
                ),
                self.pos() == old(self).pos() ==> last_loc is None,
                self.pos() > old(self).pos() ==> last_loc == Some(
                    location_at(old(self).text(), self.pos() - 1),
                ),
            decreases self.chars@.len() - self.pos,
        {
            let loc = self.current_loc;
            self.next();
            proof {
                lemma_run_end(self.text(), self.pos(), class);
            }
            last_loc = Some(loc);
        }
        last_loc
    }
}

} // verus!
