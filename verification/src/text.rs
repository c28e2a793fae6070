//! Character-level access to a piece of text, and the scanning primitives
//! the wire grammar is built from.

use vstd::prelude::*;
use vstd::string::StringExecFns;

verus! {

/// The character classes the grammar scans for.
#[derive(Clone, Copy, Debug, PartialEq, Eq)]
pub enum CharClass {
    /// ASCII decimal digits.
    Digit,
    /// The space character.
    Space,
    /// ASCII letters, ASCII digits and the underscore: what a bare constant
    /// is made of.
    Word,
    /// Letters and digits of any script, and the underscore: what a name of
    /// the typed surface keeps of a name of the catalog.
    Name,
    /// Anything but a double quote: what a quoted string may hold.
    Unquoted,
    /// Anything but a line feed.
    LineBody,
    /// White space: the characters with the Unicode property `White_Space`.
    Blank,
    /// Anything but white space.
    Visible,
}

/// Whether `c` is alphabetic or numeric in the sense of the Unicode tables
/// that `char::is_alphanumeric` consults.
pub uninterp spec fn unicode_alphanumeric(c: char) -> bool;

/// Calls `char::is_alphanumeric`. Its answer comes from Unicode property
/// tables that are too large to restate, so the contract only gives the
/// answer a name.
#[verifier::external_body]
fn is_alphanumeric(c: char) -> (b: bool)
    ensures
        b == unicode_alphanumeric(c),
{
    c.is_alphanumeric()
}

/// Letters and digits. On the ASCII range this is spelled out; beyond it the
/// Unicode tables decide.
pub open spec fn is_alphanumeric_char(c: char) -> bool {
    if (c as u32) < 128 {
        ('0' <= c <= '9') || ('a' <= c <= 'z') || ('A' <= c <= 'Z')
    } else {
        unicode_alphanumeric(c)
    }
}

/// The characters with the Unicode property `White_Space`, by code point.
pub open spec fn is_white_space(c: char) -> bool {
    let u = c as u32;
    ||| 0x09 <= u <= 0x0D
    ||| u == 0x20
    ||| u == 0x85
    ||| u == 0xA0
    ||| u == 0x1680
    ||| 0x2000 <= u <= 0x200A
    ||| u == 0x2028
    ||| u == 0x2029
    ||| u == 0x202F
    ||| u == 0x205F
    ||| u == 0x3000
}

/// Tests whether `c` has the Unicode property `White_Space`.
pub fn white_space(c: char) -> (white: bool)
    ensures
        white == is_white_space(c),
{
    let u = c as u32;
    (0x09 <= u && u <= 0x0D) || u == 0x20 || u == 0x85 || u == 0xA0 || u == 0x1680 || (0x2000 <= u
        && u <= 0x200A) || u == 0x2028 || u == 0x2029 || u == 0x202F || u == 0x205F || u == 0x3000
}

impl CharClass {
    /// Membership of `c` in the class.
    pub open spec fn contains(self, c: char) -> bool {
        match self {
            CharClass::Digit => '0' <= c <= '9',
            CharClass::Space => c == ' ',
            CharClass::Word => ('0' <= c <= '9') || ('a' <= c <= 'z') || ('A' <= c <= 'Z') || c
                == '_',
            CharClass::Name => is_alphanumeric_char(c) || c == '_',
            CharClass::Unquoted => c != '"',
            CharClass::LineBody => c != '\n',
            CharClass::Blank => is_white_space(c),
            CharClass::Visible => !is_white_space(c),
        }
    }

    /// Executable membership test.
    pub fn has(self, c: char) -> (b: bool)
        ensures
            b == self.contains(c),
    {
        match self {
            CharClass::Digit => '0' <= c && c <= '9',
            CharClass::Space => c == ' ',
            CharClass::Word => ('0' <= c && c <= '9') || ('a' <= c && c <= 'z') || ('A' <= c && c
                <= 'Z') || c == '_',
            CharClass::Name => {
                if (c as u32) < 128 {
                    ('0' <= c && c <= '9') || ('a' <= c && c <= 'z') || ('A' <= c && c <= 'Z')
                        || c == '_'
                } else {
                    is_alphanumeric(c)
                }
            },
            CharClass::Unquoted => c != '"',
            CharClass::LineBody => c != '\n',
            CharClass::Blank => white_space(c),
            CharClass::Visible => !white_space(c),
        }
    }
}

/// The end of the longest run of `class` characters that starts at `pos`.
/// It equals `pos` when no such character stands there.
pub open spec fn run_end(s: Seq<char>, pos: int, class: CharClass) -> int
    decreases s.len() - pos,
{
    if 0 <= pos < s.len() && class.contains(s[pos]) {
        run_end(s, pos + 1, class)
    } else {
        pos
    }
}

/// Whether `lit` stands in `s` at `pos`.
pub open spec fn has_literal(s: Seq<char>, pos: int, lit: Seq<char>) -> bool {
    &&& 0 <= pos
    &&& pos + lit.len() <= s.len()
    &&& s.subrange(pos, pos + lit.len()) == lit
}

/// A run is characterised by its end: everything before it is in the class,
/// and what stands at it, if anything, is not.
pub proof fn lemma_run_end(s: Seq<char>, pos: int, class: CharClass, end: int)
    requires
        0 <= pos <= end <= s.len(),
        forall|i: int| pos <= i < end ==> class.contains(#[trigger] s[i]),
        end < s.len() ==> !class.contains(s[end]),
    ensures
        run_end(s, pos, class) == end,
    decreases end - pos,
{
    if pos < end {
        lemma_run_end(s, pos + 1, class, end);
    }
}

/// The converse of [`lemma_run_end`]: what the end of a run tells about the
/// characters around it.
pub proof fn lemma_run_end_bounds(s: Seq<char>, pos: int, class: CharClass)
    requires
        0 <= pos <= s.len(),
    ensures
        pos <= run_end(s, pos, class) <= s.len(),
        forall|i: int| pos <= i < run_end(s, pos, class) ==> class.contains(#[trigger] s[i]),
        run_end(s, pos, class) < s.len() ==> !class.contains(s[run_end(s, pos, class)]),
    decreases s.len() - pos,
{
    if pos < s.len() && class.contains(s[pos]) {
        lemma_run_end_bounds(s, pos + 1, class);
    }
}

/// A borrowed text together with its characters, for constant-time access
/// by character position.
pub struct Text<'a> {
    text: &'a str,
    chars: Vec<char>,
}

impl<'a> View for Text<'a> {
    type V = Seq<char>;

    closed spec fn view(&self) -> Seq<char> {
        self.text@
    }
}

impl<'a> Text<'a> {
    #[verifier::type_invariant]
    spec fn well_formed(&self) -> bool {
        self.chars@ == self.text@
    }

    /// Indexes the characters of `text`.
    pub fn new(text: &'a str) -> (t: Self)
        ensures
            t@ == text@,
    {
        let mut chars: Vec<char> = Vec::new();
        for c in it: text.chars()
            invariant
                it.seq() == text@,
                chars@ == text@.take(it.index() as int),
        {
            chars.push(c);
            assert(chars@ =~= text@.take(it.index() + 1));
        }
        assert(text@.take(text@.len() as int) =~= text@);
        Text { text, chars }
    }

    /// The number of characters.
    pub fn len(&self) -> (n: usize)
        ensures
            n == self@.len(),
    {
        proof {
            use_type_invariant(self);
        }
        self.chars.len()
    }

    /// The character at `pos`.
    pub fn at(&self, pos: usize) -> (c: char)
        requires
            pos < self@.len(),
        ensures
            c == self@[pos as int],
    {
        proof {
            use_type_invariant(self);
        }
        self.chars[pos]
    }

    /// The characters from `from` up to `to`, borrowed from the text.
    pub fn slice(&self, from: usize, to: usize) -> (part: &'a str)
        requires
            from <= to <= self@.len(),
        ensures
            part@ == self@.subrange(from as int, to as int),
    {
        self.text.substring_char(from, to)
    }

    /// The characters from `from` up to `to`, as an owned string.
    pub fn owned(&self, from: usize, to: usize) -> (part: String)
        requires
            from <= to <= self@.len(),
        ensures
            part@ == self@.subrange(from as int, to as int),
    {
        self.text.substring_char(from, to).to_owned()
    }

    /// Scans the run of `class` characters that starts at `pos`.
    pub fn run(&self, pos: usize, class: CharClass) -> (end: usize)
        requires
            pos <= self@.len(),
        ensures
            end == run_end(self@, pos as int, class),
            pos <= end <= self@.len(),
    {
        let n = self.len();
        let mut end = pos;
        while end < n && class.has(self.at(end))
            invariant
                n == self@.len(),
                pos <= end <= n,
                forall|i: int| pos <= i < end ==> class.contains(#[trigger] self@[i]),
            decreases n - end,
        {
            end += 1;
        }
        proof {
            lemma_run_end(self@, pos as int, class, end as int);
        }
        end
    }

    /// Tests whether the literal `lit` stands at `pos`.
    pub fn literal_at(&self, pos: usize, lit: &str) -> (found: bool)
        requires
            pos <= self@.len(),
        ensures
            found == has_literal(self@, pos as int, lit@),
    {
        let wanted = Text::new(lit);
        let n = self.len();
        let m = wanted.len();
        if m > n - pos {
            return false;
        }
        let mut i: usize = 0;
        while i < m
            invariant
                n == self@.len(),
                m == lit@.len(),
                wanted@ == lit@,
                pos + m <= n,
                i <= m,
                forall|k: int| 0 <= k < i ==> self@[pos + k] == lit@[k],
            decreases m - i,
        {
            if self.at(pos + i) != wanted.at(i) {
                assert(self@.subrange(pos as int, pos + m)[i as int] != lit@[i as int]);
                return false;
            }
            i += 1;
        }
        assert(self@.subrange(pos as int, pos + m) =~= lit@);
        true
    }
}

/// Whether all of `s` is made of `class` characters.
pub open spec fn all_in(s: Seq<char>, class: CharClass) -> bool {
    forall|i: int| 0 <= i < s.len() ==> class.contains(#[trigger] s[i])
}

/// Tests whether all of `text` is made of `class` characters.
pub fn is_all(text: &str, class: CharClass) -> (all: bool)
    ensures
        all == all_in(text@, class),
{
    let src = Text::new(text);
    let end = src.run(0, class);
    proof {
        lemma_run_end_bounds(text@, 0, class);
    }
    end == src.len()
}

/// Whether two texts are the same.
pub fn same_text(a: &str, b: &str) -> (same: bool)
    ensures
        same == (a@ == b@),
{
    let text = Text::new(a);
    let found = text.literal_at(0, b);
    proof {
        assert(a@.subrange(0, a@.len() as int) =~= a@);
    }
    found && text.len() == b.unicode_len()
}

/// Whether `wanted` is among `items`.
pub fn contains_text(items: &Vec<String>, wanted: &str) -> (found: bool)
    ensures
        found == strings_view(items@).contains(wanted@),
{
    let mut i: usize = 0;
    while i < items.len()
        invariant
            i <= items.len(),
            forall|k: int| 0 <= k < i ==> strings_view(items@)[k] != wanted@,
        decreases items.len() - i,
    {
        if same_text(items[i].as_str(), wanted) {
            assert(strings_view(items@)[i as int] == wanted@);
            return true;
        }
        i += 1;
    }
    false
}

/// The character that writes the digit `d`.
pub open spec fn digit_char(d: nat) -> char {
    seq!['0', '1', '2', '3', '4', '5', '6', '7', '8', '9'][d as int]
}

/// The decimal digits of `n`, without sign or padding.
pub open spec fn decimal_text(n: nat) -> Seq<char>
    decreases n,
{
    if n < 10 {
        seq![digit_char(n)]
    } else {
        decimal_text(n / 10).push(digit_char(n % 10))
    }
}

/// The decimal digits of `n`, with `-` in front of a negative number.
pub open spec fn signed_decimal_text(n: int) -> Seq<char> {
    if n < 0 {
        seq!['-'] + decimal_text((-n) as nat)
    } else {
        decimal_text(n as nat)
    }
}

/// The texts of a list of strings.
pub open spec fn strings_view(items: Seq<String>) -> Seq<Seq<char>> {
    Seq::new(items.len(), |i: int| items[i]@)
}

/// `parts` in a row, each with a space in front of it.
pub open spec fn spaced(parts: Seq<Seq<char>>) -> Seq<char>
    decreases parts.len(),
{
    if parts.len() == 0 {
        Seq::empty()
    } else {
        spaced(parts.drop_last()) + seq![' '] + parts.last()
    }
}

/// The one-character text of the digit `d`.
pub(crate) fn digit_str(d: u8) -> (text: &'static str)
    requires
        d < 10,
    ensures
        text@ == seq![digit_char(d as nat)],
{
    proof {
        reveal_strlit("0");
        reveal_strlit("1");
        reveal_strlit("2");
        reveal_strlit("3");
        reveal_strlit("4");
        reveal_strlit("5");
        reveal_strlit("6");
        reveal_strlit("7");
        reveal_strlit("8");
        reveal_strlit("9");
    }
    let text = match d {
        0 => "0",
        1 => "1",
        2 => "2",
        3 => "3",
        4 => "4",
        5 => "5",
        6 => "6",
        7 => "7",
        8 => "8",
        _ => "9",
    };
    assert(text@ =~= seq![digit_char(d as nat)]);
    text
}

/// Writes `n` in decimal.
pub fn decimal_string(n: u128) -> (text: String)
    ensures
        text@ == decimal_text(n as nat),
    decreases n,
{
    if n < 10 {
        digit_str(n as u8).to_owned()
    } else {
        let mut text = decimal_string(n / 10);
        text.append(digit_str((n % 10) as u8));
        assert(text@ =~= decimal_text(n as nat / 10).push(digit_char(n as nat % 10)));
        text
    }
}

/// Writes `n` in decimal, with `-` in front of a negative number.
pub fn signed_decimal_string(n: i64) -> (text: String)
    ensures
        text@ == signed_decimal_text(n as int),
{
    if n < 0 {
        proof {
            reveal_strlit("-");
        }
        let mut text = "-".to_owned();
        let digits = decimal_string((-(n as i128)) as u128);
        text.append(digits.as_str());
        assert(text@ =~= seq!['-'] + decimal_text((-n) as nat));
        text
    } else {
        decimal_string(n as u128)
    }
}

} // verus!
