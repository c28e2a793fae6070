//! The wire grammar, as functions from a text and a position to what stands
//! there.
//!
//! ```text
//! value    := mapping | array | string | "true" | "false" | number | constant
//! mapping  := "{" ( entry ( S entry )* )? "}"
//! entry    := string ":" value
//! array    := "[" ( value ( S value )* )? "]"
//! string   := "\"" <any characters but "> "\""
//! number   := "-"? DIGIT+ ( "." DIGIT+ )?
//! constant := ( ALNUM | "_" )+
//! ok       := "+OK" ( S "\"value\":" value | S "\"list\":" array )?
//! err      := "-ERR" ( S <characters up to the line feed or the end> )?
//! publish  := "! \"publishToken\":" string S "\"value\":" value
//! ```
//!
//! `S` is one or more spaces, `DIGIT` an ASCII digit, `ALNUM` an ASCII
//! letter or digit. Alternatives are tried in the order written and the
//! first that fits is taken; repetitions take as much as they can.
//!
//! A truth value, a number and a constant are tokens, and a token is read
//! whole: it must reach to the end of the text or to a space, a closing
//! bracket or a closing brace. So `10GB` and `true_x` are constants, not a
//! number and a truth value with something left over, and `5.2abc` is no
//! value at all. What follows a value beyond that is not looked at.

use crate::decimal::number_at;
use crate::proto::{OkResponseView, PublishTokenView, ResponseView, ValueView};
use crate::text::{has_literal, lemma_run_end_bounds, run_end, CharClass};
use vstd::prelude::*;

verus! {

/// The quoted string at `pos`: its contents and the position behind the
/// closing quote.
pub open spec fn string_at(s: Seq<char>, pos: int) -> Option<(Seq<char>, int)> {
    let close = run_end(s, pos + 1, CharClass::Unquoted);
    if 0 <= pos < s.len() && s[pos] == '"' && close < s.len() {
        Some((s.subrange(pos + 1, close), close + 1))
    } else {
        None
    }
}

/// Whether a value may end at `at`: the text ends there, or a space or a
/// closing bracket or brace follows.
pub open spec fn value_may_end(s: Seq<char>, at: int) -> bool {
    at == s.len() || (0 <= at < s.len() && (s[at] == ' ' || s[at] == ']' || s[at] == '}'))
}

/// The value at `pos` and the position behind it.
///
/// A mapping, an array or a string is taken where one stands. Failing that,
/// the token at `pos` decides: it is a truth value if it is `true` or
/// `false`, else a number if all of it is one, else a constant if all of it
/// is letters, digits and underscores; and no value otherwise.
pub open spec fn value_at(s: Seq<char>, pos: int) -> Option<(ValueView, int)>
    decreases s.len() - pos, 2int,
{
    if !(0 <= pos < s.len()) {
        None
    } else if let Some((entries, end)) = mapping_at(s, pos) {
        Some((ValueView::Mapping(entries), end))
    } else if let Some((items, end)) = array_at(s, pos) {
        Some((ValueView::Array(items), end))
    } else if let Some((text, end)) = string_at(s, pos) {
        Some((ValueView::String(text), end))
    } else if has_literal(s, pos, "true"@) && value_may_end(s, pos + "true"@.len()) {
        Some((ValueView::Boolean(true), pos + "true"@.len()))
    } else if has_literal(s, pos, "false"@) && value_may_end(s, pos + "false"@.len()) {
        Some((ValueView::Boolean(false), pos + "false"@.len()))
    } else if number_at(s, pos) matches Some((_, end)) && value_may_end(s, end) {
        let (number, end) = number_at(s, pos)->0;
        Some((ValueView::Number(number), end))
    } else if run_end(s, pos, CharClass::Word) > pos && value_may_end(
        s,
        run_end(s, pos, CharClass::Word),
    ) {
        let end = run_end(s, pos, CharClass::Word);
        Some((ValueView::Constant(s.subrange(pos, end)), end))
    } else {
        None
    }
}

/// The array at `pos`: its items and the position behind the closing bracket.
pub open spec fn array_at(s: Seq<char>, pos: int) -> Option<(Seq<ValueView>, int)>
    decreases s.len() - pos, 1int,
{
    if 0 <= pos < s.len() && s[pos] == '[' {
        let (items, end) = items_from(s, pos + 1);
        if 0 <= end < s.len() && s[end] == ']' {
            Some((items, end + 1))
        } else {
            None
        }
    } else {
        None
    }
}

/// The values that stand at `pos`, separated by spaces, and the position
/// behind the last of them. There may be none.
pub open spec fn items_from(s: Seq<char>, pos: int) -> (Seq<ValueView>, int)
    decreases s.len() - pos, 3int,
{
    match value_at(s, pos) {
        Some((item, end)) => if pos < end <= s.len() {
            more_items(s, end, seq![item])
        } else {
            (Seq::empty(), pos)
        },
        None => (Seq::empty(), pos),
    }
}

/// Continues a list behind an item that ended at `pos`: as long as spaces
/// and another value follow, the value joins `found`.
pub open spec fn more_items(s: Seq<char>, pos: int, found: Seq<ValueView>) -> (Seq<ValueView>, int)
    decreases s.len() - pos, 0int,
{
    let next = run_end(s, pos, CharClass::Space);
    if 0 <= pos < next <= s.len() {
        match value_at(s, next) {
            Some((item, end)) => if next < end <= s.len() {
                more_items(s, end, found.push(item))
            } else {
                (found, pos)
            },
            None => (found, pos),
        }
    } else {
        (found, pos)
    }
}

/// The mapping at `pos`: its entries as a map and the position behind the
/// closing brace.
pub open spec fn mapping_at(s: Seq<char>, pos: int) -> Option<(Map<Seq<char>, ValueView>, int)>
    decreases s.len() - pos, 1int,
{
    if 0 <= pos < s.len() && s[pos] == '{' {
        let (entries, end) = entries_from(s, pos + 1);
        if 0 <= end < s.len() && s[end] == '}' {
            Some((entries, end + 1))
        } else {
            None
        }
    } else {
        None
    }
}

/// The entry at `pos`: a quoted key, a colon and a value.
pub open spec fn entry_at(s: Seq<char>, pos: int) -> Option<((Seq<char>, ValueView), int)>
    decreases s.len() - pos, 0int,
{
    match string_at(s, pos) {
        Some((key, colon)) => if 0 <= pos < colon < s.len() && s[colon] == ':' {
            match value_at(s, colon + 1) {
                Some((value, end)) => Some(((key, value), end)),
                None => None,
            }
        } else {
            None
        },
        None => None,
    }
}

/// The entries that stand at `pos`, separated by spaces, and the position
/// behind the last of them. There may be none.
pub open spec fn entries_from(s: Seq<char>, pos: int) -> (Map<Seq<char>, ValueView>, int)
    decreases s.len() - pos, 3int,
{
    match entry_at(s, pos) {
        Some((entry, end)) => if pos < end <= s.len() {
            more_entries(s, end, Map::empty().insert(entry.0, entry.1))
        } else {
            (Map::empty(), pos)
        },
        None => (Map::empty(), pos),
    }
}

/// Continues a mapping behind an entry that ended at `pos`: as long as spaces
/// and another entry follow, the entry is put into `found`.
pub open spec fn more_entries(s: Seq<char>, pos: int, found: Map<Seq<char>, ValueView>) -> (
    Map<Seq<char>, ValueView>,
    int,
)
    decreases s.len() - pos, 1int,
{
    let next = run_end(s, pos, CharClass::Space);
    if 0 <= pos < next <= s.len() {
        match entry_at(s, next) {
            Some((entry, end)) => if next < end <= s.len() {
                more_entries(s, end, found.insert(entry.0, entry.1))
            } else {
                (found, pos)
            },
            None => (found, pos),
        }
    } else {
        (found, pos)
    }
}

/// What follows `+OK` at `pos`: a value, a list, or nothing that counts.
pub open spec fn ok_tail(s: Seq<char>, pos: int) -> (OkResponseView, int) {
    let field = run_end(s, pos, CharClass::Space);
    if pos < field && has_literal(s, field, "\"value\":"@) && value_at(
        s,
        field + "\"value\":"@.len(),
    ) is Some {
        let (value, end) = value_at(s, field + "\"value\":"@.len())->0;
        (OkResponseView::WithValue(value), end)
    } else if pos < field && has_literal(s, field, "\"list\":"@) && array_at(
        s,
        field + "\"list\":"@.len(),
    ) is Some {
        let (items, end) = array_at(s, field + "\"list\":"@.len())->0;
        (OkResponseView::WithList(items), end)
    } else {
        (OkResponseView::Bare, pos)
    }
}

/// What follows `-ERR` at `pos`: behind one or more spaces, the message that
/// runs to the line feed or to the end of the text.
pub open spec fn err_tail(s: Seq<char>, pos: int) -> (Seq<char>, int) {
    let start = run_end(s, pos, CharClass::Space);
    let end = run_end(s, start, CharClass::LineBody);
    if pos < start {
        (s.subrange(start, end), end)
    } else {
        (Seq::empty(), pos)
    }
}

/// What follows `! "publishToken":` at `pos`: the label, spaces, and the
/// value behind `"value":`. Where that fails, the error is the position of
/// the part that is missing; for a label without its closing quote, the
/// position behind the opening quote.
pub open spec fn publish_tail(s: Seq<char>, pos: int) -> Result<(PublishTokenView, int), int> {
    match string_at(s, pos) {
        None => Err(
            if 0 <= pos < s.len() && s[pos] == '"' {
                pos + 1
            } else {
                pos
            },
        ),
        Some((label, after)) => {
            let field = run_end(s, after, CharClass::Space);
            let start = field + "\"value\":"@.len();
            if field <= after {
                Err(after)
            } else if !has_literal(s, field, "\"value\":"@) {
                Err(field)
            } else {
                match value_at(s, start) {
                    None => Err(start),
                    Some((value, end)) => Ok((PublishTokenView { label, value }, end)),
                }
            }
        },
    }
}

/// The response that stands at the beginning of `s`, and the position behind
/// it; or the position at which no response can be read any further.
pub open spec fn response_at(s: Seq<char>) -> Result<(ResponseView, int), int> {
    if has_literal(s, 0, "+OK"@) {
        let (ok, end) = ok_tail(s, "+OK"@.len() as int);
        Ok((ResponseView::Success(ok), end))
    } else if has_literal(s, 0, "-ERR"@) {
        let (message, end) = err_tail(s, "-ERR"@.len() as int);
        Ok((ResponseView::Failure(message), end))
    } else if has_literal(s, 0, "! \"publishToken\":"@) {
        match publish_tail(s, "! \"publishToken\":"@.len() as int) {
            Ok((token, end)) => Ok((ResponseView::Event(token), end)),
            Err(at) => Err(at),
        }
    } else {
        Err(0)
    }
}

/// Whatever is read at `pos` ends behind `pos` and within the text.
pub open spec fn in_bounds<T>(s: Seq<char>, pos: int, read: Option<(T, int)>) -> bool {
    read matches Some((_, end)) ==> pos < end <= s.len()
}

/// A number that is read ends behind where it begins, and within the text.
pub proof fn lemma_number_bounds(s: Seq<char>, pos: int)
    requires
        0 <= pos <= s.len(),
    ensures
        in_bounds(s, pos, number_at(s, pos)),
{
    let start = if pos < s.len() && s[pos] == '-' {
        pos + 1
    } else {
        pos
    };
    lemma_run_end_bounds(s, start, CharClass::Digit);
    let whole_end = run_end(s, start, CharClass::Digit);
    if whole_end < s.len() {
        lemma_run_end_bounds(s, whole_end + 1, CharClass::Digit);
    }
}

/// A string that is read ends behind where it begins, and within the text.
pub proof fn lemma_string_bounds(s: Seq<char>, pos: int)
    requires
        0 <= pos <= s.len(),
    ensures
        in_bounds(s, pos, string_at(s, pos)),
{
    if pos < s.len() {
        lemma_run_end_bounds(s, pos + 1, CharClass::Unquoted);
    }
}

/// A value that is read ends behind where it begins, and within the text:
/// every value takes at least one character, and none reaches beyond the
/// end.
pub proof fn lemma_value_bounds(s: Seq<char>, pos: int)
    requires
        0 <= pos <= s.len(),
    ensures
        in_bounds(s, pos, value_at(s, pos)),
        in_bounds(s, pos, array_at(s, pos)),
        in_bounds(s, pos, mapping_at(s, pos)),
    decreases s.len() - pos, 4int,
{
    reveal_strlit("true");
    reveal_strlit("false");
    if pos < s.len() {
        lemma_number_bounds(s, pos);
        lemma_string_bounds(s, pos);
        lemma_run_end_bounds(s, pos, CharClass::Word);
        if s[pos] == '[' {
            lemma_items_bounds(s, pos + 1);
        }
        if s[pos] == '{' {
            lemma_entries_bounds(s, pos + 1);
        }
    }
}

/// A list of values ends at or behind where it begins, and within the
/// text.
pub proof fn lemma_items_bounds(s: Seq<char>, pos: int)
    requires
        0 <= pos <= s.len(),
    ensures
        pos <= items_from(s, pos).1 <= s.len(),
    decreases s.len() - pos, 5int,
{
    lemma_value_bounds(s, pos);
    if let Some((item, end)) = value_at(s, pos) {
        lemma_more_items_bounds(s, end, seq![item]);
    }
}

/// The continuation of a list ends at or behind where it begins, and within
/// the text.
pub proof fn lemma_more_items_bounds(s: Seq<char>, pos: int, found: Seq<ValueView>)
    requires
        0 <= pos <= s.len(),
    ensures
        pos <= more_items(s, pos, found).1 <= s.len(),
    decreases s.len() - pos, 1int,
{
    lemma_run_end_bounds(s, pos, CharClass::Space);
    let next = run_end(s, pos, CharClass::Space);
    if pos < next {
        lemma_value_bounds(s, next);
        if let Some((item, end)) = value_at(s, next) {
            lemma_more_items_bounds(s, end, found.push(item));
        }
    }
}

/// An entry that is read ends behind where it begins, and within the text.
pub proof fn lemma_entry_bounds(s: Seq<char>, pos: int)
    requires
        0 <= pos <= s.len(),
    ensures
        in_bounds(s, pos, entry_at(s, pos)),
    decreases s.len() - pos, 0int,
{
    lemma_string_bounds(s, pos);
    if let Some((_, colon)) = string_at(s, pos) {
        if colon < s.len() {
            lemma_value_bounds(s, colon + 1);
        }
    }
}

/// A list of entries ends at or behind where it begins, and within the
/// text.
pub proof fn lemma_entries_bounds(s: Seq<char>, pos: int)
    requires
        0 <= pos <= s.len(),
    ensures
        pos <= entries_from(s, pos).1 <= s.len(),
    decreases s.len() - pos, 5int,
{
    lemma_entry_bounds(s, pos);
    if let Some((entry, end)) = entry_at(s, pos) {
        lemma_more_entries_bounds(s, end, Map::empty().insert(entry.0, entry.1));
    }
}

/// The continuation of a mapping ends at or behind where it begins, and
/// within the text.
pub proof fn lemma_more_entries_bounds(
    s: Seq<char>,
    pos: int,
    found: Map<Seq<char>, ValueView>,
)
    requires
        0 <= pos <= s.len(),
    ensures
        pos <= more_entries(s, pos, found).1 <= s.len(),
    decreases s.len() - pos, 2int,
{
    lemma_run_end_bounds(s, pos, CharClass::Space);
    let next = run_end(s, pos, CharClass::Space);
    if pos < next {
        lemma_entry_bounds(s, next);
        if let Some((entry, end)) = entry_at(s, next) {
            lemma_more_entries_bounds(s, end, found.insert(entry.0, entry.1));
        }
    }
}

/// A response that is read ends within the text, and so does the place
/// where one could not be read.
pub proof fn lemma_response_bounds(s: Seq<char>)
    ensures
        match response_at(s) {
            Ok((_, end)) => 0 <= end <= s.len(),
            Err(at) => 0 <= at <= s.len(),
        },
{
    reveal_strlit("+OK");
    reveal_strlit("-ERR");
    reveal_strlit("! \"publishToken\":");
    reveal_strlit("\"value\":");
    reveal_strlit("\"list\":");
    if has_literal(s, 0, "+OK"@) {
        lemma_run_end_bounds(s, 3, CharClass::Space);
        let field = run_end(s, 3, CharClass::Space);
        if has_literal(s, field, "\"value\":"@) {
            lemma_value_bounds(s, field + 8);
        }
        if has_literal(s, field, "\"list\":"@) {
            lemma_value_bounds(s, field + 7);
        }
    } else if has_literal(s, 0, "-ERR"@) {
        lemma_run_end_bounds(s, 4, CharClass::Space);
        lemma_run_end_bounds(s, run_end(s, 4, CharClass::Space), CharClass::LineBody);
    } else if has_literal(s, 0, "! \"publishToken\":"@) {
        lemma_string_bounds(s, 17);
        if 17 < s.len() {
            lemma_run_end_bounds(s, 18, CharClass::Unquoted);
        }
        if let Some((_, after)) = string_at(s, 17) {
            lemma_run_end_bounds(s, after, CharClass::Space);
            let field = run_end(s, after, CharClass::Space);
            if has_literal(s, field, "\"value\":"@) {
                lemma_value_bounds(s, field + 8);
            }
        }
    }
}

} // verus!
