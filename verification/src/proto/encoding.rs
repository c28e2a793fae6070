//! Writing values down, and the proof that what is written reads back as
//! the same value.

use crate::decimal::{number_at, strip_leading_zeros, strip_trailing_zeros, DecimalView};
use crate::proto::grammar::{
    array_at, entry_at, mapping_at, more_entries, more_items, response_at, string_at, value_at,
    value_may_end,
};
use crate::proto::{
    entries_view, lemma_values_view, values_view, IntoTTP, OkResponseView, PublishTokenView,
    ResponseView, Value, ValueView,
};
use crate::text::{
    all_in, has_literal, is_all, lemma_run_end, lemma_run_end_bounds, run_end, same_text, CharClass,
};
use vstd::prelude::*;
use vstd::string::StringExecFns;

verus! {

broadcast use {
    vstd::std_specs::vec::axiom_vec_index_decreases,
    vstd::std_specs::vec::axiom_vec_decreases_to_view,
};

/// The text of a value.
pub open spec fn value_text(v: Value) -> Seq<char>
    decreases v,
{
    match v {
        Value::Number(d) => d@.text(),
        Value::Boolean(b) => if b {
            "true"@
        } else {
            "false"@
        },
        Value::String(s) => seq!['"'] + s@ + seq!['"'],
        Value::Mapping(entries) => seq!['{'] + entries_text(entries@) + seq!['}'],
        Value::Array(items) => seq!['['] + values_text(items@) + seq![']'],
        Value::Constant(s) => s@,
    }
}

/// The text of a list of values: one space between any two of them.
pub open spec fn values_text(items: Seq<Value>) -> Seq<char>
    decreases items, 1int,
{
    if items.len() == 0 {
        Seq::empty()
    } else {
        value_text(items[0]) + spaced_values_text(items.drop_first())
    }
}

/// The text of a list of values with a space in front of each.
pub open spec fn spaced_values_text(items: Seq<Value>) -> Seq<char>
    decreases items, 0int,
{
    if items.len() == 0 {
        Seq::empty()
    } else {
        seq![' '] + value_text(items[0]) + spaced_values_text(items.drop_first())
    }
}

/// The text of an entry: the quoted key, a colon, the value.
pub open spec fn entry_text(entry: (String, Value)) -> Seq<char>
    decreases entry,
{
    seq!['"'] + entry.0@ + seq!['"', ':'] + value_text(entry.1)
}

/// The text of a list of entries: one space between any two of them.
pub open spec fn entries_text(entries: Seq<(String, Value)>) -> Seq<char>
    decreases entries, 1int,
{
    if entries.len() == 0 {
        Seq::empty()
    } else {
        entry_text(entries[0]) + spaced_entries_text(entries.drop_first())
    }
}

/// The text of a list of entries with a space in front of each.
pub open spec fn spaced_entries_text(entries: Seq<(String, Value)>) -> Seq<char>
    decreases entries, 0int,
{
    if entries.len() == 0 {
        Seq::empty()
    } else {
        seq![' '] + entry_text(entries[0]) + spaced_entries_text(entries.drop_first())
    }
}

/// Whether `s` can stand as a bare constant: it is made of letters, digits
/// and underscores, and is neither `true` nor `false` nor a run of digits,
/// which would be a truth value or a number.
pub open spec fn is_constant_text(s: Seq<char>) -> bool {
    &&& s.len() > 0
    &&& all_in(s, CharClass::Word)
    &&& !all_in(s, CharClass::Digit)
    &&& s != "true"@
    &&& s != "false"@
}

/// Whether a value is one that the grammar can express: numbers are
/// canonical, strings and keys hold no double quote, and constants are bare
/// words.
pub open spec fn decodable(v: Value) -> bool
    decreases v,
{
    match v {
        Value::Number(d) => d@.canonical(),
        Value::Boolean(_) => true,
        Value::String(s) => !s@.contains('"'),
        Value::Mapping(entries) => forall|i: int|
            0 <= i < entries.len() ==> !(#[trigger] entries[i]).0@.contains('"') && decodable(
                entries[i].1,
            ),
        Value::Array(items) => forall|i: int|
            0 <= i < items.len() ==> decodable(#[trigger] items[i]),
        Value::Constant(s) => is_constant_text(s@),
    }
}

/// Tests whether `text` can stand as a bare constant.
pub fn is_constant(text: &str) -> (bare: bool)
    ensures
        bare == is_constant_text(text@),
{
    !text.is_empty() && is_all(text, CharClass::Word) && !is_all(text, CharClass::Digit)
        && !same_text(text, "true") && !same_text(text, "false")
}

/// Tests whether a value is one that the grammar can express.
#[verifier::rlimit(40)]
pub fn is_decodable(v: &Value) -> (expressible: bool)
    ensures
        expressible == decodable(*v),
    decreases v,
{
    match v {
        Value::Number(d) => {
            let _ = d.is_zero();
            true
        },
        Value::Boolean(_) => true,
        Value::String(text) => {
            let plain = is_all(text.as_str(), CharClass::Unquoted);
            proof {
                lemma_unquoted(text@);
            }
            plain
        },
        Value::Constant(word) => is_constant(word.as_str()),
        Value::Array(items) => {
            let mut i: usize = 0;
            while i < items.len()
                invariant
                    i <= items.len(),
                    *v == Value::Array(*items),
                    forall|k: int| 0 <= k < i ==> decodable(#[trigger] items[k]),
                decreases items.len() - i,
            {
                proof {
                    assert(v->Array_0 == *items);
                    assert(decreases_to!(*v => v->Array_0));
                    assert(decreases_to!(*items => items[i as int]));
                }
                if !is_decodable(&items[i]) {
                    return false;
                }
                i += 1;
            }
            true
        },
        Value::Mapping(entries) => {
            let mut i: usize = 0;
            while i < entries.len()
                invariant
                    i <= entries.len(),
                    *v == Value::Mapping(*entries),
                    forall|k: int|
                        0 <= k < i ==> !(#[trigger] entries[k]).0@.contains('"') && decodable(
                            entries[k].1,
                        ),
                decreases entries.len() - i,
            {
                proof {
                    assert(v->Mapping_0 == *entries);
                    assert(decreases_to!(*v => v->Mapping_0));
                    assert(decreases_to!(*entries => entries[i as int]));
                    assert(decreases_to!(entries[i as int] => entries[i as int].1));
                    lemma_unquoted(entries[i as int].0@);
                }
                if !is_all(entries[i].0.as_str(), CharClass::Unquoted) || !is_decodable(
                    &entries[i].1,
                ) {
                    return false;
                }
                i += 1;
            }
            true
        },
    }
}

/// A text is made of characters other than the double quote exactly if it
/// holds none.
proof fn lemma_unquoted(s: Seq<char>)
    ensures
        all_in(s, CharClass::Unquoted) <==> !s.contains('"'),
{
    if !s.contains('"') {
        assert forall|i: int| 0 <= i < s.len() implies CharClass::Unquoted.contains(
            #[trigger] s[i],
        ) by {
            assert(s.contains(s[i]));
        }
    }
}

/// A text that stands at `pos` has its parts standing there one behind the
/// other.
pub proof fn lemma_literal_split(s: Seq<char>, pos: int, a: Seq<char>, b: Seq<char>)
    requires
        has_literal(s, pos, a + b),
    ensures
        has_literal(s, pos, a),
        has_literal(s, pos + a.len(), b),
{
    let whole = s.subrange(pos, pos + (a + b).len());
    assert(s.subrange(pos, pos + a.len()) =~= a) by {
        assert forall|i: int| 0 <= i < a.len() implies s.subrange(pos, pos + a.len())[i]
            == a[i] by {
            assert(whole[i] == (a + b)[i]);
        }
    }
    assert(s.subrange(pos + a.len(), pos + a.len() + b.len()) =~= b) by {
        assert forall|i: int| 0 <= i < b.len() implies s.subrange(
            pos + a.len(),
            pos + a.len() + b.len(),
        )[i] == b[i] by {
            assert(whole[a.len() + i] == (a + b)[a.len() + i]);
        }
    }
}

/// The character of `s` that a text standing at `pos` puts at `pos + i`.
pub proof fn lemma_literal_char(s: Seq<char>, pos: int, text: Seq<char>, i: int)
    requires
        has_literal(s, pos, text),
        0 <= i < text.len(),
    ensures
        s[pos + i] == text[i],
{
    assert(s.subrange(pos, pos + text.len())[i] == text[i]);
}

/// A text of `class` characters that stands at `pos` and is not continued
/// is the run that starts there.
pub proof fn lemma_literal_run(s: Seq<char>, pos: int, text: Seq<char>, class: CharClass)
    requires
        has_literal(s, pos, text),
        forall|i: int| 0 <= i < text.len() ==> class.contains(#[trigger] text[i]),
        pos + text.len() < s.len() ==> !class.contains(s[pos + text.len()]),
    ensures
        run_end(s, pos, class) == pos + text.len(),
{
    assert forall|i: int| pos <= i < pos + text.len() implies class.contains(#[trigger] s[i]) by {
        lemma_literal_char(s, pos, text, i - pos);
        assert(class.contains(text[i - pos]));
    }
    lemma_run_end(s, pos, class, pos + text.len());
}

/// A canonical number that stands at `pos`, where a value may end behind
/// it, is read back as it is.
#[verifier::rlimit(40)]
pub proof fn lemma_number_reads_back(d: DecimalView, s: Seq<char>, pos: int)
    requires
        d.canonical(),
        has_literal(s, pos, d.text()),
        value_may_end(s, pos + d.text().len()),
    ensures
        number_at(s, pos) == Some((d, pos + d.text().len())),
{
    let sign = if d.negative { seq!['-'] } else { Seq::<char>::empty() };
    let tail = if d.fraction.len() > 0 { seq!['.'] + d.fraction } else { Seq::<char>::empty() };
    let start = pos + sign.len();
    let whole_end = start + d.whole.len();
    assert(d.text() == sign + d.whole + tail);
    assert(sign + d.whole + tail =~= sign + (d.whole + tail));
    lemma_literal_split(s, pos, sign, d.whole + tail);
    lemma_literal_split(s, start, d.whole, tail);
    lemma_literal_char(s, start, d.whole, 0);
    if d.negative {
        lemma_literal_char(s, pos, sign, 0);
    }
    assert(s[start] == d.whole[0]);
    assert(CharClass::Digit.contains(d.whole[0]));
    if d.fraction.len() > 0 {
        lemma_literal_split(s, whole_end, seq!['.'], d.fraction);
        lemma_literal_char(s, whole_end, seq!['.'], 0);
        lemma_literal_run(s, start, d.whole, CharClass::Digit);
        lemma_literal_run(s, whole_end + 1, d.fraction, CharClass::Digit);
        assert(s.subrange(start, whole_end) == d.whole);
        assert(s.subrange(whole_end + 1, whole_end + 1 + d.fraction.len()) == d.fraction);
    } else {
        assert(tail.len() == 0);
        lemma_literal_run(s, start, d.whole, CharClass::Digit);
        assert(s.subrange(start, whole_end) == d.whole);
    }
    assert(strip_leading_zeros(d.whole) == d.whole);
    assert(strip_trailing_zeros(d.fraction) == d.fraction);
    assert(strip_trailing_zeros(Seq::<char>::empty()) == Seq::<char>::empty());
    if d.fraction.len() == 0 {
        assert(d.fraction =~= Seq::<char>::empty());
    }
}

/// The text of a value that the grammar can express is not empty, and does
/// not begin with a character that separates or closes.
pub proof fn lemma_value_text_start(v: Value)
    requires
        decodable(v),
    ensures
        value_text(v).len() > 0,
        value_text(v)[0] != ' ',
        value_text(v)[0] != ']',
        value_text(v)[0] != '}',
{
    reveal_strlit("true");
    reveal_strlit("false");
    match v {
        Value::Number(d) => {
            assert(CharClass::Digit.contains(d@.whole[0]));
        },
        Value::Constant(text) => {
            assert(CharClass::Word.contains(text@[0]));
        },
        _ => {},
    }
}

/// Where a bracket or a brace closes, no value and no entry begins.
pub proof fn lemma_nothing_at_close(s: Seq<char>, pos: int)
    requires
        0 <= pos < s.len(),
        s[pos] == ']' || s[pos] == '}',
    ensures
        value_at(s, pos) is None,
        entry_at(s, pos) is None,
{
    reveal_strlit("true");
    reveal_strlit("false");
    if has_literal(s, pos, "true"@) {
        lemma_literal_char(s, pos, "true"@, 0);
    }
    if has_literal(s, pos, "false"@) {
        lemma_literal_char(s, pos, "false"@, 0);
    }
}

/// The entries of `entries` put into `found` one after the other.
pub open spec fn insert_all(
    found: Map<Seq<char>, ValueView>,
    entries: Seq<(String, Value)>,
) -> Map<Seq<char>, ValueView>
    decreases entries.len(),
{
    if entries.len() == 0 {
        found
    } else {
        insert_all(found.insert(entries[0].0@, entries[0].1@), entries.drop_first())
    }
}

/// Putting the entries of `b` into the map of `a` gives the map of `a`
/// followed by `b`.
pub proof fn lemma_insert_all(a: Seq<(String, Value)>, b: Seq<(String, Value)>)
    ensures
        insert_all(entries_view(a), b) == entries_view(a + b),
    decreases b.len(),
{
    if b.len() == 0 {
        assert(a + b =~= a);
    } else {
        let next = a.push(b[0]);
        assert(next.drop_last() =~= a);
        lemma_insert_all(next, b.drop_first());
        assert(next + b.drop_first() =~= a + b);
    }
}

/// Where a character stands that no truth value begins with, none is read.
proof fn lemma_no_truth_value(s: Seq<char>, pos: int)
    requires
        0 <= pos < s.len(),
        s[pos] != 't',
        s[pos] != 'f',
    ensures
        !has_literal(s, pos, "true"@),
        !has_literal(s, pos, "false"@),
{
    reveal_strlit("true");
    reveal_strlit("false");
    if has_literal(s, pos, "true"@) {
        lemma_literal_char(s, pos, "true"@, 0);
    }
    if has_literal(s, pos, "false"@) {
        lemma_literal_char(s, pos, "false"@, 0);
    }
}

/// A number that is read at `pos`, and is a whole token, is the value
/// there.
proof fn lemma_value_is_number(s: Seq<char>, pos: int)
    requires
        0 <= pos < s.len(),
        s[pos] == '-' || CharClass::Digit.contains(s[pos]),
        number_at(s, pos) matches Some((_, end)) && value_may_end(s, end),
    ensures
        number_at(s, pos) matches Some((number, end)) && value_at(s, pos) == Some(
            (ValueView::Number(number), end),
        ),
{
    lemma_no_truth_value(s, pos);
}

/// A truth value that stands at `pos`, and is a whole token, is the value
/// there.
proof fn lemma_value_is_boolean(s: Seq<char>, pos: int, b: bool)
    requires
        has_literal(s, pos, if b { "true"@ } else { "false"@ }),
        value_may_end(s, pos + if b { "true"@.len() } else { "false"@.len() }),
    ensures
        value_at(s, pos) == Some(
            (ValueView::Boolean(b), pos + if b { "true"@.len() } else { "false"@.len() }),
        ),
{
    reveal_strlit("true");
    reveal_strlit("false");
    if b {
        lemma_literal_char(s, pos, "true"@, 0);
    } else {
        lemma_literal_char(s, pos, "false"@, 0);
        if has_literal(s, pos, "true"@) {
            lemma_literal_char(s, pos, "true"@, 0);
        }
    }
}

/// A string that is read at `pos` is the value there.
proof fn lemma_value_is_string(s: Seq<char>, pos: int)
    requires
        string_at(s, pos) is Some,
    ensures
        string_at(s, pos) matches Some((text, end)) && value_at(s, pos) == Some(
            (ValueView::String(text), end),
        ),
{
}

/// A run of letters, digits and underscores that stands at `pos` as a whole
/// token, and is neither a truth value nor a number, is the constant there.
proof fn lemma_value_is_constant(s: Seq<char>, pos: int, end: int)
    requires
        0 <= pos < end <= s.len(),
        run_end(s, pos, CharClass::Word) == end,
        CharClass::Word.contains(s[pos]),
        value_may_end(s, end),
        !(has_literal(s, pos, "true"@) && value_may_end(s, pos + "true"@.len())),
        !(has_literal(s, pos, "false"@) && value_may_end(s, pos + "false"@.len())),
        !(number_at(s, pos) matches Some((_, stop)) && value_may_end(s, stop)),
    ensures
        value_at(s, pos) == Some((ValueView::Constant(s.subrange(pos, end)), end)),
{
}

/// An array that is read at `pos` is the value there.
proof fn lemma_value_is_array(s: Seq<char>, pos: int)
    requires
        array_at(s, pos) is Some,
    ensures
        array_at(s, pos) matches Some((items, end)) && value_at(s, pos) == Some(
            (ValueView::Array(items), end),
        ),
{
}

/// A mapping that is read at `pos` is the value there.
proof fn lemma_value_is_mapping(s: Seq<char>, pos: int)
    requires
        mapping_at(s, pos) is Some,
    ensures
        mapping_at(s, pos) matches Some((entries, end)) && value_at(s, pos) == Some(
            (ValueView::Mapping(entries), end),
        ),
{
}

/// A quoted text without a double quote in it, standing at `pos`, is the
/// string there.
proof fn lemma_string_reads_back(body: Seq<char>, s: Seq<char>, pos: int)
    requires
        !body.contains('"'),
        has_literal(s, pos, seq!['"'] + body + seq!['"']),
    ensures
        string_at(s, pos) == Some((body, pos + body.len() + 2)),
{
    lemma_literal_split(s, pos, seq!['"'] + body, seq!['"']);
    lemma_literal_split(s, pos, seq!['"'], body);
    lemma_literal_char(s, pos, seq!['"'], 0);
    lemma_literal_char(s, pos + 1 + body.len(), seq!['"'], 0);
    lemma_unquoted(body);
    lemma_literal_run(s, pos + 1, body, CharClass::Unquoted);
}

/// A word that is not all digits, standing at `pos`, is no number that is a
/// whole token: the number, if one begins there, stops in front of one of
/// the word's characters.
proof fn lemma_word_is_no_number(word: Seq<char>, s: Seq<char>, pos: int)
    requires
        word.len() > 0,
        all_in(word, CharClass::Word),
        !all_in(word, CharClass::Digit),
        has_literal(s, pos, word),
    ensures
        !(number_at(s, pos) matches Some((_, stop)) && value_may_end(s, stop)),
{
    let i = choose|i: int| 0 <= i < word.len() && !CharClass::Digit.contains(#[trigger] word[i]);
    lemma_literal_char(s, pos, word, 0);
    lemma_literal_char(s, pos, word, i);
    assert(CharClass::Word.contains(word[0]));
    lemma_run_end_bounds(s, pos, CharClass::Digit);
    let whole_end = run_end(s, pos, CharClass::Digit);
    if whole_end > pos + i {
        assert(CharClass::Digit.contains(s[pos + i]));
    }
    if pos < whole_end {
        lemma_literal_char(s, pos, word, whole_end - pos);
        assert(CharClass::Word.contains(word[whole_end - pos]));
    }
}

/// A bare constant, standing at `pos` where a value may end behind it, is
/// the value there.
proof fn lemma_constant_reads_back(word: Seq<char>, s: Seq<char>, pos: int)
    requires
        is_constant_text(word),
        has_literal(s, pos, word),
        value_may_end(s, pos + word.len()),
    ensures
        value_at(s, pos) == Some((ValueView::Constant(word), pos + word.len())),
{
    reveal_strlit("true");
    reveal_strlit("false");
    lemma_literal_char(s, pos, word, 0);
    assert(CharClass::Word.contains(word[0]));
    lemma_literal_run(s, pos, word, CharClass::Word);
    if has_literal(s, pos, "true"@) && value_may_end(s, pos + "true"@.len()) {
        lemma_whole_token(s, pos, word, "true"@);
    }
    if has_literal(s, pos, "false"@) && value_may_end(s, pos + "false"@.len()) {
        lemma_whole_token(s, pos, word, "false"@);
    }
    lemma_word_is_no_number(word, s, pos);
    lemma_value_is_constant(s, pos, pos + word.len());
}

/// A value that the grammar can express, standing at `pos` where a value may
/// end behind it, is read back as it is.
pub proof fn lemma_value_reads_back(v: Value, s: Seq<char>, pos: int)
    requires
        decodable(v),
        has_literal(s, pos, value_text(v)),
        value_may_end(s, pos + value_text(v).len()),
    ensures
        value_at(s, pos) == Some((v@, pos + value_text(v).len())),
    decreases v, 0int,
{
    let text = value_text(v);
    lemma_value_text_start(v);
    lemma_literal_char(s, pos, text, 0);
    match v {
        Value::Number(d) => {
            lemma_number_reads_back(d@, s, pos);
            assert(CharClass::Digit.contains(d@.whole[0]));
            lemma_value_is_number(s, pos);
        },
        Value::Boolean(b) => {
            lemma_value_is_boolean(s, pos, b);
        },
        Value::String(body) => {
            lemma_string_reads_back(body@, s, pos);
            lemma_value_is_string(s, pos);
        },
        Value::Constant(word) => {
            lemma_constant_reads_back(word@, s, pos);
        },
        Value::Array(items) => {
            lemma_array_reads_back(items@, s, pos);
            lemma_value_is_array(s, pos);
        },
        Value::Mapping(entries) => {
            lemma_mapping_reads_back(entries@, s, pos);
            lemma_value_is_mapping(s, pos);
        },
    }
}

/// An array of values that the grammar can express, standing at `pos`, is
/// read back as it is.
#[verifier::rlimit(40)]
proof fn lemma_array_reads_back(items: Seq<Value>, s: Seq<char>, pos: int)
    requires
        forall|i: int| 0 <= i < items.len() ==> decodable(#[trigger] items[i]),
        has_literal(s, pos, seq!['['] + values_text(items) + seq![']']),
    ensures
        array_at(s, pos) == Some((values_view(items), pos + values_text(items).len() + 2)),
    decreases items, 2int,
{
    let inner = values_text(items);
    lemma_literal_split(s, pos, seq!['['] + inner, seq![']']);
    lemma_literal_split(s, pos, seq!['['], inner);
    lemma_literal_char(s, pos, seq!['['], 0);
    lemma_literal_char(s, pos + 1 + inner.len(), seq![']'], 0);
    if items.len() == 0 {
        lemma_nothing_at_close(s, pos + 1);
        assert(values_view(items) =~= Seq::empty());
    } else {
        let first = items[0];
        let rest = items.drop_first();
        let tail = spaced_values_text(rest);
        lemma_literal_split(s, pos + 1, value_text(first), tail);
        let first_end = pos + 1 + value_text(first).len();
        lemma_spaced_values_start(rest);
        if rest.len() > 0 {
            lemma_literal_char(s, first_end, tail, 0);
        }
        lemma_value_reads_back(first, s, pos + 1);
        lemma_value_text_start(first);
        assert forall|i: int| 0 <= i < rest.len() implies decodable(#[trigger] rest[i]) by {
            assert(rest[i] == items[i + 1]);
        }
        lemma_more_items_read_back(rest, s, first_end, seq![first@]);
        lemma_values_view(items);
        lemma_values_view(rest);
        assert(seq![first@] + values_view(rest) =~= values_view(items));
    }
}

/// A mapping of entries that the grammar can express, standing at `pos`, is
/// read back as it is.
#[verifier::rlimit(40)]
proof fn lemma_mapping_reads_back(entries: Seq<(String, Value)>, s: Seq<char>, pos: int)
    requires
        forall|i: int|
            0 <= i < entries.len() ==> !(#[trigger] entries[i]).0@.contains('"') && decodable(
                entries[i].1,
            ),
        has_literal(s, pos, seq!['{'] + entries_text(entries) + seq!['}']),
    ensures
        mapping_at(s, pos) == Some((entries_view(entries), pos + entries_text(entries).len() + 2)),
    decreases entries, 3int,
{
    let inner = entries_text(entries);
    lemma_literal_split(s, pos, seq!['{'] + inner, seq!['}']);
    lemma_literal_split(s, pos, seq!['{'], inner);
    lemma_literal_char(s, pos, seq!['{'], 0);
    lemma_literal_char(s, pos + 1 + inner.len(), seq!['}'], 0);
    if entries.len() == 0 {
        lemma_nothing_at_close(s, pos + 1);
    } else {
        let first = entries[0];
        let rest = entries.drop_first();
        let tail = spaced_entries_text(rest);
        lemma_literal_split(s, pos + 1, entry_text(first), tail);
        let first_end = pos + 1 + entry_text(first).len();
        lemma_spaced_entries_start(rest);
        if rest.len() > 0 {
            lemma_literal_char(s, first_end, tail, 0);
        }
        lemma_entry_reads_back(first, s, pos + 1);
        assert forall|i: int| 0 <= i < rest.len() implies !(#[trigger] rest[i]).0@.contains('"')
            && decodable(rest[i].1) by {
            assert(rest[i] == entries[i + 1]);
        }
        let found = Map::<Seq<char>, ValueView>::empty().insert(first.0@, first.1@);
        lemma_more_entries_read_back(rest, s, first_end, found);
        assert(insert_all(Map::empty(), entries) == insert_all(found, rest));
        lemma_insert_all(Seq::empty(), entries);
        assert(Seq::<(String, Value)>::empty() + entries =~= entries);
    }
}

/// Two tokens that stand at the same place are the same: where a word and
/// a literal without separators both stand at `pos` and a value may end
/// behind each, the word is the literal.
proof fn lemma_whole_token(s: Seq<char>, pos: int, word: Seq<char>, lit: Seq<char>)
    requires
        all_in(word, CharClass::Word),
        has_literal(s, pos, word),
        has_literal(s, pos, lit),
        value_may_end(s, pos + word.len()),
        value_may_end(s, pos + lit.len()),
        forall|i: int| 0 <= i < lit.len() ==> (#[trigger] lit[i]) != ' ' && lit[i] != ']' && lit[i]
            != '}',
    ensures
        word == lit,
{
    if lit.len() > word.len() {
        lemma_literal_char(s, pos, lit, word.len() as int);
    }
    if word.len() > lit.len() {
        lemma_literal_char(s, pos, word, lit.len() as int);
        assert(CharClass::Word.contains(word[lit.len() as int]));
    }
    assert(word =~= lit) by {
        assert forall|i: int| 0 <= i < lit.len() implies word[i] == lit[i] by {
            lemma_literal_char(s, pos, lit, i);
            lemma_literal_char(s, pos, word, i);
        }
    }
}

/// The text of values with a space in front of each begins with a space, if
/// there is any.
proof fn lemma_spaced_values_start(items: Seq<Value>)
    ensures
        items.len() == 0 ==> spaced_values_text(items).len() == 0,
        items.len() > 0 ==> spaced_values_text(items).len() > 0 && spaced_values_text(items)[0]
            == ' ',
{
}

/// The text of entries with a space in front of each begins with a space,
/// if there is any.
proof fn lemma_spaced_entries_start(entries: Seq<(String, Value)>)
    ensures
        entries.len() == 0 ==> spaced_entries_text(entries).len() == 0,
        entries.len() > 0 ==> spaced_entries_text(entries).len() > 0 && spaced_entries_text(
            entries,
        )[0] == ' ',
{
}

/// Values that stand behind `pos`, a space in front of each, and a closing
/// bracket behind the last, are all read.
#[verifier::rlimit(40)]
pub proof fn lemma_more_items_read_back(
    items: Seq<Value>,
    s: Seq<char>,
    pos: int,
    found: Seq<ValueView>,
)
    requires
        forall|i: int| 0 <= i < items.len() ==> decodable(#[trigger] items[i]),
        has_literal(s, pos, spaced_values_text(items)),
        pos + spaced_values_text(items).len() < s.len(),
        s[pos + spaced_values_text(items).len()] == ']',
    ensures
        more_items(s, pos, found) == (
            found + values_view(items),
            pos + spaced_values_text(items).len(),
        ),
    decreases items, 1int,
{
    if items.len() == 0 {
        assert(run_end(s, pos, CharClass::Space) == pos);
        assert(values_view(items) =~= Seq::empty());
        assert(found + Seq::<ValueView>::empty() =~= found);
    } else {
        let first = items[0];
        let rest = items.drop_first();
        let tail = spaced_values_text(rest);
        let text = spaced_values_text(items);
        assert(text == seq![' '] + value_text(first) + tail);
        assert(seq![' '] + value_text(first) + tail =~= seq![' '] + (value_text(first) + tail));
        lemma_literal_split(s, pos, seq![' '], value_text(first) + tail);
        lemma_literal_split(s, pos + 1, value_text(first), tail);
        lemma_literal_char(s, pos, seq![' '], 0);
        lemma_value_text_start(first);
        lemma_literal_char(s, pos + 1, value_text(first), 0);
        assert(run_end(s, pos, CharClass::Space) == pos + 1) by {
            lemma_run_end(s, pos, CharClass::Space, pos + 1);
        }
        let first_end = pos + 1 + value_text(first).len();
        lemma_spaced_values_start(rest);
        if rest.len() > 0 {
            lemma_literal_char(s, first_end, tail, 0);
        }
        lemma_value_reads_back(first, s, pos + 1);
        assert forall|i: int| 0 <= i < rest.len() implies decodable(#[trigger] rest[i]) by {
            assert(rest[i] == items[i + 1]);
        }
        lemma_more_items_read_back(rest, s, first_end, found.push(first@));
        lemma_values_view(items);
        lemma_values_view(rest);
        assert(found.push(first@) + values_view(rest) =~= found + values_view(items));
    }
}

/// An entry whose key and value the grammar can express, standing at `pos`
/// where a value may end behind it, is read back as it is.
pub proof fn lemma_entry_reads_back(entry: (String, Value), s: Seq<char>, pos: int)
    requires
        !entry.0@.contains('"'),
        decodable(entry.1),
        has_literal(s, pos, entry_text(entry)),
        value_may_end(s, pos + entry_text(entry).len()),
    ensures
        entry_at(s, pos) == Some(((entry.0@, entry.1@), pos + entry_text(entry).len())),
    decreases entry, 1int,
{
    let key = entry.0@;
    let quoted = seq!['"'] + key + seq!['"'];
    let text = entry_text(entry);
    assert(text =~= quoted + (seq![':'] + value_text(entry.1)));
    lemma_literal_split(s, pos, quoted, seq![':'] + value_text(entry.1));
    lemma_literal_split(s, pos + quoted.len(), seq![':'], value_text(entry.1));
    lemma_literal_char(s, pos + quoted.len(), seq![':'], 0);
    lemma_string_reads_back(key, s, pos);
    lemma_value_reads_back(entry.1, s, pos + 3 + key.len());
}

/// Entries that stand behind `pos`, a space in front of each, and a closing
/// brace behind the last, are all read.
#[verifier::rlimit(40)]
pub proof fn lemma_more_entries_read_back(
    entries: Seq<(String, Value)>,
    s: Seq<char>,
    pos: int,
    found: Map<Seq<char>, ValueView>,
)
    requires
        forall|i: int|
            0 <= i < entries.len() ==> !(#[trigger] entries[i]).0@.contains('"') && decodable(
                entries[i].1,
            ),
        has_literal(s, pos, spaced_entries_text(entries)),
        pos + spaced_entries_text(entries).len() < s.len(),
        s[pos + spaced_entries_text(entries).len()] == '}',
    ensures
        more_entries(s, pos, found) == (
            insert_all(found, entries),
            pos + spaced_entries_text(entries).len(),
        ),
    decreases entries, 2int,
{
    if entries.len() == 0 {
        assert(run_end(s, pos, CharClass::Space) == pos);
    } else {
        let first = entries[0];
        let rest = entries.drop_first();
        let tail = spaced_entries_text(rest);
        let text = spaced_entries_text(entries);
        assert(text =~= seq![' '] + (entry_text(first) + tail));
        lemma_literal_split(s, pos, seq![' '], entry_text(first) + tail);
        lemma_literal_split(s, pos + 1, entry_text(first), tail);
        lemma_literal_char(s, pos, seq![' '], 0);
        lemma_literal_char(s, pos + 1, entry_text(first), 0);
        assert(run_end(s, pos, CharClass::Space) == pos + 1) by {
            lemma_run_end(s, pos, CharClass::Space, pos + 1);
        }
        let first_end = pos + 1 + entry_text(first).len();
        lemma_spaced_entries_start(rest);
        if rest.len() > 0 {
            lemma_literal_char(s, first_end, tail, 0);
        }
        lemma_entry_reads_back(first, s, pos + 1);
        assert forall|i: int| 0 <= i < rest.len() implies !(#[trigger] rest[i]).0@.contains('"')
            && decodable(rest[i].1) by {
            assert(rest[i] == entries[i + 1]);
        }
        lemma_more_entries_read_back(rest, s, first_end, found.insert(first.0@, first.1@));
    }
}

/// Tokens are read whole, and sorted as wholes: a truth value, a number or a
/// constant that is read reaches to where a value may end, and a constant
/// that is read is neither `true` nor `false` nor a run of digits.
pub proof fn lemma_tokens_are_whole(s: Seq<char>, pos: int)
    requires
        0 <= pos <= s.len(),
    ensures
        match value_at(s, pos) {
            Some((ValueView::Boolean(_), end)) => value_may_end(s, end),
            Some((ValueView::Number(_), end)) => value_may_end(s, end),
            Some((ValueView::Constant(word), end)) => value_may_end(s, end) && is_constant_text(
                word,
            ) && word == s.subrange(pos, end),
            _ => true,
        },
{
    reveal_strlit("true");
    reveal_strlit("false");
    if let Some((ValueView::Constant(word), end)) = value_at(s, pos) {
        lemma_run_end_bounds(s, pos, CharClass::Word);
        assert(end == run_end(s, pos, CharClass::Word));
        assert(word == s.subrange(pos, end));
        assert(all_in(word, CharClass::Word));
        if word == "true"@ {
            assert(has_literal(s, pos, "true"@));
        }
        if word == "false"@ {
            assert(has_literal(s, pos, "false"@));
        }
        if all_in(word, CharClass::Digit) {
            assert forall|i: int| pos <= i < end implies CharClass::Digit.contains(
                #[trigger] s[i],
            ) by {
                assert(CharClass::Digit.contains(word[i - pos]));
            }
            lemma_run_end(s, pos, CharClass::Digit, end);
            assert(s[pos] == word[0]);
            if end < s.len() {
                lemma_run_end_bounds(s, end + 1, CharClass::Digit);
            }
            assert(number_at(s, pos) matches Some((_, stop)) && stop == end);
        }
    }
}

/// Round trip: the text of a value that the grammar can express reads back
/// as that value, all of it. Mappings count by their contents, not by the
/// order of their entries.
pub proof fn lemma_value_round_trip(v: Value)
    requires
        decodable(v),
    ensures
        value_at(value_text(v), 0) == Some((v@, value_text(v).len() as int)),
{
    let text = value_text(v);
    assert(text.subrange(0, text.len() as int) =~= text);
    lemma_value_reads_back(v, text, 0);
}

/// Round trip through a reply: `+OK "value":` with the text of a value
/// behind it reads back as the positive response with that value.
#[verifier::rlimit(40)]
pub proof fn lemma_reply_round_trip(v: Value)
    requires
        decodable(v),
    ensures
        response_at("+OK \"value\":"@ + value_text(v)) == Ok::<_, int>(
            (
                ResponseView::Success(OkResponseView::WithValue(v@)),
                ("+OK \"value\":"@.len() + value_text(v).len()) as int,
            ),
        ),
{
    reveal_strlit("+OK \"value\":");
    reveal_strlit("+OK");
    reveal_strlit("\"value\":");
    let head = "+OK \"value\":"@;
    let s = head + value_text(v);
    assert(s.subrange(0, 3) =~= "+OK"@);
    assert(s.subrange(4, 12) =~= "\"value\":"@);
    assert(s[3] == ' ');
    assert(s[4] == '"');
    assert(run_end(s, 3, CharClass::Space) == 4) by {
        lemma_run_end(s, 3, CharClass::Space, 4);
    }
    assert(s.subrange(12, 12 + value_text(v).len() as int) =~= value_text(v));
    lemma_value_reads_back(v, s, 12);
}

/// The line of a publish token: the label and the value behind their field
/// names.
pub open spec fn publish_text(label: Seq<char>, value: Value) -> Seq<char> {
    "! \"publishToken\":"@ + (seq!['"'] + label + seq!['"']) + " \"value\":"@ + value_text(value)
}

/// Where one text is followed by another, both stand in the whole.
pub proof fn lemma_literal_joined(a: Seq<char>, b: Seq<char>)
    ensures
        has_literal(a + b, 0, a),
        has_literal(a + b, a.len() as int, b),
{
    assert((a + b).subrange(0, a.len() as int) =~= a);
    assert((a + b).subrange(a.len() as int, (a.len() + b.len()) as int) =~= b);
}

/// Round trip through a publish token: its line reads back as the token, if
/// the label holds no double quote and the grammar can express the value.
#[verifier::rlimit(40)]
pub proof fn lemma_publish_round_trip(label: Seq<char>, value: Value)
    requires
        !label.contains('"'),
        decodable(value),
    ensures
        response_at(publish_text(label, value)) == Ok::<_, int>(
            (
                ResponseView::Event(PublishTokenView { label, value: value@ }),
                publish_text(label, value).len() as int,
            ),
        ),
{
    let head = "! \"publishToken\":"@;
    let quoted = seq!['"'] + label + seq!['"'];
    let field = " \"value\":"@;
    let name = "\"value\":"@;
    let text = value_text(value);
    let s = publish_text(label, value);
    let after: int = (head.len() + quoted.len()) as int;
    assert(s =~= head + (quoted + (field + text)));
    lemma_literal_joined(head, quoted + (field + text));
    lemma_literal_split(s, head.len() as int, quoted, field + text);
    lemma_literal_split(s, after, field, text);
    assert(head.len() == 17 && field.len() == 9 && name.len() == 8 && head[0] == '!' && field[0]
        == ' ' && field =~= seq![' '] + name && name[0] == '"') by {
        reveal_strlit("! \"publishToken\":");
        reveal_strlit(" \"value\":");
        reveal_strlit("\"value\":");
    }
    lemma_literal_char(s, 0, head, 0);
    assert(!has_literal(s, 0, "+OK"@)) by {
        reveal_strlit("+OK");
        if has_literal(s, 0, "+OK"@) {
            lemma_literal_char(s, 0, "+OK"@, 0);
        }
    }
    assert(!has_literal(s, 0, "-ERR"@)) by {
        reveal_strlit("-ERR");
        if has_literal(s, 0, "-ERR"@) {
            lemma_literal_char(s, 0, "-ERR"@, 0);
        }
    }
    assert(string_at(s, 17) == Some((label, after))) by {
        lemma_literal_split(s, 17, seq!['"'] + label, seq!['"']);
        lemma_literal_split(s, 17, seq!['"'], label);
        lemma_literal_char(s, 17, seq!['"'], 0);
        lemma_literal_char(s, 18 + label.len() as int, seq!['"'], 0);
        lemma_unquoted(label);
        lemma_literal_run(s, 18, label, CharClass::Unquoted);
    }
    lemma_literal_split(s, after, seq![' '], name);
    lemma_literal_char(s, after, seq![' '], 0);
    lemma_literal_char(s, after + 1, name, 0);
    assert(run_end(s, after, CharClass::Space) == after + 1) by {
        lemma_run_end(s, after, CharClass::Space, after + 1);
    }
    lemma_value_reads_back(value, s, after + 9);
}

/// Appending a value to a list appends a space and its text to the list's
/// spaced text.
proof fn lemma_spaced_values_push(items: Seq<Value>, last: Value)
    ensures
        spaced_values_text(items.push(last)) == spaced_values_text(items) + seq![' '] + value_text(
            last,
        ),
    decreases items.len(),
{
    let all = items.push(last);
    if items.len() == 0 {
        assert(all.drop_first() =~= Seq::<Value>::empty());
        assert(spaced_values_text(all.drop_first()) =~= Seq::<char>::empty());
        assert(spaced_values_text(items) =~= Seq::<char>::empty());
        assert(spaced_values_text(all) =~= seq![' '] + value_text(last));
        assert(spaced_values_text(items) + seq![' '] + value_text(last) =~= seq![' ']
            + value_text(last));
    } else {
        lemma_spaced_values_push(items.drop_first(), last);
        assert(all.drop_first() =~= items.drop_first().push(last));
        assert(spaced_values_text(all) =~= spaced_values_text(items) + seq![' '] + value_text(
            last,
        ));
    }
}

/// Appending a value to a list that is not empty appends a space and its
/// text to the list's text.
proof fn lemma_values_push(items: Seq<Value>, last: Value)
    ensures
        values_text(items.push(last)) == if items.len() == 0 {
            value_text(last)
        } else {
            values_text(items) + seq![' '] + value_text(last)
        },
{
    let all = items.push(last);
    if items.len() == 0 {
        assert(all.drop_first() =~= Seq::<Value>::empty());
        assert(values_text(all) =~= value_text(last));
    } else {
        lemma_spaced_values_push(items.drop_first(), last);
        assert(all.drop_first() =~= items.drop_first().push(last));
        assert(values_text(all) =~= values_text(items) + seq![' '] + value_text(last));
    }
}

/// Appending an entry to a list appends a space and its text to the list's
/// spaced text.
proof fn lemma_spaced_entries_push(entries: Seq<(String, Value)>, last: (String, Value))
    ensures
        spaced_entries_text(entries.push(last)) == spaced_entries_text(entries) + seq![' ']
            + entry_text(last),
    decreases entries.len(),
{
    let all = entries.push(last);
    if entries.len() == 0 {
        assert(all.drop_first() =~= Seq::<(String, Value)>::empty());
        assert(spaced_entries_text(all.drop_first()) =~= Seq::<char>::empty());
        assert(spaced_entries_text(entries) =~= Seq::<char>::empty());
        assert(spaced_entries_text(all) =~= seq![' '] + entry_text(last));
        assert(spaced_entries_text(entries) + seq![' '] + entry_text(last) =~= seq![' ']
            + entry_text(last));
    } else {
        lemma_spaced_entries_push(entries.drop_first(), last);
        assert(all.drop_first() =~= entries.drop_first().push(last));
        assert(spaced_entries_text(all) =~= spaced_entries_text(entries) + seq![' ']
            + entry_text(last));
    }
}

/// Appending an entry to a list that is not empty appends a space and its
/// text to the list's text.
proof fn lemma_entries_push(entries: Seq<(String, Value)>, last: (String, Value))
    ensures
        entries_text(entries.push(last)) == if entries.len() == 0 {
            entry_text(last)
        } else {
            entries_text(entries) + seq![' '] + entry_text(last)
        },
{
    let all = entries.push(last);
    if entries.len() == 0 {
        assert(all.drop_first() =~= Seq::<(String, Value)>::empty());
        assert(entries_text(all) =~= entry_text(last));
    } else {
        lemma_spaced_entries_push(entries.drop_first(), last);
        assert(all.drop_first() =~= entries.drop_first().push(last));
        assert(entries_text(all) =~= entries_text(entries) + seq![' '] + entry_text(last));
    }
}

/// Appends the text of `v` to `out`.
#[verifier::rlimit(40)]
pub fn write_value(v: &Value, out: &mut String)
    ensures
        final(out)@ == old(out)@ + value_text(*v),
    decreases v,
{
    proof {
        reveal_strlit("\"");
        reveal_strlit("{");
        reveal_strlit("}");
        reveal_strlit("[");
        reveal_strlit("]");
        reveal_strlit(" ");
        reveal_strlit("\":");
    }
    let ghost before = out@;
    match v {
        Value::Number(d) => {
            out.append(d.to_text().as_str());
        },
        Value::Boolean(b) => {
            if *b {
                out.append("true");
            } else {
                out.append("false");
            }
        },
        Value::String(text) => {
            out.append("\"");
            out.append(text.as_str());
            out.append("\"");
            assert(out@ =~= before + (seq!['"'] + text@ + seq!['"']));
        },
        Value::Constant(word) => {
            out.append(word.as_str());
        },
        Value::Array(items) => {
            out.append("[");
            let mut i: usize = 0;
            assert(items@.take(0) =~= Seq::<Value>::empty());
            while i < items.len()
                invariant
                    i <= items.len(),
                    " "@ == seq![' '],
                    *v == Value::Array(*items),
                    out@ == before + seq!['['] + values_text(items@.take(i as int)),
                decreases items.len() - i,
            {
                if i > 0 {
                    out.append(" ");
                }
                proof {
                    assert(v->Array_0 == *items);
                    assert(decreases_to!(*v => v->Array_0));
                    assert(decreases_to!(*items => items[i as int]));
                }
                write_value(&items[i], out);
                proof {
                    assert(items@.take(i + 1) =~= items@.take(i as int).push(items@[i as int]));
                    lemma_values_push(items@.take(i as int), items@[i as int]);
                    assert(out@ =~= before + seq!['['] + values_text(items@.take(i + 1)));
                }
                i += 1;
            }
            assert(items@.take(i as int) =~= items@);
            out.append("]");
            assert(out@ =~= before + (seq!['['] + values_text(items@) + seq![']']));
        },
        Value::Mapping(entries) => {
            out.append("{");
            let mut i: usize = 0;
            assert(entries@.take(0) =~= Seq::<(String, Value)>::empty());
            while i < entries.len()
                invariant
                    i <= entries.len(),
                    " "@ == seq![' '],
                    "\""@ == seq!['"'],
                    "\":"@ == seq!['"', ':'],
                    *v == Value::Mapping(*entries),
                    out@ == before + seq!['{'] + entries_text(entries@.take(i as int)),
                decreases entries.len() - i,
            {
                if i > 0 {
                    out.append(" ");
                }
                let ghost start = out@;
                out.append("\"");
                out.append(entries[i].0.as_str());
                out.append("\":");
                proof {
                    assert(v->Mapping_0 == *entries);
                    assert(decreases_to!(*v => v->Mapping_0));
                    assert(decreases_to!(*entries => entries[i as int]));
                    assert(decreases_to!(entries[i as int] => entries[i as int].1));
                }
                write_value(&entries[i].1, out);
                proof {
                    let entry = entries@[i as int];
                    assert(out@ =~= start + entry_text(entry));
                    assert(entries@.take(i + 1) =~= entries@.take(i as int).push(entry));
                    lemma_entries_push(entries@.take(i as int), entry);
                    assert(out@ =~= before + seq!['{'] + entries_text(entries@.take(i + 1)));
                }
                i += 1;
            }
            assert(entries@.take(i as int) =~= entries@);
            out.append("}");
            assert(out@ =~= before + (seq!['{'] + entries_text(entries@) + seq!['}']));
        },
    }
}

impl IntoTTP for Value {
    open spec fn ttp(&self) -> Seq<char> {
        value_text(*self)
    }

    fn into_ttp(self) -> (token: String) {
        let mut out = String::new();
        write_value(&self, &mut out);
        assert(out@ =~= value_text(self));
        out
    }
}

} // verus!
