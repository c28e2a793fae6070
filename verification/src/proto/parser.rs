//! Readers for Tesira Text Protocol responses and values. Each reader does
//! what the grammar of the same name says.

use crate::decimal::{number_at, Decimal};
use crate::proto::grammar::{
    array_at, entries_from, entry_at, err_tail, items_from, mapping_at, more_entries, more_items,
    ok_tail, publish_tail, response_at, string_at, value_at, value_may_end,
};
use crate::proto::{
    entries_view, error_view, values_view, ErrResponse, Error, OkResponse, PublishToken,
    PublishTokenView, Response, ResponseView, Value, ValueView,
};
use crate::text::{has_literal, CharClass, Text};
use vstd::prelude::*;

verus! {

/// Reads the number at the beginning of `input` and hands back what follows
/// it. `None` where `input` does not begin with a number.
pub fn float_str(input: &str) -> (found: Option<(&str, Decimal)>)
    ensures
        match found {
            Some((rest, number)) => number_at(input@, 0) matches Some((view, end)) && view
                == number@ && rest@ == input@.subrange(end, input@.len() as int),
            None => number_at(input@, 0) is None,
        },
{
    let src = Text::new(input);
    match Decimal::read(&src, 0) {
        Some((number, end)) => Some((src.slice(end, src.len()), number)),
        None => None,
    }
}

/// Reads the quoted string at `pos`.
pub fn delimited_str(src: &Text, pos: usize) -> (found: Option<(String, usize)>)
    requires
        pos <= src@.len(),
    ensures
        match found {
            Some((text, end)) => string_at(src@, pos as int) == Some((text@, end as int)) && pos
                + 2 <= end <= src@.len(),
            None => string_at(src@, pos as int) is None,
        },
{
    if pos >= src.len() || src.at(pos) != '"' {
        return None;
    }
    let close = src.run(pos + 1, CharClass::Unquoted);
    if close < src.len() {
        Some((src.owned(pos + 1, close), close + 1))
    } else {
        None
    }
}

/// Reads the value at `pos`.
pub fn ttp_value(src: &Text, pos: usize) -> (found: Option<(Value, usize)>)
    requires
        pos <= src@.len(),
    ensures
        match found {
            Some((value, end)) => value_at(src@, pos as int) == Some((value@, end as int)) && pos
                < end <= src@.len(),
            None => value_at(src@, pos as int) is None,
        },
    decreases src@.len() - pos, 2int,
{
    if pos >= src.len() {
        return None;
    }
    if let Some((entries, end)) = ttp_mapping(src, pos) {
        return Some((Value::Mapping(entries), end));
    }
    if let Some((items, end)) = ttp_list_of_values(src, pos) {
        return Some((Value::Array(items), end));
    }
    if let Some((text, end)) = delimited_str(src, pos) {
        return Some((Value::String(text), end));
    }
    let word_end = src.run(pos, CharClass::Word);
    proof {
        reveal_strlit("true");
        reveal_strlit("false");
    }
    if src.literal_at(pos, "true") && may_end(src, pos + 4) {
        return Some((Value::Boolean(true), pos + 4));
    }
    if src.literal_at(pos, "false") && may_end(src, pos + 5) {
        return Some((Value::Boolean(false), pos + 5));
    }
    if let Some((number, end)) = Decimal::read(src, pos) {
        if may_end(src, end) {
            return Some((Value::Number(number), end));
        }
    }
    if word_end > pos && may_end(src, word_end) {
        Some((Value::Constant(src.owned(pos, word_end)), word_end))
    } else {
        None
    }
}

/// Tests whether a value may end at `at`: the text ends there, or a space
/// or a closing bracket or brace follows.
pub fn may_end(src: &Text, at: usize) -> (ends: bool)
    requires
        at <= src@.len(),
    ensures
        ends == value_may_end(src@, at as int),
{
    at == src.len() || src.at(at) == ' ' || src.at(at) == ']' || src.at(at) == '}'
}

/// Reads the array at `pos`.
#[verifier::rlimit(40)]
pub fn ttp_list_of_values(src: &Text, pos: usize) -> (found: Option<(Vec<Value>, usize)>)
    requires
        pos <= src@.len(),
    ensures
        match found {
            Some((items, end)) => array_at(src@, pos as int) == Some(
                (values_view(items@), end as int),
            ) && pos < end <= src@.len(),
            None => array_at(src@, pos as int) is None,
        },
    decreases src@.len() - pos, 1int,
{
    let n = src.len();
    if pos >= n || src.at(pos) != '[' {
        return None;
    }
    let ghost s = src@;
    let mut items: Vec<Value> = Vec::new();
    let mut at = pos + 1;
    let mut more = false;
    if let Some((item, end)) = ttp_value(src, at) {
        items.push(item);
        at = end;
        more = true;
        assert(values_view(items@) == seq![item@]) by {
            assert(items@.drop_last() =~= Seq::<Value>::empty());
            assert(values_view(items@.drop_last()) == Seq::<ValueView>::empty());
            assert(Seq::<ValueView>::empty().push(item@) =~= seq![item@]);
        }
    }
    while more
        invariant
            s == src@,
            n == s.len(),
            pos < at <= n,
            more ==> items_from(s, pos + 1) == more_items(s, at as int, values_view(items@)),
            !more ==> items_from(s, pos + 1) == (values_view(items@), at as int),
        decreases n - at + if more { 1int } else { 0int },
    {
        let next = src.run(at, CharClass::Space);
        more = false;
        if next > at {
            if let Some((item, end)) = ttp_value(src, next) {
                let ghost before = items@;
                items.push(item);
                at = end;
                more = true;
                assert(values_view(items@) == values_view(before).push(item@)) by {
                    assert(items@.drop_last() =~= before);
                }
            }
        }
    }
    if at < n && src.at(at) == ']' {
        Some((items, at + 1))
    } else {
        None
    }
}

/// Reads the entry at `pos`: a quoted key, a colon and a value.
pub fn ttp_entry(src: &Text, pos: usize) -> (found: Option<((String, Value), usize)>)
    requires
        pos <= src@.len(),
    ensures
        match found {
            Some((entry, end)) => entry_at(src@, pos as int) == Some(
                ((entry.0@, entry.1@), end as int),
            ) && pos < end <= src@.len(),
            None => entry_at(src@, pos as int) is None,
        },
    decreases src@.len() - pos, 0int,
{
    match delimited_str(src, pos) {
        Some((key, colon)) => {
            if colon < src.len() && src.at(colon) == ':' {
                match ttp_value(src, colon + 1) {
                    Some((value, end)) => Some(((key, value), end)),
                    None => None,
                }
            } else {
                None
            }
        },
        None => None,
    }
}

/// Reads the mapping at `pos`. The entries come back in the order written.
#[verifier::rlimit(40)]
pub fn ttp_mapping(src: &Text, pos: usize) -> (found: Option<(Vec<(String, Value)>, usize)>)
    requires
        pos <= src@.len(),
    ensures
        match found {
            Some((entries, end)) => mapping_at(src@, pos as int) == Some(
                (entries_view(entries@), end as int),
            ) && pos < end <= src@.len(),
            None => mapping_at(src@, pos as int) is None,
        },
    decreases src@.len() - pos, 1int,
{
    let n = src.len();
    if pos >= n || src.at(pos) != '{' {
        return None;
    }
    let ghost s = src@;
    let mut entries: Vec<(String, Value)> = Vec::new();
    let mut at = pos + 1;
    let mut more = false;
    if let Some((entry, end)) = ttp_entry(src, at) {
        let ghost key = entry.0@;
        let ghost value = entry.1@;
        entries.push(entry);
        at = end;
        more = true;
        assert(entries_view(entries@) == Map::<Seq<char>, ValueView>::empty().insert(
            key,
            value,
        )) by {
            assert(entries@.drop_last() =~= Seq::<(String, Value)>::empty());
            assert(entries_view(entries@.drop_last()) == Map::<
                Seq<char>,
                ValueView,
            >::empty());
        }
    }
    while more
        invariant
            s == src@,
            n == s.len(),
            pos < at <= n,
            more ==> entries_from(s, pos + 1) == more_entries(s, at as int, entries_view(entries@)),
            !more ==> entries_from(s, pos + 1) == (entries_view(entries@), at as int),
        decreases n - at + if more { 1int } else { 0int },
    {
        let next = src.run(at, CharClass::Space);
        more = false;
        if next > at {
            if let Some((entry, end)) = ttp_entry(src, next) {
                let ghost before = entries@;
                let ghost key = entry.0@;
                let ghost value = entry.1@;
                entries.push(entry);
                at = end;
                more = true;
                assert(entries_view(entries@) == entries_view(before).insert(key, value)) by {
                    assert(entries@.drop_last() =~= before);
                }
            }
        }
    }
    if at < n && src.at(at) == '}' {
        Some((entries, at + 1))
    } else {
        None
    }
}

/// Reads a positive response: `+OK`, alone or with a value or a list.
pub fn ok_response(src: &Text) -> (found: Option<(OkResponse, usize)>)
    ensures
        match found {
            Some((ok, end)) => has_literal(src@, 0, "+OK"@) && ok_tail(
                src@,
                "+OK"@.len() as int,
            ) == (ok@, end as int) && end <= src@.len(),
            None => !has_literal(src@, 0, "+OK"@),
        },
{
    if !src.literal_at(0, "+OK") {
        return None;
    }
    proof {
        reveal_strlit("+OK");
        reveal_strlit("\"value\":");
        reveal_strlit("\"list\":");
    }
    assert("+OK"@.len() == 3 && "\"value\":"@.len() == 8 && "\"list\":"@.len() == 7);
    let n = src.len();
    let field = src.run(3, CharClass::Space);
    if field > 3 {
        if src.literal_at(field, "\"value\":") {
            if let Some((value, end)) = ttp_value(src, field + 8) {
                return Some((OkResponse::WithValue(value), end));
            }
        }
        if src.literal_at(field, "\"list\":") {
            if let Some((items, end)) = ttp_list_of_values(src, field + 7) {
                return Some((OkResponse::WithList(items), end));
            }
        }
    }
    Some((OkResponse::Bare, 3))
}

/// Reads a failure: `-ERR`, and behind spaces the message up to the end of
/// the line.
pub fn err_response(src: &Text) -> (found: Option<(ErrResponse, usize)>)
    ensures
        match found {
            Some((err, end)) => has_literal(src@, 0, "-ERR"@) && err_tail(
                src@,
                "-ERR"@.len() as int,
            ) == (err@, end as int) && end <= src@.len(),
            None => !has_literal(src@, 0, "-ERR"@),
        },
{
    if !src.literal_at(0, "-ERR") {
        return None;
    }
    proof {
        reveal_strlit("-ERR");
    }
    let start = src.run(4, CharClass::Space);
    if start > 4 {
        let end = src.run(start, CharClass::LineBody);
        Some((ErrResponse { message: src.owned(start, end) }, end))
    } else {
        let message = String::new();
        Some((ErrResponse { message }, 4))
    }
}

/// Reads a value update: `! "publishToken":`, the label, and the value
/// behind `"value":`. The error is the position where reading stopped.
#[verifier::rlimit(40)]
pub fn publish_token_response(src: &Text) -> (found: Result<(PublishToken, usize), usize>)
    ensures
        match found {
            Ok((token, end)) => has_literal(src@, 0, "! \"publishToken\":"@)
                && publish_tail(src@, "! \"publishToken\":"@.len() as int) == Ok::<_, int>(
                (token@, end as int),
            ) && end <= src@.len(),
            Err(at) => at <= src@.len() && if has_literal(
                src@,
                0,
                "! \"publishToken\":"@,
            ) {
                publish_tail(src@, "! \"publishToken\":"@.len() as int) == Err::<
                    (PublishTokenView, int),
                    _,
                >(at as int)
            } else {
                at == 0
            },
        },
{
    if !src.literal_at(0, "! \"publishToken\":") {
        return Err(0);
    }
    proof {
        reveal_strlit("! \"publishToken\":");
        reveal_strlit("\"value\":");
    }
    let n = src.len();
    let pos: usize = 17;
    match delimited_str(src, pos) {
        None => {
            if pos < n && src.at(pos) == '"' {
                Err(pos + 1)
            } else {
                Err(pos)
            }
        },
        Some((label, after)) => {
            let field = src.run(after, CharClass::Space);
            if field == after {
                Err(after)
            } else if !src.literal_at(field, "\"value\":") {
                Err(field)
            } else {
                match ttp_value(src, field + 8) {
                    None => Err(field + 8),
                    Some((value, end)) => Ok((PublishToken { label, value }, end)),
                }
            }
        },
    }
}

/// Reads the response at the beginning of `src`. The error is the position
/// where reading stopped.
pub fn response(src: &Text) -> (found: Result<(Response, usize), usize>)
    ensures
        match found {
            Ok((response, end)) => response_at(src@) == Ok::<_, int>((response@, end as int))
                && end <= src@.len(),
            Err(at) => response_at(src@) == Err::<(ResponseView, int), _>(at as int)
                && at <= src@.len(),
        },
{
    if let Some((ok, end)) = ok_response(src) {
        return Ok((Response::Success(ok), end));
    }
    if let Some((err, end)) = err_response(src) {
        return Ok((Response::Failure(err), end));
    }
    match publish_token_response(src) {
        Ok((token, end)) => Ok((Response::PublishToken(token), end)),
        Err(at) => Err(at),
    }
}

/// Turns the position where reading stopped into an error: what is left of
/// the text there, or the news that nothing is.
pub fn error_at<'a>(src: &Text<'a>, at: usize) -> (error: Error<'a>)
    requires
        at <= src@.len(),
    ensures
        error@ == error_view(src@, at as int),
{
    if at < src.len() {
        Error::ParseError(src.slice(at, src.len()))
    } else {
        Error::UnexpectedEnd
    }
}

/// Reads the response at the beginning of `input` and hands back what
/// follows it.
///
/// Fails where `input` does not begin with a response. The error then holds
/// what is left of `input` at the point where reading stopped, or says that
/// the input ended there.
pub fn parse_response<'a>(input: &'a str) -> (found: Result<(&'a str, Response), Error<'a>>)
    ensures
        match found {
            Ok((rest, response)) => response_at(input@) matches Ok((view, end)) && view
                == response@ && 0 <= end <= input@.len() && rest@ == input@.subrange(
                end,
                input@.len() as int,
            ),
            Err(error) => response_at(input@) matches Err(at) && error@ == error_view(
                input@,
                at,
            ),
        },
{
    let src = Text::new(input);
    match response(&src) {
        Ok((response, end)) => Ok((src.slice(end, src.len()), response)),
        Err(at) => Err(error_at(&src, at)),
    }
}

} // verus!
