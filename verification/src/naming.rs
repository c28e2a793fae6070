//! The names of the typed surface: how the name of an attribute or of a
//! family of blocks in the catalog becomes the name of a method.
//!
//! A name is trimmed, its white space becomes underscores, what is neither
//! letter, digit nor underscore is dropped, and what is left is put in lower
//! case. `get` goes by the bare name of the attribute; `set`, `subscribe` and
//! `unsubscribe` are put in front of it; a subscription with a rate has
//! `_with_rate` behind it.

use crate::catalog::{AttributeSpec, Block, Verb};
use crate::text::{is_white_space, run_end, same_text, CharClass, Text};
use vstd::prelude::*;
use vstd::string::StringExecFns;

verus! {

/// The lower case of `c` according to the Unicode tables that
/// `char::to_lowercase` consults: one character or several.
pub uninterp spec fn unicode_lowercase(c: char) -> Seq<char>;

/// Calls `char::to_lowercase` and collects the characters it yields. They
/// come from Unicode case tables that are too large to restate, so the
/// contract only gives them a name.
#[verifier::external_body]
fn to_lowercase(c: char) -> (lower: String)
    ensures
        lower@ == unicode_lowercase(c),
{
    c.to_lowercase().collect()
}

/// The lower case of an ASCII character: capital letters become small, all
/// else stays.
pub open spec fn ascii_lowercase(c: char) -> char {
    if 'A' <= c <= 'Z' {
        ((c as u8) + 32) as u8 as char
    } else {
        c
    }
}

/// The lower case of `c`. On the ASCII range this is spelled out; beyond it
/// the Unicode tables decide.
pub open spec fn lowercase_of(c: char) -> Seq<char> {
    if (c as u32) < 128 {
        seq![ascii_lowercase(c)]
    } else {
        unicode_lowercase(c)
    }
}

/// What a character of a catalog name gives to the name of a method: white
/// space gives an underscore, a letter, a digit or an underscore its lower
/// case, anything else nothing.
pub open spec fn name_part(c: char) -> Seq<char> {
    if is_white_space(c) {
        seq!['_']
    } else if CharClass::Name.contains(c) {
        lowercase_of(c)
    } else {
        Seq::empty()
    }
}

/// What the characters of `s` give, one after the other.
pub open spec fn name_parts(s: Seq<char>) -> Seq<char>
    decreases s.len(),
{
    if s.len() == 0 {
        Seq::empty()
    } else {
        name_parts(s.drop_last()) + name_part(s.last())
    }
}

/// Where the white space at the end of `s` begins.
pub open spec fn blank_tail(s: Seq<char>) -> int
    decreases s.len(),
{
    if s.len() > 0 && is_white_space(s.last()) {
        blank_tail(s.drop_last())
    } else {
        s.len() as int
    }
}

/// `s` without the white space at its ends.
pub open spec fn trimmed(s: Seq<char>) -> Seq<char> {
    let start = run_end(s, 0, CharClass::Blank);
    let end = blank_tail(s);
    if start < end {
        s.subrange(start, end)
    } else {
        Seq::empty()
    }
}

/// The stem of the names that the surface derives from a catalog name.
pub open spec fn stem_of(name: Seq<char>) -> Seq<char> {
    name_parts(trimmed(name))
}

/// The name of the method for `verb` on the attribute `attribute`, with a
/// rate or without. `None` where the surface has no such method: only a
/// subscription takes a rate, and verbs other than `get`, `set`, `subscribe`
/// and `unsubscribe` are reserved.
pub open spec fn surface_name(verb: Verb, attribute: Seq<char>, with_rate: bool) -> Option<
    Seq<char>,
> {
    match verb {
        Verb::Get => if with_rate {
            None
        } else {
            Some(stem_of(attribute))
        },
        Verb::Assign => if with_rate {
            None
        } else {
            Some("set_"@ + stem_of(attribute))
        },
        Verb::Subscribe => if with_rate {
            Some("subscribe_"@ + stem_of(attribute) + "_with_rate"@)
        } else {
            Some("subscribe_"@ + stem_of(attribute))
        },
        Verb::Unsubscribe => if with_rate {
            None
        } else {
            Some("unsubscribe_"@ + stem_of(attribute))
        },
        _ => None,
    }
}

/// The name under which the builder of a family of blocks is reached: the
/// two families of services have a name each, any other goes by its stem.
pub open spec fn accessor_of(family: Seq<char>) -> Seq<char> {
    if family == "Session Services"@ {
        "session"@
    } else if family == "Device Services"@ {
        "device"@
    } else {
        stem_of(family)
    }
}

/// The small letter for a capital one, as a text.
fn small_letter(c: char) -> (text: &'static str)
    requires
        'A' <= c <= 'Z',
    ensures
        text@ == seq![ascii_lowercase(c)],
{
    let alphabet = "abcdefghijklmnopqrstuvwxyz";
    proof {
        reveal_strlit("abcdefghijklmnopqrstuvwxyz");
    }
    let k = (c as u8 - 65) as usize;
    let text = alphabet.substring_char(k, k + 1);
    assert(text@ =~= seq![ascii_lowercase(c)]);
    text
}

/// Finds where the white space at the end of `src` begins.
fn blank_tail_start(src: &Text) -> (start: usize)
    ensures
        start == blank_tail(src@),
        start <= src@.len(),
{
    let mut start = src.len();
    assert(src@.subrange(0, start as int) =~= src@);
    while start > 0 && CharClass::Blank.has(src.at(start - 1))
        invariant
            start <= src@.len(),
            blank_tail(src@) == blank_tail(src@.subrange(0, start as int)),
        decreases start,
    {
        proof {
            let upto = src@.subrange(0, start as int);
            assert(upto.drop_last() =~= src@.subrange(0, start - 1));
        }
        start -= 1;
    }
    start
}

/// Derives the stem of the names of the surface from a catalog name.
#[verifier::rlimit(40)]
pub fn stem(name: &str) -> (out: String)
    ensures
        out@ == stem_of(name@),
{
    let src = Text::new(name);
    let start = src.run(0, CharClass::Blank);
    let end = blank_tail_start(&src);
    let mut out = String::new();
    if start >= end {
        return out;
    }
    let ghost kept = src@.subrange(start as int, end as int);
    let mut i = start;
    proof {
        reveal_strlit("_");
        assert(kept.subrange(0, 0) =~= Seq::<char>::empty());
    }
    while i < end
        invariant
            start <= i <= end <= src@.len(),
            "_"@ == seq!['_'],
            kept == src@.subrange(start as int, end as int),
            out@ == name_parts(kept.subrange(0, i - start)),
        decreases end - i,
    {
        let c = src.at(i);
        proof {
            let upto = kept.subrange(0, i + 1 - start);
            assert(upto.drop_last() =~= kept.subrange(0, i - start));
            assert(upto.last() == c);
        }
        if CharClass::Blank.has(c) {
            out.append("_");
        } else if CharClass::Name.has(c) {
            if (c as u32) >= 128 {
                out.append(to_lowercase(c).as_str());
            } else if 'A' <= c && c <= 'Z' {
                out.append(small_letter(c));
            } else {
                out.append(src.slice(i, i + 1));
                assert(src@.subrange(i as int, i + 1) =~= seq![c]);
            }
        } else {
            assert(out@ + Seq::<char>::empty() =~= out@);
        }
        i += 1;
    }
    assert(kept.subrange(0, end - start) =~= kept);
    out
}

/// Derives the name of the method for `verb` on the attribute `attribute`,
/// with a rate or without; `None` where the surface has no such method.
pub fn method_name(verb: Verb, attribute: &str, with_rate: bool) -> (name: Option<String>)
    ensures
        match name {
            Some(text) => surface_name(verb, attribute@, with_rate) == Some(text@),
            None => surface_name(verb, attribute@, with_rate) is None,
        },
{
    let prefix = match verb {
        Verb::Get => "",
        Verb::Assign => "set_",
        Verb::Subscribe => "subscribe_",
        Verb::Unsubscribe => "unsubscribe_",
        _ => {
            return None;
        },
    };
    if with_rate && verb != Verb::Subscribe {
        return None;
    }
    proof {
        reveal_strlit("");
    }
    let mut name = prefix.to_owned();
    name.append(stem(attribute).as_str());
    if with_rate {
        name.append("_with_rate");
    }
    assert(verb == Verb::Get ==> name@ =~= stem_of(attribute@));
    Some(name)
}

/// Derives the name under which the builder of a family of blocks is
/// reached.
pub fn accessor_name(family: &str) -> (name: String)
    ensures
        name@ == accessor_of(family@),
{
    if same_text(family, "Session Services") {
        "session".to_owned()
    } else if same_text(family, "Device Services") {
        "device".to_owned()
    } else {
        stem(family)
    }
}

/// Whether the surface has a method for `verb` on `attribute`, with a rate
/// or without, that goes by the name `method`: the attribute must declare
/// the verb, and hold a kind of value that the surface offers if it is to be
/// set.
pub open spec fn is_method(
    attribute: AttributeSpec,
    verb: Verb,
    with_rate: bool,
    method: Seq<char>,
) -> bool {
    &&& attribute.commands@.contains(verb)
    &&& verb == Verb::Assign ==> attribute.value.offered()
    &&& surface_name(verb, attribute.name@, with_rate) == Some(method)
}

/// The method of `attribute` that goes by the name `method`: its verb, and
/// whether it takes a rate.
pub open spec fn method_of(attribute: AttributeSpec, method: Seq<char>) -> Option<(Verb, bool)> {
    if is_method(attribute, Verb::Get, false, method) {
        Some((Verb::Get, false))
    } else if is_method(attribute, Verb::Assign, false, method) {
        Some((Verb::Assign, false))
    } else if is_method(attribute, Verb::Subscribe, false, method) {
        Some((Verb::Subscribe, false))
    } else if is_method(attribute, Verb::Subscribe, true, method) {
        Some((Verb::Subscribe, true))
    } else if is_method(attribute, Verb::Unsubscribe, false, method) {
        Some((Verb::Unsubscribe, false))
    } else {
        None
    }
}

/// A method of the surface: the attribute it is about, by its place in the
/// family, its verb, and whether it takes a rate.
#[derive(Debug, Clone, Copy, PartialEq, Eq)]
pub struct Method {
    /// The place of the attribute among those of its family.
    pub attribute: usize,
    /// What the method asks for.
    pub verb: Verb,
    /// Whether the method takes a rate.
    pub with_rate: bool,
}

/// Tests whether `attribute` has the method for `verb` under the name
/// `method`.
fn has_method(attribute: &AttributeSpec, verb: Verb, with_rate: bool, method: &str) -> (has: bool)
    ensures
        has == is_method(*attribute, verb, with_rate, method@),
{
    if !attribute.takes(verb) {
        return false;
    }
    if verb == Verb::Assign && !attribute.value.is_offered() {
        return false;
    }
    match method_name(verb, attribute.name.as_str(), with_rate) {
        Some(name) => same_text(name.as_str(), method),
        None => false,
    }
}

/// Finds the method of `attribute` that goes by the name `method`.
pub fn find_method(attribute: &AttributeSpec, method: &str) -> (found: Option<(Verb, bool)>)
    ensures
        found == method_of(*attribute, method@),
{
    if has_method(attribute, Verb::Get, false, method) {
        Some((Verb::Get, false))
    } else if has_method(attribute, Verb::Assign, false, method) {
        Some((Verb::Assign, false))
    } else if has_method(attribute, Verb::Subscribe, false, method) {
        Some((Verb::Subscribe, false))
    } else if has_method(attribute, Verb::Subscribe, true, method) {
        Some((Verb::Subscribe, true))
    } else if has_method(attribute, Verb::Unsubscribe, false, method) {
        Some((Verb::Unsubscribe, false))
    } else {
        None
    }
}

impl Block {
    /// Finds the method of the family that goes by the name `method`: that
    /// of the first attribute that has one of that name.
    pub fn method(&self, method: &str) -> (found: Option<Method>)
        ensures
            match found {
                Some(m) => m.attribute < self.attributes.len() && method_of(
                    self.attributes[m.attribute as int],
                    method@,
                ) == Some((m.verb, m.with_rate)) && forall|k: int|
                    0 <= k < m.attribute ==> method_of(#[trigger] self.attributes[k], method@)
                        is None,
                None => forall|k: int|
                    0 <= k < self.attributes.len() ==> method_of(
                        #[trigger] self.attributes[k],
                        method@,
                    ) is None,
            },
    {
        let mut i: usize = 0;
        while i < self.attributes.len()
            invariant
                i <= self.attributes.len(),
                forall|k: int|
                    0 <= k < i ==> method_of(#[trigger] self.attributes[k], method@) is None,
            decreases self.attributes.len() - i,
        {
            if let Some((verb, with_rate)) = find_method(&self.attributes[i], method) {
                return Some(Method { attribute: i, verb, with_rate });
            }
            i += 1;
        }
        None
    }
}

} // verus!
