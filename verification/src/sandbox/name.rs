//! Names of sandboxes and shares.
//!
//! A name becomes a directory name, a socket name, a host name and part of a kernel command
//! line, so it is kept to characters that mean nothing special in any of them.
use std::str::FromStr;

use rand::distr::SampleString;
use vstd::prelude::*;
use vstd::string::*;

use crate::text;

verus! {

/// The longest name, in bytes.
pub const MAX_LENGTH: usize = 36;

/// How long a name is that was made up.
pub const RANDOM_LENGTH: usize = 16;

/// A valid name.
#[derive(Debug, PartialEq, Eq, Hash, PartialOrd, Ord)]
pub struct Name(String);

/// Whether a character is an ASCII letter or digit.
pub open spec fn is_alphanumeric(character: char) -> bool {
    ||| 'A' <= character <= 'Z'
    ||| 'a' <= character <= 'z'
    ||| '0' <= character <= '9'
}

/// Whether a character may stand in a name.
pub open spec fn is_name_character(character: char) -> bool {
    is_alphanumeric(character) || character == '-' || character == '_'
}

/// Whether a text is a name.
pub open spec fn is_name(text: Seq<char>) -> bool {
    &&& 0 < text.len() <= MAX_LENGTH
    &&& text[0] != '-'
    &&& forall|i: int| 0 <= i < text.len() ==> is_name_character(#[trigger] text[i])
}

/// Whether a text is a name as it is made up: so many letters and digits.
pub open spec fn is_made_up(text: Seq<char>) -> bool {
    &&& text.len() == RANDOM_LENGTH
    &&& forall|i: int| 0 <= i < text.len() ==> is_alphanumeric(#[trigger] text[i])
}

/// The first character that may not stand in a name.
pub open spec fn first_stranger(text: Seq<char>) -> Option<char>
    decreases text.len(),
{
    if text.len() == 0 {
        None
    } else if is_name_character(text[0]) {
        first_stranger(text.drop_first())
    } else {
        Some(text[0])
    }
}

/// What is wrong with a text that is no name.
pub open spec fn name_error(text: Seq<char>) -> Option<Seq<char>> {
    if text.len() == 0 {
        Some("name must not be empty"@)
    } else if vstd::utf8::encode_utf8(text).len() > MAX_LENGTH {
        Some("name must not be longer than 36 characters"@)
    } else if text[0] == '-' {
        Some("name must not start with `-`"@)
    } else {
        match first_stranger(text) {
            Some(character) => Some(
                "name contains the invalid character `"@ + seq![character]
                    + "`, only `A-Z`, `a-z`, `0-9`, `-` and `_` are allowed"@,
            ),
            None => None,
        }
    }
}

/// A text without the dashes at its start.
pub open spec fn without_leading_dashes(text: Seq<char>) -> Seq<char>
    decreases text.len(),
{
    if text.len() > 0 && text[0] == '-' {
        without_leading_dashes(text.drop_first())
    } else {
        text
    }
}

/// A text without the dashes at its end.
pub open spec fn without_trailing_dashes(text: Seq<char>) -> Seq<char>
    decreases text.len(),
{
    if text.len() > 0 && text.last() == '-' {
        without_trailing_dashes(text.drop_last())
    } else {
        text
    }
}

/// What is left of a text as a name: each stranger becomes a dash, what is too much is cut
/// off, and then the dashes at both ends.
pub open spec fn sanitized(text: Seq<char>) -> Seq<char> {
    let dashed = text.map_values(|c: char| if is_name_character(c) { c } else { '-' });
    let cut = if dashed.len() > MAX_LENGTH { dashed.take(MAX_LENGTH as int) } else { dashed };
    without_trailing_dashes(without_leading_dashes(cut))
}

impl View for Name {
    type V = Seq<char>;

    closed spec fn view(&self) -> Seq<char> {
        self.0@
    }
}

impl Clone for Name {
    fn clone(&self) -> (name: Self)
        ensures
            name@ == self@,
    {
        proof {
            use_type_invariant(self);
        }
        Name(self.0.clone())
    }
}

/// `Alphanumeric.sample_string` of the `rand` crate makes up a text of the given length from
/// ASCII letters and digits.
#[verifier::external_body]
fn random_text(length: usize) -> (text: String)
    requires
        length <= isize::MAX,
    ensures
        text@.len() == length,
        forall|i: int| 0 <= i < length ==> is_alphanumeric(#[trigger] text@[i]),
{
    rand::distr::Alphanumeric.sample_string(&mut rand::rng(), length)
}

impl Name {
    #[verifier::type_invariant]
    closed spec fn holds_a_name(&self) -> bool {
        is_name(self@)
    }

    /// Takes a text as a name if it is one.
    pub fn new(value: &str) -> (result: Result<Self, String>)
        ensures
            match result {
                Ok(name) => name@ == value@ && is_name(value@),
                Err(message) => name_error(value@) == Some(message@),
            },
            result is Ok <==> name_error(value@) is None,
    {
        if value.is_empty() {
            return Err("name must not be empty".to_owned());
        }
        if value.as_bytes().len() > MAX_LENGTH {
            return Err("name must not be longer than 36 characters".to_owned());
        }
        let characters: Vec<char> = text::characters(value);
        if characters[0] == '-' {
            return Err("name must not start with `-`".to_owned());
        }
        assert(value@.skip(0) =~= value@);
        for i in 0..characters.len()
            invariant
                characters@ == value@,
                value@.len() > 0,
                vstd::utf8::encode_utf8(value@).len() <= MAX_LENGTH,
                value@[0] != '-',
                first_stranger(value@) == first_stranger(value@.skip(i as int)),
                forall|k: int| 0 <= k < i ==> is_name_character(#[trigger] value@[k]),
        {
            assert(value@.skip(i as int).drop_first() =~= value@.skip(i + 1));
            if !Name::is_allowed(characters[i]) {
                let mut message: String = "name contains the invalid character `".to_owned();
                message.push(characters[i]);
                message.append("`, only `A-Z`, `a-z`, `0-9`, `-` and `_` are allowed");
                assert(message@ =~= "name contains the invalid character `"@ + seq![characters@[i as int]]
                    + "`, only `A-Z`, `a-z`, `0-9`, `-` and `_` are allowed"@);
                return Err(message);
            }
        }
        proof {
            assert(vstd::utf8::is_ascii_chars(value@));
            text::lemma_ascii_bytes(value@);
        }
        Ok(Name(value.to_owned()))
    }

    /// Makes a name of any text, if anything is left of it.
    pub fn sanitize(value: &str) -> (result: Option<Self>)
        ensures
            match result {
                Some(name) => name@ == sanitized(value@) && is_name(name@),
                None => sanitized(value@).len() == 0,
            },
    {
        let characters: Vec<char> = text::characters(value);
        let ghost dashed = value@.map_values(
            |c: char| if is_name_character(c) { c } else { '-' },
        );
        let mut kept: Vec<char> = Vec::new();
        while kept.len() < characters.len() && kept.len() < MAX_LENGTH
            invariant
                characters@ == value@,
                dashed == value@.map_values(|c: char| if is_name_character(c) { c } else { '-' }),
                kept@.len() <= MAX_LENGTH,
                kept@.len() <= dashed.len(),
                kept@ == dashed.take(kept@.len() as int),
            decreases MAX_LENGTH - kept@.len(),
        {
            let character: char = characters[kept.len()];
            let ghost before = kept@;
            kept.push(if Name::is_allowed(character) { character } else { '-' });
            assert(kept@ =~= before.push(dashed[before.len() as int]));
            assert(kept@ =~= dashed.take(kept@.len() as int));
        }
        let ghost cut = kept@;
        proof {
            assert(dashed.take(dashed.len() as int) =~= dashed);
        }
        let mut start: usize = 0;
        assert(cut.skip(0) =~= cut);
        while start < kept.len() && kept[start] == '-'
            invariant
                kept@ == cut,
                start <= cut.len(),
                without_leading_dashes(cut) == without_leading_dashes(cut.skip(start as int)),
            decreases cut.len() - start,
        {
            assert(cut.skip(start as int).drop_first() =~= cut.skip(start + 1));
            start = start + 1;
        }
        let ghost tail = cut.skip(start as int);
        let mut end: usize = kept.len();
        assert(tail =~= cut.subrange(start as int, end as int));
        while start < end && kept[end - 1] == '-'
            invariant
                kept@ == cut,
                start <= end <= cut.len(),
                without_trailing_dashes(tail) == without_trailing_dashes(
                    cut.subrange(start as int, end as int),
                ),
            decreases end - start,
        {
            assert(cut.subrange(start as int, end as int).drop_last() =~= cut.subrange(
                start as int,
                end - 1,
            ));
            end = end - 1;
        }
        let ghost rest = cut.subrange(start as int, end as int);
        assert(rest == sanitized(value@));
        let mut name: String = String::new();
        for i in start..end
            invariant
                kept@ == cut,
                start <= end <= cut.len(),
                rest == cut.subrange(start as int, end as int),
                name@ == rest.take(i - start),
        {
            name.push(kept[i]);
            assert(name@ =~= rest.take(i + 1 - start));
        }
        assert(rest.take(rest.len() as int) =~= rest);
        if start == end {
            return None;
        }
        assert(rest[0] == cut[start as int]);
        assert forall|i: int| 0 <= i < rest.len() implies is_name_character(
            #[trigger] rest[i],
        ) by {
            assert(rest[i] == dashed[start + i]);
        }
        Some(Name(name))
    }

    /// Makes a name up.
    pub fn randomized() -> (name: Self)
        ensures
            is_made_up(name@),
            is_name(name@),
    {
        let text: String = random_text(RANDOM_LENGTH);
        assert(is_alphanumeric(text@[0]));
        Name(text)
    }

    /// The text of the name.
    pub fn as_str(&self) -> (text: &str)
        ensures
            text@ == self@,
            is_name(self@),
    {
        proof {
            use_type_invariant(self);
        }
        self.0.as_str()
    }

    /// Tells whether a character may stand in a name.
    fn is_allowed(character: char) -> (result: bool)
        ensures
            result == is_name_character(character),
    {
        ('A' <= character && character <= 'Z') || ('a' <= character && character <= 'z') || ('0'
            <= character && character <= '9') || character == '-' || character == '_'
    }
}

impl FromStr for Name {
    type Err = String;

    fn from_str(value: &str) -> (result: Result<Self, Self::Err>)
        ensures
            match result {
                Ok(name) => name@ == value@ && is_name(value@),
                Err(message) => name_error(value@) == Some(message@),
            },
            result is Ok <==> name_error(value@) is None,
    {
        Name::new(value)
    }
}

/// Nothing is wrong with a text exactly if it is a name.
pub proof fn lemma_error_iff_no_name(text: Seq<char>)
    ensures
        name_error(text) is None <==> is_name(text),
{
    lemma_first_stranger(text);
    if first_stranger(text) is None {
        assert(vstd::utf8::is_ascii_chars(text));
        text::lemma_ascii_bytes(text);
    }
}

/// There is a first stranger exactly if there is one.
proof fn lemma_first_stranger(text: Seq<char>)
    ensures
        first_stranger(text) is None <==> forall|i: int|
            0 <= i < text.len() ==> is_name_character(#[trigger] text[i]),
    decreases text.len(),
{
    if text.len() > 0 {
        let rest = text.drop_first();
        lemma_first_stranger(rest);
        if first_stranger(text) is None {
            assert forall|i: int| 0 <= i < text.len() implies is_name_character(
                #[trigger] text[i],
            ) by {
                if i > 0 {
                    assert(rest[i - 1] == text[i]);
                }
            }
        } else if is_name_character(text[0]) {
            let i = choose|i: int| 0 <= i < rest.len() && !is_name_character(#[trigger] rest[i]);
            assert(text[i + 1] == rest[i]);
        }
    }
}

/// A name is one component of a path, one word of a command line and one field between colons:
/// it is neither `.` nor `..`, and holds no slash, no white space and no colon.
pub proof fn lemma_name_is_one_component(text: Seq<char>)
    requires
        is_name(text),
    ensures
        text != seq!['.'],
        text != seq!['.', '.'],
        !text.contains('/'),
        !text.contains(' ') && !text.contains('\t') && !text.contains('\n'),
        !text.contains(':'),
{
    assert(is_name_character(text[0]));
    assert(seq!['.', '.'][0] == '.');
    assert(seq!['.'][0] == '.');
}

/// Sanitizing keeps a name that does not end in a dash.
pub proof fn lemma_sanitizing_keeps_names(text: Seq<char>)
    requires
        is_name(text),
        text.last() != '-',
    ensures
        sanitized(text) == text,
{
    assert(text.map_values(|c: char| if is_name_character(c) { c } else { '-' }) =~= text);
}

/// What comes out of sanitizing is a name that does not end in a dash, or nothing.
pub proof fn lemma_sanitized_is_name(text: Seq<char>)
    ensures
        sanitized(text).len() > 0 ==> is_name(sanitized(text)) && sanitized(text).last() != '-',
{
    let dashed = text.map_values(|c: char| if is_name_character(c) { c } else { '-' });
    let cut = if dashed.len() > MAX_LENGTH { dashed.take(MAX_LENGTH as int) } else { dashed };
    assert forall|i: int| 0 <= i < cut.len() implies is_name_character(#[trigger] cut[i]) by {
        assert(cut[i] == dashed[i]);
    }
    lemma_without_leading_dashes(cut);
    lemma_without_trailing_dashes(without_leading_dashes(cut));
}

/// Sanitizing twice is sanitizing once.
pub proof fn lemma_sanitizing_is_idempotent(text: Seq<char>)
    ensures
        sanitized(sanitized(text)) == sanitized(text),
{
    lemma_sanitized_is_name(text);
    if sanitized(text).len() > 0 {
        lemma_sanitizing_keeps_names(sanitized(text));
    } else {
        assert(sanitized(text) =~= Seq::<char>::empty());
        assert(sanitized(text).map_values(
            |c: char| if is_name_character(c) { c } else { '-' },
        ) =~= sanitized(text));
    }
}

/// What is left without the dashes at the start is an end of the text.
proof fn lemma_without_leading_dashes(text: Seq<char>)
    ensures
        without_leading_dashes(text).len() <= text.len(),
        without_leading_dashes(text) == text.skip(
            text.len() - without_leading_dashes(text).len(),
        ),
        without_leading_dashes(text).len() > 0 ==> without_leading_dashes(text)[0] != '-',
    decreases text.len(),
{
    if text.len() > 0 && text[0] == '-' {
        lemma_without_leading_dashes(text.drop_first());
    }
}

/// What is left without the dashes at the end is a start of the text.
proof fn lemma_without_trailing_dashes(text: Seq<char>)
    ensures
        without_trailing_dashes(text).len() <= text.len(),
        without_trailing_dashes(text) == text.take(without_trailing_dashes(text).len() as int),
        without_trailing_dashes(text).len() > 0 ==> without_trailing_dashes(text).last() != '-',
    decreases text.len(),
{
    if text.len() > 0 && text.last() == '-' {
        lemma_without_trailing_dashes(text.drop_last());
    }
}

/// A text is taken as a name exactly if it has between one and 36 characters, all of them ASCII
/// letters, digits, dashes or underscores, and does not begin with a dash. It is kept as it is.
pub proof fn lemma_which_texts_are_names(value: &str, result: Result<Name, String>)
    requires
        call_ensures(Name::new, (value,), result),
    ensures
        result is Ok <==> {
            &&& 1 <= value@.len() <= 36
            &&& value@[0] != '-'
            &&& forall|i: int|
                0 <= i < value@.len() ==> 'A' <= #[trigger] value@[i] <= 'Z' || 'a' <= value@[i]
                    <= 'z' || '0' <= value@[i] <= '9' || value@[i] == '-' || value@[i] == '_'
        },
        result matches Ok(name) ==> name@ == value@,
{
    lemma_error_iff_no_name(value@);
    if is_name(value@) {
        assert forall|i: int| 0 <= i < value@.len() implies 'A' <= #[trigger] value@[i] <= 'Z'
            || 'a' <= value@[i] <= 'z' || '0' <= value@[i] <= '9' || value@[i] == '-' || value@[i]
            == '_' by {
            assert(is_name_character(value@[i]));
        }
    }
}

/// What is wrong with a text is told by the first of these: that it is empty, too long, begins
/// with a dash, or holds a character that may not stand in a name.
pub proof fn lemma_what_is_wrong_with_name(
    value: &str,
    result: Result<Name, String>,
    before: Seq<char>,
    stranger: char,
    after: Seq<char>,
)
    requires
        call_ensures(Name::new, (value,), result),
        forall|i: int| 0 <= i < before.len() ==> is_name_character(#[trigger] before[i]),
        !is_name_character(stranger),
    ensures
        value@.len() == 0 ==> (result matches Err(message) && message@
            == "name must not be empty"@),
        vstd::utf8::encode_utf8(value@).len() > 36 && value@.len() > 0 ==> (result
            matches Err(message) && message@ == "name must not be longer than 36 characters"@),
        0 < vstd::utf8::encode_utf8(value@).len() <= 36 && value@.len() > 0 && value@[0] == '-'
            ==> (result matches Err(message) && message@ == "name must not start with `-`"@),
        vstd::utf8::encode_utf8(value@).len() <= 36 && value@ == before + seq![stranger] + after
            && value@[0] != '-' ==> (result matches Err(message) && message@
            == "name contains the invalid character `"@ + seq![stranger]
            + "`, only `A-Z`, `a-z`, `0-9`, `-` and `_` are allowed"@),
{
    if value@ == before + seq![stranger] + after {
        lemma_first_stranger_at(before, stranger, after);
        assert(value@.len() > 0);
    }
}

/// The first stranger is the one behind characters that may stand in a name.
proof fn lemma_first_stranger_at(before: Seq<char>, stranger: char, after: Seq<char>)
    requires
        forall|i: int| 0 <= i < before.len() ==> is_name_character(#[trigger] before[i]),
        !is_name_character(stranger),
    ensures
        first_stranger(before + seq![stranger] + after) == Some(stranger),
    decreases before.len(),
{
    let all = before + seq![stranger] + after;
    if before.len() == 0 {
        assert(all[0] == stranger);
    } else {
        let rest = before.drop_first();
        assert forall|i: int| 0 <= i < rest.len() implies is_name_character(#[trigger] rest[i]) by {
            assert(rest[i] == before[i + 1]);
        }
        assert(all[0] == before[0]);
        assert(all.drop_first() =~= rest + seq![stranger] + after);
        lemma_first_stranger_at(rest, stranger, after);
    }
}

/// A character as it is in a name: itself if it may stand there, and a dash if not.
pub open spec fn as_name_character(character: char) -> char {
    if 'A' <= character <= 'Z' || 'a' <= character <= 'z' || '0' <= character <= '9' || character
        == '_' {
        character
    } else {
        '-'
    }
}

/// Sanitizing keeps a stretch of the first 36 characters, with dashes for strangers, that
/// leaves nothing but such dashes out at both ends.
pub proof fn lemma_what_is_left_of_text(value: &str, result: Option<Name>)
    requires
        call_ensures(Name::sanitize, (value,), result),
    ensures
        result matches Some(name) ==> exists|start: int|
            {
                &&& 0 <= start && start + name@.len() <= value@.len() && start + name@.len() <= 36
                &&& forall|i: int|
                    0 <= i < name@.len() ==> #[trigger] name@[i] == as_name_character(
                        value@[start + i],
                    )
                &&& #[trigger] is_all_dashes(value@, 0, start)
                &&& is_all_dashes(
                    value@,
                    start + name@.len(),
                    if value@.len() > 36 {
                        36
                    } else {
                        value@.len() as int
                    },
                )
                &&& name@.len() > 0 && name@[0] != '-' && name@.last() != '-'
            },
        result is None ==> is_all_dashes(
            value@,
            0,
            if value@.len() > 36 {
                36
            } else {
                value@.len() as int
            },
        ),
{
    let text = value@;
    let dashed = text.map_values(|c: char| if is_name_character(c) { c } else { '-' });
    let cut = if dashed.len() > MAX_LENGTH { dashed.take(MAX_LENGTH as int) } else { dashed };
    let tail = without_leading_dashes(cut);
    let rest = without_trailing_dashes(tail);
    lemma_sanitized_is_name(text);
    lemma_leading_dashes(cut);
    lemma_trailing_dashes(tail);
    lemma_without_leading_dashes(cut);
    lemma_without_trailing_dashes(tail);
    assert forall|i: int| 0 <= i < cut.len() implies #[trigger] cut[i] == as_name_character(
        text[i],
    ) by {
        assert(cut[i] == dashed[i]);
    }
    let start: int = cut.len() - tail.len();
    assert forall|i: int| 0 <= i < tail.len() implies #[trigger] tail[i] == cut[start + i] by {}
    assert forall|i: int| 0 <= i < start implies as_name_character(#[trigger] text[i]) == '-' by {
        assert(cut[i] == '-');
    }
    assert forall|i: int| start + rest.len() <= i < cut.len() implies as_name_character(
        #[trigger] text[i],
    ) == '-' by {
        assert(tail[i - start] == '-');
        assert(cut[start + (i - start)] == tail[i - start]);
    }
    if let Some(name) = result {
        assert forall|i: int| 0 <= i < name@.len() implies #[trigger] name@[i]
            == as_name_character(text[start + i]) by {
            assert(name@[i] == tail[i]);
        }
        assert(is_all_dashes(text, 0, start));
    }
}

/// Whether the characters from `start` to `end` are dashes, or strangers.
pub open spec fn is_all_dashes(text: Seq<char>, start: int, end: int) -> bool {
    forall|i: int| start <= i < end ==> as_name_character(#[trigger] text[i]) == '-'
}

/// What is taken off at the start are dashes.
proof fn lemma_leading_dashes(text: Seq<char>)
    ensures
        forall|i: int|
            0 <= i < text.len() - without_leading_dashes(text).len() ==> #[trigger] text[i] == '-',
    decreases text.len(),
{
    if text.len() > 0 && text[0] == '-' {
        let rest = text.drop_first();
        lemma_leading_dashes(rest);
        lemma_without_leading_dashes(rest);
        assert forall|i: int|
            0 <= i < text.len() - without_leading_dashes(text).len() implies #[trigger] text[i]
            == '-' by {
            if i > 0 {
                assert(rest[i - 1] == text[i]);
            }
        }
    }
}

/// What is taken off at the end are dashes.
proof fn lemma_trailing_dashes(text: Seq<char>)
    ensures
        forall|i: int|
            without_trailing_dashes(text).len() <= i < text.len() ==> #[trigger] text[i] == '-',
    decreases text.len(),
{
    if text.len() > 0 && text.last() == '-' {
        let rest = text.drop_last();
        lemma_trailing_dashes(rest);
        assert forall|i: int|
            without_trailing_dashes(text).len() <= i < text.len() implies #[trigger] text[i]
            == '-' by {
            if i < rest.len() {
                assert(rest[i] == text[i]);
            }
        }
    }
}

/// A name that is made up has 16 letters and digits.
pub proof fn lemma_name_that_is_made_up(name: Name)
    requires
        call_ensures(Name::randomized, (), name),
    ensures
        name@.len() == 16,
        forall|i: int|
            0 <= i < name@.len() ==> 'A' <= #[trigger] name@[i] <= 'Z' || 'a' <= name@[i] <= 'z'
                || '0' <= name@[i] <= '9',
{
    assert forall|i: int| 0 <= i < name@.len() implies 'A' <= #[trigger] name@[i] <= 'Z' || 'a'
        <= name@[i] <= 'z' || '0' <= name@[i] <= '9' by {
        assert(is_alphanumeric(name@[i]));
    }
}

} // verus!
