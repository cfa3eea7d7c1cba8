//! Text building blocks shared by the other modules.
use vstd::prelude::*;
use vstd::string::*;

verus! {

/// `String::push` appends the given character to the end of the string.
pub assume_specification[ String::push ](string: &mut String, character: char)
    ensures
        final(string)@ == old(string)@.push(character),
;

/// A text with its letters made capital.
pub uninterp spec fn uppercase(text: Seq<char>) -> Seq<char>;

/// `str::to_uppercase` makes the letters capital, as Unicode has it. Of an ASCII text that is
/// the small letters from a to z.
pub assume_specification[ str::to_uppercase ](string: &str) -> (capitals: String)
    ensures
        capitals@ == uppercase(string@),
        vstd::utf8::is_ascii_chars(string@) ==> capitals@ == raised(string@),
;

/// A text with its ASCII letters made capital.
pub open spec fn raised(text: Seq<char>) -> Seq<char> {
    text.map_values(|c: char| if 'a' <= c <= 'z' { ((c as u32) - 32) as char } else { c })
}

/// The digit characters of `n` in base ten, without leading zeros.
pub open spec fn decimal(n: nat) -> Seq<char>
    decreases n,
{
    if n < 10 {
        seq![(48 + n) as char]
    } else {
        decimal(n / 10).push((48 + n % 10) as char)
    }
}

/// The bytes of a text that holds ASCII characters only.
pub open spec fn ascii(text: Seq<char>) -> Seq<u8> {
    text.map_values(|c: char| c as u8)
}

/// The parts in their order with the separator between each two neighbours.
pub open spec fn joined<A>(parts: Seq<Seq<A>>, separator: A) -> Seq<A>
    decreases parts.len(),
{
    if parts.len() == 0 {
        Seq::empty()
    } else if parts.len() == 1 {
        parts[0]
    } else {
        joined(parts.drop_last(), separator).push(separator) + parts.last()
    }
}

/// Appends a copy of `bytes` to `output`.
pub fn append_bytes(output: &mut Vec<u8>, bytes: &[u8])
    ensures
        final(output)@ == old(output)@ + bytes@,
{
    output.extend_from_slice(bytes);
    assert(output@ =~= old(output)@ + bytes@);
}

/// The characters of `text` as a vector.
pub fn characters(text: &str) -> (chars: Vec<char>)
    ensures
        chars@ == text@,
{
    let mut chars: Vec<char> = Vec::new();
    for character in iterator: text.chars()
        invariant
            iterator.seq() == text@,
            chars@ == text@.take(iterator.index()),
    {
        chars.push(character);
        assert(chars@ =~= text@.take(iterator.index() + 1));
    }
    assert(text@.take(text@.len() as int) =~= text@);
    chars
}

/// The decimal digits of `n`.
pub fn decimal_string(n: u64) -> (digits: String)
    ensures
        digits@ == decimal(n as nat),
    decreases n,
{
    let mut digits: String = if n < 10 {
        String::new()
    } else {
        decimal_string(n / 10)
    };
    let digit: u8 = 48 + (n % 10) as u8;
    digits.push(digit as char);
    assert(digits@ =~= decimal(n as nat));
    digits
}

/// Every character of a decimal number is a digit.
pub proof fn lemma_decimal_digits(n: nat)
    ensures
        decimal(n).len() > 0,
        forall|i: int| 0 <= i < decimal(n).len() ==> '0' <= #[trigger] decimal(n)[i] <= '9',
    decreases n,
{
    if n >= 10 {
        lemma_decimal_digits(n / 10);
    }
}

/// The encoding of ASCII characters is one byte each.
pub proof fn lemma_ascii_bytes(text: Seq<char>)
    requires
        vstd::utf8::is_ascii_chars(text),
    ensures
        vstd::utf8::encode_utf8(text) == ascii(text),
{
    vstd::utf8::is_ascii_chars_encode_utf8(text);
    assert(vstd::utf8::encode_utf8(text) =~= ascii(text));
}

/// One more part comes behind the others, with a separator unless it is the first.
pub proof fn lemma_joined_push<A>(parts: Seq<Seq<A>>, part: Seq<A>, separator: A)
    ensures
        joined(parts.push(part), separator) == (if parts.len() == 0 {
            part
        } else {
            joined(parts, separator).push(separator) + part
        }),
{
    assert(parts.push(part).drop_last() =~= parts);
}

/// What occurs neither in a part nor as the separator does not occur in the whole.
pub proof fn lemma_joined_lacks<A>(parts: Seq<Seq<A>>, separator: A, item: A)
    requires
        separator != item,
        forall|i: int| 0 <= i < parts.len() ==> !(#[trigger] parts[i]).contains(item),
    ensures
        !joined(parts, separator).contains(item),
    decreases parts.len(),
{
    if parts.len() > 1 {
        assert forall|i: int| 0 <= i < parts.len() - 1 implies !(
        #[trigger] parts.drop_last()[i]).contains(item) by {
            assert(parts.drop_last()[i] == parts[i]);
        }
        lemma_joined_lacks(parts.drop_last(), separator, item);
        let head = joined(parts.drop_last(), separator);
        let whole = head.push(separator) + parts.last();
        assert forall|i: int| 0 <= i < whole.len() implies whole[i] != item by {
            if i < head.len() {
                assert(whole[i] == head[i]);
            } else if i > head.len() {
                assert(whole[i] == parts.last()[i - head.len() - 1]);
            }
        }
    }
}

/// The texts that a vector of strings holds.
pub open spec fn texts(strings: Seq<String>) -> Seq<Seq<char>> {
    strings.map_values(|string: String| string@)
}

/// Tells whether two texts are the same.
pub fn same(a: &str, b: &str) -> (result: bool)
    ensures
        result == (a@ == b@),
{
    a.to_owned() == b.to_owned()
}

/// A copy of each string.
pub fn copies(strings: &Vec<String>) -> (copy: Vec<String>)
    ensures
        texts(copy@) == texts(strings@),
{
    let mut copy: Vec<String> = Vec::new();
    for i in 0..strings.len()
        invariant
            texts(copy@) == texts(strings@).take(i as int),
    {
        let ghost before = texts(copy@);
        copy.push(strings[i].clone());
        assert(texts(copy@) =~= before.push(texts(strings@)[i as int]));
        assert(texts(copy@) =~= texts(strings@).take(i + 1));
    }
    assert(texts(strings@).take(strings@.len() as int) =~= texts(strings@));
    copy
}

/// Puts a copy of a text behind the others.
pub fn push_text(list: &mut Vec<String>, item: &str)
    ensures
        texts(final(list)@) == texts(old(list)@).push(item@),
{
    list.push(item.to_owned());
    assert(texts(list@) =~= texts(old(list)@).push(item@));
}

/// Puts copies of texts behind the others.
pub fn push_texts(list: &mut Vec<String>, items: &Vec<String>)
    ensures
        texts(final(list)@) == texts(old(list)@) + texts(items@),
{
    let ghost before = texts(list@);
    for i in 0..items.len()
        invariant
            texts(list@) == before + texts(items@).take(i as int),
    {
        push_text(list, items[i].as_str());
        assert(texts(list@) =~= before + texts(items@).take(i + 1));
    }
    assert(texts(items@).take(items@.len() as int) =~= texts(items@));
}

/// A text followed by another one.
pub fn concatenated(first: &str, second: &str) -> (whole: String)
    ensures
        whole@ == first@ + second@,
{
    let mut whole: String = first.to_owned();
    whole.append(second);
    whole
}

/// The string that the characters make up.
pub fn collected(chars: &Vec<char>) -> (string: String)
    ensures
        string@ == chars@,
{
    let mut string: String = String::new();
    for i in 0..chars.len()
        invariant
            string@ == chars@.take(i as int),
    {
        string.push(chars[i]);
        assert(string@ =~= chars@.take(i + 1));
    }
    assert(chars@.take(chars@.len() as int) =~= chars@);
    string
}

/// The parts of a text between the separators. A text without a separator is one part.
pub open spec fn split(text: Seq<char>, separator: char) -> Seq<Seq<char>>
    decreases text.len(),
{
    if text.len() == 0 {
        seq![Seq::<char>::empty()]
    } else {
        let before = split(text.drop_last(), separator);
        if text.last() == separator {
            before.push(Seq::empty())
        } else {
            before.drop_last().push(before.last().push(text.last()))
        }
    }
}

/// Splits a text at each separator.
pub fn split_at_each(text: &str, separator: char) -> (parts: Vec<String>)
    ensures
        texts(parts@) == split(text@, separator),
        parts@.len() > 0,
{
    let chars: Vec<char> = characters(text);
    let mut parts: Vec<String> = Vec::new();
    let mut part: String = String::new();
    for i in 0..chars.len()
        invariant
            chars@ == text@,
            texts(parts@).push(part@) == split(text@.take(i as int), separator),
    {
        let ghost seen = texts(parts@).push(part@);
        assert(text@.take(i + 1).drop_last() =~= text@.take(i as int));
        assert(seen.drop_last() =~= texts(parts@));
        if chars[i] == separator {
            parts.push(part);
            part = String::new();
            assert(texts(parts@) =~= seen);
        } else {
            part.push(chars[i]);
        }
        assert(texts(parts@).push(part@) =~= split(text@.take(i + 1), separator));
    }
    assert(text@.take(text@.len() as int) =~= text@);
    let ghost seen = texts(parts@).push(part@);
    parts.push(part);
    assert(texts(parts@) =~= seen);
    parts
}

/// Whether the needle stands in the text at the given place.
pub open spec fn stands_at(text: Seq<char>, needle: Seq<char>, at: int) -> bool {
    0 <= at && at + needle.len() <= text.len() && text.subrange(at, at + needle.len()) == needle
}

/// Whether the needle stands anywhere in the text.
pub open spec fn holds(text: Seq<char>, needle: Seq<char>) -> bool {
    exists|at: int| #[trigger] stands_at(text, needle, at)
}

/// Tells whether the needle stands anywhere in the text.
pub fn contains(text: &str, needle: &str) -> (result: bool)
    ensures
        result == holds(text@, needle@),
{
    let chars: Vec<char> = characters(text);
    let wanted: Vec<char> = characters(needle);
    let mut at: usize = 0;
    while at < chars.len() && wanted.len() <= chars.len() - at
        invariant
            chars@ == text@,
            wanted@ == needle@,
            at <= chars@.len(),
            forall|k: int| 0 <= k < at ==> !#[trigger] stands_at(text@, needle@, k),
        decreases chars.len() - at,
    {
        let mut matched: usize = 0;
        while matched < wanted.len() && chars[at + matched] == wanted[matched]
            invariant
                matched <= wanted@.len(),
                at + wanted.len() <= chars.len(),
                forall|k: int| 0 <= k < matched ==> chars@[at + k] == wanted@[k],
            decreases wanted.len() - matched,
        {
            matched = matched + 1;
        }
        if matched == wanted.len() {
            assert(text@.subrange(at as int, at + needle@.len()) =~= needle@);
            assert(stands_at(text@, needle@, at as int));
            return true;
        }
        assert(!stands_at(text@, needle@, at as int)) by {
            assert(text@.subrange(at as int, at + needle@.len())[matched as int] == text@[at
                + matched]);
        }
        at = at + 1;
    }
    if wanted.len() == 0 {
        assert(text@.subrange(at as int, at as int) =~= needle@);
        assert(stands_at(text@, needle@, at as int));
        return true;
    }
    false
}

/// Whether `a` comes before `b` in the order of the code points.
pub open spec fn is_before(a: Seq<char>, b: Seq<char>) -> bool
    decreases a.len(),
{
    if b.len() == 0 {
        false
    } else if a.len() == 0 {
        true
    } else if a[0] == b[0] {
        is_before(a.drop_first(), b.drop_first())
    } else {
        a[0] < b[0]
    }
}

/// Tells whether `a` comes before `b` in the order of the code points.
pub fn comes_before(a: &str, b: &str) -> (result: bool)
    ensures
        result == is_before(a@, b@),
{
    let first: Vec<char> = characters(a);
    let second: Vec<char> = characters(b);
    let mut i: usize = 0;
    assert(a@.skip(0) =~= a@ && b@.skip(0) =~= b@);
    while i < first.len() && i < second.len()
        invariant
            first@ == a@,
            second@ == b@,
            i <= a@.len(),
            i <= b@.len(),
            is_before(a@, b@) == is_before(a@.skip(i as int), b@.skip(i as int)),
        decreases a@.len() - i,
    {
        assert(a@.skip(i as int).drop_first() =~= a@.skip(i + 1));
        assert(b@.skip(i as int).drop_first() =~= b@.skip(i + 1));
        if first[i] != second[i] {
            return first[i] < second[i];
        }
        i = i + 1;
    }
    i < second.len()
}

/// The order of texts is transitive.
pub proof fn lemma_is_before_transitive(a: Seq<char>, b: Seq<char>, c: Seq<char>)
    requires
        is_before(a, b),
        is_before(b, c),
    ensures
        is_before(a, c),
    decreases a.len(),
{
    if a.len() > 0 && b.len() > 0 && c.len() > 0 && a[0] == b[0] && b[0] == c[0] {
        lemma_is_before_transitive(a.drop_first(), b.drop_first(), c.drop_first());
    }
}

/// No text comes before itself.
pub proof fn lemma_is_before_irreflexive(a: Seq<char>)
    ensures
        !is_before(a, a),
    decreases a.len(),
{
    if a.len() > 0 {
        lemma_is_before_irreflexive(a.drop_first());
    }
}

/// Of two different texts one comes before the other.
pub proof fn lemma_is_before_total(a: Seq<char>, b: Seq<char>)
    requires
        a != b,
    ensures
        is_before(a, b) || is_before(b, a),
    decreases a.len(),
{
    if a.len() > 0 && b.len() > 0 && a[0] == b[0] {
        if a.drop_first() == b.drop_first() {
            assert(a =~= seq![a[0]] + a.drop_first());
            assert(b =~= seq![b[0]] + b.drop_first());
        }
        lemma_is_before_total(a.drop_first(), b.drop_first());
    } else if a.len() == 0 && b.len() == 0 {
        assert(a =~= b);
    }
}

/// Putting sequences behind each other is associative.
pub proof fn lemma_concat_associative<A>(a: Seq<A>, b: Seq<A>, c: Seq<A>)
    ensures
        (a + b) + c == a + (b + c),
{
    assert((a + b) + c =~= a + (b + c));
}

/// Whether a character is white space.
pub open spec fn is_space(character: char) -> bool {
    ||| '\u{9}' <= character <= '\u{D}'
    ||| character == ' ' || character == '\u{85}' || character == '\u{A0}'
    ||| character == '\u{1680}' || '\u{2000}' <= character <= '\u{200A}'
    ||| character == '\u{2028}' || character == '\u{2029}' || character == '\u{202F}'
    ||| character == '\u{205F}' || character == '\u{3000}'
}

/// Tells whether a character is white space.
pub fn is_white_space(character: char) -> (result: bool)
    ensures
        result == is_space(character),
{
    ('\u{9}' <= character && character <= '\u{D}') || character == ' ' || character == '\u{85}'
        || character == '\u{A0}' || character == '\u{1680}' || ('\u{2000}' <= character && character
        <= '\u{200A}') || character == '\u{2028}' || character == '\u{2029}' || character
        == '\u{202F}' || character == '\u{205F}' || character == '\u{3000}'
}

/// A text without the white space at its start.
pub open spec fn trimmed_start(text: Seq<char>) -> Seq<char>
    decreases text.len(),
{
    if text.len() > 0 && is_space(text[0]) {
        trimmed_start(text.drop_first())
    } else {
        text
    }
}

/// A text without the white space at its end.
pub open spec fn trimmed_end(text: Seq<char>) -> Seq<char>
    decreases text.len(),
{
    if text.len() > 0 && is_space(text.last()) {
        trimmed_end(text.drop_last())
    } else {
        text
    }
}

/// A text without the white space at both ends.
pub open spec fn trimmed(text: Seq<char>) -> Seq<char> {
    trimmed_end(trimmed_start(text))
}

/// Cuts the white space off at both ends.
pub fn trim(text: &str) -> (rest: String)
    ensures
        rest@ == trimmed(text@),
{
    let chars: Vec<char> = characters(text);
    let mut start: usize = 0;
    assert(text@.skip(0) =~= text@);
    while start < chars.len() && is_white_space(chars[start])
        invariant
            chars@ == text@,
            start <= text@.len(),
            trimmed_start(text@) == trimmed_start(text@.skip(start as int)),
        decreases text@.len() - start,
    {
        assert(text@.skip(start as int).drop_first() =~= text@.skip(start + 1));
        start = start + 1;
    }
    let ghost tail = text@.skip(start as int);
    let mut end: usize = chars.len();
    assert(tail =~= text@.subrange(start as int, end as int));
    while start < end && is_white_space(chars[end - 1])
        invariant
            chars@ == text@,
            start <= end <= text@.len(),
            trimmed_end(tail) == trimmed_end(text@.subrange(start as int, end as int)),
        decreases end - start,
    {
        assert(text@.subrange(start as int, end as int).drop_last() =~= text@.subrange(
            start as int,
            end - 1,
        ));
        end = end - 1;
    }
    let mut rest: String = String::new();
    for i in start..end
        invariant
            chars@ == text@,
            start <= end <= text@.len(),
            rest@ == text@.subrange(start as int, i as int),
    {
        rest.push(chars[i]);
        assert(rest@ =~= text@.subrange(start as int, i + 1));
    }
    rest
}

/// The words of a text, which white space separates, and the one that is not ended yet.
pub open spec fn words_and_rest(text: Seq<char>) -> (Seq<Seq<char>>, Seq<char>)
    decreases text.len(),
{
    if text.len() == 0 {
        (Seq::empty(), Seq::empty())
    } else {
        let (words, rest) = words_and_rest(text.drop_last());
        if !is_space(text.last()) {
            (words, rest.push(text.last()))
        } else if rest.len() > 0 {
            (words.push(rest), Seq::empty())
        } else {
            (words, rest)
        }
    }
}

/// The words of a text.
pub open spec fn words(text: Seq<char>) -> Seq<Seq<char>> {
    let (words, rest) = words_and_rest(text);
    if rest.len() > 0 {
        words.push(rest)
    } else {
        words
    }
}

/// Splits a text into words.
pub fn split_words(text: &str) -> (result: Vec<String>)
    ensures
        texts(result@) == words(text@),
{
    let chars: Vec<char> = characters(text);
    let mut result: Vec<String> = Vec::new();
    let mut rest: String = String::new();
    for i in 0..chars.len()
        invariant
            chars@ == text@,
            texts(result@) == words_and_rest(text@.take(i as int)).0,
            rest@ == words_and_rest(text@.take(i as int)).1,
    {
        assert(text@.take(i + 1).drop_last() =~= text@.take(i as int));
        let ghost before = texts(result@);
        if !is_white_space(chars[i]) {
            rest.push(chars[i]);
        } else if !rest.as_str().is_empty() {
            let ghost word = rest@;
            result.push(rest);
            rest = String::new();
            assert(texts(result@) =~= before.push(word));
        }
        assert(texts(result@) =~= words_and_rest(text@.take(i + 1)).0);
        assert(rest@ =~= words_and_rest(text@.take(i + 1)).1);
    }
    assert(text@.take(text@.len() as int) =~= text@);
    if !rest.as_str().is_empty() {
        let ghost before = texts(result@);
        let ghost word = rest@;
        result.push(rest);
        assert(texts(result@) =~= before.push(word));
    }
    result
}

/// A line without the carriage return at its end.
pub open spec fn without_return(line: Seq<char>) -> Seq<char> {
    if line.len() > 0 && line.last() == '\r' {
        line.drop_last()
    } else {
        line
    }
}

/// The lines of a text. A line ends in a newline, with a carriage return before it or
/// without; the last one may lack it.
pub open spec fn lines(text: Seq<char>) -> Seq<Seq<char>> {
    let parts = split(text, '\n');
    let ended = parts.drop_last().map_values(|line: Seq<char>| without_return(line));
    if parts.last().len() > 0 {
        ended.push(parts.last())
    } else {
        ended
    }
}

/// Splits a text into lines.
pub fn split_lines(text: &str) -> (result: Vec<String>)
    ensures
        texts(result@) == lines(text@),
{
    let parts: Vec<String> = split_at_each(text, '\n');
    let ghost all = split(text@, '\n');
    let ghost ended = all.drop_last().map_values(|line: Seq<char>| without_return(line));
    let mut result: Vec<String> = Vec::new();
    let count: usize = parts.len() - 1;
    for i in 0..count
        invariant
            texts(parts@) == all,
            count == parts@.len() - 1,
            ended == all.drop_last().map_values(|line: Seq<char>| without_return(line)),
            texts(result@) == ended.take(i as int),
    {
        let ghost before = texts(result@);
        assert(all[i as int] == parts@[i as int]@);
        let mut chars: Vec<char> = characters(parts[i].as_str());
        if chars.len() > 0 && chars[chars.len() - 1] == '\r' {
            chars.pop();
        }
        assert(chars@ =~= ended[i as int]);
        result.push(collected(&chars));
        assert(texts(result@) =~= before.push(ended[i as int]));
        assert(texts(result@) =~= ended.take(i + 1));
    }
    assert(ended.take(count as int) =~= ended);
    assert(all.last() == parts@[count as int]@);
    if !parts[count].as_str().is_empty() {
        let ghost before = texts(result@);
        result.push(parts[count].clone());
        assert(texts(result@) =~= before.push(all.last()));
    }
    result
}

/// The number that digits stand for.
pub open spec fn digits_value(digits: Seq<char>) -> nat
    decreases digits.len(),
{
    if digits.len() == 0 {
        0
    } else {
        digits_value(digits.drop_last()) * 10 + (digits.last() as nat - '0' as nat) as nat
    }
}

/// Whether a text is made of digits.
pub open spec fn are_digits(text: Seq<char>) -> bool {
    forall|i: int| 0 <= i < text.len() ==> '0' <= #[trigger] text[i] <= '9'
}

/// The number that a text stands for, if it does and the number is not above the limit. A
/// plus sign may stand before the digits.
pub open spec fn number(text: Seq<char>, max: nat) -> Option<nat> {
    let digits = if text.len() > 0 && text[0] == '+' { text.drop_first() } else { text };
    if digits.len() > 0 && are_digits(digits) && digits_value(digits) <= max {
        Some(digits_value(digits))
    } else {
        None
    }
}

/// More digits do not make a number smaller.
proof fn lemma_digits_value_grows(digits: Seq<char>, count: int)
    requires
        0 <= count <= digits.len(),
        are_digits(digits),
    ensures
        digits_value(digits.take(count)) <= digits_value(digits),
    decreases digits.len(),
{
    if count == digits.len() {
        assert(digits.take(count) =~= digits);
    } else {
        assert(are_digits(digits.drop_last())) by {
            assert forall|i: int| 0 <= i < digits.len() - 1 implies '0'
                <= #[trigger] digits.drop_last()[i] <= '9' by {
                assert(digits.drop_last()[i] == digits[i]);
            }
        }
        lemma_digits_value_grows(digits.drop_last(), count);
        assert(digits.drop_last().take(count) =~= digits.take(count));
    }
}

/// Reads a number that is not above the limit.
pub fn parse_number(text: &str, max: u64) -> (result: Option<u64>)
    ensures
        match result {
            Some(value) => number(text@, max as nat) == Some(value as nat),
            None => number(text@, max as nat) is None,
        },
{
    let chars: Vec<char> = characters(text);
    let start: usize = if chars.len() > 0 && chars[0] == '+' {
        1
    } else {
        0
    };
    let ghost digits = text@.skip(start as int);
    assert(digits =~= (if text@.len() > 0 && text@[0] == '+' { text@.drop_first() } else { text@ }));
    if start == chars.len() {
        return None;
    }
    let mut value: u64 = 0;
    for i in start..chars.len()
        invariant
            chars@ == text@,
            start <= text@.len(),
            digits == text@.skip(start as int),
            digits.len() > 0,
            digits == (if text@.len() > 0 && text@[0] == '+' { text@.drop_first() } else { text@ }),
            forall|k: int| 0 <= k < i - start ==> '0' <= #[trigger] digits[k] <= '9',
            value == digits_value(digits.take(i - start)),
            value <= max,
    {
        let character: char = chars[i];
        assert(digits[i - start] == character);
        if !('0' <= character && character <= '9') {
            return None;
        }
        let digit: u64 = (character as u32 - '0' as u32) as u64;
        assert(digits.take(i + 1 - start).drop_last() =~= digits.take(i - start));
        assert(digits_value(digits.take(i + 1 - start)) == value * 10 + digit);
        if value > max / 10 || digit > max - value * 10 {
            proof {
                if are_digits(digits) {
                    lemma_digits_value_grows(digits, i + 1 - start);
                }
            }
            return None;
        }
        value = value * 10 + digit;
    }
    assert(digits.take(digits.len() as int) =~= digits);
    Some(value)
}

/// A text with its ASCII capitals made small.
pub open spec fn lowered(text: Seq<char>) -> Seq<char> {
    text.map_values(|c: char| if 'A' <= c <= 'Z' { ((c as u32) + 32) as char } else { c })
}

/// Tells whether two texts are the same but for the case of ASCII letters.
pub fn same_ignoring_case(a: &str, b: &str) -> (result: bool)
    ensures
        result == (lowered(a@) == lowered(b@)),
{
    let first: Vec<char> = characters(a);
    let second: Vec<char> = characters(b);
    if first.len() != second.len() {
        assert(lowered(a@).len() != lowered(b@).len());
        return false;
    }
    for i in 0..first.len()
        invariant
            first@ == a@,
            second@ == b@,
            first@.len() == second@.len(),
            forall|k: int| 0 <= k < i ==> lowered(a@)[k] == lowered(b@)[k],
    {
        if lower(first[i]) != lower(second[i]) {
            assert(lowered(a@)[i as int] != lowered(b@)[i as int]);
            return false;
        }
    }
    assert(lowered(a@) =~= lowered(b@));
    true
}

/// Makes an ASCII capital small.
fn lower(character: char) -> (result: char)
    ensures
        result == (if 'A' <= character <= 'Z' {
            ((character as u32) + 32) as char
        } else {
            character
        }),
{
    if 'A' <= character && character <= 'Z' {
        (character as u8 + 32) as char
    } else {
        character
    }
}

/// The parts of a text before and after the first separator.
pub open spec fn split_first(text: Seq<char>, separator: char) -> Option<(Seq<char>, Seq<char>)> {
    if text.contains(separator) {
        let at = text.index_of_first(separator).unwrap();
        Some((text.take(at), text.skip(at + 1)))
    } else {
        None
    }
}

/// Splits a text at the first separator.
pub fn split_once(text: &str, separator: char) -> (result: Option<(String, String)>)
    ensures
        match result {
            Some((before, after)) => split_first(text@, separator) == Some((before@, after@)),
            None => split_first(text@, separator) is None,
        },
{
    let chars: Vec<char> = characters(text);
    let mut before: String = String::new();
    for i in 0..chars.len()
        invariant
            chars@ == text@,
            before@ == text@.take(i as int),
            forall|k: int| 0 <= k < i ==> text@[k] != separator,
    {
        if chars[i] == separator {
            let mut after: String = String::new();
            for k in i + 1..chars.len()
                invariant
                    chars@ == text@,
                    i < chars@.len(),
                    after@ == text@.subrange(i + 1, k as int),
            {
                after.push(chars[k]);
                assert(after@ =~= text@.subrange(i + 1, k + 1));
            }
            proof {
                text@.index_of_first_ensures(separator);
                assert(text@.contains(separator)) by {
                    assert(text@[i as int] == separator);
                }
                let at = text@.index_of_first(separator).unwrap();
                assert(at == i);
                assert(after@ =~= text@.skip(i + 1));
            }
            return Some((before, after));
        }
        before.push(chars[i]);
        assert(before@ =~= text@.take(i + 1));
    }
    None
}

/// Whether texts are in order and none occurs twice.
pub open spec fn is_sorted(list: Seq<Seq<char>>) -> bool {
    forall|i: int, j: int|
        0 <= i < j < list.len() ==> is_before(#[trigger] list[i], #[trigger] list[j])
}

/// Puts a text in its place among others, unless it is there already.
pub fn insert_sorted(list: &mut Vec<String>, item: &str)
    requires
        is_sorted(texts(old(list)@)),
    ensures
        is_sorted(texts(final(list)@)),
        forall|other: Seq<char>|
            #[trigger] texts(final(list)@).contains(other) <==> other == item@ || texts(
                old(list)@,
            ).contains(other),
{
    let ghost before = texts(list@);
    let mut at: usize = 0;
    while at < list.len() && comes_before(list[at].as_str(), item)
        invariant
            before == texts(list@),
            at <= list@.len(),
            forall|k: int| 0 <= k < at ==> is_before(#[trigger] before[k], item@),
        decreases list.len() - at,
    {
        assert(before[at as int] == list@[at as int]@);
        at = at + 1;
    }
    if at < list.len() && same(list[at].as_str(), item) {
        assert(before[at as int] == item@);
        assert(before.contains(item@));
        return;
    }
    proof {
        if at < before.len() {
            assert(before[at as int] == list@[at as int]@);
            lemma_is_before_total(before[at as int], item@);
        }
        assert forall|k: int| at <= k < before.len() implies is_before(
            item@,
            #[trigger] before[k],
        ) by {
            if k > at {
                lemma_is_before_transitive(item@, before[at as int], before[k]);
            }
        }
    }
    list.insert(at, item.to_owned());
    proof {
        let after = texts(list@);
        assert(after =~= before.insert(at as int, item@));
        assert forall|i: int| 0 <= i < after.len() implies #[trigger] after[i] == (if i < at {
            before[i]
        } else if i == at {
            item@
        } else {
            before[i - 1]
        }) by {}
        assert forall|other: Seq<char>|
            #[trigger] after.contains(other) <==> other == item@ || before.contains(other) by {
            if after.contains(other) {
                let k = choose|k: int| 0 <= k < after.len() && after[k] == other;
                if k < at {
                    assert(before[k] == other);
                } else if k > at {
                    assert(before[k - 1] == other);
                }
            }
            if before.contains(other) {
                let k = choose|k: int| 0 <= k < before.len() && before[k] == other;
                if k < at {
                    assert(after[k] == other);
                } else {
                    assert(after[k + 1] == other);
                }
            }
            assert(after[at as int] == item@);
        }
    }
}

/// Tells whether a text begins with another one.
pub fn begins_with(text: &str, start: &str) -> (result: bool)
    ensures
        result == start@.is_prefix_of(text@),
{
    let chars: Vec<char> = characters(text);
    let wanted: Vec<char> = characters(start);
    if wanted.len() > chars.len() {
        return false;
    }
    for i in 0..wanted.len()
        invariant
            chars@ == text@,
            wanted@ == start@,
            wanted@.len() <= chars@.len(),
            forall|k: int| 0 <= k < i ==> wanted@[k] == chars@[k],
    {
        if chars[i] != wanted[i] {
            assert(text@.take(start@.len() as int)[i as int] != start@[i as int]);
            return false;
        }
    }
    assert(start@ =~= text@.take(start@.len() as int));
    true
}

/// A number that is written and read again is the same, if it is not above the limit, and it
/// is written without leading zeros.
pub proof fn lemma_decimal_is_read_back(n: nat, max: nat)
    ensures
        number(decimal(n), max) == (if n <= max {
            Some(n)
        } else {
            None
        }),
        number(seq!['+'] + decimal(n), max) == number(decimal(n), max),
        decimal(n)[0] == '0' ==> n == 0,
        n < 10 <==> decimal(n).len() == 1,
{
    lemma_decimal_digits(n);
    lemma_decimal_value(n);
    assert((seq!['+'] + decimal(n)).drop_first() =~= decimal(n));
}

/// The digits of a number stand for it, and the first of them is no zero.
proof fn lemma_decimal_value(n: nat)
    ensures
        digits_value(decimal(n)) == n,
        decimal(n).len() > 0,
        decimal(n)[0] == '0' ==> n == 0,
        n < 10 <==> decimal(n).len() == 1,
    decreases n,
{
    if n < 10 {
        assert(decimal(n).drop_last() =~= Seq::<char>::empty());
        assert(digits_value(decimal(n).drop_last()) == 0);
    } else {
        lemma_decimal_value(n / 10);
        assert(decimal(n).drop_last() =~= decimal(n / 10));
        assert(decimal(n)[0] == decimal(n / 10)[0]);
    }
}

/// What is no digit, but for a plus sign at the start, is no part of a number, nothing is no
/// number, and no number is above the limit.
pub proof fn lemma_numbers_are_digits(text: Seq<char>, max: nat)
    ensures
        text.len() == 0 ==> number(text, max) is None,
        number(text, max) matches Some(value) ==> value <= max,
        forall|i: int|
            0 <= i < text.len() && !('0' <= #[trigger] text[i] <= '9') && !(i == 0 && text[i]
                == '+') ==> number(text, max) is None,
{
    assert forall|i: int|
        0 <= i < text.len() && !('0' <= #[trigger] text[i] <= '9') && !(i == 0 && text[i]
            == '+') implies number(text, max) is None by {
        if text[0] == '+' {
            assert(text.drop_first()[i - 1] == text[i]);
        }
    }
}

/// Splitting a text that a separator stands in splits what stands before it and what stands
/// behind it.
pub proof fn lemma_split_concat(before: Seq<char>, separator: char, after: Seq<char>)
    ensures
        split(before.push(separator) + after, separator) == split(before, separator) + split(
            after,
            separator,
        ),
        split(before, separator).len() > 0,
    decreases after.len(),
{
    lemma_split_not_empty(before, separator);
    let whole = before.push(separator) + after;
    if after.len() == 0 {
        assert(whole =~= before.push(separator));
        assert(whole.drop_last() =~= before);
        assert(split(before, separator).push(Seq::empty()) =~= split(before, separator) + seq![
            Seq::<char>::empty(),
        ]);
    } else {
        lemma_split_concat(before, separator, after.drop_last());
        lemma_split_not_empty(after.drop_last(), separator);
        assert(whole.drop_last() =~= before.push(separator) + after.drop_last());
        let first = split(before, separator);
        let second = split(after.drop_last(), separator);
        assert((first + second).last() == second.last());
        assert((first + second).drop_last() =~= first + second.drop_last());
        assert(split(whole, separator) =~= first + split(after, separator));
    }
}

/// There is always a part.
proof fn lemma_split_not_empty(text: Seq<char>, separator: char)
    ensures
        split(text, separator).len() > 0,
    decreases text.len(),
{
    if text.len() > 0 {
        lemma_split_not_empty(text.drop_last(), separator);
    }
}

/// A text without the separator is one part.
pub proof fn lemma_split_one(text: Seq<char>, separator: char)
    requires
        !text.contains(separator),
    ensures
        split(text, separator) == seq![text],
    decreases text.len(),
{
    if text.len() > 0 {
        assert forall|i: int| 0 <= i < text.len() - 1 implies text.drop_last()[i]
            != separator by {
            assert(text.contains(text[i]));
            assert(text.drop_last()[i] == text[i]);
        }
        lemma_split_one(text.drop_last(), separator);
        assert(text.contains(text[text.len() - 1]));
        assert(seq![text.drop_last()].drop_last() =~= Seq::<Seq<char>>::empty());
        assert(text.drop_last().push(text.last()) =~= text);
        assert(split(text, separator) =~= seq![text]);
    } else {
        assert(text =~= Seq::<char>::empty());
    }
}

/// The parts of a text, put together with the separator between them, are the text, and the
/// separator stands in none of them.
pub proof fn lemma_split_and_join(text: Seq<char>, separator: char)
    ensures
        joined(split(text, separator), separator) == text,
        forall|i: int|
            0 <= i < split(text, separator).len() ==> !(#[trigger] split(
                text,
                separator,
            )[i]).contains(separator),
    decreases text.len(),
{
    let parts = split(text, separator);
    if text.len() > 0 {
        lemma_split_not_empty(text.drop_last(), separator);
        let before = split(text.drop_last(), separator);
        lemma_split_and_join(text.drop_last(), separator);
        let init = before.drop_last();
        assert(before =~= init.push(before.last()));
        lemma_joined_push(init, before.last(), separator);
        if text.last() == separator {
            lemma_joined_push(before, Seq::empty(), separator);
            assert(joined(parts, separator) =~= text);
        } else {
            lemma_joined_push(init, before.last().push(text.last()), separator);
            assert(parts == init.push(before.last().push(text.last())));
            if init.len() > 0 {
                let head = joined(init, separator).push(separator);
                assert(head + before.last().push(text.last()) =~= (head + before.last()).push(
                    text.last(),
                ));
            }
            assert(text =~= text.drop_last().push(text.last()));
            assert(joined(parts, separator) == text.drop_last().push(text.last()));
        }
        assert forall|i: int| 0 <= i < parts.len() implies !(#[trigger] parts[i]).contains(
            separator,
        ) by {
            if i < before.len() - 1 {
                assert(parts[i] == before[i]);
            } else if text.last() == separator {
                if i < before.len() {
                    assert(parts[i] == before[i]);
                }
            } else {
                let last = before[before.len() - 1];
                assert(parts[i] == last.push(text.last()));
                assert forall|k: int| 0 <= k < parts[i].len() implies parts[i][k]
                    != separator by {
                    if k < last.len() {
                        assert(last.contains(last[k]));
                    }
                }
            }
        }
    } else {
        assert(parts =~= seq![Seq::<char>::empty()]);
        assert(joined(parts, separator) =~= text);
    }
}

/// What stands between two other texts is found, and what is found stands between two others.
pub proof fn lemma_holds_what_stands_inside(text: Seq<char>, needle: Seq<char>)
    ensures
        forall|before: Seq<char>, after: Seq<char>|
            text == #[trigger] (before + needle + after) ==> holds(text, needle),
        holds(text, needle) ==> exists|before: Seq<char>, after: Seq<char>|
            text == #[trigger] (before + needle + after),
{
    assert forall|before: Seq<char>, after: Seq<char>|
        text == #[trigger] (before + needle + after) implies holds(text, needle) by {
        let at = before.len() as int;
        assert(text.subrange(at, at + needle.len()) =~= needle);
        assert(stands_at(text, needle, at));
    }
    if holds(text, needle) {
        let at = choose|at: int| #[trigger] stands_at(text, needle, at);
        let before = text.take(at);
        let after = text.skip(at + needle.len());
        assert(text =~= before + needle + after);
    }
}

/// The order of texts goes by the first place at which they differ, and a text comes before
/// those that it is a start of.
pub proof fn lemma_is_before_at_difference(
    start: Seq<char>,
    a: char,
    b: char,
    rest: Seq<char>,
    other: Seq<char>,
)
    ensures
        is_before(start + seq![a] + rest, start + seq![b] + other) == (a < b || (a == b
            && is_before(rest, other))),
        is_before(start, start + seq![a] + rest),
        !is_before(start + seq![a] + rest, start),
    decreases start.len(),
{
    let first = start + seq![a] + rest;
    let second = start + seq![b] + other;
    if start.len() == 0 {
        assert(first.drop_first() =~= rest);
        assert(second.drop_first() =~= other);
        assert(first[0] == a && second[0] == b);
    } else {
        let tail = start.drop_first();
        lemma_is_before_at_difference(tail, a, b, rest, other);
        assert(first.drop_first() =~= tail + seq![a] + rest);
        assert(second.drop_first() =~= tail + seq![b] + other);
        assert(first[0] == start[0] && second[0] == start[0]);
    }
}

/// Which characters are white space.
pub proof fn lemma_spaces(character: char)
    ensures
        is_space(character) <==> seq![
            '\u{9}', '\u{A}', '\u{B}', '\u{C}', '\u{D}', '\u{20}', '\u{85}', '\u{A0}', '\u{1680}',
            '\u{2000}', '\u{2001}', '\u{2002}', '\u{2003}', '\u{2004}', '\u{2005}', '\u{2006}',
            '\u{2007}', '\u{2008}', '\u{2009}', '\u{200A}', '\u{2028}', '\u{2029}', '\u{202F}',
            '\u{205F}', '\u{3000}',
        ].contains(character),
{
    let all = seq![
        '\u{9}', '\u{A}', '\u{B}', '\u{C}', '\u{D}', '\u{20}', '\u{85}', '\u{A0}', '\u{1680}',
        '\u{2000}', '\u{2001}', '\u{2002}', '\u{2003}', '\u{2004}', '\u{2005}', '\u{2006}',
        '\u{2007}', '\u{2008}', '\u{2009}', '\u{200A}', '\u{2028}', '\u{2029}', '\u{202F}',
        '\u{205F}', '\u{3000}',
    ];
    assert(all[0] == '\u{9}' && all[1] == '\u{A}' && all[2] == '\u{B}' && all[3] == '\u{C}'
        && all[4] == '\u{D}' && all[5] == '\u{20}' && all[6] == '\u{85}' && all[7] == '\u{A0}'
        && all[8] == '\u{1680}' && all[9] == '\u{2000}' && all[10] == '\u{2001}' && all[11]
        == '\u{2002}' && all[12] == '\u{2003}' && all[13] == '\u{2004}' && all[14] == '\u{2005}'
        && all[15] == '\u{2006}' && all[16] == '\u{2007}' && all[17] == '\u{2008}' && all[18]
        == '\u{2009}' && all[19] == '\u{200A}' && all[20] == '\u{2028}' && all[21] == '\u{2029}'
        && all[22] == '\u{202F}' && all[23] == '\u{205F}' && all[24] == '\u{3000}');
    if all.contains(character) {
        let i = choose|i: int| 0 <= i < all.len() && all[i] == character;
        assert(i == 0 || i == 1 || i == 2 || i == 3 || i == 4 || i == 5 || i == 6 || i == 7 || i
            == 8 || i == 9 || i == 10 || i == 11 || i == 12 || i == 13 || i == 14 || i == 15 || i
            == 16 || i == 17 || i == 18 || i == 19 || i == 20 || i == 21 || i == 22 || i == 23 || i
            == 24);
    }
}

/// Whether a text is white space.
pub open spec fn is_blank(text: Seq<char>) -> bool {
    forall|i: int| 0 <= i < text.len() ==> is_space(#[trigger] text[i])
}

/// Trimming takes white space off at both ends and nothing else, and leaves none there.
pub proof fn lemma_trimmed(text: Seq<char>)
    ensures
        exists|before: Seq<char>, after: Seq<char>|
            text == #[trigger] (before + trimmed(text) + after) && is_blank(before) && is_blank(
                after,
            ),
        trimmed(text).len() > 0 ==> !is_space(trimmed(text)[0]) && !is_space(trimmed(text).last()),
{
    lemma_trimmed_start(text);
    let middle = trimmed_start(text);
    lemma_trimmed_end(middle);
    let before = text.take(text.len() - middle.len());
    let after = middle.skip(trimmed(text).len() as int);
    assert(text =~= before + trimmed(text) + after);
    assert(is_blank(before));
    assert(is_blank(after));
    if trimmed(text).len() > 0 {
        assert(trimmed(text)[0] == middle[0]);
    }
}

/// What is left without the white space at the start is an end of the text.
proof fn lemma_trimmed_start(text: Seq<char>)
    ensures
        trimmed_start(text).len() <= text.len(),
        trimmed_start(text) == text.skip(text.len() - trimmed_start(text).len()),
        is_blank(text.take(text.len() - trimmed_start(text).len())),
        trimmed_start(text).len() > 0 ==> !is_space(trimmed_start(text)[0]),
    decreases text.len(),
{
    if text.len() > 0 && is_space(text[0]) {
        let rest = text.drop_first();
        lemma_trimmed_start(rest);
        let cut = text.take(text.len() - trimmed_start(text).len());
        assert forall|i: int| 0 <= i < cut.len() implies is_space(#[trigger] cut[i]) by {
            if i > 0 {
                assert(rest.take(rest.len() - trimmed_start(rest).len())[i - 1] == cut[i]);
            }
        }
    }
}

/// What is left without the white space at the end is a start of the text.
proof fn lemma_trimmed_end(text: Seq<char>)
    ensures
        trimmed_end(text).len() <= text.len(),
        trimmed_end(text) == text.take(trimmed_end(text).len() as int),
        is_blank(text.skip(trimmed_end(text).len() as int)),
        trimmed_end(text).len() > 0 ==> !is_space(trimmed_end(text).last()),
    decreases text.len(),
{
    if text.len() > 0 && is_space(text.last()) {
        let rest = text.drop_last();
        lemma_trimmed_end(rest);
        let cut = text.skip(trimmed_end(text).len() as int);
        assert forall|i: int| 0 <= i < cut.len() implies is_space(#[trigger] cut[i]) by {
            if i < cut.len() - 1 {
                assert(rest.skip(trimmed_end(rest).len() as int)[i] == cut[i]);
            }
        }
    }
}

/// White space separates words, and what holds none is one word.
pub proof fn lemma_words(before: Seq<char>, space: char, after: Seq<char>)
    requires
        is_space(space),
    ensures
        words(before.push(space) + after) == words(before) + words(after),
        (forall|i: int| 0 <= i < before.len() ==> !is_space(#[trigger] before[i])) ==> words(before)
            == (if before.len() > 0 {
            seq![before]
        } else {
            Seq::empty()
        }),
{
    lemma_words_concat(before, space, after);
    let (first, rest) = words_and_rest(after);
    assert(words(before.push(space) + after) =~= words(before) + words(after));
    if forall|i: int| 0 <= i < before.len() ==> !is_space(#[trigger] before[i]) {
        lemma_one_word(before);
        assert(words(before) =~= (if before.len() > 0 {
            seq![before]
        } else {
            Seq::empty()
        }));
    }
}

/// Behind white space new words begin.
proof fn lemma_words_concat(before: Seq<char>, space: char, after: Seq<char>)
    requires
        is_space(space),
    ensures
        words_and_rest(before.push(space) + after) == (
            words(before) + words_and_rest(after).0,
            words_and_rest(after).1,
        ),
    decreases after.len(),
{
    let whole = before.push(space) + after;
    if after.len() == 0 {
        assert(whole =~= before.push(space));
        assert(whole.drop_last() =~= before);
        assert(words(before) + Seq::<Seq<char>>::empty() =~= words(before));
        let (list, rest) = words_and_rest(before);
        if rest.len() == 0 {
            assert(rest =~= Seq::<char>::empty());
        }
    } else {
        lemma_words_concat(before, space, after.drop_last());
        assert(whole.drop_last() =~= before.push(space) + after.drop_last());
        let (list, rest) = words_and_rest(after.drop_last());
        assert((words(before) + list).push(rest) =~= words(before) + list.push(rest));
    }
}

/// A text without white space is one word.
proof fn lemma_one_word(text: Seq<char>)
    requires
        forall|i: int| 0 <= i < text.len() ==> !is_space(#[trigger] text[i]),
    ensures
        words_and_rest(text) == (Seq::<Seq<char>>::empty(), text),
    decreases text.len(),
{
    if text.len() > 0 {
        assert forall|i: int| 0 <= i < text.len() - 1 implies !is_space(
            #[trigger] text.drop_last()[i],
        ) by {
            assert(text.drop_last()[i] == text[i]);
        }
        lemma_one_word(text.drop_last());
        assert(!is_space(text[text.len() - 1]));
        assert(text.drop_last().push(text.last()) =~= text);
    } else {
        assert(text =~= Seq::<char>::empty());
    }
}

/// A newline ends a line, with a carriage return before it or without, and what holds none is
/// one line.
pub proof fn lemma_lines(line: Seq<char>, after: Seq<char>)
    requires
        !line.contains('\n'),
    ensures
        !line.contains('\r') ==> lines(line.push('\n') + after) == seq![line] + lines(after),
        !line.contains('\r') ==> lines(line.push('\r').push('\n') + after) == seq![line] + lines(
            after,
        ),
        lines(line) == (if line.len() > 0 {
            seq![line]
        } else {
            Seq::empty()
        }),
{
    lemma_split_one(line, '\n');
    assert(seq![line].drop_last() =~= Seq::<Seq<char>>::empty());
    assert(lines(line) =~= (if line.len() > 0 {
        seq![line]
    } else {
        Seq::empty()
    }));
    if !line.contains('\r') {
        lemma_first_line(line, after);
        let longer = line.push('\r');
        assert forall|i: int| 0 <= i < longer.len() implies longer[i] != '\n' by {
            if i < line.len() {
                assert(line.contains(line[i]));
            }
        }
        lemma_first_line(longer, after);
        assert(longer.drop_last() =~= line);
        assert(without_return(longer) == line);
        if line.len() > 0 {
            assert(line.contains(line[line.len() - 1]));
        }
    }
}

/// The first line is what stands before the first newline.
proof fn lemma_first_line(line: Seq<char>, after: Seq<char>)
    requires
        !line.contains('\n'),
    ensures
        lines(line.push('\n') + after) == seq![without_return(line)] + lines(after),
{
    lemma_split_one(line, '\n');
    lemma_split_concat(line, '\n', after);
    lemma_split_not_empty(after, '\n');
    let whole = line.push('\n') + after;
    let rest = split(after, '\n');
    assert(split(whole, '\n') == seq![line] + rest);
    assert(split(whole, '\n').last() == rest.last());
    assert(split(whole, '\n').drop_last() =~= seq![line] + rest.drop_last());
    assert(lines(whole) =~= seq![without_return(line)] + lines(after));
}

/// Whether two characters are the same ASCII letter, one capital and one small.
pub open spec fn is_same_letter(a: char, b: char) -> bool {
    ||| 'A' <= a <= 'Z' && b as u32 == a as u32 + 32
    ||| 'A' <= b <= 'Z' && a as u32 == b as u32 + 32
}

/// Texts are the same but for their case exactly if they are equally long and their characters
/// are the same or the same letter.
pub proof fn lemma_same_but_for_case(a: Seq<char>, b: Seq<char>)
    ensures
        lowered(a) == lowered(b) <==> a.len() == b.len() && forall|i: int|
            #![trigger a[i]]
            0 <= i < a.len() ==> a[i] == b[i] || is_same_letter(a[i], b[i]),
{
    if lowered(a) == lowered(b) {
        assert(lowered(a).len() == a.len() && lowered(b).len() == b.len());
        assert forall|i: int|
            #![trigger a[i]]
            0 <= i < a.len() implies a[i] == b[i] || is_same_letter(a[i], b[i]) by {
            assert(lowered(a)[i] == lowered(b)[i]);
            lemma_lowered_letters(a[i], b[i]);
        }
    } else if a.len() == b.len() && forall|i: int|
        #![trigger a[i]]
        0 <= i < a.len() ==> a[i] == b[i] || is_same_letter(a[i], b[i]) {
        assert forall|i: int| 0 <= i < a.len() implies lowered(a)[i] == lowered(b)[i] by {
            assert(a[i] == b[i] || is_same_letter(a[i], b[i]));
            lemma_lowered_letters(a[i], b[i]);
        }
        assert(lowered(a) =~= lowered(b));
    }
}

/// Two characters are lowered to the same one exactly if they are the same or the same letter.
proof fn lemma_lowered_letters(a: char, b: char)
    ensures
        lowered(seq![a])[0] == lowered(seq![b])[0] <==> a == b || is_same_letter(a, b),
{
    let x = lowered(seq![a])[0];
    let y = lowered(seq![b])[0];
    assert('A' <= a <= 'Z' ==> x as u32 == a as u32 + 32);
    assert('A' <= b <= 'Z' ==> y as u32 == b as u32 + 32);
}

/// A text is split at the first separator: what stands before it holds none. Without one it is
/// not split.
pub proof fn lemma_split_first(before: Seq<char>, separator: char, after: Seq<char>)
    requires
        !before.contains(separator),
    ensures
        split_first(before.push(separator) + after, separator) == Some((before, after)),
        split_first(before, separator) is None,
{
    let whole = before.push(separator) + after;
    assert(whole[before.len() as int] == separator);
    assert(whole.contains(separator));
    whole.index_of_first_ensures(separator);
    let at = whole.index_of_first(separator).unwrap();
    if at < before.len() {
        assert(whole[at] == before[at]);
        assert(before.contains(before[at]));
    }
    assert(whole.take(before.len() as int) =~= before);
    assert(whole.skip(before.len() as int + 1) =~= after);
}

/// Raising a text makes each small ASCII letter the capital one and leaves all else.
pub proof fn lemma_raised(text: Seq<char>)
    ensures
        raised(text).len() == text.len(),
        forall|i: int|
            #![trigger text[i]]
            0 <= i < text.len() ==> if 'a' <= text[i] <= 'z' {
                raised(text)[i] as u32 == text[i] as u32 - 32 && is_same_letter(
                    raised(text)[i],
                    text[i],
                )
            } else {
                raised(text)[i] == text[i]
            },
{
}

} // verus!
