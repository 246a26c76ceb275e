//! Text primitives over characters.
//!
//! A text is modelled as the sequence of its characters. Byte offsets, which
//! some callers carry, are derived from the UTF-8 width of each character.
use vstd::prelude::*;

verus! {

// --- Construction and comparison ---------------------------------------------

/// `std::string::String::push`: appends one character at the end.
pub assume_specification[ String::push ](s: &mut String, ch: char)
    ensures
        final(s)@ == old(s)@.push(ch),
;

/// The characters of `s`, in order.
pub fn chars_of(s: &str) -> (r: Vec<char>)
    ensures
        r@ == s@,
{
    let mut out: Vec<char> = Vec::new();
    for c in it: s.chars()
        invariant
            it.seq() == s@,
            out@ == s@.take(it.index()),
    {
        out.push(c);
    }
    out
}

/// The text made of the characters `chars[from..to]`.
pub fn text_of(chars: &Vec<char>, from: usize, to: usize) -> (r: String)
    requires
        from <= to <= chars@.len(),
    ensures
        r@ == chars@.subrange(from as int, to as int),
{
    let mut out = String::new();
    let mut i: usize = from;
    while i < to
        invariant
            from <= i <= to <= chars@.len(),
            out@ == chars@.subrange(from as int, i as int),
        decreases to - i,
    {
        out.push(chars[i]);
        i = i + 1;
    }
    out
}

/// Whether two character buffers hold the same text.
pub fn same_chars(a: &Vec<char>, b: &Vec<char>) -> (r: bool)
    ensures
        r == (a@ == b@),
{
    if a.len() != b.len() {
        return false;
    }
    let mut i: usize = 0;
    while i < a.len()
        invariant
            i <= a@.len() == b@.len(),
            a@.take(i as int) == b@.take(i as int),
        decreases a@.len() - i,
    {
        if a[i] != b[i] {
            assert(a@[i as int] != b@[i as int]);
            return false;
        }
        assert(a@.take(i + 1) == a@.take(i as int).push(a@[i as int]));
        assert(b@.take(i + 1) == b@.take(i as int).push(b@[i as int]));
        i = i + 1;
    }
    assert(a@.take(i as int) == a@);
    assert(b@.take(i as int) == b@);
    true
}

/// Whether two texts are equal.
pub fn same_text(a: &str, b: &str) -> (r: bool)
    ensures
        r == (a@ == b@),
{
    same_chars(&chars_of(a), &chars_of(b))
}

/// Whether `s` equals one of `options`.
pub fn one_of(s: &str, options: &[&str]) -> (r: bool)
    ensures
        r == (exists|i: int| 0 <= i < options@.len() && (#[trigger] options@[i])@ == s@),
{
    let mut i: usize = 0;
    while i < options.len()
        invariant
            i <= options@.len(),
            forall|j: int| 0 <= j < i ==> (#[trigger] options@[j])@ != s@,
        decreases options@.len() - i,
    {
        if same_text(options[i], s) {
            return true;
        }
        i = i + 1;
    }
    false
}

/// A copy of every text in `v`.
pub fn clone_texts(v: &Vec<String>) -> (r: Vec<String>)
    ensures
        r@ == v@,
        r.deep_view() == v.deep_view(),
{
    let mut out: Vec<String> = Vec::new();
    let mut i: usize = 0;
    while i < v.len()
        invariant
            i <= v@.len(),
            out@ == v@.take(i as int),
        decreases v@.len() - i,
    {
        out.push(v[i].clone());
        i = i + 1;
    }
    assert(out.deep_view() =~= v.deep_view());
    out
}

/// A copy of an optional text.
pub fn clone_opt_text(v: &Option<String>) -> (r: Option<String>)
    ensures
        r == *v,
        r.deep_view() == v.deep_view(),
{
    match v {
        Some(s) => Some(s.clone()),
        None => None,
    }
}

// --- Search ------------------------------------------------------------------

/// `needle` stands at character position `i` of `hay`.
pub open spec fn occurs_at(hay: Seq<char>, needle: Seq<char>, i: int) -> bool {
    0 <= i && i + needle.len() <= hay.len() && hay.subrange(i, i + needle.len()) == needle
}

/// `needle` occurs somewhere in `hay`.
pub open spec fn occurs_in(hay: Seq<char>, needle: Seq<char>) -> bool {
    exists|i: int| occurs_at(hay, needle, i)
}

/// `i` is the first character position of `needle` in `hay`.
pub open spec fn occurs_first_at(hay: Seq<char>, needle: Seq<char>, i: int) -> bool {
    occurs_at(hay, needle, i) && forall|j: int| 0 <= j < i ==> !occurs_at(hay, needle, j)
}

/// Whether `needle` stands at position `at` of `hay`.
pub fn stands_at(hay: &Vec<char>, needle: &Vec<char>, at: usize) -> (r: bool)
    ensures
        r == occurs_at(hay@, needle@, at as int),
{
    let n: usize = hay.len();
    if at > n || needle.len() > n - at {
        return false;
    }
    let mut k: usize = 0;
    while k < needle.len()
        invariant
            at + needle@.len() <= n == hay@.len(),
            k <= needle@.len(),
            forall|m: int| 0 <= m < k ==> hay@[at + m] == needle@[m],
        decreases needle@.len() - k,
    {
        if hay[at + k] != needle[k] {
            assert(hay@.subrange(at as int, at + needle@.len())[k as int] != needle@[k as int]);
            return false;
        }
        k = k + 1;
    }
    assert(hay@.subrange(at as int, at + needle@.len()) == needle@);
    true
}

/// The first position of `needle` in `hay`.
pub fn find_chars(hay: &Vec<char>, needle: &Vec<char>) -> (r: Option<usize>)
    ensures
        match r {
            Some(i) => occurs_first_at(hay@, needle@, i as int),
            None => !occurs_in(hay@, needle@),
        },
{
    let mut i: usize = 0;
    while i <= hay.len()
        invariant
            i <= hay@.len() + 1,
            forall|j: int| 0 <= j < i ==> !occurs_at(hay@, needle@, j),
        decreases hay@.len() + 1 - i,
    {
        if stands_at(hay, needle, i) {
            return Some(i);
        }
        if i == hay.len() {
            assert forall|j: int| !occurs_at(hay@, needle@, j) by {}
            return None;
        }
        i = i + 1;
    }
    None
}

/// Whether `needle` occurs in `hay`.
pub fn contains_text(hay: &str, needle: &str) -> (r: bool)
    ensures
        r == occurs_in(hay@, needle@),
{
    find_chars(&chars_of(hay), &chars_of(needle)).is_some()
}

/// Some text of `needles` occurs in `hay`.
pub open spec fn any_occurs_in(hay: Seq<char>, needles: Seq<Seq<char>>) -> bool {
    exists|i: int| 0 <= i < needles.len() && occurs_in(hay, #[trigger] needles[i])
}

/// Whether some text of `needles` occurs in `hay`.
pub fn contains_any(hay: &str, needles: &Vec<String>) -> (r: bool)
    ensures
        r == any_occurs_in(hay@, needles.deep_view()),
{
    let mut i: usize = 0;
    while i < needles.len()
        invariant
            i <= needles@.len(),
            forall|j: int| 0 <= j < i ==> !occurs_in(hay@, #[trigger] needles.deep_view()[j]),
        decreases needles@.len() - i,
    {
        if contains_text(hay, needles[i].as_str()) {
            assert(occurs_in(hay@, needles.deep_view()[i as int]));
            return true;
        }
        i = i + 1;
    }
    false
}

// --- Character classes and case folding --------------------------------------

/// The value of `char::is_alphanumeric`.
pub uninterp spec fn alphanumeric(c: char) -> bool;

/// The value of `char::is_uppercase`.
pub uninterp spec fn uppercase(c: char) -> bool;

/// The value of `char::is_alphabetic`.
pub uninterp spec fn alphabetic(c: char) -> bool;

/// The character has the Unicode property `White_Space`.
pub open spec fn whitespace(c: char) -> bool {
    ||| '\u{9}' <= c <= '\u{d}'
    ||| c == ' '
    ||| c == '\u{85}'
    ||| c == '\u{a0}'
    ||| c == '\u{1680}'
    ||| '\u{2000}' <= c <= '\u{200a}'
    ||| c == '\u{2028}'
    ||| c == '\u{2029}'
    ||| c == '\u{202f}'
    ||| c == '\u{205f}'
    ||| c == '\u{3000}'
}

/// The text that `str::to_lowercase` returns.
pub uninterp spec fn lowercase_of(s: Seq<char>) -> Seq<char>;

/// The text that `char::to_uppercase` yields.
pub uninterp spec fn uppercase_of(c: char) -> Seq<char>;

/// The text that `char::to_lowercase` yields.
pub uninterp spec fn lowercase_of_char(c: char) -> Seq<char>;

/// `char::is_alphanumeric`: the Unicode letter-or-number class, named and not
/// spelled out here.
#[verifier::external_body]
pub(crate) fn is_alphanumeric(c: char) -> (r: bool)
    ensures
        r == alphanumeric(c),
{
    c.is_alphanumeric()
}

/// `char::is_uppercase`: the Unicode uppercase property, named and not spelled
/// out here.
#[verifier::external_body]
pub(crate) fn is_uppercase(c: char) -> (r: bool)
    ensures
        r == uppercase(c),
{
    c.is_uppercase()
}

/// `char::is_alphabetic`: the Unicode alphabetic property, named and not
/// spelled out here.
#[verifier::external_body]
pub(crate) fn is_alphabetic(c: char) -> (r: bool)
    ensures
        r == alphabetic(c),
{
    c.is_alphabetic()
}

/// `char::is_whitespace`: true of the characters with the Unicode property
/// `White_Space`, and of no others.
#[verifier::external_body]
pub(crate) fn is_whitespace(c: char) -> (r: bool)
    ensures
        r == whitespace(c),
{
    c.is_whitespace()
}

/// `str::to_lowercase`: the Unicode lowercase mapping of a whole text, named
/// and not spelled out here.
#[verifier::external_body]
pub(crate) fn lowercase(s: &str) -> (r: String)
    ensures
        r@ == lowercase_of(s@),
{
    s.to_lowercase()
}

/// `char::to_lowercase`: the Unicode lowercase mapping of one character, named
/// and not spelled out here; it yields one character or more.
#[verifier::external_body]
pub(crate) fn lowercase_char(c: char) -> (r: String)
    ensures
        r@ == lowercase_of_char(c),
        r@.len() > 0,
{
    c.to_lowercase().collect()
}

/// `char::to_uppercase`: the Unicode uppercase mapping of one character, named
/// and not spelled out here.
#[verifier::external_body]
pub(crate) fn uppercase_char(c: char) -> (r: String)
    ensures
        r@ == uppercase_of(c),
{
    c.to_uppercase().collect()
}

/// The texts in lowercase.
pub open spec fn lowercase_all(texts: Seq<Seq<char>>) -> Seq<Seq<char>> {
    texts.map_values(|t: Seq<char>| lowercase_of(t))
}

/// The texts in lowercase.
pub fn lowercase_each(texts: &Vec<String>) -> (r: Vec<String>)
    ensures
        r.deep_view() == lowercase_all(texts.deep_view()),
{
    let mut out: Vec<String> = Vec::new();
    let mut i: usize = 0;
    while i < texts.len()
        invariant
            i <= texts@.len(),
            out@.len() == i,
            forall|k: int| 0 <= k < i ==> (#[trigger] out@[k])@ == lowercase_of(texts@[k]@),
        decreases texts@.len() - i,
    {
        out.push(lowercase(texts[i].as_str()));
        i = i + 1;
    }
    assert(out.deep_view() =~= lowercase_all(texts.deep_view()));
    out
}

/// Every character of `s` is white space.
pub open spec fn blank(s: Seq<char>) -> bool {
    forall|i: int| 0 <= i < s.len() ==> whitespace(#[trigger] s[i])
}

/// Whether nothing is left of `s` once white space is trimmed from both ends.
pub fn is_blank(s: &str) -> (r: bool)
    ensures
        r == blank(s@),
{
    let chars = chars_of(s);
    let mut i: usize = 0;
    while i < chars.len()
        invariant
            chars@ == s@,
            i <= chars@.len(),
            forall|j: int| 0 <= j < i ==> whitespace(#[trigger] s@[j]),
        decreases chars@.len() - i,
    {
        if !is_whitespace(chars[i]) {
            return false;
        }
        i = i + 1;
    }
    true
}

/// `s` without its leading white space.
pub open spec fn trimmed_start(s: Seq<char>) -> Seq<char>
    decreases s.len(),
{
    if s.len() > 0 && whitespace(s[0]) {
        trimmed_start(s.drop_first())
    } else {
        s
    }
}

/// `s` without its trailing white space.
pub open spec fn trimmed_end(s: Seq<char>) -> Seq<char>
    decreases s.len(),
{
    if s.len() > 0 && whitespace(s.last()) {
        trimmed_end(s.drop_last())
    } else {
        s
    }
}

/// `s` without the white space at either end.
pub open spec fn trimmed(s: Seq<char>) -> Seq<char> {
    trimmed_end(trimmed_start(s))
}

/// The position of the first character of `chars` that is not white space.
pub fn skip_whitespace(chars: &Vec<char>, from: usize, to: usize) -> (r: usize)
    requires
        from <= to <= chars@.len(),
    ensures
        from <= r <= to,
        chars@.subrange(r as int, to as int) == trimmed_start(
            chars@.subrange(from as int, to as int),
        ),
{
    let mut i: usize = from;
    while i < to && is_whitespace(chars[i])
        invariant
            from <= i <= to <= chars@.len(),
            trimmed_start(chars@.subrange(i as int, to as int)) == trimmed_start(
                chars@.subrange(from as int, to as int),
            ),
        decreases to - i,
    {
        assert(chars@.subrange(i as int, to as int).drop_first() == chars@.subrange(
            i + 1,
            to as int,
        ));
        i = i + 1;
    }
    i
}

/// The text of `s` without the white space at either end.
pub fn trim(s: &str) -> (r: String)
    ensures
        r@ == trimmed(s@),
{
    let chars = chars_of(s);
    let n: usize = chars.len();
    assert(chars@.subrange(0, n as int) == s@);
    let start = skip_whitespace(&chars, 0, n);
    let mut end: usize = n;
    while end > start && is_whitespace(chars[end - 1])
        invariant
            start <= end <= chars@.len(),
            trimmed_end(chars@.subrange(start as int, end as int)) == trimmed_end(
                trimmed_start(s@),
            ),
        decreases end,
    {
        assert(chars@.subrange(start as int, end as int).drop_last() == chars@.subrange(
            start as int,
            end - 1,
        ));
        end = end - 1;
    }
    text_of(&chars, start, end)
}

// --- Joining -----------------------------------------------------------------

/// The texts of `parts` with `sep` between each two.
pub open spec fn joined(parts: Seq<Seq<char>>, sep: Seq<char>) -> Seq<char>
    decreases parts.len(),
{
    if parts.len() == 0 {
        Seq::empty()
    } else if parts.len() == 1 {
        parts[0]
    } else {
        joined(parts.drop_last(), sep) + sep + parts.last()
    }
}

/// The texts of `parts` joined by `sep`.
pub fn join(parts: &Vec<String>, sep: &str) -> (r: String)
    ensures
        r@ == joined(parts.deep_view(), sep@),
{
    let mut out = String::new();
    let mut i: usize = 0;
    while i < parts.len()
        invariant
            i <= parts@.len(),
            out@ == joined(parts.deep_view().take(i as int), sep@),
        decreases parts@.len() - i,
    {
        let ghost before = parts.deep_view().take(i as int);
        let ghost after = parts.deep_view().take(i + 1);
        assert(after.drop_last() == before);
        if i > 0 {
            out.append(sep);
        }
        out.append(parts[i].as_str());
        assert(out@ == joined(after, sep@));
        i = i + 1;
    }
    assert(parts.deep_view().take(i as int) == parts.deep_view());
    out
}

// --- Decimal numerals --------------------------------------------------------

/// The character of a decimal digit.
pub open spec fn digit(d: int) -> char {
    (48 + d) as char
}

/// The decimal numeral of `n`, without leading zeros.
pub open spec fn decimal_of(n: nat) -> Seq<char>
    decreases n,
{
    if n < 10 {
        seq![digit(n as int)]
    } else {
        decimal_of(n / 10).push(digit((n % 10) as int))
    }
}

/// The decimal numeral of an integer, with a sign where it is negative.
pub open spec fn signed_decimal_of(n: int) -> Seq<char> {
    if n < 0 {
        seq!['-'] + decimal_of((-n) as nat)
    } else {
        decimal_of(n as nat)
    }
}

/// The decimal numeral of `n`.
pub fn decimal(n: u128) -> (r: String)
    ensures
        r@ == decimal_of(n as nat),
    decreases n,
{
    if n < 10 {
        let mut out = String::new();
        out.push((48u8 + n as u8) as char);
        out
    } else {
        let mut out = decimal(n / 10);
        out.push((48u8 + (n % 10) as u8) as char);
        out
    }
}

/// The decimal numeral of `n`, with a sign where it is negative.
pub fn signed_decimal(n: i64) -> (r: String)
    ensures
        r@ == signed_decimal_of(n as int),
{
    if n < 0 {
        let mut out = String::new();
        out.push('-');
        let magnitude: u128 = (-(n as i128)) as u128;
        out.append(decimal(magnitude).as_str());
        out
    } else {
        decimal(n as u128)
    }
}

/// `c` is a decimal digit.
pub open spec fn is_digit(c: char) -> bool {
    '0' <= c <= '9'
}

/// `s` is a non-empty run of decimal digits.
pub open spec fn all_digits(s: Seq<char>) -> bool {
    s.len() > 0 && forall|i: int| 0 <= i < s.len() ==> is_digit(#[trigger] s[i])
}

/// The number that a run of decimal digits stands for.
pub open spec fn numeral_value(s: Seq<char>) -> nat
    decreases s.len(),
{
    if s.len() == 0 {
        0
    } else {
        10 * numeral_value(s.drop_last()) + (s.last() as nat - 48) as nat
    }
}

/// The number that `s` stands for, where `s` is a run of digits and the number
/// is at most `max`.
pub open spec fn numeral_up_to(s: Seq<char>, max: nat) -> Option<nat> {
    if all_digits(s) && numeral_value(s) <= max {
        Some(numeral_value(s))
    } else {
        None
    }
}

/// Reading further digits never makes a number smaller.
proof fn lemma_numeral_grows(s: Seq<char>, i: int)
    requires
        0 <= i <= s.len(),
    ensures
        numeral_value(s.take(i)) <= numeral_value(s),
    decreases s.len() - i,
{
    if i < s.len() {
        lemma_numeral_grows(s, i + 1);
        assert(s.take(i + 1).drop_last() == s.take(i));
    } else {
        assert(s.take(i) == s);
    }
}

/// The number that the digits `chars[from..to]` stand for, where it is at most
/// `max`.
pub fn parse_numeral(chars: &Vec<char>, from: usize, to: usize, max: u64) -> (r: Option<u64>)
    requires
        from <= to <= chars@.len(),
    ensures
        match r {
            Some(n) => numeral_up_to(chars@.subrange(from as int, to as int), max as nat) == Some(
                n as nat,
            ),
            None => numeral_up_to(chars@.subrange(from as int, to as int), max as nat) is None,
        },
{
    let ghost s = chars@.subrange(from as int, to as int);
    if from == to {
        return None;
    }
    let mut value: u128 = 0;
    let mut i: usize = from;
    while i < to
        invariant
            from <= i <= to <= chars@.len(),
            s == chars@.subrange(from as int, to as int),
            value == numeral_value(s.take(i - from)),
            value <= max,
            forall|j: int| 0 <= j < i - from ==> is_digit(#[trigger] s[j]),
        decreases to - i,
    {
        let c = chars[i];
        assert(s[i - from] == c);
        if c < '0' || c > '9' {
            assert(!is_digit(s[i - from]));
            return None;
        }
        assert(s.take(i - from + 1).drop_last() == s.take(i - from));
        value = value * 10 + (c as u8 - 48) as u128;
        if value > max as u128 {
            proof {
                lemma_numeral_grows(s, i - from + 1);
            }
            return None;
        }
        i = i + 1;
    }
    assert(s.take(to - from) == s);
    Some(value as u64)
}

// --- Laws --------------------------------------------------------------------

/// A text occurs in another exactly where the other is made of something, the
/// text, and something more.
pub proof fn what_occurs_stands_between_two_parts(hay: Seq<char>, needle: Seq<char>)
    ensures
        occurs_in(hay, needle) <==> exists|before: Seq<char>, after: Seq<char>|
            hay == #[trigger] (before + needle + after),
{
    if occurs_in(hay, needle) {
        let i = choose|i: int| occurs_at(hay, needle, i);
        assert(hay =~= hay.take(i) + needle + hay.skip(i + needle.len())) by {
            let middle = hay.subrange(i, i + needle.len());
            assert forall|k: int| 0 <= k < needle.len() implies hay[i + k] == needle[k] by {
                assert(middle[k] == hay[i + k]);
            }
        }
    }
    if exists|before: Seq<char>, after: Seq<char>| hay == #[trigger] (before + needle + after) {
        let (before, after) = choose|before: Seq<char>, after: Seq<char>|
            hay == #[trigger] (before + needle + after);
        let i = before.len() as int;
        assert(hay.subrange(i, i + needle.len()) =~= needle);
        assert(occurs_at(hay, needle, i));
    }
}

/// One of some texts occurs in another exactly where there is one among them
/// that does, at whatever place of the list it stands.
pub proof fn any_of_the_texts_may_occur(hay: Seq<char>, needles: Seq<Seq<char>>)
    ensures
        any_occurs_in(hay, needles) <==> exists|needle: Seq<char>| #[trigger]
            needles.contains(needle) && occurs_in(hay, needle),
        forall|i: int|
            0 <= i < needles.len() && occurs_in(hay, #[trigger] needles[i]) ==> any_occurs_in(
                hay,
                needles,
            ),
{
    if any_occurs_in(hay, needles) {
        let i = choose|i: int| 0 <= i < needles.len() && occurs_in(hay, #[trigger] needles[i]);
        assert(needles.contains(needles[i]));
    }
    if exists|needle: Seq<char>| #[trigger] needles.contains(needle) && occurs_in(hay, needle) {
        let needle = choose|needle: Seq<char>| #[trigger]
            needles.contains(needle) && occurs_in(hay, needle);
        let i = choose|i: int| 0 <= i < needles.len() && needles[i] == needle;
        assert(occurs_in(hay, needles[i]));
    }
}

/// The texts in lowercase stand where the texts stood, each in lowercase.
pub proof fn lowercase_keeps_places(texts: Seq<Seq<char>>)
    ensures
        lowercase_all(texts).len() == texts.len(),
        forall|i: int|
            0 <= i < texts.len() ==> #[trigger] lowercase_all(texts)[i] == lowercase_of(texts[i]),
{
}

proof fn lemma_trimmed_start(s: Seq<char>)
    ensures
        trimmed_start(s).len() <= s.len(),
        s == s.take(s.len() - trimmed_start(s).len()) + trimmed_start(s),
        blank(s.take(s.len() - trimmed_start(s).len())),
        trimmed_start(s).len() > 0 ==> !whitespace(trimmed_start(s)[0]),
    decreases s.len(),
{
    if s.len() > 0 && whitespace(s[0]) {
        let rest = s.drop_first();
        lemma_trimmed_start(rest);
        let n = rest.len() - trimmed_start(rest).len();
        assert(s.take(n + 1) =~= seq![s[0]] + rest.take(n));
        assert(s =~= seq![s[0]] + rest);
        assert(blank(s.take(n + 1))) by {
            assert forall|i: int| 0 <= i < n + 1 implies whitespace(
                #[trigger] s.take(n + 1)[i],
            ) by {
                if i > 0 {
                    assert(rest.take(n)[i - 1] == s.take(n + 1)[i]);
                }
            }
        }
        assert(s =~= s.take(n + 1) + trimmed_start(rest));
    } else {
        assert(s =~= s.take(0) + s);
    }
}

proof fn lemma_trimmed_end(s: Seq<char>)
    ensures
        trimmed_end(s).len() <= s.len(),
        trimmed_end(s) == s.take(trimmed_end(s).len() as int),
        blank(s.skip(trimmed_end(s).len() as int)),
        trimmed_end(s).len() > 0 ==> !whitespace(trimmed_end(s).last()),
    decreases s.len(),
{
    if s.len() > 0 && whitespace(s.last()) {
        let rest = s.drop_last();
        lemma_trimmed_end(rest);
        let n = trimmed_end(rest).len() as int;
        assert(s.take(n) =~= rest.take(n));
        assert(s.skip(n) =~= rest.skip(n).push(s.last()));
        assert forall|i: int| 0 <= i < s.skip(n).len() implies whitespace(
            #[trigger] s.skip(n)[i],
        ) by {
            if i < rest.skip(n).len() {
                assert(rest.skip(n)[i] == s.skip(n)[i]);
            }
        }
    } else {
        assert(s.take(s.len() as int) =~= s);
    }
}

/// Trimming takes white space off both ends, all of it, and nothing else.
pub proof fn trimming_takes_off_white_space(s: Seq<char>)
    ensures
        exists|before: Seq<char>, after: Seq<char>|
            blank(before) && blank(after) && s == #[trigger] (before + trimmed(s) + after),
        trimmed(s).len() > 0 ==> !whitespace(trimmed(s)[0]) && !whitespace(trimmed(s).last()),
        trimmed(s).len() == 0 <==> blank(s),
{
    let t = trimmed_start(s);
    lemma_trimmed_start(s);
    lemma_trimmed_end(t);
    let before = s.take(s.len() - t.len());
    let after = t.skip(trimmed(s).len() as int);
    assert(s =~= before + trimmed(s) + after);
    if blank(s) && t.len() > 0 {
        assert(s[s.len() - t.len()] == t[0]);
    }
    if trimmed(s).len() == 0 {
        assert forall|i: int| 0 <= i < s.len() implies whitespace(#[trigger] s[i]) by {
            if i < before.len() {
                assert(before[i] == s[i]);
            } else {
                assert(after[i - before.len()] == s[i]);
            }
        }
    }
}

/// Texts are joined with the separator between each two, and nowhere else.
pub proof fn joining_puts_the_separator_between(
    a: Seq<Seq<char>>,
    b: Seq<Seq<char>>,
    x: Seq<char>,
    sep: Seq<char>,
)
    ensures
        joined(Seq::empty(), sep) == Seq::<char>::empty(),
        joined(seq![x], sep) == x,
        a.len() > 0 && b.len() > 0 ==> joined(a + b, sep) == joined(a, sep) + sep + joined(b, sep),
    decreases b.len(),
{
    if a.len() > 0 && b.len() > 0 {
        let all = a + b;
        if b.len() == 1 {
            assert(all.drop_last() =~= a);
            assert(all.last() == b[0]);
        } else {
            let front = b.drop_last();
            joining_puts_the_separator_between(a, front, x, sep);
            assert(all.drop_last() =~= a + front);
            assert(all.last() == b.last());
            assert(joined(all, sep) =~= joined(a, sep) + sep + joined(b, sep));
        }
    }
}

/// What the digits stand for: a digit for its value, and a numeral with one more
/// digit for ten times as much and the digit.
pub proof fn numerals_are_decimal(s: Seq<char>, d: int)
    requires
        0 <= d < 10,
    ensures
        numeral_value(Seq::empty()) == 0,
        numeral_value(s.push(digit(d))) == 10 * numeral_value(s) + d,
        is_digit(digit(d)),
        digit(d) as int == '0' as int + d,
{
    assert(s.push(digit(d)).drop_last() =~= s);
}

/// The numeral of a number is made of digits, stands for that number, and does
/// not start with a zero unless it is that of zero.
pub proof fn a_numeral_reads_back(n: nat)
    ensures
        all_digits(decimal_of(n)),
        numeral_value(decimal_of(n)) == n,
        n > 0 ==> decimal_of(n)[0] != '0',
        n == 0 ==> decimal_of(n) == seq!['0'],
    decreases n,
{
    if n < 10 {
        let s = decimal_of(n);
        numerals_are_decimal(Seq::empty(), n as int);
        assert(s =~= Seq::<char>::empty().push(digit(n as int)));
    } else {
        a_numeral_reads_back(n / 10);
        numerals_are_decimal(decimal_of(n / 10), (n % 10) as int);
        assert(n == 10 * (n / 10) + n % 10);
    }
}

/// A text is read as a number exactly where it is made of digits, at least one,
/// and stands for no more than the limit.
pub proof fn only_numerals_are_read(s: Seq<char>, max: nat, n: nat)
    ensures
        numeral_up_to(s, max) == Some(n) <==> {
            &&& s.len() > 0
            &&& forall|i: int| 0 <= i < s.len() ==> '0' <= #[trigger] s[i] <= '9'
            &&& numeral_value(s) == n
            &&& n <= max
        },
{
    if all_digits(s) {
        assert forall|i: int| 0 <= i < s.len() implies '0' <= #[trigger] s[i] <= '9' by {
            assert(is_digit(s[i]));
        }
    }
}

/// A negative number has a sign before the numeral of its magnitude.
pub proof fn a_sign_stands_for_less_than_zero(n: int)
    ensures
        n >= 0 ==> signed_decimal_of(n) == decimal_of(n as nat),
        n < 0 ==> signed_decimal_of(n) == seq!['-'] + decimal_of((0 - n) as nat),
{
}

/// Where a text occurs first: it stands there, character by character, and it
/// stands nowhere before.
pub proof fn the_first_place_comes_first(hay: Seq<char>, needle: Seq<char>, i: int)
    ensures
        occurs_at(hay, needle, i) <==> {
            &&& 0 <= i
            &&& i + needle.len() <= hay.len()
            &&& forall|k: int| 0 <= k < needle.len() ==> hay[i + k] == #[trigger] needle[k]
        },
        occurs_first_at(hay, needle, i) <==> occurs_at(hay, needle, i) && forall|j: int|
            0 <= j < i ==> !occurs_at(hay, needle, j),
{
    if 0 <= i && i + needle.len() <= hay.len() {
        let part = hay.subrange(i, i + needle.len());
        if part == needle {
            assert forall|k: int| 0 <= k < needle.len() implies hay[i + k] == #[trigger] needle[k] by {
                assert(part[k] == hay[i + k]);
            }
        }
        if forall|k: int| 0 <= k < needle.len() ==> hay[i + k] == #[trigger] needle[k] {
            assert(part =~= needle);
        }
    }
}

/// A text is blank exactly where all that it holds is white space.
pub proof fn a_blank_text_holds_white_space_only(s: Seq<char>)
    ensures
        blank(s) <==> forall|c: char| #[trigger] s.contains(c) ==> whitespace(c),
{
    if blank(s) {
        assert forall|c: char| #[trigger] s.contains(c) implies whitespace(c) by {
            let i = choose|i: int| 0 <= i < s.len() && s[i] == c;
            assert(whitespace(s[i]));
        }
    }
    if forall|c: char| #[trigger] s.contains(c) ==> whitespace(c) {
        assert forall|i: int| 0 <= i < s.len() implies whitespace(#[trigger] s[i]) by {
            assert(s.contains(s[i]));
        }
    }
}

} // verus!
