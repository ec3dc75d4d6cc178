//! Text produced and read by the calculator: readable integers, XML-safe
//! text, hexadecimal colours, and the spoken-feedback query switch.

use vstd::prelude::*;

verus! {

/// Appends one character to a string.
///
/// Wraps `String::push`, which the standard library documents as appending the
/// given `char` to the end of the `String`.
#[verifier::external_body]
pub(crate) fn push_char(text: &mut String, c: char)
    ensures
        final(text)@ == old(text)@.push(c),
{
    text.push(c);
}

/// Copies the characters of a string slice into a vector.
fn chars_of(text: &str) -> (chars: Vec<char>)
    ensures
        chars@ == text@,
{
    let mut chars: Vec<char> = Vec::new();
    for c in iter: text.chars()
        invariant
            iter.seq() == text@,
            chars@ == iter.seq().take(iter.index() as int),
    {
        chars.push(c);
        proof {
            assert(chars@ =~= iter.seq().take(iter.index() + 1));
        }
    }
    chars
}

/// The decimal digit character for `d < 10`.
pub open spec fn digit_char(d: nat) -> char {
    if d == 0 {
        '0'
    } else if d == 1 {
        '1'
    } else if d == 2 {
        '2'
    } else if d == 3 {
        '3'
    } else if d == 4 {
        '4'
    } else if d == 5 {
        '5'
    } else if d == 6 {
        '6'
    } else if d == 7 {
        '7'
    } else if d == 8 {
        '8'
    } else {
        '9'
    }
}

/// The decimal digits of `n`, most significant first, without leading zeros.
pub open spec fn decimal_digits(n: nat) -> Seq<char>
    decreases n,
{
    if n < 10 {
        seq![digit_char(n)]
    } else {
        decimal_digits(n / 10).push(digit_char(n % 10))
    }
}

/// The three digits of `r < 1000`, with leading zeros.
pub open spec fn three_digits(r: nat) -> Seq<char> {
    seq![digit_char(r / 100), digit_char((r / 10) % 10), digit_char(r % 10)]
}

/// The decimal digits of `n` in groups of three separated by commas.
pub open spec fn grouped_digits(n: nat) -> Seq<char>
    decreases n,
{
    if n < 1000 {
        decimal_digits(n)
    } else {
        grouped_digits(n / 1000) + seq![','] + three_digits(n % 1000)
    }
}

fn digit(d: u64) -> (c: char)
    requires
        d < 10,
    ensures
        c == digit_char(d as nat),
{
    match d {
        0 => '0',
        1 => '1',
        2 => '2',
        3 => '3',
        4 => '4',
        5 => '5',
        6 => '6',
        7 => '7',
        8 => '8',
        _ => '9',
    }
}

fn push_decimal(text: &mut String, value: u64)
    ensures
        final(text)@ == old(text)@ + decimal_digits(value as nat),
    decreases value,
{
    if value >= 10 {
        push_decimal(text, value / 10);
    }
    push_char(text, digit(value % 10));
    proof {
        if value < 10 {
            assert(value % 10 == value);
        }
    }
}

fn push_grouped(text: &mut String, value: u64)
    ensures
        final(text)@ == old(text)@ + grouped_digits(value as nat),
    decreases value,
{
    if value < 1000 {
        push_decimal(text, value);
    } else {
        push_grouped(text, value / 1000);
        push_char(text, ',');
        let rest: u64 = value % 1000;
        push_char(text, digit(rest / 100));
        push_char(text, digit((rest / 10) % 10));
        push_char(text, digit(rest % 10));
    }
}

/// Decimal text of an unsigned integer.
pub fn decimal_text(value: u64) -> (text: String)
    ensures
        text@ == decimal_digits(value as nat),
{
    let mut text = String::new();
    push_decimal(&mut text, value);
    text
}

/// Formats an integer with thousands separators, such as `12,345,678`.
pub fn format_integer(value: u64) -> (text: String)
    ensures
        text@ == grouped_digits(value as nat),
{
    let mut text = String::new();
    push_grouped(&mut text, value);
    text
}

/// The XML text for one character: the five markup characters become
/// entity references, every other character stands for itself.
pub open spec fn xml_char(c: char) -> Seq<char> {
    if c == '&' {
        "&amp;"@
    } else if c == '<' {
        "&lt;"@
    } else if c == '>' {
        "&gt;"@
    } else if c == '"' {
        "&quot;"@
    } else if c == '\'' {
        "&apos;"@
    } else {
        seq![c]
    }
}

/// The XML text of a character sequence, escaped character by character.
pub open spec fn xml_escaped(s: Seq<char>) -> Seq<char>
    decreases s.len(),
{
    if s.len() == 0 {
        Seq::empty()
    } else {
        xml_escaped(s.drop_last()) + xml_char(s.last())
    }
}

/// Escapes `&`, `<`, `>`, `"` and `'` for use in XML text and attributes.
pub fn xml_text(value: &str) -> (escaped: String)
    ensures
        escaped@ == xml_escaped(value@),
{
    let chars = chars_of(value);
    let mut escaped = String::new();
    let mut i: usize = 0;
    while i < chars.len()
        invariant
            i <= chars@.len(),
            escaped@ == xml_escaped(chars@.take(i as int)),
        decreases chars.len() - i,
    {
        proof {
            assert(chars@.take(i + 1).drop_last() =~= chars@.take(i as int));
        }
        let c = chars[i];
        if c == '&' {
            escaped.append("&amp;");
        } else if c == '<' {
            escaped.append("&lt;");
        } else if c == '>' {
            escaped.append("&gt;");
        } else if c == '"' {
            escaped.append("&quot;");
        } else if c == '\'' {
            escaped.append("&apos;");
        } else {
            push_char(&mut escaped, c);
        }
        i = i + 1;
    }
    proof {
        assert(chars@.take(chars@.len() as int) =~= chars@);
    }
    escaped
}

/// The lower-case hexadecimal digit character for `d < 16`.
pub open spec fn hex_digit_char(d: nat) -> char {
    if d < 10 {
        digit_char(d)
    } else if d == 10 {
        'a'
    } else if d == 11 {
        'b'
    } else if d == 12 {
        'c'
    } else if d == 13 {
        'd'
    } else if d == 14 {
        'e'
    } else {
        'f'
    }
}

/// Two lower-case hexadecimal digits of a byte.
pub open spec fn hex_byte(b: u8) -> Seq<char> {
    seq![hex_digit_char((b / 16) as nat), hex_digit_char((b % 16) as nat)]
}

fn hex_digit(d: u8) -> (c: char)
    requires
        d < 16,
    ensures
        c == hex_digit_char(d as nat),
{
    match d {
        0 => '0',
        1 => '1',
        2 => '2',
        3 => '3',
        4 => '4',
        5 => '5',
        6 => '6',
        7 => '7',
        8 => '8',
        9 => '9',
        10 => 'a',
        11 => 'b',
        12 => 'c',
        13 => 'd',
        14 => 'e',
        _ => 'f',
    }
}

fn push_hex_byte(text: &mut String, b: u8)
    ensures
        final(text)@ == old(text)@ + hex_byte(b),
{
    push_char(text, hex_digit(b / 16));
    push_char(text, hex_digit(b % 16));
}

/// An opaque colour as `#rrggbb`.
pub fn hex_color(red: u8, green: u8, blue: u8) -> (text: String)
    ensures
        text@ == seq!['#'] + hex_byte(red) + hex_byte(green) + hex_byte(blue),
{
    let mut text = String::new();
    push_char(&mut text, '#');
    push_hex_byte(&mut text, red);
    push_hex_byte(&mut text, green);
    push_hex_byte(&mut text, blue);
    text
}

/// A colour with an alpha channel as `#rrggbbaa`.
pub fn hex_color_alpha(red: u8, green: u8, blue: u8, alpha: u8) -> (text: String)
    ensures
        text@ == seq!['#'] + hex_byte(red) + hex_byte(green) + hex_byte(blue) + hex_byte(alpha),
{
    let mut text = hex_color(red, green, blue);
    push_hex_byte(&mut text, alpha);
    text
}

/// The text with every trailing `0` removed.
pub open spec fn without_trailing_zeros(s: Seq<char>) -> Seq<char>
    decreases s.len(),
{
    if s.len() > 0 && s.last() == '0' {
        without_trailing_zeros(s.drop_last())
    } else {
        s
    }
}

/// A decimal number's text without redundant fraction digits: when it has a
/// decimal point, trailing zeros and then a bare trailing point are removed.
pub open spec fn compact_decimal_text(s: Seq<char>) -> Seq<char> {
    if s.contains('.') {
        let t = without_trailing_zeros(s);
        if t.len() > 0 && t.last() == '.' {
            t.drop_last()
        } else {
            t
        }
    } else {
        s
    }
}

/// Removes redundant zeros after the decimal point, and the point itself when
/// nothing follows it, so `12.500` becomes `12.5` and `300.00` becomes `300`.
pub fn trim_decimal_zeros(text: &str) -> (trimmed: String)
    ensures
        trimmed@ == compact_decimal_text(text@),
{
    let chars = chars_of(text);
    let mut has_point = false;
    let mut i: usize = 0;
    while i < chars.len()
        invariant
            i <= chars@.len(),
            has_point == chars@.take(i as int).contains('.'),
        decreases chars.len() - i,
    {
        proof {
            let prefix = chars@.take(i as int);
            let next = chars@.take(i + 1);
            assert(next == prefix.push(chars@[i as int]));
            if prefix.contains('.') {
                let w = choose|w: int| 0 <= w < prefix.len() && prefix[w] == '.';
                assert(next[w] == '.');
            }
            if chars@[i as int] == '.' {
                assert(next[i as int] == '.');
            }
            if next.contains('.') {
                let w = choose|w: int| 0 <= w < next.len() && next[w] == '.';
                if w < i {
                    assert(prefix[w] == '.');
                }
            }
        }
        if chars[i] == '.' {
            has_point = true;
        }
        i = i + 1;
    }
    proof {
        assert(chars@.take(chars@.len() as int) =~= chars@);
    }
    let mut end: usize = chars.len();
    if has_point {
        while end > 0 && chars[end - 1] == '0'
            invariant
                end <= chars@.len(),
                without_trailing_zeros(chars@) == without_trailing_zeros(chars@.take(end as int)),
            decreases end,
        {
            proof {
                assert(chars@.take(end as int).drop_last() =~= chars@.take(end - 1));
            }
            end = end - 1;
        }
        proof {
            assert(without_trailing_zeros(chars@.take(end as int)) == chars@.take(end as int));
        }
        if end > 0 && chars[end - 1] == '.' {
            end = end - 1;
            proof {
                assert(chars@.take(end + 1).drop_last() =~= chars@.take(end as int));
            }
        }
    }
    let mut trimmed = String::new();
    let mut k: usize = 0;
    while k < end
        invariant
            end <= chars@.len(),
            k <= end,
            trimmed@ == chars@.take(k as int),
        decreases end - k,
    {
        push_char(&mut trimmed, chars[k]);
        k = k + 1;
        proof {
            assert(trimmed@ =~= chars@.take(k as int));
        }
    }
    proof {
        if !has_point {
            assert(chars@.take(end as int) =~= chars@);
        }
    }
    trimmed
}

/// The text after every leading `?` is removed.
pub open spec fn without_leading_questions(s: Seq<char>) -> Seq<char>
    decreases s.len(),
{
    if s.len() > 0 && s[0] == '?' {
        without_leading_questions(s.drop_first())
    } else {
        s
    }
}

/// Whether `s[a..b]` is one of the `&`-separated parameters of `s`.
pub open spec fn is_parameter(s: Seq<char>, a: int, b: int) -> bool {
    &&& 0 <= a <= b <= s.len()
    &&& (a == 0 || s[a - 1] == '&')
    &&& (b == s.len() || s[b] == '&')
    &&& forall|k: int| a <= k < b ==> s[k] != '&'
}

/// Whether some `&`-separated parameter of `s` is exactly `parameter`.
pub open spec fn has_parameter(s: Seq<char>, parameter: Seq<char>) -> bool {
    exists|a: int, b: int| is_parameter(s, a, b) && s.subrange(a, b) == parameter
}

/// Whether a URL query explicitly enables spoken feedback: after the leading
/// `?`, one of its parameters is `spoken=1` or `spoken=true`.
pub open spec fn spoken_feedback_query(query: Seq<char>) -> bool {
    let parameters = without_leading_questions(query);
    has_parameter(parameters, "spoken=1"@) || has_parameter(parameters, "spoken=true"@)
}

/// Whether `s[a..b]` equals `target`.
fn range_equals(s: &Vec<char>, a: usize, b: usize, target: &Vec<char>) -> (equal: bool)
    requires
        a <= b <= s@.len(),
    ensures
        equal == (s@.subrange(a as int, b as int) == target@),
{
    if b - a != target.len() {
        proof {
            assert(s@.subrange(a as int, b as int).len() != target@.len());
        }
        return false;
    }
    let mut k: usize = 0;
    while k < target.len()
        invariant
            b - a == target@.len(),
            a <= b <= s@.len(),
            k <= target@.len(),
            forall|m: int| 0 <= m < k ==> s@[a + m] == target@[m],
        decreases target.len() - k,
    {
        if s[a + k] != target[k] {
            proof {
                assert(s@.subrange(a as int, b as int)[k as int] != target@[k as int]);
            }
            return false;
        }
        k = k + 1;
    }
    proof {
        assert(s@.subrange(a as int, b as int) =~= target@);
    }
    true
}

/// Removing leading `?` one at a time.
proof fn lemma_skip_question(s: Seq<char>, start: int)
    requires
        0 <= start < s.len(),
        s[start] == '?',
    ensures
        without_leading_questions(s.skip(start)) == without_leading_questions(s.skip(start + 1)),
{
    assert(s.skip(start).drop_first() =~= s.skip(start + 1));
}

/// Whether the URL query enables spoken feedback with `spoken=1` or
/// `spoken=true`.
pub fn spoken_feedback_requested(query: &str) -> (requested: bool)
    ensures
        requested == spoken_feedback_query(query@),
{
    let chars = chars_of(query);
    let mut start: usize = 0;
    proof {
        assert(chars@.skip(0) =~= chars@);
    }
    while start < chars.len() && chars[start] == '?'
        invariant
            start <= chars@.len(),
            without_leading_questions(chars@) == without_leading_questions(
                chars@.skip(start as int),
            ),
        decreases chars.len() - start,
    {
        proof {
            lemma_skip_question(chars@, start as int);
        }
        start = start + 1;
    }
    let mut rest: Vec<char> = Vec::new();
    let mut c: usize = start;
    while c < chars.len()
        invariant
            start <= c <= chars@.len(),
            rest@ == chars@.subrange(start as int, c as int),
        decreases chars.len() - c,
    {
        rest.push(chars[c]);
        c = c + 1;
        proof {
            assert(rest@ =~= chars@.subrange(start as int, c as int));
        }
    }
    proof {
        assert(rest@ =~= chars@.skip(start as int));
        assert(without_leading_questions(rest@) == rest@);
    }
    let ghost t = rest@;
    let enabled_one = chars_of("spoken=1");
    let enabled_true = chars_of("spoken=true");
    proof {
        reveal_strlit("spoken=1");
        reveal_strlit("spoken=true");
        assert(forall|k: int| 0 <= k < enabled_one@.len() ==> enabled_one@[k] != '&');
        assert(forall|k: int| 0 <= k < enabled_true@.len() ==> enabled_true@[k] != '&');
    }
    let mut segment_start: usize = 0;
    let mut i: usize = 0;
    while i < rest.len()
        invariant
            t == rest@,
            without_leading_questions(query@) == t,
            enabled_one@ == "spoken=1"@,
            enabled_true@ == "spoken=true"@,
            forall|k: int| 0 <= k < enabled_one@.len() ==> enabled_one@[k] != '&',
            forall|k: int| 0 <= k < enabled_true@.len() ==> enabled_true@[k] != '&',
            segment_start <= i <= rest@.len(),
            segment_start == 0 || t[segment_start - 1] == '&',
            forall|k: int| segment_start <= k < i ==> t[k] != '&',
            forall|a: int, b: int|
                #![trigger is_parameter(t, a, b)]
                is_parameter(t, a, b) && b < i ==> t.subrange(a, b) != "spoken=1"@
                    && t.subrange(a, b) != "spoken=true"@,
        decreases rest.len() - i,
    {
        if rest[i] == '&' {
            if range_equals(&rest, segment_start, i, &enabled_one) || range_equals(
                &rest,
                segment_start,
                i,
                &enabled_true,
            ) {
                proof {
                    assert(is_parameter(t, segment_start as int, i as int));
                }
                return true;
            }
            proof {
                assert forall|a: int, b: int|
                    is_parameter(t, a, b) && b == i implies t.subrange(a, b) != "spoken=1"@
                        && t.subrange(a, b) != "spoken=true"@ by {
                    if a < segment_start {
                        assert(t[segment_start - 1] == '&');
                    } else if a > segment_start {
                        assert(t[a - 1] == '&');
                    }
                }
            }
            segment_start = i + 1;
        }
        i = i + 1;
    }
    let last: usize = rest.len();
    if range_equals(&rest, segment_start, last, &enabled_one) || range_equals(
        &rest,
        segment_start,
        last,
        &enabled_true,
    ) {
        proof {
            assert(is_parameter(t, segment_start as int, last as int));
        }
        return true;
    }
    proof {
        assert forall|a: int, b: int| is_parameter(t, a, b) implies t.subrange(a, b) != "spoken=1"@
            && t.subrange(a, b) != "spoken=true"@ by {
            if b == last {
                if a < segment_start {
                    assert(t[segment_start - 1] == '&');
                } else if a > segment_start {
                    assert(t[a - 1] == '&');
                }
            }
        }
    }
    false
}

/// The decimal digits of `n >= 1000` are those of `n / 1000` followed by the
/// three digits of `n % 1000`.
proof fn lemma_decimal_digits_split(n: nat)
    requires
        n >= 1000,
    ensures
        decimal_digits(n) == decimal_digits(n / 1000) + three_digits(n % 1000),
{
    let r = n % 1000;
    assert(n / 10 / 10 == n / 100);
    assert(n / 100 / 10 == n / 1000);
    assert(r / 100 == (n / 100) % 10);
    assert((r / 10) % 10 == (n / 10) % 10);
    assert(r % 10 == n % 10);
    assert(decimal_digits(n) == decimal_digits(n / 10).push(digit_char(n % 10)));
    assert(decimal_digits(n / 10) == decimal_digits(n / 100).push(digit_char((n / 10) % 10)));
    assert(decimal_digits(n / 100) == decimal_digits(n / 1000).push(digit_char((n / 100) % 10)));
    assert(decimal_digits(n) =~= decimal_digits(n / 1000) + three_digits(r));
}

/// Formatting with separators only inserts commas: removing them gives back
/// the plain decimal digits.
pub proof fn lemma_grouping_only_inserts_commas(n: nat)
    ensures
        grouped_digits(n).filter(|c: char| c != ',') == decimal_digits(n),
    decreases n,
{
    let keep = |c: char| c != ',';
    if n < 1000 {
        lemma_decimal_digits_are_digits(n);
        assert(decimal_digits(n).filter(keep) == decimal_digits(n)) by {
            lemma_filter_keeps_all(decimal_digits(n), keep);
        }
    } else {
        lemma_grouping_only_inserts_commas(n / 1000);
        lemma_decimal_digits_split(n);
        let head = grouped_digits(n / 1000);
        let tail = three_digits(n % 1000);
        assert(grouped_digits(n) == head + seq![','] + tail);
        Seq::<char>::filter_distributes_over_add(head + seq![','], tail, keep);
        Seq::<char>::filter_distributes_over_add(head, seq![','], keep);
        assert(seq![','].filter(keep) =~= Seq::<char>::empty()) by {
            reveal_with_fuel(Seq::filter, 2);
        }
        assert(tail.filter(keep) == tail) by {
            lemma_filter_keeps_all(tail, keep);
        }
        assert(head.filter(keep) + Seq::<char>::empty() + tail =~= decimal_digits(n / 1000)
            + tail);
    }
}

/// Whether `c` is one of the decimal digits `0` to `9`.
pub open spec fn is_decimal_digit(c: char) -> bool {
    '0' <= c && c <= '9'
}

/// Whether `s` is a first group of `first` digits followed by groups of a
/// comma and three digits.
pub open spec fn groups_after_first(s: Seq<char>, first: int) -> bool {
    &&& 1 <= first <= 3
    &&& first <= s.len()
    &&& (s.len() - first) % 4 == 0
    &&& forall|k: int|
        0 <= k < s.len() ==> {
            &&& (#[trigger] s[k] == ',' <==> (k >= first && (k - first) % 4 == 0))
            &&& (s[k] != ',' ==> is_decimal_digit(s[k]))
        }
}

/// Whether `s` is written in thousands groups: a first group of one to three
/// digits, then any number of groups of a comma and exactly three digits.
pub open spec fn grouped_by_thousands(s: Seq<char>) -> bool {
    exists|first: int| #[trigger] groups_after_first(s, first)
}

/// Decimal digits are digit characters, one to three of them below 1000.
proof fn lemma_decimal_digits_are_digits(n: nat)
    ensures
        decimal_digits(n).len() >= 1,
        n < 10 ==> decimal_digits(n).len() == 1,
        n < 100 ==> decimal_digits(n).len() <= 2,
        n < 1000 ==> decimal_digits(n).len() <= 3,
        forall|k: int|
            0 <= k < decimal_digits(n).len() ==> is_decimal_digit(#[trigger] decimal_digits(n)[k]),
    decreases n,
{
    if n >= 10 {
        lemma_decimal_digits_are_digits(n / 10);
        assert forall|k: int| 0 <= k < decimal_digits(n).len() implies is_decimal_digit(
            #[trigger] decimal_digits(n)[k],
        ) by {
            if k < decimal_digits(n / 10).len() {
                assert(decimal_digits(n)[k] == decimal_digits(n / 10)[k]);
            }
        }
    }
}

/// The grouping with the length of its first group.
proof fn lemma_grouping_first_group(n: nat) -> (first: int)
    ensures
        groups_after_first(grouped_digits(n), first),
    decreases n,
{
    if n < 1000 {
        lemma_decimal_digits_are_digits(n);
        let s = decimal_digits(n);
        assert forall|k: int| 0 <= k < s.len() implies {
            &&& (#[trigger] s[k] == ',' <==> (k >= s.len() && (k - s.len()) % 4 == 0))
            &&& (s[k] != ',' ==> is_decimal_digit(s[k]))
        } by {
            assert(is_decimal_digit(s[k]));
        }
        s.len() as int
    } else {
        let first = lemma_grouping_first_group(n / 1000);
        let head = grouped_digits(n / 1000);
        let tail = three_digits(n % 1000);
        let s = grouped_digits(n);
        assert(s == head + seq![','] + tail);
        assert forall|k: int| 0 <= k < s.len() implies {
            &&& (#[trigger] s[k] == ',' <==> (k >= first && (k - first) % 4 == 0))
            &&& (s[k] != ',' ==> is_decimal_digit(s[k]))
        } by {
            if k < head.len() {
                assert(s[k] == head[k]);
            } else if k == head.len() {
                assert(s[k] == ',');
            } else {
                assert(s[k] == tail[k - head.len() - 1]);
                assert((k - first) % 4 != 0) by {
                    assert((head.len() - first) % 4 == 0);
                    assert(1 <= k - head.len() <= 3);
                }
            }
        }
        first
    }
}

/// Formatting with separators writes a first group of one to three digits and
/// then groups of a comma and exactly three digits, so no comma leads or
/// trails.
pub proof fn lemma_grouping_has_three_digit_groups(n: nat)
    ensures
        grouped_by_thousands(grouped_digits(n)),
{
    let first = lemma_grouping_first_group(n);
    assert(groups_after_first(grouped_digits(n), first));
}

/// Filtering a sequence whose entries all pass leaves it unchanged.
proof fn lemma_filter_keeps_all(s: Seq<char>, keep: spec_fn(char) -> bool)
    requires
        forall|k: int| 0 <= k < s.len() ==> keep(#[trigger] s[k]),
    ensures
        s.filter(keep) == s,
    decreases s.len(),
{
    reveal(Seq::filter);
    if s.len() > 0 {
        lemma_filter_keeps_all(s.drop_last(), keep);
        assert(s.drop_last().push(s.last()) =~= s);
    }
}

/// Escaped XML text holds none of the characters `<`, `>`, `"` and `'`.
pub proof fn lemma_xml_escaped_has_no_markup(s: Seq<char>)
    ensures
        forall|k: int|
            0 <= k < xml_escaped(s).len() ==> {
                let c = #[trigger] xml_escaped(s)[k];
                c != '<' && c != '>' && c != '"' && c != '\''
            },
    decreases s.len(),
{
    if s.len() > 0 {
        lemma_xml_escaped_has_no_markup(s.drop_last());
        let prev = xml_escaped(s.drop_last());
        let last = xml_char(s.last());
        reveal_strlit("&amp;");
        reveal_strlit("&lt;");
        reveal_strlit("&gt;");
        reveal_strlit("&quot;");
        reveal_strlit("&apos;");
        assert forall|k: int| 0 <= k < xml_escaped(s).len() implies {
            let c = #[trigger] xml_escaped(s)[k];
            c != '<' && c != '>' && c != '"' && c != '\''
        } by {
            if k < prev.len() {
                assert(xml_escaped(s)[k] == prev[k]);
            } else {
                assert(xml_escaped(s)[k] == last[k - prev.len()]);
            }
        }
    }
}

/// Reads XML text back, left to right: each of the entity references
/// `&amp;`, `&lt;`, `&gt;`, `&quot;` and `&apos;` stands for its character,
/// and every other character for itself.
pub open spec fn xml_decoded(t: Seq<char>) -> Seq<char>
    decreases t.len(),
{
    if t.len() == 0 {
        Seq::empty()
    } else if t.len() >= 5 && t.take(5) == "&amp;"@ {
        seq!['&'] + xml_decoded(t.skip(5))
    } else if t.len() >= 4 && t.take(4) == "&lt;"@ {
        seq!['<'] + xml_decoded(t.skip(4))
    } else if t.len() >= 4 && t.take(4) == "&gt;"@ {
        seq!['>'] + xml_decoded(t.skip(4))
    } else if t.len() >= 6 && t.take(6) == "&quot;"@ {
        seq!['"'] + xml_decoded(t.skip(6))
    } else if t.len() >= 6 && t.take(6) == "&apos;"@ {
        seq!['\''] + xml_decoded(t.skip(6))
    } else {
        seq![t[0]] + xml_decoded(t.skip(1))
    }
}

/// Whether the entity reference `e` is written in `t` from index `k` on.
pub open spec fn entity_at(t: Seq<char>, k: int, e: Seq<char>) -> bool {
    0 <= k && k + e.len() <= t.len() && t.subrange(k, k + e.len()) == e
}

/// Whether one of the five entity references of XML text starts at index `k`.
pub open spec fn starts_entity(t: Seq<char>, k: int) -> bool {
    ||| entity_at(t, k, "&amp;"@)
    ||| entity_at(t, k, "&lt;"@)
    ||| entity_at(t, k, "&gt;"@)
    ||| entity_at(t, k, "&quot;"@)
    ||| entity_at(t, k, "&apos;"@)
}

/// Escaping can be read from the front: the first character's text, then the
/// rest escaped.
proof fn lemma_xml_escaped_front(s: Seq<char>)
    requires
        s.len() > 0,
    ensures
        xml_escaped(s) == xml_char(s[0]) + xml_escaped(s.drop_first()),
    decreases s.len(),
{
    if s.len() == 1 {
        assert(xml_escaped(s.drop_last()) =~= Seq::<char>::empty());
        assert(xml_escaped(s.drop_first()) =~= Seq::<char>::empty());
        assert(s.last() == s[0]);
        assert(xml_escaped(s) =~= xml_char(s[0]) + xml_escaped(s.drop_first()));
    } else {
        lemma_xml_escaped_front(s.drop_last());
        assert(s.drop_first().drop_last() =~= s.drop_last().drop_first());
        assert(s.drop_first().last() == s.last());
        assert(s.drop_last()[0] == s[0]);
        assert(xml_escaped(s) =~= xml_char(s[0]) + xml_escaped(s.drop_first()));
    }
}

/// Reading back the text of one character gives that character, whatever
/// follows it.
proof fn lemma_xml_decode_char(c: char, rest: Seq<char>)
    ensures
        xml_decoded(xml_char(c) + rest) == seq![c] + xml_decoded(rest),
{
    reveal_strlit("&amp;");
    reveal_strlit("&lt;");
    reveal_strlit("&gt;");
    reveal_strlit("&quot;");
    reveal_strlit("&apos;");
    let t = xml_char(c) + rest;
    let e = xml_char(c);
    assert(t.skip(e.len() as int) =~= rest);
    assert(t.take(e.len() as int) =~= e);
    if c == '&' {
        assert(t.take(5) =~= "&amp;"@);
    } else if c == '<' {
        assert(t[1] == 'l');
        assert(t.len() >= 5 ==> t.take(5)[1] == t[1]);
        assert(t.take(4) =~= "&lt;"@);
    } else if c == '>' {
        assert(t[1] == 'g');
        assert(t.len() >= 5 ==> t.take(5)[1] == t[1]);
        assert(t.len() >= 4 ==> t.take(4)[1] == t[1]);
        assert(t.take(4) =~= "&gt;"@);
    } else if c == '"' {
        assert(t[1] == 'q');
        assert(t.len() >= 5 ==> t.take(5)[1] == t[1]);
        assert(t.len() >= 4 ==> t.take(4)[1] == t[1]);
        assert(t.take(6) =~= "&quot;"@);
    } else if c == '\'' {
        assert(t[1] == 'a');
        assert(t[2] == 'p');
        assert(t.len() >= 5 ==> t.take(5)[2] == t[2]);
        assert(t.len() >= 4 ==> t.take(4)[1] == t[1]);
        assert(t.len() >= 6 ==> t.take(6)[1] == t[1]);
        assert(t.take(6) =~= "&apos;"@);
    } else {
        assert(t[0] == c);
        assert(t.len() >= 5 ==> t.take(5)[0] == t[0]);
        assert(t.len() >= 4 ==> t.take(4)[0] == t[0]);
        assert(t.len() >= 6 ==> t.take(6)[0] == t[0]);
    }
}

/// Reading escaped XML text back gives the characters that were escaped.
pub proof fn lemma_xml_escaping_round_trip(s: Seq<char>)
    ensures
        xml_decoded(xml_escaped(s)) == s,
    decreases s.len(),
{
    if s.len() > 0 {
        lemma_xml_escaped_front(s);
        lemma_xml_escaping_round_trip(s.drop_first());
        lemma_xml_decode_char(s[0], xml_escaped(s.drop_first()));
        assert(seq![s[0]] + s.drop_first() =~= s);
    } else {
        assert(xml_escaped(s) =~= Seq::<char>::empty());
    }
}

/// Every `&` in escaped XML text starts one of the five entity references.
pub proof fn lemma_xml_ampersands_start_entities(s: Seq<char>)
    ensures
        forall|k: int|
            0 <= k < xml_escaped(s).len() && #[trigger] xml_escaped(s)[k] == '&' ==> starts_entity(
                xml_escaped(s),
                k,
            ),
    decreases s.len(),
{
    if s.len() > 0 {
        lemma_xml_ampersands_start_entities(s.drop_last());
        reveal_strlit("&amp;");
        reveal_strlit("&lt;");
        reveal_strlit("&gt;");
        reveal_strlit("&quot;");
        reveal_strlit("&apos;");
        let t = xml_escaped(s);
        let prev = xml_escaped(s.drop_last());
        let last = xml_char(s.last());
        assert(t == prev + last);
        assert forall|k: int| 0 <= k < t.len() && #[trigger] t[k] == '&' implies starts_entity(
            t,
            k,
        ) by {
            if k < prev.len() {
                assert(prev[k] == '&');
                assert(starts_entity(prev, k));
                assert forall|e: Seq<char>| entity_at(prev, k, e) implies entity_at(t, k, e) by {
                    assert(t.subrange(k, k + e.len()) =~= prev.subrange(k, k + e.len()));
                }
            } else {
                assert(t[k] == last[k - prev.len()]);
                assert(k == prev.len());
                assert(t.subrange(k, k + last.len()) =~= last);
            }
        }
    }
}

} // verus!
