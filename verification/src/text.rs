//! Text: decimal numbers with white space around them, as sysfs files hold
//! them, and paths.

use vstd::prelude::*;

verus! {

/// Characters with the Unicode property `White_Space`.
pub open spec fn is_white_space(c: char) -> bool {
    ||| '\u{0009}' <= c <= '\u{000D}'
    ||| c == '\u{0020}'
    ||| c == '\u{0085}'
    ||| c == '\u{00A0}'
    ||| c == '\u{1680}'
    ||| '\u{2000}' <= c <= '\u{200A}'
    ||| c == '\u{2028}'
    ||| c == '\u{2029}'
    ||| c == '\u{202F}'
    ||| c == '\u{205F}'
    ||| c == '\u{3000}'
}

/// Whether a character is white space.
pub fn white_space(c: char) -> (b: bool)
    ensures
        b == is_white_space(c),
{
    ('\u{0009}' <= c && c <= '\u{000D}') || c == '\u{0020}' || c == '\u{0085}' || c == '\u{00A0}'
        || c == '\u{1680}' || ('\u{2000}' <= c && c <= '\u{200A}') || c == '\u{2028}' || c
        == '\u{2029}' || c == '\u{202F}' || c == '\u{205F}' || c == '\u{3000}'
}

/// The text without the white space that it begins with.
pub open spec fn without_leading(s: Seq<char>) -> Seq<char>
    decreases s.len(),
{
    if s.len() > 0 && is_white_space(s[0]) {
        without_leading(s.skip(1))
    } else {
        s
    }
}

/// The text without the white space that it ends with.
pub open spec fn without_trailing(s: Seq<char>) -> Seq<char>
    decreases s.len(),
{
    if s.len() > 0 && is_white_space(s.last()) {
        without_trailing(s.drop_last())
    } else {
        s
    }
}

/// The text without the white space around it.
pub open spec fn trimmed(s: Seq<char>) -> Seq<char> {
    without_trailing(without_leading(s))
}

/// Takes the white space around a text away.
pub fn trim(s: &str) -> (r: &str)
    ensures
        r@ == trimmed(s@),
{
    let len = s.unicode_len();
    let mut start: usize = 0;
    assert(s@.skip(0) == s@);
    while start < len && white_space(s.get_char(start))
        invariant
            start <= len,
            len == s@.len(),
            without_leading(s@) == without_leading(s@.skip(start as int)),
        decreases len - start,
    {
        assert(s@.skip(start as int).skip(1) == s@.skip(start + 1));
        start = start + 1;
    }
    let ghost body = s@.skip(start as int);
    let mut end = len;
    assert(s@.subrange(start as int, end as int) == body);
    while end > start && white_space(s.get_char(end - 1))
        invariant
            start <= end <= len,
            len == s@.len(),
            without_trailing(body) == without_trailing(s@.subrange(start as int, end as int)),
        decreases end,
    {
        let ghost part = s@.subrange(start as int, end as int);
        assert(part.drop_last() == s@.subrange(start as int, end - 1));
        assert(part.last() == s@[end - 1]);
        end = end - 1;
    }
    assert(end > start ==> s@.subrange(start as int, end as int).last() == s@[end - 1]);
    s.substring_char(start, end)
}

/// Whether two texts are the same.
pub fn equal(a: &str, b: &str) -> (r: bool)
    ensures
        r == (a@ == b@),
{
    a.to_owned() == b.to_owned()
}

/// The path `name` taken relative to the directory `root`.
pub open spec fn joined(root: Seq<char>, name: Seq<char>) -> Seq<char> {
    if name.len() > 0 && name[0] == '/' {
        name
    } else if root.len() == 0 || root.last() == '/' {
        root + name
    } else {
        root + "/"@ + name
    }
}

/// Takes a path relative to a directory; an absolute path stays as it is.
pub fn join(root: &str, name: &str) -> (r: String)
    ensures
        r@ == joined(root@, name@),
{
    if name.unicode_len() > 0 && name.get_char(0) == '/' {
        return name.to_owned();
    }
    let len = root.unicode_len();
    if len == 0 || root.get_char(len - 1) == '/' {
        root.to_owned().concat(name)
    } else {
        root.to_owned().concat("/").concat(name)
    }
}

/// The value of a decimal digit.
pub open spec fn digit_value(c: char) -> Option<int> {
    if '0' <= c <= '9' {
        Some(c as int - '0' as int)
    } else {
        None
    }
}

/// The number that a run of decimal digits stands for.
pub open spec fn digits_value(s: Seq<char>) -> Option<int>
    decreases s.len(),
{
    if s.len() == 0 {
        Some(0)
    } else {
        match (digits_value(s.drop_last()), digit_value(s.last())) {
            (Some(high), Some(low)) => Some(high * 10 + low),
            _ => None,
        }
    }
}

/// The digits of an unsigned number, which may follow a plus sign.
pub open spec fn digits_of(s: Seq<char>) -> Seq<char> {
    if s.len() > 0 && s[0] == '+' {
        s.skip(1)
    } else {
        s
    }
}

/// The unsigned number that a text is, if it is one and fits in a `u32`.
pub open spec fn unsigned_value(s: Seq<char>) -> Option<int> {
    match digits_value(digits_of(s)) {
        Some(v) => if digits_of(s).len() > 0 && v <= u32::MAX {
            Some(v)
        } else {
            None
        },
        None => None,
    }
}

/// Why a text is no unsigned number.
#[derive(Clone, Copy, Debug)]
pub enum NumberFault {
    Empty,
    InvalidDigit,
    TooLarge,
}

/// Where the digits that start at `i` end.
pub open spec fn digits_end(s: Seq<char>, i: int) -> int
    decreases s.len() - i,
{
    if 0 <= i < s.len() && '0' <= s[i] && s[i] <= '9' {
        digits_end(s, i + 1)
    } else {
        i
    }
}

/// The first thing that keeps a text from being an unsigned number: the digits
/// it begins with make too large a number, or something else comes after them.
pub open spec fn number_fault(s: Seq<char>) -> Option<NumberFault> {
    let digits = digits_of(s);
    let end = digits_end(digits, 0);
    if s.len() == 0 {
        Some(NumberFault::Empty)
    } else if digits_value(digits.take(end)) matches Some(v) && v > u32::MAX {
        Some(NumberFault::TooLarge)
    } else if end == 0 || end < digits.len() {
        Some(NumberFault::InvalidDigit)
    } else {
        None
    }
}

/// What a fault is reported as.
pub open spec fn number_message(fault: NumberFault) -> Seq<char> {
    match fault {
        NumberFault::Empty => "cannot parse integer from empty string"@,
        NumberFault::InvalidDigit => "invalid digit found in string"@,
        NumberFault::TooLarge => "number too large to fit in target type"@,
    }
}

impl NumberFault {
    /// The fault in words.
    pub fn message(&self) -> (m: String)
        ensures
            m@ == number_message(*self),
    {
        match self {
            NumberFault::Empty => "cannot parse integer from empty string".to_owned(),
            NumberFault::InvalidDigit => "invalid digit found in string".to_owned(),
            NumberFault::TooLarge => "number too large to fit in target type".to_owned(),
        }
    }
}

/// Digits that go on have a value if what comes before them has.
proof fn lemma_digits_end(s: Seq<char>, i: int)
    requires
        0 <= i <= s.len(),
        digits_value(s.take(i)) is Some,
    ensures
        i <= digits_end(s, i) <= s.len(),
        digits_value(s.take(digits_end(s, i))) is Some,
    decreases s.len() - i,
{
    if i < s.len() && '0' <= s[i] && s[i] <= '9' {
        assert(s.take(i + 1).drop_last() == s.take(i));
        lemma_digits_end(s, i + 1);
    }
}

/// A run of digits is no smaller than what it begins with.
proof fn lemma_digits_prefix(s: Seq<char>, n: int)
    requires
        0 <= n <= s.len(),
    ensures
        digits_value(s.take(n)) is None ==> digits_value(s) is None,
        digits_value(s) is Some ==> digits_value(s.take(n)) is Some && 0 <= digits_value(
            s.take(n),
        )->0 <= digits_value(s)->0,
    decreases s.len(),
{
    if n == s.len() {
        assert(s.take(n) == s);
        if s.len() > 0 {
            lemma_digits_prefix(s.drop_last(), s.len() - 1);
            assert(s.drop_last().take(s.len() - 1) == s.drop_last());
        }
    } else {
        lemma_digits_prefix(s.drop_last(), n);
        assert(s.drop_last().take(n) == s.take(n));
    }
}

/// Reads an unsigned number.
pub fn parse_u32(s: &str) -> (r: Result<u32, NumberFault>)
    ensures
        match r {
            Ok(v) => unsigned_value(s@) == Some(v as int) && number_fault(s@) is None,
            Err(fault) => unsigned_value(s@) is None && number_fault(s@) == Some(fault),
        },
{
    let len = s.unicode_len();
    let first: usize = if len > 0 && s.get_char(0) == '+' { 1 } else { 0 };
    let ghost digits = digits_of(s@);
    if len == 0 {
        return Err(NumberFault::Empty);
    }
    if first == len {
        assert(digits.take(0).len() == 0);
        return Err(NumberFault::InvalidDigit);
    }
    let mut value: u32 = 0;
    let mut next = first;
    while next < len
        invariant
            first <= next <= len,
            len == s@.len(),
            digits == s@.skip(first as int),
            digits == digits_of(s@),
            len > first,
            digits_value(digits.take(next - first)) == Some(value as int),
            digits_end(digits, 0) == digits_end(digits, next - first),
        decreases len - next,
    {
        let c = s.get_char(next);
        proof {
            let upto = digits.take(next - first + 1);
            assert(upto.drop_last() == digits.take(next - first));
            assert(upto.last() == c);
            lemma_digits_prefix(digits, next - first + 1);
        }
        if !('0' <= c && c <= '9') {
            return Err(NumberFault::InvalidDigit);
        }
        let low = c as u32 - '0' as u32;
        let wide = value as u64 * 10 + low as u64;
        if wide > u32::MAX as u64 {
            proof {
                let end = digits_end(digits, 0);
                lemma_digits_end(digits, next - first + 1);
                lemma_digits_prefix(digits.take(end), next - first + 1);
                assert(digits.take(end).take(next - first + 1) == digits.take(next - first + 1));
            }
            return Err(NumberFault::TooLarge);
        }
        value = wide as u32;
        next = next + 1;
    }
    assert(digits.take(len - first) == digits);
    Ok(value)
}

/// The decimal digits of a number.
pub open spec fn decimal(n: nat) -> Seq<char>
    decreases n,
{
    let low = seq![('0' as int + n % 10) as char];
    if n < 10 {
        low
    } else {
        decimal(n / 10) + low
    }
}

/// A decimal digit as text.
fn digit_text(d: u32) -> (s: &'static str)
    requires
        d < 10,
    ensures
        s@ == seq![('0' as int + d) as char],
{
    proof {
        reveal_strlit("0");
        reveal_strlit("1");
        reveal_strlit("2");
        reveal_strlit("3");
        reveal_strlit("4");
        reveal_strlit("5");
        reveal_strlit("6");
        reveal_strlit("7");
        reveal_strlit("8");
        reveal_strlit("9");
    }
    match d {
        0 => "0",
        1 => "1",
        2 => "2",
        3 => "3",
        4 => "4",
        5 => "5",
        6 => "6",
        7 => "7",
        8 => "8",
        _ => "9",
    }
}

/// Writes a number in decimal.
pub fn format_u32(n: u32) -> (s: String)
    ensures
        s@ == decimal(n as nat),
    decreases n,
{
    if n < 10 {
        digit_text(n).to_owned()
    } else {
        format_u32(n / 10).concat(digit_text(n % 10))
    }
}

/// The digits of a number stand for it, and hold no white space.
proof fn lemma_decimal(n: nat)
    ensures
        digits_value(decimal(n)) == Some(n as int),
        decimal(n).len() > 0,
        forall|i: int| 0 <= i < decimal(n).len() ==> '0' <= #[trigger] decimal(n)[i] <= '9',
    decreases n,
{
    let low = seq![('0' as int + n % 10) as char];
    if n < 10 {
        assert(decimal(n).drop_last() == Seq::<char>::empty());
        assert(digits_value(decimal(n).drop_last()) == Some(0int));
    } else {
        lemma_decimal(n / 10);
        assert(decimal(n).drop_last() == decimal(n / 10));
    }
}

/// What is written in decimal is read back, also with a line feed after it.
pub proof fn law_written_number_is_read_back(n: u32)
    ensures
        unsigned_value(trimmed(decimal(n as nat))) == Some(n as int),
        unsigned_value(trimmed(decimal(n as nat).push('\n'))) == Some(n as int),
{
    let s = decimal(n as nat);
    lemma_decimal(n as nat);
    assert('0' <= s[0] <= '9');
    assert('0' <= s.last() <= '9');
    let line = s.push('\n');
    assert(line[0] == s[0]);
    assert(without_leading(line) == line);
    assert(line.drop_last() == s);
    assert(without_trailing(line) == without_trailing(s));
}

/// A number in a text is never negative.
pub proof fn law_numbers_are_not_negative(s: Seq<char>)
    ensures
        digits_value(s) matches Some(v) ==> v >= 0,
        unsigned_value(s) matches Some(v) ==> 0 <= v <= u32::MAX,
{
    lemma_digits_prefix(s, s.len() as int);
    assert(s.take(s.len() as int) == s);
    let digits = digits_of(s);
    lemma_digits_prefix(digits, digits.len() as int);
    assert(digits.take(digits.len() as int) == digits);
}

/// The digits of a number are read back as that number, unless it is too large,
/// also after a plus sign, and no other sign may come first.
pub proof fn law_digits_are_read(n: nat)
    ensures
        unsigned_value(decimal(n)) == (if n <= u32::MAX {
            Some(n as int)
        } else {
            None
        }),
        unsigned_value(seq!['+'] + decimal(n)) == unsigned_value(decimal(n)),
        unsigned_value(seq!['-'] + decimal(n)) is None,
{
    lemma_decimal(n);
    let plus = seq!['+'] + decimal(n);
    assert(plus.skip(1) =~= decimal(n));
    let minus = seq!['-'] + decimal(n);
    assert(minus[0] == '-');
    assert(minus.take(1) =~= seq!['-']);
    assert(seq!['-'].drop_last().len() == 0);
    assert(digits_value(minus.take(1)) is None);
    lemma_digits_prefix(minus, 1);
}

/// One more digit after a number makes it ten times as large and adds the digit;
/// a zero before it changes nothing.
pub proof fn law_places(s: Seq<char>, c: char)
    requires
        '0' <= c <= '9',
    ensures
        digits_value(s) matches Some(v) ==> digits_value(s.push(c)) == Some(
            v * 10 + (c as int - '0' as int),
        ),
        digits_value(seq!['0'] + s) == digits_value(s),
    decreases s.len(),
{
    assert(s.push(c).drop_last() == s);
    if s.len() == 0 {
        assert(seq!['0'] + s =~= seq!['0']);
        assert(seq!['0'].drop_last() =~= s);
    } else {
        law_places(s.drop_last(), c);
        assert((seq!['0'] + s).drop_last() =~= seq!['0'] + s.drop_last());
    }
}

/// How much white space a text begins with.
proof fn lemma_leading(s: Seq<char>) -> (n: int)
    ensures
        0 <= n <= s.len(),
        without_leading(s) == s.skip(n),
        forall|i: int| 0 <= i < n ==> is_white_space(#[trigger] s[i]),
        n < s.len() ==> !is_white_space(s[n]),
    decreases s.len(),
{
    if s.len() > 0 && is_white_space(s[0]) {
        let rest = s.skip(1);
        let n = lemma_leading(rest);
        assert(rest.skip(n) =~= s.skip(n + 1));
        assert forall|i: int| 0 <= i < n + 1 implies is_white_space(#[trigger] s[i]) by {
            if i > 0 {
                assert(rest[i - 1] == s[i]);
            }
        }
        n + 1
    } else {
        assert(s.skip(0) =~= s);
        0
    }
}

/// Where the white space that a text ends with begins.
proof fn lemma_trailing(s: Seq<char>) -> (n: int)
    ensures
        0 <= n <= s.len(),
        without_trailing(s) == s.take(n),
        forall|i: int| n <= i < s.len() ==> is_white_space(#[trigger] s[i]),
        n > 0 ==> !is_white_space(s[n - 1]),
    decreases s.len(),
{
    if s.len() > 0 && is_white_space(s.last()) {
        let rest = s.drop_last();
        let n = lemma_trailing(rest);
        assert(rest.take(n) =~= s.take(n));
        assert forall|i: int| n <= i < s.len() implies is_white_space(#[trigger] s[i]) by {
            if i < rest.len() {
                assert(rest[i] == s[i]);
            }
        }
        n
    } else {
        assert(s.take(s.len() as int) =~= s);
        s.len() as int
    }
}

/// Trimming takes white space away from both ends and nothing else: what is left
/// has none at its ends.
pub proof fn law_trimming(s: Seq<char>) -> (r: (int, int))
    ensures
        0 <= r.0 <= r.1 <= s.len(),
        trimmed(s) == s.subrange(r.0, r.1),
        forall|i: int| 0 <= i < r.0 ==> is_white_space(#[trigger] s[i]),
        forall|i: int| r.1 <= i < s.len() ==> is_white_space(#[trigger] s[i]),
        trimmed(s).len() > 0 ==> !is_white_space(trimmed(s).first()) && !is_white_space(
            trimmed(s).last(),
        ),
{
    let a = lemma_leading(s);
    let rest = s.skip(a);
    let b = lemma_trailing(rest);
    assert(trimmed(s) =~= s.subrange(a, a + b));
    if b > 0 {
        assert(rest[0] == s[a]);
        assert(rest[b - 1] == s[a + b - 1]);
    }
    assert forall|i: int| a + b <= i < s.len() implies is_white_space(#[trigger] s[i]) by {
        assert(rest[i - a] == s[i]);
    }
    (a, a + b)
}

/// An absolute path stands for itself. Any other path goes after the directory,
/// with one slash between them.
pub proof fn law_joining(root: Seq<char>, name: Seq<char>)
    ensures
        name.len() > 0 && name[0] == '/' ==> joined(root, name) == name,
        !(name.len() > 0 && name[0] == '/') && root.len() > 0 && root.last() != '/' ==> joined(
            root,
            name,
        ) == root.push('/') + name,
        !(name.len() > 0 && name[0] == '/') && root.len() > 0 && root.last() == '/' ==> joined(
            root,
            name,
        ) == root + name,
        !(name.len() > 0 && name[0] == '/') && root.len() == 0 ==> joined(root, name) == name,
{
    reveal_strlit("/");
    assert(root + "/"@ + name =~= root.push('/') + name);
    assert(root.len() == 0 ==> root + name =~= name);
}

/// White space is the control characters from the tabulator to the carriage
/// return and the next line, and the spaces and separators of Unicode.
pub proof fn law_white_space(c: char)
    ensures
        (c as int) < 128 ==> (is_white_space(c) <==> 9 <= c as int <= 13 || c as int == 32),
        (c as int) >= 128 ==> (is_white_space(c) <==> c as int == 0x85 || c as int == 0xA0 || c
            as int == 0x1680 || 0x2000 <= c as int <= 0x200A || c as int == 0x2028 || c as int
            == 0x2029 || c as int == 0x202F || c as int == 0x205F || c as int == 0x3000),
{
}

/// A text is a number if and only if nothing is wrong with it. An empty text is
/// told apart, digits that make too large a number are, also if something else
/// comes after them, and everything else has a character that is no digit, or no
/// digits.
pub proof fn law_what_keeps_a_text_from_being_a_number(s: Seq<char>)
    ensures
        (number_fault(s) is None) <==> (unsigned_value(s) is Some),
        s.len() == 0 <==> number_fault(s) == Some(NumberFault::Empty),
        s.len() > 0 && !('0' <= s[0] <= '9') && s[0] != '+' ==> number_fault(s) == Some(
            NumberFault::InvalidDigit,
        ),
        s.len() == 1 && s[0] == '+' ==> number_fault(s) == Some(NumberFault::InvalidDigit),
{
    let digits = digits_of(s);
    let end = digits_end(digits, 0);
    assert(digits.take(0).len() == 0);
    lemma_digits_end(digits, 0);
    if end == digits.len() {
        assert(digits.take(end) == digits);
    } else {
        lemma_digits_stop(digits, 0);
        lemma_digits_prefix(digits, end + 1);
        let upto = digits.take(end + 1);
        assert(upto.last() == digits[end]);
        assert(digits_value(upto) is None);
    }
}

/// Digits end where something else comes.
proof fn lemma_digits_stop(s: Seq<char>, i: int)
    requires
        0 <= i <= s.len(),
    ensures
        i <= digits_end(s, i) <= s.len(),
        digits_end(s, i) < s.len() ==> digit_value(s[digits_end(s, i)]) is None,
    decreases s.len() - i,
{
    if i < s.len() && '0' <= s[i] && s[i] <= '9' {
        lemma_digits_stop(s, i + 1);
    }
}

/// Digits that make too large a number are told as such, also if something else
/// comes after them; after others, anything else is no digit.
pub proof fn law_too_large_numbers(n: nat, after: Seq<char>)
    requires
        after.len() > 0 ==> !('0' <= after[0] <= '9'),
    ensures
        n > u32::MAX ==> number_fault(decimal(n) + after) == Some(NumberFault::TooLarge),
        n <= u32::MAX && after.len() > 0 ==> number_fault(decimal(n) + after) == Some(
            NumberFault::InvalidDigit,
        ),
{
    let s = decimal(n) + after;
    lemma_decimal(n);
    assert(s[0] == decimal(n)[0]);
    assert(digits_of(s) == s);
    let end = decimal(n).len() as int;
    assert(s.take(end) =~= decimal(n));
    assert(after.len() > 0 ==> s[end] == after[0]);
    lemma_all_digits(n, s, 0);
}

/// The digits of a number end where it does.
proof fn lemma_all_digits(n: nat, s: Seq<char>, i: int)
    requires
        0 <= i <= decimal(n).len() <= s.len(),
        s.take(decimal(n).len() as int) == decimal(n),
        s.len() > decimal(n).len() ==> !('0' <= s[decimal(n).len() as int] <= '9'),
    ensures
        digits_end(s, i) == decimal(n).len(),
    decreases decimal(n).len() - i,
{
    if i < decimal(n).len() {
        lemma_decimal_digit(n, i);
        assert(s[i] == s.take(decimal(n).len() as int)[i]);
        lemma_all_digits(n, s, i + 1);
    }
}

/// A number in decimal is made of digits.
proof fn lemma_decimal_digit(n: nat, i: int)
    requires
        0 <= i < decimal(n).len(),
    ensures
        '0' <= decimal(n)[i] <= '9',
    decreases n,
{
    if n >= 10 && i < decimal(n / 10).len() {
        lemma_decimal_digit(n / 10, i);
    }
}

}
