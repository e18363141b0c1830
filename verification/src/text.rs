//! Text primitives: comparison, trimming, and decimal numbers.

use vstd::prelude::*;
use vstd::string::*;
use vstd::utf8::*;

verus! {

/// `s` without its longest run of trailing `c`.
pub open spec fn trimmed_trailing(s: Seq<char>, c: char) -> Seq<char>
    decreases s.len(),
{
    if s.len() > 0 && s.last() == c {
        trimmed_trailing(s.drop_last(), c)
    } else {
        s
    }
}

/// The text of an optional `String`.
pub open spec fn text_view(s: Option<String>) -> Option<Seq<char>> {
    match s {
        Some(s) => Some(s@),
        None => None,
    }
}

/// An optional text is viewed as it is.
pub proof fn law_text_view(s: Option<String>)
    ensures
        text_view(s) is Some <==> s is Some,
        s matches Some(text) ==> text_view(s) == Some(text@),
{
}

/// The characters of `s`, in order.
pub fn chars_of(s: &str) -> (r: Vec<char>)
    ensures
        r@ == s@,
{
    let mut out: Vec<char> = Vec::new();
    for c in it: s.chars()
        invariant
            it.seq() == s@,
            out@ == s@.take(it.index()),
    {
        out.push(c);
        assert(s@.take(it.index() + 1) == s@.take(it.index()).push(c));
    }
    assert(s@.take(s@.len() as int) == s@);
    out
}

/// A copy of an optional text.
pub fn clone_text(s: &Option<String>) -> (r: Option<String>)
    ensures
        r == *s,
{
    match s {
        Some(s) => Some(s.clone()),
        None => None,
    }
}

/// Whether two texts are equal, character by character.
pub fn same_text(a: &str, b: &str) -> (r: bool)
    ensures
        r == (a@ == b@),
{
    let x = a.as_bytes();
    let y = b.as_bytes();
    proof {
        encode_utf8_decode_utf8(a@);
        encode_utf8_decode_utf8(b@);
    }
    if x.len() != y.len() {
        return false;
    }
    let mut i: usize = 0;
    while i < x.len()
        invariant
            i <= x.len(),
            x.len() == y.len(),
            x@ == a.spec_bytes(),
            y@ == b.spec_bytes(),
            forall|j: int| 0 <= j < i ==> x@[j] == y@[j],
        decreases x.len() - i,
    {
        if x[i] != y[i] {
            return false;
        }
        i += 1;
    }
    assert(x@ =~= y@);
    true
}

/// Drops every trailing `c` of `s`.
pub fn trim_trailing(s: &str, c: char) -> (r: String)
    ensures
        r@ == trimmed_trailing(s@, c),
        r@.len() <= s@.len(),
        forall|i: int| 0 <= i < r@.len() ==> #[trigger] r@[i] == s@[i],
        forall|i: int| r@.len() <= i < s@.len() ==> #[trigger] s@[i] == c,
        r@.len() > 0 ==> r@[r@.len() - 1] != c,
{
    proof {
        law_trimmed_trailing(s@, c);
    }
    let chars = chars_of(s);
    let mut n: usize = chars.len();
    assert(s@.take(n as int) == s@);
    while n > 0 && chars[n - 1] == c
        invariant
            n <= chars.len(),
            chars@ == s@,
            trimmed_trailing(s@, c) == trimmed_trailing(s@.take(n as int), c),
        decreases n,
    {
        assert(s@.take(n as int).drop_last() == s@.take(n - 1));
        n -= 1;
    }
    assert(s@.take(n as int) == s@.subrange(0, n as int));
    s.substring_char(0, n).to_owned()
}

/// What is trimmed off is a run of `c` at the end, and what is left does not end in `c`.
pub proof fn law_trimmed_trailing(s: Seq<char>, c: char)
    ensures
        ({
            let kept = trimmed_trailing(s, c);
            &&& kept.len() <= s.len()
            &&& forall|i: int| 0 <= i < kept.len() ==> #[trigger] kept[i] == s[i]
            &&& forall|i: int| kept.len() <= i < s.len() ==> #[trigger] s[i] == c
            &&& kept.len() > 0 ==> kept[kept.len() - 1] != c
        }),
    decreases s.len(),
{
    if s.len() > 0 && s.last() == c {
        let rest = s.drop_last();
        law_trimmed_trailing(rest, c);
        let kept = trimmed_trailing(rest, c);
        assert forall|i: int| kept.len() <= i < s.len() implies #[trigger] s[i] == c by {
            if i < rest.len() {
                assert(rest[i] == s[i]);
            }
        }
        assert forall|i: int| 0 <= i < kept.len() implies #[trigger] kept[i] == s[i] by {
            assert(kept[i] == rest[i]);
        }
    }
}

/// Whether `c` is one of the ten ASCII digits.
pub open spec fn is_digit(c: char) -> bool {
    '0' <= c <= '9'
}

/// Whether `s` holds ASCII digits only.
pub open spec fn all_digits(s: Seq<char>) -> bool {
    forall|i: int| 0 <= i < s.len() ==> is_digit(#[trigger] s[i])
}

/// The number that a run of ASCII digits writes in base ten.
pub open spec fn digits_value(s: Seq<char>) -> nat
    decreases s.len(),
{
    if s.len() == 0 {
        0
    } else {
        10 * digits_value(s.drop_last()) + (s.last() as nat - '0' as nat) as nat
    }
}

/// The number that `s` writes: one `+` or none, then digits and nothing else.
pub open spec fn unsigned_value(s: Seq<char>) -> Option<nat> {
    let digits = if s.len() > 0 && s[0] == '+' { s.drop_first() } else { s };
    if digits.len() > 0 && all_digits(digits) {
        Some(digits_value(digits))
    } else {
        None
    }
}

proof fn lemma_digits_value_grows(s: Seq<char>, n: int)
    requires
        0 <= n <= s.len(),
    ensures
        digits_value(s.take(n)) <= digits_value(s),
    decreases s.len() - n,
{
    if n == s.len() {
        assert(s.take(n) == s);
    } else {
        assert(s.take(n + 1).drop_last() == s.take(n));
        lemma_digits_value_grows(s, n + 1);
    }
}

/// Reads an unsigned number of at most `max`.
pub fn parse_unsigned(s: &str, max: u64) -> (r: Option<u64>)
    ensures
        match unsigned_value(s@) {
            Some(n) if n <= max => r == Some(n as u64),
            _ => r is None,
        },
        forall|n: nat| s@ == #[trigger] decimal_text(n) && n <= max ==> r == Some(n as u64),
{
    proof {
        assert forall|n: nat| s@ == #[trigger] decimal_text(n) && n <= max implies unsigned_value(
            s@,
        ) == Some(n) by {
            law_number_reads_back(n);
        }
    }
    let chars = chars_of(s);
    let plus = chars.len() > 0 && chars[0] == '+';
    let start: usize = if plus { 1 } else { 0 };
    let ghost digits = if s@.len() > 0 && s@[0] == '+' { s@.drop_first() } else { s@ };
    if chars.len() == start {
        return None;
    }
    let mut i: usize = start;
    let mut value: u64 = 0;
    while i < chars.len()
        invariant
            start <= i <= chars.len(),
            chars@ == s@,
            start == 0 || start == 1,
            digits.len() == s@.len() - start,
            forall|j: int| 0 <= j < digits.len() ==> digits[j] == s@[j + start],
            forall|j: int| 0 <= j < i - start ==> is_digit(#[trigger] digits[j]),
            value as nat == digits_value(digits.take(i - start)),
            value <= max,
            digits.len() > 0,
            forall|n: nat|
                s@ == #[trigger] decimal_text(n) && n <= max ==> unsigned_value(s@) == Some(n),
            unsigned_value(s@) == (if all_digits(digits) {
                Some(digits_value(digits))
            } else {
                None
            }),
        decreases chars.len() - i,
    {
        let c = chars[i];
        assert(digits[i - start] == c);
        if c < '0' || c > '9' {
            assert(!is_digit(digits[i - start]));
            return None;
        }
        let d: u64 = (c as u32 - '0' as u32) as u64;
        proof {
            assert(digits.take(i - start + 1).drop_last() == digits.take(i - start));
            assert(digits_value(digits.take(i - start + 1)) == 10 * value + d);
            lemma_digits_value_grows(digits, i - start + 1);
        }
        if value > max / 10 || d > max - value * 10 {
            return None;
        }
        value = value * 10 + d;
        i += 1;
    }
    assert(digits.take(digits.len() as int) == digits);
    Some(value)
}

/// The base-ten digits of `n`, without leading zeros.
pub open spec fn decimal_text(n: nat) -> Seq<char>
    decreases n,
{
    if n < 10 {
        seq![('0' as nat + n) as char]
    } else {
        decimal_text(n / 10).push(('0' as nat + n % 10) as char)
    }
}

fn digit_text(d: u64) -> (r: &'static str)
    requires
        d < 10,
    ensures
        r@ == seq![('0' as nat + d) as char],
{
    proof {
        reveal_strlit("0");
        reveal_strlit("1");
        reveal_strlit("2");
        reveal_strlit("3");
        reveal_strlit("4");
        reveal_strlit("5");
        reveal_strlit("6");
        reveal_strlit("7");
        reveal_strlit("8");
        reveal_strlit("9");
    }
    match d {
        0 => "0",
        1 => "1",
        2 => "2",
        3 => "3",
        4 => "4",
        5 => "5",
        6 => "6",
        7 => "7",
        8 => "8",
        _ => "9",
    }
}

/// Writes `n` in base ten.
pub fn decimal(n: u64) -> (r: String)
    ensures
        r@ == decimal_text(n as nat),
        unsigned_value(r@) == Some(n as nat),
    decreases n,
{
    proof {
        law_number_reads_back(n as nat);
    }
    if n < 10 {
        digit_text(n).to_owned()
    } else {
        let mut out = decimal(n / 10);
        out.append(digit_text(n % 10));
        out
    }
}

/// One digit writes its own value, and a digit put behind a number writes ten times the
/// number and the digit's value more.
pub proof fn law_number_grows(s: Seq<char>, c: char)
    requires
        48 <= c as int <= 57,
    ensures
        unsigned_value(seq![c]) == Some((c as int - 48) as nat),
        unsigned_value(s) matches Some(n) ==> unsigned_value(s.push(c)) == Some(
            (10 * n + (c as int - 48)) as nat,
        ),
{
    let one = seq![c];
    assert(one.drop_last() =~= Seq::empty());
    assert(digits_value(one.drop_last()) == 0);
    assert(all_digits(one));
    assert(one[0] != '+');
    if unsigned_value(s) is Some {
        let longer = s.push(c);
        let digits = if s.len() > 0 && s[0] == '+' {
            s.drop_first()
        } else {
            s
        };
        let more = if longer.len() > 0 && longer[0] == '+' {
            longer.drop_first()
        } else {
            longer
        };
        assert(longer[0] == s[0]);
        assert(more =~= digits.push(c));
        assert(more.drop_last() =~= digits);
        assert forall|i: int| 0 <= i < more.len() implies is_digit(#[trigger] more[i]) by {
            if i < digits.len() {
                assert(more[i] == digits[i]);
            }
        }
    }
}

/// A text that holds anything but digits, one `+` before them aside, is no number, and
/// neither is a text without a digit.
pub proof fn law_not_a_number(s: Seq<char>, i: int)
    ensures
        0 <= i < s.len() && !(48 <= s[i] as int <= 57) && (i > 0 || s[i] != '+')
            ==> unsigned_value(s) is None,
        s.len() == 0 ==> unsigned_value(s) is None,
        s.len() == 1 && s[0] == '+' ==> unsigned_value(s) is None,
{
    let digits = if s.len() > 0 && s[0] == '+' {
        s.drop_first()
    } else {
        s
    };
    if 0 <= i < s.len() && !(48 <= s[i] as int <= 57) && (i > 0 || s[i] != '+') {
        let at = if s[0] == '+' {
            i - 1
        } else {
            i
        };
        assert(digits[at] == s[i]);
        assert(!is_digit(digits[at]));
    }
}

/// A number that is written in base ten reads back as itself, with a `+` before it or
/// without; and it is written in digits, without a zero before them.
pub proof fn law_number_reads_back(n: nat)
    ensures
        unsigned_value(decimal_text(n)) == Some(n),
        unsigned_value(seq!['+'] + decimal_text(n)) == Some(n),
        decimal_text(n).len() > 0,
        forall|i: int|
            0 <= i < decimal_text(n).len() ==> 48 <= (#[trigger] decimal_text(n)[i]) as int <= 57,
        n > 0 ==> decimal_text(n)[0] != '0',
    decreases n,
{
    let text = decimal_text(n);
    if n < 10 {
        law_number_grows(Seq::empty(), text[0]);
        assert(text =~= seq![text[0]]);
    } else {
        law_number_reads_back(n / 10);
        law_number_grows(decimal_text(n / 10), text.last());
        assert(text =~= decimal_text(n / 10).push(text.last()));
        assert forall|i: int| 0 <= i < text.len() implies 48 <= (#[trigger] text[i]) as int
            <= 57 by {
            if i < text.len() - 1 {
                assert(text[i] == decimal_text(n / 10)[i]);
            }
        }
    }
    let signed = seq!['+'] + text;
    assert(signed.drop_first() =~= text);
    assert(text[0] != '+');
}

/// The text that `{:?}` writes for a text: in quotes, with escapes.
pub uninterp spec fn debug_quoted(text: Seq<char>) -> Seq<char>;

/// The `Debug` form of a `str`. Believed of it: it depends on `text` alone.
#[verifier::external_body]
pub(crate) fn debug_text(text: &str) -> (r: String)
    ensures
        r@ == debug_quoted(text@),
{
    format!("{:?}", text)
}

/// The text `{:?}` writes for a duration of whole seconds.
pub uninterp spec fn duration_quoted(seconds: u64) -> Seq<char>;

/// The `Debug` form of `std::time::Duration::from_secs(seconds)`. Believed of it: it
/// depends on `seconds` alone.
#[verifier::external_body]
pub(crate) fn duration_text(seconds: u64) -> (r: String)
    ensures
        r@ == duration_quoted(seconds),
{
    format!("{:?}", std::time::Duration::from_secs(seconds))
}

/// Three texts in a row.
pub fn join(first: &str, second: &str, third: &str) -> (r: String)
    ensures
        r@ == first@ + second@ + third@,
{
    let mut out = first.to_owned();
    out.append(second);
    out.append(third);
    out
}

} // verus!
