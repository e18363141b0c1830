//! Which headers a proxy passes on, in either direction.

use reqwest::header::{HeaderMap, HeaderName, HeaderValue};
use vstd::prelude::*;
use vstd::string::*;
use vstd::utf8::*;

use crate::text::{chars_of, same_text, text_view};

verus! {

/// Whether `c` has the Unicode property White_Space.
pub open spec fn is_white_space(c: char) -> bool {
    ||| '\u{9}' <= c <= '\u{d}'
    ||| c == ' '
    ||| c == '\u{85}'
    ||| c == '\u{a0}'
    ||| c == '\u{1680}'
    ||| '\u{2000}' <= c <= '\u{200a}'
    ||| c == '\u{2028}'
    ||| c == '\u{2029}'
    ||| c == '\u{202f}'
    ||| c == '\u{205f}'
    ||| c == '\u{3000}'
}

fn white_space(c: char) -> (r: bool)
    ensures
        r == is_white_space(c),
{
    (c >= '\u{9}' && c <= '\u{d}') || c == ' ' || c == '\u{85}' || c == '\u{a0}' || c == '\u{1680}'
        || (c >= '\u{2000}' && c <= '\u{200a}') || c == '\u{2028}' || c == '\u{2029}' || c
        == '\u{202f}' || c == '\u{205f}' || c == '\u{3000}'
}

/// `c` in lower case, where it is an ASCII letter.
pub open spec fn lower_char(c: char) -> char {
    if 'A' <= c <= 'Z' {
        (c as u32 + 32) as char
    } else {
        c
    }
}

fn lower(c: char) -> (r: char)
    ensures
        r == lower_char(c),
{
    if c >= 'A' && c <= 'Z' {
        ((c as u8) + 32) as char
    } else {
        c
    }
}

/// `s` with every ASCII letter in lower case.
pub open spec fn lower_text(s: Seq<char>) -> Seq<char> {
    s.map_values(|c: char| lower_char(c))
}

/// `s` without the whitespace before it.
pub open spec fn trimmed_start(s: Seq<char>) -> Seq<char>
    decreases s.len(),
{
    if s.len() > 0 && is_white_space(s[0]) {
        trimmed_start(s.drop_first())
    } else {
        s
    }
}

/// `s` without the whitespace after it.
pub open spec fn trimmed_end(s: Seq<char>) -> Seq<char>
    decreases s.len(),
{
    if s.len() > 0 && is_white_space(s.last()) {
        trimmed_end(s.drop_last())
    } else {
        s
    }
}

/// Whether `value[start..end]` is one of the parts between commas.
pub open spec fn is_part(value: Seq<char>, start: int, end: int) -> bool {
    &&& 0 <= start <= end <= value.len()
    &&& start == 0 || value[start - 1] == ','
    &&& end == value.len() || value[end] == ','
    &&& forall|i: int| start <= i < end ==> value[i] != ','
}

/// Whether one of the comma-separated parts of `value`, trimmed, is `name`, letter case
/// aside.
pub open spec fn lists_header(value: Seq<char>, name: Seq<char>) -> bool {
    exists|start: int, end: int| #[trigger]
        is_part(value, start, end) && part_names(value, start, end, name)
}

/// Whether `value[start..end]`, trimmed, is `name`, letter case aside.
pub open spec fn part_names(value: Seq<char>, start: int, end: int, name: Seq<char>) -> bool {
    lower_text(trimmed_end(trimmed_start(value.subrange(start, end)))) == lower_text(name)
}

fn part_is(value: &Vec<char>, start: usize, end: usize, name: &Vec<char>) -> (r: bool)
    requires
        start <= end <= value.len(),
    ensures
        r == part_names(value@, start as int, end as int, name@),
{
    let mut a: usize = start;
    let ghost part = value@.subrange(start as int, end as int);
    while a < end && white_space(value[a])
        invariant
            start <= a <= end <= value.len(),
            trimmed_start(part) == trimmed_start(value@.subrange(a as int, end as int)),
        decreases end - a,
    {
        assert(value@.subrange(a as int, end as int).drop_first() == value@.subrange(
            a + 1,
            end as int,
        ));
        a += 1;
    }
    let mut b: usize = end;
    let ghost rest = value@.subrange(a as int, end as int);
    assert(trimmed_start(part) == rest);
    while b > a && white_space(value[b - 1])
        invariant
            a <= b <= end <= value.len(),
            trimmed_end(rest) == trimmed_end(value@.subrange(a as int, b as int)),
        decreases b - a,
    {
        assert(value@.subrange(a as int, b as int).drop_last() == value@.subrange(
            a as int,
            b - 1,
        ));
        b -= 1;
    }
    let ghost trimmed = value@.subrange(a as int, b as int);
    assert(trimmed_end(rest) == trimmed);
    if b - a != name.len() {
        assert(lower_text(trimmed).len() != lower_text(name@).len());
        return false;
    }
    let mut i: usize = 0;
    while i < name.len()
        invariant
            i <= name.len(),
            a <= b <= value.len(),
            b - a == name.len(),
            trimmed == value@.subrange(a as int, b as int),
            lower_text(trimmed_end(trimmed_start(part))) == lower_text(trimmed),
            part == value@.subrange(start as int, end as int),
            forall|j: int|
                0 <= j < i ==> #[trigger] lower_text(trimmed)[j] == lower_text(name@)[j],
        decreases name.len() - i,
    {
        if lower(value[a + i]) != lower(name[i]) {
            assert(lower_text(trimmed)[i as int] != lower_text(name@)[i as int]);
            return false;
        }
        i += 1;
    }
    assert(lower_text(trimmed) =~= lower_text(name@));
    true
}

/// Whether a `Connection` value lists the header `name`.
pub fn connection_lists_header(value: &str, name: &str) -> (r: bool)
    ensures
        r == lists_header(value@, name@),
{
    let chars = chars_of(value);
    let wanted = chars_of(name);
    let mut start: usize = 0;
    let mut i: usize = 0;
    loop
        invariant
            start <= i <= chars.len(),
            chars@ == value@,
            wanted@ == name@,
            start == 0 || chars@[start - 1] == ',',
            forall|j: int| start <= j < i ==> chars@[j] != ',',
            forall|s: int, e: int|
                s < start && #[trigger] is_part(value@, s, e) ==> !part_names(value@, s, e, name@),
        decreases chars.len() - i,
    {
        if i == chars.len() || chars[i] == ',' {
            assert(is_part(value@, start as int, i as int));
            if part_is(&chars, start, i, &wanted) {
                return true;
            }
            assert forall|s: int, e: int|
                s <= i && #[trigger] is_part(value@, s, e) implies !part_names(
                value@,
                s,
                e,
                name@,
            ) by {
                if s >= start {
                    if s > start {
                        assert(value@[s - 1] == ',');
                        assert(s - 1 >= i);
                    }
                    if e < i {
                        assert(value@[e] == ',');
                    }
                    if i < e {
                        assert(value@[i as int] != ',');
                    }
                }
            }
            if i == chars.len() {
                assert forall|s: int, e: int| #[trigger] is_part(value@, s, e) implies !part_names(
                    value@,
                    s,
                    e,
                    name@,
                ) by {
                    assert(s <= i);
                }
                return false;
            }
            start = i + 1;
        }
        i += 1;
    }
}

/// Whether one of several `Connection` values lists the header `name`.
pub fn is_connection_named(values: &[&str], name: &str) -> (r: bool)
    ensures
        r == exists|i: int| 0 <= i < values@.len() && lists_header(#[trigger] values@[i]@, name@),
{
    let mut i: usize = 0;
    while i < values.len()
        invariant
            i <= values.len(),
            forall|j: int| 0 <= j < i ==> !lists_header(#[trigger] values@[j]@, name@),
        decreases values.len() - i,
    {
        if connection_lists_header(values[i], name) {
            return true;
        }
        i += 1;
    }
    false
}

/// The hop-by-hop headers of HTTP: they hold for one connection and are never passed on.
pub open spec fn hop_by_hop(name: Seq<char>) -> bool {
    ||| name == "connection"@
    ||| name == "keep-alive"@
    ||| name == "proxy-authenticate"@
    ||| name == "proxy-authorization"@
    ||| name == "te"@
    ||| name == "trailer"@
    ||| name == "transfer-encoding"@
    ||| name == "upgrade"@
}

/// Whether `name`, in lower case, is a hop-by-hop header.
pub fn is_hop_by_hop(name: &str) -> (r: bool)
    ensures
        r == hop_by_hop(name@),
        r == (name@ == "connection"@ || name@ == "keep-alive"@ || name@ == "proxy-authenticate"@
            || name@ == "proxy-authorization"@ || name@ == "te"@ || name@ == "trailer"@ || name@
            == "transfer-encoding"@ || name@ == "upgrade"@),
{
    same_text(name, "connection") || same_text(name, "keep-alive") || same_text(
        name,
        "proxy-authenticate",
    ) || same_text(name, "proxy-authorization") || same_text(name, "te") || same_text(
        name,
        "trailer",
    ) || same_text(name, "transfer-encoding") || same_text(name, "upgrade")
}

/// The headers of a client request that are not passed on: the hop-by-hop ones, and
/// those that are made anew for the upstream request.
pub open spec fn request_skipped(name: Seq<char>) -> bool {
    ||| hop_by_hop(name)
    ||| name == "content-length"@
    ||| name == "host"@
}

/// Whether the request header `name`, in lower case, is not passed on.
pub fn is_request_skipped(name: &str) -> (r: bool)
    ensures
        r == request_skipped(name@),
        r == (name@ == "connection"@ || name@ == "keep-alive"@ || name@ == "proxy-authenticate"@
            || name@ == "proxy-authorization"@ || name@ == "te"@ || name@ == "trailer"@ || name@
            == "transfer-encoding"@ || name@ == "upgrade"@ || name@ == "content-length"@ || name@
            == "host"@),
{
    is_hop_by_hop(name) || same_text(name, "content-length") || same_text(name, "host")
}

/// Headers as plain names and values.
pub type HeadersView = Seq<(Seq<char>, Seq<u8>)>;

/// Headers as plain names and values.
pub open spec fn headers_view(s: Seq<(String, Vec<u8>)>) -> HeadersView {
    s.map_values(|h: (String, Vec<u8>)| (h.0@, h.1@))
}

/// Whether `value` holds visible ASCII, spaces and tabs only.
pub open spec fn is_visible(value: Seq<u8>) -> bool {
    forall|i: int| 0 <= i < value.len() ==> (32 <= #[trigger] value[i] < 127 || value[i] == 9)
}

/// The text of ASCII bytes.
pub open spec fn ascii_text(value: Seq<u8>) -> Seq<char> {
    value.map_values(|b: u8| b as char)
}

/// `reqwest::header::HeaderValue::from_bytes`, then `HeaderValue::to_str`. Believed of
/// them: together they give the text of a value that holds visible ASCII, spaces and
/// tabs only, and nothing for any other value.
#[verifier::external_body]
fn header_text(value: &[u8]) -> (r: Option<String>)
    ensures
        match r {
            Some(text) => is_visible(value@) && text@ == ascii_text(value@),
            None => !is_visible(value@),
        },
{
    HeaderValue::from_bytes(value).ok()?.to_str().ok().map(str::to_owned)
}

/// Whether `value` can be the value of a header: no control byte but the tab.
pub open spec fn is_header_value(value: Seq<u8>) -> bool {
    forall|i: int| 0 <= i < value.len() ==> (#[trigger] value[i] >= 32 && value[i] != 127 || value[i] == 9)
}

/// `reqwest::header::HeaderValue::from_bytes`. Believed of it: it takes the values
/// without a control byte other than the tab, and no others.
#[verifier::external_body]
fn takes_value(value: &[u8]) -> (r: bool)
    ensures
        r == is_header_value(value@),
{
    HeaderValue::from_bytes(value).is_ok()
}

/// `actix_web::http::header::HeaderValue::from_bytes`. Believed of it: it takes the
/// values without a control byte other than the tab, and no others.
#[verifier::external_body]
fn answers_value(value: &[u8]) -> (r: bool)
    ensures
        r == is_header_value(value@),
{
    actix_web::http::header::HeaderValue::from_bytes(value).is_ok()
}

/// Whether `c` can stand in the name of a header.
pub open spec fn is_token_char(c: char) -> bool {
    ||| '0' <= c <= '9'
    ||| 'A' <= c <= 'Z'
    ||| 'a' <= c <= 'z'
    ||| c == '!' || c == '#' || c == '$' || c == '%' || c == '&' || c == '\'' || c == '*' || c == '+'
    ||| c == '-' || c == '.' || c == '^' || c == '_' || c == '`' || c == '|' || c == '~'
}

/// Whether `name` can be the name of a header.
pub open spec fn is_header_name(name: Seq<char>) -> bool {
    &&& 0 < name.len() <= 65535
    &&& forall|i: int| 0 <= i < name.len() ==> is_token_char(#[trigger] name[i])
}

/// `reqwest::header::HeaderName::from_bytes`, then `HeaderName::as_str`. Believed of
/// them: they take the names of up to 65535 token characters, put them in lower case,
/// and take no other name.
#[verifier::external_body]
fn header_name(name: &str) -> (r: Option<String>)
    ensures
        match r {
            Some(kept) => is_header_name(name@) && kept@ == lower_text(name@),
            None => !is_header_name(name@),
        },
{
    HeaderName::from_bytes(name.as_bytes()).ok().map(|kept| kept.as_str().to_owned())
}

/// Whether a `Connection` header among `headers` lists `name`.
pub open spec fn connection_names(headers: HeadersView, name: Seq<char>) -> bool {
    exists|i: int|
        0 <= i < headers.len() && (#[trigger] headers[i]).0 == "connection"@ && is_visible(
            headers[i].1,
        ) && lists_header(ascii_text(headers[i].1), name)
}

/// The texts of the `Connection` headers; a value that is not visible ASCII is passed
/// over.
fn connection_values(headers: &Vec<(String, Vec<u8>)>) -> (r: Vec<String>)
    ensures
        forall|name: Seq<char>| #[trigger]
            connection_names(headers_view(headers@), name) <==> exists|j: int|
                0 <= j < r@.len() && lists_header(#[trigger] r@[j]@, name),
{
    let mut out: Vec<String> = Vec::new();
    let ghost all = headers_view(headers@);
    let mut i: usize = 0;
    while i < headers.len()
        invariant
            i <= headers.len(),
            all == headers_view(headers@),
            forall|name: Seq<char>| #[trigger]
                connection_names(all.take(i as int), name) <==> exists|j: int|
                    0 <= j < out@.len() && lists_header(#[trigger] out@[j]@, name),
        decreases headers.len() - i,
    {
        let ghost before = out@;
        let ghost head = all.take(i as int);
        let ghost next = all.take(i + 1);
        assert(next[i as int] == (headers@[i as int].0@, headers@[i as int].1@));
        let mut found: bool = false;
        if same_text(headers[i].0.as_str(), "connection") {
            if let Some(text) = header_text(headers[i].1.as_slice()) {
                out.push(text);
                found = true;
            }
        }
        assert forall|name: Seq<char>| #[trigger]
            connection_names(next, name) <==> exists|j: int|
                0 <= j < out@.len() && lists_header(#[trigger] out@[j]@, name) by {
            if connection_names(next, name) {
                let k = choose|k: int|
                    0 <= k < next.len() && (#[trigger] next[k]).0 == "connection"@ && is_visible(
                        next[k].1,
                    ) && lists_header(ascii_text(next[k].1), name);
                if k < i {
                    assert(head[k] == next[k]);
                    assert(connection_names(head, name));
                    let j = choose|j: int|
                        0 <= j < before.len() && lists_header(#[trigger] before[j]@, name);
                    assert(out@[j] == before[j]);
                } else {
                    assert(found);
                    assert(lists_header(out@[before.len() as int]@, name));
                }
            }
            if exists|j: int| 0 <= j < out@.len() && lists_header(#[trigger] out@[j]@, name) {
                let j = choose|j: int|
                    0 <= j < out@.len() && lists_header(#[trigger] out@[j]@, name);
                if j < before.len() {
                    assert(lists_header(before[j]@, name));
                    assert(connection_names(head, name));
                    let k = choose|k: int|
                        0 <= k < head.len() && (#[trigger] head[k]).0 == "connection"@
                            && is_visible(head[k].1) && lists_header(ascii_text(head[k].1), name);
                    assert(next[k] == head[k]);
                } else {
                    assert(next[i as int].0 == "connection"@);
                }
            }
        }
        i += 1;
    }
    assert(all.take(i as int) == all);
    out
}

fn as_strs(values: &Vec<String>) -> (r: Vec<&str>)
    ensures
        r@.len() == values@.len(),
        forall|i: int| 0 <= i < r@.len() ==> (#[trigger] r@[i])@ == values@[i]@,
{
    let mut out: Vec<&str> = Vec::new();
    let mut i: usize = 0;
    while i < values.len()
        invariant
            i <= values.len(),
            out@.len() == i,
            forall|j: int| 0 <= j < i ==> (#[trigger] out@[j])@ == values@[j]@,
        decreases values.len() - i,
    {
        out.push(values[i].as_str());
        i += 1;
    }
    out
}

/// Whether an upstream response header goes back to the client.
pub open spec fn response_forwards(headers: HeadersView, header: (Seq<char>, Seq<u8>)) -> bool {
    &&& !hop_by_hop(header.0)
    &&& header.0 != "content-length"@
    &&& !connection_names(headers, header.0)
    &&& is_header_value(header.1)
}

/// The headers of an upstream response that go back to the client, in order.
pub fn response_headers(headers: &Vec<(String, Vec<u8>)>) -> (r: Vec<(String, Vec<u8>)>)
    ensures
        headers_view(r@) == headers_view(headers@).filter(
            |h: (Seq<char>, Seq<u8>)| response_forwards(headers_view(headers@), h),
        ),
{
    let values = connection_values(headers);
    let names = as_strs(&values);
    let mut out: Vec<(String, Vec<u8>)> = Vec::new();
    let ghost all = headers_view(headers@);
    let ghost keeps = |h: (Seq<char>, Seq<u8>)| response_forwards(all, h);
    let mut i: usize = 0;
    assert(headers_view(out@) =~= all.take(0).filter(keeps)) by {
        reveal(Seq::filter);
    }
    while i < headers.len()
        invariant
            i <= headers.len(),
            all == headers_view(headers@),
            keeps == (|h: (Seq<char>, Seq<u8>)| response_forwards(all, h)),
            forall|name: Seq<char>| #[trigger]
                connection_names(all, name) <==> exists|j: int|
                    0 <= j < values@.len() && lists_header(#[trigger] values@[j]@, name),
            names@.len() == values@.len(),
            forall|j: int| 0 <= j < names@.len() ==> (#[trigger] names@[j])@ == values@[j]@,
            headers_view(out@) == all.take(i as int).filter(keeps),
        decreases headers.len() - i,
    {
        let ghost head = all.take(i as int);
        assert(all.take(i + 1).drop_last() == head);
        assert(all.take(i + 1).filter(keeps) == if keeps(all[i as int]) {
            head.filter(keeps).push(all[i as int])
        } else {
            head.filter(keeps)
        }) by {
            reveal(Seq::filter);
        }
        let name = headers[i].0.as_str();
        let value = &headers[i].1;
        let named = is_connection_named(names.as_slice(), name);
        proof {
            lemma_named(all, values@, names@, name@);
        }
        if !is_hop_by_hop(name) && !same_text(name, "content-length") && !named && answers_value(
            value.as_slice(),
        ) {
            let ghost before = out@;
            out.push((headers[i].0.clone(), value.clone()));
            assert(out@.last().1@ =~= value@);
            assert(headers_view(out@) =~= headers_view(before).push(all[i as int]));
        }
        i += 1;
    }
    assert(all.take(i as int) == all);
    out
}

proof fn lemma_named(headers: HeadersView, values: Seq<String>, names: Seq<&str>, name: Seq<char>)
    requires
        forall|name: Seq<char>| #[trigger]
            connection_names(headers, name) <==> exists|j: int|
                0 <= j < values.len() && lists_header(#[trigger] values[j]@, name),
        names.len() == values.len(),
        forall|j: int| 0 <= j < names.len() ==> (#[trigger] names[j])@ == values[j]@,
    ensures
        connection_names(headers, name) <==> exists|j: int|
            0 <= j < names.len() && lists_header(#[trigger] names[j]@, name),
{
    if exists|j: int| 0 <= j < values.len() && lists_header(#[trigger] values[j]@, name) {
        let j = choose|j: int| 0 <= j < values.len() && lists_header(#[trigger] values[j]@, name);
        assert(lists_header(names[j]@, name));
    }
    if exists|j: int| 0 <= j < names.len() && lists_header(#[trigger] names[j]@, name) {
        let j = choose|j: int| 0 <= j < names.len() && lists_header(#[trigger] names[j]@, name);
        assert(lists_header(values[j]@, name));
    }
}

#[verifier::external_type_specification]
#[verifier::external_body]
pub struct ExHeaderValue(HeaderValue);

#[verifier::external_type_specification]
#[verifier::external_body]
#[verifier::reject_recursive_types(T)]
pub struct ExHeaderMap<T>(HeaderMap<T>);

/// Header names, in lower case, each with its values in the order they were added.
pub type HeaderContents = Map<Seq<char>, Seq<Seq<u8>>>;

/// What a `reqwest::header::HeaderMap` holds.
pub uninterp spec fn header_contents(headers: HeaderMap<HeaderValue>) -> HeaderContents;

/// `contents` with one more value of `name`.
pub open spec fn appended(
    contents: HeaderContents,
    name: Seq<char>,
    value: Seq<u8>,
) -> HeaderContents {
    let values = if contents.contains_key(name) {
        contents[name]
    } else {
        Seq::empty()
    };
    contents.insert(name, values.push(value))
}

/// The largest capacity that a header map can be made with.
pub const MAX_CAPACITY: usize = 24576;

/// A header map with fewer names than this has room for one more.
pub const SURE_NAMES: usize = 6554;

/// `reqwest::header::HeaderMap::try_with_capacity`. Believed of it: it makes an empty
/// map up to the largest capacity, and none beyond.
#[verifier::external_body]
fn new_header_map(capacity: usize) -> (r: Option<HeaderMap<HeaderValue>>)
    ensures
        r is Some <==> capacity <= MAX_CAPACITY,
        r matches Some(headers) ==> header_contents(headers) == HeaderContents::empty(),
{
    HeaderMap::try_with_capacity(capacity).ok()
}

/// `reqwest::header::HeaderMap::try_append`. Believed of it: it adds the value after the
/// other values of the name, and fails only where the table cannot grow, which it may
/// have to from `SURE_NAMES` names on.
#[verifier::external_body]
fn append_header(headers: &mut HeaderMap<HeaderValue>, name: &str, value: &[u8]) -> (r: bool)
    requires
        is_header_name(name@),
        is_header_value(value@),
    ensures
        r ==> header_contents(*final(headers)) == appended(
            header_contents(*old(headers)),
            lower_text(name@),
            value@,
        ),
        !r ==> header_contents(*old(headers)).len() >= SURE_NAMES,
{
    match (HeaderName::from_bytes(name.as_bytes()), HeaderValue::from_bytes(value)) {
        (Ok(name), Ok(value)) => headers.try_append(name, value).is_ok(),
        _ => false,
    }
}

/// `reqwest::header::HeaderMap::try_insert`. Believed of it: the value takes the place
/// of all values of the name, and it fails only where the table cannot grow, which it
/// may have to from `SURE_NAMES` names on.
#[verifier::external_body]
fn insert_header(headers: &mut HeaderMap<HeaderValue>, name: &str, value: &[u8]) -> (r: bool)
    requires
        is_header_name(name@),
        is_header_value(value@),
    ensures
        r ==> header_contents(*final(headers)) == header_contents(*old(headers)).insert(
            lower_text(name@),
            seq![value@],
        ),
        !r ==> header_contents(*old(headers)).len() >= SURE_NAMES,
{
    match (HeaderName::from_bytes(name.as_bytes()), HeaderValue::from_bytes(value)) {
        (Ok(name), Ok(value)) => headers.try_insert(name, value).is_ok(),
        _ => false,
    }
}

/// The `User-Agent` of every upstream request: a desktop browser's.
pub const BROWSER_UA: &'static str =
    "Mozilla/5.0 (Macintosh; Intel Mac OS X 10_15_7) AppleWebKit/537.36 (KHTML, like Gecko) Chrome/136.0.0.0 Safari/537.36";

/// Whether a client header goes to the upstream.
pub open spec fn request_forwards(headers: HeadersView, header: (Seq<char>, Seq<u8>)) -> bool {
    &&& !request_skipped(header.0)
    &&& !connection_names(headers, header.0)
    &&& is_header_name(header.0)
    &&& is_header_value(header.1)
}

/// The client headers among `some` that go to the upstream, where `headers` are all of
/// them.
pub open spec fn forwarded(headers: HeadersView, some: HeadersView) -> HeaderContents
    decreases some.len(),
{
    if some.len() == 0 {
        HeaderContents::empty()
    } else {
        let before = forwarded(headers, some.drop_last());
        if request_forwards(headers, some.last()) {
            appended(before, lower_text(some.last().0), some.last().1)
        } else {
            before
        }
    }
}

/// The value of an `Authorization` header that carries `key`.
pub open spec fn bearer(key: Seq<char>) -> Seq<u8> {
    encode_utf8("Bearer "@ + key)
}

/// The headers of the upstream request for a client's `headers`: those that are passed
/// on, the configured key where no `Authorization` is among them, and the fixed
/// `User-Agent` and `Accept-Encoding` in place of the client's.
pub open spec fn request_contents(headers: HeadersView, api_key: Option<Seq<char>>) -> HeaderContents {
    let passed = forwarded(headers, headers);
    let authorized = match api_key {
        Some(key) if !passed.contains_key("authorization"@) => passed.insert(
            "authorization"@,
            seq![bearer(key)],
        ),
        _ => passed,
    };
    authorized.insert("user-agent"@, seq![encode_utf8(BROWSER_UA@)]).insert(
        "accept-encoding"@,
        seq![encode_utf8("identity"@)],
    )
}

proof fn lemma_fixed_names()
    ensures
        is_header_name("authorization"@),
        is_header_name("user-agent"@),
        is_header_name("accept-encoding"@),
        lower_text("authorization"@) == "authorization"@,
        lower_text("user-agent"@) == "user-agent"@,
        lower_text("accept-encoding"@) == "accept-encoding"@,
{
    reveal_strlit("authorization");
    reveal_strlit("user-agent");
    reveal_strlit("accept-encoding");
    assert(lower_text("authorization"@) =~= "authorization"@);
    assert(lower_text("user-agent"@) =~= "user-agent"@);
    assert(lower_text("accept-encoding"@) =~= "accept-encoding"@);
}

proof fn lemma_fixed_values()
    ensures
        is_header_value(encode_utf8(BROWSER_UA@)),
        is_header_value(encode_utf8("identity"@)),
{
    reveal_strlit(
        "Mozilla/5.0 (Macintosh; Intel Mac OS X 10_15_7) AppleWebKit/537.36 (KHTML, like Gecko) Chrome/136.0.0.0 Safari/537.36",
    );
    reveal_strlit("identity");
    assert(is_ascii_chars(BROWSER_UA@));
    is_ascii_chars_encode_utf8(BROWSER_UA@);
    is_ascii_chars_encode_utf8("identity"@);
}

/// Whether the configured key can go to the upstream, where it has to.
pub open spec fn key_fits(headers: HeadersView, api_key: Option<Seq<char>>) -> bool {
    api_key matches Some(key) ==> forwarded(headers, headers).contains_key("authorization"@)
        || is_header_value(bearer(key))
}

/// Whether a key can stand in an `Authorization` header.
pub fn is_bearer_key(key: &str) -> (r: bool)
    ensures
        r == is_header_value(bearer(key@)),
        r == forall|i: int|
            0 <= i < encode_utf8("Bearer "@ + key@).len() ==> {
                let b = #[trigger] encode_utf8("Bearer "@ + key@)[i];
                b == 9 || (b >= 32 && b != 127)
            },
{
    let text = "Bearer ".to_owned().concat(key);
    takes_value(text.as_str().as_bytes())
}

proof fn lemma_forwarded_len(headers: HeadersView, some: HeadersView)
    ensures
        forwarded(headers, some).dom().finite(),
        forwarded(headers, some).len() <= some.len(),
    decreases some.len(),
{
    if some.len() > 0 {
        lemma_forwarded_len(headers, some.drop_last());
    }
}

proof fn lemma_forwarded_prefix(headers: HeadersView, some: HeadersView, n: int)
    requires
        0 <= n <= some.len(),
    ensures
        forwarded(headers, some.take(n)).dom().subset_of(forwarded(headers, some).dom()),
        forwarded(headers, some.take(n)).len() <= forwarded(headers, some).len(),
    decreases some.len() - n,
{
    if n == some.len() {
        assert(some.take(n) == some);
    } else {
        lemma_forwarded_prefix(headers, some, n + 1);
        assert(some.take(n + 1).drop_last() == some.take(n));
    }
    lemma_forwarded_len(headers, some);
    vstd::set_lib::lemma_len_subset(
        forwarded(headers, some.take(n)).dom(),
        forwarded(headers, some).dom(),
    );
}

proof fn lemma_contents_len(headers: HeadersView, api_key: Option<Seq<char>>)
    ensures
        forwarded(headers, headers).len() <= request_contents(headers, api_key).len(),
{
    lemma_forwarded_len(headers, headers);
}

/// Whether so few names go to the upstream that a header map is sure to take them: the
/// table need not grow past its limit on the way.
pub open spec fn sure_to_fit(headers: HeadersView, api_key: Option<Seq<char>>) -> bool {
    ||| forwarded(headers, headers).len() + 3 <= SURE_NAMES
    ||| request_contents(headers, api_key).len() < SURE_NAMES
}

/// Whether a client's `Authorization` header goes to the upstream.
pub fn passes_authorization(headers: &Vec<(String, Vec<u8>)>) -> (r: bool)
    ensures
        r == forwarded(headers_view(headers@), headers_view(headers@)).contains_key(
            "authorization"@,
        ),
        r == exists|i: int|
            0 <= i < headers@.len() && lower_text((#[trigger] headers@[i]).0@) == "authorization"@
                && request_forwards(headers_view(headers@), (headers@[i].0@, headers@[i].1@)),
{
    proof {
        lemma_passes_name(headers@, "authorization"@);
    }
    let values = connection_values(headers);
    let names = as_strs(&values);
    let ghost all = headers_view(headers@);
    let mut found: bool = false;
    let mut i: usize = 0;
    while i < headers.len()
        invariant
            i <= headers.len(),
            all == headers_view(headers@),
            forall|name: Seq<char>| #[trigger]
                connection_names(all, name) <==> exists|j: int|
                    0 <= j < values@.len() && lists_header(#[trigger] values@[j]@, name),
            names@.len() == values@.len(),
            forall|j: int| 0 <= j < names@.len() ==> (#[trigger] names@[j])@ == values@[j]@,
            found == forwarded(all, all.take(i as int)).contains_key("authorization"@),
        decreases headers.len() - i,
    {
        assert(all.take(i + 1).drop_last() == all.take(i as int));
        assert(all.take(i + 1).last() == (headers@[i as int].0@, headers@[i as int].1@));
        let name = headers[i].0.as_str();
        let named = is_connection_named(names.as_slice(), name);
        proof {
            lemma_named(all, values@, names@, name@);
        }
        if !is_request_skipped(name) && !named && takes_value(headers[i].1.as_slice()) {
            if let Some(kept) = header_name(name) {
                found = found || same_text(kept.as_str(), "authorization");
            }
        }
        i += 1;
    }
    assert(all.take(i as int) == all);
    found
}

/// Whether the configured key can go to the upstream, where it has to. The upstream
/// request can be made only where this holds.
pub fn does_key_fit(headers: &Vec<(String, Vec<u8>)>, api_key: &Option<String>) -> (r: bool)
    ensures
        r == key_fits(headers_view(headers@), text_view(*api_key)),
{
    match api_key {
        Some(key) => passes_authorization(headers) || is_bearer_key(key.as_str()),
        None => true,
    }
}

/// The headers of the upstream request for a client's headers. `None` where a header
/// map cannot hold so many.
pub fn request_headers(
    headers: &Vec<(String, Vec<u8>)>,
    api_key: &Option<String>,
) -> (r: Option<HeaderMap<HeaderValue>>)
    requires
        key_fits(headers_view(headers@), text_view(*api_key)),
    ensures
        r matches Some(out) ==> header_contents(out) == request_contents(
            headers_view(headers@),
            text_view(*api_key),
        ),
        headers@.len() + 3 <= SURE_NAMES ==> r is Some,
        headers@.len() + 2 <= MAX_CAPACITY && sure_to_fit(
            headers_view(headers@),
            text_view(*api_key),
        ) ==> r is Some,
        headers@.len() + 2 > MAX_CAPACITY ==> r is None,
        headers@.len() <= 6551 ==> r is Some,
        headers@.len() <= 24574 && forwarded(headers_view(headers@), headers_view(headers@)).len()
            + 3 <= 6554 ==> r is Some,
        headers@.len() > 24574 ==> r is None,
        r matches Some(out) ==> {
            &&& header_contents(out).contains_key("user-agent"@)
            &&& header_contents(out)["user-agent"@] == seq![encode_utf8(BROWSER_UA@)]
            &&& header_contents(out).contains_key("accept-encoding"@)
            &&& header_contents(out)["accept-encoding"@] == seq![encode_utf8("identity"@)]
        },
        // The key goes out, whole, where the client sends no authorization of its own.
        r matches Some(out) ==> ((forall|i: int|
            0 <= i < headers@.len() ==> lower_text((#[trigger] headers@[i]).0@)
                != "authorization"@) ==> {
            &&& api_key matches Some(key) ==> header_contents(out).contains_key("authorization"@)
                && header_contents(out)["authorization"@] == seq![
                encode_utf8("Bearer "@ + key@),
            ]
            &&& api_key is None ==> !header_contents(out).contains_key("authorization"@)
        }),
{
    proof {
        law_authorization(headers_view(headers@), text_view(*api_key));
        law_fixed_headers(headers_view(headers@), text_view(*api_key));
        lemma_passes_name(headers@, "authorization"@);
        lemma_forwarded_values(
            headers_view(headers@),
            headers_view(headers@),
            "authorization"@,
        );
    }
    let values = connection_values(headers);
    let names = as_strs(&values);
    let ghost all = headers_view(headers@);
    let mut out = match new_header_map(headers.len().saturating_add(2)) {
        Some(out) => out,
        None => {
            return None;
        },
    };
    let mut has_auth: bool = false;
    let mut i: usize = 0;
    proof {
        lemma_fixed_names();
        lemma_fixed_values();
    }
    while i < headers.len()
        invariant
            i <= headers.len(),
            all == headers_view(headers@),
            forall|name: Seq<char>| #[trigger]
                connection_names(all, name) <==> exists|j: int|
                    0 <= j < values@.len() && lists_header(#[trigger] values@[j]@, name),
            names@.len() == values@.len(),
            forall|j: int| 0 <= j < names@.len() ==> (#[trigger] names@[j])@ == values@[j]@,
            header_contents(out) == forwarded(all, all.take(i as int)),
            has_auth == header_contents(out).contains_key("authorization"@),
        decreases headers.len() - i,
    {
        let ghost head = all.take(i as int);
        let ghost next = all.take(i + 1);
        assert(next.drop_last() == head);
        assert(next.last() == (headers@[i as int].0@, headers@[i as int].1@));
        let name = headers[i].0.as_str();
        let value = headers[i].1.as_slice();
        let named = is_connection_named(names.as_slice(), name);
        proof {
            lemma_named(all, values@, names@, name@);
            lemma_forwarded_len(all, head);
            lemma_forwarded_prefix(all, all, i as int);
            lemma_contents_len(all, text_view(*api_key));
        }
        if !is_request_skipped(name) && !named {
            if let Some(kept) = header_name(name) {
                if takes_value(value) {
                    has_auth = has_auth || same_text(kept.as_str(), "authorization");
                    if !append_header(&mut out, name, value) {
                        return None;
                    }
                }
            }
        }
        i += 1;
    }
    assert(all.take(i as int) == all);
    proof {
        lemma_forwarded_len(all, all);
        lemma_contents_len(all, text_view(*api_key));
    }
    if !has_auth {
        if let Some(key) = api_key {
            let text = "Bearer ".to_owned().concat(key.as_str());
            if !insert_header(&mut out, "authorization", text.as_str().as_bytes()) {
                return None;
            }
        }
    }
    if !insert_header(&mut out, "user-agent", BROWSER_UA.as_bytes()) {
        return None;
    }
    if !insert_header(&mut out, "accept-encoding", "identity".as_bytes()) {
        return None;
    }
    Some(out)
}

/// Whether every name is in lower case, as servers hand them out.
pub open spec fn lower_names(headers: HeadersView) -> bool {
    forall|i: int|
        0 <= i < headers.len() ==> lower_text((#[trigger] headers[i]).0) == headers[i].0
}

/// The values that the client sent under `name` and that are passed on, in order.
pub open spec fn passed_values(headers: HeadersView, some: HeadersView, name: Seq<char>) -> Seq<
    Seq<u8>,
> {
    some.filter(
        |h: (Seq<char>, Seq<u8>)| request_forwards(headers, h) && lower_text(h.0) == name,
    ).map_values(|h: (Seq<char>, Seq<u8>)| h.1)
}

proof fn lemma_forwarded_values(headers: HeadersView, some: HeadersView, name: Seq<char>)
    ensures
        forwarded(headers, some).contains_key(name) <==> passed_values(headers, some, name).len()
            > 0,
        forwarded(headers, some).contains_key(name) ==> forwarded(headers, some)[name]
            == passed_values(headers, some, name),
    decreases some.len(),
{
    reveal(Seq::filter);
    let picks = |h: (Seq<char>, Seq<u8>)|
        request_forwards(headers, h) && lower_text(h.0) == name;
    if some.len() > 0 {
        let rest = some.drop_last();
        lemma_forwarded_values(headers, rest, name);
        if picks(some.last()) {
            assert(passed_values(headers, some, name) =~= passed_values(headers, rest, name).push(
                some.last().1,
            ));
            assert(Seq::<Seq<u8>>::empty() =~= passed_values(headers, rest, name)
                || forwarded(headers, rest).contains_key(name));
        } else {
            assert(some.filter(picks) == rest.filter(picks));
        }
    }
}

/// The names that every upstream request sets by itself.
pub open spec fn is_fixed_name(name: Seq<char>) -> bool {
    name == "authorization"@ || name == "user-agent"@ || name == "accept-encoding"@
}

/// Under every name but the three that are set, the upstream gets what the client sent
/// and may be passed on, value for value and in order.
pub proof fn law_values_pass(headers: HeadersView, api_key: Option<Seq<char>>, name: Seq<char>)
    requires
        !is_fixed_name(name),
    ensures
        request_contents(headers, api_key).contains_key(name) <==> passed_values(
            headers,
            headers,
            name,
        ).len() > 0,
        request_contents(headers, api_key).contains_key(name) ==> request_contents(
            headers,
            api_key,
        )[name] == passed_values(headers, headers, name),
{
    lemma_forwarded_values(headers, headers, name);
}

/// No hop-by-hop header reaches the upstream, fixed or listed by a `Connection` header,
/// nor the client's `Content-Length` or `Host`. The three names that are set by
/// themselves stay, though a `Connection` header lists them.
pub proof fn law_no_hop_upstream(headers: HeadersView, api_key: Option<Seq<char>>, name: Seq<char>)
    requires
        lower_names(headers),
        request_skipped(name) || connection_names(headers, name),
        !is_fixed_name(name),
    ensures
        !request_contents(headers, api_key).contains_key(name),
{
    law_values_pass(headers, api_key, name);
    let picks = |h: (Seq<char>, Seq<u8>)|
        request_forwards(headers, h) && lower_text(h.0) == name;
    if headers.filter(picks).len() > 0 {
        broadcast use vstd::seq_lib::group_filter_ensures;

        let h = headers.filter(picks)[0];
        assert(picks(h));
        assert(headers.filter(picks).contains(h));
        lemma_filter_from(headers, picks, 0);
        let i = choose|i: int| 0 <= i < headers.len() && #[trigger] headers[i] == h;
        assert(lower_text(headers[i].0) == headers[i].0);
    }
}

proof fn lemma_filter_from(
    headers: HeadersView,
    picks: spec_fn((Seq<char>, Seq<u8>)) -> bool,
    k: int,
)
    requires
        0 <= k < headers.filter(picks).len(),
    ensures
        exists|i: int|
            0 <= i < headers.len() && #[trigger] headers[i] == headers.filter(picks)[k],
    decreases headers.len(),
{
    reveal(Seq::filter);
    if headers.len() > 0 {
        let rest = headers.drop_last();
        if k < rest.filter(picks).len() {
            lemma_filter_from(rest, picks, k);
            let i = choose|i: int|
                0 <= i < rest.len() && #[trigger] rest[i] == rest.filter(picks)[k];
            assert(headers[i] == headers.filter(picks)[k]);
        } else {
            assert(headers[headers.len() - 1] == headers.filter(picks)[k]);
        }
    }
}

/// Every upstream request carries the one browser `User-Agent` and asks for an answer
/// that is not compressed, whatever the client sent.
pub proof fn law_fixed_headers(headers: HeadersView, api_key: Option<Seq<char>>)
    ensures
        request_contents(headers, api_key).contains_key("user-agent"@),
        request_contents(headers, api_key)["user-agent"@] == seq![encode_utf8(BROWSER_UA@)],
        request_contents(headers, api_key).contains_key("accept-encoding"@),
        request_contents(headers, api_key)["accept-encoding"@] == seq![encode_utf8("identity"@)],
{
    reveal_strlit("user-agent");
    reveal_strlit("accept-encoding");
    assert("user-agent"@.len() != "accept-encoding"@.len());
}

/// A client's own `Authorization` goes to the upstream unchanged. Where none goes, the
/// configured key does, and where there is no key, nothing.
pub proof fn law_authorization(headers: HeadersView, api_key: Option<Seq<char>>)
    ensures
        ({
            let sent = request_contents(headers, api_key);
            let own = passed_values(headers, headers, "authorization"@);
            if own.len() > 0 {
                sent.contains_key("authorization"@) && sent["authorization"@] == own
            } else {
                match api_key {
                    Some(key) => sent.contains_key("authorization"@) && sent["authorization"@]
                        == seq![encode_utf8("Bearer "@ + key)],
                    None => !sent.contains_key("authorization"@),
                }
            }
        }),
{
    reveal_strlit("authorization");
    reveal_strlit("user-agent");
    reveal_strlit("accept-encoding");
    assert("authorization"@.len() != "accept-encoding"@.len());
    assert("authorization"@.len() != "user-agent"@.len());
    lemma_forwarded_values(headers, headers, "authorization"@);
}

proof fn lemma_passes_name(headers: Seq<(String, Vec<u8>)>, name: Seq<char>)
    ensures
        forwarded(headers_view(headers), headers_view(headers)).contains_key(name) <==> exists|
            i: int,
        |
            0 <= i < headers.len() && lower_text((#[trigger] headers[i]).0@) == name
                && request_forwards(headers_view(headers), (headers[i].0@, headers[i].1@)),
{
    let all = headers_view(headers);
    let picks = |h: (Seq<char>, Seq<u8>)| request_forwards(all, h) && lower_text(h.0) == name;
    lemma_forwarded_values(all, all, name);
    broadcast use vstd::seq_lib::group_filter_ensures;

    if all.filter(picks).len() > 0 {
        assert(picks(all.filter(picks)[0]));
        lemma_filter_from(all, picks, 0);
        let i = choose|i: int| 0 <= i < all.len() && #[trigger] all[i] == all.filter(picks)[0];
        assert(headers[i].0@ == all[i].0);
    }
    if exists|i: int|
        0 <= i < headers.len() && lower_text((#[trigger] headers[i]).0@) == name
            && request_forwards(all, (headers[i].0@, headers[i].1@)) {
        let i = choose|i: int|
            0 <= i < headers.len() && lower_text((#[trigger] headers[i]).0@) == name
                && request_forwards(all, (headers[i].0@, headers[i].1@));
        assert(all[i] == (headers[i].0@, headers[i].1@));
        assert(picks(all[i]));
        assert(all.filter(picks).contains(all[i]));
    }
}

/// The value that carries a key is the text `Bearer `, then the whole key: it reads back
/// as that text, and no two keys make the same value.
pub proof fn law_bearer(key: Seq<char>, other: Seq<char>)
    ensures
        bearer(key) == encode_utf8("Bearer "@ + key),
        decode_utf8(bearer(key)) == "Bearer "@ + key,
        key != other ==> bearer(key) != bearer(other),
{
    let (a, b) = ("Bearer "@ + key, "Bearer "@ + other);
    encode_utf8_decode_utf8(a);
    encode_utf8_decode_utf8(b);
    let n = "Bearer "@.len() as int;
    assert(a.skip(n) =~= key);
    assert(b.skip(n) =~= other);
}

/// The configured key is sent as `Bearer ` and the key, as one value, where the client sent
/// nothing under `authorization` in any letter case; without a key nothing is sent there.
pub proof fn law_key_is_sent(headers: HeadersView, api_key: Option<Seq<char>>)
    requires
        forall|i: int|
            0 <= i < headers.len() ==> lower_text((#[trigger] headers[i]).0) != "authorization"@,
    ensures
        api_key matches Some(key) ==> {
            &&& request_contents(headers, api_key).contains_key("authorization"@)
            &&& request_contents(headers, api_key)["authorization"@].len() == 1
            &&& decode_utf8(request_contents(headers, api_key)["authorization"@][0]) == "Bearer "@
                + key
        },
        api_key is None ==> !request_contents(headers, api_key).contains_key("authorization"@),
{
    law_authorization(headers, api_key);
    let picks = |h: (Seq<char>, Seq<u8>)|
        request_forwards(headers, h) && lower_text(h.0) == "authorization"@;
    if headers.filter(picks).len() > 0 {
        broadcast use vstd::seq_lib::group_filter_ensures;

        assert(picks(headers.filter(picks)[0]));
        lemma_filter_from(headers, picks, 0);
    }
    if let Some(key) = api_key {
        law_bearer(key, key);
    }
}

/// The key must fit only where it is sent: there is one, and no `Authorization` of the
/// client's goes out. It fits where `Bearer ` and the key hold no control byte but tabs.
pub proof fn law_key_fits(headers: HeadersView, key: Seq<char>)
    ensures
        key_fits(headers, None),
        passed_values(headers, headers, "authorization"@).len() > 0 ==> key_fits(
            headers,
            Some(key),
        ),
        passed_values(headers, headers, "authorization"@).len() == 0 ==> (key_fits(
            headers,
            Some(key),
        ) <==> forall|i: int|
            0 <= i < encode_utf8("Bearer "@ + key).len() ==> {
                let b = #[trigger] encode_utf8("Bearer "@ + key)[i];
                b == 9 || (b >= 32 && b != 127)
            }),
{
    lemma_forwarded_values(headers, headers, "authorization"@);
}

/// A client header goes to the upstream if and only if its name is none of the eight
/// hop-by-hop ones nor `content-length` nor `host`, no `Connection` header lists it, its
/// name is a token of at most 65535 characters, and its value holds no control byte but
/// tabs.
pub proof fn law_request_forwards(headers: HeadersView, name: Seq<char>, value: Seq<u8>)
    ensures
        request_forwards(headers, (name, value)) <==> {
            &&& name != "connection"@ && name != "keep-alive"@ && name != "proxy-authenticate"@
            &&& name != "proxy-authorization"@ && name != "te"@ && name != "trailer"@
            &&& name != "transfer-encoding"@ && name != "upgrade"@
            &&& name != "content-length"@ && name != "host"@
            &&& !(exists|i: int|
                0 <= i < headers.len() && (#[trigger] headers[i]).0 == "connection"@ && is_visible(
                    headers[i].1,
                ) && lists_header(ascii_text(headers[i].1), name))
            &&& 0 < name.len() <= 65535
            &&& forall|i: int| 0 <= i < name.len() ==> is_token_char(#[trigger] name[i])
            &&& forall|i: int|
                0 <= i < value.len() ==> (#[trigger] value[i] == 9 || (value[i] >= 32 && value[i]
                    != 127))
        },
{
}

/// A header of the upstream's answer goes to the client if and only if its name is none of
/// the eight hop-by-hop ones nor `content-length`, no `Connection` header lists it, and its
/// value holds no control byte but tabs.
pub proof fn law_response_forwards(headers: HeadersView, name: Seq<char>, value: Seq<u8>)
    ensures
        response_forwards(headers, (name, value)) <==> {
            &&& name != "connection"@ && name != "keep-alive"@ && name != "proxy-authenticate"@
            &&& name != "proxy-authorization"@ && name != "te"@ && name != "trailer"@
            &&& name != "transfer-encoding"@ && name != "upgrade"@ && name != "content-length"@
            &&& !(exists|i: int|
                0 <= i < headers.len() && (#[trigger] headers[i]).0 == "connection"@ && is_visible(
                    headers[i].1,
                ) && lists_header(ascii_text(headers[i].1), name))
            &&& forall|i: int|
                0 <= i < value.len() ==> (#[trigger] value[i] == 9 || (value[i] >= 32 && value[i]
                    != 127))
        },
{
}

/// The values that pass under a name are those of one header after the other: one more
/// that may pass adds its value at the end, and any other adds nothing.
pub proof fn law_passed_values_grow(
    headers: HeadersView,
    some: HeadersView,
    header: (Seq<char>, Seq<u8>),
    name: Seq<char>,
)
    ensures
        passed_values(headers, Seq::empty(), name) == Seq::<Seq<u8>>::empty(),
        request_forwards(headers, header) && lower_text(header.0) == name ==> passed_values(
            headers,
            some.push(header),
            name,
        ) == passed_values(headers, some, name).push(header.1),
        !request_forwards(headers, header) || lower_text(header.0) != name ==> passed_values(
            headers,
            some.push(header),
            name,
        ) == passed_values(headers, some, name),
{
    reveal(Seq::filter);
    let picks = |h: (Seq<char>, Seq<u8>)| request_forwards(headers, h) && lower_text(h.0) == name;
    let value = |h: (Seq<char>, Seq<u8>)| h.1;
    let longer = some.push(header);
    assert(longer.drop_last() =~= some);
    if picks(header) {
        assert(longer.filter(picks) == some.filter(picks).push(header));
        assert(longer.filter(picks).map_values(value) =~= some.filter(picks).map_values(value).push(
            header.1,
        ));
    } else {
        assert(longer.filter(picks) == some.filter(picks));
    }
    assert(passed_values(headers, Seq::empty(), name) =~= Seq::empty());
}

/// Headers are viewed in their places, name by name and value by value.
pub proof fn law_headers_view(s: Seq<(String, Vec<u8>)>)
    ensures
        headers_view(s).len() == s.len(),
        forall|i: int|
            0 <= i < s.len() ==> (#[trigger] headers_view(s)[i]).0 == s[i].0@ && headers_view(
                s,
            )[i].1 == s[i].1@,
{
}

/// A value is text where each byte is a tab, a space or a visible ASCII character, and its
/// text has those characters in their places.
pub proof fn law_value_text(value: Seq<u8>)
    ensures
        is_visible(value) <==> forall|i: int|
            0 <= i < value.len() ==> (#[trigger] value[i] == 9 || 32 <= value[i] <= 126),
        ascii_text(value).len() == value.len(),
        forall|i: int|
            0 <= i < value.len() ==> (#[trigger] ascii_text(value)[i]) as int == value[i] as int,
{
}

/// The characters of a header name are the ASCII letters and digits and fifteen signs.
pub proof fn law_token_char(c: char)
    ensures
        is_token_char(c) <==> {
            let n = c as int;
            ||| 48 <= n <= 57
            ||| 65 <= n <= 90
            ||| 97 <= n <= 122
            ||| n == 33
            ||| 35 <= n <= 39
            ||| n == 42 || n == 43 || n == 45 || n == 46
            ||| 94 <= n <= 96
            ||| n == 124 || n == 126
        },
{
}

/// Lower case moves the 26 ASCII capitals by 32, leaves all other characters, and keeps
/// every character in its place.
pub proof fn law_lower_text(s: Seq<char>)
    ensures
        lower_text(s).len() == s.len(),
        forall|i: int|
            0 <= i < s.len() ==> (#[trigger] lower_text(s)[i]) as int == s[i] as int + (if 65
                <= s[i] as int <= 90 {
                32int
            } else {
                0
            }),
{
}

/// The 25 characters that count as whitespace.
pub proof fn law_white_space(c: char)
    ensures
        is_white_space(c) <==> {
            let n = c as int;
            ||| 9 <= n <= 13
            ||| n == 32 || n == 133 || n == 160 || n == 5760
            ||| 8192 <= n <= 8202
            ||| n == 8232 || n == 8233 || n == 8239 || n == 8287 || n == 12288
        },
{
}

proof fn lemma_trimmed_padding(before: Seq<char>, word: Seq<char>, after: Seq<char>)
    requires
        forall|i: int| 0 <= i < before.len() ==> is_white_space(#[trigger] before[i]),
        forall|i: int| 0 <= i < after.len() ==> is_white_space(#[trigger] after[i]),
        word.len() > 0 ==> !is_white_space(word[0]) && !is_white_space(word[word.len() - 1]),
    ensures
        trimmed_end(trimmed_start(before + word + after)) == word,
    decreases before.len() + after.len(),
{
    let all = before + word + after;
    if before.len() > 0 {
        assert(all[0] == before[0]);
        assert(all.drop_first() =~= before.drop_first() + word + after);
        let rest = before.drop_first();
        assert forall|i: int| 0 <= i < rest.len() implies is_white_space(#[trigger] rest[i]) by {
            assert(rest[i] == before[i + 1]);
        }
        lemma_trimmed_padding(rest, word, after);
    } else if word.len() == 0 {
        if after.len() > 0 {
            assert(all[0] == after[0]);
            assert(all.drop_first() =~= before + word + after.drop_first());
            let rest = after.drop_first();
            assert forall|i: int| 0 <= i < rest.len() implies is_white_space(#[trigger] rest[i]) by {
                assert(rest[i] == after[i + 1]);
            }
            lemma_trimmed_padding(before, word, rest);
        } else {
            assert(all =~= word);
        }
    } else {
        assert(all[0] == word[0]);
        assert(trimmed_start(all) == all);
        if after.len() > 0 {
            let rest = after.drop_last();
            assert(all.last() == after.last());
            assert(after.last() == after[after.len() - 1]);
            assert(all.drop_last() =~= before + word + rest);
            assert forall|i: int| 0 <= i < rest.len() implies is_white_space(#[trigger] rest[i]) by {
                assert(rest[i] == after[i]);
            }
            lemma_trimmed_padding(before, word, rest);
            assert(all.drop_last()[0] == word[0]);
            assert(trimmed_start(all.drop_last()) == all.drop_last());
        } else {
            assert(all =~= word);
        }
    }
}

/// A `Connection` value without a comma lists the one word in it, whatever whitespace
/// stands around that word, and nothing else.
pub proof fn law_listing_one(
    before: Seq<char>,
    word: Seq<char>,
    after: Seq<char>,
    name: Seq<char>,
)
    requires
        forall|i: int| 0 <= i < before.len() ==> is_white_space(#[trigger] before[i]),
        forall|i: int| 0 <= i < after.len() ==> is_white_space(#[trigger] after[i]),
        forall|i: int| 0 <= i < word.len() ==> #[trigger] word[i] != ',',
        word.len() > 0 ==> !is_white_space(word[0]) && !is_white_space(word[word.len() - 1]),
    ensures
        lists_header(before + word + after, name) <==> lower_text(word) == lower_text(name),
{
    let value = before + word + after;
    let n = value.len() as int;
    lemma_trimmed_padding(before, word, after);
    assert forall|i: int| 0 <= i < n implies #[trigger] value[i] != ',' by {
        if i < before.len() {
            assert(is_white_space(before[i]));
        } else if i < before.len() + word.len() {
            assert(word[i - before.len()] == value[i]);
        } else {
            assert(is_white_space(after[i - before.len() - word.len()]));
        }
    }
    assert(value.subrange(0, n) =~= value);
    assert(is_part(value, 0, n));
    if lists_header(value, name) {
        let (start, end) = choose|start: int, end: int| #[trigger]
            is_part(value, start, end) && part_names(value, start, end, name);
        assert(start == 0 && end == n);
    } else {
        assert(!part_names(value, 0, n, name));
    }
}

/// The limits of a header map, in numbers.
pub proof fn law_map_limits(headers: HeadersView, api_key: Option<Seq<char>>)
    ensures
        MAX_CAPACITY == 24576,
        SURE_NAMES == 6554,
        forwarded(headers, headers).len() <= 6551 ==> sure_to_fit(headers, api_key),
        request_contents(headers, api_key).len() <= 6553 ==> sure_to_fit(headers, api_key),
{
}

/// A client gets a header of the upstream's answer if and only if it is not hop-by-hop,
/// not listed by a `Connection` header, not `Content-Length`, and its value can stand.
pub proof fn law_response_header(headers: HeadersView, header: (Seq<char>, Seq<u8>))
    ensures
        headers.filter(
            |h: (Seq<char>, Seq<u8>)| response_forwards(headers, h),
        ).contains(header) <==> headers.contains(header) && response_forwards(headers, header),
{
    let keeps = |h: (Seq<char>, Seq<u8>)| response_forwards(headers, h);
    broadcast use vstd::seq_lib::group_filter_ensures;

    let kept = headers.filter(keeps);
    if kept.contains(header) {
        let k = choose|k: int| 0 <= k < kept.len() && kept[k] == header;
        lemma_filter_from(headers, keeps, k);
        assert(keeps(kept[k]));
    }
    if headers.contains(header) && response_forwards(headers, header) {
        let i = choose|i: int| 0 <= i < headers.len() && headers[i] == header;
        assert(keeps(headers[i]));
    }
}

proof fn lemma_lower_trimmed(s: Seq<char>)
    ensures
        trimmed_start(lower_text(s)) == lower_text(trimmed_start(s)),
        trimmed_end(lower_text(s)) == lower_text(trimmed_end(s)),
    decreases s.len(),
{
    if s.len() > 0 {
        lemma_lower_trimmed(s.drop_first());
        lemma_lower_trimmed(s.drop_last());
        assert(lower_text(s).drop_first() =~= lower_text(s.drop_first()));
        assert(lower_text(s).drop_last() =~= lower_text(s.drop_last()));
    }
}

proof fn lemma_lower_part(value: Seq<char>, start: int, end: int, name: Seq<char>)
    ensures
        is_part(lower_text(value), start, end) == is_part(value, start, end),
        is_part(value, start, end) ==> part_names(lower_text(value), start, end, name)
            == part_names(value, start, end, name),
{
    let lowered = lower_text(value);
    assert(forall|i: int|
        0 <= i < value.len() ==> (#[trigger] lowered[i] == ',') == (value[i] == ','));
    if is_part(value, start, end) {
        let part = value.subrange(start, end);
        assert(lowered.subrange(start, end) =~= lower_text(part));
        lemma_lower_trimmed(part);
        lemma_lower_trimmed(trimmed_start(part));
        let trimmed = trimmed_end(trimmed_start(part));
        assert(lower_text(lower_text(trimmed)) =~= lower_text(trimmed));
        assert(forall|i: int| start <= i < end ==> #[trigger] lowered[i] != ',');
    } else if is_part(lowered, start, end) {
        assert forall|i: int| start <= i < end implies #[trigger] value[i] != ',' by {
            assert(lowered[i] != ',');
        }
    }
}

/// Which header a `Connection` value lists does not depend on letter case, neither of
/// the value nor of the name.
pub proof fn law_listing_ignores_case(value: Seq<char>, a: Seq<char>, b: Seq<char>)
    requires
        lower_text(a) == lower_text(b),
    ensures
        lists_header(value, a) == lists_header(value, b),
        lists_header(lower_text(value), a) == lists_header(value, a),
{
    assert forall|start: int, end: int|
        #![trigger is_part(value, start, end)]
        #![trigger is_part(lower_text(value), start, end)]
        {
            &&& is_part(lower_text(value), start, end) == is_part(value, start, end)
            &&& is_part(value, start, end) ==> part_names(lower_text(value), start, end, a)
                == part_names(value, start, end, a)
            &&& part_names(value, start, end, a) == part_names(value, start, end, b)
        } by {
        lemma_lower_part(value, start, end, a);
    }
}

/// Two `Connection` values joined by a comma list what either of them lists.
pub proof fn law_listing_joins(a: Seq<char>, b: Seq<char>, name: Seq<char>)
    ensures
        lists_header(a + ","@ + b, name) == (lists_header(a, name) || lists_header(b, name)),
{
    reveal_strlit(",");
    let joined = a + ","@ + b;
    let n = a.len() as int;
    assert(joined[n] == ',');
    if lists_header(joined, name) {
        let (start, end) = choose|start: int, end: int| #[trigger]
            is_part(joined, start, end) && part_names(joined, start, end, name);
        if end <= n {
            assert(joined.subrange(start, end) =~= a.subrange(start, end));
            assert(forall|i: int| 0 <= i < n ==> joined[i] == #[trigger] a[i]);
            assert(is_part(a, start, end) && part_names(a, start, end, name));
        } else {
            let (s, e) = (start - n - 1, end - n - 1);
            assert(start > n);
            assert(joined.subrange(start, end) =~= b.subrange(s, e));
            assert(forall|i: int| 0 <= i < b.len() ==> joined[i + n + 1] == #[trigger] b[i]);
            assert(is_part(b, s, e) && part_names(b, s, e, name));
        }
    }
    if lists_header(a, name) {
        let (start, end) = choose|start: int, end: int| #[trigger]
            is_part(a, start, end) && part_names(a, start, end, name);
        assert(joined.subrange(start, end) =~= a.subrange(start, end));
        assert(forall|i: int| 0 <= i < n ==> #[trigger] joined[i] == a[i]);
        assert(is_part(joined, start, end) && part_names(joined, start, end, name));
    }
    if lists_header(b, name) {
        let (start, end) = choose|start: int, end: int| #[trigger]
            is_part(b, start, end) && part_names(b, start, end, name);
        let (s, e) = (start + n + 1, end + n + 1);
        assert(joined.subrange(s, e) =~= b.subrange(start, end));
        assert(forall|i: int| n < i < joined.len() ==> #[trigger] joined[i] == b[i - n - 1]);
        assert(is_part(joined, s, e) && part_names(joined, s, e, name));
    }
}

} // verus!
