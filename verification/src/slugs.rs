//! Short names for transcripts, from web addresses and tool names.

use vstd::prelude::*;
use vstd::string::*;

use crate::text::{chars_of, starts_with, strip_prefix, text_between};

verus! {

/// Whether a character is a letter or a digit of any script.
pub uninterp spec fn alphanumeric(c: char) -> bool;

/// The lowercase form of a text.
pub uninterp spec fn lowercase(text: Seq<char>) -> Seq<char>;

/// A letter or digit of ASCII.
pub open spec fn ascii_alphanumeric(c: char) -> bool {
    ('0' <= c && c <= '9') || ('A' <= c && c <= 'Z') || ('a' <= c && c <= 'z')
}

/// The lowercase form of an ASCII character.
pub open spec fn ascii_lowercase(c: char) -> char {
    if 'A' <= c && c <= 'Z' {
        ((c as u32) + 32) as char
    } else {
        c
    }
}

/// `char::is_alphanumeric` of the standard library. Trusted: the answer depends
/// on the character alone, and of the ASCII characters the letters and digits
/// are alphanumeric.
pub assume_specification[ char::is_alphanumeric ](c: char) -> (is: bool)
    ensures
        is == alphanumeric(c),
        (c as u32) < 128 ==> is == ascii_alphanumeric(c),
;

/// `str::to_lowercase` of the standard library. Trusted: the result depends on
/// the text alone, and in a text of ASCII characters exactly the letters `A` to
/// `Z` are changed, to `a` to `z`.
pub assume_specification[ str::to_lowercase ](text: &str) -> (lower: String)
    ensures
        lower@ == lowercase(text@),
        (forall|i: int| 0 <= i < text@.len() ==> (#[trigger] text@[i] as u32) < 128) ==> lower@
            == text@.map_values(|c: char| ascii_lowercase(c)),
;

/// What stands before the first occurrence of a character, or the whole text.
pub open spec fn before(text: Seq<char>, stop: char) -> Seq<char>
    decreases text.len(),
{
    if text.len() == 0 || text[0] == stop {
        Seq::empty()
    } else {
        seq![text[0]] + before(text.drop_first(), stop)
    }
}

/// What stands behind the last occurrence of a character, or the whole text.
pub open spec fn behind(text: Seq<char>, mark: char) -> Seq<char>
    decreases text.len(),
{
    if text.len() == 0 || text.last() == mark {
        Seq::empty()
    } else {
        behind(text.drop_last(), mark).push(text.last())
    }
}

/// An address without its scheme.
pub open spec fn without_scheme(url: Seq<char>) -> Seq<char> {
    if starts_with(url, "https://"@) {
        url.skip("https://"@.len() as int)
    } else if starts_with(url, "http://"@) {
        url.skip("http://"@.len() as int)
    } else {
        url
    }
}

/// The part of an address that names its host: what stands before its path, its
/// query and its fragment.
pub open spec fn authority_of(url: Seq<char>) -> Seq<char> {
    before(before(before(without_scheme(url), '/'), '?'), '#')
}

/// The host name of an address: no scheme, no path, no query, no fragment, no
/// user and no port.
pub open spec fn host_of(url: Seq<char>) -> Seq<char> {
    before(behind(authority_of(url), '@'), ':')
}

/// The short name for an address: its host name with `_` for `.` and `-`.
pub open spec fn url_slug(url: Seq<char>) -> Seq<char> {
    host_of(url).map_values(
        |c: char|
            if c == '.' || c == '-' {
                '_'
            } else {
                c
            },
    )
}

/// The short name for a tool: its name in lowercase, with `_` for everything
/// but letters and digits.
pub open spec fn tool_slug(name: Seq<char>) -> Seq<char> {
    lowercase(name).map_values(
        |c: char|
            if alphanumeric(c) || c == '_' {
                c
            } else {
                '_'
            },
    )
}

/// How many characters stand before the first occurrence of one.
fn length_before(chars: &Vec<char>, limit: usize, stop: char) -> (length: usize)
    requires
        limit <= chars@.len(),
    ensures
        length <= limit,
        chars@.take(length as int) == before(chars@.take(limit as int), stop),
{
    let ghost text = chars@.take(limit as int);
    let mut i: usize = 0;
    assert(text.skip(0) =~= text);
    assert(chars@.take(0) =~= Seq::empty());
    assert(Seq::<char>::empty() + before(text, stop) =~= before(text, stop));
    while i < limit && chars[i] != stop
        invariant
            i <= limit <= chars@.len(),
            text == chars@.take(limit as int),
            before(text, stop) == chars@.take(i as int) + before(text.skip(i as int), stop),
        decreases limit - i,
    {
        let ghost rest = text.skip(i as int);
        assert(rest[0] == chars@[i as int]);
        assert(rest.drop_first() =~= text.skip(i + 1));
        assert(chars@.take(i + 1) =~= chars@.take(i as int) + seq![chars@[i as int]]);
        assert(before(text, stop) =~= chars@.take(i + 1) + before(text.skip(i + 1), stop));
        i += 1;
    }
    proof {
        if i < limit {
            assert(text.skip(i as int)[0] == chars@[i as int]);
        }
        assert(before(text.skip(i as int), stop) =~= Seq::empty());
        assert(before(text, stop) =~= chars@.take(i as int));
    }
    i
}

/// Where the part behind the last occurrence of a character begins.
fn start_behind(chars: &Vec<char>, limit: usize, mark: char) -> (start: usize)
    requires
        limit <= chars@.len(),
    ensures
        start <= limit,
        chars@.subrange(start as int, limit as int) == behind(chars@.take(limit as int), mark),
{
    let ghost text = chars@.take(limit as int);
    let mut start = limit;
    assert(text.take(limit as int) =~= text);
    assert(behind(text, mark) =~= behind(text, mark) + chars@.subrange(
        limit as int,
        limit as int,
    ));
    while start > 0 && chars[start - 1] != mark
        invariant
            start <= limit <= chars@.len(),
            text == chars@.take(limit as int),
            behind(text, mark) == behind(text.take(start as int), mark) + chars@.subrange(
                start as int,
                limit as int,
            ),
        decreases start,
    {
        let ghost rest = text.take(start as int);
        assert(rest.last() == chars@[start - 1]);
        assert(rest.drop_last() =~= text.take(start - 1));
        assert(behind(text, mark) =~= behind(text.take(start - 1), mark) + chars@.subrange(
            start - 1,
            limit as int,
        ));
        start -= 1;
    }
    proof {
        if start > 0 {
            assert(text.take(start as int).last() == chars@[start - 1]);
        }
        assert(behind(text.take(start as int), mark) =~= Seq::empty());
        assert(behind(text, mark) =~= chars@.subrange(start as int, limit as int));
    }
    start
}

/// Extract a slug from a URL hostname: strip scheme, take hostname, replace
/// dots and dashes with `_`.
pub fn slug_from_url(url: &str) -> (slug: String)
    ensures
        slug@ == url_slug(url@),
{
    let rest = match strip_prefix(url, "https://") {
        Some(rest) => rest,
        None => match strip_prefix(url, "http://") {
            Some(rest) => rest,
            None => url.to_owned(),
        },
    };
    let chars = chars_of(rest.as_str());
    let path = length_before(&chars, chars.len(), '/');
    let query = length_before(&chars, path, '?');
    let fragment = length_before(&chars, query, '#');
    let user = start_behind(&chars, fragment, '@');
    assert(chars@.take(chars@.len() as int) =~= chars@);
    let host_chars = chars_of(text_between(&chars, user, fragment).as_str());
    let host = length_before(&host_chars, host_chars.len(), ':');
    proof {
        assert(host_chars@.take(host_chars@.len() as int) =~= host_chars@);
        assert(host_chars@.take(host as int) == host_of(url@));
    }
    let mut slug = String::new();
    let mut i: usize = 0;
    while i < host
        invariant
            i <= host <= host_chars@.len(),
            host_chars@.take(host as int) == host_of(url@),
            slug@ == url_slug(url@).take(i as int),
        decreases host - i,
    {
        let c = if host_chars[i] == '.' || host_chars[i] == '-' {
            '_'
        } else {
            host_chars[i]
        };
        assert(host_of(url@)[i as int] == host_chars@[i as int]);
        slug.push(c);
        assert(slug@ =~= url_slug(url@).take(i + 1));
        i += 1;
    }
    assert(url_slug(url@).take(i as int) =~= url_slug(url@));
    slug
}

/// Convert a tool name to a slug (lowercase, underscores).
pub fn slug_from_tool_name(name: &str) -> (slug: String)
    ensures
        slug@ == tool_slug(name@),
        (forall|i: int| 0 <= i < name@.len() ==> (#[trigger] name@[i] as u32) < 128) ==> slug@
            == name@.map_values(
            |c: char|
                if ascii_alphanumeric(c) {
                    ascii_lowercase(c)
                } else {
                    '_'
                },
        ),
{
    let lower = name.to_lowercase();
    let chars = chars_of(lower.as_str());
    let ghost ascii = forall|i: int|
        0 <= i < name@.len() ==> (#[trigger] name@[i] as u32) < 128;
    let ghost plain = name@.map_values(
        |c: char|
            if ascii_alphanumeric(c) {
                ascii_lowercase(c)
            } else {
                '_'
            },
    );
    let mut slug = String::new();
    let mut i: usize = 0;
    while i < chars.len()
        invariant
            i <= chars@.len(),
            chars@ == lowercase(name@),
            ascii == (forall|k: int| 0 <= k < name@.len() ==> (#[trigger] name@[k] as u32) < 128),
            ascii ==> chars@ == name@.map_values(|c: char| ascii_lowercase(c)),
            plain == name@.map_values(
                |c: char|
                    if ascii_alphanumeric(c) {
                        ascii_lowercase(c)
                    } else {
                        '_'
                    },
            ),
            slug@ == tool_slug(name@).take(i as int),
            ascii ==> slug@ == plain.take(i as int),
        decreases chars@.len() - i,
    {
        let c = chars[i];
        let kept = if c.is_alphanumeric() || c == '_' {
            c
        } else {
            '_'
        };
        slug.push(kept);
        assert(slug@ =~= tool_slug(name@).take(i + 1));
        proof {
            if ascii {
                assert((name@[i as int] as u32) < 128);
                assert(c == ascii_lowercase(name@[i as int]));
                assert(slug@ =~= plain.take(i + 1));
            }
        }
        i += 1;
    }
    assert(tool_slug(name@).take(i as int) =~= tool_slug(name@));
    assert(ascii ==> plain.take(i as int) =~= plain);
    slug
}

/// What stands before a character holds none.
proof fn lemma_before(text: Seq<char>, stop: char)
    ensures
        !before(text, stop).contains(stop),
        forall|c: char| #[trigger] before(text, stop).contains(c) ==> text.contains(c),
    decreases text.len(),
{
    if text.len() > 0 && text[0] != stop {
        let rest = before(text.drop_first(), stop);
        lemma_before(text.drop_first(), stop);
        assert forall|c: char| #[trigger] before(text, stop).contains(c) implies c != stop
            && text.contains(c) by {
            let i = choose|i: int| 0 <= i < before(text, stop).len() && before(text, stop)[i] == c;
            if i > 0 {
                assert(rest[i - 1] == c);
                assert(rest.contains(c));
                assert(text.drop_first().contains(c));
                let k = choose|k: int|
                    0 <= k < text.drop_first().len() && text.drop_first()[k] == c;
                assert(text[k + 1] == c);
            }
        }
    }
}

/// What stands behind a character holds none, and nothing new.
proof fn lemma_behind(text: Seq<char>, mark: char)
    ensures
        !behind(text, mark).contains(mark),
        forall|c: char| #[trigger] behind(text, mark).contains(c) ==> text.contains(c),
    decreases text.len(),
{
    if text.len() > 0 && text.last() != mark {
        let rest = behind(text.drop_last(), mark);
        lemma_behind(text.drop_last(), mark);
        assert forall|c: char| #[trigger] behind(text, mark).contains(c) implies c != mark
            && text.contains(c) by {
            let i = choose|i: int| 0 <= i < behind(text, mark).len() && behind(text, mark)[i] == c;
            if i < rest.len() {
                assert(rest[i] == c);
                assert(rest.contains(c));
                let k = choose|k: int| 0 <= k < text.drop_last().len() && text.drop_last()[k] == c;
                assert(text[k] == c);
            } else {
                assert(text[text.len() - 1] == c);
            }
        }
    }
}

/// The short name for an address is made from its host name alone: it holds
/// nothing that parts a host name from the rest of an address, and no `.` and no
/// `-`.
pub proof fn law_url_slug_is_plain(url: Seq<char>, i: int)
    requires
        0 <= i < url_slug(url).len(),
    ensures
        url_slug(url)[i] != '/',
        url_slug(url)[i] != '?',
        url_slug(url)[i] != '#',
        url_slug(url)[i] != '@',
        url_slug(url)[i] != ':',
        url_slug(url)[i] != '.',
        url_slug(url)[i] != '-',
{
    let path = before(without_scheme(url), '/');
    let query = before(path, '?');
    let authority = authority_of(url);
    let named = behind(authority, '@');
    lemma_before(without_scheme(url), '/');
    lemma_before(path, '?');
    lemma_before(query, '#');
    lemma_behind(authority, '@');
    lemma_before(named, ':');
    let c = host_of(url)[i];
    assert(host_of(url).contains(c));
    assert(named.contains(c));
    assert(authority.contains(c));
    assert(query.contains(c));
    assert(path.contains(c));
}

/// What stands before a character that comes later: everything up to there.
proof fn lemma_before_prefix(first: Seq<char>, then: Seq<char>, stop: char)
    requires
        !first.contains(stop),
    ensures
        before(first + then, stop) == first + before(then, stop),
        then.len() > 0 && then[0] != stop ==> before(then, stop).len() > 0 && before(then, stop)[0]
            == then[0],
    decreases first.len(),
{
    let whole = first + then;
    if first.len() == 0 {
        assert(whole =~= then);
        assert(first + before(then, stop) =~= before(then, stop));
    } else {
        let rest = first.drop_first();
        assert(first[0] != stop);
        assert(!rest.contains(stop)) by {
            if rest.contains(stop) {
                let k = choose|k: int| 0 <= k < rest.len() && rest[k] == stop;
                assert(first[k + 1] == stop);
            }
        }
        lemma_before_prefix(rest, then, stop);
        assert(whole.drop_first() =~= rest + then);
        assert(before(whole, stop) =~= first + before(then, stop));
    }
}

/// What stands behind a character that comes earlier: everything from there.
proof fn lemma_behind_suffix(first: Seq<char>, then: Seq<char>, mark: char)
    requires
        first.len() == 0 || first.last() == mark,
        !then.contains(mark),
    ensures
        behind(first + then, mark) == then,
    decreases then.len(),
{
    let whole = first + then;
    if then.len() == 0 {
        assert(whole =~= first);
        assert(behind(whole, mark) =~= then);
    } else {
        let front = then.drop_last();
        assert(then[then.len() - 1] != mark);
        assert(!front.contains(mark)) by {
            if front.contains(mark) {
                let k = choose|k: int| 0 <= k < front.len() && front[k] == mark;
                assert(then[k] == mark);
            }
        }
        lemma_behind_suffix(first, front, mark);
        assert(whole.drop_last() =~= first + front);
        assert(behind(whole, mark) =~= then);
    }
}

/// Free of the characters that end the host of an address.
pub open spec fn within_authority(text: Seq<char>) -> bool {
    !text.contains('/') && !text.contains('?') && !text.contains('#')
}

/// The short name for an address is its host, character by character, with `_` for
/// `.` and `-`, whatever user, port, path, query and fragment stand around it.
pub proof fn law_url_slug_is_the_host(
    scheme: Seq<char>,
    user: Seq<char>,
    host: Seq<char>,
    port: Seq<char>,
    rest: Seq<char>,
)
    requires
        scheme == "https://"@ || scheme == "http://"@,
        user.len() == 0 || user.last() == '@',
        port.len() == 0 || port[0] == ':',
        rest.len() == 0 || rest[0] == '/' || rest[0] == '?' || rest[0] == '#',
        within_authority(user),
        within_authority(host),
        within_authority(port),
        !host.contains('@'),
        !host.contains(':'),
        !port.contains('@'),
    ensures
        ({
            let slug = url_slug(scheme + user + host + port + rest);
            &&& slug.len() == host.len()
            &&& forall|i: int|
                0 <= i < host.len() ==> #[trigger] slug[i] == if host[i] == '.' || host[i] == '-' {
                    '_'
                } else {
                    host[i]
                }
        }),
{
    let url = scheme + user + host + port + rest;
    let named = host + port;
    let authority = user + named;
    lemma_scheme(scheme, authority + rest);
    assert(url =~= scheme + (authority + rest));
    assert forall|c: char| #[trigger]
        authority.contains(c) implies user.contains(c) || host.contains(c) || port.contains(c) by {
        let k = choose|k: int| 0 <= k < authority.len() && authority[k] == c;
        if k < user.len() {
            assert(user[k] == c);
        } else if k < user.len() + host.len() {
            assert(host[k - user.len()] == c);
        } else {
            assert(port[k - user.len() - host.len()] == c);
        }
    }
    lemma_before_prefix(authority, rest, '/');
    let path = before(rest, '/');
    lemma_before_prefix(authority, path, '?');
    let query = before(path, '?');
    lemma_before_prefix(authority, query, '#');
    assert(before(query, '#') =~= Seq::empty()) by {
        lemma_before_prefix(Seq::empty(), rest, '/');
        lemma_before_prefix(Seq::empty(), path, '?');
    }
    assert(authority_of(url) =~= authority);
    assert(!named.contains('@')) by {
        if named.contains('@') {
            let k = choose|k: int| 0 <= k < named.len() && named[k] == '@';
            if k < host.len() {
                assert(host[k] == '@');
            } else {
                assert(port[k - host.len()] == '@');
            }
        }
    }
    lemma_behind_suffix(user, named, '@');
    lemma_before_prefix(host, port, ':');
    assert(before(port, ':') =~= Seq::empty());
    assert(host_of(url) =~= host);
}

/// An address is taken without the scheme that it begins with.
proof fn lemma_scheme(scheme: Seq<char>, rest: Seq<char>)
    requires
        scheme == "https://"@ || scheme == "http://"@,
    ensures
        without_scheme(scheme + rest) == rest,
{
    reveal_strlit("https://");
    reveal_strlit("http://");
    let url = scheme + rest;
    assert(url.take(scheme.len() as int) =~= scheme);
    assert(url.skip(scheme.len() as int) =~= rest);
    if scheme == "http://"@ && starts_with(url, "https://"@) {
        assert(url.take("https://"@.len() as int)[4] == url[4]);
        assert("https://"@[4] == 's');
        assert(scheme[4] == ':');
    }
}

/// The short name for a tool is as long as its name in lowercase, holds nothing but
/// letters, digits and `_`, and keeps the letters and digits.
pub proof fn law_tool_slug_is_plain(name: Seq<char>, i: int)
    requires
        0 <= i < lowercase(name).len(),
    ensures
        tool_slug(name).len() == lowercase(name).len(),
        tool_slug(name)[i] == '_' || alphanumeric(tool_slug(name)[i]),
        alphanumeric(lowercase(name)[i]) ==> tool_slug(name)[i] == lowercase(name)[i],
{
}

} // verus!
