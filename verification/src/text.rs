//! Text helpers: verified operations on strings, all stated over sequences of
//! characters.

use vstd::prelude::*;
use vstd::string::*;
use vstd::utf8::*;

verus! {

/// `String::push` of the standard library: appends one character.
pub assume_specification[ String::push ](text: &mut String, c: char)
    ensures
        final(text)@ == old(text)@.push(c),
;

/// The characters of each text of a list.
pub open spec fn names(texts: Seq<String>) -> Seq<Seq<char>> {
    texts.map_values(|s: String| s@)
}

/// Whether two texts hold the same characters.
pub fn same_text(a: &str, b: &str) -> (same: bool)
    ensures
        same == (a@ == b@),
{
    let left = a.as_bytes();
    let right = b.as_bytes();
    proof {
        encode_utf8_decode_utf8(a@);
        encode_utf8_decode_utf8(b@);
    }
    if left.len() != right.len() {
        return false;
    }
    let mut i: usize = 0;
    while i < left.len()
        invariant
            i <= left@.len(),
            left@.len() == right@.len(),
            left@ == encode_utf8(a@),
            right@ == encode_utf8(b@),
            forall|k: int| 0 <= k < i ==> left@[k] == right@[k],
        decreases left@.len() - i,
    {
        if left[i] != right[i] {
            return false;
        }
        i += 1;
    }
    assert(left@ =~= right@);
    true
}

/// A text without bytes has no characters, and only such a text.
pub proof fn lemma_empty(text: Seq<char>)
    ensures
        encode_utf8(text).len() == 0 <==> text.len() == 0,
{
    encode_utf8_decode_utf8(text);
    encode_utf8_decode_utf8(Seq::empty());
    assert(text.len() == 0 ==> text =~= Seq::<char>::empty());
    if encode_utf8(text).len() == 0 {
        assert(encode_utf8(text) =~= Seq::<u8>::empty());
        assert(encode_utf8(Seq::<char>::empty()) =~= Seq::<u8>::empty());
    }
}

/// The characters of a text, one by one.
pub fn chars_of(text: &str) -> (chars: Vec<char>)
    ensures
        chars@ == text@,
{
    let mut chars: Vec<char> = Vec::new();
    for c in it: text.chars()
        invariant
            it.seq() == text@,
            chars@ == it.seq().take(it.index()),
    {
        chars.push(c);
    }
    chars
}

/// The text made of the characters from `from` up to `to`.
pub fn text_between(chars: &Vec<char>, from: usize, to: usize) -> (text: String)
    requires
        from <= to <= chars@.len(),
    ensures
        text@ == chars@.subrange(from as int, to as int),
{
    let mut text = String::new();
    let mut i = from;
    while i < to
        invariant
            from <= i <= to <= chars@.len(),
            text@ == chars@.subrange(from as int, i as int),
        decreases to - i,
    {
        text.push(chars[i]);
        assert(chars@.subrange(from as int, i + 1) =~= chars@.subrange(from as int, i as int).push(
            chars@[i as int],
        ));
        i += 1;
    }
    text
}

/// The character for a decimal digit.
pub open spec fn digit(d: nat) -> char {
    ('0' as u32 + d) as char
}

/// A natural number in decimal notation, without leading zeros.
pub open spec fn decimal(n: nat) -> Seq<char>
    decreases n,
{
    if n < 10 {
        seq![digit(n)]
    } else {
        decimal(n / 10).push(digit(n % 10))
    }
}

/// A number in decimal notation.
pub fn decimal_text(n: u64) -> (text: String)
    ensures
        text@ == decimal(n as nat),
    decreases n,
{
    let mut text = if n < 10 {
        String::new()
    } else {
        decimal_text(n / 10)
    };
    let last: u8 = (n % 10) as u8;
    text.push((48 + last) as char);
    text
}

/// Whether `text` begins with `prefix`.
pub open spec fn starts_with(text: Seq<char>, prefix: Seq<char>) -> bool {
    prefix.len() <= text.len() && text.take(prefix.len() as int) == prefix
}

/// What follows `prefix` in `text`, where `text` begins with it.
pub fn strip_prefix(text: &str, prefix: &str) -> (rest: Option<String>)
    ensures
        rest is Some <==> starts_with(text@, prefix@),
        rest matches Some(r) ==> r@ == text@.skip(prefix@.len() as int),
{
    let chars = chars_of(text);
    let head = chars_of(prefix);
    if chars.len() < head.len() {
        return None;
    }
    let mut i: usize = 0;
    while i < head.len()
        invariant
            i <= head@.len() <= chars@.len(),
            chars@ == text@,
            head@ == prefix@,
            forall|k: int| 0 <= k < i ==> chars@[k] == head@[k],
        decreases head@.len() - i,
    {
        if chars[i] != head[i] {
            assert(text@.take(prefix@.len() as int)[i as int] != prefix@[i as int]);
            return None;
        }
        i += 1;
    }
    assert(text@.take(prefix@.len() as int) =~= prefix@);
    Some(text_between(&chars, head.len(), chars.len()))
}

/// The first `limit` characters of a text.
pub fn first_chars(text: &str, limit: usize) -> (head: String)
    ensures
        head@ == if text@.len() <= limit {
            text@
        } else {
            text@.take(limit as int)
        },
{
    let chars = chars_of(text);
    let end = if chars.len() <= limit {
        chars.len()
    } else {
        limit
    };
    assert(text@.subrange(0, end as int) =~= text@.take(end as int));
    assert(text@.take(text@.len() as int) =~= text@);
    text_between(&chars, 0, end)
}

/// Whether a text of more than `limit` bytes can be cut after `limit` bytes:
/// the cut must not fall inside a character.
pub open spec fn cuts_cleanly(text: Seq<char>, limit: nat) -> bool {
    encode_utf8(text).len() > limit ==> is_char_boundary(encode_utf8(text), limit as int)
}

/// A text of more than `limit` bytes cut after `limit` bytes and marked with
/// three dots; a shorter one as it is.
pub open spec fn shortened(text: Seq<char>, limit: nat) -> Seq<char> {
    if encode_utf8(text).len() > limit {
        decode_utf8(encode_utf8(text).take(limit as int)) + "..."@
    } else {
        text
    }
}

/// Whether [`shorten`] can cut this text.
pub fn can_shorten(text: &str, limit: usize) -> (clean: bool)
    ensures
        clean == cuts_cleanly(text@, limit as nat),
{
    text.as_bytes().len() <= limit || text.is_char_boundary(limit)
}

/// Cuts a text of more than `limit` bytes after `limit` bytes and appends
/// three dots.
pub fn shorten(text: &str, limit: usize) -> (short: String)
    requires
        cuts_cleanly(text@, limit as nat),
    ensures
        short@ == shortened(text@, limit as nat),
{
    if text.as_bytes().len() > limit {
        let (head, _tail) = text.split_at(limit);
        proof {
            encode_utf8_decode_utf8(head@);
            assert(text.spec_bytes().subrange(0, limit as int) =~= text.spec_bytes().take(
                limit as int,
            ));
        }
        head.to_owned().concat("...")
    } else {
        text.to_owned()
    }
}

/// Whether one text comes before another in the order of their characters'
/// code points, a text before its own continuations.
pub open spec fn text_lt(a: Seq<char>, b: Seq<char>) -> bool
    decreases a.len(),
{
    if b.len() == 0 {
        false
    } else if a.len() == 0 {
        true
    } else if a[0] != b[0] {
        (a[0] as u32) < (b[0] as u32)
    } else {
        text_lt(a.drop_first(), b.drop_first())
    }
}

/// The order of texts is transitive.
pub proof fn lemma_text_lt_transitive(a: Seq<char>, b: Seq<char>, c: Seq<char>)
    requires
        text_lt(a, b),
        text_lt(b, c),
    ensures
        text_lt(a, c),
    decreases a.len(),
{
    if a.len() > 0 && a[0] == b[0] && b[0] == c[0] {
        lemma_text_lt_transitive(a.drop_first(), b.drop_first(), c.drop_first());
    }
}

/// Of two different texts one comes before the other, and only one.
pub proof fn lemma_text_lt_total(a: Seq<char>, b: Seq<char>)
    ensures
        a != b ==> (text_lt(a, b) <==> !text_lt(b, a)),
        a == b ==> !text_lt(a, b),
    decreases a.len(),
{
    if a.len() > 0 && b.len() > 0 {
        char_u32_cast(a[0], a[0] as u32);
        char_u32_cast(b[0], b[0] as u32);
        if a[0] == b[0] {
            lemma_text_lt_total(a.drop_first(), b.drop_first());
            if a.drop_first() == b.drop_first() {
                assert(a =~= seq![a[0]] + a.drop_first());
                assert(b =~= seq![b[0]] + b.drop_first());
            }
        }
    } else if a.len() == 0 && b.len() == 0 {
        assert(a =~= b);
    }
}

/// Whether `a` comes before `b`.
pub fn comes_before(a: &str, b: &str) -> (before: bool)
    ensures
        before == text_lt(a@, b@),
{
    let left = chars_of(a);
    let right = chars_of(b);
    let mut i: usize = 0;
    assert(left@.skip(0) =~= a@);
    assert(right@.skip(0) =~= b@);
    while i < left.len() && i < right.len()
        invariant
            i <= left@.len(),
            i <= right@.len(),
            text_lt(a@, b@) == text_lt(left@.skip(i as int), right@.skip(i as int)),
        decreases left@.len() - i,
    {
        let x = left[i];
        let y = right[i];
        assert(left@.skip(i as int)[0] == x);
        assert(right@.skip(i as int)[0] == y);
        if x != y {
            return (x as u32) < (y as u32);
        }
        assert(left@.skip(i as int).drop_first() =~= left@.skip(i + 1));
        assert(right@.skip(i as int).drop_first() =~= right@.skip(i + 1));
        i += 1;
    }
    i < right.len()
}

/// The list is in order, no text twice.
pub open spec fn in_order(texts: Seq<String>) -> bool {
    forall|i: int, j: int|
        0 <= i < j < texts.len() ==> text_lt((#[trigger] texts[i])@, (#[trigger] texts[j])@)
}

/// Adds a text to a list that is in order, at its place.
pub fn insert_in_order(texts: &mut Vec<String>, text: String)
    requires
        in_order(old(texts)@),
        forall|i: int| 0 <= i < old(texts)@.len() ==> (#[trigger] old(texts)@[i])@ != text@,
    ensures
        in_order(final(texts)@),
        exists|at: int|
            0 <= at <= old(texts)@.len() && final(texts)@ == old(texts)@.insert(at, text),
{
    let ghost before = texts@;
    let mut at: usize = 0;
    while at < texts.len() && comes_before(texts[at].as_str(), text.as_str())
        invariant
            at <= texts@.len(),
            texts@ == before,
            forall|k: int| 0 <= k < at ==> text_lt((#[trigger] texts@[k])@, text@),
        decreases texts@.len() - at,
    {
        at += 1;
    }
    texts.insert(at, text);
    proof {
        assert forall|i: int, j: int| 0 <= i < j < texts@.len() implies text_lt(
            (#[trigger] texts@[i])@,
            (#[trigger] texts@[j])@,
        ) by {
            if i < at && j > at {
                assert(texts@[i] == before[i] && texts@[j] == before[j - 1]);
            } else if i == at {
                assert(texts@[j] == before[j - 1]);
                lemma_text_lt_total(before[at as int]@, text@);
                if j - 1 > at {
                    assert(text_lt(before[at as int]@, before[j - 1]@));
                    lemma_text_lt_transitive(text@, before[at as int]@, before[j - 1]@);
                }
            } else if i > at {
                assert(texts@[i] == before[i - 1] && texts@[j] == before[j - 1]);
            }
        }
    }
}

/// The text `piece` stands somewhere in `text`.
pub open spec fn shows(text: Seq<char>, piece: Seq<char>) -> bool {
    exists|from: int, to: int|
        0 <= from <= to <= text.len() && #[trigger] text.subrange(from, to) == piece
}

/// A text between two others is shown by the whole, and so is what it shows.
pub proof fn lemma_shows(left: Seq<char>, middle: Seq<char>, right: Seq<char>, piece: Seq<char>)
    requires
        shows(middle, piece),
    ensures
        shows(left + middle + right, piece),
        shows(left + middle, piece),
        shows(middle + right, piece),
{
    let (from, to) = choose|from: int, to: int|
        0 <= from <= to <= middle.len() && #[trigger] middle.subrange(from, to) == piece;
    let n = left.len();
    assert((left + middle + right).subrange(n + from, n + to) =~= piece);
    assert((left + middle).subrange(n + from, n + to) =~= piece);
    assert((middle + right).subrange(from, to) =~= piece);
}

/// A text shows itself.
pub proof fn lemma_shows_itself(text: Seq<char>)
    ensures
        shows(text, text),
{
    assert(text.subrange(0, text.len() as int) =~= text);
}

/// What the texts of a list show is shown by all of them together.
pub proof fn lemma_shows_between(
    left: Seq<char>,
    middle: Seq<char>,
    right: Seq<char>,
    whole: Seq<char>,
)
    requires
        whole == left + middle + right,
    ensures
        shows(whole, middle),
{
    lemma_shows_itself(middle);
    lemma_shows(left, middle, right, middle);
}

/// A text that is not too long is left as it is. One that is too long is cut: it
/// begins with as many bytes of the text as the limit says, and three dots follow.
pub proof fn law_shortening_keeps_the_beginning(text: Seq<char>, limit: nat)
    requires
        cuts_cleanly(text, limit),
    ensures
        encode_utf8(text).len() <= limit ==> shortened(text, limit) == text,
        encode_utf8(text).len() > limit ==> {
            let kept = shortened(text, limit).take(shortened(text, limit).len() - 3);
            &&& shortened(text, limit).len() >= 3
            &&& shortened(text, limit) == kept + "..."@
            &&& kept.is_prefix_of(text)
            &&& encode_utf8(kept).len() == limit
        },
{
    reveal_strlit("...");
    let bytes = encode_utf8(text);
    if bytes.len() > limit {
        encode_utf8_valid_utf8(text);
        encode_utf8_decode_utf8(text);
        valid_utf8_split(bytes, limit as int);
        decode_utf8_split(bytes, limit as int);
        let head = bytes.take(limit as int);
        assert(head =~= bytes.subrange(0, limit as int));
        let kept = decode_utf8(head);
        decode_utf8_encode_utf8(head);
        assert((kept + "..."@).take((kept + "..."@).len() - 3) =~= kept);
        assert(kept =~= text.subrange(0, kept.len() as int));
    }
}

/// The number that a decimal notation stands for.
pub open spec fn number_of_digits(text: Seq<char>) -> nat
    decreases text.len(),
{
    if text.len() == 0 {
        0
    } else {
        number_of_digits(text.drop_last()) * 10 + (text.last() as nat - '0' as nat) as nat
    }
}

/// A number can be read from its decimal notation, which holds digits alone and
/// does not begin with a zero unless the number is zero.
pub proof fn law_decimal_is_read_back(n: nat)
    ensures
        number_of_digits(decimal(n)) == n,
        decimal(n).len() > 0,
        n > 0 ==> decimal(n)[0] != '0',
        forall|i: int| 0 <= i < decimal(n).len() ==> '0' <= #[trigger] decimal(n)[i] <= '9',
    decreases n,
{
    if n < 10 {
        assert(decimal(n) =~= seq![digit(n)]);
        assert(decimal(n).drop_last() =~= Seq::empty());
        assert(number_of_digits(Seq::<char>::empty()) == 0);
        lemma_digit(n);
    } else {
        law_decimal_is_read_back(n / 10);
        lemma_digit(n % 10);
        assert(decimal(n).drop_last() =~= decimal(n / 10));
        assert(decimal(n)[0] == decimal(n / 10)[0]);
        assert forall|i: int| 0 <= i < decimal(n).len() implies '0' <= #[trigger] decimal(n)[i]
            <= '9' by {
            if i < decimal(n / 10).len() {
                assert(decimal(n)[i] == decimal(n / 10)[i]);
            }
        }
    }
}

proof fn lemma_digit(d: nat)
    requires
        d < 10,
    ensures
        digit(d) as nat == '0' as nat + d,
        '0' <= digit(d) <= '9',
        d > 0 ==> digit(d) != '0',
{
}

/// Texts are ordered by their first difference: the one with the smaller character
/// there comes first, and a text comes before its own continuations.
pub proof fn law_first_difference_decides(
    common: Seq<char>,
    a: char,
    b: char,
    more: Seq<char>,
    other: Seq<char>,
)
    ensures
        (a as u32) < (b as u32) ==> text_lt(common.push(a) + more, common.push(b) + other),
        text_lt(common, common.push(a) + more),
    decreases common.len(),
{
    let left = common.push(a) + more;
    let right = common.push(b) + other;
    if common.len() == 0 {
        assert(left[0] == a && right[0] == b);
    } else {
        let rest = common.drop_first();
        law_first_difference_decides(rest, a, b, more, other);
        assert(left.drop_first() =~= rest.push(a) + more);
        assert(right.drop_first() =~= rest.push(b) + other);
        assert(left[0] == common[0] && right[0] == common[0]);
    }
}

} // verus!
