//! Glob patterns that select tools by name.

use vstd::prelude::*;

use crate::text::chars_of;

verus! {

/// `globset::Error`, which [`pattern_outcome`] turns into `None`.
#[verifier::external_type_specification]
#[verifier::external_body]
pub struct ExGlobError(globset::Error);

/// Whether `globset` takes a pattern. The flag says whether only a literal `/`
/// matches a `/`.
pub uninterp spec fn glob_valid(pattern: Seq<char>, literal_separator: bool) -> bool;

/// Whether `globset` finds a text to match a pattern that it takes.
pub uninterp spec fn glob_match(
    pattern: Seq<char>,
    literal_separator: bool,
    text: Seq<char>,
) -> bool;

/// How often a character occurs.
pub open spec fn occurrences(text: Seq<char>, c: char) -> nat
    decreases text.len(),
{
    if text.len() == 0 {
        0
    } else {
        occurrences(text.drop_last(), c) + if text.last() == c {
            1nat
        } else {
            0
        }
    }
}

/// Where a scan of a pattern stands.
#[derive(Debug, Clone, Copy, PartialEq, Eq, Structural)]
pub enum ClassPart {
    /// Outside of a character class.
    Outside,
    /// Right behind the `[` of a class.
    Opened,
    /// Behind the sign that negates a class.
    Negated,
    /// Behind the first character of a class.
    Inside,
}

/// A group of a pattern that is open: whether an earlier branch has an item,
/// whether the current one has, whether two branches have, whether some branch has
/// more than one, and how deep its deepest item nests.
#[verifier::ext_equal]
pub struct Group {
    pub filled: bool,
    pub started: bool,
    pub split: bool,
    pub wide: bool,
    pub deepest: nat,
}

/// The larger of two numbers.
pub open spec fn larger(a: nat, b: nat) -> nat {
    if a > b {
        a
    } else {
        b
    }
}

/// A group with one more item in its last branch, nested as deep as told. A
/// character of several bytes is several items.
pub open spec fn with_item(group: Group, depth: nat, several: bool) -> Group {
    Group {
        started: true,
        split: group.split || group.filled,
        wide: group.wide || group.started || several,
        deepest: larger(group.deepest, depth),
        ..group
    }
}

/// A group that is about to have one more branch.
pub open spec fn with_branch(group: Group) -> Group {
    Group { filled: group.filled || group.started, started: false, ..group }
}

/// How deep a group nests: one level for itself, one where it has branches to
/// choose from, one where items follow each other in a branch, and the levels of
/// its deepest item.
pub open spec fn group_depth(group: Group) -> nat {
    1 + (if group.split {
        1nat
    } else {
        0
    }) + (if group.wide {
        1nat
    } else {
        0
    }) + group.deepest
}

/// What a scan of a pattern has seen: the groups that are open, the outermost
/// first, how deep the deepest group that was closed nests, and where it stands.
#[verifier::ext_equal]
pub struct Scan {
    pub open: Seq<Group>,
    pub deepest: nat,
    pub class: ClassPart,
}

/// The groups that are open after one more item in the innermost of them.
pub open spec fn with_inner_item(open: Seq<Group>, depth: nat, several: bool) -> Seq<Group> {
    if open.len() == 0 {
        open
    } else {
        open.drop_last().push(with_item(open.last(), depth, several))
    }
}

/// The scan after one more character. Braces and commas within a character class
/// group nothing, and the first character of a class does not close it. A star
/// nests up to four levels, where it is one of two, and a class two.
pub open spec fn scanned(scan: Scan, c: char) -> Scan {
    match scan.class {
        ClassPart::Outside => if c == '[' {
            Scan { class: ClassPart::Opened, ..scan }
        } else if c == '{' {
            Scan {
                open: scan.open.push(
                    Group {
                        filled: false,
                        started: false,
                        split: false,
                        wide: false,
                        deepest: 0,
                    },
                ),
                ..scan
            }
        } else if scan.open.len() == 0 {
            scan
        } else if c == '}' {
            let depth = group_depth(scan.open.last());
            Scan {
                open: with_inner_item(scan.open.drop_last(), depth, false),
                deepest: larger(scan.deepest, depth),
                ..scan
            }
        } else if c == ',' {
            Scan { open: scan.open.drop_last().push(with_branch(scan.open.last())), ..scan }
        } else {
            Scan {
                open: with_inner_item(
                    scan.open,
                    if c == '*' {
                        4
                    } else {
                        0
                    },
                    utf8_width(c) > 1,
                ),
                ..scan
            }
        },
        ClassPart::Opened => if c == '!' || c == '^' {
            Scan { class: ClassPart::Negated, ..scan }
        } else {
            Scan { class: ClassPart::Inside, ..scan }
        },
        ClassPart::Negated => Scan { class: ClassPart::Inside, ..scan },
        ClassPart::Inside => if c == ']' {
            Scan {
                open: with_inner_item(scan.open, 2, false),
                class: ClassPart::Outside,
                ..scan
            }
        } else {
            scan
        },
    }
}

/// The scan of a pattern.
pub open spec fn scan_of(pattern: Seq<char>) -> Scan
    decreases pattern.len(),
{
    if pattern.len() == 0 {
        Scan { open: Seq::empty(), deepest: 0, class: ClassPart::Outside }
    } else {
        scanned(scan_of(pattern.drop_last()), pattern.last())
    }
}

/// No group of a pattern nests more than 249 levels. A group that is never closed
/// nests nothing. With a backslash, which may take a brace its meaning, the
/// braces are counted instead.
pub open spec fn shallow(pattern: Seq<char>) -> bool {
    if portable(pattern) {
        scan_of(pattern).deepest <= 249
    } else {
        occurrences(pattern, '{') <= 80 || occurrences(pattern, '}') <= 80
    }
}

/// The bytes that a character takes in UTF-8.
pub open spec fn utf8_width(c: char) -> nat {
    if (c as u32) < 0x80 {
        1
    } else if (c as u32) < 0x800 {
        2
    } else if (c as u32) < 0x10000 {
        3
    } else {
        4
    }
}

/// An upper bound of the memory, in bytes, that a character of a pattern takes in
/// the compiled expression, whose states take up to 32 bytes each. A byte of text
/// is one state; among the branches of a group it may be two, with what links
/// them. A `?`, a class and a group are two states more, and two stars are up to
/// nine.
pub open spec fn char_cost(c: char, grouped: bool) -> nat {
    if c == '*' {
        160
    } else if c == '?' || c == '[' || c == '{' {
        80
    } else if grouped {
        80 * utf8_width(c)
    } else {
        32 * utf8_width(c)
    }
}

/// An upper bound of the memory that these characters take.
pub open spec fn chars_cost(chars: Seq<char>, grouped: bool) -> nat
    decreases chars.len(),
{
    if chars.len() == 0 {
        0
    } else {
        chars_cost(chars.drop_last(), grouped) + char_cost(chars.last(), grouped)
    }
}

/// The compiled expression of a pattern takes at most 10,400,000 bytes.
pub open spec fn small(pattern: Seq<char>) -> bool {
    chars_cost(pattern, pattern.contains('{')) <= 10_400_000
}

/// Free of backslashes, which `globset` reads as an escape on one system and
/// as a path separator on another.
pub open spec fn portable(text: Seq<char>) -> bool {
    !text.contains('\\')
}

/// A pattern that is small enough to be compiled, or that `globset` rejects.
/// The regular expression of a larger one may be too large for it.
pub open spec fn compilable(pattern: Seq<char>) -> bool {
    &&& shallow(pattern)
    &&& small(pattern) || (portable(pattern) && !glob_valid(pattern, false))
}

/// `globset::GlobBuilder` with its `literal_separator` option: builds a pattern
/// without compiling it. Trusted: whether it does, where the pattern holds no
/// backslash, depends on the arguments alone. Where it holds one, nothing is
/// said, as systems differ. The pattern is shallow because building follows
/// nested groups by recursion.
#[verifier::external_body]
fn glob_builds(pattern: &str, literal_separator: bool) -> (built: Result<(), globset::Error>)
    requires
        shallow(pattern@),
    ensures
        portable(pattern@) ==> (built is Ok <==> glob_valid(pattern@, literal_separator)),
{
    globset::GlobBuilder::new(pattern).literal_separator(literal_separator).build()?;
    Ok(())
}

/// `globset::GlobBuilder` with its `literal_separator` option, built, compiled
/// by `compile_matcher` and matched against a text. Trusted: where neither text
/// holds a backslash the outcome depends on the arguments alone. Where one does,
/// nothing is said of it, as systems differ. `compile_matcher` panics where the
/// regular expression nests more than 250 levels or takes more than 10 MiB once
/// compiled; that of a shallow and small pattern does neither, with one level and
/// some kilobytes to spare for what encloses it.
#[verifier::external_body]
fn glob_is_match(pattern: &str, literal_separator: bool, text: &str) -> (outcome: Result<
    bool,
    globset::Error,
>)
    requires
        shallow(pattern@),
        small(pattern@),
    ensures
        portable(pattern@) ==> (outcome is Ok <==> glob_valid(pattern@, literal_separator)),
        portable(pattern@) && portable(text@) && outcome is Ok ==> glob_match(
            pattern@,
            literal_separator,
            text@,
        ) == outcome->Ok_0,
{
    let glob = globset::GlobBuilder::new(pattern).literal_separator(literal_separator).build()?;
    Ok(glob.compile_matcher().is_match(text))
}

/// Occurrences are no more than characters.
proof fn lemma_occurrences(text: Seq<char>, c: char)
    ensures
        occurrences(text, c) <= text.len(),
        occurrences(text, c) == 0 <==> !text.contains(c),
    decreases text.len(),
{
    if text.len() > 0 {
        let front = text.drop_last();
        lemma_occurrences(front, c);
        if text.contains(c) && text.last() != c {
            let i = choose|i: int| 0 <= i < text.len() && text[i] == c;
            assert(front[i] == c);
        }
        if front.contains(c) {
            let i = choose|i: int| 0 <= i < front.len() && front[i] == c;
            assert(text[i] == c);
        }
        if text.last() == c {
            assert(text[text.len() - 1] == c);
        }
    }
}

/// How often a character occurs.
fn count(chars: &Vec<char>, c: char) -> (n: usize)
    ensures
        n == occurrences(chars@, c),
{
    let total = chars.len();
    let mut n: usize = 0;
    let mut i: usize = 0;
    while i < total
        invariant
            i <= total,
            total == chars@.len(),
            n == occurrences(chars@.take(i as int), c),
            n <= i,
        decreases total - i,
    {
        assert(chars@.take(i + 1).drop_last() =~= chars@.take(i as int));
        if chars[i] == c {
            n += 1;
        }
        i += 1;
    }
    assert(chars@.take(i as int) =~= chars@);
    n
}

/// An open group, as [`Group`] tells of it.
struct OpenGroup {
    filled: bool,
    started: bool,
    split: bool,
    wide: bool,
    deepest: u128,
}

impl View for OpenGroup {
    type V = Group;

    closed spec fn view(&self) -> Group {
        Group {
            filled: self.filled,
            started: self.started,
            split: self.split,
            wide: self.wide,
            deepest: self.deepest as nat,
        }
    }
}

spec fn open_views(open: Seq<OpenGroup>) -> Seq<Group> {
    open.map_values(|g: OpenGroup| g@)
}

/// The bytes that a character takes in UTF-8.
fn width_of(c: char) -> (width: u128)
    ensures
        width == utf8_width(c),
        width <= 4,
{
    let code: u32 = c as u32;
    if code < 0x80 {
        1
    } else if code < 0x800 {
        2
    } else if code < 0x10000 {
        3
    } else {
        4
    }
}

/// Adds an item to the innermost group that is open.
fn add_item(open: &mut Vec<OpenGroup>, depth: u128, several: bool)
    ensures
        open_views(final(open)@) == with_inner_item(open_views(old(open)@), depth as nat, several),
        final(open)@.len() == old(open)@.len(),
        forall|k: int|
            0 <= k < final(open)@.len() ==> (#[trigger] final(open)@[k]).deepest <= depth
                || final(open)@[k].deepest <= old(open)@[k].deepest,
{
    let ghost before = open_views(open@);
    if let Some(group) = open.pop() {
        assert(before.last() == group@);
        let deepest = if group.deepest > depth {
            group.deepest
        } else {
            depth
        };
        open.push(
            OpenGroup {
                filled: group.filled,
                started: true,
                split: group.split || group.filled,
                wide: group.wide || group.started || several,
                deepest,
            },
        );
        assert(open_views(open@) =~= with_inner_item(before, depth as nat, several));
    }
}

/// How deep the deepest group of a pattern nests.
fn deepest_group(chars: &Vec<char>) -> (deepest: u128)
    ensures
        deepest == scan_of(chars@).deepest,
{
    let total = chars.len();
    let mut open: Vec<OpenGroup> = Vec::new();
    let mut deepest: u128 = 0;
    let mut class = ClassPart::Outside;
    let mut i: usize = 0;
    assert(open_views(open@) =~= Seq::empty());
    while i < total
        invariant
            i <= total,
            total == chars@.len(),
            deepest <= 4 + 3 * i,
            forall|k: int| 0 <= k < open@.len() ==> (#[trigger] open@[k]).deepest <= 4 + 3 * i,
            scan_of(chars@.take(i as int)) == (Scan {
                open: open_views(open@),
                deepest: deepest as nat,
                class,
            }),
        decreases total - i,
    {
        assert(chars@.take(i + 1).drop_last() =~= chars@.take(i as int));
        let ghost before = open_views(open@);
        let c = chars[i];
        match class {
            ClassPart::Outside => {
                if c == '[' {
                    class = ClassPart::Opened;
                } else if c == '{' {
                    let group = OpenGroup {
                        filled: false,
                        started: false,
                        split: false,
                        wide: false,
                        deepest: 0,
                    };
                    open.push(group);
                    assert(open_views(open@) =~= before.push(group@));
                } else if c == '}' {
                    if let Some(group) = open.pop() {
                        assert(before.last() == group@);
                        assert(open_views(open@) =~= before.drop_last());
                        let mut depth: u128 = 1 + group.deepest;
                        if group.split {
                            depth += 1;
                        }
                        if group.wide {
                            depth += 1;
                        }
                        if depth > deepest {
                            deepest = depth;
                        }
                        add_item(&mut open, depth, false);
                    }
                } else if c == ',' {
                    if let Some(group) = open.pop() {
                        assert(before.last() == group@);
                        let branched = OpenGroup {
                            filled: group.filled || group.started,
                            started: false,
                            split: group.split,
                            wide: group.wide,
                            deepest: group.deepest,
                        };
                        open.push(branched);
                        assert(open_views(open@) =~= before.drop_last().push(branched@));
                    }
                } else {
                    let depth: u128 = if c == '*' {
                        4
                    } else {
                        0
                    };
                    add_item(&mut open, depth, width_of(c) > 1);
                }
            },
            ClassPart::Opened => {
                if c == '!' || c == '^' {
                    class = ClassPart::Negated;
                } else {
                    class = ClassPart::Inside;
                }
            },
            ClassPart::Negated => {
                class = ClassPart::Inside;
            },
            ClassPart::Inside => {
                if c == ']' {
                    add_item(&mut open, 2, false);
                    class = ClassPart::Outside;
                }
            },
        }
        i += 1;
    }
    assert(chars@.take(i as int) =~= chars@);
    deepest
}

/// An upper bound of the memory that the compiled expression of these characters
/// takes.
fn cost_of(chars: &Vec<char>, grouped: bool) -> (cost: u128)
    ensures
        cost == chars_cost(chars@, grouped),
{
    let total = chars.len();
    let mut cost: u128 = 0;
    let mut i: usize = 0;
    while i < total
        invariant
            i <= total,
            total == chars@.len(),
            cost == chars_cost(chars@.take(i as int), grouped),
            cost <= 320 * i,
        decreases total - i,
    {
        assert(chars@.take(i + 1).drop_last() =~= chars@.take(i as int));
        let c = chars[i];
        let more: u128 = if c == '*' {
            160
        } else if c == '?' || c == '[' || c == '{' {
            80
        } else if grouped {
            80 * width_of(c)
        } else {
            32 * width_of(c)
        };
        cost += more;
        i += 1;
    }
    assert(chars@.take(i as int) =~= chars@);
    cost
}

/// Whether the compiled expression of a pattern stays small.
fn is_small(chars: &Vec<char>) -> (fits: bool)
    ensures
        fits == small(chars@),
{
    proof {
        lemma_occurrences(chars@, '{');
    }
    cost_of(chars, count(chars, '{') > 0) <= 10_400_000
}

/// Whether a text is free of backslashes.
pub fn is_portable(text: &str) -> (plain: bool)
    ensures
        plain == portable(text@),
{
    proof {
        lemma_occurrences(text@, '\\');
    }
    count(&chars_of(text), '\\') == 0
}

/// Whether a pattern can be compiled or is rejected.
pub fn is_compilable(pattern: &str) -> (fits: bool)
    ensures
        fits == compilable(pattern@),
{
    let chars = chars_of(pattern);
    let plain = is_portable(pattern);
    let nests_little = if plain {
        deepest_group(&chars) <= 249
    } else {
        count(&chars, '{') <= 80 || count(&chars, '}') <= 80
    };
    if !nests_little {
        return false;
    }
    if is_small(&chars) {
        return true;
    }
    match glob_builds(pattern, false) {
        Ok(_) => false,
        Err(_) => plain,
    }
}

/// What a pattern says of a name where `globset` takes the pattern, and nothing
/// otherwise.
pub open spec fn outcome_of(pattern: Seq<char>, name: Seq<char>) -> Option<bool> {
    if glob_valid(pattern, false) {
        Some(glob_match(pattern, false, name))
    } else {
        None
    }
}

/// What a pattern says of a name: whether the name matches, or nothing where the
/// pattern is no valid glob. `*` and `?` match a `/` like any other character.
pub fn pattern_outcome(pattern: &str, name: &str) -> (outcome: Option<bool>)
    requires
        compilable(pattern@),
    ensures
        portable(pattern@) && portable(name@) ==> outcome == outcome_of(pattern@, name@),
        portable(pattern@) ==> (outcome is Some <==> glob_valid(pattern@, false)),
{
    if !is_small(&chars_of(pattern)) {
        return None;
    }
    match glob_is_match(pattern, false, name) {
        Ok(matched) => Some(matched),
        Err(_) => None,
    }
}

} // verus!
