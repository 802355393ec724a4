//! Context files that are put before a system prompt, cached by their times of
//! modification.

use vstd::prelude::*;
use vstd::string::*;

use crate::mcp::opt_text;
use crate::text::{lemma_shows_between, names, same_text, shows};

verus! {

/// A context file and the label of its section.
#[derive(Debug)]
struct ContextFile {
    path: String,
    label: String,
}

/// Cached file entry: content + last mtime we saw.
#[derive(Debug)]
struct CacheEntry {
    path: String,
    content: String,
    modified: i128,
}

/// Reads and caches system prompt context files, re-reading only when mtime
/// changes.
#[derive(Debug)]
pub struct PromptInjector {
    files: Vec<ContextFile>,
    cache: Vec<CacheEntry>,
}

/// What was seen of a context file.
#[derive(Debug)]
pub enum FileState {
    Missing,
    /// The time of modification in nanoseconds since 1970, zero where the
    /// system gives none. The content, where it was read.
    Present { modified: i128, content: Option<String> },
}

/// The mathematical form of a [`FileState`].
#[verifier::ext_equal]
pub enum SeenView {
    Missing,
    Present(i128, Option<Seq<char>>),
}

impl View for FileState {
    type V = SeenView;

    open spec fn view(&self) -> SeenView {
        match self {
            FileState::Missing => SeenView::Missing,
            FileState::Present { modified, content } => SeenView::Present(
                *modified,
                opt_text(*content),
            ),
        }
    }
}

/// What is remembered of a file: its content and when it was last modified.
#[verifier::ext_equal]
pub struct Remembered {
    pub content: Seq<char>,
    pub modified: i128,
}

/// What is remembered of files, by their paths.
pub type Memory = Map<Seq<char>, Remembered>;

/// The mathematical form of a [`PromptInjector`].
#[verifier::ext_equal]
pub struct InjectorView {
    /// The paths of the context files.
    pub paths: Seq<Seq<char>>,
    /// The labels of their sections.
    pub labels: Seq<Seq<char>>,
    pub memory: Memory,
}

/// A section before the prompt.
#[derive(Debug)]
struct Section {
    label: String,
    content: String,
}

/// The mathematical form of a section.
#[verifier::ext_equal]
pub struct SectionView {
    pub label: Seq<char>,
    pub content: Seq<char>,
}

impl View for Section {
    type V = SectionView;

    closed spec fn view(&self) -> SectionView {
        SectionView { label: self.label@, content: self.content@ }
    }
}

spec fn section_views(sections: Seq<Section>) -> Seq<SectionView> {
    sections.map_values(|s: Section| s@)
}

spec fn cached_paths(cache: Seq<CacheEntry>) -> Seq<Seq<char>> {
    cache.map_values(|e: CacheEntry| e.path@)
}

spec fn memory_of(cache: Seq<CacheEntry>) -> Memory {
    Map::new(
        |path: Seq<char>| cached_paths(cache).contains(path),
        |path: Seq<char>|
            {
                let entry = cache[cached_paths(cache).index_of(path)];
                Remembered { content: entry.content@, modified: entry.modified }
            },
    )
}

impl View for PromptInjector {
    type V = InjectorView;

    closed spec fn view(&self) -> InjectorView {
        InjectorView {
            paths: self.files@.map_values(|f: ContextFile| f.path@),
            labels: self.files@.map_values(|f: ContextFile| f.label@),
            memory: memory_of(self.cache@),
        }
    }
}

/// What a context file contributes: what is remembered of it where it was not
/// modified since, or else what was read.
pub open spec fn contribution(memory: Memory, path: Seq<char>, seen: SeenView) -> Option<Seq<char>> {
    match seen {
        SeenView::Missing => None,
        SeenView::Present(modified, content) => if is_fresh(memory, path, modified) {
            Some(memory[path].content)
        } else {
            content
        },
    }
}

/// A file is remembered as it was at its last modification.
pub open spec fn is_fresh(memory: Memory, path: Seq<char>, modified: i128) -> bool {
    memory.contains_key(path) && memory[path].modified == modified
}

/// What is remembered after a file was seen.
pub open spec fn remembered(memory: Memory, path: Seq<char>, seen: SeenView) -> Memory {
    match seen {
        SeenView::Missing => memory,
        SeenView::Present(modified, content) => if is_fresh(memory, path, modified) {
            memory
        } else {
            match content {
                Some(text) => memory.insert(path, Remembered { content: text, modified }),
                None => memory,
            }
        },
    }
}

/// What is remembered after the first `n` files were seen.
pub open spec fn memory_after(i: InjectorView, seen: Seq<SeenView>, n: nat) -> Memory
    decreases n,
{
    if n == 0 {
        i.memory
    } else {
        remembered(memory_after(i, seen, (n - 1) as nat), i.paths[n - 1], seen[n - 1])
    }
}

/// The sections of the first `n` files.
pub open spec fn sections_of(i: InjectorView, seen: Seq<SeenView>, n: nat) -> Seq<SectionView>
    decreases n,
{
    if n == 0 {
        Seq::empty()
    } else {
        let earlier = sections_of(i, seen, (n - 1) as nat);
        match contribution(memory_after(i, seen, (n - 1) as nat), i.paths[n - 1], seen[n - 1]) {
            Some(content) => earlier.push(SectionView { label: i.labels[n - 1], content }),
            None => earlier,
        }
    }
}

/// The sections as text.
pub open spec fn sections_text(sections: Seq<SectionView>) -> Seq<char>
    decreases sections.len(),
{
    if sections.len() == 0 {
        Seq::empty()
    } else {
        sections_text(sections.drop_last()) + "["@ + sections.last().label + "]\n"@
            + sections.last().content + "\n\n"@
    }
}

/// The prompt after its sections; as it is where there are none.
pub open spec fn injected(sections: Seq<SectionView>, prompt: Seq<char>) -> Seq<char> {
    if sections.len() == 0 {
        prompt
    } else {
        sections_text(sections) + "[Task System Prompt]\n"@ + prompt
    }
}

/// What follows the last `/` of a path.
pub open spec fn last_part(path: Seq<char>) -> Seq<char>
    decreases path.len(),
{
    if path.len() == 0 {
        Seq::empty()
    } else if path.last() == '/' {
        Seq::empty()
    } else {
        last_part(path.drop_last()).push(path.last())
    }
}

/// Where the last `.` of a name stands.
pub open spec fn last_dot(name: Seq<char>) -> Option<nat>
    decreases name.len(),
{
    if name.len() == 0 {
        None
    } else if name.last() == '.' {
        Some((name.len() - 1) as nat)
    } else {
        last_dot(name.drop_last())
    }
}

/// A file name without its extension. A dot at the beginning starts none.
pub open spec fn stem(name: Seq<char>) -> Seq<char> {
    match last_dot(name) {
        Some(dot) => if dot == 0 {
            name
        } else {
            name.take(dot as int)
        },
        None => name,
    }
}

/// The file name at the end of a path. Slashes at the end and parts that are
/// `.` alone are passed over; a path that ends in `..` has none.
pub open spec fn file_name(path: Seq<char>) -> Option<Seq<char>>
    decreases path.len(),
{
    let part = last_part(path);
    let empty = part.len() == 0 || part == "."@;
    if part == ".."@ {
        None
    } else if !empty {
        Some(part)
    } else if part.len() >= path.len() {
        None
    } else {
        file_name(path.take(path.len() - part.len() - 1))
    }
}

/// The file name at the end of a path without its extension.
pub open spec fn path_stem(path: Seq<char>) -> Option<Seq<char>> {
    match file_name(path) {
        Some(name) => Some(stem(name)),
        None => None,
    }
}

/// A path that every system reads in the same way: its parts are separated by
/// `/`, and it begins with no drive and no host.
pub open spec fn plain_path(path: Seq<char>) -> bool {
    &&& !path.contains('\\')
    &&& !(path.len() >= 2 && path[1] == ':')
    &&& !(path.len() >= 2 && path[0] == '/' && path[1] == '/')
}

/// What may be the stem of a path: of a plain path its own, and of any path a
/// piece of it or nothing.
pub open spec fn possible_stem(path: Seq<char>, found: Option<Seq<char>>) -> bool {
    &&& plain_path(path) ==> found == path_stem(path)
    &&& found is Some ==> exists|from: int, to: int|
        0 <= from < to <= path.len() && found->0 == #[trigger] path.subrange(from, to)
}

/// `std::path::Path::file_stem`, as text. Trusted: it is a piece of the path, and
/// of a plain path it is the file name without its extension, or nothing where
/// the path ends in no file name. Which piece of another path it is, is not said,
/// as systems differ.
#[verifier::external_body]
fn file_stem(path: &str) -> (found: Option<String>)
    ensures
        possible_stem(path@, opt_text(found)),
{
    let stem = std::path::Path::new(path).file_stem()?;
    Some(stem.to_str()?.to_owned())
}

/// The label for a file with this stem.
pub open spec fn label_of(stem: Option<Seq<char>>) -> Seq<char> {
    match stem {
        Some(name) => if name == "ARCHITECTURE"@ {
            "System Context"@
        } else if name == "STATE"@ {
            "Current State"@
        } else {
            name
        },
        None => "Context"@,
    }
}

/// The label for a file with this stem.
pub fn label_for_stem(stem: Option<String>) -> (label: String)
    ensures
        label@ == label_of(opt_text(stem)),
{
    match stem {
        Some(name) => if same_text(name.as_str(), "ARCHITECTURE") {
            "System Context".to_owned()
        } else if same_text(name.as_str(), "STATE") {
            "Current State".to_owned()
        } else {
            name
        },
        None => "Context".to_owned(),
    }
}

/// What may be the label of a path: the label for what may be its stem.
pub open spec fn possible_label(path: Seq<char>, label: Seq<char>) -> bool {
    exists|found: Option<Seq<char>>| #[trigger]
        possible_stem(path, found) && label == label_of(found)
}

/// Derive a human-readable label from a file path.
pub fn label_for_path(path: &str) -> (label: String)
    ensures
        plain_path(path@) ==> label@ == label_of(path_stem(path@)),
        possible_label(path@, label@),
{
    let found = file_stem(path);
    assert(possible_stem(path@, opt_text(found)));
    label_for_stem(found)
}

/// The context files where none are configured.
pub fn default_system_prompt_files() -> (files: Vec<String>)
    ensures
        names(files@) == seq!["/opt/cpc/state/ARCHITECTURE.md"@, "/opt/cpc/state/STATE.md"@],
{
    let mut files: Vec<String> = Vec::new();
    files.push("/opt/cpc/state/ARCHITECTURE.md".to_owned());
    files.push("/opt/cpc/state/STATE.md".to_owned());
    assert(names(files@) =~= seq![
        "/opt/cpc/state/ARCHITECTURE.md"@,
        "/opt/cpc/state/STATE.md"@,
    ]);
    files
}

/// The context files with their labels.
fn label_files(paths: &[String]) -> (files: Vec<ContextFile>)
    ensures
        files@.map_values(|f: ContextFile| f.path@) == names(paths@),
        forall|i: int|
            0 <= i < files@.len() ==> possible_label((#[trigger] files@[i]).path@, files@[i].label@),
{
    let mut files: Vec<ContextFile> = Vec::new();
    let mut i: usize = 0;
    while i < paths.len()
        invariant
            i <= paths@.len(),
            files@.len() == i,
            forall|k: int| 0 <= k < i ==> (#[trigger] files@[k]).path@ == paths@[k]@,
            forall|k: int|
                0 <= k < i ==> possible_label((#[trigger] files@[k]).path@, files@[k].label@),
        decreases paths@.len() - i,
    {
        let path = paths[i].clone();
        let label = label_for_path(path.as_str());
        files.push(ContextFile { path, label });
        i += 1;
    }
    assert(files@.map_values(|f: ContextFile| f.path@) =~= names(paths@));
    files
}

impl PromptInjector {
    /// No path is cached twice.
    pub closed spec fn well_formed(self) -> bool {
        cached_paths(self.cache@).no_duplicates()
    }

    /// Build from the model config's `system_prompt_files` field.
    /// If the list is empty, uses defaults.
    pub fn new(configured_files: &[String]) -> (injector: PromptInjector)
        ensures
            injector.well_formed(),
            injector@.paths == if configured_files@.len() == 0 {
                seq!["/opt/cpc/state/ARCHITECTURE.md"@, "/opt/cpc/state/STATE.md"@]
            } else {
                names(configured_files@)
            },
            injector@.labels.len() == injector@.paths.len(),
            forall|i: int|
                0 <= i < injector@.paths.len() ==> possible_label(
                    #[trigger] injector@.paths[i],
                    injector@.labels[i],
                ),
            forall|i: int|
                0 <= i < injector@.paths.len() && plain_path(#[trigger] injector@.paths[i])
                    ==> injector@.labels[i] == label_of(path_stem(injector@.paths[i])),
            injector@.memory == Map::<Seq<char>, Remembered>::empty(),
    {
        let files = if configured_files.len() == 0 {
            label_files(default_system_prompt_files().as_slice())
        } else {
            label_files(configured_files)
        };
        let injector = PromptInjector { files, cache: Vec::new() };
        proof {
            assert(injector@.memory =~= Map::<Seq<char>, Remembered>::empty());
            assert forall|i: int| 0 <= i < injector@.paths.len() implies possible_label(
                #[trigger] injector@.paths[i],
                injector@.labels[i],
            ) by {
                assert(injector@.paths[i] == files@[i].path@);
                assert(injector@.labels[i] == files@[i].label@);
            }
        }
        injector
    }

    /// The paths of the context files.
    pub fn paths(&self) -> (paths: Vec<String>)
        ensures
            names(paths@) == self@.paths,
    {
        let mut paths: Vec<String> = Vec::new();
        let mut i: usize = 0;
        while i < self.files.len()
            invariant
                i <= self.files@.len(),
                paths@.len() == i,
                forall|k: int| 0 <= k < i ==> (#[trigger] paths@[k])@ == self.files@[k].path@,
            decreases self.files@.len() - i,
        {
            paths.push(self.files[i].path.clone());
            i += 1;
        }
        assert(names(paths@) =~= self@.paths);
        paths
    }

    fn find(&self, path: &str) -> (index: Option<usize>)
        requires
            self.well_formed(),
        ensures
            index matches Some(i) ==> i < self.cache@.len() && self.cache@[i as int].path@ == path@
                && self@.memory.contains_key(path@) && self@.memory[path@] == (Remembered {
                content: self.cache@[i as int].content@,
                modified: self.cache@[i as int].modified,
            }),
            index is None ==> !self@.memory.contains_key(path@),
    {
        let ghost marks = cached_paths(self.cache@);
        let mut i: usize = 0;
        while i < self.cache.len()
            invariant
                i <= self.cache@.len(),
                marks == cached_paths(self.cache@),
                marks.no_duplicates(),
                forall|k: int| 0 <= k < i ==> #[trigger] marks[k] != path@,
            decreases self.cache@.len() - i,
        {
            assert(marks[i as int] == self.cache@[i as int].path@);
            if same_text(self.cache[i].path.as_str(), path) {
                assert(marks.contains(path@));
                assert(marks[marks.index_of(path@)] == path@);
                return Some(i);
            }
            i += 1;
        }
        None
    }

    /// Whether a file has to be read: it is not remembered as it was at this
    /// time of modification.
    pub fn needs_read(&self, path: &str, modified: i128) -> (needed: bool)
        requires
            self.well_formed(),
        ensures
            needed == !is_fresh(self@.memory, path@, modified),
    {
        match self.find(path) {
            Some(i) => self.cache[i].modified != modified,
            None => true,
        }
    }

    /// Remembers the content of a file.
    fn remember(&mut self, path: &str, content: &str, modified: i128)
        requires
            old(self).well_formed(),
        ensures
            final(self).well_formed(),
            final(self).files == old(self).files,
            final(self)@.memory == old(self)@.memory.insert(
                path@,
                Remembered { content: content@, modified },
            ),
    {
        let ghost before = self.cache@;
        let ghost marks = cached_paths(before);
        let entry = CacheEntry { path: path.to_owned(), content: content.to_owned(), modified };
        match self.find(path) {
            Some(i) => {
                self.cache.set(i, entry);
                proof {
                    assert(cached_paths(self.cache@) =~= marks);
                    assert(marks[i as int] == path@);
                    assert(marks.contains(path@));
                    assert forall|p: Seq<char>| #[trigger]
                        marks.contains(p) && p != path@ implies memory_of(self.cache@)[p]
                        == memory_of(before)[p] by {
                        assert(marks[marks.index_of(p)] == p);
                    }
                    assert(marks[marks.index_of(path@)] == path@);
                    assert(memory_of(self.cache@) =~= memory_of(before).insert(
                        path@,
                        Remembered { content: content@, modified },
                    ));
                }
            },
            None => {
                self.cache.push(entry);
                proof {
                    let after = cached_paths(self.cache@);
                    assert(after =~= marks.push(path@));
                    assert(after[marks.len() as int] == path@);
                    assert(after.no_duplicates());
                    assert forall|p: Seq<char>| #[trigger] after.contains(p) && p != path@ implies {
                        &&& marks.contains(p)
                        &&& memory_of(self.cache@)[p] == memory_of(before)[p]
                    } by {
                        let k = after.index_of(p);
                        assert(marks[k] == p);
                        assert(marks[marks.index_of(p)] == p);
                        assert(after[marks.index_of(p)] == p);
                    }
                    assert forall|p: Seq<char>| #[trigger] marks.contains(p) implies after.contains(
                        p,
                    ) by {
                        assert(after[marks.index_of(p)] == p);
                    }
                    assert(after[after.index_of(path@)] == path@);
                    assert(memory_of(self.cache@) =~= memory_of(before).insert(
                        path@,
                        Remembered { content: content@, modified },
                    ));
                }
            },
        }
    }

    /// The sections of all configured files, with mtime caching.
    fn read_sections(&mut self, seen: &[FileState]) -> (sections: Vec<Section>)
        requires
            old(self).well_formed(),
            seen@.len() == old(self)@.paths.len(),
        ensures
            final(self).well_formed(),
            ({
                let states = seen@.map_values(|s: FileState| s@);
                let n = seen@.len();
                &&& section_views(sections@) == sections_of(old(self)@, states, n)
                &&& final(self)@ == (InjectorView {
                    memory: memory_after(old(self)@, states, n),
                    ..old(self)@
                })
            }),
    {
        let ghost before = self@;
        let ghost states = seen@.map_values(|s: FileState| s@);
        let mut sections: Vec<Section> = Vec::new();
        let mut i: usize = 0;
        assert(section_views(sections@) =~= sections_of(before, states, 0));
        while i < self.files.len()
            invariant
                i <= self.files@.len(),
                self.well_formed(),
                self.files == old(self).files,
                before == old(self)@,
                seen@.len() == self.files@.len(),
                states == seen@.map_values(|s: FileState| s@),
                self@.memory == memory_after(before, states, i as nat),
                section_views(sections@) == sections_of(before, states, i as nat),
            decreases self.files@.len() - i,
        {
            let path = self.files[i].path.clone();
            assert(before.paths[i as int] == path@);
            assert(before.labels[i as int] == self.files@[i as int].label@);
            assert(states[i as int] == seen@[i as int]@);
            let content = match &seen[i] {
                FileState::Missing => None,
                FileState::Present { modified, content } => {
                    if self.needs_read(path.as_str(), *modified) {
                        match content {
                            Some(read) => {
                                self.remember(path.as_str(), read.as_str(), *modified);
                                Some(read.clone())
                            },
                            None => None,
                        }
                    } else {
                        match self.find(path.as_str()) {
                            Some(k) => Some(self.cache[k].content.clone()),
                            None => None,
                        }
                    }
                },
            };
            if let Some(content) = content {
                let ghost earlier = section_views(sections@);
                let section = Section { label: self.files[i].label.clone(), content };
                sections.push(section);
                assert(section_views(sections@) =~= earlier.push(section@));
            }
            i += 1;
        }
        assert(self@ =~= (InjectorView {
            memory: memory_after(before, states, seen@.len()),
            ..before
        }));
        sections
    }

    /// Read all configured files (with mtime caching) and prepend to the
    /// original system prompt. `seen` tells of each file what was seen of it.
    pub fn inject(&mut self, original_prompt: &str, seen: &[FileState]) -> (prompt: String)
        requires
            old(self).well_formed(),
            seen@.len() == old(self)@.paths.len(),
        ensures
            final(self).well_formed(),
            ({
                let states = seen@.map_values(|s: FileState| s@);
                let n = seen@.len();
                &&& prompt@ == injected(sections_of(old(self)@, states, n), original_prompt@)
                &&& final(self)@ == (InjectorView {
                    memory: memory_after(old(self)@, states, n),
                    ..old(self)@
                })
            }),
    {
        let sections = self.read_sections(seen);
        if sections.len() == 0 {
            return original_prompt.to_owned();
        }
        let ghost all = section_views(sections@);
        let mut text = String::new();
        let mut i: usize = 0;
        assert(text@ =~= sections_text(all.take(0)));
        while i < sections.len()
            invariant
                i <= sections@.len(),
                all == section_views(sections@),
                text@ == sections_text(all.take(i as int)),
            decreases sections@.len() - i,
        {
            assert(all.take(i + 1).drop_last() =~= all.take(i as int));
            assert(all.take(i + 1).last() == sections@[i as int]@);
            text.append("[");
            text.append(sections[i].label.as_str());
            text.append("]\n");
            text.append(sections[i].content.as_str());
            text.append("\n\n");
            i += 1;
        }
        assert(all.take(i as int) =~= all);
        text.append("[Task System Prompt]\n");
        text.append(original_prompt);
        text
    }
}

/// A file that was not modified since it was last read is not needed again:
/// what it contributes does not depend on what is read now.
pub proof fn law_unmodified_file_is_not_read(
    memory: Memory,
    path: Seq<char>,
    modified: i128,
    one: Option<Seq<char>>,
    other: Option<Seq<char>>,
)
    requires
        is_fresh(memory, path, modified),
    ensures
        contribution(memory, path, SeenView::Present(modified, one)) == contribution(
            memory,
            path,
            SeenView::Present(modified, other),
        ),
        remembered(memory, path, SeenView::Present(modified, one)) == memory,
{
}

/// What was read of a file is what it contributes, now and as long as it is not
/// modified.
pub proof fn law_read_file_is_remembered(
    memory: Memory,
    path: Seq<char>,
    modified: i128,
    content: Seq<char>,
    later: Option<Seq<char>>,
)
    requires
        !is_fresh(memory, path, modified),
    ensures
        contribution(memory, path, SeenView::Present(modified, Some(content))) == Some(content),
        contribution(
            remembered(memory, path, SeenView::Present(modified, Some(content))),
            path,
            SeenView::Present(modified, later),
        ) == Some(content),
{
}

/// A file that is missing or cannot be read is skipped: the prompt is that of
/// the other files, and nothing is forgotten.
pub proof fn law_missing_file_is_skipped(i: InjectorView, seen: Seq<SeenView>, n: nat)
    requires
        n > 0,
        contribution(memory_after(i, seen, (n - 1) as nat), i.paths[n - 1], seen[n - 1]) is None,
    ensures
        sections_of(i, seen, n) == sections_of(i, seen, (n - 1) as nat),
        memory_after(i, seen, n) == memory_after(i, seen, (n - 1) as nat),
{
}

/// Where every context file is missing, the prompt stays as it is.
pub proof fn law_prompt_stays_without_context(
    i: InjectorView,
    seen: Seq<SeenView>,
    n: nat,
    prompt: Seq<char>,
)
    requires
        forall|k: int| 0 <= k < n ==> #[trigger] seen[k] == SeenView::Missing,
    ensures
        injected(sections_of(i, seen, n), prompt) == prompt,
{
    lemma_no_sections(i, seen, n);
}

/// Injection only puts text in front: what a prompt becomes is what an empty one
/// becomes, followed by the prompt.
pub proof fn law_injection_puts_text_in_front(sections: Seq<SectionView>, prompt: Seq<char>)
    ensures
        injected(sections, prompt) == injected(sections, Seq::empty()) + prompt,
{
    assert(injected(sections, prompt) =~= injected(sections, Seq::empty()) + prompt);
}

/// A file is seen again as it was: missing again, or with the same time of
/// modification, and not to be read where it could not be read before.
pub open spec fn unchanged(seen: SeenView, again: SeenView) -> bool {
    match (seen, again) {
        (SeenView::Missing, SeenView::Missing) => true,
        (SeenView::Present(modified, content), SeenView::Present(later, read)) => modified == later
            && (content is None ==> read is None),
        _ => false,
    }
}

/// What the injector knows once it saw its files.
pub open spec fn refreshed(i: InjectorView, seen: Seq<SeenView>) -> InjectorView {
    InjectorView { memory: memory_after(i, seen, seen.len()), ..i }
}

/// One path looks the same wherever it is listed.
pub open spec fn seen_alike(paths: Seq<Seq<char>>, seen: Seq<SeenView>) -> bool {
    forall|j: int, k: int|
        0 <= j < seen.len() && 0 <= k < seen.len() && #[trigger] paths[j] == #[trigger] paths[k]
            ==> seen[j] == seen[k]
}

/// While no file changes, the context is the same at every injection and nothing
/// new is remembered: a later prompt becomes what an empty one became before,
/// followed by the prompt.
pub proof fn law_context_stays_while_files_do(
    i: InjectorView,
    seen: Seq<SeenView>,
    again: Seq<SeenView>,
    prompt: Seq<char>,
)
    requires
        seen_alike(i.paths, seen),
        again.len() == seen.len(),
        forall|k: int| 0 <= k < seen.len() ==> unchanged(#[trigger] seen[k], again[k]),
    ensures
        refreshed(refreshed(i, seen), again) == refreshed(i, seen),
        injected(sections_of(refreshed(i, seen), again, again.len()), prompt) == injected(
            sections_of(i, seen, seen.len()),
            Seq::empty(),
        ) + prompt,
{
    lemma_seen_again(i, seen, again, seen.len());
    law_injection_puts_text_in_front(sections_of(i, seen, seen.len()), prompt);
}

/// What the memory after `k` files says of a file among them that it saw.
spec fn recalls(i: InjectorView, seen: Seq<SeenView>, k: nat, j: int) -> bool {
    let memory = memory_after(i, seen, k);
    let given = contribution(memory_after(i, seen, j as nat), i.paths[j], seen[j]);
    match seen[j] {
        SeenView::Missing => given is None,
        SeenView::Present(modified, content) => if is_fresh(memory, i.paths[j], modified) {
            given == Some(memory[i.paths[j]].content)
        } else {
            given is None && content is None
        },
    }
}

/// The memory holds what the files seen so far contributed.
proof fn lemma_recalls(i: InjectorView, seen: Seq<SeenView>, k: nat)
    requires
        k <= seen.len(),
        seen_alike(i.paths, seen),
    ensures
        forall|j: int| 0 <= j < k ==> #[trigger] recalls(i, seen, k, j),
    decreases k,
{
    if k > 0 {
        let last = k - 1;
        lemma_recalls(i, seen, last as nat);
        assert forall|j: int| 0 <= j < k implies #[trigger] recalls(i, seen, k, j) by {
            if j < last {
                assert(recalls(i, seen, last as nat, j));
                if i.paths[j] == i.paths[last] {
                    assert(seen[j] == seen[last]);
                }
            }
        }
    }
}

/// Files that are seen again as they were give the same sections and leave the
/// memory as it is.
proof fn lemma_seen_again(
    i: InjectorView,
    seen: Seq<SeenView>,
    again: Seq<SeenView>,
    k: nat,
)
    requires
        k <= seen.len(),
        again.len() == seen.len(),
        seen_alike(i.paths, seen),
        forall|k: int| 0 <= k < seen.len() ==> unchanged(#[trigger] seen[k], again[k]),
    ensures
        memory_after(refreshed(i, seen), again, k) == refreshed(i, seen).memory,
        sections_of(refreshed(i, seen), again, k) == sections_of(i, seen, k),
    decreases k,
{
    if k > 0 {
        let last = k - 1;
        lemma_seen_again(i, seen, again, last as nat);
        lemma_recalls(i, seen, seen.len());
        assert(recalls(i, seen, seen.len(), last));
        assert(unchanged(seen[last], again[last]));
    }
}

proof fn lemma_no_sections(i: InjectorView, seen: Seq<SeenView>, n: nat)
    requires
        forall|k: int| 0 <= k < n ==> #[trigger] seen[k] == SeenView::Missing,
    ensures
        sections_of(i, seen, n).len() == 0,
    decreases n,
{
    if n > 0 {
        lemma_no_sections(i, seen, (n - 1) as nat);
        assert(seen[n - 1] == SeenView::Missing);
    }
}

/// Every section is shown with its label and its whole content, in order.
pub proof fn law_sections_are_shown(
    first: Seq<SectionView>,
    section: SectionView,
    then: Seq<SectionView>,
    prompt: Seq<char>,
)
    ensures
        shows(
            injected(first.push(section) + then, prompt),
            "["@ + section.label + "]\n"@ + section.content + "\n\n"@,
        ),
        sections_text(first.push(section) + then) == sections_text(first) + ("["@ + section.label
            + "]\n"@ + section.content + "\n\n"@) + sections_text(then),
    decreases then.len(),
{
    let all = first.push(section) + then;
    let shown = "["@ + section.label + "]\n"@ + section.content + "\n\n"@;
    if then.len() == 0 {
        assert(all =~= first.push(section));
        assert(all.drop_last() =~= first);
        assert(sections_text(all) =~= sections_text(first) + shown + sections_text(then));
    } else {
        let front = then.drop_last();
        law_sections_are_shown(first, section, front, prompt);
        assert(all.drop_last() =~= first.push(section) + front);
        assert(all.last() == then.last());
        assert(sections_text(all) =~= sections_text(first) + shown + sections_text(then));
    }
    let rest = sections_text(then) + "[Task System Prompt]\n"@ + prompt;
    assert(injected(all, prompt) =~= sections_text(first) + shown + rest);
    lemma_shows_between(sections_text(first), shown, rest, injected(all, prompt));
}

/// A file is read anew exactly when it was modified since it was remembered, or was
/// not remembered: what is remembered counts for the time of modification that it
/// was read at and for no other.
pub proof fn law_modified_file_is_read_anew(
    memory: Memory,
    path: Seq<char>,
    modified: i128,
    content: Option<Seq<char>>,
)
    ensures
        memory.contains_key(path) && memory[path].modified == modified ==> contribution(
            memory,
            path,
            SeenView::Present(modified, content),
        ) == Some(memory[path].content),
        !memory.contains_key(path) || memory[path].modified != modified ==> contribution(
            memory,
            path,
            SeenView::Present(modified, content),
        ) == content,
        contribution(memory, path, SeenView::Missing) is None,
        remembered(memory, path, SeenView::Missing) == memory,
        forall|other: Seq<char>|
            other != path ==> (#[trigger] remembered(
                memory,
                path,
                SeenView::Present(modified, content),
            ).contains_key(other) <==> memory.contains_key(other)) && (memory.contains_key(other)
                ==> remembered(memory, path, SeenView::Present(modified, content))[other]
                == memory[other]),
{
}

/// Each file that contributes gives one section behind those of the files before
/// it, with its own label and all that it contributes.
pub proof fn law_file_gives_its_section(i: InjectorView, seen: Seq<SeenView>, n: nat)
    requires
        n > 0,
    ensures
        ({
            let earlier = sections_of(i, seen, (n - 1) as nat);
            let all = sections_of(i, seen, n);
            match contribution(
                memory_after(i, seen, (n - 1) as nat),
                i.paths[n - 1],
                seen[n - 1],
            ) {
                Some(content) => {
                    &&& all.len() == earlier.len() + 1
                    &&& earlier.is_prefix_of(all)
                    &&& all.last().label == i.labels[n - 1]
                    &&& all.last().content == content
                },
                None => all == earlier,
            }
        }),
{
    let earlier = sections_of(i, seen, (n - 1) as nat);
    assert(earlier =~= sections_of(i, seen, n).subrange(0, earlier.len() as int));
}

/// The stem of a path is the name of the file without its directory and without its
/// extension.
pub proof fn law_stem_is_the_bare_name(dir: Seq<char>, name: Seq<char>, extension: Seq<char>)
    requires
        name.len() > 0,
        !name.contains('/'),
        extension.len() > 0,
        !extension.contains('/'),
        !extension.contains('.'),
    ensures
        path_stem(dir + seq!['/'] + name + seq!['.'] + extension) == Some(name),
        path_stem(name + seq!['.'] + extension) == Some(name),
        name != "ARCHITECTURE"@ && name != "STATE"@ ==> label_of(Some(name)) == name,
{
    reveal_strlit(".");
    reveal_strlit("..");
    let file = name + seq!['.'] + extension;
    assert(!file.contains('/')) by {
        if file.contains('/') {
            let k = choose|k: int| 0 <= k < file.len() && file[k] == '/';
            if k < name.len() {
                assert(name[k] == '/');
            } else if k > name.len() {
                assert(extension[k - name.len() - 1] == '/');
            }
        }
    }
    lemma_last_part(dir + seq!['/'], file);
    lemma_last_part(Seq::empty(), file);
    assert(dir + seq!['/'] + name + seq!['.'] + extension =~= (dir + seq!['/']) + file);
    assert(Seq::<char>::empty() + file =~= file);
    lemma_last_dot(name, extension);
    assert(file.take(name.len() as int) =~= name);
}

/// What follows the last `/`.
proof fn lemma_last_part(dir: Seq<char>, file: Seq<char>)
    requires
        dir.len() == 0 || dir.last() == '/',
        !file.contains('/'),
    ensures
        last_part(dir + file) == file,
    decreases file.len(),
{
    let path = dir + file;
    if file.len() == 0 {
        assert(path =~= dir);
        assert(last_part(path) =~= file);
    } else {
        let front = file.drop_last();
        assert(file[file.len() - 1] != '/');
        assert(!front.contains('/')) by {
            if front.contains('/') {
                let k = choose|k: int| 0 <= k < front.len() && front[k] == '/';
                assert(file[k] == '/');
            }
        }
        lemma_last_part(dir, front);
        assert(path.drop_last() =~= dir + front);
        assert(last_part(path) =~= file);
    }
}

/// Where the last `.` stands.
proof fn lemma_last_dot(name: Seq<char>, extension: Seq<char>)
    requires
        !extension.contains('.'),
    ensures
        last_dot(name + seq!['.'] + extension) == Some(name.len()),
    decreases extension.len(),
{
    let file = name + seq!['.'] + extension;
    if extension.len() == 0 {
        assert(file.last() == '.');
    } else {
        let front = extension.drop_last();
        assert(extension[extension.len() - 1] != '.');
        assert(!front.contains('.')) by {
            if front.contains('.') {
                let k = choose|k: int| 0 <= k < front.len() && front[k] == '.';
                assert(extension[k] == '.');
            }
        }
        lemma_last_dot(name, front);
        assert(file.drop_last() =~= name + seq!['.'] + front);
    }
}

/// The two files that the driver knows have labels of their own, and a path without
/// a file name has one too.
pub proof fn law_known_files_have_labels()
    ensures
        label_of(Some("ARCHITECTURE"@)) == "System Context"@,
        label_of(Some("STATE"@)) == "Current State"@,
        label_of(None) == "Context"@,
{
    reveal_strlit("ARCHITECTURE");
    reveal_strlit("STATE");
    assert("ARCHITECTURE"@.len() != "STATE"@.len());
}

} // verus!
