//! The result cache: what an execution gave, kept under the fingerprint of the
//! execution, and the policy that says which executions may use it.

use vstd::prelude::*;
use crate::dag::execution::{
    Execution, ExecutionOutput, ExecutionResult, ExecutionResultView, ExecutionTag,
};
use crate::fingerprint::Fingerprint;
use crate::search::{first_position, lemma_first_position, lemma_first_position_is};
use crate::store::FileStoreKey;

verus! {

/// Which executions may take their result from the cache.
#[derive(Debug, Clone, PartialEq, Eq)]
pub enum CacheMode {
    /// Every execution.
    Everything,
    /// No execution.
    Nothing,
    /// Every execution but those with one of these tags.
    Except(Vec<String>),
}

/// Mathematical value of a [`CacheMode`].
pub enum CacheModeView {
    Everything,
    Nothing,
    Except(Seq<Seq<char>>),
}

impl View for CacheMode {
    type V = CacheModeView;

    open spec fn view(&self) -> CacheModeView {
        match *self {
            CacheMode::Everything => CacheModeView::Everything,
            CacheMode::Nothing => CacheModeView::Nothing,
            CacheMode::Except(tags) => CacheModeView::Except(tags.deep_view()),
        }
    }
}

/// The pieces of `text` between its commas. A text without a comma is one
/// piece; two commas in a row hold an empty piece.
pub open spec fn split_commas(text: Seq<char>) -> Seq<Seq<char>>
    decreases text.len(),
{
    if text.len() == 0 {
        seq![seq![]]
    } else {
        let before = split_commas(text.drop_last());
        if text.last() == ',' {
            before.push(seq![])
        } else {
            before.drop_last().push(before.last().push(text.last()))
        }
    }
}

/// Position of the first of `tags` that is not among `valid`; the length of
/// `tags` if all are.
pub open spec fn first_invalid(tags: Seq<Seq<char>>, valid: Seq<Seq<char>>) -> int {
    first_position(tags.map_values(|tag: Seq<char>| valid.contains(tag)), false)
}

/// Whether an execution with this tag may take its result from the cache.
pub open spec fn caches(mode: CacheModeView, tag: Option<Seq<char>>) -> bool {
    match mode {
        CacheModeView::Everything => true,
        CacheModeView::Nothing => false,
        CacheModeView::Except(tags) => match tag {
            Some(name) => !tags.contains(name),
            None => true,
        },
    }
}

/// The name under a tag.
pub open spec fn tag_view(tag: Option<ExecutionTag>) -> Option<Seq<char>> {
    match tag {
        Some(tag) => Some(tag.name@),
        None => None,
    }
}

/// Whether `tag` is one of `tags`.
fn contains_tag(tags: &Vec<String>, tag: &String) -> (found: bool)
    ensures
        found == tags.deep_view().contains(tag@),
{
    let mut i: usize = 0;
    while i < tags.len()
        invariant
            i <= tags@.len(),
            forall|j: int| 0 <= j < i ==> tags.deep_view()[j] != tag@,
        decreases tags@.len() - i,
    {
        assert(tags.deep_view()[i as int] == tags@[i as int]@);
        if tags[i] == *tag {
            return true;
        }
        i += 1;
    }
    false
}

/// The pieces of `text` between its commas.
fn split_tags(text: &str) -> (tags: Vec<String>)
    ensures
        tags.deep_view() == split_commas(text@),
{
    let n = text.unicode_len();
    let mut tags: Vec<String> = Vec::new();
    let mut start: usize = 0;
    let mut i: usize = 0;
    assert(text@.take(0) =~= seq![]);
    assert(tags.deep_view().push(text@.subrange(0, 0)) =~= split_commas(text@.take(0)));
    while i < n
        invariant
            n == text@.len(),
            start <= i <= n,
            tags.deep_view().push(text@.subrange(start as int, i as int)) == split_commas(
                text@.take(i as int),
            ),
        decreases n - i,
    {
        let ghost done = tags.deep_view();
        let ghost piece = text@.subrange(start as int, i as int);
        proof {
            assert(text@.take(i + 1).drop_last() =~= text@.take(i as int));
            assert(text@.take(i + 1).last() == text@[i as int]);
            assert(done.push(piece).drop_last() =~= done);
        }
        if text.get_char(i) == ',' {
            tags.push(text.substring_char(start, i).to_owned());
            start = i + 1;
            proof {
                assert(tags.deep_view() =~= done.push(piece));
                assert(text@.subrange(start as int, i + 1) =~= seq![]);
            }
        } else {
            proof {
                assert(text@.subrange(start as int, i + 1) =~= piece.push(text@[i as int]));
            }
        }
        i += 1;
    }
    let ghost done = tags.deep_view();
    tags.push(text.substring_char(start, n).to_owned());
    proof {
        assert(text@.take(n as int) =~= text@);
        assert(tags.deep_view() =~= done.push(text@.subrange(start as int, n as int)));
    }
    tags
}

impl CacheMode {
    /// The mode asked for by an option: without the option everything is
    /// cached; with an empty one nothing is; otherwise the option lists,
    /// between commas, the tags that are not.
    pub open spec fn for_option(option: Option<Seq<char>>) -> CacheModeView {
        match option {
            None => CacheModeView::Everything,
            Some(text) => if text.len() == 0 {
                CacheModeView::Nothing
            } else {
                CacheModeView::Except(split_commas(text))
            },
        }
    }

    /// The tags that an option lists, all of which must be valid.
    pub open spec fn listed(option: Option<Seq<char>>) -> Seq<Seq<char>> {
        match option {
            Some(text) => if text.len() == 0 {
                seq![]
            } else {
                split_commas(text)
            },
            None => seq![],
        }
    }

    /// Reads the mode from an option. It is refused, with the first tag at
    /// fault, exactly if it lists a tag that is not among `valid_tags`.
    pub fn try_from(no_cache: &Option<String>, valid_tags: &Vec<String>) -> (mode: Result<
        CacheMode,
        String,
    >)
        ensures
            match mode {
                Ok(mode) => {
                    &&& mode@ == Self::for_option(text_view(*no_cache))
                    &&& first_invalid(Self::listed(text_view(*no_cache)), valid_tags.deep_view())
                        == Self::listed(text_view(*no_cache)).len()
                },
                Err(tag) => {
                    let tags = Self::listed(text_view(*no_cache));
                    let p = first_invalid(tags, valid_tags.deep_view());
                    p < tags.len() && tag@ == tags[p]
                },
            },
    {
        let ghost valid = valid_tags.deep_view();
        match no_cache {
            None => Ok(CacheMode::Everything),
            Some(text) => {
                if text.as_str().is_empty() {
                    return Ok(CacheMode::Nothing);
                }
                let tags = split_tags(text.as_str());
                let ghost flags = tags.deep_view().map_values(|tag: Seq<char>| valid.contains(tag));
                let mut i: usize = 0;
                while i < tags.len()
                    invariant
                        i <= tags@.len(),
                        valid == valid_tags.deep_view(),
                        tags.deep_view() == Self::listed(text_view(*no_cache)),
                        tags.deep_view() == split_commas(text@),
                        text@.len() != 0,
                        *no_cache == Some(*text),
                        flags == tags.deep_view().map_values(|tag: Seq<char>| valid.contains(tag)),
                        forall|j: int| 0 <= j < i ==> flags[j] != false,
                    decreases tags@.len() - i,
                {
                    assert(tags.deep_view()[i as int] == tags@[i as int]@);
                    if !contains_tag(valid_tags, &tags[i]) {
                        proof {
                            lemma_first_position_is(flags, false, i as int);
                        }
                        return Err(tags[i].clone());
                    }
                    i += 1;
                }
                proof {
                    lemma_first_position_is(flags, false, i as int);
                }
                Ok(CacheMode::Except(tags))
            },
        }
    }

    /// Whether an execution with this tag may take its result from the cache.
    pub fn is_cached(&self, tag: &Option<ExecutionTag>) -> (cached: bool)
        ensures
            cached == caches(self@, tag_view(*tag)),
    {
        match self {
            CacheMode::Everything => true,
            CacheMode::Nothing => false,
            CacheMode::Except(tags) => match tag {
                Some(tag) => !contains_tag(tags, &tag.name),
                None => true,
            },
        }
    }
}

/// The text of an option.
pub open spec fn text_view(text: Option<String>) -> Option<Seq<char>> {
    match text {
        Some(text) => Some(text@),
        None => None,
    }
}

/// The name of an output of an execution: one of its two streams, or the path
/// of a file in its sandbox.
#[derive(Debug)]
pub enum OutputName {
    /// The standard output.
    Stdout,
    /// The standard error.
    Stderr,
    /// The file at this path.
    File(String),
}

/// Mathematical value of an [`OutputName`].
pub enum OutputNameView {
    Stdout,
    Stderr,
    File(Seq<char>),
}

impl View for OutputName {
    type V = OutputNameView;

    open spec fn view(&self) -> OutputNameView {
        match *self {
            OutputName::Stdout => OutputNameView::Stdout,
            OutputName::Stderr => OutputNameView::Stderr,
            OutputName::File(path) => OutputNameView::File(path@),
        }
    }
}

impl OutputName {
    /// Whether two names are the same.
    pub fn same(&self, other: &OutputName) -> (same: bool)
        ensures
            same == (self@ == other@),
    {
        match (self, other) {
            (OutputName::Stdout, OutputName::Stdout) => true,
            (OutputName::Stderr, OutputName::Stderr) => true,
            (OutputName::File(a), OutputName::File(b)) => *a == *b,
            _ => false,
        }
    }
}

/// The names of file outputs, in order.
pub open spec fn file_names(outputs: Seq<ExecutionOutput>) -> Seq<OutputNameView> {
    outputs.map_values(|output: ExecutionOutput| OutputNameView::File(output.path@))
}

/// The names of the outputs of an execution, in the order of its outputs: the
/// standard output and the standard error where it has them, then its files.
pub open spec fn output_names(execution: Execution) -> Seq<OutputNameView> {
    (if execution.stdout is Some {
        seq![OutputNameView::Stdout]
    } else {
        seq![]
    }) + (if execution.stderr is Some {
        seq![OutputNameView::Stderr]
    } else {
        seq![]
    }) + file_names(execution.outputs@)
}

/// What an execution gave: its result, and for each of its outputs the name
/// and the key of the content.
#[derive(Debug)]
pub struct CacheEntry {
    /// The fingerprint of the execution.
    pub print: Fingerprint,
    /// Its result.
    pub result: ExecutionResult,
    /// The names of its outputs.
    pub names: Vec<OutputName>,
    /// The keys of its outputs, one for each name.
    pub keys: Vec<FileStoreKey>,
}

/// Mathematical value of a [`CacheEntry`].
pub struct CacheEntryView {
    pub print: Fingerprint,
    pub result: ExecutionResultView,
    pub names: Seq<OutputNameView>,
    pub keys: Seq<FileStoreKey>,
}

/// The values of these names, in order.
pub open spec fn name_views(names: Seq<OutputName>) -> Seq<OutputNameView> {
    names.map_values(|name: OutputName| name@)
}

impl View for CacheEntry {
    type V = CacheEntryView;

    open spec fn view(&self) -> CacheEntryView {
        CacheEntryView {
            print: self.print,
            result: self.result@,
            names: name_views(self.names@),
            keys: self.keys@,
        }
    }
}

/// The result cache. Its value is the sequence of its entries, in the order in
/// which their fingerprints were first seen.
pub struct Cache {
    entries: Vec<CacheEntry>,
}

/// The fingerprints of these entries, in order.
pub open spec fn entry_prints(entries: Seq<CacheEntryView>) -> Seq<Fingerprint> {
    entries.map_values(|entry: CacheEntryView| entry.print)
}

/// The entry under `print`.
pub open spec fn entry_of(entries: Seq<CacheEntryView>, print: Fingerprint) -> Option<
    CacheEntryView,
> {
    let p = first_position(entry_prints(entries), print);
    if p < entries.len() {
        Some(entries[p])
    } else {
        None
    }
}

/// The cache after `entry` is inserted: in place of the entry with its
/// fingerprint, or as a new last entry.
pub open spec fn inserted(entries: Seq<CacheEntryView>, entry: CacheEntryView) -> Seq<
    CacheEntryView,
> {
    let p = first_position(entry_prints(entries), entry.print);
    if p < entries.len() {
        entries.update(p, entry)
    } else {
        entries.push(entry)
    }
}

impl View for Cache {
    type V = Seq<CacheEntryView>;

    closed spec fn view(&self) -> Seq<CacheEntryView> {
        self.entries@.map_values(|entry: CacheEntry| entry@)
    }
}

impl Cache {
    /// An empty cache.
    pub fn new() -> (cache: Cache)
        ensures
            cache@ == Seq::<CacheEntryView>::empty(),
    {
        let cache = Cache { entries: Vec::new() };
        assert(cache@ =~= Seq::<CacheEntryView>::empty());
        cache
    }

    /// The entries, in order: what has to be written down for the cache to
    /// outlive the process.
    pub fn entries(&self) -> (entries: &Vec<CacheEntry>)
        ensures
            entries@.map_values(|entry: CacheEntry| entry@) == self@,
    {
        &self.entries
    }

    /// The number of entries.
    pub fn len(&self) -> (count: usize)
        ensures
            count == self@.len(),
    {
        self.entries.len()
    }

    /// Where the entry under `print` stands.
    fn find(&self, print: &Fingerprint) -> (found: Option<usize>)
        ensures
            match found {
                Some(p) => p == first_position(entry_prints(self@), *print) && p < self@.len()
                    && p < self.entries@.len(),
                None => first_position(entry_prints(self@), *print) == self@.len(),
            },
    {
        let ghost prints = entry_prints(self@);
        let mut p: usize = 0;
        while p < self.entries.len()
            invariant
                prints == entry_prints(self@),
                p <= self.entries@.len(),
                forall|k: int| 0 <= k < p ==> prints[k] != *print,
            decreases self.entries@.len() - p,
        {
            if self.entries[p].print == *print {
                proof {
                    lemma_first_position_is(prints, *print, p as int);
                }
                return Some(p);
            }
            p += 1;
        }
        proof {
            lemma_first_position_is(prints, *print, p as int);
        }
        None
    }

    /// The entry under `print`.
    pub fn lookup(&self, print: &Fingerprint) -> (found: Option<&CacheEntry>)
        ensures
            match found {
                Some(entry) => entry_of(self@, *print) == Some(entry@),
                None => entry_of(self@, *print) is None,
            },
    {
        match self.find(print) {
            Some(p) => Some(&self.entries[p]),
            None => None,
        }
    }

    /// Inserts an entry. An entry with the same fingerprint is replaced.
    pub fn insert(&mut self, entry: CacheEntry)
        ensures
            final(self)@ == inserted(old(self)@, entry@),
    {
        match self.find(&entry.print) {
            Some(p) => {
                self.entries[p] = entry;
                assert(self@ =~= inserted(old(self)@, entry@));
            },
            None => {
                self.entries.push(entry);
                assert(self@ =~= inserted(old(self)@, entry@));
            },
        }
    }
}

/// What was inserted is what a lookup finds: after an entry is inserted, the
/// cache gives it under its fingerprint.
pub proof fn law_insert_then_lookup(entries: Seq<CacheEntryView>, entry: CacheEntryView)
    ensures
        entry_of(inserted(entries, entry), entry.print) == Some(entry),
{
    let prints = entry_prints(entries);
    lemma_first_position(prints, entry.print);
    let p = first_position(prints, entry.print);
    let after = inserted(entries, entry);
    assert forall|j: int| 0 <= j < p implies entry_prints(after)[j] != entry.print by {
        assert(entry_prints(after)[j] == prints[j]);
    }
    assert(entry_prints(after)[p] == entry.print);
    lemma_first_position_is(entry_prints(after), entry.print, p);
}

/// An insertion leaves the entries under other fingerprints as they were.
pub proof fn law_insert_keeps_others(
    entries: Seq<CacheEntryView>,
    entry: CacheEntryView,
    other: Fingerprint,
)
    requires
        other != entry.print,
    ensures
        entry_of(inserted(entries, entry), other) == entry_of(entries, other),
{
    let prints = entry_prints(entries);
    lemma_first_position(prints, entry.print);
    lemma_first_position(prints, other);
    let p = first_position(prints, entry.print);
    let q = first_position(prints, other);
    let after = inserted(entries, entry);
    assert forall|j: int| 0 <= j < q && j < after.len() implies entry_prints(after)[j] != other by {
        if j < entries.len() && j != p {
            assert(entry_prints(after)[j] == prints[j]);
        }
    }
    if q < entries.len() {
        assert(entry_prints(after)[q] == prints[q]);
        lemma_first_position_is(entry_prints(after), other, q);
    } else {
        lemma_first_position_is(entry_prints(after), other, after.len() as int);
    }
}

/// An execution has as many names of outputs as it has outputs.
pub proof fn lemma_output_names_len(execution: Execution)
    ensures
        output_names(execution).len() == execution.spec_outputs().len(),
{
}

/// The names of the outputs of an execution, in the order of its outputs.
pub fn names_of(execution: &Execution) -> (names: Vec<OutputName>)
    ensures
        name_views(names@) == output_names(*execution),
{
    let mut names: Vec<OutputName> = Vec::new();
    if execution.stdout.is_some() {
        names.push(OutputName::Stdout);
    }
    if execution.stderr.is_some() {
        names.push(OutputName::Stderr);
    }
    let ghost head = name_views(names@);
    assert(head =~= (if execution.stdout is Some {
        seq![OutputNameView::Stdout]
    } else {
        seq![]
    }) + (if execution.stderr is Some {
        seq![OutputNameView::Stderr]
    } else {
        seq![]
    }));
    let mut i: usize = 0;
    assert(name_views(names@) =~= head + file_names(execution.outputs@.take(0)));
    while i < execution.outputs.len()
        invariant
            i <= execution.outputs@.len(),
            name_views(names@) == head + file_names(execution.outputs@.take(i as int)),
        decreases execution.outputs@.len() - i,
    {
        let ghost before = name_views(names@);
        names.push(OutputName::File(execution.outputs[i].path.clone()));
        proof {
            let added = OutputNameView::File(execution.outputs@[i as int].path@);
            assert(name_views(names@) =~= before.push(added));
            assert(file_names(execution.outputs@.take(i + 1)) =~= file_names(
                execution.outputs@.take(i as int),
            ).push(added));
            assert(name_views(names@) =~= head + file_names(execution.outputs@.take(i + 1)));
        }
        i += 1;
    }
    assert(execution.outputs@.take(i as int) =~= execution.outputs@);
    names
}

/// Whether two lists hold the same names in the same order.
pub fn same_names(first: &Vec<OutputName>, second: &Vec<OutputName>) -> (same: bool)
    ensures
        same == (name_views(first@) == name_views(second@)),
{
    if first.len() != second.len() {
        assert(name_views(first@).len() != name_views(second@).len());
        return false;
    }
    let mut i: usize = 0;
    while i < first.len()
        invariant
            i <= first@.len(),
            first@.len() == second@.len(),
            forall|j: int| 0 <= j < i ==> name_views(first@)[j] == name_views(second@)[j],
        decreases first@.len() - i,
    {
        if !first[i].same(&second[i]) {
            assert(name_views(first@)[i as int] != name_views(second@)[i as int]);
            return false;
        }
        i += 1;
    }
    assert(name_views(first@) =~= name_views(second@));
    true
}

} // verus!
