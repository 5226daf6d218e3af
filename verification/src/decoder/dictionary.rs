//! The dictionary: words with how often each occurs, found by a key that
//! several ways of writing a word share.

use crate::compress::{deflate, inflate, zlib_deflated, zlib_inflated};
use crate::json::{parse, parsed_json, render, rendered_json, Json, JsonModel};
use crate::text::{lowercase, text_lowercase};
use vstd::prelude::*;
use vstd::string::*;

verus! {

/// What a character becomes in a key: nothing for a separator and for the
/// subscript two, the plain letter for a letter with a diacritic, and itself
/// otherwise.
pub open spec fn fold_char(c: char) -> Option<char> {
    if c == '\'' || c == '+' || c == '-' || c == '.' || c == '/' || c == '_' || c == ' '
        || c == '\u{2082}' {
        None
    } else if c == '\u{e0}' || c == '\u{e1}' || c == '\u{e2}' || c == '\u{e4}' || c == '\u{e5}' {
        Some('a')
    } else if c == '\u{e7}' {
        Some('c')
    } else if c == '\u{e8}' || c == '\u{e9}' || c == '\u{ea}' || c == '\u{eb}' {
        Some('e')
    } else if c == '\u{ed}' || c == '\u{ee}' || c == '\u{ef}' {
        Some('i')
    } else if c == '\u{f1}' {
        Some('n')
    } else if c == '\u{f3}' || c == '\u{f4}' || c == '\u{f6}' {
        Some('o')
    } else if c == '\u{fa}' || c == '\u{fb}' || c == '\u{fc}' {
        Some('u')
    } else {
        Some(c)
    }
}

/// A text with each of its characters folded.
pub open spec fn folded(text: Seq<char>) -> Seq<char>
    decreases text.len(),
{
    if text.len() == 0 {
        Seq::empty()
    } else {
        match fold_char(text.last()) {
            Some(c) => folded(text.drop_last()).push(c),
            None => folded(text.drop_last()),
        }
    }
}

/// The key of a word: its lower-case form, folded.
pub open spec fn word_key(word: Seq<char>) -> Seq<char> {
    folded(text_lowercase(word))
}

/// What a character becomes in a key.
pub fn fold(c: char) -> (result: Option<char>)
    ensures
        result == fold_char(c),
{
    if c == '\'' || c == '+' || c == '-' || c == '.' || c == '/' || c == '_' || c == ' '
        || c == '\u{2082}' {
        None
    } else if c == '\u{e0}' || c == '\u{e1}' || c == '\u{e2}' || c == '\u{e4}' || c == '\u{e5}' {
        Some('a')
    } else if c == '\u{e7}' {
        Some('c')
    } else if c == '\u{e8}' || c == '\u{e9}' || c == '\u{ea}' || c == '\u{eb}' {
        Some('e')
    } else if c == '\u{ed}' || c == '\u{ee}' || c == '\u{ef}' {
        Some('i')
    } else if c == '\u{f1}' {
        Some('n')
    } else if c == '\u{f3}' || c == '\u{f4}' || c == '\u{f6}' {
        Some('o')
    } else if c == '\u{fa}' || c == '\u{fb}' || c == '\u{fc}' {
        Some('u')
    } else {
        Some(c)
    }
}

/// A text with each of its characters folded.
pub fn fold_text(text: &str) -> (key: String)
    ensures
        key@ == folded(text@),
{
    let mut key = String::new();
    for c in it: text.chars()
        invariant
            it.seq() == text@,
            key@ == folded(it.seq().take(it.index() as int)),
    {
        proof {
            let seen = it.seq().take(it.index() + 1);
            assert(seen.drop_last() =~= it.seq().take(it.index() as int));
            assert(seen.last() == c);
        }
        match fold(c) {
            Some(plain) => key.push(plain),
            None => {},
        }
    }
    assert(text@.take(text@.len() as int) =~= text@);
    key
}

/// The key under which a word is kept.
pub fn word_to_key(word: &str) -> (key: String)
    ensures
        key@ == word_key(word@),
{
    let lower = lowercase(word);
    fold_text(lower.as_str())
}

/// One way of writing a word, with how often it occurs.
#[derive(Debug, PartialEq, Eq)]
pub struct DictEntry {
    pub frequency: u64,
    pub word: String,
}

impl View for DictEntry {
    type V = (u64, Seq<char>);

    open spec fn view(&self) -> (u64, Seq<char>) {
        (self.frequency, self.word@)
    }
}

impl Clone for DictEntry {
    fn clone(&self) -> (copy: DictEntry)
        ensures
            copy@ == self@,
    {
        DictEntry { frequency: self.frequency, word: self.word.clone() }
    }
}

/// The entries that share one key, in the order in which they came.
#[derive(Debug)]
pub struct DictPage {
    pub key: String,
    pub entries: Vec<DictEntry>,
}

/// The entries of a page as plain values.
pub open spec fn entries_view(entries: Seq<DictEntry>) -> Seq<(u64, Seq<char>)> {
    Seq::new(entries.len(), |i: int| entries[i]@)
}

impl View for DictPage {
    type V = (Seq<char>, Seq<(u64, Seq<char>)>);

    open spec fn view(&self) -> (Seq<char>, Seq<(u64, Seq<char>)>) {
        (self.key@, entries_view(self.entries@))
    }
}

/// The map that a list of pages stands for.
pub open spec fn pages_map(pages: Seq<(Seq<char>, Seq<(u64, Seq<char>)>)>) -> Map<
    Seq<char>,
    Seq<(u64, Seq<char>)>,
>
    decreases pages.len(),
{
    if pages.len() == 0 {
        Map::empty()
    } else {
        pages_map(pages.drop_last()).insert(pages.last().0, pages.last().1)
    }
}

/// Whether no two pages have the same key.
pub open spec fn distinct_keys(pages: Seq<(Seq<char>, Seq<(u64, Seq<char>)>)>) -> bool {
    forall|i: int, j: int|
        0 <= i < j < pages.len() ==> (#[trigger] pages[i]).0 != (#[trigger] pages[j]).0
}

/// The keys of the map are the keys of the pages.
pub proof fn lemma_pages_map_keys(pages: Seq<(Seq<char>, Seq<(u64, Seq<char>)>)>, key: Seq<char>)
    ensures
        pages_map(pages).dom().contains(key) <==> exists|i: int|
            0 <= i < pages.len() && (#[trigger] pages[i]).0 == key,
    decreases pages.len(),
{
    if pages.len() > 0 {
        lemma_pages_map_keys(pages.drop_last(), key);
        if pages_map(pages).dom().contains(key) {
            if pages.last().0 == key {
                assert(pages[pages.len() - 1].0 == key);
            } else {
                let i = choose|i: int|
                    0 <= i < pages.drop_last().len() && (#[trigger] pages.drop_last()[i]).0 == key;
                assert(pages[i].0 == key);
            }
        }
        if exists|i: int| 0 <= i < pages.len() && (#[trigger] pages[i]).0 == key {
            let i = choose|i: int| 0 <= i < pages.len() && (#[trigger] pages[i]).0 == key;
            if i < pages.len() - 1 {
                assert(pages.drop_last()[i].0 == key);
            }
        }
    }
}

/// The map holds under each key the entries of the page with that key.
pub proof fn lemma_pages_map_value(pages: Seq<(Seq<char>, Seq<(u64, Seq<char>)>)>, place: int)
    requires
        distinct_keys(pages),
        0 <= place < pages.len(),
    ensures
        pages_map(pages).dom().contains(pages[place].0),
        pages_map(pages)[pages[place].0] == pages[place].1,
    decreases pages.len(),
{
    if place < pages.len() - 1 {
        assert(distinct_keys(pages.drop_last())) by {
            assert forall|i: int, j: int| 0 <= i < j < pages.drop_last().len() implies (
            #[trigger] pages.drop_last()[i]).0 != (#[trigger] pages.drop_last()[j]).0 by {
                assert(pages[i].0 != pages[j].0);
            }
        }
        lemma_pages_map_value(pages.drop_last(), place);
        assert(pages.drop_last()[place] == pages[place]);
        assert(pages[place].0 != pages[pages.len() - 1].0);
    }
}

/// Changing the entries of one page changes the map under its key, and
/// nowhere else.
pub proof fn lemma_pages_map_update(
    pages: Seq<(Seq<char>, Seq<(u64, Seq<char>)>)>,
    place: int,
    entries: Seq<(u64, Seq<char>)>,
)
    requires
        distinct_keys(pages),
        0 <= place < pages.len(),
    ensures
        pages_map(pages.update(place, (pages[place].0, entries))) == pages_map(pages).insert(
            pages[place].0,
            entries,
        ),
    decreases pages.len(),
{
    let key = pages[place].0;
    let changed = pages.update(place, (key, entries));
    if place == pages.len() - 1 {
        assert(changed.drop_last() =~= pages.drop_last());
        assert(pages_map(changed) =~= pages_map(pages).insert(key, entries));
    } else {
        assert(distinct_keys(pages.drop_last())) by {
            assert forall|i: int, j: int| 0 <= i < j < pages.drop_last().len() implies (
            #[trigger] pages.drop_last()[i]).0 != (#[trigger] pages.drop_last()[j]).0 by {
                assert(pages[i].0 != pages[j].0);
            }
        }
        lemma_pages_map_update(pages.drop_last(), place, entries);
        assert(changed.drop_last() =~= pages.drop_last().update(place, (key, entries)));
        assert(changed.last() == pages.last());
        assert(pages.drop_last()[place] == pages[place]);
        assert(pages[place].0 != pages[pages.len() - 1].0);
        assert(pages_map(changed) =~= pages_map(pages).insert(key, entries));
    }
}

/// The pages with `entries` under `key`: in the place of the page that has
/// the key, or after the last page where none has it.
pub open spec fn pages_put(
    pages: Seq<(Seq<char>, Seq<(u64, Seq<char>)>)>,
    key: Seq<char>,
    entries: Seq<(u64, Seq<char>)>,
) -> Seq<(Seq<char>, Seq<(u64, Seq<char>)>)> {
    if exists|i: int| 0 <= i < pages.len() && (#[trigger] pages[i]).0 == key {
        let i = choose|i: int| 0 <= i < pages.len() && (#[trigger] pages[i]).0 == key;
        pages.update(i, (key, entries))
    } else {
        pages.push((key, entries))
    }
}

/// The pages that come of putting each of `pages` in its turn: of two pages
/// with one key, the place is that of the first and the entries are those of
/// the second.
pub open spec fn pages_merged(pages: Seq<(Seq<char>, Seq<(u64, Seq<char>)>)>) -> Seq<
    (Seq<char>, Seq<(u64, Seq<char>)>),
>
    decreases pages.len(),
{
    if pages.len() == 0 {
        Seq::empty()
    } else {
        pages_put(pages_merged(pages.drop_last()), pages.last().0, pages.last().1)
    }
}

/// Putting entries under a key changes what the map holds under that key,
/// and nothing else; and no key gets a second page.
pub proof fn lemma_pages_put(
    pages: Seq<(Seq<char>, Seq<(u64, Seq<char>)>)>,
    key: Seq<char>,
    entries: Seq<(u64, Seq<char>)>,
)
    requires
        distinct_keys(pages),
    ensures
        distinct_keys(pages_put(pages, key, entries)),
        pages_map(pages_put(pages, key, entries)) == pages_map(pages).insert(key, entries),
{
    let put = pages_put(pages, key, entries);
    if exists|i: int| 0 <= i < pages.len() && (#[trigger] pages[i]).0 == key {
        let place = choose|i: int| 0 <= i < pages.len() && (#[trigger] pages[i]).0 == key;
        lemma_pages_map_update(pages, place, entries);
        assert forall|i: int, j: int| 0 <= i < j < put.len() implies (#[trigger] put[i]).0 != (
        #[trigger] put[j]).0 by {
            assert(put[i].0 == pages[i].0 && put[j].0 == pages[j].0);
        }
    } else {
        assert(put.drop_last() =~= pages);
        assert forall|i: int, j: int| 0 <= i < j < put.len() implies (#[trigger] put[i]).0 != (
        #[trigger] put[j]).0 by {
            assert(put[i] == pages[i]);
            if j < pages.len() {
                assert(put[j] == pages[j]);
            }
        }
    }
}

/// Pages of which no two have the same key stay as they are when each is
/// put in its turn.
pub proof fn lemma_pages_merged(pages: Seq<(Seq<char>, Seq<(u64, Seq<char>)>)>)
    requires
        distinct_keys(pages),
    ensures
        pages_merged(pages) == pages,
    decreases pages.len(),
{
    if pages.len() > 0 {
        let front = pages.drop_last();
        assert(distinct_keys(front)) by {
            assert forall|i: int, j: int| 0 <= i < j < front.len() implies (#[trigger] front[i]).0
                != (#[trigger] front[j]).0 by {
                assert(pages[i].0 != pages[j].0);
            }
        }
        lemma_pages_merged(front);
        assert forall|i: int| 0 <= i < front.len() implies (#[trigger] front[i]).0
            != pages.last().0 by {
            assert(pages[i].0 != pages[pages.len() - 1].0);
        }
        assert(front.push(pages.last()) =~= pages);
    }
}

/// Words with how often each occurs. Each word is kept under its key, with
/// the other ways of writing it.
#[derive(Debug)]
pub struct Dictionary {
    pages: Vec<DictPage>,
}

impl View for Dictionary {
    type V = Map<Seq<char>, Seq<(u64, Seq<char>)>>;

    closed spec fn view(&self) -> Map<Seq<char>, Seq<(u64, Seq<char>)>> {
        pages_map(self.listing())
    }
}

impl Dictionary {
    /// The pages as plain values, in the order in which their keys came.
    pub closed spec fn listing(&self) -> Seq<(Seq<char>, Seq<(u64, Seq<char>)>)> {
        Seq::new(self.pages@.len(), |i: int| self.pages@[i]@)
    }

    /// No key has two pages, and the dictionary holds what its pages hold.
    pub open spec fn wf(&self) -> bool {
        &&& distinct_keys(self.listing())
        &&& self@ == pages_map(self.listing())
    }

    /// What is kept under `key`: nothing where the key is unknown.
    pub open spec fn entries_under(
        map: Map<Seq<char>, Seq<(u64, Seq<char>)>>,
        key: Seq<char>,
    ) -> Seq<(u64, Seq<char>)> {
        if map.dom().contains(key) {
            map[key]
        } else {
            Seq::empty()
        }
    }

    /// The dictionary without words.
    pub fn new() -> (dictionary: Dictionary)
        ensures
            dictionary.wf(),
            dictionary.listing() == Seq::<(Seq<char>, Seq<(u64, Seq<char>)>)>::empty(),
            dictionary@ == Map::<Seq<char>, Seq<(u64, Seq<char>)>>::empty(),
    {
        let dictionary = Dictionary { pages: Vec::new() };
        assert(dictionary.listing() =~= Seq::<(Seq<char>, Seq<(u64, Seq<char>)>)>::empty());
        dictionary
    }

    /// The place of the page with the given key.
    fn find(&self, key: &String) -> (place: Option<usize>)
        ensures
            match place {
                Some(i) => i < self.pages@.len() && self.pages@[i as int].key@ == key@,
                None => forall|i: int|
                    0 <= i < self.pages@.len() ==> (#[trigger] self.pages@[i]).key@ != key@,
            },
    {
        let mut i: usize = 0;
        while i < self.pages.len()
            invariant
                i <= self.pages@.len(),
                forall|k: int| 0 <= k < i ==> (#[trigger] self.pages@[k]).key@ != key@,
            decreases self.pages@.len() - i,
        {
            if self.pages[i].key == *key {
                return Some(i);
            }
            i += 1;
        }
        None
    }

    /// Adds a word with its frequency, after the entries that its key has
    /// already. A key that is new gets its page after the pages that are
    /// there.
    pub fn insert(&mut self, word: &str, frequency: u64)
        requires
            old(self).wf(),
        ensures
            final(self).wf(),
            final(self).listing() == pages_put(
                old(self).listing(),
                word_key(word@),
                Self::entries_under(old(self)@, word_key(word@)).push((frequency, word@)),
            ),
            final(self)@ == old(self)@.insert(
                word_key(word@),
                Self::entries_under(old(self)@, word_key(word@)).push((frequency, word@)),
            ),
    {
        let key = word_to_key(word);
        let entry = DictEntry { frequency, word: word.to_owned() };
        let ghost before = self.listing();
        let ghost grown = Self::entries_under(self@, key@).push((frequency, word@));
        proof {
            lemma_pages_map_keys(before, key@);
            lemma_pages_put(before, key@, grown);
        }
        match self.find(&key) {
            Some(place) => {
                proof {
                    lemma_pages_map_value(before, place as int);
                    let chosen = choose|i: int|
                        0 <= i < before.len() && (#[trigger] before[i]).0 == key@;
                    assert(before[place as int].0 == key@);
                    if chosen != place {
                        assert(before[chosen].0 != before[place as int].0);
                    }
                }
                self.pages[place].entries.push(entry);
                proof {
                    assert(entries_view(self.pages@[place as int].entries@) =~= grown);
                    assert(self.listing() =~= before.update(place as int, (key@, grown)));
                }
            },
            None => {
                let mut entries: Vec<DictEntry> = Vec::new();
                entries.push(entry);
                self.pages.push(DictPage { key, entries });
                proof {
                    assert(!old(self)@.dom().contains(key@));
                    assert(entries_view(entries@) =~= grown);
                    assert(self.listing() =~= before.push((key@, grown)));
                }
            },
        }
    }

    /// What is kept under the key of `word`, in the order in which it came.
    pub fn lookup(&self, word: &str) -> (entries: Vec<DictEntry>)
        requires
            self.wf(),
        ensures
            entries_view(entries@) == Self::entries_under(self@, word_key(word@)),
    {
        let key = word_to_key(word);
        proof {
            lemma_pages_map_keys(self.listing(), key@);
        }
        match self.find(&key) {
            Some(place) => {
                proof {
                    lemma_pages_map_value(self.listing(), place as int);
                }
                let page = &self.pages[place];
                let mut entries: Vec<DictEntry> = Vec::new();
                let mut i: usize = 0;
                while i < page.entries.len()
                    invariant
                        i <= page.entries@.len(),
                        entries@.len() == i,
                        forall|k: int| 0 <= k < i ==> (#[trigger] entries@[k])@ == page.entries@[k]@,
                    decreases page.entries@.len() - i,
                {
                    entries.push(page.entries[i].clone());
                    i += 1;
                }
                assert(entries_view(entries@) =~= entries_view(page.entries@));
                entries
            },
            None => {
                let entries: Vec<DictEntry> = Vec::new();
                assert(entries_view(entries@) =~= Seq::<(u64, Seq<char>)>::empty());
                entries
            },
        }
    }
}

/// Why bytes are not a dictionary.
#[derive(Clone, Copy, Debug, PartialEq, Eq, Structural)]
pub enum DictionaryError {
    /// The bytes are not compressed text.
    NotCompressed,
    /// The text is not JSON.
    NotJson,
    /// The document is not that of a dictionary.
    NotADictionary,
}

/// The document of one entry: its frequency and its word, in a list.
pub open spec fn entry_document(entry: (u64, Seq<char>)) -> JsonModel {
    JsonModel::List(seq![JsonModel::Integer(entry.0 as int), JsonModel::Text(entry.1)])
}

/// The document of the entries of one page: a list of theirs.
pub open spec fn page_document(entries: Seq<(u64, Seq<char>)>) -> JsonModel {
    JsonModel::List(Seq::new(entries.len(), |i: int| entry_document(entries[i])))
}

/// The document of a dictionary: an object with a field for each page,
/// named by the key.
pub open spec fn dictionary_document(pages: Seq<(Seq<char>, Seq<(u64, Seq<char>)>)>) -> JsonModel {
    JsonModel::Object(Seq::new(pages.len(), |i: int| (pages[i].0, page_document(pages[i].1))))
}

/// The entry that a document holds: a list of a frequency and a word.
pub open spec fn entry_of(item: JsonModel) -> Option<(u64, Seq<char>)> {
    match item {
        JsonModel::List(parts) => if parts.len() == 2 {
            match (parts[0], parts[1]) {
                (JsonModel::Integer(frequency), JsonModel::Text(word)) => if 0 <= frequency
                    <= u64::MAX {
                    Some((frequency as u64, word))
                } else {
                    None
                },
                _ => None,
            }
        } else {
            None
        },
        _ => None,
    }
}

/// The entries that a document holds: a list of entries.
pub open spec fn page_of(item: JsonModel) -> Option<Seq<(u64, Seq<char>)>> {
    match item {
        JsonModel::List(items) => if forall|i: int|
            0 <= i < items.len() ==> entry_of(#[trigger] items[i]) is Some {
            Some(Seq::new(items.len(), |i: int| entry_of(items[i])->0))
        } else {
            None
        },
        _ => None,
    }
}

/// The pages that a document holds: an object whose fields hold entries.
pub open spec fn pages_of(document: JsonModel) -> Option<Seq<(Seq<char>, Seq<(u64, Seq<char>)>)>> {
    match document {
        JsonModel::Object(fields) => if forall|i: int|
            0 <= i < fields.len() ==> page_of((#[trigger] fields[i]).1) is Some {
            Some(Seq::new(fields.len(), |i: int| (fields[i].0, page_of(fields[i].1)->0)))
        } else {
            None
        },
        _ => None,
    }
}

/// The document of a dictionary holds the pages of the dictionary.
pub proof fn lemma_document_round_trip(pages: Seq<(Seq<char>, Seq<(u64, Seq<char>)>)>)
    ensures
        pages_of(dictionary_document(pages)) == Some(pages),
        dictionary_document(pages).exact(),
{
    let document = dictionary_document(pages);
    let fields = document->Object_0;
    assert forall|i: int| 0 <= i < fields.len() implies page_of((#[trigger] fields[i]).1) == Some(
        pages[i].1,
    ) && fields[i].1.exact() by {
        let entries = pages[i].1;
        let items = page_document(entries)->List_0;
        assert forall|k: int| 0 <= k < items.len() implies entry_of(#[trigger] items[k]) == Some(
            entries[k],
        ) && items[k].exact() by {
            let parts = entry_document(entries[k])->List_0;
            assert(parts[0] == JsonModel::Integer(entries[k].0 as int));
            assert(parts[1] == JsonModel::Text(entries[k].1));
            assert forall|p: int| 0 <= p < parts.len() implies (#[trigger] parts[p]).exact() by {}
        }
        assert(page_of(fields[i].1)->0 =~= entries);
    }
    assert(pages_of(document)->0 =~= pages);
}

/// The entry that a document holds.
fn entry_from(item: &Json) -> (entry: Option<DictEntry>)
    ensures
        match entry {
            Some(found) => entry_of(item@) == Some(found@),
            None => entry_of(item@) is None,
        },
{
    match item {
        Json::List(parts) => {
            if parts.len() != 2 {
                return None;
            }
            assert(item@->List_0[0] == parts@[0]@ && item@->List_0[1] == parts@[1]@);
            let frequency = match parts[0].integer() {
                Some(number) => {
                    if number < 0 || number > u64::MAX as i128 {
                        return None;
                    }
                    number as u64
                },
                None => {
                    return None;
                },
            };
            match parts[1].text() {
                Some(word) => Some(DictEntry { frequency, word: word.clone() }),
                None => None,
            }
        },
        _ => None,
    }
}

/// The entries that a document holds.
fn page_from(item: &Json) -> (page: Option<Vec<DictEntry>>)
    ensures
        match page {
            Some(entries) => page_of(item@) == Some(entries_view(entries@)),
            None => page_of(item@) is None,
        },
{
    match item {
        Json::List(items) => {
            let ghost all = item@->List_0;
            let mut entries: Vec<DictEntry> = Vec::new();
            let mut i: usize = 0;
            while i < items.len()
                invariant
                    i <= items@.len(),
                    item@ == JsonModel::List(all),
                    all.len() == items@.len(),
                    forall|k: int| 0 <= k < all.len() ==> #[trigger] all[k] == items@[k]@,
                    entries@.len() == i,
                    forall|k: int|
                        0 <= k < i ==> entry_of(#[trigger] all[k]) == Some(entries@[k]@),
                decreases items@.len() - i,
            {
                match entry_from(&items[i]) {
                    Some(entry) => {
                        entries.push(entry);
                    },
                    None => {
                        assert(entry_of(all[i as int]) is None);
                        return None;
                    },
                }
                i += 1;
            }
            assert(entries_view(entries@) =~= Seq::new(all.len(), |i: int| entry_of(all[i])->0));
            Some(entries)
        },
        _ => None,
    }
}

/// The document of the entries of one page.
fn page_to_json(entries: &Vec<DictEntry>) -> (document: Json)
    ensures
        document@ == page_document(entries_view(entries@)),
{
    let mut items: Vec<Json> = Vec::new();
    let mut i: usize = 0;
    while i < entries.len()
        invariant
            i <= entries@.len(),
            items@.len() == i,
            forall|k: int| 0 <= k < i ==> (#[trigger] items@[k])@ == entry_document(entries@[k]@),
        decreases entries@.len() - i,
    {
        let mut parts: Vec<Json> = Vec::new();
        parts.push(Json::Unsigned(entries[i].frequency));
        parts.push(Json::Text(entries[i].word.clone()));
        let item = Json::List(parts);
        proof {
            assert(parts@[0]@ == JsonModel::Integer(entries@[i as int].frequency as int));
            assert(parts@[1]@ == JsonModel::Text(entries@[i as int].word@));
            assert(item@->List_0 =~= entry_document(entries@[i as int]@)->List_0);
        }
        items.push(item);
        i += 1;
    }
    let document = Json::List(items);
    assert(document@->List_0 =~= page_document(entries_view(entries@))->List_0);
    document
}

impl Dictionary {
    /// The dictionary as a document: an object with a field for each key,
    /// which holds the entries under the key, each as a list of its
    /// frequency and its word.
    pub fn to_json(&self) -> (document: Json)
        ensures
            document@ == dictionary_document(self.listing()),
            document@.exact(),
    {
        let mut fields: Vec<(String, Json)> = Vec::new();
        let mut i: usize = 0;
        while i < self.pages.len()
            invariant
                i <= self.pages@.len(),
                fields@.len() == i,
                forall|k: int|
                    0 <= k < i ==> (#[trigger] fields@[k]).0@ == self.pages@[k].key@
                        && fields@[k].1@ == page_document(entries_view(self.pages@[k].entries@)),
            decreases self.pages@.len() - i,
        {
            fields.push((self.pages[i].key.clone(), page_to_json(&self.pages[i].entries)));
            i += 1;
        }
        let document = Json::Object(fields);
        proof {
            assert(document@->Object_0 =~= dictionary_document(self.listing())->Object_0);
            lemma_document_round_trip(self.listing());
        }
        document
    }

    /// The dictionary that a document holds. Where the document has two
    /// fields of one name, the later one counts.
    pub fn from_json(document: &Json) -> (result: Option<Dictionary>)
        ensures
            match result {
                Some(dictionary) => {
                    &&& dictionary.wf()
                    &&& pages_of(document@) is Some
                    &&& dictionary.listing() == pages_merged(pages_of(document@)->0)
                    &&& dictionary@ == pages_map(pages_of(document@)->0)
                },
                None => pages_of(document@) is None,
            },
    {
        match document {
            Json::Object(fields) => {
                let ghost all = document@->Object_0;
                let ghost read = Seq::<(Seq<char>, Seq<(u64, Seq<char>)>)>::empty();
                let mut dictionary = Dictionary::new();
                let mut i: usize = 0;
                while i < fields.len()
                    invariant
                        i <= fields@.len(),
                        document@ == JsonModel::Object(all),
                        all.len() == fields@.len(),
                        forall|k: int|
                            0 <= k < all.len() ==> #[trigger] all[k] == (
                                fields@[k].0@,
                                fields@[k].1@,
                            ),
                        read.len() == i,
                        forall|k: int|
                            0 <= k < i ==> page_of((#[trigger] all[k]).1) == Some(read[k].1)
                                && read[k].0 == all[k].0,
                        dictionary.wf(),
                        dictionary.listing() == pages_merged(read),
                        dictionary@ == pages_map(read),
                    decreases fields@.len() - i,
                {
                    let entries = match page_from(&fields[i].1) {
                        Some(entries) => entries,
                        None => {
                            assert(page_of(all[i as int].1) is None);
                            return None;
                        },
                    };
                    let ghost page = (fields@[i as int].0@, entries_view(entries@));
                    dictionary.put(fields[i].0.clone(), entries);
                    proof {
                        assert(read.push(page).drop_last() =~= read);
                        read = read.push(page);
                    }
                    i += 1;
                }
                proof {
                    assert(pages_of(document@)->0 =~= read);
                }
                Some(dictionary)
            },
            _ => None,
        }
    }

    /// Puts the entries under the key, in place of those that are there.
    fn put(&mut self, key: String, entries: Vec<DictEntry>)
        requires
            old(self).wf(),
        ensures
            final(self).wf(),
            final(self).listing() == pages_put(old(self).listing(), key@, entries_view(entries@)),
            final(self)@ == old(self)@.insert(key@, entries_view(entries@)),
    {
        let ghost before = self.listing();
        proof {
            lemma_pages_put(before, key@, entries_view(entries@));
        }
        match self.find(&key) {
            Some(place) => {
                proof {
                    let chosen = choose|i: int|
                        0 <= i < before.len() && (#[trigger] before[i]).0 == key@;
                    assert(before[place as int].0 == key@);
                    if chosen != place {
                        assert(before[chosen].0 != before[place as int].0);
                    }
                }
                self.pages[place].entries = entries;
                proof {
                    assert(self.listing() =~= before.update(
                        place as int,
                        (key@, entries_view(entries@)),
                    ));
                }
            },
            None => {
                self.pages.push(DictPage { key, entries });
                proof {
                    assert(self.listing() =~= before.push((key@, entries_view(entries@))));
                }
            },
        }
    }

    /// The dictionary as it is stored: its document as text, compressed.
    pub fn to_bytes(&self) -> (data: Vec<u8>)
        ensures
            data@ == zlib_deflated(rendered_json(dictionary_document(self.listing()))),
    {
        let document = self.to_json();
        let text = render(&document);
        deflate(text.as_str())
    }

    /// The dictionary that bytes hold, if they hold one.
    pub fn from_bytes(data: &[u8]) -> (result: Result<Dictionary, DictionaryError>)
        ensures
            match result {
                Ok(dictionary) => {
                    &&& dictionary.wf()
                    &&& zlib_inflated(data@) matches Some(text)
                    &&& parsed_json(text) matches Some(document)
                    &&& pages_of(document) matches Some(pages)
                    &&& dictionary@ == pages_map(pages)
                },
                Err(DictionaryError::NotCompressed) => zlib_inflated(data@) is None,
                Err(DictionaryError::NotJson) => {
                    &&& zlib_inflated(data@) matches Some(text)
                    &&& parsed_json(text) is None
                },
                Err(DictionaryError::NotADictionary) => {
                    &&& zlib_inflated(data@) matches Some(text)
                    &&& parsed_json(text) matches Some(document)
                    &&& pages_of(document) is None
                },
            },
    {
        let text = match inflate(data) {
            Some(text) => text,
            None => {
                return Err(DictionaryError::NotCompressed);
            },
        };
        let document = match parse(text.as_str()) {
            Some(document) => document,
            None => {
                return Err(DictionaryError::NotJson);
            },
        };
        match Dictionary::from_json(&document) {
            Some(dictionary) => Ok(dictionary),
            None => Err(DictionaryError::NotADictionary),
        }
    }
}

/// A dictionary that is read back from its own document is the same
/// dictionary: it has the same pages in the same order, and so it holds the
/// same entries under every key.
pub proof fn lemma_dictionary_round_trip(dictionary: Dictionary)
    requires
        dictionary.wf(),
    ensures
        pages_of(dictionary_document(dictionary.listing())) == Some(dictionary.listing()),
        pages_merged(pages_of(dictionary_document(dictionary.listing()))->0)
            == dictionary.listing(),
        pages_map(pages_of(dictionary_document(dictionary.listing()))->0) == dictionary@,
{
    lemma_document_round_trip(dictionary.listing());
    lemma_pages_merged(dictionary.listing());
}

} // verus!
