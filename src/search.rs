use vstd::prelude::*;

use vstd::std_specs::iter::IteratorSpec;

use crate::automaton::{ci_match_count, SearchAutomaton};
use crate::data::ItemMeta;
use crate::entry_id::{EntryID, TileID};

verus! {

/// What `str::to_lowercase` makes of a string.
pub uninterp spec fn lower_of(s: Seq<char>) -> Seq<char>;

/// The characters of the string, in order.
fn chars_of(s: &String) -> (r: Vec<char>)
    ensures
        r@ == s@,
{
    broadcast use vstd::string::axiom_spec_iter, vstd::string::next_postcondition;

    let text = s.as_str();
    let mut it = text.chars();
    let mut r: Vec<char> = Vec::new();
    assert(r@ + it.remaining() =~= s@);
    loop
        invariant
            r@ + it.remaining() == s@,
            it.decrease() is Some,
        ensures
            r@ == s@,
        decreases it.decrease()->0,
    {
        let ghost before = it.remaining();
        match it.next() {
            Some(c) => {
                r.push(c);
                assert(r@ + it.remaining() =~= s@) by {
                    assert(before == seq![c] + it.remaining());
                }
            },
            None => {
                assert(r@ =~= s@);
                break ;
            },
        }
    }
    r
}

/// Relies on `str::to_lowercase`: the result depends on the characters
/// alone, and the empty string stays empty.
#[verifier::external_body]
fn lowercase(s: &str) -> (r: String)
    ensures
        r@ == lower_of(s@),
        s@.len() == 0 ==> r@.len() == 0,
{
    s.to_lowercase()
}

/// Splits `s` at spaces, dropping empty pieces; `cur` is the piece being
/// read and `acc` the pieces already complete.
pub open spec fn split_words(s: Seq<char>, cur: Seq<char>, acc: Seq<Seq<char>>) -> Seq<Seq<char>>
    decreases s.len(),
{
    let closed = if cur.len() > 0 {
        acc.push(cur)
    } else {
        acc
    };
    if s.len() == 0 {
        closed
    } else if s[0] == ' ' {
        split_words(s.drop_first(), Seq::empty(), closed)
    } else {
        split_words(s.drop_first(), cur.push(s[0]), acc)
    }
}

/// The non-empty space-separated words of `s`, in order.
pub open spec fn words(s: Seq<char>) -> Seq<Seq<char>> {
    split_words(s, Seq::empty(), Seq::empty())
}

/// Splits `s` into its non-empty space-separated words.
pub fn search_words(s: &String) -> (r: Vec<Vec<char>>)
    ensures
        r@.map_values(|p: Vec<char>| p@) == words(s@),
{
    let cs = chars_of(s);
    let mut acc: Vec<Vec<char>> = Vec::new();
    let mut cur: Vec<char> = Vec::new();
    let mut i: usize = 0;
    assert(cs@.subrange(0, cs@.len() as int) =~= cs@);
    assert(acc@.map_values(|p: Vec<char>| p@) =~= Seq::<Seq<char>>::empty());
    while i < cs.len()
        invariant
            i <= cs@.len(),
            split_words(cs@.subrange(i as int, cs@.len() as int), cur@, acc@.map_values(|p: Vec<char>| p@))
                == words(cs@),
        decreases cs.len() - i,
    {
        let ghost rest = cs@.subrange(i as int, cs@.len() as int);
        assert(rest.drop_first() =~= cs@.subrange(i + 1, cs@.len() as int));
        let c = cs[i];
        assert(rest[0] == c);
        let ghost acc_before = acc@.map_values(|p: Vec<char>| p@);
        let ghost cur_before = cur@;
        if c == ' ' {
            assert(split_words(rest, cur_before, acc_before) == split_words(
                rest.drop_first(),
                Seq::empty(),
                if cur_before.len() > 0 { acc_before.push(cur_before) } else { acc_before },
            ));
            if cur.len() > 0 {
                let ghost prev = acc@;
                let mut piece: Vec<char> = Vec::new();
                std::mem::swap(&mut piece, &mut cur);
                acc.push(piece);
                assert(acc@.map_values(|p: Vec<char>| p@) =~= prev.map_values(|p: Vec<char>| p@).push(
                    acc@.last()@,
                ));
            }
            assert(cur@ =~= Seq::<char>::empty());
        } else {
            assert(split_words(rest, cur_before, acc_before) == split_words(
                rest.drop_first(),
                cur_before.push(c),
                acc_before,
            ));
            cur.push(c);
        }
        i = i + 1;
    }
    if cur.len() > 0 {
        let ghost prev = acc@;
        acc.push(cur);
        assert(acc@.map_values(|p: Vec<char>| p@) =~= prev.map_values(|p: Vec<char>| p@).push(acc@.last()@));
    }
    acc
}

/// An item the user selected or a search matched.
#[derive(Debug)]
pub struct SelectedItem {
    pub entry_id: EntryID,
    pub tile_id: TileID,
    pub item_uid: u64,
    pub meta: ItemMeta,
    pub row: usize,
    pub index: usize,
}

/// The ancestors of `e` at depths 1 up to its own depth.
pub open spec fn prefixes(e: Seq<u64>) -> Set<Seq<u64>> {
    Set::new(|p: Seq<u64>| 1 <= p.len() <= e.len() && p == e.subrange(0, p.len() as int))
}

/// The search box and what it highlights.
#[derive(Debug)]
pub struct SelectedState {
    pub search: String,
    pattern_count: usize,
    search_automaton: Option<SearchAutomaton>,
    last_built_string: String,
    pub num_matches: u64,
    pub highlighted_items: Vec<SelectedItem>,
    pub entries_highlighted: Vec<EntryID>,
    pub selected: Option<SelectedItem>,
}

impl SelectedState {
    /// A kept automaton searches for the words of the string it was built
    /// from, and the pattern count is their number.
    pub closed spec fn wf(&self) -> bool {
        self.search_automaton matches Some(a) ==> a.patterns() == words(self.last_built_string@)
            && self.pattern_count as int == words(self.last_built_string@).len()
    }

    /// The text of the search box.
    pub closed spec fn search_text(&self) -> Seq<char> {
        self.search@
    }

    /// The highlighted items, in the order they were added.
    pub closed spec fn items(&self) -> Seq<SelectedItem> {
        self.highlighted_items@
    }

    /// The number of search matches recorded.
    pub closed spec fn match_count(&self) -> u64 {
        self.num_matches
    }

    /// The selected item, if any.
    pub closed spec fn selection(&self) -> Option<SelectedItem> {
        self.selected
    }

    /// The search text the kept automaton was last built for.
    pub closed spec fn built_for(&self) -> Seq<char> {
        self.last_built_string@
    }

    /// Whether an automaton is kept.
    pub closed spec fn has_automaton(&self) -> bool {
        self.search_automaton is Some
    }

    /// The entries marked as holding (or leading to) a highlighted item.
    pub closed spec fn highlighted_set(&self) -> Set<Seq<u64>> {
        Set::new(
            |e: Seq<u64>|
                exists|i: int|
                    0 <= i < self.entries_highlighted@.len() && (#[trigger] self.entries_highlighted@[i])@ == e,
        )
    }

    pub fn new() -> (r: SelectedState)
        ensures
            r.wf(),
            r.search_text().len() == 0,
            r.match_count() == 0,
            r.items().len() == 0,
            r.highlighted_set() == Set::<Seq<u64>>::empty(),
            r.selection() is None,
    {
        let r = SelectedState {
            search: String::new(),
            pattern_count: 0,
            search_automaton: None,
            last_built_string: String::new(),
            num_matches: 0,
            highlighted_items: Vec::new(),
            entries_highlighted: Vec::new(),
            selected: None,
        };
        assert(r.highlighted_set() =~= Set::<Seq<u64>>::empty());
        r
    }

    fn mark_entry(&mut self, entry: EntryID)
        ensures
            final(self).highlighted_set() == old(self).highlighted_set().insert(entry@),
            final(self).highlighted_items == old(self).highlighted_items,
            final(self).search == old(self).search,
            final(self).selected == old(self).selected,
            final(self).num_matches == old(self).num_matches,
            final(self).wf() == old(self).wf(),
    {
        let mut i: usize = 0;
        while i < self.entries_highlighted.len()
            invariant
                i <= self.entries_highlighted@.len(),
                forall|k: int| 0 <= k < i ==> (#[trigger] self.entries_highlighted@[k])@ != entry@,
            decreases self.entries_highlighted.len() - i,
        {
            if self.entries_highlighted[i] == entry {
                assert(self.highlighted_set() =~= self.highlighted_set().insert(entry@));
                return;
            }
            i = i + 1;
        }
        let ghost before = self.highlighted_set();
        let ghost prev = self.entries_highlighted@;
        self.entries_highlighted.push(entry);
        assert forall|e: Seq<u64>| self.highlighted_set().contains(e) <==> before.insert(entry@).contains(e) by {
            if before.contains(e) {
                let k = choose|k: int| 0 <= k < prev.len() && (#[trigger] prev[k])@ == e;
                assert(self.entries_highlighted@[k] == prev[k]);
            }
            if self.highlighted_set().contains(e) && e != entry@ {
                let k = choose|k: int|
                    0 <= k < self.entries_highlighted@.len() && (#[trigger] self.entries_highlighted@[k])@ == e;
                assert(prev[k] == self.entries_highlighted@[k]);
            }
            if e == entry@ {
                assert(self.entries_highlighted@[prev.len() as int]@ == e);
            }
        }
        assert(self.highlighted_set() =~= before.insert(entry@));
    }

    /// Records a highlighted item and marks every ancestor of its entry,
    /// down to the entry itself, as highlighted.
    pub fn add_highlighted_item(&mut self, selected_item: SelectedItem)
        ensures
            final(self).items() == old(self).items().push(selected_item),
            final(self).highlighted_set() == old(self).highlighted_set() + prefixes(selected_item.entry_id@),
            final(self).search_text() == old(self).search_text(),
            final(self).selection() == old(self).selection(),
            final(self).match_count() == old(self).match_count(),
            final(self).wf() == old(self).wf(),
    {
        let entry_id = selected_item.entry_id.clone();
        self.highlighted_items.push(selected_item);
        let ghost base = self.highlighted_set();
        let mut entry = EntryID::root();
        let mut i: u64 = 0;
        while i < entry_id.level()
            invariant
                i <= entry_id@.len(),
                entry@ == entry_id@.subrange(0, i as int),
                self.highlighted_set() == base + Set::new(
                    |p: Seq<u64>| 1 <= p.len() <= i && p == entry_id@.subrange(0, p.len() as int),
                ),
                self.highlighted_items@ == old(self).highlighted_items@.push(selected_item),
                self.search == old(self).search,
                self.selected == old(self).selected,
                self.num_matches == old(self).num_matches,
                self.wf() == old(self).wf(),
            decreases entry_id@.len() - i,
        {
            if let Some(depth) = entry_id.slot_index(i) {
                entry = entry.child(depth);
                assert(entry@ =~= entry_id@.subrange(0, i + 1));
                self.mark_entry(entry.clone());
            }
            i = i + 1;
            assert(self.highlighted_set() =~= base + Set::new(
                |p: Seq<u64>| 1 <= p.len() <= i && p == entry_id@.subrange(0, p.len() as int),
            ));
        }
        assert(Set::new(|p: Seq<u64>| 1 <= p.len() <= i && p == entry_id@.subrange(0, p.len() as int))
            =~= prefixes(entry_id@));
    }

    /// Forgets every highlight and the selection.
    pub fn clear_highlighted_items(&mut self)
        ensures
            final(self).items().len() == 0,
            final(self).highlighted_set() == Set::<Seq<u64>>::empty(),
            final(self).selection() is None,
            final(self).match_count() == 0,
            final(self).search_text() == old(self).search_text(),
            final(self).wf() == old(self).wf(),
    {
        self.highlighted_items.clear();
        self.entries_highlighted.clear();
        self.selected = None;
        self.num_matches = 0;
        assert(self.highlighted_set() =~= Set::<Seq<u64>>::empty());
    }

    /// Empties the search box and forgets every highlight.
    pub fn clear_search(&mut self)
        ensures
            final(self).search_text().len() == 0,
            final(self).items().len() == 0,
            final(self).highlighted_set() == Set::<Seq<u64>>::empty(),
            final(self).selection() is None,
            final(self).match_count() == 0,
            final(self).wf() == old(self).wf(),
    {
        self.search = String::new();
        self.clear_highlighted_items();
    }

    /// Whether `text`, lowercased, holds as many matches of the search
    /// words as there are words; `false` when no automaton could be built.
    pub fn search(&mut self, text: &str) -> (r: bool)
        requires
            old(self).wf(),
        ensures
            final(self).wf(),
            final(self).search_text() == old(self).search_text(),
            final(self).items() == old(self).items(),
            final(self).highlighted_set() == old(self).highlighted_set(),
            final(self).has_automaton() ==> r == (ci_match_count(
                words(old(self).search_text()),
                lower_of(text@),
            ) == words(old(self).search_text()).len()),
            !final(self).has_automaton() ==> !r,
    {
        let lowercase_text = lowercase(text);
        self.build_search_automaton();
        match &self.search_automaton {
            Some(a) => a.count_matches(lowercase_text.as_str()) == self.pattern_count,
            None => false,
        }
    }

    /// The automaton for the words of the search box, rebuilt only when
    /// the search changed since the last build; `None` when it could not be
    /// built.
    pub fn build_search_automaton(&mut self) -> (r: Option<&SearchAutomaton>)
        requires
            old(self).wf(),
        ensures
            final(self).wf(),
            final(self).search_text() == old(self).search_text(),
            final(self).items() == old(self).items(),
            final(self).highlighted_set() == old(self).highlighted_set(),
            final(self).built_for() == old(self).search_text(),
            r is Some == final(self).has_automaton(),
            r matches Some(a) ==> a.patterns() == words(old(self).search_text()),
    {
        if self.search != self.last_built_string || self.search_automaton.is_none() {
            let patterns = search_words(&self.search);
            self.pattern_count = patterns.len();
            self.search_automaton = SearchAutomaton::build(patterns);
            self.last_built_string = self.search.clone();
        }
        self.search_automaton.as_ref()
    }
}

} // verus!
