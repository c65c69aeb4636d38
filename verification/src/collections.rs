//! The collections of the symbol index: a set of texts and a map from
//! currency codes to the places where they are defined.

use vstd::prelude::*;
use crate::syntax::Position;
use crate::text::{position_of, views};

verus! {

/// `listed` with the first `count` of `more` added at its end, one by one; a
/// text that is listed already is not added again.
pub open spec fn appended(listed: Seq<Seq<char>>, more: Seq<Seq<char>>, count: nat) -> Seq<
    Seq<char>,
>
    decreases count,
{
    if count == 0 || count > more.len() {
        listed
    } else {
        let before = appended(listed, more, (count - 1) as nat);
        if before.contains(more[count - 1]) {
            before
        } else {
            before.push(more[count - 1])
        }
    }
}

/// A set of texts. No text occurs twice; the order is that of first insertion.
pub struct TextSet {
    items: Vec<String>,
}

impl View for TextSet {
    type V = Set<Seq<char>>;

    closed spec fn view(&self) -> Set<Seq<char>> {
        views(self.items@).to_set()
    }
}

impl TextSet {
    /// No text is listed twice.
    #[verifier::type_invariant]
    spec fn distinct(self) -> bool {
        views(self.items@).no_duplicates()
    }

    /// The texts in the order of their first insertion.
    pub closed spec fn listed(self) -> Seq<Seq<char>> {
        views(self.items@)
    }

    /// The empty set.
    pub fn new() -> (set: TextSet)
        ensures
            set@ == Set::<Seq<char>>::empty(),
            set.listed() == Seq::<Seq<char>>::empty(),
    {
        let set = TextSet { items: Vec::new() };
        assert(views(set.items@) =~= Seq::<Seq<char>>::empty());
        assert(set@ =~= Set::<Seq<char>>::empty());
        set
    }

    /// Whether `item` is a member.
    pub fn contains(&self, item: &str) -> (found: bool)
        ensures
            found == self@.contains(item@),
    {
        match position_of(&self.items, item) {
            Some(i) => {
                assert(views(self.items@).contains(views(self.items@)[i as int]));
                true
            },
            None => false,
        }
    }

    /// The set with `item` added; a text that is a member already stays where
    /// it was.
    pub fn insert(self, item: String) -> (set: TextSet)
        ensures
            set@ == self@.insert(item@),
            set.listed() == if self@.contains(item@) {
                self.listed()
            } else {
                self.listed().push(item@)
            },
    {
        proof {
            use_type_invariant(&self);
        }
        if !self.contains(item.as_str()) {
            let ghost before = views(self.items@);
            let ghost added = item@;
            let mut items = self.items;
            items.push(item);
            assert(views(items@) =~= before.push(added));
            proof {
                before.lemma_push_to_set_commute(added);
            }
            TextSet { items }
        } else {
            assert(self@.insert(item@) =~= self@);
            self
        }
    }

    /// The members, in the order of their first insertion.
    pub fn items(&self) -> (items: &Vec<String>)
        ensures
            views(items@) == self.listed(),
            views(items@).no_duplicates(),
            views(items@).to_set() == self@,
    {
        proof {
            use_type_invariant(self);
        }
        &self.items
    }

    /// The number of members.
    pub fn len(&self) -> (count: usize)
        ensures
            count == self.listed().len(),
            count == self@.len(),
            self@.finite(),
    {
        proof {
            use_type_invariant(self);
            views(self.items@).unique_seq_to_set();
            vstd::seq_lib::seq_to_set_is_finite(views(self.items@));
        }
        self.items.len()
    }

    /// The set with every member of `other` added.
    pub fn union(self, other: &TextSet) -> (set: TextSet)
        ensures
            set@ == self@.union(other@),
            set.listed() == appended(self.listed(), other.listed(), other.listed().len()),
    {
        let mut set = self;
        let mut i: usize = 0;
        assert(views(other.items@).take(0).to_set() =~= Set::<Seq<char>>::empty());
        assert(set@ =~= self@.union(Set::<Seq<char>>::empty()));
        while i < other.items.len()
            invariant
                i <= other.items.len(),
                set@ == self@.union(views(other.items@).take(i as int).to_set()),
                set.listed() == appended(self.listed(), other.listed(), i as nat),
            decreases other.items.len() - i,
        {
            let item = other.items[i].clone();
            assert(other.listed()[i as int] == other.items@[i as int]@);
            set = set.insert(item);
            proof {
                let taken = views(other.items@).take(i as int);
                let next = views(other.items@).take(i as int + 1);
                assert(next =~= taken.push(other.items@[i as int]@));
                taken.lemma_push_to_set_commute(other.items@[i as int]@);
                assert(set@ =~= self@.union(next.to_set()));
            }
            i += 1;
        }
        assert(views(other.items@).take(other.items.len() as int) =~= views(other.items@));
        assert(other.listed().len() == other.items@.len());
        set
    }
}

/// A range in a file: the file's identifier, where the range starts and
/// where it ends.
pub struct SourceLocation {
    pub uri: String,
    pub start: Position,
    pub end: Position,
}

/// A source location as a mathematical value.
pub struct Place {
    pub uri: Seq<char>,
    pub start: Position,
    pub end: Position,
}

impl View for SourceLocation {
    type V = Place;

    open spec fn view(&self) -> Place {
        Place { uri: self.uri@, start: self.start, end: self.end }
    }
}

impl Clone for SourceLocation {
    fn clone(&self) -> (copy: SourceLocation)
        ensures
            copy@ == self@,
    {
        SourceLocation { uri: self.uri.clone(), start: self.start, end: self.end }
    }
}

/// A map from currency codes to the places of their definitions. A code has
/// one place: a later definition replaces an earlier one.
pub struct LocationMap {
    keys: Vec<String>,
    places: Vec<SourceLocation>,
}

impl View for LocationMap {
    type V = Map<Seq<char>, Place>;

    closed spec fn view(&self) -> Map<Seq<char>, Place> {
        Map::new(
            |k: Seq<char>| views(self.keys@).contains(k),
            |k: Seq<char>| self.places@[views(self.keys@).index_of(k)]@,
        )
    }
}

impl LocationMap {
    /// Every key has its place, and no key is listed twice.
    #[verifier::type_invariant]
    spec fn well_formed(self) -> bool {
        &&& self.keys@.len() == self.places@.len()
        &&& views(self.keys@).no_duplicates()
    }

    /// The codes in the order of their first definition.
    pub closed spec fn listed(self) -> Seq<Seq<char>> {
        views(self.keys@)
    }

    /// The codes that have a place, in the order of their first definition.
    pub fn keys(&self) -> (keys: &Vec<String>)
        ensures
            views(keys@) == self.listed(),
            views(keys@).no_duplicates(),
            views(keys@).to_set() == self@.dom(),
    {
        proof {
            use_type_invariant(self);
            assert(views(self.keys@).to_set() =~= self@.dom());
        }
        &self.keys
    }

    /// The number of codes that have a place.
    pub fn len(&self) -> (count: usize)
        ensures
            count == self.listed().len(),
            count == self@.dom().len(),
            self@.dom().finite(),
    {
        proof {
            use_type_invariant(self);
            views(self.keys@).unique_seq_to_set();
            vstd::seq_lib::seq_to_set_is_finite(views(self.keys@));
            assert(views(self.keys@).to_set() =~= self@.dom());
        }
        self.keys.len()
    }

    /// The empty map.
    pub fn new() -> (map: LocationMap)
        ensures
            map@ == Map::<Seq<char>, Place>::empty(),
            map.listed() == Seq::<Seq<char>>::empty(),
    {
        let map = LocationMap { keys: Vec::new(), places: Vec::new() };
        assert(views(map.keys@) =~= Seq::<Seq<char>>::empty());
        assert(map@ =~= Map::<Seq<char>, Place>::empty());
        map
    }

    /// The place of `key`, if it has one.
    pub fn get(&self, key: &str) -> (found: Option<&SourceLocation>)
        ensures
            match found {
                Some(place) => self@.contains_key(key@) && self@[key@] == place@,
                None => !self@.contains_key(key@),
            },
    {
        proof {
            use_type_invariant(self);
        }
        match position_of(&self.keys, key) {
            Some(i) => {
                proof {
                    lemma_index_of_distinct(views(self.keys@), i as int);
                }
                Some(&self.places[i])
            },
            None => None,
        }
    }

    /// The map in which `key` has the place `place`, instead of the one it may
    /// have had.
    pub fn insert(self, key: String, place: SourceLocation) -> (map: LocationMap)
        ensures
            map@ == self@.insert(key@, place@),
            map.listed() == if self@.contains_key(key@) {
                self.listed()
            } else {
                self.listed().push(key@)
            },
    {
        proof {
            use_type_invariant(&self);
        }
        let ghost old_keys = views(self.keys@);
        let ghost old_places = self.places@;
        let ghost old_map = self@;
        let ghost k = key@;
        let ghost p = place@;
        let found = position_of(&self.keys, key.as_str());
        let mut keys = self.keys;
        let mut places = self.places;
        match found {
            Some(i) => {
                places.set(i, place);
                let map = LocationMap { keys, places };
                proof {
                    assert forall|c: Seq<char>| old_keys.contains(c) implies #[trigger] map@[c]
                        == old_map.insert(k, p)[c] by {
                        let j = old_keys.index_of(c);
                        if c == k {
                            lemma_index_of_distinct(old_keys, i as int);
                        } else {
                            assert(j != i);
                        }
                    }
                    assert(map@ =~= old_map.insert(k, p));
                }
                map
            },
            None => {
                keys.push(key);
                places.push(place);
                proof {
                    assert(views(keys@) =~= old_keys.push(k));
                }
                let map = LocationMap { keys, places };
                proof {
                    let new_keys = views(map.keys@);
                    assert forall|c: Seq<char>| new_keys.contains(c) implies #[trigger] map@[c]
                        == old_map.insert(k, p)[c] by {
                        let j = new_keys.index_of(c);
                        if c == k {
                            lemma_index_of_distinct(new_keys, old_keys.len() as int);
                        } else {
                            assert(j < old_keys.len());
                            assert(old_keys[j] == c);
                            lemma_index_of_distinct(old_keys, j);
                        }
                    }
                    assert forall|c: Seq<char>| new_keys.contains(c) <==> old_keys.contains(c) || c
                        == k by {
                        if old_keys.contains(c) {
                            let j = old_keys.index_of(c);
                            assert(new_keys[j] == c);
                        }
                        if c == k {
                            assert(new_keys[old_keys.len() as int] == c);
                        }
                    }
                    assert(map@ =~= old_map.insert(k, p));
                }
                map
            },
        }
    }

    /// The map in which every code of `other` has the place it has there.
    pub fn overlaid(self, other: &LocationMap) -> (map: LocationMap)
        ensures
            map@ == self@.union_prefer_right(other@),
            map.listed() == appended(self.listed(), other.listed(), other.listed().len()),
    {
        proof {
            use_type_invariant(other);
        }
        let mut map = self;
        let mut i: usize = 0;
        proof {
            assert(views(other.keys@).take(0).to_set() =~= Set::<Seq<char>>::empty());
            assert(map@ =~= self@.union_prefer_right(other@.restrict(Set::empty())));
        }
        while i < other.keys.len()
            invariant
                i <= other.keys.len(),
                other.keys@.len() == other.places@.len(),
                views(other.keys@).no_duplicates(),
                map@ == self@.union_prefer_right(
                    other@.restrict(views(other.keys@).take(i as int).to_set()),
                ),
                map.listed() == appended(self.listed(), other.listed(), i as nat),
            decreases other.keys.len() - i,
        {
            let key = other.keys[i].clone();
            assert(other.listed()[i as int] == other.keys@[i as int]@);
            proof {
                use_type_invariant(&map);
            }
            let place = other.places[i].clone();
            map = map.insert(key, place);
            proof {
                let taken = views(other.keys@).take(i as int);
                let next = views(other.keys@).take(i as int + 1);
                let k = other.keys@[i as int]@;
                assert(views(other.keys@)[i as int] == k);
                lemma_index_of_distinct(views(other.keys@), i as int);
                assert(next =~= taken.push(k));
                taken.lemma_push_to_set_commute(k);
                assert(other@.contains_key(k));
                assert(map@ =~= self@.union_prefer_right(other@.restrict(next.to_set())));
            }
            i += 1;
        }
        proof {
            assert(views(other.keys@).take(other.keys.len() as int) =~= views(other.keys@));
            assert(other@.restrict(views(other.keys@).to_set()) =~= other@);
            assert(other.listed().len() == other.keys@.len());
        }
        map
    }
}

/// In a list without duplicates, an item is found where it stands.
pub proof fn lemma_index_of_distinct(items: Seq<Seq<char>>, i: int)
    requires
        items.no_duplicates(),
        0 <= i < items.len(),
    ensures
        items.contains(items[i]),
        items.index_of(items[i]) == i,
{
    assert(items.contains(items[i]));
    let j = items.index_of(items[i]);
    assert(0 <= j < items.len() && items[j] == items[i]);
}

} // verus!
