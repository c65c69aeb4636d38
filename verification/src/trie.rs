//! The boundary to the prefix trees of `trie_rs`: one over account paths,
//! keyed by segment, and one over currency codes, keyed by character.

use vstd::prelude::*;
use crate::index::Data;
use crate::text::{chars_of, rows, split_on, split_text, views};

verus! {

/// `trie_rs::Trie`, a built prefix tree over sequences of labels: what it
/// stores is spoken of through `account_entries` and `currency_entries`.
#[verifier::external_type_specification]
#[verifier::external_body]
#[verifier::reject_recursive_types(Label)]
pub struct ExTrie<Label>(trie_rs::Trie<Label>);

/// `trie_rs::TrieBuilder`, which gathers the sequences of a trie: what was
/// pushed to it is spoken of through `pending_accounts` and
/// `pending_currencies`.
#[verifier::external_type_specification]
#[verifier::external_body]
#[verifier::reject_recursive_types(Label)]
pub struct ExTrieBuilder<Label>(trie_rs::TrieBuilder<Label>);

/// The account paths of a list of segment lists.
pub open spec fn paths(items: Seq<Vec<String>>) -> Seq<Seq<Seq<char>>> {
    items.map_values(|p: Vec<String>| views(p@))
}

/// Whether `entry` is stored and starts with `query`.
pub open spec fn stored_with_prefix<L>(entries: Set<Seq<L>>, query: Seq<L>, entry: Seq<L>) -> bool {
    entries.contains(entry) && query.is_prefix_of(entry)
}

/// The account paths pushed to a builder so far.
pub uninterp spec fn pending_accounts(builder: trie_rs::TrieBuilder<String>) -> Set<Seq<Seq<char>>>;

/// The account paths that a trie stores.
pub uninterp spec fn account_entries(trie: trie_rs::Trie<String>) -> Set<Seq<Seq<char>>>;

/// What a predictive search of an account trie yields, in the order in which
/// the trie yields it.
pub uninterp spec fn account_search(trie: trie_rs::Trie<String>, query: Seq<Seq<char>>) -> Seq<
    Seq<Seq<char>>,
>;

/// The currency codes pushed to a builder so far.
pub uninterp spec fn pending_currencies(builder: trie_rs::TrieBuilder<char>) -> Set<Seq<char>>;

/// The currency codes that a trie stores.
pub uninterp spec fn currency_entries(trie: trie_rs::Trie<char>) -> Set<Seq<char>>;

/// What a predictive search of a currency trie yields, in the order in which
/// the trie yields it.
pub uninterp spec fn currency_search(trie: trie_rs::Trie<char>, query: Seq<char>) -> Seq<Seq<char>>;

/// `TrieBuilder::new`: a builder to which nothing has been pushed.
#[verifier::external_body]
pub(crate) fn new_account_builder() -> (builder: trie_rs::TrieBuilder<String>)
    ensures
        pending_accounts(builder) == Set::<Seq<Seq<char>>>::empty(),
{
    trie_rs::TrieBuilder::new()
}

/// `TrieBuilder::push`: the entry joins what was pushed; pushing an entry
/// again changes nothing. An entry without labels makes it panic.
#[verifier::external_body]
pub(crate) fn push_account(builder: &mut trie_rs::TrieBuilder<String>, entry: &Vec<String>)
    requires
        entry@.len() > 0,
    ensures
        pending_accounts(*final(builder)) == pending_accounts(*old(builder)).insert(views(entry@)),
{
    builder.push(entry)
}

/// `TrieBuilder::build`: the trie stores what was pushed.
#[verifier::external_body]
pub(crate) fn build_account_trie(builder: trie_rs::TrieBuilder<String>) -> (trie: trie_rs::Trie<
    String,
>)
    ensures
        account_entries(trie) == pending_accounts(builder),
{
    builder.build()
}

/// `Trie::predictive_search`, collected: every stored entry that starts with
/// the query, the query itself included if it is stored, each once.
#[verifier::external_body]
pub(crate) fn search_account_trie(trie: &trie_rs::Trie<String>, query: &Vec<String>) -> (found: Vec<
    Vec<String>,
>)
    ensures
        paths(found@) == account_search(*trie, views(query@)),
        paths(found@).no_duplicates(),
        (forall|p: Seq<Seq<char>>| #[trigger]
            paths(found@).contains(p) <==> stored_with_prefix(
                account_entries(*trie),
                views(query@),
                p,
            )),
{
    trie.predictive_search(query).collect()
}

/// `TrieBuilder::new`: a builder to which nothing has been pushed.
#[verifier::external_body]
pub(crate) fn new_currency_builder() -> (builder: trie_rs::TrieBuilder<char>)
    ensures
        pending_currencies(builder) == Set::<Seq<char>>::empty(),
{
    trie_rs::TrieBuilder::new()
}

/// `TrieBuilder::push`: the entry joins what was pushed; pushing an entry
/// again changes nothing. An entry without labels makes it panic.
#[verifier::external_body]
pub(crate) fn push_currency(builder: &mut trie_rs::TrieBuilder<char>, entry: &Vec<char>)
    requires
        entry@.len() > 0,
    ensures
        pending_currencies(*final(builder)) == pending_currencies(*old(builder)).insert(entry@),
{
    builder.push(entry)
}

/// `TrieBuilder::build`: the trie stores what was pushed.
#[verifier::external_body]
pub(crate) fn build_currency_trie(builder: trie_rs::TrieBuilder<char>) -> (trie: trie_rs::Trie<
    char,
>)
    ensures
        currency_entries(trie) == pending_currencies(builder),
{
    builder.build()
}

/// `Trie::predictive_search`, collected: every stored entry that starts with
/// the query, the query itself included if it is stored, each once.
#[verifier::external_body]
pub(crate) fn search_currency_trie(trie: &trie_rs::Trie<char>, query: &Vec<char>) -> (found: Vec<
    Vec<char>,
>)
    ensures
        rows(found@) == currency_search(*trie, query@),
        rows(found@).no_duplicates(),
        (forall|c: Seq<char>| #[trigger]
            rows(found@).contains(c) <==> stored_with_prefix(
                currency_entries(*trie),
                query@,
                c,
            )),
{
    trie.predictive_search(query).collect()
}

/// Searches an account trie for the paths that start with `query`.
pub fn predictive_search_accounts(trie: &trie_rs::Trie<String>, query: &Vec<String>) -> (found: Vec<
    Vec<String>,
>)
    ensures
        paths(found@) == account_search(*trie, views(query@)),
        paths(found@).no_duplicates(),
        paths(found@).to_set() == Set::new(
            |p: Seq<Seq<char>>| stored_with_prefix(account_entries(*trie), views(query@), p),
        ),
        account_entries(*trie).contains(views(query@)) ==> paths(found@).contains(views(query@)),
        views(query@).len() == 0 ==> paths(found@).to_set() == account_entries(*trie),
{
    let found = search_account_trie(trie, query);
    proof {
        assert(views(query@).is_prefix_of(views(query@)));
        if views(query@).len() == 0 {
            assert forall|p: Seq<Seq<char>>| views(query@).is_prefix_of(p) by {
                assert(p.subrange(0, 0) =~= views(query@));
            }
            assert(paths(found@).to_set() =~= account_entries(*trie));
        }
    }
    assert(paths(found@).to_set() =~= Set::new(
        |p: Seq<Seq<char>>| stored_with_prefix(account_entries(*trie), views(query@), p),
    ));
    found
}

/// Searches a currency trie for the codes that start with `query`.
pub fn predictive_search_currencies(trie: &trie_rs::Trie<char>, query: &Vec<char>) -> (found: Vec<
    Vec<char>,
>)
    ensures
        rows(found@) == currency_search(*trie, query@),
        rows(found@).no_duplicates(),
        rows(found@).to_set() == Set::new(
            |c: Seq<char>| stored_with_prefix(currency_entries(*trie), query@, c),
        ),
        currency_entries(*trie).contains(query@) ==> rows(found@).contains(query@),
        query@.len() == 0 ==> rows(found@).to_set() == currency_entries(*trie),
{
    let found = search_currency_trie(trie, query);
    proof {
        assert(query@.is_prefix_of(query@));
        if query@.len() == 0 {
            assert forall|c: Seq<char>| query@.is_prefix_of(c) by {
                assert(c.subrange(0, 0) =~= query@);
            }
            assert(rows(found@).to_set() =~= currency_entries(*trie));
        }
    }
    assert(rows(found@).to_set() =~= Set::new(
        |c: Seq<char>| stored_with_prefix(currency_entries(*trie), query@, c),
    ));
    found
}

/// The trie key of an account name: its segments between colons.
pub open spec fn account_path(name: Seq<char>) -> Seq<Seq<char>> {
    split_on(name, ':')
}

/// The trie keys of a set of account names.
pub open spec fn account_paths(names: Set<Seq<char>>) -> Set<Seq<Seq<char>>> {
    names.map(|name: Seq<char>| account_path(name))
}

/// The codes that hold at least one character.
pub open spec fn codes(currencies: Set<Seq<char>>) -> Set<Seq<char>> {
    currencies.filter(|c: Seq<char>| c.len() > 0)
}

/// The paths of the names in a list, as a set.
proof fn lemma_account_paths_push(names: Seq<Seq<char>>, name: Seq<char>)
    ensures
        account_paths(names.push(name).to_set()) == account_paths(names.to_set()).insert(
            account_path(name),
        ),
{
    names.lemma_push_to_set_commute(name);
    let f = |n: Seq<char>| account_path(n);
    let left = names.to_set().insert(name).map(f);
    let right = names.to_set().map(f).insert(account_path(name));
    assert forall|p: Seq<Seq<char>>| left.contains(p) implies right.contains(p) by {
        let n = choose|n: Seq<char>| names.to_set().insert(name).contains(n) && f(n) == p;
        if n != name {
            assert(names.to_set().contains(n));
        }
    }
    assert forall|p: Seq<Seq<char>>| right.contains(p) implies left.contains(p) by {
        if p == account_path(name) {
            assert(names.to_set().insert(name).contains(name) && f(name) == p);
        } else {
            let n = choose|n: Seq<char>| names.to_set().contains(n) && f(n) == p;
            assert(names.to_set().insert(name).contains(n) && f(n) == p);
        }
    }
    assert(left =~= right);
}

impl Data {
    /// The trie over the account names of this index, keyed by segment.
    pub fn account_trie(&self) -> (trie: trie_rs::Trie<String>)
        ensures
            account_entries(trie) == account_paths(self@.accounts),
    {
        let names = self.accounts.items();
        let mut builder = new_account_builder();
        let mut i: usize = 0;
        assert(views(names@).take(0).to_set() =~= Set::<Seq<char>>::empty());
        assert(account_paths(Set::<Seq<char>>::empty()) =~= Set::<Seq<Seq<char>>>::empty());
        while i < names.len()
            invariant
                i <= names.len(),
                pending_accounts(builder) == account_paths(views(names@).take(i as int).to_set()),
            decreases names.len() - i,
        {
            let path = split_text(names[i].as_str(), ':');
            proof {
                let taken = views(names@).take(i as int);
                assert(views(names@).take(i as int + 1) =~= taken.push(names@[i as int]@));
                lemma_account_paths_push(taken, names@[i as int]@);
            }
            push_account(&mut builder, &path);
            i += 1;
        }
        assert(views(names@).take(names.len() as int) =~= views(names@));
        build_account_trie(builder)
    }

    /// The trie over the currency codes of this index, keyed by character.
    pub fn currency_trie(&self) -> (trie: trie_rs::Trie<char>)
        ensures
            currency_entries(trie) == codes(self@.currencies),
    {
        let names = self.currencies.items();
        let mut builder = new_currency_builder();
        let mut i: usize = 0;
        assert(codes(views(names@).take(0).to_set()) =~= Set::<Seq<char>>::empty());
        while i < names.len()
            invariant
                i <= names.len(),
                pending_currencies(builder) == codes(views(names@).take(i as int).to_set()),
            decreases names.len() - i,
        {
            let code = chars_of(names[i].as_str());
            proof {
                let taken = views(names@).take(i as int);
                assert(views(names@).take(i as int + 1) =~= taken.push(names@[i as int]@));
                taken.lemma_push_to_set_commute(names@[i as int]@);
            }
            if code.len() > 0 {
                push_currency(&mut builder, &code);
                assert(pending_currencies(builder) =~= codes(
                    views(names@).take(i as int + 1).to_set(),
                ));
            } else {
                assert(pending_currencies(builder) =~= codes(
                    views(names@).take(i as int + 1).to_set(),
                ));
            }
            i += 1;
        }
        assert(views(names@).take(names.len() as int) =~= views(names@));
        build_currency_trie(builder)
    }
}

impl Data {
    /// The account names of this index as trie keys, in the order of the
    /// names.
    pub fn account_paths(&self) -> (keys: Vec<Vec<String>>)
        ensures
            keys@.len() == self.accounts.listed().len(),
            forall|i: int|
                0 <= i < keys@.len() ==> views((#[trigger] keys@[i])@) == account_path(
                    self.accounts.listed()[i],
                ),
    {
        let names = self.accounts.items();
        let mut keys: Vec<Vec<String>> = Vec::new();
        let mut i: usize = 0;
        assert(views(names@).len() == names@.len());
        while i < names.len()
            invariant
                i <= names.len(),
                keys@.len() == i,
                views(names@) == self.accounts.listed(),
                views(names@).len() == names@.len(),
                forall|k: int|
                    0 <= k < i ==> views((#[trigger] keys@[k])@) == account_path(
                        self.accounts.listed()[k],
                    ),
            decreases names.len() - i,
        {
            assert(views(names@)[i as int] == names@[i as int]@);
            keys.push(split_text(names[i].as_str(), ':'));
            i += 1;
        }
        keys
    }

    /// The currency codes of this index as trie keys, in the order of the
    /// codes.
    pub fn currency_keys(&self) -> (keys: Vec<Vec<char>>)
        ensures
            rows(keys@) == self.currencies.listed(),
    {
        let names = self.currencies.items();
        let mut keys: Vec<Vec<char>> = Vec::new();
        let mut i: usize = 0;
        while i < names.len()
            invariant
                i <= names.len(),
                keys@.len() == i,
                forall|k: int| 0 <= k < i ==> (#[trigger] keys@[k])@ == names@[k]@,
            decreases names.len() - i,
        {
            keys.push(chars_of(names[i].as_str()));
            i += 1;
        }
        assert(rows(keys@) =~= views(names@));
        keys
    }
}

/// The path of an account name of an index is among the trie keys of the
/// index.
pub proof fn lemma_account_path_is_stored(names: Set<Seq<char>>, name: Seq<char>)
    requires
        names.contains(name),
    ensures
        account_paths(names).contains(account_path(name)),
{
}

/// Two account names with the same path are the same name.
pub proof fn lemma_account_path_is_one_to_one(a: Seq<char>, b: Seq<char>)
    requires
        account_path(a) == account_path(b),
    ensures
        a == b,
{
    crate::text::lemma_join_of_split(a, ':');
    crate::text::lemma_join_of_split(b, ':');
}

} // verus!
