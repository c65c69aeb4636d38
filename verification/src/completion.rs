//! Completion at a place in a ledger: account names by segment, currency
//! codes, account roots and payees, chosen by the node that stands there.

use vstd::prelude::*;
use crate::collections::{LocationMap, Place, SourceLocation, TextSet};
use crate::error::Error;
use crate::grammar::{locate, located};
use crate::index::Data;
use crate::reformat::{reformat, reformatted};
use crate::syntax::{NodeKind, Position};
use crate::text::{
    blank, chars_of, has_prefix, join, join_with, non_empty_parts, rows, split, split_on,
    string_of, trim_trailing_blanks, views,
};
use crate::trie::{
    account_entries, account_path, account_paths, account_search, codes, currency_entries,
    currency_search, paths, predictive_search_accounts, predictive_search_currencies,
};

verus! {

/// What the requests of an editor are answered from: the text of the open
/// ledger, the places of the commodity definitions, the tries over accounts
/// and currencies, once an index has been built, and the payees.
pub struct State {
    pub text: String,
    pub commodities: LocationMap,
    pub account_trie: Option<trie_rs::Trie<String>>,
    pub currency_trie: Option<trie_rs::Trie<char>>,
    pub payees: TextSet,
}

/// The segments of an account name that is being typed: its pieces between
/// colons that hold at least one character.
pub open spec fn account_sequence(text: Seq<char>) -> Seq<Seq<char>> {
    non_empty_parts(split_on(text, ':'))
}

/// What remains of a path after its first `skip` segments, joined by colons.
pub open spec fn suffix_label(path: Seq<Seq<char>>, skip: nat) -> Seq<char> {
    join_with(path.skip(skip as int), ':')
}

/// The suffix labels of the paths that a search found.
pub open spec fn suffix_labels(found: Seq<Seq<Seq<char>>>, skip: nat) -> Seq<Seq<char>> {
    found.map_values(|path: Seq<Seq<char>>| suffix_label(path, skip))
}

/// The completions of an account prefix: the remainders of the stored paths
/// that start with it. Without a trie there is an error.
pub open spec fn account_completions(
    sequence: Seq<Seq<char>>,
    trie: Option<trie_rs::Trie<String>>,
) -> Result<Seq<Seq<char>>, Error> {
    match trie {
        Some(trie) => Ok(suffix_labels(account_search(trie, sequence), sequence.len())),
        None => Err(Error::TrieEmpty),
    }
}

/// The names of the account roots, in the order in which they are tried.
pub open spec fn account_roots() -> Seq<Seq<char>> {
    seq!["Expenses"@, "Assets"@, "Liabilities"@, "Equity"@, "Revenue"@]
}

/// A text without its first character.
pub open spec fn without_first(text: Seq<char>) -> Seq<char> {
    if text.len() == 0 {
        text
    } else {
        text.drop_first()
    }
}

/// The first of the first `count` account roots that, without its first
/// character, starts with `typed`.
pub open spec fn root_among(typed: Seq<char>, count: nat) -> Option<Seq<char>>
    decreases count,
{
    if count == 0 || count > account_roots().len() {
        None
    } else {
        match root_among(typed, (count - 1) as nat) {
            Some(root) => Some(root),
            None => if typed.is_prefix_of(without_first(account_roots()[count - 1])) {
                Some(account_roots()[count - 1])
            } else {
                None
            },
        }
    }
}

/// The beginning of a payee that is being typed: the text without a leading
/// quote and without trailing white space.
pub open spec fn payee_prefix(text: Seq<char>) -> Seq<char> {
    trim_trailing_blanks(
        if text.len() > 0 && text[0] == '"' {
            text.drop_first()
        } else {
            text
        },
    )
}

/// The texts that start with `prefix`, in order.
pub open spec fn starting_with(texts: Seq<Seq<char>>, prefix: Seq<char>) -> Seq<Seq<char>> {
    texts.filter(begins(prefix))
}

/// The test for a text that starts with `prefix`.
pub open spec fn begins(prefix: Seq<char>) -> spec_fn(Seq<char>) -> bool {
    |t: Seq<char>| prefix.is_prefix_of(t)
}

/// Labels, nothing or an error, as a mathematical value.
pub open spec fn answer(r: Result<Option<Vec<String>>, Error>) -> Result<
    Option<Seq<Seq<char>>>,
    Error,
> {
    match r {
        Ok(Some(labels)) => Ok(Some(views(labels@))),
        Ok(None) => Ok(None),
        Err(e) => Err(e),
    }
}

/// A place, nothing or an error, as a mathematical value.
pub open spec fn place_outcome(r: Result<Option<SourceLocation>, Error>) -> Result<
    Option<Place>,
    Error,
> {
    match r {
        Ok(Some(place)) => Ok(Some(place@)),
        Ok(None) => Ok(None),
        Err(e) => Err(e),
    }
}

/// Labels or an error, as a mathematical value.
pub open spec fn labels_outcome(r: Result<Vec<String>, Error>) -> Result<Seq<Seq<char>>, Error> {
    match r {
        Ok(labels) => Ok(views(labels@)),
        Err(e) => Err(e),
    }
}

/// The labels, where there are any.
pub open spec fn some_labels(labels: Result<Seq<Seq<char>>, Error>) -> Result<
    Option<Seq<Seq<char>>>,
    Error,
> {
    match labels {
        Ok(labels) => Ok(Some(labels)),
        Err(e) => Err(e),
    }
}

/// The segments of an account name that is being typed.
pub fn account_sequence_from(text: &str) -> (sequence: Vec<String>)
    ensures
        views(sequence@) == account_sequence(text@),
        forall|i: int| 0 <= i < sequence@.len() ==> (#[trigger] sequence@[i])@.len() > 0,
{
    let pieces = split(&chars_of(text), ':');
    let mut sequence: Vec<String> = Vec::new();
    let mut i: usize = 0;
    proof {
        reveal(Seq::filter);
    }
    assert(rows(pieces@).take(0) =~= Seq::<Seq<char>>::empty());
    assert(views(sequence@) =~= Seq::<Seq<char>>::empty());
    while i < pieces.len()
        invariant
            i <= pieces.len(),
            views(sequence@) == non_empty_parts(rows(pieces@).take(i as int)),
            forall|k: int| 0 <= k < sequence@.len() ==> (#[trigger] sequence@[k])@.len() > 0,
        decreases pieces.len() - i,
    {
        let ghost before = views(sequence@);
        proof {
            let taken = rows(pieces@).take(i as int);
            assert(rows(pieces@).take(i as int + 1) =~= taken.push(pieces@[i as int]@));
            taken.lemma_filter_push(pieces@[i as int]@, |p: Seq<char>| p.len() > 0);
        }
        if pieces[i].len() > 0 {
            let piece = string_of(&pieces[i]);
            sequence.push(piece);
            assert(views(sequence@) =~= before.push(pieces@[i as int]@));
        }
        i += 1;
    }
    assert(rows(pieces@).take(pieces.len() as int) =~= rows(pieces@));
    sequence
}

/// What remains of `path` after its first `skip` segments, joined by colons.
fn label_after(path: &Vec<String>, skip: usize) -> (label: String)
    requires
        skip <= path@.len(),
    ensures
        label@ == suffix_label(views(path@), skip as nat),
{
    let mut parts: Vec<Vec<char>> = Vec::new();
    let mut i: usize = skip;
    assert(rows(parts@) =~= views(path@).subrange(skip as int, skip as int));
    while i < path.len()
        invariant
            skip <= i <= path.len(),
            rows(parts@) == views(path@).subrange(skip as int, i as int),
        decreases path.len() - i,
    {
        let ghost before = rows(parts@);
        let part = chars_of(path[i].as_str());
        parts.push(part);
        assert(rows(parts@) =~= before.push(path@[i as int]@));
        assert(views(path@).subrange(skip as int, i as int + 1) =~= before.push(path@[i as int]@));
        i += 1;
    }
    assert(views(path@).subrange(skip as int, path.len() as int) =~= views(path@).skip(
        skip as int,
    ));
    string_of(&join(&parts, ':'))
}

/// The completions of an account prefix.
pub fn completion_response_from(sequence: &Vec<String>, trie: &Option<trie_rs::Trie<String>>) -> (r:
    Result<Vec<String>, Error>)
    ensures
        labels_outcome(r) == account_completions(views(sequence@), *trie),
{
    match trie {
        None => Err(Error::TrieEmpty),
        Some(trie) => {
            let found = predictive_search_accounts(trie, sequence);
            let mut labels: Vec<String> = Vec::new();
            let mut i: usize = 0;
            let ghost skip = sequence@.len() as nat;
            assert(views(sequence@).len() == sequence@.len());
            assert(views(labels@) =~= suffix_labels(paths(found@), skip).take(0));
            while i < found.len()
                invariant
                    i <= found.len(),
                    skip == sequence@.len(),
                    views(sequence@).len() == sequence@.len(),
                    views(labels@) == suffix_labels(paths(found@), skip).take(i as int),
                    paths(found@).to_set() == Set::new(
                        |p: Seq<Seq<char>>|
                            crate::trie::stored_with_prefix(
                                account_entries(*trie),
                                views(sequence@),
                                p,
                            ),
                    ),
                decreases found.len() - i,
            {
                let ghost before = views(labels@);
                proof {
                    let p = paths(found@)[i as int];
                    assert(paths(found@).contains(p));
                    assert(paths(found@).to_set().contains(p));
                    assert(views(sequence@).is_prefix_of(p));
                    assert(p == views(found@[i as int]@));
                    assert(p.len() == found@[i as int]@.len());
                }
                let label = label_after(&found[i], sequence.len());
                let ghost added = label@;
                labels.push(label);
                assert(views(labels@) =~= before.push(added));
                assert(suffix_labels(paths(found@), skip).take(i as int + 1) =~= before.push(added));
                i += 1;
            }
            assert(suffix_labels(paths(found@), skip).take(found.len() as int) =~= suffix_labels(
                paths(found@),
                skip,
            ));
            Ok(labels)
        },
    }
}

/// A replacement of a range of a text.
pub struct TextEdit {
    pub start: Position,
    pub end: Position,
    pub new_text: String,
}

/// The number of line breaks in a text.
pub open spec fn line_breaks_in(text: Seq<char>) -> nat {
    text.filter(|c: char| c == '\n').len()
}

/// The range of the character just before a cursor: from one column before
/// it, or from the start of the line, up to the cursor.
pub open spec fn before_cursor(line: usize, character: usize) -> (Position, Position) {
    (
        Position {
            row: line,
            column: if character == 0 {
                0
            } else {
                (character - 1) as usize
            },
        },
        Position { row: line, column: character },
    )
}

impl State {
    /// The completions after a colon was typed: those of the segments of the
    /// account name that stands before the cursor, or nothing where it has
    /// no segment.
    pub open spec fn triggered_answer(self, text: Seq<char>) -> Result<
        Option<Seq<Seq<char>>>,
        Error,
    > {
        if account_sequence(text).len() == 0 {
            Ok(None)
        } else {
            some_labels(account_completions(account_sequence(text), self.account_trie))
        }
    }

    /// The completions of an account name: those of its segments without the
    /// last, or nothing where it has fewer than two segments.
    pub open spec fn account_answer(self, text: Seq<char>) -> Result<
        Option<Seq<Seq<char>>>,
        Error,
    > {
        if account_sequence(text).len() < 2 {
            Ok(None)
        } else {
            some_labels(account_completions(account_sequence(text).drop_last(), self.account_trie))
        }
    }

    /// The completions of a currency code: the stored codes that start with
    /// it. Without a trie there is an error.
    pub open spec fn currency_answer(self, text: Seq<char>) -> Result<
        Option<Seq<Seq<char>>>,
        Error,
    > {
        match self.currency_trie {
            Some(trie) => Ok(Some(currency_search(trie, text))),
            None => Err(Error::TrieEmpty),
        }
    }

    /// The completion of the beginning of an account root: the root, as the
    /// only label, or nothing where no root fits.
    pub open spec fn identifier_answer(self, text: Seq<char>) -> Result<
        Option<Seq<Seq<char>>>,
        Error,
    > {
        match root_among(text, account_roots().len()) {
            Some(root) => Ok(Some(seq![root])),
            None => Ok(None),
        }
    }

    /// The completions of the beginning of a payee: the payees that start
    /// with it, or nothing where there is none.
    pub open spec fn error_answer(self, text: Seq<char>) -> Result<Option<Seq<Seq<char>>>, Error> {
        let candidates = starting_with(self.payees.listed(), payee_prefix(text));
        if candidates.len() == 0 {
            Ok(None)
        } else {
            Ok(Some(candidates))
        }
    }

    /// The completions for a node of the given kind and text.
    pub open spec fn node_answer(self, kind: NodeKind, text: Seq<char>) -> Result<
        Option<Seq<Seq<char>>>,
        Error,
    > {
        if kind == NodeKind::Currency {
            self.currency_answer(text)
        } else if kind == NodeKind::Identifier {
            self.identifier_answer(text)
        } else if kind == NodeKind::Account {
            self.account_answer(text)
        } else if kind == NodeKind::Error {
            self.error_answer(text)
        } else {
            Ok(None)
        }
    }

    /// The completions at a cursor, once the node before it is known.
    pub open spec fn located_answer(
        self,
        node: Result<Option<(NodeKind, Seq<char>)>, Error>,
        triggered: bool,
    ) -> Result<Option<Seq<Seq<char>>>, Error> {
        match node {
            Err(e) => Err(e),
            Ok(None) => Ok(None),
            Ok(Some(found)) => if triggered {
                self.triggered_answer(found.1)
            } else {
                self.node_answer(found.0, found.1)
            },
        }
    }

    /// The completions at a cursor: nothing before an index is built, else
    /// what the node just before the cursor calls for.
    pub open spec fn completion_answer(self, line: usize, character: usize, triggered: bool) -> Result<
        Option<Seq<Seq<char>>>,
        Error,
    > {
        if self.account_trie is None {
            Ok(None)
        } else {
            self.located_answer(
                located(
                    self.text@,
                    before_cursor(line, character).0,
                    before_cursor(line, character).1,
                ),
                triggered,
            )
        }
    }

    /// The place where the currency at a cursor is defined, once the node at
    /// the cursor is known.
    pub open spec fn located_definition(
        self,
        node: Result<Option<(NodeKind, Seq<char>)>, Error>,
    ) -> Result<Option<Place>, Error> {
        match node {
            Err(e) => Err(e),
            Ok(None) => Ok(None),
            Ok(Some(found)) => if found.0 == NodeKind::Currency && self.commodities@.contains_key(
                found.1,
            ) {
                Ok(Some(self.commodities@[found.1]))
            } else {
                Ok(None)
            },
        }
    }

    /// The state before any ledger is loaded.
    pub fn new() -> (state: State)
        ensures
            state.text@ == Seq::<char>::empty(),
            state.commodities@ == Map::<Seq<char>, Place>::empty(),
            state.commodities.listed() == Seq::<Seq<char>>::empty(),
            state.account_trie is None,
            state.currency_trie is None,
            state.payees@ == Set::<Seq<char>>::empty(),
            state.payees.listed() == Seq::<Seq<char>>::empty(),
    {
        State {
            text: String::new(),
            commodities: LocationMap::new(),
            account_trie: None,
            currency_trie: None,
            payees: TextSet::new(),
        }
    }

    /// The state after a ledger was indexed: its text, its commodities and
    /// payees, and the tries over its accounts and currencies.
    pub fn load_ledgers(data: Data) -> (state: State)
        ensures
            state.text@ == data@.text,
            state.commodities@ == data@.commodities,
            state.payees@ == data@.payees,
            state.account_trie is Some,
            account_entries(state.account_trie->0) == account_paths(data@.accounts),
            state.currency_trie is Some,
            currency_entries(state.currency_trie->0) == codes(data@.currencies),
    {
        let account_trie = data.account_trie();
        let currency_trie = data.currency_trie();
        State {
            text: data.text,
            commodities: data.commodities,
            account_trie: Some(account_trie),
            currency_trie: Some(currency_trie),
            payees: data.payees,
        }
    }

    /// The state after the text of the open ledger changed.
    pub fn did_change(self, text: String) -> (state: State)
        ensures
            state.text@ == text@,
            state.commodities == self.commodities,
            state.account_trie == self.account_trie,
            state.currency_trie == self.currency_trie,
            state.payees == self.payees,
    {
        State {
            text,
            commodities: self.commodities,
            account_trie: self.account_trie,
            currency_trie: self.currency_trie,
            payees: self.payees,
        }
    }

    /// Completes an account name after a colon was typed.
    pub fn handle_character_triggered(&self, text: &str) -> (r: Result<Option<Vec<String>>, Error>)
        ensures
            answer(r) == self.triggered_answer(text@),
    {
        let sequence = account_sequence_from(text);
        assert(views(sequence@).len() == sequence@.len());
        if sequence.len() == 0 {
            return Ok(None);
        }
        match completion_response_from(&sequence, &self.account_trie) {
            Ok(labels) => Ok(Some(labels)),
            Err(e) => Err(e),
        }
    }

    /// Completes an account name whose last segment is being typed.
    pub fn handle_account(&self, text: &str) -> (r: Result<Option<Vec<String>>, Error>)
        ensures
            answer(r) == self.account_answer(text@),
    {
        let mut sequence = account_sequence_from(text);
        assert(views(sequence@).len() == sequence@.len());
        if sequence.len() < 2 {
            return Ok(None);
        }
        let ghost whole = views(sequence@);
        sequence.pop();
        assert(views(sequence@) =~= whole.drop_last());
        match completion_response_from(&sequence, &self.account_trie) {
            Ok(labels) => Ok(Some(labels)),
            Err(e) => Err(e),
        }
    }

    /// Completes a currency code.
    pub fn handle_currency(&self, text: &str) -> (r: Result<Option<Vec<String>>, Error>)
        ensures
            answer(r) == self.currency_answer(text@),
    {
        match &self.currency_trie {
            None => Err(Error::TrieEmpty),
            Some(trie) => {
                let found = predictive_search_currencies(trie, &chars_of(text));
                let mut labels: Vec<String> = Vec::new();
                let mut i: usize = 0;
                while i < found.len()
                    invariant
                        i <= found.len(),
                        labels.len() == i,
                        forall|k: int| 0 <= k < i ==> (#[trigger] labels@[k])@ == found@[k]@,
                    decreases found.len() - i,
                {
                    labels.push(string_of(&found[i]));
                    i += 1;
                }
                assert(views(labels@) =~= rows(found@));
                Ok(Some(labels))
            },
        }
    }

    /// Completes the beginning of an account root.
    pub fn handle_identifier(&self, text: &str) -> (r: Result<Option<Vec<String>>, Error>)
        ensures
            answer(r) == self.identifier_answer(text@),
    {
        let typed = chars_of(text);
        let roots: [&str; 5] = ["Expenses", "Assets", "Liabilities", "Equity", "Revenue"];
        let mut i: usize = 0;
        while i < 5
            invariant
                i <= 5,
                roots@.len() == 5,
                typed@ == text@,
                account_roots().len() == 5,
                forall|k: int| 0 <= k < 5 ==> (#[trigger] roots@[k])@ == account_roots()[k],
                root_among(typed@, i as nat) is None,
            decreases 5 - i,
        {
            let root = chars_of(roots[i]);
            let mut rest: Vec<char> = Vec::new();
            let mut j: usize = 1;
            while j < root.len()
                invariant
                    1 <= j,
                    j <= root.len() || root.len() == 0,
                    rest@ == if root.len() == 0 {
                        Seq::<char>::empty()
                    } else {
                        root@.subrange(1, j as int)
                    },
                decreases root.len() - j,
            {
                rest.push(root[j]);
                assert(root@.subrange(1, j as int + 1) =~= root@.subrange(1, j as int).push(
                    root@[j as int],
                ));
                j += 1;
            }
            assert(rest@ =~= without_first(root@));
            if has_prefix(&rest, &typed) {
                let mut labels: Vec<String> = Vec::new();
                labels.push(roots[i].to_owned());
                assert(views(labels@) =~= seq![account_roots()[i as int]]);
                proof {
                    assert(root@ == account_roots()[i as int]);
                    assert(typed@.is_prefix_of(without_first(account_roots()[i as int])));
                    assert(root_among(typed@, (i + 1) as nat) == Some(account_roots()[i as int]));
                    lemma_root_found(typed@, (i + 1) as nat, 5);
                }
                return Ok(Some(labels));
            }
            i += 1;
        }
        Ok(None)
    }

    /// Completes the beginning of a payee.
    pub fn handle_error(&self, text: &str) -> (r: Result<Option<Vec<String>>, Error>)
        ensures
            answer(r) == self.error_answer(text@),
    {
        let chars = chars_of(text);
        let start: usize = if chars.len() > 0 && chars[0] == '"' {
            1
        } else {
            0
        };
        let mut end: usize = chars.len();
        let ghost opened = chars@.subrange(start as int, end as int);
        assert(opened =~= if text@.len() > 0 && text@[0] == '"' {
            text@.drop_first()
        } else {
            text@
        });
        while end > start && blank(chars[end - 1])
            invariant
                start <= end <= chars.len(),
                trim_trailing_blanks(opened) == trim_trailing_blanks(
                    chars@.subrange(start as int, end as int),
                ),
            decreases end,
        {
            assert(chars@.subrange(start as int, end as int).drop_last() =~= chars@.subrange(
                start as int,
                end as int - 1,
            ));
            end -= 1;
        }
        let mut prefix: Vec<char> = Vec::new();
        let mut i: usize = start;
        while i < end
            invariant
                start <= i <= end <= chars.len(),
                prefix@ == chars@.subrange(start as int, i as int),
            decreases end - i,
        {
            prefix.push(chars[i]);
            assert(chars@.subrange(start as int, i as int + 1) =~= chars@.subrange(
                start as int,
                i as int,
            ).push(chars@[i as int]));
            i += 1;
        }
        assert(prefix@ == payee_prefix(text@));
        let payees = self.payees.items();
        let mut labels: Vec<String> = Vec::new();
        let mut k: usize = 0;
        proof {
            reveal(Seq::filter);
        }
        assert(views(payees@).take(0) =~= Seq::<Seq<char>>::empty());
        assert(views(labels@) =~= Seq::<Seq<char>>::empty());
        while k < payees.len()
            invariant
                k <= payees.len(),
                views(labels@) == starting_with(views(payees@).take(k as int), prefix@),
            decreases payees.len() - k,
        {
            let ghost before = views(labels@);
            proof {
                let taken = views(payees@).take(k as int);
                assert(views(payees@).take(k as int + 1) =~= taken.push(payees@[k as int]@));
                taken.lemma_filter_push(payees@[k as int]@, begins(prefix@));
            }
            if has_prefix(&chars_of(payees[k].as_str()), &prefix) {
                labels.push(payees[k].clone());
                assert(views(labels@) =~= before.push(payees@[k as int]@));
            }
            k += 1;
        }
        assert(views(payees@).take(payees.len() as int) =~= views(payees@));
        assert(views(labels@).len() == labels@.len());
        if labels.len() == 0 {
            Ok(None)
        } else {
            Ok(Some(labels))
        }
    }

    /// Completes what a node of the given kind and text calls for.
    pub fn handle_node(&self, kind: NodeKind, text: &str) -> (r: Result<Option<Vec<String>>, Error>)
        ensures
            answer(r) == self.node_answer(kind, text@),
    {
        if kind == NodeKind::Currency {
            self.handle_currency(text)
        } else if kind == NodeKind::Identifier {
            self.handle_identifier(text)
        } else if kind == NodeKind::Account {
            self.handle_account(text)
        } else if kind == NodeKind::Error {
            self.handle_error(text)
        } else {
            Ok(None)
        }
    }

    /// Completes at a cursor, given the node that stands just before it.
    pub fn complete_at(&self, node: Result<Option<(NodeKind, String)>, Error>, triggered: bool) -> (r:
        Result<Option<Vec<String>>, Error>)
        ensures
            answer(r) == self.located_answer(crate::grammar::located_outcome(node), triggered),
    {
        match node {
            Err(e) => Err(e),
            Ok(None) => Ok(None),
            Ok(Some(found)) => if triggered {
                self.handle_character_triggered(found.1.as_str())
            } else {
                self.handle_node(found.0, found.1.as_str())
            },
        }
    }

    /// Completes at the cursor in `line` at `character`; `trigger` is the
    /// character whose typing asked for the completion, if one did.
    pub fn completion(&self, line: usize, character: usize, trigger: Option<&str>) -> (r: Result<
        Option<Vec<String>>,
        Error,
    >)
        ensures
            answer(r) == self.completion_answer(
                line,
                character,
                match trigger {
                    Some(typed) => typed@ == ":"@,
                    None => false,
                },
            ),
    {
        if self.account_trie.is_none() {
            return Ok(None);
        }
        let start = Position {
            row: line,
            column: if character == 0 {
                0
            } else {
                character - 1
            },
        };
        let end = Position { row: line, column: character };
        let triggered = match trigger {
            Some(typed) => crate::text::same_text(typed, ":"),
            None => false,
        };
        self.complete_at(locate(self.text.as_str(), start, end), triggered)
    }

    /// The place where the currency at a cursor is defined, given the node
    /// that stands at the cursor.
    pub fn definition_at(&self, node: Result<Option<(NodeKind, String)>, Error>) -> (r: Result<
        Option<SourceLocation>,
        Error,
    >)
        ensures
            place_outcome(r) == self.located_definition(crate::grammar::located_outcome(node)),
    {
        match node {
            Err(e) => Err(e),
            Ok(None) => Ok(None),
            Ok(Some(found)) => if found.0 == NodeKind::Currency {
                match self.commodities.get(found.1.as_str()) {
                    Some(place) => Ok(Some(place.clone())),
                    None => Ok(None),
                }
            } else {
                Ok(None)
            },
        }
    }

    /// The place where the currency at the cursor in `line` at `character` is
    /// defined.
    pub fn goto_definition(&self, line: usize, character: usize) -> (r: Result<
        Option<SourceLocation>,
        Error,
    >)
        ensures
            place_outcome(r) == self.located_definition(
                located(
                    self.text@,
                    Position { row: line, column: character },
                    Position { row: line, column: character },
                ),
            ),
    {
        let point = Position { row: line, column: character };
        self.definition_at(locate(self.text.as_str(), point, point))
    }

    /// The edit that replaces the open ledger by the canonical text of
    /// `saved`, the text of its file: from the start to the line after the
    /// last line break of the open ledger.
    pub fn formatting(&self, saved: &str) -> (r: Result<TextEdit, Error>)
        ensures
            match r {
                Ok(edit) => reformatted(saved@) == Ok::<Option<Seq<char>>, Error>(
                    Some(edit.new_text@),
                ) && edit.start == (Position { row: 0, column: 0 }) && edit.end.column == 0
                    && edit.end.row == line_breaks_in(self.text@),
                Err(e) => reformatted(saved@) == Err::<Option<Seq<char>>, Error>(e),
            },
    {
        let new_text = match reformat(saved) {
            Ok(Some(new_text)) => new_text,
            Ok(None) => {
                return Err(Error::UnexpectedFormat);
            },
            Err(e) => {
                return Err(e);
            },
        };
        let chars = chars_of(self.text.as_str());
        let mut rows: usize = 0;
        let mut i: usize = 0;
        proof {
            reveal(Seq::filter);
        }
        assert(chars@.take(0) =~= Seq::<char>::empty());
        while i < chars.len()
            invariant
                i <= chars.len(),
                rows <= i,
                rows == line_breaks_in(chars@.take(i as int)),
            decreases chars.len() - i,
        {
            proof {
                let taken = chars@.take(i as int);
                assert(chars@.take(i as int + 1) =~= taken.push(chars@[i as int]));
                taken.lemma_filter_push(chars@[i as int], |c: char| c == '\n');
            }
            if chars[i] == '\n' {
                rows += 1;
            }
            i += 1;
        }
        assert(chars@.take(chars.len() as int) =~= chars@);
        Ok(
            TextEdit {
                start: Position { row: 0, column: 0 },
                end: Position { row: rows, column: 0 },
                new_text,
            },
        )
    }
}

/// A suffix label is what is to be typed after the prefix: the prefix, a
/// colon and the label are the whole path, joined by colons.
pub proof fn lemma_label_completes_prefix(prefix: Seq<Seq<char>>, path: Seq<Seq<char>>)
    requires
        prefix.is_prefix_of(path),
        0 < prefix.len() < path.len(),
    ensures
        join_with(prefix, ':').push(':') + suffix_label(path, prefix.len()) == join_with(
            path,
            ':',
        ),
{
    let rest = path.skip(prefix.len() as int);
    assert(path =~= prefix + rest);
    crate::text::lemma_join_of_two(prefix, rest, ':');
}

/// For a stored account name, the typed segments, a colon and the label that
/// completes them are the name itself.
pub proof fn lemma_label_completes_name(name: Seq<char>, prefix: Seq<Seq<char>>)
    requires
        prefix.is_prefix_of(account_path(name)),
        0 < prefix.len() < account_path(name).len(),
    ensures
        join_with(prefix, ':').push(':') + suffix_label(account_path(name), prefix.len()) == name,
{
    lemma_label_completes_prefix(prefix, account_path(name));
    crate::text::lemma_join_of_split(name, ':');
}

/// A root that fits among the first roots is the answer among all.
proof fn lemma_root_found(typed: Seq<char>, found: nat, count: nat)
    requires
        found <= count <= account_roots().len(),
        root_among(typed, found) is Some,
    ensures
        root_among(typed, count) == root_among(typed, found),
    decreases count,
{
    if found < count {
        lemma_root_found(typed, found, (count - 1) as nat);
    }
}

} // verus!
