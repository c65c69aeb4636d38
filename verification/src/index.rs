//! The symbol index of a ledger: the accounts, currencies and payees it
//! names and the places where it defines its commodities, gathered from the
//! ledger and from the ledgers it includes.

use vstd::prelude::*;
use crate::collections::{LocationMap, Place, SourceLocation, TextSet};
use crate::error::Error;
use crate::grammar::{parse_document, parsed_document};
use crate::syntax::{
    children_of, children_of_all, in_field, of_kind, select_field, select_kind, texts_of, trees,
    FieldName, NodeKind, SyntaxNode, SyntaxTree,
};
use crate::text::{position_of, same_text, strip_quotes, unquoted, views};

verus! {

/// The symbol index of a ledger, and the ledger's text.
pub struct Data {
    pub commodities: LocationMap,
    pub accounts: TextSet,
    pub currencies: TextSet,
    pub payees: TextSet,
    pub text: String,
}

/// A symbol index as a mathematical value.
pub struct Index {
    pub commodities: Map<Seq<char>, Place>,
    pub accounts: Set<Seq<char>>,
    pub currencies: Set<Seq<char>>,
    pub payees: Set<Seq<char>>,
    pub text: Seq<char>,
}

impl View for Data {
    type V = Index;

    open spec fn view(&self) -> Index {
        Index {
            commodities: self.commodities@,
            accounts: self.accounts@,
            currencies: self.currencies@,
            payees: self.payees@,
            text: self.text@,
        }
    }
}

/// The index that holds nothing.
pub open spec fn empty_index() -> Index {
    Index {
        commodities: Map::empty(),
        accounts: Set::empty(),
        currencies: Set::empty(),
        payees: Set::empty(),
        text: Seq::empty(),
    }
}

/// `base` overlaid with `top`: the sets are united, a commodity that both
/// define has the place that `top` gives it, and the text is that of `top`.
pub open spec fn merged(base: Index, top: Index) -> Index {
    Index {
        commodities: base.commodities.union_prefer_right(top.commodities),
        accounts: base.accounts.union(top.accounts),
        currencies: base.currencies.union(top.currencies),
        payees: base.payees.union(top.payees),
        text: top.text,
    }
}

/// The transactions of a ledger.
pub open spec fn transactions(root: SyntaxTree) -> Seq<SyntaxTree> {
    of_kind(root.children, NodeKind::Transaction)
}

/// The postings of all transactions of a ledger, in order.
pub open spec fn postings(root: SyntaxTree) -> Seq<SyntaxTree> {
    of_kind(
        children_of(in_field(children_of(transactions(root)), FieldName::PostingList)),
        NodeKind::Posting,
    )
}

/// The account names that the postings of a ledger hold.
pub open spec fn account_names(root: SyntaxTree) -> Seq<Seq<char>> {
    texts_of(in_field(children_of(postings(root)), FieldName::Account))
}

/// The currency codes that the amounts of the postings of a ledger hold.
pub open spec fn currency_codes(root: SyntaxTree) -> Seq<Seq<char>> {
    texts_of(
        of_kind(
            children_of(in_field(children_of(postings(root)), FieldName::Amount)),
            NodeKind::Currency,
        ),
    )
}

/// The texts that hold at least one character, as a set.
pub open spec fn filled(texts: Seq<Seq<char>>) -> Set<Seq<char>> {
    texts.to_set().filter(|t: Seq<char>| t.len() > 0)
}

/// The payee of a transaction: the first of its quoted strings, without the
/// quotes, where it has a payee and a narration.
pub open spec fn payee_of(transaction: SyntaxTree) -> Option<Seq<char>> {
    match transaction.child_in_field(FieldName::TxnStrings) {
        None => None,
        Some(strings) => {
            let quoted = of_kind(strings.children, NodeKind::Text);
            if quoted.len() >= 2 {
                Some(strip_quotes(quoted[0].text))
            } else {
                None
            }
        },
    }
}

/// The payees of the first `count` nodes of a list of transactions.
pub open spec fn payees_among(nodes: Seq<SyntaxTree>, count: nat) -> Set<Seq<char>>
    decreases count,
{
    if count == 0 || count > nodes.len() {
        Set::empty()
    } else {
        let before = payees_among(nodes, (count - 1) as nat);
        match payee_of(nodes[count - 1]) {
            Some(payee) => before.insert(payee),
            None => before,
        }
    }
}

/// The payees of a ledger.
pub open spec fn payees(root: SyntaxTree) -> Set<Seq<char>> {
    payees_among(transactions(root), transactions(root).len())
}

/// The commodities that the first `count` of a list of commodity directives
/// define in the file `uri`, each with the span of its directive; a later
/// directive for a code replaces an earlier one. A directive without a
/// currency is an error.
pub open spec fn definitions(nodes: Seq<SyntaxTree>, uri: Seq<char>, count: nat) -> Result<
    Map<Seq<char>, Place>,
    Error,
>
    decreases count,
{
    if count == 0 || count > nodes.len() {
        Ok(Map::empty())
    } else {
        match definitions(nodes, uri, (count - 1) as nat) {
            Err(e) => Err(e),
            Ok(before) => {
                let node = nodes[count - 1];
                match node.child_in_field(FieldName::Currency) {
                    None => Err(Error::InvalidState),
                    Some(currency) => Ok(
                        before.insert(
                            currency.text,
                            Place { uri, start: node.start, end: node.end },
                        ),
                    ),
                }
            },
        }
    }
}

/// The commodities that a ledger defines.
pub open spec fn commodity_definitions(root: SyntaxTree, uri: Seq<char>) -> Result<
    Map<Seq<char>, Place>,
    Error,
> {
    let nodes = of_kind(root.children, NodeKind::Commodity);
    definitions(nodes, uri, nodes.len())
}

/// What a ledger with the tree `root`, the identifier `uri` and the text
/// `text` holds by itself, without the ledgers it includes.
pub open spec fn document_index(root: SyntaxTree, uri: Seq<char>, text: Seq<char>) -> Result<
    Index,
    Error,
> {
    match commodity_definitions(root, uri) {
        Err(e) => Err(e),
        Ok(commodities) => Ok(
            Index {
                commodities,
                accounts: account_names(root).to_set(),
                currencies: filled(currency_codes(root)),
                payees: payees(root),
                text,
            },
        ),
    }
}

/// An index, or the error, as a mathematical value.
pub open spec fn index_outcome(r: Result<Data, Error>) -> Result<Index, Error> {
    match r {
        Ok(data) => Ok(data@),
        Err(e) => Err(e),
    }
}

/// The texts of the given nodes, as a set.
fn texts_among(nodes: &Vec<&SyntaxNode>) -> (set: TextSet)
    ensures
        set@ == texts_of(trees(nodes@)).to_set(),
{
    let mut set = TextSet::new();
    let mut i: usize = 0;
    assert(texts_of(trees(nodes@)).take(0).to_set() =~= Set::<Seq<char>>::empty());
    while i < nodes.len()
        invariant
            i <= nodes.len(),
            set@ == texts_of(trees(nodes@)).take(i as int).to_set(),
        decreases nodes.len() - i,
    {
        let node = nodes[i];
        proof {
            node.lemma_view();
            let taken = texts_of(trees(nodes@)).take(i as int);
            assert(texts_of(trees(nodes@)).take(i as int + 1) =~= taken.push(node.text@));
            taken.lemma_push_to_set_commute(node.text@);
        }
        set = set.insert(node.text.clone());
        i += 1;
    }
    assert(texts_of(trees(nodes@)).take(nodes.len() as int) =~= texts_of(trees(nodes@)));
    set
}

/// The texts of the given nodes that hold at least one character, as a set.
fn filled_texts_among(nodes: &Vec<&SyntaxNode>) -> (set: TextSet)
    ensures
        set@ == filled(texts_of(trees(nodes@))),
{
    let mut set = TextSet::new();
    let mut i: usize = 0;
    assert(filled(texts_of(trees(nodes@)).take(0)) =~= Set::<Seq<char>>::empty());
    while i < nodes.len()
        invariant
            i <= nodes.len(),
            set@ == filled(texts_of(trees(nodes@)).take(i as int)),
        decreases nodes.len() - i,
    {
        let node = nodes[i];
        proof {
            node.lemma_view();
            let taken = texts_of(trees(nodes@)).take(i as int);
            assert(texts_of(trees(nodes@)).take(i as int + 1) =~= taken.push(node.text@));
            taken.lemma_push_to_set_commute(node.text@);
        }
        if node.text.as_str().as_bytes().len() > 0 {
            set = set.insert(node.text.clone());
        }
        assert(set@ =~= filled(texts_of(trees(nodes@)).take(i as int + 1)));
        i += 1;
    }
    assert(texts_of(trees(nodes@)).take(nodes.len() as int) =~= texts_of(trees(nodes@)));
    set
}

/// The payee of a transaction, if it has a payee and a narration.
fn payee(transaction: &SyntaxNode) -> (r: Option<String>)
    ensures
        match r {
            Some(name) => payee_of(transaction@) == Some(name@),
            None => payee_of(transaction@) is None,
        },
{
    match transaction.child_by_field(FieldName::TxnStrings) {
        None => None,
        Some(strings) => {
            let quoted = select_kind(&strings.child_nodes(), NodeKind::Text);
            if quoted.len() >= 2 {
                proof {
                    quoted[0].lemma_view();
                    assert(trees(quoted@)[0] == quoted[0]@);
                }
                Some(unquoted(quoted[0].text.as_str()))
            } else {
                None
            }
        },
    }
}

/// The payees of the given transactions.
fn payees_in(nodes: &Vec<&SyntaxNode>) -> (set: TextSet)
    ensures
        set@ == payees_among(trees(nodes@), nodes@.len()),
{
    let mut set = TextSet::new();
    let mut i: usize = 0;
    while i < nodes.len()
        invariant
            i <= nodes.len(),
            set@ == payees_among(trees(nodes@), i as nat),
        decreases nodes.len() - i,
    {
        assert(trees(nodes@)[i as int] == nodes[i as int]@);
        match payee(nodes[i]) {
            Some(name) => {
                set = set.insert(name);
            },
            None => {},
        }
        i += 1;
    }
    set
}

/// A map, or the error, as a mathematical value.
pub open spec fn map_outcome(r: Result<LocationMap, Error>) -> Result<
    Map<Seq<char>, Place>,
    Error,
> {
    match r {
        Ok(map) => Ok(map@),
        Err(e) => Err(e),
    }
}

/// Once a directive fails, every longer list of directives fails too.
proof fn lemma_definitions_fail(nodes: Seq<SyntaxTree>, uri: Seq<char>, failed: nat, count: nat)
    requires
        failed <= count <= nodes.len(),
        definitions(nodes, uri, failed) is Err,
    ensures
        definitions(nodes, uri, count) == definitions(nodes, uri, failed),
    decreases count,
{
    if failed < count {
        lemma_definitions_fail(nodes, uri, failed, (count - 1) as nat);
    }
}

/// The commodities that the given commodity directives define in `uri`.
fn defined_commodities(nodes: &Vec<&SyntaxNode>, uri: &str) -> (r: Result<LocationMap, Error>)
    ensures
        map_outcome(r) == definitions(trees(nodes@), uri@, nodes@.len()),
{
    let mut map = LocationMap::new();
    let mut i: usize = 0;
    while i < nodes.len()
        invariant
            i <= nodes.len(),
            definitions(trees(nodes@), uri@, i as nat) == Ok::<Map<Seq<char>, Place>, Error>(map@),
        decreases nodes.len() - i,
    {
        let node = nodes[i];
        proof {
            assert(trees(nodes@)[i as int] == node@);
            node.lemma_view();
        }
        match node.child_by_field(FieldName::Currency) {
            None => {
                proof {
                    lemma_definitions_fail(trees(nodes@), uri@, (i + 1) as nat, nodes@.len());
                }
                return Err(Error::InvalidState);
            },
            Some(currency) => {
                proof {
                    currency.lemma_view();
                }
                let place = SourceLocation {
                    uri: uri.to_owned(),
                    start: node.start,
                    end: node.end,
                };
                map = map.insert(currency.text.clone(), place);
            },
        }
        i += 1;
    }
    Ok(map)
}

/// Indexes one ledger by itself: the commodities it defines, and the
/// accounts, currencies and payees of its transactions.
pub fn index_document(root: &SyntaxNode, uri: &str, text: &str) -> (r: Result<Data, Error>)
    ensures
        index_outcome(r) == document_index(root@, uri@, text@),
{
    let top = root.child_nodes();
    let commodities = match defined_commodities(&select_kind(&top, NodeKind::Commodity), uri) {
        Ok(commodities) => commodities,
        Err(e) => {
            return Err(e);
        },
    };
    let found = select_kind(&top, NodeKind::Transaction);
    let lists = select_field(&children_of_all(&found), FieldName::PostingList);
    let lines = children_of_all(&select_kind(&children_of_all(&lists), NodeKind::Posting));
    let accounts = texts_among(&select_field(&lines, FieldName::Account));
    let amounts = select_field(&lines, FieldName::Amount);
    let currencies = filled_texts_among(&select_kind(&children_of_all(&amounts), NodeKind::Currency));
    let payees = payees_in(&found);
    Ok(Data { commodities, accounts, currencies, payees, text: text.to_owned() })
}

/// The file that an include directive names: its first quoted string,
/// without the quotes.
pub open spec fn include_target(directive: SyntaxTree) -> Option<Seq<char>> {
    let quoted = of_kind(directive.children, NodeKind::Text);
    if quoted.len() >= 1 {
        Some(strip_quotes(quoted[0].text))
    } else {
        None
    }
}

/// The files that the first `count` of a list of include directives name, in
/// order; a directive that names none is passed over.
pub open spec fn targets_among(nodes: Seq<SyntaxTree>, count: nat) -> Seq<Seq<char>>
    decreases count,
{
    if count == 0 || count > nodes.len() {
        Seq::empty()
    } else {
        let before = targets_among(nodes, (count - 1) as nat);
        match include_target(nodes[count - 1]) {
            Some(target) => before.push(target),
            None => before,
        }
    }
}

/// The files that a ledger includes, as it names them.
pub open spec fn include_targets(root: SyntaxTree) -> Seq<Seq<char>> {
    let nodes = of_kind(root.children, NodeKind::Include);
    targets_among(nodes, nodes.len())
}

/// A ledger file that could be read: its path, its text and the paths of the
/// ledgers that it includes, one for each of its include directives that
/// names a file, in their order.
pub struct SourceFile {
    pub path: String,
    pub text: String,
    pub includes: Vec<String>,
}

/// A ledger file as a mathematical value.
pub struct FileText {
    pub path: Seq<char>,
    pub text: Seq<char>,
    pub includes: Seq<Seq<char>>,
}

impl View for SourceFile {
    type V = FileText;

    open spec fn view(&self) -> FileText {
        FileText { path: self.path@, text: self.text@, includes: views(self.includes@) }
    }
}

/// The files of a list as mathematical values.
pub open spec fn file_texts(files: Seq<SourceFile>) -> Seq<FileText> {
    files.map_values(|f: SourceFile| f@)
}

/// The file at `path`; where several files have this path, the last of them
/// decides.
pub open spec fn file_at(files: Seq<FileText>, path: Seq<char>) -> Option<FileText>
    decreases files.len(),
{
    if files.len() == 0 {
        None
    } else if files.last().path == path {
        Some(files.last())
    } else {
        file_at(files.drop_last(), path)
    }
}

/// The text of the file at `path`, if it is among the files.
pub open spec fn text_at(files: Seq<FileText>, path: Seq<char>) -> Option<Seq<char>> {
    match file_at(files, path) {
        Some(file) => Some(file.text),
        None => None,
    }
}

/// The paths of the ledgers that a file includes: those that the file lists,
/// as far as the text of the file has an include directive for each.
pub open spec fn included_paths(file: FileText, root: SyntaxTree) -> Seq<Seq<char>> {
    if file.includes.len() <= include_targets(root).len() {
        file.includes
    } else {
        file.includes.take(include_targets(root).len() as int)
    }
}

/// The index of the ledger at `path` with all that it includes, where
/// `ancestors` are the ledgers that are being read already. A ledger that is
/// not among the files, or is among its own ancestors, cannot be read
/// (`IoError`); one whose text has no syntax tree, or whose tree lacks a part
/// that indexing needs, fails with the error of its tree or with
/// `InvalidState`.
pub open spec fn index_of(files: Seq<FileText>, path: Seq<char>, ancestors: Seq<Seq<char>>) -> Result<
    Index,
    Error,
>
    decreases files.len() - ancestors.len(), 0nat,
{
    if ancestors.len() >= files.len() || ancestors.contains(path) {
        Err(Error::IoError)
    } else {
        match file_at(files, path) {
            None => Err(Error::IoError),
            Some(file) => match parsed_document(file.text) {
                Err(e) => Err(e),
                Ok(root) => match document_index(root, path, file.text) {
                    Err(e) => Err(e),
                    Ok(own) => Ok(
                        merged(
                            included(
                                files,
                                ancestors.push(path),
                                included_paths(file, root),
                                included_paths(file, root).len(),
                            ),
                            own,
                        ),
                    ),
                },
            },
        }
    }
}

/// The indexes of the ledgers at the first `count` of `paths`, overlaid in
/// order. A ledger that cannot be indexed is passed over.
pub open spec fn included(
    files: Seq<FileText>,
    ancestors: Seq<Seq<char>>,
    paths: Seq<Seq<char>>,
    count: nat,
) -> Index
    decreases files.len() - ancestors.len(), 1 + count,
{
    if count == 0 || count > paths.len() {
        empty_index()
    } else {
        let before = included(files, ancestors, paths, (count - 1) as nat);
        match index_of(files, paths[count - 1], ancestors) {
            Ok(index) => merged(before, index),
            Err(_) => before,
        }
    }
}

/// The files that a ledger includes, as it names them.
pub fn included_files(root: &SyntaxNode) -> (targets: Vec<String>)
    ensures
        views(targets@) == include_targets(root@),
{
    let nodes = select_kind(&root.child_nodes(), NodeKind::Include);
    let mut targets: Vec<String> = Vec::new();
    let mut i: usize = 0;
    assert(views(targets@) =~= Seq::<Seq<char>>::empty());
    while i < nodes.len()
        invariant
            i <= nodes.len(),
            views(targets@) == targets_among(trees(nodes@), i as nat),
        decreases nodes.len() - i,
    {
        assert(trees(nodes@)[i as int] == nodes[i as int]@);
        let quoted = select_kind(&nodes[i].child_nodes(), NodeKind::Text);
        if quoted.len() >= 1 {
            proof {
                quoted[0].lemma_view();
                assert(trees(quoted@)[0] == quoted[0]@);
            }
            let ghost before = views(targets@);
            let target = unquoted(quoted[0].text.as_str());
            let ghost added = target@;
            targets.push(target);
            assert(views(targets@) =~= before.push(added));
        }
        i += 1;
    }
    targets
}

/// The file at `path`, if it is among the files.
pub fn find_file<'a>(files: &'a Vec<SourceFile>, path: &str) -> (found: Option<&'a SourceFile>)
    ensures
        match found {
            Some(file) => file_at(file_texts(files@), path@) == Some(file@),
            None => file_at(file_texts(files@), path@) is None,
        },
{
    let mut i: usize = files.len();
    assert(file_texts(files@).take(i as int) =~= file_texts(files@));
    while i > 0
        invariant
            i <= files.len(),
            file_at(file_texts(files@), path@) == file_at(file_texts(files@).take(i as int), path@),
        decreases i,
    {
        let ghost taken = file_texts(files@).take(i as int);
        assert(taken.last() == files@[i as int - 1]@);
        assert(taken.drop_last() =~= file_texts(files@).take(i as int - 1));
        if same_text(files[i - 1].path.as_str(), path) {
            return Some(&files[i - 1]);
        }
        i -= 1;
    }
    None
}

impl Default for Data {
    /// The index that holds nothing.
    fn default() -> (data: Data)
        ensures
            data@ == empty_index(),
    {
        Data {
            commodities: LocationMap::new(),
            accounts: TextSet::new(),
            currencies: TextSet::new(),
            payees: TextSet::new(),
            text: String::new(),
        }
    }
}

impl Data {

    /// This index overlaid with `top`.
    pub fn overlaid(self, top: &Data) -> (data: Data)
        ensures
            data@ == merged(self@, top@),
    {
        Data {
            commodities: self.commodities.overlaid(&top.commodities),
            accounts: self.accounts.union(&top.accounts),
            currencies: self.currencies.union(&top.currencies),
            payees: self.payees.union(&top.payees),
            text: top.text.clone(),
        }
    }

    /// Indexes the ledger at `path` and, through it, every ledger that it
    /// includes and that is among `files`. It fails where the ledger itself is
    /// not among the files (`IoError`), where its text has no syntax tree
    /// (`LanguageError`, `Utf8Error`, `InvalidState`) and where a commodity
    /// directive lacks its currency (`InvalidState`); a ledger that it
    /// includes and that fails is passed over.
    pub fn new(path: &str, files: &Vec<SourceFile>) -> (r: Result<Data, Error>)
        ensures
            index_outcome(r) == index_of(file_texts(files@), path@, Seq::<Seq<char>>::empty()),
    {
        let mut ancestors: Vec<String> = Vec::new();
        assert(views(ancestors@) =~= Seq::<Seq<char>>::empty());
        Data::read(path, files, &mut ancestors)
    }

    /// Indexes the ledger at `path` below the ledgers that are being read
    /// already.
    fn read(path: &str, files: &Vec<SourceFile>, ancestors: &mut Vec<String>) -> (r: Result<
        Data,
        Error,
    >)
        ensures
            views(final(ancestors)@) == views(old(ancestors)@),
            index_outcome(r) == index_of(file_texts(files@), path@, views(old(ancestors)@)),
        decreases files@.len() - old(ancestors)@.len(),
    {
        if ancestors.len() >= files.len() || position_of(ancestors, path).is_some() {
            return Err(Error::IoError);
        }
        let file = match find_file(files, path) {
            Some(file) => file,
            None => {
                return Err(Error::IoError);
            },
        };
        let root = match parse_document(file.text.as_str()) {
            Ok(root) => root,
            Err(e) => {
                return Err(e);
            },
        };
        let own = match index_document(&root, path, file.text.as_str()) {
            Ok(own) => own,
            Err(e) => {
                return Err(e);
            },
        };
        let targets = included_files(&root);
        let named = targets.len();
        let count = if file.includes.len() <= named {
            file.includes.len()
        } else {
            named
        };
        let ghost paths = included_paths(file@, root@);
        proof {
            assert(views(file.includes@).len() == file.includes@.len());
            assert(views(targets@).len() == named);
            assert(paths.len() == count);
            assert forall|k: int| 0 <= k < count implies paths[k] == (
            #[trigger] file.includes@[k])@ by {}
        }
        let ghost above = views(ancestors@);
        ancestors.push(path.to_owned());
        assert(views(ancestors@) =~= above.push(path@));
        let mut data = Data::default();
        let mut i: usize = 0;
        while i < count
            invariant
                i <= count <= file.includes@.len(),
                paths.len() == count,
                forall|k: int| 0 <= k < count ==> paths[k] == (#[trigger] file.includes@[k])@,
                views(ancestors@) == above.push(path@),
                above.len() == old(ancestors)@.len(),
                above.len() < files@.len(),
                data@ == included(file_texts(files@), above.push(path@), paths, i as nat),
            decreases count - i,
        {
            assert(views(ancestors@).len() == ancestors@.len());
            match Data::read(file.includes[i].as_str(), files, ancestors) {
                Ok(index) => {
                    data = data.overlaid(&index);
                },
                Err(_) => {},
            }
            i += 1;
        }
        let ghost pushed = views(ancestors@);
        ancestors.pop();
        assert(views(ancestors@) =~= pushed.drop_last());
        assert(views(ancestors@) =~= above);
        Ok(data.overlaid(&own))
    }
}

/// A ledger that can be indexed by itself can be indexed with what it
/// includes, whatever becomes of the ledgers that it includes.
pub proof fn lemma_includes_never_fail(
    files: Seq<FileText>,
    path: Seq<char>,
    ancestors: Seq<Seq<char>>,
)
    requires
        ancestors.len() < files.len(),
        !ancestors.contains(path),
        text_at(files, path) is Some,
        parsed_document(text_at(files, path)->0) is Ok,
        document_index(
            parsed_document(text_at(files, path)->0)->Ok_0,
            path,
            text_at(files, path)->0,
        ) is Ok,
    ensures
        index_of(files, path, ancestors) is Ok,
        index_of(files, path, ancestors)->Ok_0.text == text_at(files, path)->0,
{
}

/// The accounts, currencies and payees of two indexes are the same in
/// whichever order the two are overlaid.
pub proof fn lemma_merged_sets_commute(a: Index, b: Index)
    ensures
        merged(a, b).accounts == merged(b, a).accounts,
        merged(a, b).currencies == merged(b, a).currencies,
        merged(a, b).payees == merged(b, a).payees,
{
    assert(a.accounts.union(b.accounts) =~= b.accounts.union(a.accounts));
    assert(a.currencies.union(b.currencies) =~= b.currencies.union(a.currencies));
    assert(a.payees.union(b.payees) =~= b.payees.union(a.payees));
}

/// A commodity that a ledger defines itself has the place that the ledger
/// gives it, whatever the ledgers that it includes say.
pub proof fn lemma_own_definition_wins(
    files: Seq<FileText>,
    path: Seq<char>,
    ancestors: Seq<Seq<char>>,
    code: Seq<char>,
)
    requires
        index_of(files, path, ancestors) is Ok,
    ensures
        text_at(files, path) is Some,
        parsed_document(text_at(files, path)->0) is Ok,
        commodity_definitions(parsed_document(text_at(files, path)->0)->Ok_0, path) is Ok,
        commodity_definitions(
            parsed_document(text_at(files, path)->0)->Ok_0,
            path,
        )->Ok_0.contains_key(code) ==> index_of(files, path, ancestors)->Ok_0.commodities.contains_key(
            code,
        ) && index_of(files, path, ancestors)->Ok_0.commodities[code] == commodity_definitions(
            parsed_document(text_at(files, path)->0)->Ok_0,
            path,
        )->Ok_0[code],
{
}

/// Every commodity that a ledger defines has its place in the ledger's own
/// file.
pub proof fn lemma_definitions_in_file(nodes: Seq<SyntaxTree>, uri: Seq<char>, count: nat, code: Seq<char>)
    requires
        count <= nodes.len(),
        definitions(nodes, uri, count) is Ok,
        definitions(nodes, uri, count)->Ok_0.contains_key(code),
    ensures
        definitions(nodes, uri, count)->Ok_0[code].uri == uri,
    decreases count,
{
    if count > 0 {
        let before = definitions(nodes, uri, (count - 1) as nat)->Ok_0;
        let node = nodes[count - 1];
        let currency = node.child_in_field(FieldName::Currency)->0;
        if currency.text != code {
            lemma_definitions_in_file(nodes, uri, (count - 1) as nat, code);
        }
    }
}

} // verus!
