//! Gathering the files of a ledger: which file to read next, and what a file
//! that was read asks to be read in turn. Reading itself is left to the
//! caller.

use vstd::prelude::*;
use crate::grammar::{parse_document, parsed_document};
use crate::index::{
    file_at, file_texts, find_file, include_targets, included_files, FileText, SourceFile,
};
use crate::paths::resolve;
use crate::text::{position_of, views};

verus! {

/// The files read so far and the paths that are still to be read; the last
/// of these is read next.
pub struct Loader {
    pub files: Vec<SourceFile>,
    pub pending: Vec<String>,
}

/// A loader as a mathematical value.
pub struct Gathered {
    pub files: Seq<FileText>,
    pub pending: Seq<Seq<char>>,
}

impl View for Loader {
    type V = Gathered;

    open spec fn view(&self) -> Gathered {
        Gathered { files: file_texts(self.files@), pending: views(self.pending@) }
    }
}

/// The files that a ledger text includes, as it names them; none where the
/// text has no syntax tree.
pub open spec fn included_names(text: Seq<char>) -> Seq<Seq<char>> {
    match parsed_document(text) {
        Ok(root) => include_targets(root),
        Err(_) => Seq::empty(),
    }
}

/// Whether `file` is the ledger at `path` with the text `text`: it lists one
/// path for each file that the text includes.
pub open spec fn is_read(file: FileText, path: Seq<char>, text: Seq<char>) -> bool {
    &&& file.path == path
    &&& file.text == text
    &&& file.includes.len() == included_names(text).len()
}

/// The pending paths after the first `count` of `targets` were considered: a
/// target joins them unless it was read or is pending already.
pub open spec fn queued(
    files: Seq<FileText>,
    pending: Seq<Seq<char>>,
    targets: Seq<Seq<char>>,
    count: nat,
) -> Seq<Seq<char>>
    decreases count,
{
    if count == 0 || count > targets.len() {
        pending
    } else {
        let before = queued(files, pending, targets, (count - 1) as nat);
        let target = targets[count - 1];
        if file_at(files, target) is Some || before.contains(target) {
            before
        } else {
            before.push(target)
        }
    }
}

impl Gathered {
    /// The path to read next, if any is left.
    pub open spec fn next(self) -> Option<Seq<char>> {
        if self.pending.len() > 0 {
            Some(self.pending.last())
        } else {
            None
        }
    }

    /// The state after the next path could not be read: it is not pending
    /// any more.
    pub open spec fn dropped(self) -> Gathered {
        if self.pending.len() == 0 {
            self
        } else {
            Gathered { files: self.files, pending: self.pending.drop_last() }
        }
    }

    /// The state after the next path was read as `file`: the path is not
    /// pending any more, the file joins the files, and the paths that it
    /// includes are queued.
    pub open spec fn took(self, file: FileText) -> Gathered {
        let files = self.files.push(file);
        Gathered {
            files,
            pending: queued(files, self.pending.drop_last(), file.includes, file.includes.len()),
        }
    }

    /// No path is pending twice, and no pending path was read already.
    pub open spec fn settled(self) -> bool {
        &&& self.pending.no_duplicates()
        &&& forall|i: int|
            0 <= i < self.pending.len() ==> file_at(self.files, #[trigger] self.pending[i]) is None
    }
}

impl SourceFile {
    /// The ledger at `path` with the text `text`, and with the paths of the
    /// ledgers that the text includes: for each file that the text names, in
    /// order, the path that the paths of the platform give it beside the
    /// ledger.
    pub fn read(path: String, text: String) -> (file: SourceFile)
        ensures
            is_read(file@, path@, text@),
    {
        let mut includes: Vec<String> = Vec::new();
        match parse_document(text.as_str()) {
            Err(_) => {},
            Ok(root) => {
                let targets = included_files(&root);
                let mut i: usize = 0;
                while i < targets.len()
                    invariant
                        i <= targets.len(),
                        includes@.len() == i,
                    decreases targets.len() - i,
                {
                    includes.push(resolve(path.as_str(), targets[i].as_str()));
                    i += 1;
                }
                assert(views(targets@).len() == targets@.len());
            },
        }
        assert(views(includes@).len() == includes@.len());
        SourceFile { path, text, includes }
    }
}

impl Loader {
    /// The loader that has the ledger at `root` to read.
    pub fn new(root: &str) -> (loader: Loader)
        ensures
            loader@.files == Seq::<FileText>::empty(),
            loader@.pending == seq![root@],
            loader@.settled(),
    {
        let mut pending: Vec<String> = Vec::new();
        pending.push(root.to_owned());
        let loader = Loader { files: Vec::new(), pending };
        assert(loader@.files =~= Seq::<FileText>::empty());
        assert(loader@.pending =~= seq![root@]);
        loader
    }

    /// The path to read next, if any is left.
    pub fn next(&self) -> (path: Option<&String>)
        ensures
            match path {
                Some(path) => self@.next() == Some(path@),
                None => self@.next() is None,
            },
    {
        assert(views(self.pending@).len() == self.pending@.len());
        if self.pending.len() > 0 {
            Some(&self.pending[self.pending.len() - 1])
        } else {
            None
        }
    }

    /// Takes what reading the next path gave: its text, or nothing where the
    /// file could not be read. With a text the file that was read is the
    /// last of the files.
    pub fn supply(self, text: Option<String>) -> (loader: Loader)
        ensures
            match text {
                None => loader@ == self@.dropped(),
                Some(text) => if self@.pending.len() == 0 {
                    loader@ == self@
                } else {
                    &&& loader@.files.len() == self@.files.len() + 1
                    &&& is_read(loader@.files.last(), self@.pending.last(), text@)
                    &&& loader@ == self@.took(loader@.files.last())
                },
            },
    {
        let mut files = self.files;
        let mut pending = self.pending;
        assert(views(pending@).len() == pending@.len());
        if pending.len() == 0 {
            return Loader { files, pending };
        }
        let ghost all = views(pending@);
        let ghost read = file_texts(files@);
        let path = match pending.pop() {
            Some(path) => path,
            None => {
                return Loader { files, pending };
            },
        };
        assert(views(pending@) =~= all.drop_last());
        assert(path@ == all.last());
        let text = match text {
            Some(text) => text,
            None => {
                return Loader { files, pending };
            },
        };
        let file = SourceFile::read(path, text);
        let ghost added = file@;
        let targets = file.includes.clone();
        assert(views(targets@) == added.includes) by {
            assert(targets@ == file.includes@);
        }
        files.push(file);
        assert(file_texts(files@) =~= read.push(added));
        let mut i: usize = 0;
        while i < targets.len()
            invariant
                i <= targets.len(),
                views(pending@) == queued(
                    file_texts(files@),
                    all.drop_last(),
                    views(targets@),
                    i as nat,
                ),
            decreases targets.len() - i,
        {
            let ghost before = views(pending@);
            assert(views(targets@)[i as int] == targets@[i as int]@);
            if find_file(&files, targets[i].as_str()).is_none() && position_of(
                &pending,
                targets[i].as_str(),
            ).is_none() {
                pending.push(targets[i].clone());
                assert(views(pending@) =~= before.push(targets@[i as int]@));
            }
            i += 1;
        }
        assert(views(targets@).len() == targets@.len());
        Loader { files, pending }
    }
}

/// Queueing keeps the pending paths distinct and unread.
proof fn lemma_queued_settled(
    files: Seq<FileText>,
    pending: Seq<Seq<char>>,
    targets: Seq<Seq<char>>,
    count: nat,
)
    requires
        count <= targets.len(),
        (Gathered { files, pending }).settled(),
    ensures
        (Gathered { files, pending: queued(files, pending, targets, count) }).settled(),
    decreases count,
{
    if count > 0 {
        lemma_queued_settled(files, pending, targets, (count - 1) as nat);
        let before = queued(files, pending, targets, (count - 1) as nat);
        let target = targets[count - 1];
        if !(file_at(files, target) is Some || before.contains(target)) {
            let after = before.push(target);
            assert forall|i: int, j: int|
                0 <= i < after.len() && 0 <= j < after.len() && i != j implies after[i]
                != after[j] by {
                if i < before.len() && j < before.len() {
                } else if i < before.len() {
                    assert(before.contains(before[i]));
                } else {
                    assert(before.contains(before[j]));
                }
            }
            assert forall|i: int| 0 <= i < after.len() implies file_at(
                files,
                #[trigger] after[i],
            ) is None by {
                if i < before.len() {
                    assert(after[i] == before[i]);
                }
            }
        }
    }
}

/// A file more changes nothing for the paths that are not its own.
proof fn lemma_file_at_other(files: Seq<FileText>, file: FileText, path: Seq<char>)
    requires
        file.path != path,
    ensures
        file_at(files.push(file), path) == file_at(files, path),
{
    assert(files.push(file).drop_last() =~= files);
}

/// As long as no path is pending twice and none that was read, it stays so
/// when the next path cannot be read.
pub proof fn lemma_dropped_settled(state: Gathered)
    requires
        state.settled(),
    ensures
        state.dropped().settled(),
{
    if state.pending.len() > 0 {
        let rest = state.pending.drop_last();
        assert forall|i: int| 0 <= i < rest.len() implies file_at(
            state.files,
            #[trigger] rest[i],
        ) is None by {
            assert(rest[i] == state.pending[i]);
        }
    }
}

/// As long as no path is pending twice and none that was read, it stays so
/// when the next path is read: every file is read at most once.
pub proof fn lemma_took_settled(state: Gathered, file: FileText)
    requires
        state.settled(),
        state.pending.len() > 0,
        file.path == state.pending.last(),
    ensures
        state.took(file).settled(),
{
    let rest = state.pending.drop_last();
    let files = state.files.push(file);
    assert forall|i: int| 0 <= i < rest.len() implies file_at(files, #[trigger] rest[i]) is None by {
        assert(rest[i] == state.pending[i]);
        assert(state.pending[i] != state.pending[state.pending.len() - 1]);
        lemma_file_at_other(state.files, file, rest[i]);
    }
    lemma_queued_settled(files, rest, file.includes, file.includes.len());
}

} // verus!
