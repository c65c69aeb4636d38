//! The path of an included ledger. What is absolute, which directory holds a
//! file and how a name is joined to a directory is for the paths of the
//! platform to say; which of the paths is taken is decided here.

use vstd::prelude::*;

verus! {

/// `Path::is_absolute` of std: whether the platform takes `path` for a path
/// that starts at a root. The answer depends on the platform, so nothing is
/// claimed of it.
#[verifier::external_body]
fn is_absolute_path(path: &str) -> (absolute: bool) {
    std::path::Path::new(path).is_absolute()
}

/// `Path::parent` of std: the directory that holds `path`, as the platform
/// sees it; none where the path has no directory above it. Nothing is
/// claimed of the answer.
#[verifier::external_body]
fn parent_path(path: &str) -> (parent: Option<String>) {
    std::path::Path::new(path).parent().map(|directory| directory.to_string_lossy().into_owned())
}

/// `Path::join` of std: `target` within `directory`, as the platform joins
/// paths. Nothing is claimed of the answer.
#[verifier::external_body]
fn joined_path(directory: &str, target: &str) -> (joined: String) {
    std::path::Path::new(directory).join(target).to_string_lossy().into_owned()
}

/// The path of the ledger that a ledger includes as `target`: the target as
/// it is where it is absolute or the ledger's own path is not, else the
/// target beside the ledger, where the ledger has a directory.
pub open spec fn chosen_path(
    target: Seq<char>,
    target_absolute: bool,
    ledger_absolute: bool,
    beside: Option<Seq<char>>,
) -> Seq<char> {
    if target_absolute || !ledger_absolute {
        target
    } else {
        match beside {
            Some(path) => path,
            None => target,
        }
    }
}

/// Chooses the path of the ledger that a ledger includes as `target`, given
/// whether the target and the ledger's own path are absolute and what the
/// target is beside the ledger.
pub fn choose_path(
    target: &str,
    target_absolute: bool,
    ledger_absolute: bool,
    beside: Option<String>,
) -> (path: String)
    ensures
        path@ == chosen_path(
            target@,
            target_absolute,
            ledger_absolute,
            match beside {
                Some(path) => Some(path@),
                None => None,
            },
        ),
{
    if target_absolute || !ledger_absolute {
        target.to_owned()
    } else {
        match beside {
            Some(path) => path,
            None => target.to_owned(),
        }
    }
}

/// The path of the ledger that the ledger at `from` includes as `target`:
/// the choice among what the paths of the platform say of the two.
pub(crate) fn resolve(from: &str, target: &str) -> (path: String) {
    let target_absolute = is_absolute_path(target);
    let ledger_absolute = is_absolute_path(from);
    let beside = match parent_path(from) {
        Some(directory) => Some(joined_path(directory.as_str(), target)),
        None => None,
    };
    choose_path(target, target_absolute, ledger_absolute, beside)
}

} // verus!
