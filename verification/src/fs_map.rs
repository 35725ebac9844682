//! The choice a directory walker makes at each entry: build output folders
//! named `target` are deleted, tooling and source folders are passed over,
//! and other folders are walked into. Deleting or passing over a folder ends
//! the walk of the folder that holds it.
use vstd::prelude::*;
use crate::text::texts;

verus! {

/// The names of the folders that are not walked into.
pub open spec fn skipped_names() -> Seq<Seq<char>> {
    seq![".git"@, "src"@, ".vscode"@, ".vs"@, "node_modules"@, "errors"@, "queries_ran"@, "logs"@]
}

/// The names of the folders that are not walked into, as [`skipped_names`] lists them.
pub fn skips() -> (names: Vec<String>)
    ensures
        texts(names@) == skipped_names(),
{
    let names = vec![
        String::from_str(".git"),
        String::from_str("src"),
        String::from_str(".vscode"),
        String::from_str(".vs"),
        String::from_str("node_modules"),
        String::from_str("errors"),
        String::from_str("queries_ran"),
        String::from_str("logs"),
    ];
    assert(texts(names@) =~= skipped_names());
    names
}

/// What the walker does with an entry.
#[derive(Clone, Copy, PartialEq, Eq, Structural, Debug)]
pub enum EntryAction {
    /// Not a folder: go on to the next entry.
    Ignore,
    /// A `target` folder: delete it and stop walking this folder.
    DeleteAndStop,
    /// A folder that is passed over: stop walking this folder.
    Stop,
    /// Walk into the folder, then go on.
    Descend,
}

/// The action for an entry named `name`, a folder if `is_dir`.
pub open spec fn action_for(name: Seq<char>, is_dir: bool) -> EntryAction {
    if !is_dir {
        EntryAction::Ignore
    } else if name == "target"@ {
        EntryAction::DeleteAndStop
    } else if skipped_names().contains(name) {
        EntryAction::Stop
    } else {
        EntryAction::Descend
    }
}

/// The action for the entry named `name` (its last path component), a folder
/// if `is_dir`.
pub fn entry_action(name: &str, is_dir: bool) -> (action: EntryAction)
    ensures
        action == action_for(name@, is_dir),
{
    if !is_dir {
        return EntryAction::Ignore;
    }
    let entry = name.to_owned();
    let target = String::from_str("target");
    if entry == target {
        return EntryAction::DeleteAndStop;
    }
    let names = skips();
    let mut i: usize = 0;
    while i < names.len()
        invariant
            i <= names@.len(),
            entry@ == name@,
            name@ != "target"@,
            is_dir,
            texts(names@) == skipped_names(),
            forall|k: int| 0 <= k < i ==> skipped_names()[k] != name@,
        decreases names@.len() - i,
    {
        if names[i] == entry {
            assert(skipped_names()[i as int] == name@);
            return EntryAction::Stop;
        }
        i += 1;
    }
    proof {
        if skipped_names().contains(name@) {
            let k = choose|k: int| 0 <= k < skipped_names().len() && skipped_names()[k] == name@;
            assert(skipped_names()[k] != name@);
        }
    }
    EntryAction::Descend
}

/// A folder is passed over exactly when it is named `.git`, `src`, `.vscode`,
/// `.vs`, `node_modules`, `errors`, `queries_ran` or `logs`; any other folder
/// but `target` is walked into.
pub proof fn lemma_passed_over_folders(name: Seq<char>)
    ensures
        (action_for(name, true) == EntryAction::Stop) <==> (name == ".git"@ || name == "src"@ || name == ".vscode"@
            || name == ".vs"@ || name == "node_modules"@ || name == "errors"@ || name == "queries_ran"@ || name
            == "logs"@),
        name != "target"@ ==> ((action_for(name, true) == EntryAction::Descend) <==> !(name == ".git"@ || name == "src"@
            || name == ".vscode"@ || name == ".vs"@ || name == "node_modules"@ || name == "errors"@ || name
            == "queries_ran"@ || name == "logs"@)),
{
    reveal_strlit("target");
    reveal_strlit(".git");
    reveal_strlit("src");
    reveal_strlit(".vscode");
    reveal_strlit(".vs");
    reveal_strlit("node_modules");
    reveal_strlit("errors");
    reveal_strlit("queries_ran");
    reveal_strlit("logs");
    let l = skipped_names();
    assert(l[0] == ".git"@ && l[1] == "src"@ && l[2] == ".vscode"@ && l[3] == ".vs"@);
    assert(l[4] == "node_modules"@ && l[5] == "errors"@ && l[6] == "queries_ran"@ && l[7] == "logs"@);
    assert("errors"@[0] != "target"@[0]);
    if l.contains(name) {
        let k = choose|k: int| 0 <= k < l.len() && l[k] == name;
        assert(name != "target"@) by {
            if name == "target"@ {
                assert(l[k].len() == 6);
                assert(k == 5);
            }
        }
    }
    if name == ".git"@ || name == "src"@ || name == ".vscode"@ || name == ".vs"@ || name == "node_modules"@
        || name == "errors"@ || name == "queries_ran"@ || name == "logs"@ {
        assert(name != "target"@);
        if name == ".git"@ { assert(l[0] == name); }
        else if name == "src"@ { assert(l[1] == name); }
        else if name == ".vscode"@ { assert(l[2] == name); }
        else if name == ".vs"@ { assert(l[3] == name); }
        else if name == "node_modules"@ { assert(l[4] == name); }
        else if name == "errors"@ { assert(l[5] == name); }
        else if name == "queries_ran"@ { assert(l[6] == name); }
        else { assert(l[7] == name); }
    }
}

} // verus!
