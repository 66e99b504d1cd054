use vstd::prelude::*;
use crate::session::{EditorSession, IoErrorKind};
use crate::tree::{all_closed, flat, listed, listing_ok, node_at, toggled, FileTree, ListedEntry};

verus! {

/// Why a newly picked folder did not replace the current tree.
#[derive(Clone, Copy, Debug, PartialEq, Eq, Structural)]
pub enum LoadError {
    /// Listing some part of the folder failed; the whole load is abandoned.
    Io(IoErrorKind),
    /// The listing handed in describes no tree.
    MalformedListing,
}

/// The editor's whole state: the folder being browsed, its tree, and the
/// editing session. The view layer hands it each user event.
pub struct Workspace {
    pub current_folder: Option<String>,
    pub tree: FileTree,
    pub session: EditorSession,
}

impl Workspace {
    pub open spec fn wf(&self) -> bool {
        self.tree.wf()
    }

    /// No folder picked and no file open.
    pub fn new() -> (r: Workspace)
        ensures
            r.wf(),
            r.current_folder is None,
            r.tree.entries@.len() == 0,
            r.session@ is None,
    {
        Workspace { current_folder: None, tree: FileTree::new(), session: EditorSession::new() }
    }

    /// Takes in the recursive listing of a folder that the user picked. A
    /// complete, well-formed listing replaces the tree entirely, all folders
    /// collapsed; on any failure the tree stays as it was. Only the tree is
    /// touched: the caller records the folder once the load succeeded.
    pub fn load_folder(&mut self, listing: Result<Vec<ListedEntry>, IoErrorKind>) -> (r: Result<
        (),
        LoadError,
    >)
        requires
            old(self).wf(),
        ensures
            final(self).wf(),
            final(self).session == old(self).session,
            final(self).current_folder == old(self).current_folder,
            match listing {
                Err(e) => {
                    &&& r == Err::<(), LoadError>(LoadError::Io(e))
                    &&& final(self).tree == old(self).tree
                },
                Ok(l) => if listing_ok(listed(l@)) {
                    &&& r is Ok
                    &&& all_closed(final(self).tree.entries@)
                    &&& flat(final(self).tree.entries@, 0) == listed(l@)
                } else {
                    &&& r == Err::<(), LoadError>(LoadError::MalformedListing)
                    &&& final(self).tree == old(self).tree
                },
            },
    {
        match listing {
            Err(e) => Err(LoadError::Io(e)),
            Ok(l) => match FileTree::build(&l) {
                Some(t) => {
                    self.tree = t;
                    Ok(())
                },
                None => Err(LoadError::MalformedListing),
            },
        }
    }

    /// A click on the entry at `addr`: a folder opens or closes; a file is
    /// named in the result, for the caller to read and hand to the session.
    pub fn select(&mut self, addr: &Vec<usize>) -> (r: Option<String>)
        requires
            old(self).wf(),
        ensures
            final(self).wf(),
            final(self).session == old(self).session,
            final(self).current_folder == old(self).current_folder,
            match node_at(old(self).tree.entries@, addr@) {
                Some(n) => if n.is_folder {
                    &&& r is None
                    &&& toggled(old(self).tree.entries@, final(self).tree.entries@, addr@)
                } else {
                    &&& r matches Some(p) && p@ == n.path@
                    &&& final(self).tree == old(self).tree
                },
                None => r is None && final(self).tree == old(self).tree,
            },
    {
        let target = match self.tree.entry_at(addr) {
            Some(e) => {
                if e.is_folder {
                    None
                } else {
                    Some(e.path.clone())
                }
            },
            None => {
                return None;
            },
        };
        if target.is_none() {
            self.tree.toggle(addr);
        }
        target
    }
}

} // verus!
