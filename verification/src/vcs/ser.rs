//! Flat, id-based serial forms of the version-control types.
//!
//! Branches and commits already reference each other by integer id only, so
//! these records mirror the live state without following any reference
//! graph. A host application puts its serializer derives on copies of these
//! records and re-resolves the ids against the commit table on load.

use vstd::prelude::*;

use crate::game_data::GameData;
use crate::vcs::{opt_int, Branch, Commit, Vcs};

verus! {

/// The serial form of a branch: its name and the id it points to.
#[derive(Debug)]
pub struct BranchSer {
    pub commit_id: Option<isize>,
    pub name: String,
}

impl BranchSer {
    /// The serial record of a branch.
    pub fn from_branch(value: Branch) -> (r: Self)
        ensures
            r.commit_id == value.commit_id,
            r.name@ == value.name@,
    {
        BranchSer { commit_id: value.commit_id, name: value.name }
    }
}

/// The serial form of a commit: all references are plain ids.
#[derive(Debug)]
pub struct CommitSer {
    pub id: isize,
    pub parent_commit_id: Option<isize>,
    pub message: String,
    pub game_data: GameData,
}

impl CommitSer {
    /// The serial record of a commit.
    pub fn from_commit(value: Commit) -> (r: Self)
        ensures
            r.id == value.id,
            r.parent_commit_id == value.parent_commit_id,
            r.message@ == value.message@,
            r.game_data@ == value.game_data@,
    {
        CommitSer {
            id: value.id,
            parent_commit_id: value.parent_commit_id,
            message: value.message,
            game_data: value.game_data,
        }
    }
}

/// The serial form of the whole version-control state.
#[derive(Debug)]
pub struct VcsSer {
    pub commits: Vec<CommitSer>,
    pub branches: Vec<BranchSer>,
    pub current_branch_name: String,
    pub current_commit_id: Option<isize>,
    pub next_commit_id: isize,
}

impl VcsSer {
    /// The serial record of a version-control state: commits and branches
    /// flattened in storage order.
    pub fn from_vcs(value: &Vcs) -> (r: Self)
        ensures
            r.commits@.len() == value@.commits.len(),
            forall|i: int|
                0 <= i < r.commits@.len() ==> {
                    let c = #[trigger] r.commits@[i];
                    &&& c.id as int == value@.commits[i].id
                    &&& opt_int(c.parent_commit_id) == value@.commits[i].parent
                    &&& c.message@ == value@.commits[i].message
                    &&& c.game_data@ == value@.commits[i].board
                },
            r.branches@.len() == value@.branches.len(),
            forall|i: int|
                0 <= i < r.branches@.len() ==> {
                    let b = #[trigger] r.branches@[i];
                    &&& opt_int(b.commit_id) == value@.branches[i].commit_id
                    &&& b.name@ == value@.branches[i].name
                },
            r.current_branch_name@ == value@.current_branch,
            opt_int(r.current_commit_id) == value@.current_commit,
            r.next_commit_id as int == value@.next_commit_id,
    {
        let mut commits: Vec<CommitSer> = Vec::new();
        let mut i: usize = 0;
        while i < value.commits.len()
            invariant
                i <= value.commits@.len(),
                commits@.len() == i,
                forall|j: int|
                    0 <= j < i ==> {
                        let c = #[trigger] commits@[j];
                        &&& c.id as int == value@.commits[j].id
                        &&& opt_int(c.parent_commit_id) == value@.commits[j].parent
                        &&& c.message@ == value@.commits[j].message
                        &&& c.game_data@ == value@.commits[j].board
                    },
            decreases value.commits@.len() - i,
        {
            let c = &value.commits[i];
            commits.push(
                CommitSer {
                    id: c.id,
                    parent_commit_id: c.parent_commit_id,
                    message: c.message.clone(),
                    game_data: c.game_data.duplicate(),
                },
            );
            i = i + 1;
        }
        let mut branches: Vec<BranchSer> = Vec::new();
        let mut k: usize = 0;
        while k < value.branches.len()
            invariant
                k <= value.branches@.len(),
                branches@.len() == k,
                forall|j: int|
                    0 <= j < k ==> {
                        let b = #[trigger] branches@[j];
                        &&& opt_int(b.commit_id) == value@.branches[j].commit_id
                        &&& b.name@ == value@.branches[j].name
                    },
            decreases value.branches@.len() - k,
        {
            let b = &value.branches[k];
            branches.push(BranchSer { commit_id: b.commit_id, name: b.name.clone() });
            k = k + 1;
        }
        VcsSer {
            commits,
            branches,
            current_branch_name: value.current_branch_name.clone(),
            current_commit_id: value.current_commit_id,
            next_commit_id: value.next_commit_id,
        }
    }
}

} // verus!
