//! Snapshot version control over board states: a commit tree with named
//! branch pointers.
//!
//! Commits live in an arena indexed by their id; ids are handed out densely
//! from zero, so a commit's id is its index and every parent id is strictly
//! smaller than its child's. Branches are movable named pointers into the
//! arena.

pub mod ser;

use vstd::prelude::*;
use vstd::string::StringExecFns;

use crate::game_data::{BoardModel, GameData};
use crate::text::{format_commit_header, spec_commit_header};

verus! {

/// Turns a machine-word id option into its mathematical value.
pub open spec fn opt_int(o: Option<isize>) -> Option<int> {
    match o {
        Some(x) => Some(x as int),
        None => None,
    }
}

/// A movable named pointer to a commit. A branch with no commit represents a
/// line of history that has not recorded any snapshot yet.
#[derive(Debug)]
pub struct Branch {
    /// The id of the commit this branch points to, if any.
    pub commit_id: Option<isize>,
    /// The branch's name, the key it is stored under.
    pub name: String,
}

/// The mathematical value of a branch.
pub struct BranchModel {
    pub name: Seq<char>,
    pub commit_id: Option<int>,
}

impl View for Branch {
    type V = BranchModel;

    open spec fn view(&self) -> BranchModel {
        BranchModel { name: self.name@, commit_id: opt_int(self.commit_id) }
    }
}

impl Branch {
    pub fn new(name: &str, commit_id: Option<isize>) -> (r: Self)
        ensures
            r@.name == name@,
            r.commit_id == commit_id,
    {
        Branch { name: name.to_owned(), commit_id }
    }

    /// A copy of this branch.
    pub fn duplicate(&self) -> (r: Self)
        ensures
            r@ == self@,
            r.commit_id == self.commit_id,
    {
        Branch { commit_id: self.commit_id, name: self.name.clone() }
    }
}

/// An immutable snapshot of the whole board state, linked to its parent.
#[derive(Debug)]
pub struct Commit {
    /// The commit's id, its key in the commit arena.
    pub id: isize,
    /// The id of the parent commit; the first commit of a history has none.
    pub parent_commit_id: Option<isize>,
    /// The message recorded with the snapshot.
    pub message: String,
    /// The board state stored by value in the snapshot.
    pub game_data: GameData,
}

/// The mathematical value of a commit.
pub struct CommitModel {
    pub id: int,
    pub parent: Option<int>,
    pub message: Seq<char>,
    pub board: BoardModel,
}

impl View for Commit {
    type V = CommitModel;

    open spec fn view(&self) -> CommitModel {
        CommitModel {
            id: self.id as int,
            parent: opt_int(self.parent_commit_id),
            message: self.message@,
            board: self.game_data@,
        }
    }
}

/// The mathematical value of the whole version-control state.
pub struct VcsModel {
    pub current_branch: Seq<char>,
    pub current_commit: Option<int>,
    pub branches: Seq<BranchModel>,
    pub commits: Seq<CommitModel>,
    pub next_commit_id: int,
}

impl VcsModel {
    /// Whether `name` names a branch.
    pub open spec fn has_branch(self, name: Seq<char>) -> bool {
        exists|i: int| 0 <= i < self.branches.len() && (#[trigger] self.branches[i]).name == name
    }

    /// The index of the branch named `name`.
    pub open spec fn branch_index(self, name: Seq<char>) -> int {
        choose|i: int| 0 <= i < self.branches.len() && (#[trigger] self.branches[i]).name == name
    }

    /// The branch currently checked out.
    pub open spec fn current_branch_model(self) -> BranchModel {
        self.branches[self.branch_index(self.current_branch)]
    }

    /// Commit ids are dense and parents come strictly before their
    /// children; branch names are unique; the current branch exists; every
    /// commit or branch pointer is a valid id.
    pub open spec fn wf(self) -> bool {
        &&& self.next_commit_id == self.commits.len()
        &&& forall|i: int| 0 <= i < self.commits.len() ==> (#[trigger] self.commits[i]).id == i
        &&& forall|i: int|
            0 <= i < self.commits.len() ==> (match (#[trigger] self.commits[i]).parent {
                Some(pid) => 0 <= pid < i,
                None => true,
            })
        &&& forall|i: int, j: int|
            0 <= i < j < self.branches.len() ==> (#[trigger] self.branches[i]).name != (
            #[trigger] self.branches[j]).name
        &&& forall|i: int|
            0 <= i < self.branches.len() ==> (match (#[trigger] self.branches[i]).commit_id {
                Some(cid) => 0 <= cid < self.commits.len(),
                None => true,
            })
        &&& self.has_branch(self.current_branch)
        &&& match self.current_commit {
            Some(cid) => 0 <= cid < self.commits.len(),
            None => true,
        }
    }
}

/// Version control of the board state: a commit arena, named branches, and
/// the commit and branch currently checked out.
#[derive(Debug)]
pub struct Vcs {
    current_branch_name: String,
    current_commit_id: Option<isize>,
    branches: Vec<Branch>,
    commits: Vec<Commit>,
    next_commit_id: isize,
}

impl View for Vcs {
    type V = VcsModel;

    closed spec fn view(&self) -> VcsModel {
        VcsModel {
            current_branch: self.current_branch_name@,
            current_commit: opt_int(self.current_commit_id),
            branches: self.branches@.map_values(|b: Branch| b@),
            commits: self.commits@.map_values(|c: Commit| c@),
            next_commit_id: self.next_commit_id as int,
        }
    }
}

impl Vcs {
    /// The model invariants, and a well-formed board inside every commit.
    pub closed spec fn wf(&self) -> bool {
        &&& self@.wf()
        &&& forall|i: int|
            0 <= i < self.commits@.len() ==> (#[trigger] self.commits@[i]).game_data.wf()
    }

    /// A well-formed store has a well-formed model.
    pub proof fn lemma_wf_model(&self)
        requires
            self.wf(),
        ensures
            self@.wf(),
    {
    }
}

/// Whether two optional commit ids are the same.
fn opt_id_eq(a: Option<isize>, b: Option<isize>) -> (r: bool)
    ensures
        r == (opt_int(a) == opt_int(b)),
{
    match (a, b) {
        (None, None) => true,
        (Some(x), Some(y)) => x == y,
        _ => false,
    }
}

/// The branch table after `b` is inserted under its name: an existing
/// branch of that name is overwritten, last write wins.
pub open spec fn spec_upsert_branch(v: VcsModel, b: BranchModel) -> Seq<BranchModel> {
    if v.has_branch(b.name) {
        v.branches.update(v.branch_index(b.name), b)
    } else {
        v.branches.push(b)
    }
}

/// The state after a branch `name` is created: it points at the current
/// commit (which may be absent), is stored under its name, and becomes the
/// current branch. The current commit does not move.
pub open spec fn spec_create_branch(v: VcsModel, name: Seq<char>) -> VcsModel {
    VcsModel {
        branches: spec_upsert_branch(
            v,
            BranchModel { name, commit_id: v.current_commit },
        ),
        current_branch: name,
        ..v
    }
}

/// Creating a commit is allowed exactly when some branch points at the
/// current commit; with no commit recorded the initial branch's empty
/// pointer matches the absent current commit.
pub open spec fn spec_allowed(v: VcsModel) -> bool {
    exists|i: int|
        0 <= i < v.branches.len() && (#[trigger] v.branches[i]).commit_id == v.current_commit
}

impl Vcs {
    /// The index of the branch stored under `name`, if any.
    fn find_branch_index(&self, name: &String) -> (r: Option<usize>)
        ensures
            match r {
                Some(i) => i < self@.branches.len() && self@.branches[i as int].name == name@,
                None => !self@.has_branch(name@),
            },
    {
        let mut i: usize = 0;
        while i < self.branches.len()
            invariant
                i <= self.branches@.len(),
                forall|j: int| 0 <= j < i ==> (#[trigger] self.branches@[j])@.name != name@,
            decreases self.branches@.len() - i,
        {
            if self.branches[i].name == *name {
                return Some(i);
            }
            i = i + 1;
        }
        None
    }

    /// The board state stored in the current commit, if one is checked out.
    pub fn get_current_state(&self) -> (r: Option<GameData>)
        requires
            self.wf(),
        ensures
            match r {
                Some(gd) => (self@.current_commit matches Some(cid) && gd@ == self@.commits[cid].board
                    && gd.wf()),
                None => self@.current_commit is None,
            },
    {
        match self.current_commit_id {
            Some(id) => Some(self.commits[id as usize].game_data.duplicate()),
            None => None,
        }
    }

    /// Creates a branch pointing at the current commit, stores it under
    /// `name` (overwriting a branch of the same name), and checks it out.
    pub fn create_branch(&mut self, name: String)
        requires
            old(self).wf(),
        ensures
            final(self).wf(),
            final(self)@ == spec_create_branch(old(self)@, name@),
    {
        let ghost v0 = self@;
        let new_branch = Branch { commit_id: self.current_commit_id, name: name.clone() };
        match self.find_branch_index(&name) {
            Some(i) => {
                self.branches.set(i, new_branch);
                proof {
                    assert(v0.has_branch(name@));
                    let j = v0.branch_index(name@);
                    assert(v0.branches[j].name == name@);
                    assert(j == i);
                    assert(self.branches@.map_values(|b: Branch| b@) =~= v0.branches.update(
                        i as int,
                        BranchModel { name: name@, commit_id: v0.current_commit },
                    ));
                }
            },
            None => {
                self.branches.push(new_branch);
                proof {
                    assert(self.branches@.map_values(|b: Branch| b@) =~= v0.branches.push(
                        BranchModel { name: name@, commit_id: v0.current_commit },
                    ));
                }
            },
        }
        self.current_branch_name = name;
        proof {
            assert(self@ =~= spec_create_branch(v0, self.current_branch_name@));
            let k = self@.branches.len() - 1;
            if v0.has_branch(self.current_branch_name@) {
                let j = v0.branch_index(self.current_branch_name@);
                assert(self@.branches[j].name == self@.current_branch);
                assert(self@.has_branch(self@.current_branch));
            } else {
                assert(self@.branches[k].name == self@.current_branch);
                assert(self@.has_branch(self@.current_branch));
            }
        }
    }

    /// Whether a new commit may be recorded here: true exactly when some
    /// branch points at the current commit, which keeps every commit
    /// reachable from a branch tip.
    pub fn is_commit_creation_allowed(&self) -> (r: bool)
        ensures
            r == spec_allowed(self@),
    {
        let mut i: usize = 0;
        while i < self.branches.len()
            invariant
                i <= self.branches@.len(),
                forall|j: int|
                    0 <= j < i ==> (#[trigger] self.branches@[j])@.commit_id
                        != self@.current_commit,
            decreases self.branches@.len() - i,
        {
            if opt_id_eq(self.branches[i].commit_id, self.current_commit_id) {
                proof {
                    assert(self@.branches[i as int].commit_id == self@.current_commit);
                }
                return true;
            }
            i = i + 1;
        }
        false
    }
}

/// The state after a commit is recorded: the next id is allocated to a
/// commit whose parent is the current commit and whose snapshot is `board`;
/// the current branch's pointer and the current commit move to it.
pub open spec fn spec_create_commit(
    v: VcsModel,
    message: Seq<char>,
    board: BoardModel,
) -> VcsModel {
    let c = CommitModel { id: v.next_commit_id, parent: v.current_commit, message, board };
    let bi = v.branch_index(v.current_branch);
    VcsModel {
        branches: v.branches.update(
            bi,
            BranchModel { name: v.branches[bi].name, commit_id: Some(v.next_commit_id) },
        ),
        commits: v.commits.push(c),
        current_commit: Some(v.next_commit_id),
        next_commit_id: v.next_commit_id + 1,
        ..v
    }
}

/// The state after checking out the commit with id `id`: only the current
/// commit moves; the branch pointer stays, a detached view of history.
pub open spec fn spec_switch_to_commit(v: VcsModel, id: int) -> VcsModel {
    VcsModel { current_commit: Some(id), ..v }
}

/// The state after checking out the branch `name`: it becomes current, and
/// the current commit moves to its pointer, which may be absent.
pub open spec fn spec_switch_to_branch(v: VcsModel, name: Seq<char>) -> VcsModel {
    VcsModel {
        current_branch: name,
        current_commit: v.branches[v.branch_index(name)].commit_id,
        ..v
    }
}

impl Vcs {
    /// Records a new commit holding `game_data`, with the given message,
    /// as a child of the current commit. Callers check
    /// `is_commit_creation_allowed` first; no policy check happens here.
    pub fn create_commit(&mut self, message: String, game_data: GameData)
        requires
            old(self).wf(),
            game_data.wf(),
            old(self)@.next_commit_id < isize::MAX,
        ensures
            final(self).wf(),
            final(self)@ == spec_create_commit(old(self)@, message@, game_data@),
    {
        let ghost v0 = self@;
        let id = self.next_commit_id;
        let commit = Commit {
            id,
            parent_commit_id: self.current_commit_id,
            message,
            game_data,
        };
        let bi = match self.find_branch_index(&self.current_branch_name) {
            Some(i) => i,
            None => {
                proof {
                    assert(false);
                }
                0
            },
        };
        proof {
            let j = v0.branch_index(v0.current_branch);
            assert(v0.branches[j].name == v0.current_branch);
            assert(j == bi);
        }
        let name_copy = self.branches[bi].name.clone();
        self.branches.set(bi, Branch { commit_id: Some(id), name: name_copy });
        self.current_commit_id = Some(id);
        self.commits.push(commit);
        self.next_commit_id = id + 1;
        proof {
            assert(self.branches@.map_values(|b: Branch| b@) =~= v0.branches.update(
                bi as int,
                BranchModel { name: v0.branches[bi as int].name, commit_id: Some(v0.next_commit_id) },
            ));
            assert(self.commits@.map_values(|c: Commit| c@) =~= v0.commits.push(
                CommitModel {
                    id: v0.next_commit_id,
                    parent: v0.current_commit,
                    message: self.commits@.last().message@,
                    board: self.commits@.last().game_data@,
                },
            ));
            assert(self@ =~= spec_create_commit(v0, self.commits@.last().message@, self.commits@.last().game_data@));
            let j2 = self@.branch_index(self@.current_branch);
            assert(self@.branches[bi as int].name == self@.current_branch);
            assert(self@.has_branch(self@.current_branch));
        }
    }

    /// Checks out the commit with id `id` and returns a copy of its stored
    /// board state. The current branch pointer does not move.
    pub fn switch_to_commit(&mut self, id: isize) -> (r: GameData)
        requires
            old(self).wf(),
            0 <= id,
            (id as int) < old(self)@.commits.len(),
        ensures
            final(self).wf(),
            final(self)@ == spec_switch_to_commit(old(self)@, id as int),
            r@ == old(self)@.commits[id as int].board,
            r.wf(),
    {
        let ghost v0 = self@;
        self.current_commit_id = Some(id);
        proof {
            assert(self@ =~= spec_switch_to_commit(v0, id as int));
        }
        self.commits[id as usize].game_data.duplicate()
    }

    /// Checks out the branch `name`: the current commit moves to the
    /// branch's pointer. Returns a copy of that commit's board state, or
    /// nothing when the branch has no snapshot yet.
    pub fn switch_to_branch(&mut self, name: String) -> (r: Option<GameData>)
        requires
            old(self).wf(),
            old(self)@.has_branch(name@),
        ensures
            final(self).wf(),
            final(self)@ == spec_switch_to_branch(old(self)@, name@),
            match r {
                Some(gd) => (final(self)@.current_commit matches Some(cid) && gd@ == old(
                    self,
                )@.commits[cid].board && gd.wf()),
                None => final(self)@.current_commit is None,
            },
    {
        let ghost v0 = self@;
        let bi = match self.find_branch_index(&name) {
            Some(i) => i,
            None => {
                proof {
                    assert(false);
                }
                0
            },
        };
        proof {
            let j = v0.branch_index(name@);
            assert(v0.branches[j].name == name@);
            assert(j == bi);
        }
        self.current_branch_name = name;
        self.current_commit_id = self.branches[bi].commit_id;
        proof {
            assert(self@ =~= spec_switch_to_branch(v0, self.current_branch_name@));
            assert(self@.branches[bi as int].name == self@.current_branch);
            assert(self@.has_branch(self@.current_branch));
        }
        match self.current_commit_id {
            Some(id) => Some(self.commits[id as usize].game_data.duplicate()),
            None => None,
        }
    }

    /// The name of the branch currently checked out.
    pub fn current_branch_name(&self) -> (r: String)
        requires
            self.wf(),
        ensures
            r@ == self@.current_branch,
    {
        self.current_branch_name.clone()
    }

    /// The id the next commit will receive.
    pub fn next_commit_id(&self) -> (r: isize)
        ensures
            r as int == self@.next_commit_id,
    {
        self.next_commit_id
    }

    /// The names of all branches, in storage order.
    pub fn branch_names(&self) -> (r: Vec<String>)
        ensures
            r@.len() == self@.branches.len(),
            forall|i: int| 0 <= i < r@.len() ==> (#[trigger] r@[i])@ == self@.branches[i].name,
    {
        let mut names: Vec<String> = Vec::new();
        let mut i: usize = 0;
        while i < self.branches.len()
            invariant
                i <= self.branches@.len(),
                names@.len() == i,
                forall|j: int|
                    0 <= j < i ==> (#[trigger] names@[j])@ == self.branches@[j]@.name,
            decreases self.branches@.len() - i,
        {
            names.push(self.branches[i].name.clone());
            i = i + 1;
        }
        names
    }
}

/// The headers of the commits reachable from the commit with id `id` by
/// following parent links, tip first.
pub open spec fn spec_commit_chain(commits: Seq<CommitModel>, id: int) -> Seq<Seq<char>>
    decreases id,
{
    if 0 <= id < commits.len() {
        let c = commits[id];
        seq![spec_commit_header(c.id, c.message)] + (match c.parent {
            Some(pid) => if 0 <= pid < id {
                spec_commit_chain(commits, pid)
            } else {
                Seq::empty()
            },
            None => Seq::empty(),
        })
    } else {
        Seq::empty()
    }
}

impl Vcs {
    /// The commit stored under id `commit_id`.
    pub fn get_commit(&self, commit_id: isize) -> (r: &Commit)
        requires
            self.wf(),
            0 <= commit_id,
            (commit_id as int) < self@.commits.len(),
        ensures
            r@ == self@.commits[commit_id as int],
            r.game_data.wf(),
    {
        &self.commits[commit_id as usize]
    }

    /// The commit currently checked out, if any.
    pub fn get_current_commit(&self) -> (r: Option<&Commit>)
        requires
            self.wf(),
        ensures
            match r {
                Some(c) => (self@.current_commit matches Some(cid) && c@ == self@.commits[cid]
                    && c.game_data.wf()),
                None => self@.current_commit is None,
            },
    {
        match self.current_commit_id {
            Some(id) => Some(&self.commits[id as usize]),
            None => None,
        }
    }

    /// The branch currently checked out.
    pub fn get_current_branch(&self) -> (r: &Branch)
        requires
            self.wf(),
        ensures
            r@ == self@.current_branch_model(),
    {
        let bi = match self.find_branch_index(&self.current_branch_name) {
            Some(i) => i,
            None => {
                proof {
                    assert(false);
                }
                0
            },
        };
        proof {
            let j = self@.branch_index(self@.current_branch);
            assert(self@.branches[j].name == self@.current_branch);
            assert(j == bi);
        }
        &self.branches[bi]
    }

    /// The display header of the commit currently checked out, if any.
    pub fn current_commit_header(&self) -> (r: Option<String>)
        requires
            self.wf(),
        ensures
            match r {
                Some(s) => (self@.current_commit matches Some(cid) && s@ == spec_commit_header(
                    cid,
                    self@.commits[cid].message,
                )),
                None => self@.current_commit is None,
            },
    {
        match self.current_commit_id {
            Some(id) => {
                let c = &self.commits[id as usize];
                Some(format_commit_header(c.id, &c.message))
            },
            None => None,
        }
    }

    /// Appends the headers of the commits reachable from `commit_id`
    /// through parent links, tip first.
    fn get_commit_chain(&self, commit_headers: &mut Vec<String>, commit_id: isize)
        requires
            self.wf(),
            0 <= commit_id,
            (commit_id as int) < self@.commits.len(),
        ensures
            final(commit_headers)@.len() == old(commit_headers)@.len() + spec_commit_chain(
                self@.commits,
                commit_id as int,
            ).len(),
            forall|i: int|
                0 <= i < old(commit_headers)@.len() ==> final(commit_headers)@[i] == old(
                    commit_headers,
                )@[i],
            forall|i: int|
                0 <= i < spec_commit_chain(self@.commits, commit_id as int).len() ==> (
                #[trigger] final(commit_headers)@[old(commit_headers)@.len() + i])@
                    == spec_commit_chain(self@.commits, commit_id as int)[i],
        decreases commit_id,
    {
        let ghost chain = spec_commit_chain(self@.commits, commit_id as int);
        let ghost n0 = commit_headers@.len() as int;
        let c = &self.commits[commit_id as usize];
        let parent = c.parent_commit_id;
        let header = format_commit_header(c.id, &c.message);
        commit_headers.push(header);
        proof {
            assert(chain[0] == spec_commit_header(
                self@.commits[commit_id as int].id,
                self@.commits[commit_id as int].message,
            ));
            assert(commit_headers@[n0]@ == chain[0]);
        }
        if let Some(parent_commit_id) = parent {
            proof {
                assert(self@.commits[commit_id as int].parent == Some(parent_commit_id as int));
            }
            self.get_commit_chain(commit_headers, parent_commit_id);
            proof {
                let rest = spec_commit_chain(self@.commits, parent_commit_id as int);
                assert(chain.len() == 1 + rest.len());
                assert forall|i: int|
                    0 <= i < chain.len() implies (#[trigger] commit_headers@[n0 + i])@
                    == chain[i] by {
                    if i == 0 {
                        assert(commit_headers@[n0] == commit_headers@[n0]);
                    } else {
                        assert(chain[i] == rest[i - 1]);
                        assert(commit_headers@[(n0 + 1) + (i - 1)]@ == rest[i - 1]);
                    }
                }
            }
        }
    }

    /// The headers of the commit chain of the current branch, from its tip
    /// back to the first commit. Empty when the branch has no snapshot.
    pub fn commit_headers(&self) -> (r: Vec<String>)
        requires
            self.wf(),
        ensures
            ({
                let chain = match self@.current_branch_model().commit_id {
                    Some(cid) => spec_commit_chain(self@.commits, cid),
                    None => Seq::<Seq<char>>::empty(),
                };
                &&& r@.len() == chain.len()
                &&& forall|i: int| 0 <= i < chain.len() ==> (#[trigger] r@[i])@ == chain[i]
            }),
    {
        let mut commit_headers: Vec<String> = Vec::new();
        let tip = self.get_current_branch().commit_id;
        if let Some(commit_id) = tip {
            self.get_commit_chain(&mut commit_headers, commit_id);
            proof {
                let chain = spec_commit_chain(self@.commits, commit_id as int);
                assert forall|i: int|
                    0 <= i < chain.len() implies (#[trigger] commit_headers@[i])@ == chain[i] by {
                    assert(commit_headers@[0 + i]@ == chain[i]);
                }
            }
        }
        commit_headers
    }
}

/// Recording a commit and then checking out the id it was given
/// round-trips the snapshot: the new commit stores exactly the given board,
/// and switching to it changes no commit, so the board read back is the
/// board that went in.
pub proof fn lemma_commit_round_trip(v: VcsModel, message: Seq<char>, board: BoardModel)
    requires
        v.wf(),
    ensures
        ({
            let v1 = spec_create_commit(v, message, board);
            &&& 0 <= v.next_commit_id < v1.commits.len()
            &&& v1.commits[v.next_commit_id].board == board
            &&& spec_switch_to_commit(v1, v.next_commit_id).commits == v1.commits
            &&& spec_switch_to_commit(v1, v.next_commit_id).current_commit == Some(
                v.next_commit_id,
            )
        }),
{
}

/// The no-commit-in-mid-history policy: after checking out a commit that no
/// branch points at, committing is forbidden; after branching there, it is
/// allowed again.
pub proof fn lemma_commit_policy(v: VcsModel, id: int, name: Seq<char>)
    requires
        v.wf(),
        0 <= id < v.commits.len(),
        forall|i: int|
            0 <= i < v.branches.len() ==> (#[trigger] v.branches[i]).commit_id != Some(id),
    ensures
        !spec_allowed(spec_switch_to_commit(v, id)),
        spec_allowed(spec_create_branch(spec_switch_to_commit(v, id), name)),
{
    let v1 = spec_switch_to_commit(v, id);
    let v2 = spec_create_branch(v1, name);
    if v1.has_branch(name) {
        let bi = v1.branch_index(name);
        assert(v2.branches[bi].commit_id == Some(id));
        assert(spec_allowed(v2));
    } else {
        assert(v2.branches[v2.branches.len() - 1].commit_id == Some(id));
        assert(spec_allowed(v2));
    }
}

impl Default for Vcs {
    /// A fresh history: one branch named `default` pointing at no commit,
    /// checked out, with no commits recorded.
    fn default() -> (r: Self)
        ensures
            r.wf(),
            r@.current_branch == "default"@,
            r@.current_commit is None,
            r@.branches.len() == 1,
            r@.branches[0].name == "default"@,
            r@.branches[0].commit_id is None,
            r@.commits.len() == 0,
    {
        let current_branch = Branch::new("default", None);
        let mut branches: Vec<Branch> = Vec::new();
        branches.push(current_branch);
        let r = Vcs {
            current_branch_name: String::from_str("default"),
            current_commit_id: None,
            branches,
            commits: Vec::new(),
            next_commit_id: 0,
        };
        proof {
            assert(r@.branches[0].name == "default"@);
            assert(r@.has_branch("default"@));
            assert(r@.commits.len() == 0);
        }
        r
    }
}

} // verus!
