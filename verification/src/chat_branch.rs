//! Conversation branches: named, independently persisted conversation
//! threads, held as a flat ordered list.
//!
//! A branch's identity is its `id`, unique within the store, assigned at
//! creation and never reused.  The store guarantees at least one branch
//! before a conversation screen is constructed: an empty persisted set is
//! replaced by a single default branch.

use crate::chat_structs::{copy_messages, Message, MessageView};
use vstd::prelude::*;
use vstd::seq_lib::*;
use vstd::set_lib::*;
use vstd::std_specs::cmp::PartialEqSpec;

verus! {

/// A named conversation thread.
#[derive(Debug, Clone)]
pub struct ChatBranch {
    pub id: usize,
    pub name: String,
    pub messages: Vec<Message>,
}

/// The mathematical value of a [`ChatBranch`].
#[verifier::ext_equal]
pub struct BranchView {
    pub id: int,
    pub name: Seq<char>,
    pub messages: Seq<MessageView>,
}

impl View for ChatBranch {
    type V = BranchView;

    open spec fn view(&self) -> BranchView {
        BranchView { id: self.id as int, name: self.name@, messages: self.messages.deep_view() }
    }
}

impl DeepView for ChatBranch {
    type V = BranchView;

    open spec fn deep_view(&self) -> BranchView {
        self.view()
    }
}

impl PartialEq for ChatBranch {
    fn eq(&self, other: &ChatBranch) -> (r: bool) {
        if self.id != other.id {
            return false;
        }
        if !(self.name == other.name) {
            return false;
        }
        let meq = self.messages == other.messages;
        proof {
            let sm = self.messages.deep_view();
            let om = other.messages.deep_view();
            if meq {
                assert(sm =~= om);
            } else if sm == om {
                assert(sm.len() == self.messages@.len());
                assert(om.len() == other.messages@.len());
                assert forall|i: int|
                    0 <= i < self.messages@.len() implies #[trigger] self.messages@[i].eq_spec(
                    &other.messages@[i],
                ) by {
                    assert(sm[i] == self.messages@[i].deep_view());
                    assert(om[i] == other.messages@[i].deep_view());
                }
                assert(false);
            }
        }
        meq
    }
}

impl vstd::std_specs::cmp::PartialEqSpecImpl for ChatBranch {
    open spec fn obeys_eq_spec() -> bool {
        true
    }

    open spec fn eq_spec(&self, other: &ChatBranch) -> bool {
        self@ == other@
    }
}

/// An exact copy of a branch.
pub fn copy_branch(b: &ChatBranch) -> (r: ChatBranch)
    ensures
        r@ == b@,
        r.id == b.id,
        r.name@ == b.name@,
        r.messages@ == b.messages@,
{
    ChatBranch { id: b.id, name: b.name.clone(), messages: copy_messages(&b.messages) }
}

/// The name given to a branch created without one.
pub open spec fn default_branch_name() -> Seq<char> {
    "Default Chat"@
}

/// The name given to a branch created without one.
pub fn default_branch_title() -> (r: String)
    ensures
        r@ == default_branch_name(),
{
    "Default Chat".to_owned()
}

/// The branch synthesized when the persisted store is empty.
pub fn default_chat_branch() -> (r: ChatBranch)
    ensures
        r@.id == 0,
        r@.name == default_branch_name(),
        r@.messages == Seq::<MessageView>::empty(),
{
    ChatBranch { id: 0, name: default_branch_title(), messages: Vec::new() }
}

/// Whether every branch id occurs only once.
pub open spec fn ids_unique(bs: Seq<BranchView>) -> bool {
    forall|i: int, j: int| 0 <= i < j < bs.len() ==> bs[i].id != bs[j].id
}

/// Whether some branch already carries the given id.
pub open spec fn id_in_use(bs: Seq<BranchView>, id: int) -> bool {
    exists|k: int| 0 <= k < bs.len() && bs[k].id == id
}

/// Whether some branch already carries the given id.
pub fn branch_id_used(branches: &Vec<ChatBranch>, id: usize) -> (r: bool)
    ensures
        r == id_in_use(branches.deep_view(), id as int),
{
    let mut i: usize = 0;
    while i < branches.len()
        invariant
            i <= branches@.len(),
            forall|k: int| 0 <= k < i ==> branches.deep_view()[k].id != id,
        decreases branches@.len() - i,
    {
        if branches[i].id == id {
            proof {
                assert(branches.deep_view()[i as int].id == id);
            }
            return true;
        }
        i = i + 1;
    }
    false
}

/// Whether every branch id occurs only once.
pub fn branch_ids_unique(branches: &Vec<ChatBranch>) -> (r: bool)
    ensures
        r == ids_unique(branches.deep_view()),
{
    let ghost bs = branches.deep_view();
    let mut i: usize = 0;
    while i < branches.len()
        invariant
            bs == branches.deep_view(),
            i <= branches@.len(),
            forall|p: int, q: int| 0 <= p < q < i ==> bs[p].id != bs[q].id,
        decreases branches@.len() - i,
    {
        let mut j: usize = 0;
        while j < i
            invariant
                bs == branches.deep_view(),
                j <= i < branches@.len(),
                forall|q: int| 0 <= q < j ==> bs[q].id != bs[i as int].id,
            decreases i - j,
        {
            if branches[j].id == branches[i].id {
                proof {
                    assert(bs[j as int].id == bs[i as int].id);
                }
                return false;
            }
            j = j + 1;
        }
        i = i + 1;
    }
    true
}

/// In a store with unique ids there is always an unused id no larger than
/// the number of branches (a pigeonhole argument).
pub proof fn lemma_unused_id_exists(bs: Seq<BranchView>)
    requires
        ids_unique(bs),
    ensures
        exists|c: int| 0 <= c <= bs.len() && !id_in_use(bs, c),
{
    broadcast use vstd::set::group_set_axioms;

    let n = bs.len() as int;
    if forall|c: int| 0 <= c <= n ==> #[trigger] id_in_use(bs, c) {
        let ids = bs.map_values(|b: BranchView| b.id);
        assert(ids.no_duplicates()) by {
            assert(forall|i: int, j: int|
                0 <= i < ids.len() && 0 <= j < ids.len() && i != j ==> #[trigger] ids[i]
                    != #[trigger] ids[j]);
        }
        ids.unique_seq_to_set();
        let cand = set_int_range(0, n + 1);
        lemma_int_range(0, n + 1);
        assert(cand.subset_of(ids.to_set())) by {
            assert forall|c: int| cand.contains(c) implies ids.to_set().contains(c) by {
                assert(id_in_use(bs, c));
                let k = choose|k: int| 0 <= k < bs.len() && bs[k].id == c;
                assert(ids[k] == c);
                assert(ids.contains(c));
            }
        }
        lemma_len_subset(cand, ids.to_set());
        assert(false);
    }
}

/// The smallest id not yet in use: the id a newly created branch receives.
pub fn next_branch_id(branches: &Vec<ChatBranch>) -> (r: usize)
    requires
        branches@.len() < usize::MAX,
        ids_unique(branches.deep_view()),
    ensures
        !id_in_use(branches.deep_view(), r as int),
        forall|c: int| 0 <= c < r ==> id_in_use(branches.deep_view(), c),
{
    let ghost bs = branches.deep_view();
    let n = branches.len();
    let mut c: usize = 0;
    while c <= n
        invariant
            bs == branches.deep_view(),
            n == branches@.len() < usize::MAX,
            c <= n + 1,
            forall|x: int| 0 <= x < c ==> id_in_use(bs, x),
        decreases n + 1 - c,
    {
        if !branch_id_used(branches, c) {
            return c;
        }
        c = c + 1;
    }
    proof {
        lemma_unused_id_exists(bs);
        assert(false);
    }
    0
}

/// An empty persisted set is replaced by a single default branch; a
/// non-empty one is kept as it is.  The result is never empty.
pub fn bootstrap_branches(loaded: Vec<ChatBranch>) -> (r: Vec<ChatBranch>)
    ensures
        loaded@.len() == 0 ==> r.deep_view() =~= seq![
            BranchView {
                id: 0,
                name: default_branch_name(),
                messages: Seq::<MessageView>::empty(),
            },
        ],
        loaded@.len() > 0 ==> r == loaded,
        r@.len() > 0,
        ids_unique(loaded.deep_view()) ==> ids_unique(r.deep_view()),
{
    if loaded.len() == 0 {
        let mut r: Vec<ChatBranch> = Vec::new();
        r.push(default_chat_branch());
        r
    } else {
        loaded
    }
}

} // verus!
