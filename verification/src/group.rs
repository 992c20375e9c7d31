//! Groups: the containers of a population.

use rand_xoshiro::Xoshiro256PlusPlus;
use vstd::prelude::*;

use crate::agent::Agent;
use crate::config::AgentCfg;
pub use crate::config::GroupCfg;
use crate::random::new_id;

verus! {

/// A group owns its members; their order is the order in which they joined.
#[derive(Debug)]
pub struct Group {
    pub id: usize,
    pub members: Vec<Agent>,
    pub config: GroupCfg,
}

impl Group {
    /// The memory accounting of every member is sound.
    pub open spec fn wf(self) -> bool {
        forall|i: int| 0 <= i < self.members@.len() ==> (#[trigger] self.members@[i]).wf()
    }

    /// Whether the memory accounting of every member is sound.
    pub fn is_sound(&self) -> (ok: bool)
        ensures
            ok == self.wf(),
    {
        let n: usize = self.members.len();
        let mut a: usize = 0;
        while a < n
            invariant
                a <= n,
                n == self.members@.len(),
                forall|k: int| 0 <= k < a ==> (#[trigger] self.members@[k]).wf(),
            decreases n - a,
        {
            if !self.members[a].is_sound() {
                return false;
            }
            a += 1;
        }
        true
    }

    /// A group of `size` founders. The founders' identities are drawn first,
    /// in order, and the group's identity last.
    pub fn new(
        size: usize,
        member_cfg: AgentCfg,
        group_cfg: GroupCfg,
        rng: &mut Xoshiro256PlusPlus,
    ) -> (group: Self)
        ensures
            group.members@.len() == size,
            forall|i: int| 0 <= i < size ==> (#[trigger] group.members@[i]).founder(member_cfg),
            group.config == group_cfg,
            group.wf(),
    {
        let mut members: Vec<Agent> = Vec::new();
        let mut i: usize = 0;
        while i < size
            invariant
                i <= size,
                members@.len() == i,
                forall|k: int| 0 <= k < i ==> (#[trigger] members@[k]).founder(member_cfg),
                forall|k: int| 0 <= k < i ==> (#[trigger] members@[k]).wf(),
            decreases size - i,
        {
            members.push(Agent::default(rng, member_cfg));
            i += 1;
        }
        Self { id: new_id(rng), members, config: group_cfg }
    }

    /// A group of the given members under a fresh identity.
    pub fn splinter(
        members: Vec<Agent>,
        group_cfg: GroupCfg,
        rng: &mut Xoshiro256PlusPlus,
    ) -> (group: Self)
        ensures
            group.members@ == members@,
            group.config == group_cfg,
    {
        Self { id: new_id(rng), members, config: group_cfg }
    }
}

} // verus!
