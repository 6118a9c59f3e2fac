//! Latching boolean conditions and the sets that compose them.
use vstd::prelude::*;
use crate::error::InitError;
use crate::run_queue::TASKLET_COUNT;

verus! {

/// A latching boolean flag, with the condition sets that refer to it.
pub struct BooleanCondition {
    value: bool,
    sets: Vec<usize>,
}

impl BooleanCondition {
    /// Current value.
    pub closed spec fn value_view(&self) -> bool {
        self.value
    }

    /// Indices of the condition sets that refer to this condition.
    pub closed spec fn sets_view(&self) -> Seq<usize> {
        self.sets@
    }

    /// Referred to by at most as many sets as there are tasklets.
    pub closed spec fn wf(&self) -> bool {
        self.sets@.len() <= TASKLET_COUNT
    }

    /// A condition with the given value, in no set.
    pub fn new(value: bool) -> (r: BooleanCondition)
        ensures
            r.wf(),
            r.value_view() == value,
            r.sets_view() == Seq::<usize>::empty(),
    {
        BooleanCondition { value, sets: Vec::new() }
    }

    /// Current value.
    pub fn get_value(&self) -> (r: bool)
        ensures
            r == self.value_view(),
    {
        self.value
    }

    /// Stores a new value.
    pub fn set_value(&mut self, value: bool)
        ensures
            final(self).value_view() == value,
            final(self).sets_view() == old(self).sets_view(),
            final(self).wf() == old(self).wf(),
    {
        self.value = value;
    }

    /// Whether one more set can refer to this condition.
    pub fn has_room(&self) -> (r: bool)
        ensures
            r == (self.sets_view().len() < TASKLET_COUNT),
    {
        self.sets.len() < TASKLET_COUNT
    }

    /// Records that a set refers to this condition.
    pub fn add_set(&mut self, set: usize) -> (r: Result<(), InitError>)
        requires
            old(self).wf(),
        ensures
            final(self).wf(),
            final(self).value_view() == old(self).value_view(),
            old(self).sets_view().len() < TASKLET_COUNT ==> r is Ok && final(self).sets_view()
                == old(self).sets_view().push(set),
            old(self).sets_view().len() >= TASKLET_COUNT ==> r == Err::<(), InitError>(
                InitError::SubscriptionListFull,
            ) && final(self).sets_view() == old(self).sets_view(),
    {
        if self.sets.len() >= TASKLET_COUNT {
            return Err(InitError::SubscriptionListFull);
        }
        self.sets.push(set);
        Ok(())
    }

    /// Number of sets that refer to this condition.
    pub fn set_count(&self) -> (r: usize)
        ensures
            r == self.sets_view().len(),
    {
        self.sets.len()
    }

    /// The set at position `i` of the list.
    pub fn set_at(&self, i: usize) -> (r: usize)
        requires
            i < self.sets_view().len(),
        ensures
            r == self.sets_view()[i as int],
    {
        self.sets[i]
    }
}

/// How a condition set composes the values of its members.
#[derive(Clone, Copy, Debug, PartialEq, Eq, Structural)]
pub enum BooleanConditionSetType {
    /// Satisfied when every member is true.
    AllTrue,
    /// Satisfied when some member is true.
    AnyTrue,
}

/// Whether a set with this rule over these members is satisfied by `values`.
pub open spec fn rule_holds(
    rule: BooleanConditionSetType,
    members: Seq<usize>,
    values: Seq<bool>,
) -> bool {
    match rule {
        BooleanConditionSetType::AllTrue => forall|k: int|
            0 <= k < members.len() ==> #[trigger] values[members[k] as int],
        BooleanConditionSetType::AnyTrue => exists|k: int|
            0 <= k < members.len() && #[trigger] values[members[k] as int],
    }
}

/// A composition of conditions owned by one tasklet.
///
/// The set latches a notification when a member changes and the rule holds
/// afterwards; the owner's next step consumes it.
pub struct BooleanConditionSet {
    owner: usize,
    members: Vec<usize>,
    rule: BooleanConditionSetType,
    notified: bool,
}

impl BooleanConditionSet {
    /// Index of the owning tasklet.
    pub closed spec fn owner_view(&self) -> usize {
        self.owner
    }

    /// Indices of the member conditions.
    pub closed spec fn members_view(&self) -> Seq<usize> {
        self.members@
    }

    /// Evaluation rule.
    pub closed spec fn rule_view(&self) -> BooleanConditionSetType {
        self.rule
    }

    /// Whether a notification is latched.
    pub closed spec fn notified_view(&self) -> bool {
        self.notified
    }

    /// A set over `members` with the given rule, nothing latched.
    pub fn new(owner: usize, members: Vec<usize>, rule: BooleanConditionSetType) -> (r:
        BooleanConditionSet)
        ensures
            r.owner_view() == owner,
            r.members_view() == members@,
            r.rule_view() == rule,
            !r.notified_view(),
    {
        BooleanConditionSet { owner, members, rule, notified: false }
    }

    /// Index of the owning tasklet.
    pub fn owner(&self) -> (r: usize)
        ensures
            r == self.owner_view(),
    {
        self.owner
    }

    /// Member at position `i`.
    pub fn member(&self, i: usize) -> (r: usize)
        requires
            i < self.members_view().len(),
        ensures
            r == self.members_view()[i as int],
    {
        self.members[i]
    }

    /// Evaluation rule.
    pub fn rule(&self) -> (r: BooleanConditionSetType)
        ensures
            r == self.rule_view(),
    {
        self.rule
    }

    /// Whether a notification is latched.
    pub fn is_notified(&self) -> (r: bool)
        ensures
            r == self.notified_view(),
    {
        self.notified
    }

    /// Latches or drops the notification.
    pub fn set_notified(&mut self, notified: bool)
        ensures
            final(self).notified_view() == notified,
            final(self).owner_view() == old(self).owner_view(),
            final(self).members_view() == old(self).members_view(),
            final(self).rule_view() == old(self).rule_view(),
    {
        self.notified = notified;
    }

    /// Evaluates the rule over the current values of the conditions.
    pub fn evaluate(&self, conditions: &Vec<BooleanCondition>) -> (r: bool)
        requires
            forall|k: int|
                0 <= k < self.members_view().len() ==> #[trigger] self.members_view()[k]
                    < conditions@.len(),
        ensures
            r == rule_holds(
                self.rule_view(),
                self.members_view(),
                conditions@.map_values(|c: BooleanCondition| c.value_view()),
            ),
    {
        let ghost values = conditions@.map_values(|c: BooleanCondition| c.value_view());
        let all = match self.rule {
            BooleanConditionSetType::AllTrue => true,
            BooleanConditionSetType::AnyTrue => false,
        };
        let mut i: usize = 0;
        while i < self.members.len()
            invariant
                i <= self.members@.len(),
                all == (self.rule == BooleanConditionSetType::AllTrue),
                values == conditions@.map_values(|c: BooleanCondition| c.value_view()),
                forall|k: int|
                    0 <= k < self.members_view().len() ==> #[trigger] self.members_view()[k]
                        < conditions@.len(),
                all ==> forall|k: int| 0 <= k < i ==> #[trigger] values[self.members@[k] as int],
                !all ==> forall|k: int|
                    0 <= k < i ==> !#[trigger] values[self.members@[k] as int],
            decreases self.members@.len() - i,
        {
            assert(self.members_view()[i as int] < conditions@.len());
            let v = conditions[self.members[i]].get_value();
            assert(v == values[self.members@[i as int] as int]);
            if all && !v {
                return false;
            }
            if !all && v {
                return true;
            }
            i += 1;
        }
        all
    }
}

} // verus!
