//! The data of a profile document and the mathematical values that stand for
//! them in contracts.

use vstd::prelude::*;

verus! {

/// A cost centre as contracts see it: strings are sequences of characters.
pub struct CostCentreModel {
    pub id: u64,
    pub label: Seq<char>,
    pub module: Seq<char>,
    pub src_loc: Seq<char>,
    pub is_caf: bool,
}

/// One entry of a document's cost-centre table.
#[derive(Debug, PartialEq, Eq)]
pub struct CostCentre {
    pub id: u64,
    pub label: String,
    pub module: String,
    pub src_loc: String,
    pub is_caf: bool,
}

impl View for CostCentre {
    type V = CostCentreModel;

    open spec fn view(&self) -> CostCentreModel {
        CostCentreModel {
            id: self.id,
            label: self.label@,
            module: self.module@,
            src_loc: self.src_loc@,
            is_caf: self.is_caf,
        }
    }
}

impl Clone for CostCentre {
    fn clone(&self) -> (copy: CostCentre)
        ensures
            copy@ == self@,
    {
        CostCentre {
            id: self.id,
            label: self.label.clone(),
            module: self.module.clone(),
            src_loc: self.src_loc.clone(),
            is_caf: self.is_caf,
        }
    }
}

/// A raw profile tree as contracts see it.
pub struct ProfileModel {
    pub cost_centre: u64,
    pub entries: u64,
    pub alloc: u64,
    pub ticks: u64,
    pub children: Seq<ProfileModel>,
}

/// A node of the raw profile tree. `cost_centre` refers to an entry of the
/// cost-centre table by its id; the table need not hold such an entry.
#[derive(Debug, PartialEq, Eq)]
pub struct Profile {
    pub cost_centre: u64,
    pub entries: u64,
    pub alloc: u64,
    pub ticks: u64,
    pub children: Vec<Profile>,
}

/// The view of a raw node: its counts, and the views of its children.
pub open spec fn profile_view(p: Profile) -> ProfileModel
    decreases p,
{
    ProfileModel {
        cost_centre: p.cost_centre,
        entries: p.entries,
        alloc: p.alloc,
        ticks: p.ticks,
        children: Seq::new(
            p.children.len() as nat,
            |i: int|
                if 0 <= i < p.children.len() {
                    profile_view(p.children[i])
                } else {
                    arbitrary()
                },
        ),
    }
}

impl View for Profile {
    type V = ProfileModel;

    open spec fn view(&self) -> ProfileModel {
        profile_view(*self)
    }
}

impl Clone for Profile {
    /// A copy of the tree, node for node.
    fn clone(&self) -> (copy: Profile)
        ensures
            copy@ == self@,
        decreases self,
    {
        let mut children: Vec<Profile> = Vec::new();
        let mut i: usize = 0;
        while i < self.children.len()
            invariant
                i <= self.children.len(),
                children.len() == i,
                forall|j: int| 0 <= j < i ==> (#[trigger] children@[j])@ == self.children@[j]@,
            decreases self.children.len() - i,
        {
            let child = self.children[i].clone();
            children.push(child);
            i = i + 1;
        }
        let copy = Profile {
            cost_centre: self.cost_centre,
            entries: self.entries,
            alloc: self.alloc,
            ticks: self.ticks,
            children,
        };
        assert(copy@.children =~= self@.children);
        copy
    }
}

/// An analysed profile tree as contracts see it. The cumulative ticks are a
/// natural number: the sum that they stand for is taken without a bound.
pub struct AnalysedProfileModel {
    pub label: Seq<char>,
    pub module: Seq<char>,
    pub src_loc: Seq<char>,
    pub entries: u64,
    pub alloc: u64,
    pub ticks: u64,
    pub ticks_cumulative: nat,
    pub children: Seq<AnalysedProfileModel>,
}

/// A node of the analysed profile tree: the raw node's counts, the names of
/// its cost centre, the ticks of the node and of all below it, and its
/// children from the largest cumulative ticks to the smallest.
#[derive(Debug, PartialEq, Eq)]
pub struct AnalysedProfile {
    pub label: String,
    pub module: String,
    pub src_loc: String,
    pub entries: u64,
    pub alloc: u64,
    pub ticks: u64,
    pub ticks_cumulative: u64,
    pub children: Vec<AnalysedProfile>,
}

/// The view of an analysed node: its names and counts, and the views of its
/// children.
pub open spec fn analysed_profile_view(a: AnalysedProfile) -> AnalysedProfileModel
    decreases a,
{
    AnalysedProfileModel {
        label: a.label@,
        module: a.module@,
        src_loc: a.src_loc@,
        entries: a.entries,
        alloc: a.alloc,
        ticks: a.ticks,
        ticks_cumulative: a.ticks_cumulative as nat,
        children: Seq::new(
            a.children.len() as nat,
            |i: int|
                if 0 <= i < a.children.len() {
                    analysed_profile_view(a.children[i])
                } else {
                    arbitrary()
                },
        ),
    }
}

impl View for AnalysedProfile {
    type V = AnalysedProfileModel;

    open spec fn view(&self) -> AnalysedProfileModel {
        analysed_profile_view(*self)
    }
}

impl Clone for AnalysedProfile {
    /// A copy of the tree, node for node.
    fn clone(&self) -> (copy: AnalysedProfile)
        ensures
            copy@ == self@,
        decreases self,
    {
        let mut children: Vec<AnalysedProfile> = Vec::new();
        let mut i: usize = 0;
        while i < self.children.len()
            invariant
                i <= self.children.len(),
                children.len() == i,
                forall|j: int| 0 <= j < i ==> (#[trigger] children@[j])@ == self.children@[j]@,
            decreases self.children.len() - i,
        {
            let child = self.children[i].clone();
            children.push(child);
            i = i + 1;
        }
        let copy = AnalysedProfile {
            label: self.label.clone(),
            module: self.module.clone(),
            src_loc: self.src_loc.clone(),
            entries: self.entries,
            alloc: self.alloc,
            ticks: self.ticks,
            ticks_cumulative: self.ticks_cumulative,
            children,
        };
        assert(copy@.children =~= self@.children);
        copy
    }
}

/// A cost centre with its ticks, as contracts see it.
pub struct AnalysedCostCentreModel {
    pub cost_centre: CostCentreModel,
    pub ticks: nat,
}

/// A cost centre with the ticks of all the nodes of a tree that refer to it.
#[derive(Debug, PartialEq, Eq)]
pub struct AnalysedCostCentre {
    pub cost_centre: CostCentre,
    pub ticks: u64,
}

impl Clone for AnalysedCostCentre {
    fn clone(&self) -> (copy: AnalysedCostCentre)
        ensures
            copy@ == self@,
    {
        AnalysedCostCentre { cost_centre: self.cost_centre.clone(), ticks: self.ticks }
    }
}

impl View for AnalysedCostCentre {
    type V = AnalysedCostCentreModel;

    open spec fn view(&self) -> AnalysedCostCentreModel {
        AnalysedCostCentreModel { cost_centre: self.cost_centre@, ticks: self.ticks as nat }
    }
}

/// The views of the items of a sequence.
pub open spec fn views<T: View>(items: Seq<T>) -> Seq<T::V> {
    Seq::new(items.len(), |i: int| items[i]@)
}

/// One document: what is known of a run, the cost-centre table, and the
/// profile tree. `P` is the tree and `C` an entry of the table, raw or
/// analysed. `total_time_bits` holds the total wall time, a binary64 number
/// of seconds, as its bit pattern.
#[derive(Debug, PartialEq, Eq)]
pub struct TopLevel<P, C> {
    pub program: String,
    pub arguments: Vec<String>,
    pub rts_arguments: Vec<String>,
    pub end_time: String,
    pub initial_capabilities: u32,
    pub total_time_bits: u64,
    pub total_ticks: u64,
    pub tick_interval: u32,
    pub total_alloc: u64,
    pub cost_centres: Vec<C>,
    pub profile: P,
}

} // verus!
