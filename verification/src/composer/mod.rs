//! The steps of a submission: which of them can be run at all, and the
//! signals that tell of a run.
use vstd::prelude::*;
use vstd::string::*;
use crate::composer::execution::{Execution, Progress};
use crate::composer::graph::{acyclic, graph_of, graph_wf, is_topological, topological_order, Graph};
use crate::entities::StepStatus;

pub mod execution;
pub mod graph;
pub mod laws;
pub mod report;

verus! {

/// One step of a submission as it is written: its name and the names of the
/// steps it waits for.
#[derive(Debug)]
pub struct StepSpec {
    pub name: String,
    pub needs: Vec<String>,
}

/// Why the steps of a submission cannot be run.
#[derive(Debug, Clone, Copy, PartialEq, Eq, Structural)]
pub enum SubmissionError {
    /// Two steps have one name.
    DuplicateStep,
    /// A step waits for a name that no step has.
    UndefinedStep,
    /// A step waits for itself, directly or through others.
    Cycle,
}

pub open spec fn step_names(steps: Seq<StepSpec>) -> Seq<Seq<char>> {
    steps.map_values(|step: StepSpec| step.name@)
}

pub open spec fn names_distinct(names: Seq<Seq<char>>) -> bool {
    forall|i: int, j: int| 0 <= i < j < names.len() ==> names[i] != names[j]
}

/// A step has the name.
pub open spec fn is_defined(names: Seq<Seq<char>>, name: Seq<char>) -> bool {
    exists|i: int| 0 <= i < names.len() && names[i] == name
}

/// Every name that a step waits for is the name of a step.
pub open spec fn all_defined(steps: Seq<StepSpec>) -> bool {
    forall|s: int, k: int|
        0 <= s < steps.len() && 0 <= k < steps[s].needs@.len() ==> is_defined(
            step_names(steps),
            #[trigger] steps[s].needs@[k]@,
        )
}

/// The place of the step with the name.
pub open spec fn place_of(names: Seq<Seq<char>>, name: Seq<char>) -> int {
    choose|i: int| 0 <= i < names.len() && names[i] == name
}

/// The graph of the steps, each name that a step waits for turned into the
/// place of the step with that name.
pub open spec fn resolved(steps: Seq<StepSpec>) -> Graph {
    Seq::new(
        steps.len(),
        |s: int|
            Seq::new(
                steps[s].needs@.len(),
                |k: int| place_of(step_names(steps), steps[s].needs@[k]@),
            ),
    )
}

/// What is wrong with the steps, if anything: names are looked at first,
/// then what the steps wait for, then cycles.
pub open spec fn verdict(steps: Seq<StepSpec>) -> Option<SubmissionError> {
    if !names_distinct(step_names(steps)) {
        Some(SubmissionError::DuplicateStep)
    } else if !all_defined(steps) {
        Some(SubmissionError::UndefinedStep)
    } else if !acyclic(resolved(steps)) {
        Some(SubmissionError::Cycle)
    } else {
        None
    }
}

/// The steps of a submission that can be run: every step has a name of its
/// own, waits for steps that are there, and none waits for itself.
pub struct Plan {
    names: Vec<String>,
    needs: Vec<Vec<usize>>,
    order: Vec<usize>,
}

impl Plan {
    /// The graph of the steps.
    pub closed spec fn graph(&self) -> Graph {
        graph_of(self.needs@)
    }

    /// The names of the steps, in the order in which they were written.
    pub closed spec fn names(&self) -> Seq<Seq<char>> {
        self.names@.map_values(|name: String| name@)
    }

    /// An order in which every step comes after all it waits for.
    pub closed spec fn order(&self) -> Seq<usize> {
        self.order@
    }

    pub closed spec fn wf(&self) -> bool {
        &&& self.names@.len() == self.needs@.len()
        &&& names_distinct(self.names())
        &&& graph_wf(self.graph())
        &&& acyclic(self.graph())
        &&& is_topological(self.graph(), self.order@)
    }

    pub proof fn lemma_wf(&self)
        requires
            self.wf(),
        ensures
            self.names().len() == self.graph().len(),
            names_distinct(self.names()),
            graph_wf(self.graph()),
            acyclic(self.graph()),
            is_topological(self.graph(), self.order()),
    {
    }

    /// The number of steps.
    pub fn len(&self) -> (n: usize)
        requires
            self.wf(),
        ensures
            n == self.graph().len(),
    {
        self.needs.len()
    }

    /// The name of the step at place `step`.
    pub fn name_of(&self, step: usize) -> (name: &String)
        requires
            self.wf(),
            step < self.graph().len(),
        ensures
            name@ == self.names()[step as int],
    {
        &self.names[step]
    }

    /// The places of the steps that the step at place `step` waits for.
    pub fn needs_of(&self, step: usize) -> (needs: &Vec<usize>)
        requires
            self.wf(),
            step < self.graph().len(),
        ensures
            needs@.len() == self.graph()[step as int].len(),
            forall|k: int| 0 <= k < needs@.len() ==> needs@[k] == self.graph()[step as int][k],
    {
        &self.needs[step]
    }

    /// The step at place `at` of the order.
    pub fn order_at(&self, at: usize) -> (step: usize)
        requires
            self.wf(),
            at < self.graph().len(),
        ensures
            step == self.order()[at as int],
            step < self.graph().len(),
    {
        self.order[at]
    }
}

/// The place of the first step with the name, if there is one.
fn find_step(steps: &Vec<StepSpec>, name: &String) -> (found: Option<usize>)
    ensures
        match found {
            Some(i) => i < steps@.len() && steps@[i as int].name@ == name@,
            None => !is_defined(step_names(steps@), name@),
        },
{
    let n = steps.len();
    let mut i: usize = 0;
    while i < n
        invariant
            n == steps@.len(),
            i <= n,
            forall|j: int| 0 <= j < i ==> steps@[j].name@ != name@,
        decreases n - i,
    {
        if steps[i].name == *name {
            return Some(i);
        }
        i += 1;
    }
    proof {
        let names = step_names(steps@);
        if is_defined(names, name@) {
            let j = choose|j: int| 0 <= j < names.len() && names[j] == name@;
            assert(steps@[j].name@ == name@);
        }
    }
    None
}

fn has_distinct_names(steps: &Vec<StepSpec>) -> (distinct: bool)
    ensures
        distinct == names_distinct(step_names(steps@)),
{
    let n = steps.len();
    let ghost names = step_names(steps@);
    let mut i: usize = 0;
    while i < n
        invariant
            n == steps@.len(),
            names == step_names(steps@),
            i <= n,
            forall|a: int, b: int| 0 <= a < b < i ==> names[a] != names[b],
        decreases n - i,
    {
        let mut j: usize = 0;
        while j < i
            invariant
                n == steps@.len(),
                names == step_names(steps@),
                i < n,
                j <= i,
                forall|a: int| 0 <= a < j ==> names[a] != names[i as int],
            decreases i - j,
        {
            if steps[j].name == steps[i].name {
                proof {
                    assert(names[j as int] == names[i as int]);
                }
                return false;
            }
            j += 1;
        }
        i += 1;
    }
    true
}

/// Looks at the steps of a submission and, where nothing is wrong with
/// them, makes the plan to run them by.
pub fn plan_submission(steps: &Vec<StepSpec>) -> (planned: Result<Plan, SubmissionError>)
    ensures
        match planned {
            Ok(plan) => {
                &&& verdict(steps@).is_none()
                &&& plan.wf()
                &&& plan.names() == step_names(steps@)
                &&& plan.graph() == resolved(steps@)
            },
            Err(e) => verdict(steps@) == Some(e),
        },
{
    if !has_distinct_names(steps) {
        return Err(SubmissionError::DuplicateStep);
    }
    let n = steps.len();
    let ghost names = step_names(steps@);
    let mut plan_names: Vec<String> = Vec::new();
    let mut needs: Vec<Vec<usize>> = Vec::new();
    let mut s: usize = 0;
    while s < n
        invariant
            n == steps@.len(),
            names == step_names(steps@),
            names_distinct(names),
            s <= n,
            needs@.len() == s,
            plan_names@.len() == s,
            forall|i: int| 0 <= i < s ==> plan_names@[i]@ == names[i],
            forall|i: int|
                0 <= i < s ==> (#[trigger] needs@[i])@.len() == steps@[i].needs@.len(),
            forall|i: int, k: int|
                0 <= i < s && 0 <= k < steps@[i].needs@.len() ==> is_defined(
                    names,
                    #[trigger] steps@[i].needs@[k]@,
                ) && needs@[i]@[k] == place_of(names, steps@[i].needs@[k]@),
        decreases n - s,
    {
        let wanted = &steps[s].needs;
        let m = wanted.len();
        let mut places: Vec<usize> = Vec::new();
        let mut k: usize = 0;
        while k < m
            invariant
                n == steps@.len(),
                names == step_names(steps@),
                names_distinct(names),
                s < n,
                wanted == steps@[s as int].needs,
                m == wanted@.len(),
                k <= m,
                places@.len() == k,
                forall|j: int|
                    0 <= j < k ==> is_defined(names, #[trigger] wanted@[j]@) && places@[j]
                        == place_of(names, wanted@[j]@),
            decreases m - k,
        {
            match find_step(steps, &wanted[k]) {
                None => {
                    proof {
                        assert(!is_defined(names, steps@[s as int].needs@[k as int]@));
                        assert(!all_defined(steps@));
                    }
                    return Err(SubmissionError::UndefinedStep);
                },
                Some(at) => {
                    proof {
                        let name = wanted@[k as int]@;
                        assert(names[at as int] == name);
                        let chosen = place_of(names, name);
                        if chosen < at {
                            assert(names[chosen] != names[at as int]);
                        } else if at < chosen {
                            assert(names[at as int] != names[chosen]);
                        }
                    }
                    places.push(at);
                },
            }
            k += 1;
        }
        needs.push(places);
        plan_names.push(steps[s].name.clone());
        s += 1;
    }
    proof {
        assert(all_defined(steps@));
        assert forall|i: int| 0 <= i < n implies #[trigger] graph_of(needs@)[i] =~= resolved(steps@)[i] by {
            assert(needs@[i]@.len() == steps@[i].needs@.len());
            assert forall|k: int| 0 <= k < needs@[i]@.len() implies graph_of(needs@)[i][k]
                == resolved(steps@)[i][k] by {
                assert(is_defined(names, steps@[i].needs@[k]@));
            }
        }
        assert(graph_of(needs@) =~= resolved(steps@));
        assert forall|i: int, k: int|
            0 <= i < graph_of(needs@).len() && 0 <= k < graph_of(needs@)[i].len() implies 0
            <= #[trigger] graph_of(needs@)[i][k] < graph_of(needs@).len() by {
            assert(is_defined(names, steps@[i].needs@[k]@));
        }
        assert(plan_names@.map_values(|name: String| name@) =~= names);
    }
    match topological_order(&needs) {
        None => Err(SubmissionError::Cycle),
        Some(order) => Ok(Plan { names: plan_names, needs, order }),
    }
}

/// What the caller of a submission is told while it runs and when it is
/// over.
#[derive(Debug)]
pub enum SubmissionSignal<R> {
    /// The step named `step` has come to `status`.
    Progress { step: String, status: StepStatus },
    /// The submission is over; this is its report.
    Completed(R),
}

impl<R> SubmissionSignal<R> {
    pub open spec fn spec_is_progress(&self) -> bool {
        self is Progress
    }

    /// Whether the signal tells of a step, not of the end.
    #[verifier::when_used_as_spec(spec_is_progress)]
    pub fn is_progress(&self) -> (progress: bool)
        ensures
            progress == self.spec_is_progress(),
    {
        match self {
            SubmissionSignal::Progress { .. } => true,
            SubmissionSignal::Completed(_) => false,
        }
    }
}

/// The signal that tells of `progress` in the run `run`, the step called by
/// its name.
pub fn progress_signal<R>(run: &Execution, progress: Progress) -> (signal: SubmissionSignal<R>)
    requires
        run.wf(),
        progress.step < run.graph().len(),
    ensures
        signal is Progress,
        signal->step@ == run.names()[progress.step as int],
        signal->status == progress.status,
{
    SubmissionSignal::Progress {
        step: run.name_of(progress.step).clone(),
        status: progress.status,
    }
}

impl SubmissionError {
    pub open spec fn spec_message(self) -> Seq<char> {
        match self {
            SubmissionError::DuplicateStep => "Two steps have the same name"@,
            SubmissionError::UndefinedStep => "A step needs a step that is not defined"@,
            SubmissionError::Cycle => "The steps depend on each other in a cycle"@,
        }
    }

    /// The error in words.
    pub fn message(&self) -> (text: String)
        ensures
            text@ == self.spec_message(),
    {
        match self {
            SubmissionError::DuplicateStep => String::from_str("Two steps have the same name"),
            SubmissionError::UndefinedStep => String::from_str(
                "A step needs a step that is not defined",
            ),
            SubmissionError::Cycle => String::from_str("The steps depend on each other in a cycle"),
        }
    }
}

} // verus!
