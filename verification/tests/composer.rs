use seele::composer::execution::{Execution, ExecutionError, Progress};
use seele::composer::graph::topological_order;
use seele::composer::{plan_submission, Plan, StepSpec, SubmissionError};
use seele::entities::StepStatus;
use seele::entities::StepStatus::{Failed, Pending, Running, Skipped, Success};

fn step(name: &str, needs: &[&str]) -> StepSpec {
    StepSpec { name: name.to_string(), needs: needs.iter().map(|n| n.to_string()).collect() }
}

fn told(step: usize, status: StepStatus) -> Progress {
    Progress { step, status }
}

/// prepare <- compile <- run <- compare, and prepare <- lint, and alone.
fn pipeline() -> Plan {
    plan_submission(&vec![
        step("compare", &["run"]),
        step("prepare", &[]),
        step("run", &["compile", "prepare"]),
        step("compile", &["prepare"]),
        step("lint", &["prepare"]),
        step("alone", &[]),
    ])
    .ok()
    .unwrap()
}

fn statuses(run: &Execution) -> Vec<StepStatus> {
    (0..run.len()).map(|s| run.status(s)).collect()
}

#[test]
fn plan_resolves_names_to_places() {
    let plan = pipeline();
    assert_eq!(plan.len(), 6);
    assert_eq!(plan.name_of(0), "compare");
    assert_eq!(plan.name_of(3), "compile");
    assert_eq!(plan.needs_of(0), &vec![2]);
    assert_eq!(plan.needs_of(1), &Vec::<usize>::new());
    assert_eq!(plan.needs_of(2), &vec![3, 1]);
    assert_eq!(plan.needs_of(3), &vec![1]);
}

#[test]
fn plan_order_puts_needs_first() {
    let plan = pipeline();
    let order = (0..plan.len()).map(|at| plan.order_at(at)).collect::<Vec<_>>();
    let mut seen = order.clone();
    seen.sort();
    assert_eq!(seen, vec![0, 1, 2, 3, 4, 5]);
    for (at, s) in order.iter().enumerate() {
        for need in plan.needs_of(*s) {
            assert!(order[..at].contains(need));
        }
    }
}

#[test]
fn plan_rejects_duplicate_names() {
    let planned = plan_submission(&vec![step("a", &[]), step("b", &["zzz"]), step("a", &["a"])]);
    assert_eq!(planned.err(), Some(SubmissionError::DuplicateStep));
}

#[test]
fn plan_rejects_undefined_steps() {
    let planned = plan_submission(&vec![step("a", &[]), step("b", &["a", "c"])]);
    assert_eq!(planned.err(), Some(SubmissionError::UndefinedStep));
    let planned = plan_submission(&vec![step("a", &["a", "nope"])]);
    assert_eq!(planned.err(), Some(SubmissionError::UndefinedStep));
}

#[test]
fn plan_rejects_cycles() {
    let planned = plan_submission(&vec![step("a", &["a"])]);
    assert_eq!(planned.err(), Some(SubmissionError::Cycle));
    let planned =
        plan_submission(&vec![step("a", &["c"]), step("b", &["a"]), step("c", &["b"]), step("d", &[])]);
    assert_eq!(planned.err(), Some(SubmissionError::Cycle));
}

#[test]
fn plan_accepts_nothing_and_repeated_needs() {
    assert!(plan_submission(&vec![]).is_ok());
    let plan = plan_submission(&vec![step("a", &[]), step("b", &["a", "a"])]).ok().unwrap();
    assert_eq!(plan.needs_of(1), &vec![0, 0]);
}

#[test]
fn submission_errors_in_words() {
    assert_eq!(SubmissionError::DuplicateStep.message(), "Two steps have the same name");
    assert_eq!(
        SubmissionError::UndefinedStep.message(),
        "A step needs a step that is not defined"
    );
    assert_eq!(SubmissionError::Cycle.message(), "The steps depend on each other in a cycle");
}

#[test]
fn topological_order_of_plain_graphs() {
    assert_eq!(topological_order(&vec![]), Some(vec![]));
    assert_eq!(topological_order(&vec![vec![1], vec![2], vec![]]), Some(vec![2, 1, 0]));
    assert_eq!(topological_order(&vec![vec![], vec![0], vec![0, 1]]), Some(vec![0, 1, 2]));
    assert_eq!(topological_order(&vec![vec![1], vec![0]]), None);
    assert_eq!(topological_order(&vec![vec![], vec![1]]), None);
}

#[test]
fn run_goes_step_by_step() {
    let mut run = Execution::new(pipeline());
    assert_eq!(statuses(&run), vec![Pending; 6]);
    assert!(!run.is_finished());

    assert_eq!(run.launch_ready(), vec![1, 5]);
    assert_eq!(statuses(&run), vec![Pending, Running, Pending, Pending, Pending, Running]);
    assert_eq!(run.launch_ready(), Vec::<usize>::new());

    assert_eq!(run.report(1, true), Ok(vec![told(1, Success)]));
    assert_eq!(run.launch_ready(), vec![3, 4]);
    assert_eq!(run.report(5, true), Ok(vec![told(5, Success)]));
    assert_eq!(run.report(4, true), Ok(vec![told(4, Success)]));
    assert_eq!(run.launch_ready(), Vec::<usize>::new());
    assert_eq!(run.report(3, true), Ok(vec![told(3, Success)]));
    assert_eq!(run.launch_ready(), vec![2]);
    assert_eq!(run.report(2, true), Ok(vec![told(2, Success)]));
    assert_eq!(run.launch_ready(), vec![0]);
    assert!(!run.is_finished());
    assert_eq!(run.report(0, true), Ok(vec![told(0, Success)]));
    assert!(run.is_finished());
    assert_eq!(statuses(&run), vec![Success; 6]);
    assert_eq!(run.name_of(2), "run");
}

#[test]
fn failure_skips_all_that_waits_for_it_and_nothing_else() {
    let mut run = Execution::new(pipeline());
    assert_eq!(run.launch_ready(), vec![1, 5]);
    assert_eq!(run.report(1, true), Ok(vec![told(1, Success)]));
    assert_eq!(run.launch_ready(), vec![3, 4]);

    let progress = run.report(3, false).unwrap();
    assert_eq!(progress, vec![told(3, Failed), told(2, Skipped), told(0, Skipped)]);
    assert_eq!(statuses(&run), vec![Skipped, Success, Skipped, Failed, Running, Running]);
    assert!(!run.is_finished());

    assert_eq!(run.launch_ready(), Vec::<usize>::new());
    assert_eq!(run.report(4, true), Ok(vec![told(4, Success)]));
    assert_eq!(run.report(5, false), Ok(vec![told(5, Failed)]));
    assert!(run.is_finished());
    assert_eq!(statuses(&run), vec![Skipped, Success, Skipped, Failed, Success, Failed]);
    assert_ne!(run.status(0), Pending);
}

#[test]
fn failure_of_the_root_skips_everything_downstream() {
    let mut run = Execution::new(pipeline());
    assert_eq!(run.launch_ready(), vec![1, 5]);
    let progress = run.report(1, false).unwrap();
    assert_eq!(progress[0], told(1, Failed));
    let mut skipped = progress[1..].iter().map(|p| p.step).collect::<Vec<_>>();
    assert!(progress[1..].iter().all(|p| p.status == Skipped));
    let position = |s: usize| skipped.iter().position(|x| *x == s).unwrap();
    assert!(position(3) < position(2));
    assert!(position(2) < position(0));
    skipped.sort();
    assert_eq!(skipped, vec![0, 2, 3, 4]);
    assert_eq!(statuses(&run), vec![Skipped, Failed, Skipped, Skipped, Skipped, Running]);
}

#[test]
fn report_on_a_step_that_is_not_running_is_refused() {
    let mut run = Execution::new(pipeline());
    assert_eq!(run.report(1, true), Err(ExecutionError::NotRunning));
    assert_eq!(run.report(6, true), Err(ExecutionError::NotRunning));
    assert_eq!(run.launch_ready(), vec![1, 5]);
    assert_eq!(run.report(1, true).map(|p| p.len()), Ok(1));
    assert_eq!(run.report(1, false), Err(ExecutionError::NotRunning));
    assert_eq!(run.report(0, false), Err(ExecutionError::NotRunning));
    assert_eq!(run.status(1), StepStatus::Success);
}

#[test]
fn empty_run_is_finished_at_once() {
    let mut run = Execution::new(plan_submission(&vec![]).ok().unwrap());
    assert!(run.is_finished());
    assert_eq!(run.launch_ready(), Vec::<usize>::new());
    assert_eq!(run.len(), 0);
}

#[test]
fn status_classes() {
    assert_eq!(
        [Pending, Running, Success, Failed, Skipped].map(|s| s.is_active()),
        [false, true, true, true, false]
    );
    assert_eq!(
        [Pending, Running, Success, Failed, Skipped].map(|s| s.is_lost()),
        [false, false, false, true, true]
    );
    assert_eq!(
        [Pending, Running, Success, Failed, Skipped].map(|s| s.is_settled()),
        [false, false, true, true, true]
    );
}
