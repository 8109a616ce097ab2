use monitor_runbook::{
    aggregate_responses, check_response, first_failure, names_to_ids, Action, Command,
    InvocationError, InvocationFailure, NameIndex, Namespace, ResourceEntry, RunError,
    Stage, StageRunner,
};

fn s(x: &str) -> String {
    x.to_string()
}

fn entry(name: &str, id: &str) -> ResourceEntry {
    ResourceEntry { name: s(name), id: s(id) }
}

fn strings(xs: &[&str]) -> Vec<String> {
    xs.iter().map(|x| s(x)).collect()
}

fn stage(name: &str, action: Action, targets: &[&str]) -> Stage {
    Stage { name: s(name), action, targets: strings(targets) }
}

/// A stand-in for the management service: it lists resources, answers each
/// invocation through `answer`, and records every call it receives.
struct MockService {
    builds: Vec<ResourceEntry>,
    deployments: Vec<ResourceEntry>,
    listing_calls: usize,
    calls: Vec<(Action, String)>,
}

impl MockService {
    fn new(builds: Vec<ResourceEntry>, deployments: Vec<ResourceEntry>) -> MockService {
        MockService { builds, deployments, listing_calls: 0, calls: Vec::new() }
    }

    fn list(&mut self, namespace: Namespace) -> NameIndex {
        self.listing_calls += 1;
        match namespace {
            Namespace::Builds => NameIndex::from_listing(self.builds.clone()),
            Namespace::Deployments => NameIndex::from_listing(self.deployments.clone()),
        }
    }

    fn run(
        &mut self,
        stages: Vec<Stage>,
        answer: &dyn Fn(Action, &str) -> Result<bool, String>,
    ) -> Result<(), RunError> {
        let builds = self.list(Namespace::Builds);
        let deployments = self.list(Namespace::Deployments);
        let mut runner = StageRunner::new(stages, builds, deployments);
        let mut cmd = runner.start();
        loop {
            match cmd {
                Command::Finish(result) => return result,
                Command::Dispatch { action, ids } => {
                    let mut responses = Vec::new();
                    for id in &ids {
                        self.calls.push((action, id.clone()));
                        responses.push(answer(action, id));
                    }
                    assert!(runner.awaits_report());
                    assert_eq!(responses.len(), runner.dispatched_count());
                    cmd = runner.report(&responses);
                }
            }
        }
    }

    fn count(&self, action: Action) -> usize {
        self.calls.iter().filter(|(a, _)| *a == action).count()
    }
}

fn always_ok(_: Action, _: &str) -> Result<bool, String> {
    Ok(true)
}

fn services() -> Vec<ResourceEntry> {
    vec![entry("svc-a", "id-a"), entry("svc-b", "id-b")]
}

#[test]
fn round_trip_preserves_order() {
    let index = NameIndex::from_listing(vec![entry("a", "1"), entry("b", "2")]);
    let ids = names_to_ids(&strings(&["b", "a"]), &index).unwrap();
    assert_eq!(ids, strings(&["2", "1"]));
}

#[test]
fn duplicate_names_resolve_independently() {
    let index = NameIndex::from_listing(vec![entry("a", "1"), entry("b", "2")]);
    let ids = names_to_ids(&strings(&["a", "b", "a"]), &index).unwrap();
    assert_eq!(ids, strings(&["1", "2", "1"]));
}

#[test]
fn empty_names_resolve_to_nothing() {
    let index = NameIndex::from_listing(vec![entry("a", "1")]);
    assert_eq!(names_to_ids(&Vec::new(), &index), Ok(Vec::new()));
}

#[test]
fn missing_name_is_reported() {
    let index = NameIndex::from_listing(vec![entry("a", "1")]);
    let err = names_to_ids(&strings(&["a", "zzz"]), &index).unwrap_err();
    assert_eq!(err.name, "zzz");
}

#[test]
fn first_missing_name_is_reported() {
    let index = NameIndex::from_listing(vec![entry("a", "1")]);
    let err = names_to_ids(&strings(&["x", "a", "y"]), &index).unwrap_err();
    assert_eq!(err.name, "x");
}

#[test]
fn later_listing_entry_wins() {
    let index = NameIndex::from_listing(vec![entry("a", "1"), entry("a", "9")]);
    assert_eq!(index.get(&s("a")), Some(s("9")));
    assert_eq!(index.get(&s("b")), None);
}

#[test]
fn action_tokens_and_namespaces() {
    assert_eq!(Action::Build.name(), "build");
    assert_eq!(Action::Deploy.name(), "deploy");
    assert_eq!(Action::StartContainer.name(), "start_container");
    assert_eq!(Action::StopContainer.name(), "stop_container");
    assert_eq!(Action::DestroyContainer.name(), "destroy_container");
    assert_eq!(Action::Build.namespace(), Namespace::Builds);
    assert_eq!(Action::Deploy.namespace(), Namespace::Deployments);
    assert_eq!(Action::StartContainer.namespace(), Namespace::Deployments);
    assert_eq!(Action::StopContainer.namespace(), Namespace::Deployments);
    assert_eq!(Action::DestroyContainer.namespace(), Namespace::Deployments);
}

#[test]
fn response_mapping() {
    let id = s("d1");
    assert_eq!(check_response(Action::Deploy, &id, &Ok(true)), Ok(()));
    assert_eq!(
        check_response(Action::Deploy, &id, &Ok(false)),
        Err(InvocationError {
            action: Action::Deploy,
            id: s("d1"),
            cause: InvocationFailure::Unsuccessful
        })
    );
    assert_eq!(
        check_response(Action::StopContainer, &id, &Err(s("connection reset"))),
        Err(InvocationError {
            action: Action::StopContainer,
            id: s("d1"),
            cause: InvocationFailure::Transport(s("connection reset"))
        })
    );
}

#[test]
fn first_failure_in_input_order() {
    let fail = |id: &str| {
        Err(InvocationError {
            action: Action::Build,
            id: s(id),
            cause: InvocationFailure::Unsuccessful,
        })
    };
    // t2 and t5 fail; whichever finished first, the slots are in input order.
    let mut slots: Vec<Option<Result<(), InvocationError>>> = vec![None, None, None, None, None];
    let completion_order = [4usize, 3, 2, 1, 0];
    for &i in &completion_order {
        slots[i] = Some(if i == 1 || i == 4 { fail(&format!("t{}", i + 1)) } else { Ok(()) });
    }
    let results: Vec<_> = slots.into_iter().map(|r| r.unwrap()).collect();
    assert_eq!(first_failure(results), fail("t2"));
    assert_eq!(first_failure(vec![Ok(()), Ok(())]), Ok(()));
    assert_eq!(first_failure(Vec::new()), Ok(()));
}

#[test]
fn aggregate_reports_first_failing_identifier() {
    let ids = strings(&["t1", "t2", "t3", "t4", "t5"]);
    let responses = vec![Ok(true), Err(s("timeout")), Ok(true), Ok(true), Ok(false)];
    assert_eq!(
        aggregate_responses(Action::StartContainer, &ids, &responses),
        Err(InvocationError {
            action: Action::StartContainer,
            id: s("t2"),
            cause: InvocationFailure::Transport(s("timeout"))
        })
    );
    let all_ok = vec![Ok(true); 5];
    assert_eq!(aggregate_responses(Action::StartContainer, &ids, &all_ok), Ok(()));
}

#[test]
fn empty_runbook_completes_without_calls() {
    let mut service = MockService::new(services(), services());
    assert_eq!(service.run(Vec::new(), &always_ok), Ok(()));
    assert!(service.calls.is_empty());
    assert_eq!(service.listing_calls, 2);
}

#[test]
fn new_runner_phase() {
    let empty = StageRunner::new(Vec::new(), NameIndex::from_listing(Vec::new()), NameIndex::from_listing(Vec::new()));
    assert!(!empty.awaits_report());
    let mut one = StageRunner::new(
        vec![stage("s", Action::Build, &["a"])],
        NameIndex::from_listing(vec![entry("a", "1")]),
        NameIndex::from_listing(Vec::new()),
    );
    assert_eq!(one.current_stage(), 0);
    assert_eq!(one.start(), Command::Dispatch { action: Action::Build, ids: strings(&["1"]) });
    assert!(one.awaits_report());
    assert_eq!(one.dispatched_count(), 1);
    assert_eq!(one.report(&vec![Ok(true)]), Command::Finish(Ok(())));
    assert_eq!(one.current_stage(), 1);
}

#[test]
fn build_then_deploy_succeeds() {
    let mut service = MockService::new(services(), services());
    let stages = vec![
        stage("build-all", Action::Build, &["svc-a", "svc-b"]),
        stage("go-live", Action::Deploy, &["svc-a", "svc-b"]),
    ];
    assert_eq!(service.run(stages, &always_ok), Ok(()));
    assert_eq!(service.calls.len(), 4);
    assert_eq!(service.count(Action::Build), 2);
    assert_eq!(service.count(Action::Deploy), 2);
    assert_eq!(service.listing_calls, 2);
}

#[test]
fn unsuccessful_build_halts_before_deploy() {
    let mut service = MockService::new(services(), services());
    let stages = vec![
        stage("build-all", Action::Build, &["svc-a", "svc-b"]),
        stage("go-live", Action::Deploy, &["svc-a", "svc-b"]),
    ];
    let answer = |action: Action, id: &str| Ok(!(action == Action::Build && id == "id-b"));
    let result = service.run(stages, &answer);
    assert_eq!(
        result,
        Err(RunError::Invocation {
            stage: s("build-all"),
            error: InvocationError {
                action: Action::Build,
                id: s("id-b"),
                cause: InvocationFailure::Unsuccessful
            }
        })
    );
    assert_eq!(service.count(Action::Build), 2);
    assert_eq!(service.count(Action::Deploy), 0);
}

#[test]
fn missing_target_fails_without_dispatch() {
    let mut service = MockService::new(services(), services());
    let stages = vec![
        stage("build-all", Action::Build, &["svc-a"]),
        stage("start", Action::StartContainer, &["svc-a", "svc-x"]),
        stage("stop", Action::StopContainer, &["svc-a"]),
    ];
    let result = service.run(stages, &always_ok);
    assert_eq!(
        result,
        Err(RunError::NameNotFound { stage: s("start"), name: s("svc-x") })
    );
    assert_eq!(service.count(Action::Build), 1);
    assert_eq!(service.count(Action::StartContainer), 0);
    assert_eq!(service.count(Action::StopContainer), 0);
}

#[test]
fn build_names_resolve_in_build_namespace() {
    let mut service = MockService::new(vec![entry("app", "b-1")], vec![entry("app", "d-1")]);
    let stages = vec![
        stage("b", Action::Build, &["app"]),
        stage("d", Action::DestroyContainer, &["app"]),
    ];
    assert_eq!(service.run(stages, &always_ok), Ok(()));
    assert_eq!(
        service.calls,
        vec![(Action::Build, s("b-1")), (Action::DestroyContainer, s("d-1"))]
    );
}

#[test]
fn transport_failure_at_middle_stage_halts_later_stages() {
    let mut service = MockService::new(services(), services());
    let stages = vec![
        stage("one", Action::Deploy, &["svc-a"]),
        stage("two", Action::StopContainer, &["svc-a", "svc-b"]),
        stage("three", Action::DestroyContainer, &["svc-a"]),
    ];
    let answer = |action: Action, _: &str| {
        if action == Action::StopContainer { Err(s("host down")) } else { Ok(true) }
    };
    let result = service.run(stages, &answer);
    assert_eq!(
        result,
        Err(RunError::Invocation {
            stage: s("two"),
            error: InvocationError {
                action: Action::StopContainer,
                id: s("id-a"),
                cause: InvocationFailure::Transport(s("host down"))
            }
        })
    );
    assert_eq!(service.count(Action::StopContainer), 2);
    assert_eq!(service.count(Action::DestroyContainer), 0);
}
