use runtime_entry::{
    Asset, EntriesStep, EntryStep, EvaluatedEntry, Failure, FileSystemPath, Request,
    ResolutionContext, ResolutionError, RuntimeEntries, RuntimeEntry,
};

fn context(id: u64) -> ResolutionContext {
    ResolutionContext { id }
}

fn asset(id: u64) -> Asset {
    Asset { id }
}

fn entry(id: u64) -> EvaluatedEntry {
    EvaluatedEntry { id }
}

fn request(specifier: &str, path: &str) -> RuntimeEntry {
    RuntimeEntry::Request(
        Request::new(specifier.to_string()).unwrap(),
        FileSystemPath::new(path.to_string()),
    )
}

#[test]
fn evaluated_entry_is_finished_at_its_first_step() {
    let declaration = RuntimeEntry::Evaluated(entry(7));
    assert_eq!(declaration.start(context(1)), EntryStep::Finished(Ok(vec![entry(7)])));
    assert_eq!(declaration.start(context(2)), EntryStep::Finished(Ok(vec![entry(7)])));
}

#[test]
fn request_starts_with_the_resolver() {
    let declaration = request("./polyfill", "/src");
    match declaration.start(context(3)) {
        EntryStep::Resolve(waiting) => {
            assert_eq!(waiting.origin().context, context(3));
            assert_eq!(waiting.origin().path.path, "/src");
            assert_eq!(waiting.request().specifier(), "./polyfill");
        }
        other => panic!("{:?}", other),
    }
}

#[test]
fn check_steps_name_each_candidate_in_turn() {
    let declaration = request("./polyfill", "/src");
    let waiting = match declaration.start(context(1)) {
        EntryStep::Resolve(waiting) => waiting,
        other => panic!("{:?}", other),
    };
    let first = match waiting.resolved(Ok(vec![asset(1), asset(2)])) {
        EntryStep::Check(first) => first,
        other => panic!("{:?}", other),
    };
    assert_eq!(first.asset(), asset(1));
    let second = match first.checked(Ok(Some(entry(11)))) {
        EntryStep::Check(second) => second,
        other => panic!("{:?}", other),
    };
    assert_eq!(second.asset(), asset(2));
    assert_eq!(
        second.checked(Ok(Some(entry(12)))),
        EntryStep::Finished(Ok(vec![entry(11), entry(12)]))
    );
}

#[test]
fn unevaluable_candidate_finishes_the_steps() {
    let declaration = request("./polyfill", "/src");
    let waiting = match declaration.start(context(1)) {
        EntryStep::Resolve(waiting) => waiting,
        other => panic!("{:?}", other),
    };
    let first = match waiting.resolved(Ok(vec![asset(1), asset(2), asset(3)])) {
        EntryStep::Check(first) => first,
        other => panic!("{:?}", other),
    };
    let second = match first.checked(Ok(Some(entry(11)))) {
        EntryStep::Check(second) => second,
        other => panic!("{:?}", other),
    };
    assert_eq!(
        second.checked(Ok(None)),
        EntryStep::Finished(Err(ResolutionError::NotEvaluable(asset(2))))
    );
}

#[test]
fn failed_check_finishes_the_steps() {
    let declaration = request("./polyfill", "/src");
    let failure = ResolutionError::Propagated(Failure { id: 6 });
    let waiting = match declaration.start(context(1)) {
        EntryStep::Resolve(waiting) => waiting,
        other => panic!("{:?}", other),
    };
    let first = match waiting.resolved(Ok(vec![asset(1), asset(2)])) {
        EntryStep::Check(first) => first,
        other => panic!("{:?}", other),
    };
    assert_eq!(first.checked(Err(failure)), EntryStep::Finished(Err(failure)));
}

#[test]
fn resolver_without_candidates_finishes_the_steps() {
    let declaration = request("./nothing", "/src");
    let waiting = match declaration.start(context(1)) {
        EntryStep::Resolve(waiting) => waiting,
        other => panic!("{:?}", other),
    };
    assert_eq!(waiting.resolved(Ok(vec![])), EntryStep::Finished(Ok(vec![])));
}

#[test]
fn failed_resolver_finishes_the_steps() {
    let declaration = request("./missing", "/src");
    let failure = ResolutionError::ResolveFailed(Failure { id: 2 });
    let waiting = match declaration.start(context(1)) {
        EntryStep::Resolve(waiting) => waiting,
        other => panic!("{:?}", other),
    };
    assert_eq!(waiting.resolved(Err(failure)), EntryStep::Finished(Err(failure)));
}

#[test]
fn list_steps_ask_for_each_declaration_in_turn() {
    let list = RuntimeEntries(vec![
        RuntimeEntry::Evaluated(entry(1)),
        request("./two", "/src"),
        RuntimeEntry::Evaluated(entry(3)),
    ]);
    let first = match list.start(context(5)) {
        EntriesStep::Resolve(first) => first,
        other => panic!("{:?}", other),
    };
    assert_eq!(first.index(), 0);
    assert_eq!(first.context(), context(5));
    assert_eq!(*first.entry(), RuntimeEntry::Evaluated(entry(1)));
    let second = match first.resolved(Ok(vec![entry(1)])) {
        EntriesStep::Resolve(second) => second,
        other => panic!("{:?}", other),
    };
    assert_eq!(second.index(), 1);
    assert_eq!(second.context(), context(5));
    assert_eq!(*second.entry(), request("./two", "/src"));
    let third = match second.resolved(Ok(vec![entry(21), entry(22)])) {
        EntriesStep::Resolve(third) => third,
        other => panic!("{:?}", other),
    };
    assert_eq!(third.index(), 2);
    assert_eq!(*third.entry(), RuntimeEntry::Evaluated(entry(3)));
    assert_eq!(
        third.resolved(Ok(vec![entry(3)])),
        EntriesStep::Finished(Ok(vec![entry(1), entry(21), entry(22), entry(3)]))
    );
}

#[test]
fn list_failure_step_is_the_last() {
    let list = RuntimeEntries(vec![
        RuntimeEntry::Evaluated(entry(1)),
        RuntimeEntry::Evaluated(entry(2)),
        RuntimeEntry::Evaluated(entry(3)),
    ]);
    let failure = ResolutionError::Propagated(Failure { id: 5 });
    let first = match list.start(context(1)) {
        EntriesStep::Resolve(first) => first,
        other => panic!("{:?}", other),
    };
    let second = match first.resolved(Ok(vec![entry(1)])) {
        EntriesStep::Resolve(second) => second,
        other => panic!("{:?}", other),
    };
    assert_eq!(second.resolved(Err(failure)), EntriesStep::Finished(Err(failure)));
}

#[test]
fn empty_list_is_finished_at_its_first_step() {
    let list = RuntimeEntries(vec![]);
    assert_eq!(list.start(context(1)), EntriesStep::Finished(Ok(vec![])));
}

#[test]
fn list_step_takes_a_declaration_without_entries() {
    let list = RuntimeEntries(vec![request("./nothing", "/src"), RuntimeEntry::Evaluated(entry(2))]);
    let first = match list.start(context(1)) {
        EntriesStep::Resolve(first) => first,
        other => panic!("{:?}", other),
    };
    let second = match first.resolved(Ok(vec![])) {
        EntriesStep::Resolve(second) => second,
        other => panic!("{:?}", other),
    };
    assert_eq!(second.index(), 1);
    assert_eq!(second.resolved(Ok(vec![entry(2)])), EntriesStep::Finished(Ok(vec![entry(2)])));
}

#[test]
fn steps_and_direct_resolution_agree() {
    let declaration = request("./polyfill", "/src");
    let answers = [Some(entry(11)), Some(entry(12)), None];
    let direct = declaration.resolve_entry(
        context(1),
        &|_: &runtime_entry::ResolveOrigin, _: &Request| Ok(vec![asset(0), asset(1), asset(2)]),
        &|asked: Asset| Ok(answers[asked.id as usize]),
    );
    let mut step = declaration.start(context(1));
    let stepped = loop {
        step = match step {
            EntryStep::Resolve(waiting) => waiting.resolved(Ok(vec![asset(0), asset(1), asset(2)])),
            EntryStep::Check(waiting) => {
                let answer = answers[waiting.asset().id as usize];
                waiting.checked(Ok(answer))
            }
            EntryStep::Finished(result) => break result,
        };
    };
    assert_eq!(direct, Err(ResolutionError::NotEvaluable(asset(2))));
    assert_eq!(direct, stepped);
}
