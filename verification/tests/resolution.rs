use std::cell::RefCell;

use runtime_entry::{
    Asset, EvaluatedEntry, Failure, FileSystemPath, Request, ResolutionContext, ResolutionError,
    ResolveOrigin, RuntimeEntries, RuntimeEntry,
};

type Entries = Result<Vec<EvaluatedEntry>, ResolutionError>;

/// Collaborators with fixed answers, which note what they were asked.
struct World {
    resolutions: Vec<(String, String, Result<Vec<Asset>, ResolutionError>)>,
    checks: Vec<(Asset, Result<Option<EvaluatedEntry>, ResolutionError>)>,
    resolver_asked: RefCell<Vec<(ResolutionContext, String, String)>>,
    check_asked: RefCell<Vec<Asset>>,
}

impl World {
    fn new() -> World {
        World {
            resolutions: Vec::new(),
            checks: Vec::new(),
            resolver_asked: RefCell::new(Vec::new()),
            check_asked: RefCell::new(Vec::new()),
        }
    }

    fn resolves(
        mut self,
        specifier: &str,
        path: &str,
        answer: Result<Vec<Asset>, ResolutionError>,
    ) -> World {
        self.resolutions.push((specifier.to_string(), path.to_string(), answer));
        self
    }

    fn evaluable(mut self, asset: Asset, entry: EvaluatedEntry) -> World {
        self.checks.push((asset, Ok(Some(entry))));
        self
    }

    fn not_evaluable(mut self, asset: Asset) -> World {
        self.checks.push((asset, Ok(None)));
        self
    }

    fn check_fails(mut self, asset: Asset, error: ResolutionError) -> World {
        self.checks.push((asset, Err(error)));
        self
    }

    fn resolve(
        &self,
        origin: &ResolveOrigin,
        request: &Request,
    ) -> Result<Vec<Asset>, ResolutionError> {
        let specifier = request.specifier().to_string();
        let path = origin.path.path.clone();
        self.resolver_asked
            .borrow_mut()
            .push((origin.context, specifier.clone(), path.clone()));
        for (known, from, answer) in &self.resolutions {
            if *known == specifier && *from == path {
                return answer.clone();
            }
        }
        panic!("the resolver was asked for {} from {}", specifier, path)
    }

    fn check(&self, asset: Asset) -> Result<Option<EvaluatedEntry>, ResolutionError> {
        self.check_asked.borrow_mut().push(asset);
        for (known, answer) in &self.checks {
            if *known == asset {
                return *answer;
            }
        }
        panic!("the check was asked about {:?}", asset)
    }

    fn resolve_entry(&self, entry: &RuntimeEntry, context: ResolutionContext) -> Entries {
        entry.resolve_entry(
            context,
            &|origin: &ResolveOrigin, request: &Request| self.resolve(origin, request),
            &|asset: Asset| self.check(asset),
        )
    }

    fn resolve_entries(&self, entries: &RuntimeEntries, context: ResolutionContext) -> Entries {
        entries.resolve_entries(
            context,
            &|origin: &ResolveOrigin, request: &Request| self.resolve(origin, request),
            &|asset: Asset| self.check(asset),
        )
    }

    fn resolver_asked(&self) -> Vec<(ResolutionContext, String, String)> {
        self.resolver_asked.borrow().clone()
    }

    fn check_asked(&self) -> Vec<Asset> {
        self.check_asked.borrow().clone()
    }
}

fn context(id: u64) -> ResolutionContext {
    ResolutionContext { id }
}

fn asset(id: u64) -> Asset {
    Asset { id }
}

fn entry(id: u64) -> EvaluatedEntry {
    EvaluatedEntry { id }
}

fn request(specifier: &str, path: &str) -> RuntimeEntry {
    RuntimeEntry::Request(
        Request::new(specifier.to_string()).unwrap(),
        FileSystemPath::new(path.to_string()),
    )
}

fn asked(context: ResolutionContext, specifier: &str, path: &str) -> (ResolutionContext, String, String) {
    (context, specifier.to_string(), path.to_string())
}

#[test]
fn evaluated_entry_resolves_to_itself() {
    let declaration = RuntimeEntry::Evaluated(entry(7));
    let world = World::new();
    assert_eq!(world.resolve_entry(&declaration, context(1)), Ok(vec![entry(7)]));
    assert!(world.resolver_asked().is_empty());
    assert!(world.check_asked().is_empty());
}

#[test]
fn evaluated_entry_resolves_alike_in_every_context() {
    let declaration = RuntimeEntry::Evaluated(entry(42));
    for id in [0, 1, 2, u64::MAX] {
        let world = World::new();
        assert_eq!(world.resolve_entry(&declaration, context(id)), Ok(vec![entry(42)]));
        assert!(world.resolver_asked().is_empty());
    }
}

#[test]
fn evaluated_entry_never_calls_a_collaborator() {
    let declaration = RuntimeEntry::Evaluated(entry(7));
    let result = declaration.resolve_entry(
        context(1),
        &|_: &ResolveOrigin, _: &Request| -> Result<Vec<Asset>, ResolutionError> {
            panic!("the resolver was called")
        },
        &|_: Asset| -> Result<Option<EvaluatedEntry>, ResolutionError> {
            panic!("the check was called")
        },
    );
    assert_eq!(result, Ok(vec![entry(7)]));
}

#[test]
fn request_asks_the_resolver_once_from_its_origin() {
    let declaration = request("./polyfill", "/src");
    let world = World::new()
        .resolves("./polyfill", "/src", Ok(vec![asset(1)]))
        .evaluable(asset(1), entry(11));
    assert_eq!(world.resolve_entry(&declaration, context(3)), Ok(vec![entry(11)]));
    assert_eq!(world.resolver_asked(), vec![asked(context(3), "./polyfill", "/src")]);
}

#[test]
fn request_keeps_the_resolvers_order() {
    let declaration = request("./polyfill", "/src");
    let world = World::new()
        .resolves("./polyfill", "/src", Ok(vec![asset(3), asset(1), asset(2)]))
        .evaluable(asset(1), entry(11))
        .evaluable(asset(2), entry(12))
        .evaluable(asset(3), entry(13));
    assert_eq!(
        world.resolve_entry(&declaration, context(1)),
        Ok(vec![entry(13), entry(11), entry(12)])
    );
    assert_eq!(world.check_asked(), vec![asset(3), asset(1), asset(2)]);
}

#[test]
fn request_with_one_candidate_gives_one_entry() {
    let declaration = request("react", "/app");
    let world = World::new()
        .resolves("react", "/app", Ok(vec![asset(5)]))
        .evaluable(asset(5), entry(50));
    assert_eq!(world.resolve_entry(&declaration, context(9)), Ok(vec![entry(50)]));
}

#[test]
fn request_keeps_a_candidate_that_comes_twice() {
    let declaration = request("./shim", "/src");
    let world = World::new()
        .resolves("./shim", "/src", Ok(vec![asset(1), asset(1)]))
        .evaluable(asset(1), entry(11));
    assert_eq!(
        world.resolve_entry(&declaration, context(1)),
        Ok(vec![entry(11), entry(11)])
    );
}

#[test]
fn request_with_unevaluable_candidate_fails() {
    let declaration = request("./polyfill", "/src");
    let world = World::new()
        .resolves("./polyfill", "/src", Ok(vec![asset(1), asset(2), asset(3)]))
        .evaluable(asset(1), entry(11))
        .not_evaluable(asset(2))
        .evaluable(asset(3), entry(13));
    assert_eq!(
        world.resolve_entry(&declaration, context(1)),
        Err(ResolutionError::NotEvaluable(asset(2)))
    );
    assert_eq!(world.check_asked(), vec![asset(1), asset(2)]);
}

#[test]
fn request_names_the_first_unevaluable_candidate() {
    let declaration = request("./polyfill", "/src");
    let world = World::new()
        .resolves("./polyfill", "/src", Ok(vec![asset(1), asset(2), asset(3)]))
        .not_evaluable(asset(1))
        .evaluable(asset(2), entry(12))
        .not_evaluable(asset(3));
    assert_eq!(
        world.resolve_entry(&declaration, context(1)),
        Err(ResolutionError::NotEvaluable(asset(1)))
    );
}

#[test]
fn request_with_unevaluable_last_candidate_fails() {
    let declaration = request("./polyfill", "/src");
    let world = World::new()
        .resolves("./polyfill", "/src", Ok(vec![asset(1), asset(2)]))
        .evaluable(asset(1), entry(11))
        .not_evaluable(asset(2));
    assert_eq!(
        world.resolve_entry(&declaration, context(1)),
        Err(ResolutionError::NotEvaluable(asset(2)))
    );
}

#[test]
fn request_with_only_an_unevaluable_candidate_fails() {
    let declaration = request("./styles.css", "/src");
    let world = World::new()
        .resolves("./styles.css", "/src", Ok(vec![asset(8)]))
        .not_evaluable(asset(8));
    assert_eq!(
        world.resolve_entry(&declaration, context(1)),
        Err(ResolutionError::NotEvaluable(asset(8)))
    );
}

#[test]
fn request_without_candidates_resolves_to_nothing() {
    let declaration = request("./nothing", "/src");
    let world = World::new().resolves("./nothing", "/src", Ok(vec![]));
    assert_eq!(world.resolve_entry(&declaration, context(1)), Ok(vec![]));
    assert!(world.check_asked().is_empty());
}

#[test]
fn resolver_failure_is_handed_on() {
    let declaration = request("./missing", "/src");
    let failure = ResolutionError::ResolveFailed(Failure { id: 4 });
    let world = World::new().resolves("./missing", "/src", Err(failure));
    assert_eq!(world.resolve_entry(&declaration, context(1)), Err(failure));
    assert!(world.check_asked().is_empty());
}

#[test]
fn lower_layer_failure_of_the_resolver_is_handed_on() {
    let declaration = request("./polyfill", "/src");
    let failure = ResolutionError::Propagated(Failure { id: 8 });
    let world = World::new().resolves("./polyfill", "/src", Err(failure));
    assert_eq!(world.resolve_entry(&declaration, context(1)), Err(failure));
}

#[test]
fn failure_of_the_check_is_handed_on() {
    let declaration = request("./polyfill", "/src");
    let failure = ResolutionError::Propagated(Failure { id: 9 });
    let world = World::new()
        .resolves("./polyfill", "/src", Ok(vec![asset(1), asset(2), asset(3)]))
        .evaluable(asset(1), entry(11))
        .check_fails(asset(2), failure)
        .not_evaluable(asset(3));
    assert_eq!(world.resolve_entry(&declaration, context(1)), Err(failure));
    assert_eq!(world.check_asked(), vec![asset(1), asset(2)]);
}

#[test]
fn resolving_twice_gives_identical_results() {
    let declaration = request("./polyfill", "/src");
    let world = World::new()
        .resolves("./polyfill", "/src", Ok(vec![asset(1), asset(2)]))
        .evaluable(asset(1), entry(11))
        .evaluable(asset(2), entry(12));
    let first = world.resolve_entry(&declaration, context(1));
    let second = world.resolve_entry(&declaration, context(1));
    assert_eq!(first, Ok(vec![entry(11), entry(12)]));
    assert_eq!(first, second);
}

#[test]
fn failing_twice_gives_identical_failures() {
    let declaration = request("./polyfill", "/src");
    let world = World::new()
        .resolves("./polyfill", "/src", Ok(vec![asset(1), asset(2)]))
        .evaluable(asset(1), entry(11))
        .not_evaluable(asset(2));
    let first = world.resolve_entry(&declaration, context(1));
    let second = world.resolve_entry(&declaration, context(1));
    assert_eq!(first, Err(ResolutionError::NotEvaluable(asset(2))));
    assert_eq!(first, second);
}

#[test]
fn list_concatenates_in_declaration_order() {
    let list = RuntimeEntries(vec![
        request("./one", "/src"),
        request("./two", "/src"),
        request("./three", "/src"),
    ]);
    let world = World::new()
        .resolves("./one", "/src", Ok(vec![asset(1)]))
        .resolves("./two", "/src", Ok(vec![asset(2), asset(3)]))
        .resolves("./three", "/src", Ok(vec![asset(4)]))
        .evaluable(asset(1), entry(101))
        .evaluable(asset(2), entry(102))
        .evaluable(asset(3), entry(103))
        .evaluable(asset(4), entry(104));
    assert_eq!(
        world.resolve_entries(&list, context(1)),
        Ok(vec![entry(101), entry(102), entry(103), entry(104)])
    );
}

#[test]
fn list_of_evaluated_entry_and_request() {
    let list = RuntimeEntries(vec![
        RuntimeEntry::Evaluated(entry(1)),
        request("./polyfill", "/src"),
    ]);
    let world = World::new()
        .resolves("./polyfill", "/src", Ok(vec![asset(10), asset(20)]))
        .evaluable(asset(10), entry(110))
        .evaluable(asset(20), entry(120));
    assert_eq!(
        world.resolve_entries(&list, context(1)),
        Ok(vec![entry(1), entry(110), entry(120)])
    );
}

#[test]
fn list_with_unevaluable_candidate_returns_no_entries() {
    let list = RuntimeEntries(vec![
        RuntimeEntry::Evaluated(entry(1)),
        request("./polyfill", "/src"),
    ]);
    let world = World::new()
        .resolves("./polyfill", "/src", Ok(vec![asset(10), asset(20)]))
        .evaluable(asset(10), entry(110))
        .not_evaluable(asset(20));
    assert_eq!(
        world.resolve_entries(&list, context(1)),
        Err(ResolutionError::NotEvaluable(asset(20)))
    );
}

#[test]
fn list_stops_at_the_first_failure() {
    let list = RuntimeEntries(vec![
        request("./one", "/src"),
        request("./two", "/src"),
        request("./three", "/src"),
    ]);
    let world = World::new()
        .resolves("./one", "/src", Ok(vec![asset(1)]))
        .resolves("./two", "/src", Ok(vec![asset(2)]))
        .resolves("./three", "/src", Ok(vec![asset(3)]))
        .evaluable(asset(1), entry(101))
        .not_evaluable(asset(2))
        .evaluable(asset(3), entry(103));
    assert_eq!(
        world.resolve_entries(&list, context(1)),
        Err(ResolutionError::NotEvaluable(asset(2)))
    );
    assert_eq!(
        world.resolver_asked(),
        vec![asked(context(1), "./one", "/src"), asked(context(1), "./two", "/src")]
    );
    assert_eq!(world.check_asked(), vec![asset(1), asset(2)]);
}

#[test]
fn list_reports_the_first_of_two_failures() {
    let first = ResolutionError::ResolveFailed(Failure { id: 1 });
    let second = ResolutionError::ResolveFailed(Failure { id: 2 });
    let list = RuntimeEntries(vec![request("./one", "/src"), request("./two", "/src")]);
    let world = World::new()
        .resolves("./one", "/src", Err(first))
        .resolves("./two", "/src", Err(second));
    assert_eq!(world.resolve_entries(&list, context(1)), Err(first));
    assert_eq!(world.resolver_asked(), vec![asked(context(1), "./one", "/src")]);
}

#[test]
fn list_that_fails_at_its_first_declaration() {
    let failure = ResolutionError::Propagated(Failure { id: 3 });
    let list = RuntimeEntries(vec![
        request("./one", "/src"),
        RuntimeEntry::Evaluated(entry(1)),
    ]);
    let world = World::new().resolves("./one", "/src", Err(failure));
    assert_eq!(world.resolve_entries(&list, context(1)), Err(failure));
}

#[test]
fn list_that_fails_at_its_last_declaration() {
    let list = RuntimeEntries(vec![
        RuntimeEntry::Evaluated(entry(1)),
        RuntimeEntry::Evaluated(entry(2)),
        request("./last", "/src"),
    ]);
    let world = World::new()
        .resolves("./last", "/src", Ok(vec![asset(9)]))
        .not_evaluable(asset(9));
    assert_eq!(
        world.resolve_entries(&list, context(1)),
        Err(ResolutionError::NotEvaluable(asset(9)))
    );
}

#[test]
fn empty_list_resolves_to_nothing() {
    let list = RuntimeEntries(vec![]);
    let world = World::new();
    assert_eq!(world.resolve_entries(&list, context(1)), Ok(vec![]));
    assert!(world.resolver_asked().is_empty());
}

#[test]
fn list_of_evaluated_entries_calls_no_collaborator() {
    let list = RuntimeEntries(vec![
        RuntimeEntry::Evaluated(entry(3)),
        RuntimeEntry::Evaluated(entry(1)),
        RuntimeEntry::Evaluated(entry(2)),
    ]);
    let world = World::new();
    assert_eq!(
        world.resolve_entries(&list, context(1)),
        Ok(vec![entry(3), entry(1), entry(2)])
    );
    assert!(world.resolver_asked().is_empty());
    assert!(world.check_asked().is_empty());
}

#[test]
fn list_keeps_a_declaration_that_comes_twice() {
    let list = RuntimeEntries(vec![
        request("./polyfill", "/src"),
        RuntimeEntry::Evaluated(entry(1)),
        request("./polyfill", "/src"),
        RuntimeEntry::Evaluated(entry(1)),
    ]);
    let world = World::new()
        .resolves("./polyfill", "/src", Ok(vec![asset(10), asset(20)]))
        .evaluable(asset(10), entry(110))
        .evaluable(asset(20), entry(120));
    assert_eq!(
        world.resolve_entries(&list, context(1)),
        Ok(vec![entry(110), entry(120), entry(1), entry(110), entry(120), entry(1)])
    );
}

#[test]
fn list_with_a_declaration_without_candidates() {
    let list = RuntimeEntries(vec![
        RuntimeEntry::Evaluated(entry(1)),
        request("./nothing", "/src"),
        RuntimeEntry::Evaluated(entry(2)),
    ]);
    let world = World::new().resolves("./nothing", "/src", Ok(vec![]));
    assert_eq!(world.resolve_entries(&list, context(1)), Ok(vec![entry(1), entry(2)]));
}

#[test]
fn list_hands_its_context_to_each_declaration() {
    let list = RuntimeEntries(vec![request("./one", "/a"), request("./two", "/b")]);
    let world = World::new()
        .resolves("./one", "/a", Ok(vec![asset(1)]))
        .resolves("./two", "/b", Ok(vec![asset(2)]))
        .evaluable(asset(1), entry(101))
        .evaluable(asset(2), entry(102));
    assert_eq!(
        world.resolve_entries(&list, context(77)),
        Ok(vec![entry(101), entry(102)])
    );
    assert_eq!(
        world.resolver_asked(),
        vec![asked(context(77), "./one", "/a"), asked(context(77), "./two", "/b")]
    );
}

#[test]
fn resolving_a_list_twice_gives_identical_results() {
    let list = RuntimeEntries(vec![
        RuntimeEntry::Evaluated(entry(1)),
        request("./polyfill", "/src"),
    ]);
    let world = World::new()
        .resolves("./polyfill", "/src", Ok(vec![asset(10)]))
        .evaluable(asset(10), entry(110));
    let first = world.resolve_entries(&list, context(1));
    let second = world.resolve_entries(&list, context(1));
    assert_eq!(first, Ok(vec![entry(1), entry(110)]));
    assert_eq!(first, second);
}
