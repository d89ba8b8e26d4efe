use lux_cli::install::{
    apply_build_behaviour, classify, decide, needs_confirmation, settle, BuildBehaviour, Decision,
    EntryType, InstallSpec, InstalledPackage, OptState, PackageReq, PinnedState, RockMatches,
};

fn req(name: &str) -> PackageReq {
    PackageReq { name: name.to_string(), version_req: ">= 1.0".to_string() }
}

fn installed(pinned: PinnedState, entrypoint: bool) -> InstalledPackage {
    InstalledPackage { pinned, entrypoint }
}

fn assert_spec(spec: &InstallSpec, name: &str, behaviour: BuildBehaviour, pin: PinnedState) {
    assert_eq!(spec.package.name, name);
    assert_eq!(spec.package.version_req, ">= 1.0");
    assert_eq!(spec.build_behaviour, behaviour);
    assert_eq!(spec.pin, pin);
    assert_eq!(spec.entry_type, EntryType::Entrypoint);
    assert_eq!(spec.opt, OptState::Required);
}

/// The user answers the overwrite question only where it is asked; the
/// answers of a scripted responder are read in order.
fn scripted_answers(
    installed: &Vec<Vec<InstalledPackage>>,
    pin: PinnedState,
    force: bool,
    script: &[bool],
) -> (Vec<bool>, usize) {
    let mut asked = 0;
    let answers = installed
        .iter()
        .map(|cands| {
            let d = decide(&classify(cands, pin), force);
            if needs_confirmation(d) {
                let a = script[asked];
                asked += 1;
                a
            } else {
                false
            }
        })
        .collect();
    (answers, asked)
}

#[test]
fn declined_overwrite_drops_entrypoint() {
    let pin = PinnedState::Unpinned;
    let tree = vec![vec![installed(PinnedState::Unpinned, true)], vec![]];
    let (answers, asked) = scripted_answers(&tree, pin, false, &[false]);
    assert_eq!(asked, 1);
    let out = apply_build_behaviour(vec![req("a"), req("b")], pin, false, &tree, &answers);
    assert_eq!(out.len(), 1);
    assert_spec(&out[0], "b", BuildBehaviour::Fresh, pin);
}

#[test]
fn confirmed_overwrite_forces_entrypoint() {
    let pin = PinnedState::Unpinned;
    let tree = vec![vec![installed(PinnedState::Unpinned, true)], vec![]];
    let (answers, asked) = scripted_answers(&tree, pin, false, &[true]);
    assert_eq!(asked, 1);
    let out = apply_build_behaviour(vec![req("a"), req("b")], pin, false, &tree, &answers);
    assert_eq!(out.len(), 2);
    assert_spec(&out[0], "a", BuildBehaviour::Force, pin);
    assert_spec(&out[1], "b", BuildBehaviour::Fresh, pin);
}

#[test]
fn dependency_only_is_forced_without_prompt() {
    let pin = PinnedState::Unpinned;
    let tree = vec![vec![installed(PinnedState::Unpinned, false)]];
    let (answers, asked) = scripted_answers(&tree, pin, false, &[]);
    assert_eq!(asked, 0);
    let out = apply_build_behaviour(vec![req("a")], pin, false, &tree, &answers);
    assert_eq!(out.len(), 1);
    assert_spec(&out[0], "a", BuildBehaviour::Force, pin);
}

#[test]
fn unmatched_is_fresh_without_prompt() {
    let pin = PinnedState::Pinned;
    // Installed, but with the other pin state: it does not count as a match.
    let tree = vec![vec![], vec![installed(PinnedState::Unpinned, true)]];
    let (answers, asked) = scripted_answers(&tree, pin, false, &[]);
    assert_eq!(asked, 0);
    let out = apply_build_behaviour(vec![req("a"), req("b")], pin, false, &tree, &answers);
    assert_eq!(out.len(), 2);
    assert_spec(&out[0], "a", BuildBehaviour::Fresh, pin);
    assert_spec(&out[1], "b", BuildBehaviour::Fresh, pin);
}

#[test]
fn force_always_forces_without_prompt() {
    let pin = PinnedState::Unpinned;
    let tree = vec![
        vec![],
        vec![installed(PinnedState::Unpinned, true)],
        vec![installed(PinnedState::Unpinned, false), installed(PinnedState::Unpinned, true)],
    ];
    let (answers, asked) = scripted_answers(&tree, pin, true, &[]);
    assert_eq!(asked, 0);
    let out = apply_build_behaviour(vec![req("a"), req("b"), req("c")], pin, true, &tree, &answers);
    assert_eq!(out.len(), 3);
    assert_spec(&out[0], "a", BuildBehaviour::Force, pin);
    assert_spec(&out[1], "b", BuildBehaviour::Force, pin);
    assert_spec(&out[2], "c", BuildBehaviour::Force, pin);
}

#[test]
fn many_matches_with_one_entrypoint_asks_once() {
    let pin = PinnedState::Unpinned;
    let tree = vec![vec![
        installed(PinnedState::Unpinned, false),
        installed(PinnedState::Unpinned, true),
    ]];
    let (answers, asked) = scripted_answers(&tree, pin, false, &[true]);
    assert_eq!(asked, 1);
    let out = apply_build_behaviour(vec![req("a")], pin, false, &tree, &answers);
    assert_eq!(out.len(), 1);
    assert_spec(&out[0], "a", BuildBehaviour::Force, pin);
}

#[test]
fn output_keeps_input_order() {
    let pin = PinnedState::Unpinned;
    let entry = vec![installed(PinnedState::Unpinned, true)];
    let dep = vec![installed(PinnedState::Unpinned, false)];
    let tree = vec![dep.clone(), entry.clone(), vec![], entry.clone(), dep.clone()];
    let answers = vec![false, false, false, true, false];
    let reqs = vec![req("a"), req("b"), req("c"), req("d"), req("e")];
    let out = apply_build_behaviour(reqs, pin, false, &tree, &answers);
    let names: Vec<&str> = out.iter().map(|s| s.package.name.as_str()).collect();
    assert_eq!(names, vec!["a", "c", "d", "e"]);
    assert_spec(&out[0], "a", BuildBehaviour::Force, pin);
    assert_spec(&out[1], "c", BuildBehaviour::Fresh, pin);
    assert_spec(&out[2], "d", BuildBehaviour::Force, pin);
    assert_spec(&out[3], "e", BuildBehaviour::Force, pin);

    // Resolving the two halves apart and joining the results gives the same.
    let first = apply_build_behaviour(
        vec![req("a"), req("b")],
        pin,
        false,
        &vec![dep.clone(), entry.clone()],
        &vec![false, false],
    );
    let second = apply_build_behaviour(
        vec![req("c"), req("d"), req("e")],
        pin,
        false,
        &vec![vec![], entry.clone(), dep.clone()],
        &vec![false, true, false],
    );
    let joined: Vec<&str> =
        first.iter().chain(second.iter()).map(|s| s.package.name.as_str()).collect();
    assert_eq!(joined, names);
}

#[test]
fn empty_request_list_gives_empty_plan() {
    let out = apply_build_behaviour(vec![], PinnedState::Pinned, false, &vec![], &vec![]);
    assert!(out.is_empty());
}

#[test]
fn classify_filters_by_pin_and_counts() {
    let none = classify(&vec![installed(PinnedState::Pinned, true)], PinnedState::Unpinned);
    assert!(matches!(none, RockMatches::NotFound));
    let one = classify(
        &vec![installed(PinnedState::Pinned, true), installed(PinnedState::Unpinned, false)],
        PinnedState::Unpinned,
    );
    assert!(matches!(one, RockMatches::Single(p) if p == installed(PinnedState::Unpinned, false)));
    let many = classify(
        &vec![
            installed(PinnedState::Pinned, true),
            installed(PinnedState::Pinned, false),
            installed(PinnedState::Unpinned, true),
        ],
        PinnedState::Pinned,
    );
    match many {
        RockMatches::Many(v) => assert_eq!(
            v,
            vec![installed(PinnedState::Pinned, true), installed(PinnedState::Pinned, false)]
        ),
        _ => panic!("expected several matches"),
    }
}

#[test]
fn decide_covers_each_branch() {
    let entry = installed(PinnedState::Unpinned, true);
    let dep = installed(PinnedState::Unpinned, false);
    assert_eq!(decide(&RockMatches::NotFound, false), Decision::Install(BuildBehaviour::Fresh));
    assert_eq!(decide(&RockMatches::NotFound, true), Decision::Install(BuildBehaviour::Force));
    assert_eq!(decide(&RockMatches::Single(dep), false), Decision::Install(BuildBehaviour::Force));
    assert_eq!(decide(&RockMatches::Single(entry), false), Decision::Ask);
    assert_eq!(decide(&RockMatches::Single(entry), true), Decision::Install(BuildBehaviour::Force));
    assert_eq!(
        decide(&RockMatches::Many(vec![dep, dep]), false),
        Decision::Install(BuildBehaviour::Force)
    );
    assert_eq!(decide(&RockMatches::Many(vec![dep, entry]), false), Decision::Ask);
}

#[test]
fn settle_reads_answer_only_when_asked() {
    assert_eq!(settle(Decision::Ask, true), Some(BuildBehaviour::Force));
    assert_eq!(settle(Decision::Ask, false), None);
    let fresh = Decision::Install(BuildBehaviour::Fresh);
    assert_eq!(settle(fresh, true), Some(BuildBehaviour::Fresh));
    assert_eq!(settle(fresh, false), Some(BuildBehaviour::Fresh));
    assert!(needs_confirmation(Decision::Ask));
    assert!(!needs_confirmation(fresh));
}
