//! Turning a list of package requirements into install specifications with
//! the right build behaviour.

use vstd::prelude::*;

verus! {

/// Whether an installed package is protected from version drift.
#[derive(PartialEq, Eq, Structural, Clone, Copy, Debug)]
pub enum PinnedState {
    Unpinned,
    Pinned,
}

/// What to do with a package that is to be installed.
#[derive(PartialEq, Eq, Structural, Clone, Copy, Debug)]
pub enum BuildBehaviour {
    /// Install the package; nothing of it is present yet.
    Fresh,
    /// Rebuild and reinstall the package even where it is present.
    Force,
}

/// Whether a package was asked for by the user or pulled in by another one.
#[derive(PartialEq, Eq, Structural, Clone, Copy, Debug)]
pub enum EntryType {
    Entrypoint,
    DependencyOnly,
}

/// Whether a package must be installed or may be left out.
#[derive(PartialEq, Eq, Structural, Clone, Copy, Debug)]
pub enum OptState {
    Required,
    Optional,
}

/// A package name together with a version constraint, such as `foo >= 1.0`.
#[derive(Clone, Debug)]
pub struct PackageReq {
    pub name: String,
    pub version_req: String,
}

/// What the installation record knows of one installed package that
/// satisfies a requirement.
#[derive(PartialEq, Eq, Structural, Clone, Copy, Debug)]
pub struct InstalledPackage {
    /// The pin state it was installed with.
    pub pinned: PinnedState,
    /// Whether it is a top-level installation rather than a dependency.
    pub entrypoint: bool,
}

/// The installed packages that satisfy a requirement under the pin state
/// being resolved.
#[derive(Clone, Debug)]
pub enum RockMatches {
    NotFound,
    Single(InstalledPackage),
    /// Several installed versions or variants; always two or more.
    Many(Vec<InstalledPackage>),
}

/// The choice made for one requirement before the user is heard.
#[derive(PartialEq, Eq, Structural, Clone, Copy, Debug)]
pub enum Decision {
    /// Install with this behaviour, without asking.
    Install(BuildBehaviour),
    /// The package is already installed as an entrypoint: ask whether to
    /// overwrite it.
    Ask,
}

/// One unit of work handed to the installer.
///
/// Where several installed packages match the requirement, one
/// specification stands for the requirement; the installer reinstalls what
/// the requirement resolves to.
#[derive(Clone, Debug)]
pub struct InstallSpec {
    pub package: PackageReq,
    pub build_behaviour: BuildBehaviour,
    pub pin: PinnedState,
    pub entry_type: EntryType,
    pub opt: OptState,
}

impl RockMatches {
    /// The matched packages, in the order the record gave them.
    pub open spec fn view(self) -> Seq<InstalledPackage> {
        match self {
            RockMatches::NotFound => seq![],
            RockMatches::Single(p) => seq![p],
            RockMatches::Many(v) => v@,
        }
    }

    /// Each variant holds the number of packages its name says.
    pub open spec fn wf(self) -> bool {
        match self {
            RockMatches::Many(v) => v@.len() >= 2,
            _ => true,
        }
    }
}

/// The candidates whose pin state equals `pin`, in their order.
pub open spec fn pinned_matches(cands: Seq<InstalledPackage>, pin: PinnedState) -> Seq<
    InstalledPackage,
>
    decreases cands.len(),
{
    if cands.len() == 0 {
        seq![]
    } else {
        let rest = pinned_matches(cands.drop_last(), pin);
        if cands.last().pinned == pin {
            rest.push(cands.last())
        } else {
            rest
        }
    }
}

/// Some matched package is an entrypoint.
pub open spec fn has_entrypoint(matched: Seq<InstalledPackage>) -> bool {
    exists|i: int| 0 <= i < matched.len() && #[trigger] matched[i].entrypoint
}

/// A reinstall is forced when the caller asks for it, or when the package is
/// present only as a dependency of others: its layout may then differ from
/// that of a direct install.
pub open spec fn effective_force(matched: Seq<InstalledPackage>, force: bool) -> bool {
    force || (matched.len() > 0 && !has_entrypoint(matched))
}

/// What is decided for a requirement from its matches alone.
pub open spec fn decision(matched: Seq<InstalledPackage>, force: bool) -> Decision {
    if effective_force(matched, force) {
        Decision::Install(BuildBehaviour::Force)
    } else if matched.len() == 0 {
        Decision::Install(BuildBehaviour::Fresh)
    } else {
        Decision::Ask
    }
}

/// The behaviour that follows a decision, given the user's answer to the
/// overwrite question; the answer counts only where the decision was to ask.
/// `None` drops the requirement.
pub open spec fn outcome(d: Decision, answer: bool) -> Option<BuildBehaviour> {
    match d {
        Decision::Install(b) => Some(b),
        Decision::Ask => if answer {
            Some(BuildBehaviour::Force)
        } else {
            None
        },
    }
}


/// The specification emitted for one requirement, or `None` where it is
/// dropped.
pub open spec fn spec_for(
    req: PackageReq,
    cands: Seq<InstalledPackage>,
    answer: bool,
    pin: PinnedState,
    force: bool,
) -> Option<InstallSpec> {
    match outcome(decision(pinned_matches(cands, pin), force), answer) {
        Some(b) => Some(
            InstallSpec {
                package: req,
                build_behaviour: b,
                pin: pin,
                entry_type: EntryType::Entrypoint,
                opt: OptState::Required,
            },
        ),
        None => None,
    }
}

/// The plan for the first `reqs.len()` requirements: their specifications in
/// input order, the dropped ones left out.
pub open spec fn plan(
    reqs: Seq<PackageReq>,
    installed: Seq<Seq<InstalledPackage>>,
    answers: Seq<bool>,
    pin: PinnedState,
    force: bool,
) -> Seq<InstallSpec>
    decreases reqs.len(),
{
    if reqs.len() == 0 {
        seq![]
    } else {
        let n = reqs.len() - 1;
        let rest = plan(reqs.drop_last(), installed, answers, pin, force);
        match spec_for(reqs.last(), installed[n], answers[n], pin, force) {
            Some(s) => rest.push(s),
            None => rest,
        }
    }
}

/// Keeps the candidates installed with pin state `pin` and tells apart no,
/// one and several matches.
pub fn classify(candidates: &Vec<InstalledPackage>, pin: PinnedState) -> (r: RockMatches)
    ensures
        r@ == pinned_matches(candidates@, pin),
        r.wf(),
{
    let mut kept: Vec<InstalledPackage> = Vec::new();
    let mut i: usize = 0;
    while i < candidates.len()
        invariant
            i <= candidates@.len(),
            kept@ == pinned_matches(candidates@.subrange(0, i as int), pin),
        decreases candidates@.len() - i,
    {
        assert(candidates@.subrange(0, i as int + 1).drop_last() == candidates@.subrange(
            0,
            i as int,
        ));
        if candidates[i].pinned == pin {
            kept.push(candidates[i]);
        }
        i = i + 1;
    }
    assert(candidates@.subrange(0, candidates@.len() as int) == candidates@);
    if kept.len() == 0 {
        assert(kept@ =~= seq![]);
        RockMatches::NotFound
    } else if kept.len() == 1 {
        assert(kept@ =~= seq![kept@[0]]);
        RockMatches::Single(kept[0])
    } else {
        RockMatches::Many(kept)
    }
}

/// Decides what to do with a requirement from its matches, before anyone is
/// asked anything.
pub fn decide(matches: &RockMatches, force: bool) -> (d: Decision)
    ensures
        d == decision(matches@, force),
{
    let entrypoint_found = match matches {
        RockMatches::NotFound => false,
        RockMatches::Single(p) => {
            assert(matches@[0] == *p);
            p.entrypoint
        },
        RockMatches::Many(v) => {
            let mut found = false;
            let mut i: usize = 0;
            while i < v.len()
                invariant
                    i <= v@.len(),
                    matches@ == v@,
                    found <==> exists|j: int| 0 <= j < i && #[trigger] v@[j].entrypoint,
                decreases v@.len() - i,
            {
                if v[i].entrypoint {
                    found = true;
                }
                i = i + 1;
            }
            found
        },
    };
    assert(entrypoint_found == has_entrypoint(matches@));
    let empty = match matches {
        RockMatches::NotFound => true,
        RockMatches::Single(_) => false,
        RockMatches::Many(v) => v.len() == 0,
    };
    if force || (!empty && !entrypoint_found) {
        Decision::Install(BuildBehaviour::Force)
    } else if empty {
        Decision::Install(BuildBehaviour::Fresh)
    } else {
        Decision::Ask
    }
}

/// Whether the user must be asked before the requirement is resolved.
pub fn needs_confirmation(d: Decision) -> (r: bool)
    ensures
        r == (d == Decision::Ask),
{
    match d {
        Decision::Ask => true,
        Decision::Install(_) => false,
    }
}

/// The behaviour that a decision comes to once the user has answered.
pub fn settle(d: Decision, answer: bool) -> (r: Option<BuildBehaviour>)
    ensures
        r == outcome(d, answer),
{
    match d {
        Decision::Install(b) => Some(b),
        Decision::Ask => if answer {
            Some(BuildBehaviour::Force)
        } else {
            None
        },
    }
}

/// What the installation record holds for each requirement, as sequences.
pub open spec fn installed_view(installed: Seq<Vec<InstalledPackage>>) -> Seq<
    Seq<InstalledPackage>,
> {
    installed.map_values(|v: Vec<InstalledPackage>| v@)
}

/// Gives each requirement its build behaviour and turns it into an install
/// specification, dropping those the user chose not to overwrite.
///
/// `installed[i]` lists the installed packages that satisfy
/// `package_reqs[i]`, whatever their pin state; `answers[i]` is the user's
/// reply to the overwrite question for it, and is read only where
/// `needs_confirmation` holds of that requirement's decision.
pub fn apply_build_behaviour(
    package_reqs: Vec<PackageReq>,
    pin: PinnedState,
    force: bool,
    installed: &Vec<Vec<InstalledPackage>>,
    answers: &Vec<bool>,
) -> (r: Vec<InstallSpec>)
    requires
        installed@.len() == package_reqs@.len(),
        answers@.len() == package_reqs@.len(),
    ensures
        r@ == plan(package_reqs@, installed_view(installed@), answers@, pin, force),
{
    let ghost all = package_reqs@;
    let ghost iv = installed_view(installed@);
    let n = package_reqs.len();
    let mut rest = package_reqs;
    let mut out: Vec<InstallSpec> = Vec::new();
    let mut i: usize = 0;
    while i < n
        invariant
            n == all.len(),
            i <= n,
            installed@.len() == n,
            answers@.len() == n,
            iv == installed_view(installed@),
            rest@ == all.subrange(i as int, n as int),
            out@ == plan(all.subrange(0, i as int), iv, answers@, pin, force),
        decreases n - i,
    {
        let req = rest.remove(0);
        assert(req == all[i as int]);
        assert(all.subrange(0, i as int + 1).drop_last() == all.subrange(0, i as int));
        assert(iv[i as int] == installed@[i as int]@);
        let matches = classify(&installed[i], pin);
        let d = decide(&matches, force);
        let b = settle(d, answers[i]);
        match b {
            Some(behaviour) => {
                out.push(
                    InstallSpec {
                        package: req,
                        build_behaviour: behaviour,
                        pin: pin,
                        entry_type: EntryType::Entrypoint,
                        opt: OptState::Required,
                    },
                );
            },
            None => {},
        }
        proof {
            assert(rest@ =~= all.subrange(i as int + 1, n as int));
        }
        i = i + 1;
    }
    assert(all.subrange(0, n as int) == all);
    out
}

/// The specification a requirement receives when it is kept with behaviour `b`.
pub open spec fn kept_as(req: PackageReq, b: BuildBehaviour, pin: PinnedState) -> InstallSpec {
    InstallSpec {
        package: req,
        build_behaviour: b,
        pin: pin,
        entry_type: EntryType::Entrypoint,
        opt: OptState::Required,
    }
}

/// A requirement that nothing installed with the resolved pin state
/// satisfies, and no force asked for, is installed fresh without asking.
pub proof fn lemma_unmatched_is_fresh(
    req: PackageReq,
    cands: Seq<InstalledPackage>,
    answer: bool,
    pin: PinnedState,
)
    requires
        pinned_matches(cands, pin).len() == 0,
    ensures
        decision(pinned_matches(cands, pin), false) == Decision::Install(BuildBehaviour::Fresh),
        spec_for(req, cands, answer, pin, false) == Some(kept_as(req, BuildBehaviour::Fresh, pin)),
{
}

/// With force asked for, every requirement is reinstalled by force, and the
/// user is never asked.
pub proof fn lemma_forced_is_force(
    req: PackageReq,
    cands: Seq<InstalledPackage>,
    answer: bool,
    pin: PinnedState,
)
    ensures
        decision(pinned_matches(cands, pin), true) == Decision::Install(BuildBehaviour::Force),
        spec_for(req, cands, answer, pin, true) == Some(kept_as(req, BuildBehaviour::Force, pin)),
{
}

/// A requirement matched only by packages installed as dependencies is
/// reinstalled by force without asking, even when force was not asked for.
pub proof fn lemma_dependency_only_is_force(
    req: PackageReq,
    cands: Seq<InstalledPackage>,
    answer: bool,
    pin: PinnedState,
)
    requires
        pinned_matches(cands, pin).len() > 0,
        forall|i: int|
            0 <= i < pinned_matches(cands, pin).len() ==> !(#[trigger] pinned_matches(
                cands,
                pin,
            )[i]).entrypoint,
    ensures
        effective_force(pinned_matches(cands, pin), false),
        decision(pinned_matches(cands, pin), false) == Decision::Install(BuildBehaviour::Force),
        spec_for(req, cands, answer, pin, false) == Some(kept_as(req, BuildBehaviour::Force, pin)),
{
}

/// A requirement matched by some entrypoint, with no force asked for, makes
/// the user be asked: a yes reinstalls it by force, a no drops it.
pub proof fn lemma_entrypoint_asks(req: PackageReq, cands: Seq<InstalledPackage>, pin: PinnedState)
    requires
        has_entrypoint(pinned_matches(cands, pin)),
    ensures
        decision(pinned_matches(cands, pin), false) == Decision::Ask,
        spec_for(req, cands, true, pin, false) == Some(kept_as(req, BuildBehaviour::Force, pin)),
        spec_for(req, cands, false, pin, false) == None::<InstallSpec>,
{
}

/// Resolving two lists one after the other gives the plan of the joined
/// list: the output keeps the input order, with the dropped requirements
/// left out, and each requirement is resolved on its own.
pub proof fn lemma_plan_concat(
    reqs1: Seq<PackageReq>,
    installed1: Seq<Seq<InstalledPackage>>,
    answers1: Seq<bool>,
    reqs2: Seq<PackageReq>,
    installed2: Seq<Seq<InstalledPackage>>,
    answers2: Seq<bool>,
    pin: PinnedState,
    force: bool,
)
    requires
        installed1.len() == reqs1.len(),
        answers1.len() == reqs1.len(),
        installed2.len() == reqs2.len(),
        answers2.len() == reqs2.len(),
    ensures
        plan(reqs1 + reqs2, installed1 + installed2, answers1 + answers2, pin, force) == plan(
            reqs1,
            installed1,
            answers1,
            pin,
            force,
        ) + plan(reqs2, installed2, answers2, pin, force),
    decreases reqs2.len(),
{
    lemma_plan_prefix(reqs1, installed1, answers1, installed1 + installed2, answers1 + answers2, pin, force);
    if reqs2.len() == 0 {
        assert(reqs1 + reqs2 == reqs1);
        assert(plan(reqs2, installed2, answers2, pin, force) == Seq::<InstallSpec>::empty());
        assert(plan(reqs1, installed1, answers1, pin, force) + Seq::<InstallSpec>::empty() == plan(reqs1, installed1, answers1, pin, force));
    } else {
        let r2 = reqs2.drop_last();
        let i2 = installed2.subrange(0, installed2.len() - 1);
        let a2 = answers2.subrange(0, answers2.len() - 1);
        lemma_plan_concat(reqs1, installed1, answers1, r2, i2, a2, pin, force);
        lemma_plan_prefix(r2, i2, a2, installed2, answers2, pin, force);
        lemma_plan_prefix(reqs1 + r2, installed1 + i2, answers1 + a2, installed1 + installed2, answers1 + answers2, pin, force);
        assert((reqs1 + reqs2).drop_last() == reqs1 + r2);
        let n = reqs1.len() + reqs2.len() - 1;
        assert((installed1 + installed2)[n] == installed2[reqs2.len() - 1]);
        assert((answers1 + answers2)[n] == answers2[reqs2.len() - 1]);
        let p1 = plan(reqs1, installed1, answers1, pin, force);
        let p2 = plan(r2, i2, a2, pin, force);
        match spec_for(reqs2.last(), installed2[reqs2.len() - 1], answers2[reqs2.len() - 1], pin, force) {
            Some(x) => {
                assert(p1 + p2.push(x) == (p1 + p2).push(x));
            },
            None => {},
        }
    }
}

/// The plan of a list reads only the entries of `installed` and `answers`
/// that belong to it.
proof fn lemma_plan_prefix(
    reqs: Seq<PackageReq>,
    installed: Seq<Seq<InstalledPackage>>,
    answers: Seq<bool>,
    installed_ext: Seq<Seq<InstalledPackage>>,
    answers_ext: Seq<bool>,
    pin: PinnedState,
    force: bool,
)
    requires
        installed.len() >= reqs.len(),
        answers.len() >= reqs.len(),
        installed_ext.len() >= reqs.len(),
        answers_ext.len() >= reqs.len(),
        forall|i: int| 0 <= i < reqs.len() ==> installed[i] == installed_ext[i],
        forall|i: int| 0 <= i < reqs.len() ==> answers[i] == answers_ext[i],
    ensures
        plan(reqs, installed, answers, pin, force) == plan(reqs, installed_ext, answers_ext, pin, force),
    decreases reqs.len(),
{
    if reqs.len() > 0 {
        lemma_plan_prefix(reqs.drop_last(), installed, answers, installed_ext, answers_ext, pin, force);
    }
}

} // verus!
