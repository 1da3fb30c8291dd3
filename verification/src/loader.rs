//! The package catalog and the two phases that fill and consume it:
//! discovery, which checks candidate directories' metadata and tolerates
//! malformed entries, and load, which runs each cataloged package's entry
//! script through a script host and applies its registration requests.
//! Every failure is isolated to its package: it becomes a diagnostic, never
//! an abort of the surrounding phase.

use vstd::prelude::*;

use crate::metadata::{
    MetadataError, MetadataErrorView, MetadataView, ModMetadata, parse_metadata,
    spec_extract_metadata, spec_parse_metadata_ok, toml_document,
};
use crate::registry::{Registry, spec_register};

verus! {

/// A discovered package: its metadata and the path of its content root.
#[derive(Debug)]
pub struct Mod {
    pub metadata: ModMetadata,
    pub path: String,
}

/// Spec-level image of a `Mod`.
pub ghost struct ModView {
    pub metadata: MetadataView,
    pub path: Seq<char>,
}

impl View for Mod {
    type V = ModView;

    open spec fn view(&self) -> ModView {
        ModView { metadata: self.metadata@, path: self.path@ }
    }
}

/// The package catalog, in discovery order.
#[derive(Debug)]
pub struct Mods {
    pub mods: Vec<Mod>,
}

impl View for Mods {
    type V = Seq<ModView>;

    open spec fn view(&self) -> Seq<ModView> {
        self.mods@.map_values(|m: Mod| m@)
    }
}

impl Mods {
    /// Creates an empty catalog.
    pub fn new() -> (r: Mods)
        ensures
            r@ == Seq::<ModView>::empty(),
    {
        let r = Mods { mods: Vec::new() };
        proof {
            assert(r@ =~= Seq::<ModView>::empty());
        }
        r
    }
}

/// What the host found at a candidate directory's metadata file path.
#[derive(Debug)]
pub enum MetadataFile {
    /// No metadata file: the directory is not a package and is skipped
    /// without a diagnostic.
    Missing,
    /// The file exists but could not be read; carries the reader's message.
    Unreadable(String),
    /// The file's text.
    Contents(String),
}

/// Spec-level image of a `MetadataFile`.
pub ghost enum MetadataFileView {
    Missing,
    Unreadable(Seq<char>),
    Contents(Seq<char>),
}

impl View for MetadataFile {
    type V = MetadataFileView;

    open spec fn view(&self) -> MetadataFileView {
        match self {
            MetadataFile::Missing => MetadataFileView::Missing,
            MetadataFile::Unreadable(m) => MetadataFileView::Unreadable(m@),
            MetadataFile::Contents(t) => MetadataFileView::Contents(t@),
        }
    }
}

/// One candidate subdirectory of the catalog root, as handed to discovery.
#[derive(Debug)]
pub struct Candidate {
    pub path: String,
    pub file: MetadataFile,
}

/// Spec-level image of a `Candidate`.
pub ghost struct CandidateView {
    pub path: Seq<char>,
    pub file: MetadataFileView,
}

impl View for Candidate {
    type V = CandidateView;

    open spec fn view(&self) -> CandidateView {
        CandidateView { path: self.path@, file: self.file@ }
    }
}

/// Spec-level image of a candidate list.
pub open spec fn cands_view(cands: Seq<Candidate>) -> Seq<CandidateView> {
    cands.map_values(|c: Candidate| c@)
}

/// A per-package problem found during discovery or load. Diagnostics are
/// reported to the operator; they never abort the phase that found them.
#[derive(Debug)]
pub enum Fault {
    /// The metadata file could not be read; carries the reader's message.
    MetadataUnreadable(String),
    /// The metadata file's text was rejected.
    MetadataInvalid(MetadataError),
    /// The entry script was missing or unreadable; carries the reader's
    /// message.
    ScriptUnavailable(String),
    /// Compilation produced diagnostics; they are carried here.
    CompileFailed(Vec<String>),
    /// The entry point raised an error while running; carries its message.
    RuntimeFault(String),
    /// The script asked to register under this path and the registry
    /// refused it.
    RegistrationRejected(String),
}

/// Spec-level image of a `Fault`.
pub ghost enum FaultView {
    MetadataUnreadable(Seq<char>),
    MetadataInvalid(MetadataErrorView),
    ScriptUnavailable(Seq<char>),
    CompileFailed(Seq<Seq<char>>),
    RuntimeFault(Seq<char>),
    RegistrationRejected(Seq<char>),
}

/// Spec-level image of a message list.
pub open spec fn msgs_view(msgs: Seq<String>) -> Seq<Seq<char>> {
    msgs.map_values(|s: String| s@)
}

impl View for Fault {
    type V = FaultView;

    open spec fn view(&self) -> FaultView {
        match self {
            Fault::MetadataUnreadable(m) => FaultView::MetadataUnreadable(m@),
            Fault::MetadataInvalid(e) => FaultView::MetadataInvalid(e@),
            Fault::ScriptUnavailable(m) => FaultView::ScriptUnavailable(m@),
            Fault::CompileFailed(ds) => FaultView::CompileFailed(msgs_view(ds@)),
            Fault::RuntimeFault(m) => FaultView::RuntimeFault(m@),
            Fault::RegistrationRejected(p) => FaultView::RegistrationRejected(p@),
        }
    }
}

/// A fault, tagged with the path of the package it belongs to.
#[derive(Debug)]
pub struct Diagnostic {
    pub path: String,
    pub fault: Fault,
}

/// Spec-level image of a `Diagnostic`.
pub ghost struct DiagnosticView {
    pub path: Seq<char>,
    pub fault: FaultView,
}

impl View for Diagnostic {
    type V = DiagnosticView;

    open spec fn view(&self) -> DiagnosticView {
        DiagnosticView { path: self.path@, fault: self.fault@ }
    }
}

/// Spec-level image of a diagnostic list.
pub open spec fn diags_view(diags: Seq<Diagnostic>) -> Seq<DiagnosticView> {
    diags.map_values(|d: Diagnostic| d@)
}

/// The package that discovery accepts for a candidate, if any: its
/// metadata file must be present, readable, well-formed TOML, and hold the
/// metadata schema.
pub open spec fn spec_discovery_accepts(c: CandidateView) -> Option<ModView> {
    match c.file {
        MetadataFileView::Contents(text) => match toml_document(text) {
            Some(doc) => match spec_extract_metadata(doc) {
                Ok(m) => Some(ModView { metadata: m, path: c.path }),
                Err(_) => None,
            },
            None => None,
        },
        _ => None,
    }
}

/// Whether a candidate produces a discovery diagnostic: its metadata file
/// exists but cannot be read or does not parse. A directory without a
/// metadata file is not a candidate failure.
pub open spec fn spec_candidate_fails(c: CandidateView) -> bool {
    match c.file {
        MetadataFileView::Missing => false,
        MetadataFileView::Unreadable(_) => true,
        MetadataFileView::Contents(text) => !spec_parse_metadata_ok(text),
    }
}

/// The catalog entries that discovering `cands` appends, in order.
pub open spec fn spec_discovered(cands: Seq<CandidateView>) -> Seq<ModView> {
    cands.filter_map(|c: CandidateView| spec_discovery_accepts(c))
}

/// The candidates that discovering `cands` reports diagnostics for, in
/// order.
pub open spec fn spec_failed(cands: Seq<CandidateView>) -> Seq<CandidateView> {
    cands.filter_map(
        |c: CandidateView|
            if spec_candidate_fails(c) {
                Some(c)
            } else {
                None
            },
    )
}

/// Whether `f` is the fault that discovery reports for failing candidate
/// `c`. For unreadable files and schema errors the fault is pinned
/// exactly; for malformed TOML only the parser's message is left open.
pub open spec fn spec_fault_matches(c: CandidateView, f: FaultView) -> bool {
    match c.file {
        MetadataFileView::Missing => false,
        MetadataFileView::Unreadable(m) => f == FaultView::MetadataUnreadable(m),
        MetadataFileView::Contents(text) => match toml_document(text) {
            None => match f {
                FaultView::MetadataInvalid(e) => e is Syntax,
                _ => false,
            },
            Some(doc) => match spec_extract_metadata(doc) {
                Ok(_) => false,
                Err(e) => f == FaultView::MetadataInvalid(e),
            },
        },
    }
}

/// Discovery: checks each candidate directory in order and appends every
/// package whose metadata parses to the catalog. A candidate whose
/// metadata file is unreadable or malformed yields exactly one diagnostic
/// and is skipped; the remaining candidates are still examined. A
/// directory without a metadata file is skipped silently.
pub fn preload_mods(mods: &mut Mods, candidates: &Vec<Candidate>) -> (diags: Vec<Diagnostic>)
    ensures
        final(mods)@ == old(mods)@ + spec_discovered(cands_view(candidates@)),
        diags@.len() == spec_failed(cands_view(candidates@)).len(),
        forall|k: int|
            0 <= k < diags@.len() ==> {
                &&& (#[trigger] diags@[k])@.path == spec_failed(cands_view(candidates@))[k].path
                &&& spec_fault_matches(spec_failed(cands_view(candidates@))[k], diags@[k]@.fault)
            },
{
    let ghost cv = cands_view(candidates@);
    let ghost mods0 = mods@;
    let mut diags: Vec<Diagnostic> = Vec::new();
    let n = candidates.len();
    let mut i: usize = 0;
    proof {
        assert(cv.take(0) =~= Seq::<CandidateView>::empty());
        assert(mods@ =~= mods0 + spec_discovered(cv.take(0)));
    }
    while i < n
        invariant
            i <= n,
            n == candidates@.len(),
            cv == cands_view(candidates@),
            mods@ == mods0 + spec_discovered(cv.take(i as int)),
            diags@.len() == spec_failed(cv.take(i as int)).len(),
            forall|k: int|
                0 <= k < diags@.len() ==> {
                    &&& (#[trigger] diags@[k])@.path == spec_failed(cv.take(i as int))[k].path
                    &&& spec_fault_matches(spec_failed(cv.take(i as int))[k], diags@[k]@.fault)
                },
        decreases n - i,
    {
        let ghost prefix = cv.take(i as int);
        let ghost step = cv.take(i + 1);
        proof {
            assert(step.drop_last() =~= prefix);
            assert(step.last() == cv[i as int]);
            assert(cv[i as int] == candidates@[i as int]@);
        }
        let c = &candidates[i];
        let ghost diags0 = diags@;
        let ghost modsv0 = mods@;
        match &c.file {
            MetadataFile::Missing => {
                proof {
                    assert(spec_discovered(step) =~= spec_discovered(prefix));
                    assert(spec_failed(step) =~= spec_failed(prefix));
                }
            },
            MetadataFile::Unreadable(msg) => {
                diags.push(
                    Diagnostic {
                        path: c.path.clone(),
                        fault: Fault::MetadataUnreadable(msg.clone()),
                    },
                );
                proof {
                    assert(spec_discovered(step) =~= spec_discovered(prefix));
                    assert(spec_failed(step) =~= spec_failed(prefix).push(cv[i as int]));
                    assert(diags@ == diags0.push(diags@[diags@.len() - 1]));
                    assert(diags@[diags@.len() - 1]@.path == cv[i as int].path);
                    assert(spec_fault_matches(cv[i as int], diags@[diags@.len() - 1]@.fault));
                    assert forall|k: int| 0 <= k < diags@.len() - 1 implies diags@[k]
                        == diags0[k] by {}
                }
            },
            MetadataFile::Contents(text) => {
                match parse_metadata(text.as_str()) {
                    Ok(m) => {
                        let entry = Mod { metadata: m, path: c.path.clone() };
                        proof {
                            assert(spec_discovery_accepts(cv[i as int]) == Some(entry@));
                            assert(spec_discovered(step) =~= spec_discovered(prefix).push(
                                entry@,
                            ));
                            assert(spec_failed(step) =~= spec_failed(prefix));
                        }
                        let ghost mm0 = mods.mods@;
                        mods.mods.push(entry);
                        proof {
                            assert(mods@ =~= modsv0 + seq![mods.mods@[mm0.len() as int]@]);
                            assert(mods@ =~= mods0 + spec_discovered(step));
                        }
                    },
                    Err(e) => {
                        proof {
                            assert(!spec_parse_metadata_ok(text@));
                            assert(spec_discovered(step) =~= spec_discovered(prefix));
                            assert(spec_failed(step) =~= spec_failed(prefix).push(cv[i as int]));
                        }
                        let ghost ev = e@;
                        diags.push(
                            Diagnostic { path: c.path.clone(), fault: Fault::MetadataInvalid(e) },
                        );
                        proof {
                            assert(diags@[diags@.len() - 1]@.path == cv[i as int].path);
                            assert(diags@[diags@.len() - 1]@.fault == FaultView::MetadataInvalid(
                                ev,
                            ));
                            assert(spec_fault_matches(cv[i as int], FaultView::MetadataInvalid(ev)));
                        }
                    },
                }
            },
        }
        i = i + 1;
    }
    proof {
        assert(cv.take(n as int) =~= cv);
    }
    diags
}

/// A candidate that discovery accepts never produces a diagnostic.
pub proof fn lemma_accepted_candidate_does_not_fail(c: CandidateView)
    requires
        spec_discovery_accepts(c) is Some,
    ensures
        !spec_candidate_fails(c),
{
    match c.file {
        MetadataFileView::Contents(text) => {
            assert(toml_document(text) is Some);
            assert(spec_parse_metadata_ok(text));
        },
        _ => {
            assert(false);
        },
    }
}

/// A failing candidate is never cataloged.
pub proof fn lemma_failed_candidate_not_accepted(c: CandidateView)
    requires
        spec_candidate_fails(c),
    ensures
        spec_discovery_accepts(c) is None,
{
    match c.file {
        MetadataFileView::Contents(text) => {
            assert(!spec_parse_metadata_ok(text));
        },
        _ => {},
    }
}

/// Discovery over accepted candidates alone: every one is cataloged, in
/// order, and no diagnostic is owed.
pub proof fn lemma_discovery_all_accepted(cands: Seq<CandidateView>)
    requires
        forall|i: int|
            0 <= i < cands.len() ==> spec_discovery_accepts(#[trigger] cands[i]) is Some,
    ensures
        spec_failed(cands) == Seq::<CandidateView>::empty(),
        spec_discovered(cands).len() == cands.len(),
        forall|i: int|
            0 <= i < cands.len() ==> spec_discovered(cands)[i] == spec_discovery_accepts(
                #[trigger] cands[i],
            )->0,
    decreases cands.len(),
{
    if cands.len() == 0 {
        assert(spec_failed(cands) =~= Seq::<CandidateView>::empty());
        assert(spec_discovered(cands) =~= Seq::<ModView>::empty());
    } else {
        let dl = cands.drop_last();
        let last = cands.last();
        assert forall|i: int|
            0 <= i < dl.len() implies spec_discovery_accepts(#[trigger] dl[i]) is Some by {
            assert(dl[i] == cands[i]);
        }
        lemma_discovery_all_accepted(dl);
        lemma_accepted_candidate_does_not_fail(last);
        assert(spec_failed(cands) == spec_failed(dl));
        assert(spec_discovered(cands) == spec_discovered(dl) + seq![
            spec_discovery_accepts(last)->0,
        ]);
        assert forall|i: int|
            0 <= i < cands.len() implies spec_discovered(cands)[i] == spec_discovery_accepts(
            #[trigger] cands[i],
        )->0 by {
            if i < cands.len() - 1 {
                assert(spec_discovered(cands)[i] == spec_discovered(dl)[i]);
                assert(cands[i] == dl[i]);
            } else {
                assert(spec_discovered(cands)[i] == spec_discovery_accepts(last)->0);
            }
        }
    }
}

/// Discovery continues past a failure, however many candidates there are:
/// with exactly one failing candidate among otherwise well-formed ones,
/// exactly one diagnostic is owed — for the failing candidate — and every
/// other candidate is still cataloged, in order.
pub proof fn lemma_discovery_continues(cands: Seq<CandidateView>, b: int)
    requires
        0 <= b < cands.len(),
        spec_candidate_fails(cands[b]),
        forall|i: int|
            0 <= i < cands.len() && i != b ==> spec_discovery_accepts(#[trigger] cands[i]) is Some,
    ensures
        spec_failed(cands) =~= seq![cands[b]],
        spec_discovered(cands).len() == cands.len() - 1,
        forall|i: int|
            0 <= i < b ==> spec_discovered(cands)[i] == spec_discovery_accepts(
                #[trigger] cands[i],
            )->0,
        forall|i: int|
            b < i < cands.len() ==> spec_discovered(cands)[i - 1] == spec_discovery_accepts(
                #[trigger] cands[i],
            )->0,
    decreases cands.len(),
{
    let dl = cands.drop_last();
    let last = cands.last();
    if b == cands.len() - 1 {
        assert forall|i: int|
            0 <= i < dl.len() implies spec_discovery_accepts(#[trigger] dl[i]) is Some by {
            assert(dl[i] == cands[i]);
        }
        lemma_discovery_all_accepted(dl);
        lemma_failed_candidate_not_accepted(last);
        assert(spec_discovered(cands) == spec_discovered(dl));
        assert(spec_failed(cands) == spec_failed(dl) + seq![last]);
        assert(spec_failed(cands) =~= seq![cands[b]]);
        assert forall|i: int|
            0 <= i < b implies spec_discovered(cands)[i] == spec_discovery_accepts(
            #[trigger] cands[i],
        )->0 by {
            assert(cands[i] == dl[i]);
        }
    } else {
        assert(spec_candidate_fails(dl[b]));
        assert forall|i: int|
            0 <= i < dl.len() && i != b implies spec_discovery_accepts(
            #[trigger] dl[i],
        ) is Some by {
            assert(dl[i] == cands[i]);
        }
        lemma_discovery_continues(dl, b);
        lemma_accepted_candidate_does_not_fail(last);
        assert(spec_failed(cands) == spec_failed(dl));
        assert(spec_failed(cands) =~= seq![cands[b]]);
        assert(spec_discovered(cands) == spec_discovered(dl) + seq![
            spec_discovery_accepts(last)->0,
        ]);
        assert forall|i: int|
            0 <= i < b implies spec_discovered(cands)[i] == spec_discovery_accepts(
            #[trigger] cands[i],
        )->0 by {
            assert(spec_discovered(cands)[i] == spec_discovered(dl)[i]);
            assert(cands[i] == dl[i]);
        }
        assert forall|i: int|
            b < i < cands.len() implies spec_discovered(cands)[i - 1] == spec_discovery_accepts(
            #[trigger] cands[i],
        )->0 by {
            if i < cands.len() - 1 {
                assert(spec_discovered(cands)[i - 1] == spec_discovered(dl)[i - 1]);
                assert(cands[i] == dl[i]);
            } else {
                assert(spec_discovered(cands)[i - 1] == spec_discovery_accepts(last)->0);
            }
        }
    }
}

/// Discovery fault tolerance: given one candidate whose metadata parses
/// and one whose metadata fails, discovery catalogs exactly the
/// well-formed one and owes exactly one diagnostic, for the other.
pub proof fn lemma_discovery_fault_tolerance(c_ok: CandidateView, c_bad: CandidateView)
    requires
        spec_discovery_accepts(c_ok) is Some,
        spec_candidate_fails(c_bad),
    ensures
        spec_discovered(seq![c_ok, c_bad]) =~= seq![spec_discovery_accepts(c_ok)->0],
        spec_failed(seq![c_ok, c_bad]) =~= seq![c_bad],
{
    let s = seq![c_ok, c_bad];
    assert(s[0] == c_ok);
    assert(s[1] == c_bad);
    lemma_discovery_continues(s, 1);
    assert(spec_discovered(s)[0] == spec_discovery_accepts(c_ok)->0);
    assert(spec_discovered(s) =~= seq![spec_discovery_accepts(c_ok)->0]);
}

/// Spec-level image of a registration-request list.
pub open spec fn regs_view<T>(regs: Seq<(String, T)>) -> Seq<(Seq<char>, T)> {
    regs.map_values(|e: (String, T)| (e.0@, e.1))
}

/// What running one package's entry script produced.
#[derive(Debug)]
pub enum ScriptOutcome<T> {
    /// The entry script was missing or unreadable; carries the reader's
    /// message.
    ScriptUnavailable(String),
    /// Compilation produced diagnostics; the package contributes nothing.
    CompileFailed(Vec<String>),
    /// The script ran and made these registration requests, in order. A
    /// runtime fault, if any, stopped it after them; the requests before
    /// the fault remain in effect.
    Ran(Vec<(String, T)>, Option<String>),
}

/// Spec-level image of a `ScriptOutcome`.
pub ghost enum OutcomeView<T> {
    ScriptUnavailable(Seq<char>),
    CompileFailed(Seq<Seq<char>>),
    Ran(Seq<(Seq<char>, T)>, Option<Seq<char>>),
}

impl<T> View for ScriptOutcome<T> {
    type V = OutcomeView<T>;

    open spec fn view(&self) -> OutcomeView<T> {
        match self {
            ScriptOutcome::ScriptUnavailable(m) => OutcomeView::ScriptUnavailable(m@),
            ScriptOutcome::CompileFailed(ds) => OutcomeView::CompileFailed(msgs_view(ds@)),
            ScriptOutcome::Ran(regs, fault) => OutcomeView::Ran(
                regs_view(regs@),
                match fault {
                    Some(m) => Some(m@),
                    None => None,
                },
            ),
        }
    }
}

/// What applying a list of registration requests, in order, does to a
/// registry holding `paths` and `vals`; the third component collects the
/// requested paths that the registry refused, in request order.
pub open spec fn spec_apply_regs<T>(
    paths: Seq<Seq<char>>,
    vals: Seq<Option<T>>,
    regs: Seq<(Seq<char>, T)>,
) -> (Seq<Seq<char>>, Seq<Option<T>>, Seq<Seq<char>>)
    decreases regs.len(),
{
    if regs.len() == 0 {
        (paths, vals, Seq::empty())
    } else {
        let prev = spec_apply_regs(paths, vals, regs.drop_last());
        let step = spec_register(prev.0, prev.1, regs.last().0, regs.last().1);
        match step.2 {
            Some(_) => (step.0, step.1, prev.2),
            None => (step.0, step.1, prev.2.push(regs.last().0)),
        }
    }
}

/// Applies a script's registration requests to the registry, in order;
/// returns the requested paths the registry refused (invalid paths, or
/// paths that no free handle was left for), in request order.
pub fn apply_registrations<T>(registry: &mut Registry<T>, regs: Vec<(String, T)>) -> (rejected:
    Vec<String>)
    requires
        old(registry).wf(),
    ensures
        final(registry).wf(),
        ({
            let r = spec_apply_regs(old(registry).paths(), old(registry).vals(), regs_view(regs@));
            &&& final(registry).paths() == r.0
            &&& final(registry).vals() == r.1
            &&& msgs_view(rejected@) == r.2
        }),
{
    let ghost all = regs_view(regs@);
    let ghost paths0 = registry.paths();
    let ghost vals0 = registry.vals();
    let mut rejected: Vec<String> = Vec::new();
    let mut work = regs;
    let ghost mut i: int = 0;
    proof {
        assert(all.take(0) =~= Seq::<(Seq<char>, T)>::empty());
        assert(msgs_view(rejected@) =~= spec_apply_regs(paths0, vals0, all.take(0)).2);
    }
    while work.len() > 0
        invariant
            0 <= i <= all.len(),
            work@.len() == all.len() - i,
            forall|k: int|
                0 <= k < work@.len() ==> ((#[trigger] work@[k]).0@, work@[k].1) == all[i + k],
            registry.wf(),
            registry.paths() == spec_apply_regs(paths0, vals0, all.take(i)).0,
            registry.vals() == spec_apply_regs(paths0, vals0, all.take(i)).1,
            msgs_view(rejected@) == spec_apply_regs(paths0, vals0, all.take(i)).2,
        decreases work@.len(),
    {
        let ghost prefix = all.take(i);
        let ghost step = all.take(i + 1);
        proof {
            assert(step.drop_last() =~= prefix);
            assert(step.last() == all[i]);
        }
        let ghost work0 = work@;
        let pair = work.remove(0);
        let (path_s, value) = pair;
        proof {
            assert((work0[0].0@, work0[0].1) == all[i]);
            assert((path_s@, value) == all[i]);
        }
        let ghost rej0 = rejected@;
        match registry.register(path_s.as_str(), value) {
            Some(_) => {},
            None => {
                rejected.push(path_s);
                proof {
                    assert forall|k: int| 0 <= k < rej0.len() implies rejected@[k] == rej0[k] by {}
                    assert(msgs_view(rejected@) =~= msgs_view(rej0).push(all[i].0));
                }
            },
        }
        proof {
            i = i + 1;
            assert forall|k: int|
                0 <= k < work@.len() implies ((#[trigger] work@[k]).0@, work@[k].1) == all[i
                + k] by {
                assert(work@[k] == work0[k + 1]);
            }
        }
    }
    proof {
        assert(all.take(i) =~= all);
    }
    rejected
}

/// Tags each fault with the package path it belongs to.
pub open spec fn tag_faults(path: Seq<char>, faults: Seq<FaultView>) -> Seq<DiagnosticView> {
    faults.map_values(|f: FaultView| DiagnosticView { path: path, fault: f })
}

/// What one package's outcome does to a registry holding `paths` and
/// `vals`: only a script that ran changes anything, and only through its
/// registration requests.
pub open spec fn spec_apply_outcome<T>(
    paths: Seq<Seq<char>>,
    vals: Seq<Option<T>>,
    o: OutcomeView<T>,
) -> (Seq<Seq<char>>, Seq<Option<T>>) {
    match o {
        OutcomeView::Ran(regs, _) => {
            let r = spec_apply_regs(paths, vals, regs);
            (r.0, r.1)
        },
        _ => (paths, vals),
    }
}

/// The faults one package's outcome is reported with: a missing script or
/// failed compilation is one fault; a script that ran is reported for each
/// refused registration, and for the runtime fault that stopped it, if
/// any.
pub open spec fn spec_outcome_faults<T>(
    paths: Seq<Seq<char>>,
    vals: Seq<Option<T>>,
    o: OutcomeView<T>,
) -> Seq<FaultView> {
    match o {
        OutcomeView::ScriptUnavailable(m) => seq![FaultView::ScriptUnavailable(m)],
        OutcomeView::CompileFailed(ds) => seq![FaultView::CompileFailed(ds)],
        OutcomeView::Ran(regs, fault) => {
            let rej = spec_apply_regs(paths, vals, regs).2.map_values(
                |p: Seq<char>| FaultView::RegistrationRejected(p),
            );
            match fault {
                Some(m) => rej.push(FaultView::RuntimeFault(m)),
                None => rej,
            }
        },
    }
}

/// Applies one package's outcome to the registry and reports its faults,
/// each tagged with `package_path`. The catalog loop never aborts on a
/// fault: every failure of one package is turned into diagnostics here.
pub fn apply_outcome<T>(
    registry: &mut Registry<T>,
    package_path: &str,
    outcome: ScriptOutcome<T>,
) -> (diags: Vec<Diagnostic>)
    requires
        old(registry).wf(),
    ensures
        final(registry).wf(),
        (final(registry).paths(), final(registry).vals()) == spec_apply_outcome(
            old(registry).paths(),
            old(registry).vals(),
            outcome@,
        ),
        diags_view(diags@) == tag_faults(
            package_path@,
            spec_outcome_faults(old(registry).paths(), old(registry).vals(), outcome@),
        ),
{
    let ghost paths0 = registry.paths();
    let ghost vals0 = registry.vals();
    let ghost ov = outcome@;
    let mut diags: Vec<Diagnostic> = Vec::new();
    match outcome {
        ScriptOutcome::ScriptUnavailable(m) => {
            diags.push(
                Diagnostic { path: package_path.to_owned(), fault: Fault::ScriptUnavailable(m) },
            );
            proof {
                assert(diags_view(diags@) =~= tag_faults(
                    package_path@,
                    spec_outcome_faults(paths0, vals0, ov),
                ));
            }
        },
        ScriptOutcome::CompileFailed(ds) => {
            diags.push(Diagnostic { path: package_path.to_owned(), fault: Fault::CompileFailed(ds) });
            proof {
                assert(diags_view(diags@) =~= tag_faults(
                    package_path@,
                    spec_outcome_faults(paths0, vals0, ov),
                ));
            }
        },
        ScriptOutcome::Ran(regs, fault) => {
            let ghost rv = regs_view(regs@);
            let rejected = apply_registrations(registry, regs);
            let ghost rej = spec_apply_regs(paths0, vals0, rv).2;
            let mut work = rejected;
            let ghost mut j: int = 0;
            while work.len() > 0
                invariant
                    0 <= j <= rej.len(),
                    work@.len() == rej.len() - j,
                    forall|k: int| 0 <= k < work@.len() ==> (#[trigger] work@[k])@ == rej[j + k],
                    diags@.len() == j,
                    forall|k: int|
                        0 <= k < j ==> (#[trigger] diags@[k])@ == (DiagnosticView {
                            path: package_path@,
                            fault: FaultView::RegistrationRejected(rej[k]),
                        }),
                decreases work@.len(),
            {
                let ghost work0 = work@;
                let p = work.remove(0);
                proof {
                    assert(p@ == rej[j]);
                }
                let ghost diags0 = diags@;
                diags.push(
                    Diagnostic {
                        path: package_path.to_owned(),
                        fault: Fault::RegistrationRejected(p),
                    },
                );
                proof {
                    assert forall|k: int| 0 <= k < diags0.len() implies diags@[k] == diags0[k] by {}
                    j = j + 1;
                    assert forall|k: int|
                        0 <= k < work@.len() implies (#[trigger] work@[k])@ == rej[j + k] by {
                        assert(work@[k] == work0[k + 1]);
                    }
                }
            }
            let ghost tagged = tag_faults(
                package_path@,
                rej.map_values(|p: Seq<char>| FaultView::RegistrationRejected(p)),
            );
            proof {
                assert forall|k: int| 0 <= k < diags@.len() implies #[trigger] diags_view(diags@)[k]
                    == tagged[k] by {
                    assert(diags_view(diags@)[k] == diags@[k]@);
                }
                assert(diags_view(diags@) =~= tagged);
            }
            match fault {
                Some(m) => {
                    let ghost diags0 = diags@;
                    let ghost mv = m@;
                    diags.push(
                        Diagnostic { path: package_path.to_owned(), fault: Fault::RuntimeFault(m) },
                    );
                    proof {
                        assert forall|k: int| 0 <= k < diags0.len() implies diags@[k]
                            == diags0[k] by {}
                        assert(diags@[diags@.len() - 1]@ == (DiagnosticView {
                            path: package_path@,
                            fault: FaultView::RuntimeFault(mv),
                        }));
                        assert(spec_outcome_faults(paths0, vals0, ov) == rej.map_values(
                            |p: Seq<char>| FaultView::RegistrationRejected(p),
                        ).push(FaultView::RuntimeFault(mv)));
                        assert(diags_view(diags@) =~= tag_faults(
                            package_path@,
                            spec_outcome_faults(paths0, vals0, ov),
                        ));
                    }
                },
                None => {
                    proof {
                        assert(diags_view(diags@) =~= tag_faults(
                            package_path@,
                            spec_outcome_faults(paths0, vals0, ov),
                        ));
                    }
                },
            }
        },
    }
    diags
}

/// The execution engine's narrow interface to a scripting technology:
/// compile one entry script, then run the compiled unit's entry point. The
/// embedding application chooses the host; nothing is assumed of it, so
/// everything proved of the load phase holds for every host.
pub trait ScriptHost<T> {
    /// A compiled script, ready to run.
    type Unit;

    /// Compiles `source`; on failure returns the compilation diagnostics.
    fn compile(&mut self, source: &str) -> Result<Self::Unit, Vec<String>>;

    /// Runs a unit's entry point; returns the registration requests the
    /// script made, in order, and the message of the runtime fault that
    /// stopped it, if any. Requests made before a fault stay in effect.
    fn run(&mut self, unit: Self::Unit) -> (Vec<(String, T)>, Option<String>);
}

/// What reading one package's entry script file yielded.
#[derive(Debug)]
pub enum ScriptFile {
    /// The script was missing or unreadable; carries the reader's message.
    Unreadable(String),
    /// The script's source text.
    Contents(String),
}

/// What the whole load phase does to a registry holding `paths` and
/// `vals`, given each package's outcome in catalog order.
pub open spec fn spec_load<T>(
    paths: Seq<Seq<char>>,
    vals: Seq<Option<T>>,
    outs: Seq<OutcomeView<T>>,
) -> (Seq<Seq<char>>, Seq<Option<T>>)
    decreases outs.len(),
{
    if outs.len() == 0 {
        (paths, vals)
    } else {
        let prev = spec_load(paths, vals, outs.drop_last());
        spec_apply_outcome(prev.0, prev.1, outs.last())
    }
}

/// The diagnostics the whole load phase reports, in catalog order, each
/// tagged with its package's path.
pub open spec fn spec_load_diags<T>(
    paths: Seq<Seq<char>>,
    vals: Seq<Option<T>>,
    names: Seq<Seq<char>>,
    outs: Seq<OutcomeView<T>>,
) -> Seq<DiagnosticView>
    decreases outs.len(),
{
    if outs.len() == 0 {
        Seq::empty()
    } else {
        let prev = spec_load(paths, vals, outs.drop_last());
        spec_load_diags(paths, vals, names.drop_last(), outs.drop_last()) + tag_faults(
            names.last(),
            spec_outcome_faults(prev.0, prev.1, outs.last()),
        )
    }
}

/// The paths of the cataloged packages, in catalog order.
pub open spec fn mod_paths(ms: Seq<ModView>) -> Seq<Seq<char>> {
    ms.map_values(|m: ModView| m.path)
}

/// Which outcomes the engine can report for a given script file: an
/// unreadable entry script forces exactly the script-unavailable outcome,
/// before any host is consulted; a script whose text was read is handed
/// to the host, so its outcome is a compilation failure or a run — never
/// script-unavailable.
pub open spec fn outcome_matches_script<T>(script: ScriptFile, o: OutcomeView<T>) -> bool {
    match script {
        ScriptFile::Unreadable(m) => o == OutcomeView::<T>::ScriptUnavailable(m@),
        ScriptFile::Contents(_) => !(o is ScriptUnavailable),
    }
}

/// The execution engine: compiles and runs exactly one package's entry
/// script against the host, applies the registration requests the script
/// made, and reports every failure as diagnostics tagged with the
/// package's path. The outcome it acted on is returned alongside the
/// diagnostics: the registry is changed exactly by that outcome's
/// registration requests, the diagnostics are exactly that outcome's
/// faults, and an unreadable script pins the outcome itself.
pub fn load_mod<T, H: ScriptHost<T>>(
    registry: &mut Registry<T>,
    mod_data: &Mod,
    script: ScriptFile,
    host: &mut H,
) -> (r: (Vec<Diagnostic>, Ghost<OutcomeView<T>>))
    requires
        old(registry).wf(),
    ensures
        final(registry).wf(),
        outcome_matches_script(script, r.1@),
        (final(registry).paths(), final(registry).vals()) == spec_apply_outcome(
            old(registry).paths(),
            old(registry).vals(),
            r.1@,
        ),
        diags_view(r.0@) == tag_faults(
            mod_data.path@,
            spec_outcome_faults(old(registry).paths(), old(registry).vals(), r.1@),
        ),
{
    let outcome: ScriptOutcome<T> = match script {
        ScriptFile::Unreadable(msg) => ScriptOutcome::ScriptUnavailable(msg),
        ScriptFile::Contents(source) => match host.compile(source.as_str()) {
            Err(ds) => ScriptOutcome::CompileFailed(ds),
            Ok(unit) => {
                let (regs, fault) = host.run(unit);
                ScriptOutcome::Ran(regs, fault)
            },
        },
    };
    let ghost ov = outcome@;
    let diags = apply_outcome(registry, mod_data.path.as_str(), outcome);
    (diags, Ghost(ov))
}

/// The load phase: for each cataloged package, in catalog order, invokes
/// the execution engine once, with the script text the host application
/// read for it. No package's failure aborts the loop; each package's
/// faults become diagnostics. The per-package outcomes are returned
/// alongside the diagnostics: the registry's final contents are exactly
/// the fold of those outcomes over its starting contents, the diagnostics
/// are exactly theirs, and each outcome matches its package's script file
/// (an unreadable script pins the whole outcome).
pub fn load_mods<T, H: ScriptHost<T>>(
    registry: &mut Registry<T>,
    mods: &Mods,
    scripts: Vec<ScriptFile>,
    host: &mut H,
) -> (r: (Vec<Diagnostic>, Ghost<Seq<OutcomeView<T>>>))
    requires
        old(registry).wf(),
        scripts@.len() == mods@.len(),
    ensures
        final(registry).wf(),
        r.1@.len() == mods@.len(),
        forall|k: int|
            0 <= k < r.1@.len() ==> outcome_matches_script(scripts@[k], #[trigger] r.1@[k]),
        (final(registry).paths(), final(registry).vals()) == spec_load(
            old(registry).paths(),
            old(registry).vals(),
            r.1@,
        ),
        diags_view(r.0@) == spec_load_diags(
            old(registry).paths(),
            old(registry).vals(),
            mod_paths(mods@),
            r.1@,
        ),
{
    let ghost paths0 = registry.paths();
    let ghost vals0 = registry.vals();
    let ghost names = mod_paths(mods@);
    let ghost sv = scripts@;
    let mut diags: Vec<Diagnostic> = Vec::new();
    let mut work = scripts;
    let n = mods.mods.len();
    let mut idx: usize = 0;
    let ghost mut outs: Seq<OutcomeView<T>> = Seq::empty();
    proof {
        assert(mods@.len() == mods.mods@.len());
        assert(diags_view(diags@) =~= spec_load_diags(paths0, vals0, names.take(0), outs));
    }
    while idx < n
        invariant
            idx <= n,
            n == mods@.len(),
            n == sv.len(),
            work@.len() == n - idx,
            forall|k: int| 0 <= k < work@.len() ==> #[trigger] work@[k] == sv[idx + k],
            registry.wf(),
            paths0 == old(registry).paths(),
            vals0 == old(registry).vals(),
            names == mod_paths(mods@),
            outs.len() == idx,
            forall|k: int| 0 <= k < idx ==> outcome_matches_script(sv[k], #[trigger] outs[k]),
            (registry.paths(), registry.vals()) == spec_load(paths0, vals0, outs),
            diags_view(diags@) == spec_load_diags(paths0, vals0, names.take(idx as int), outs),
        decreases n - idx,
    {
        let ghost work0 = work@;
        let script = work.remove(0);
        proof {
            assert(script == sv[idx as int]);
            assert(mods@[idx as int] == mods.mods@[idx as int]@);
        }
        let m = &mods.mods[idx];
        let step = load_mod(registry, m, script, host);
        let mut d = step.0;
        let ghost o = step.1@;
        let ghost d0 = d@;
        let ghost diags0 = diags@;
        proof {
            let ghost outs0 = outs;
            outs = outs.push(o);
            assert forall|k: int| 0 <= k < work@.len() implies #[trigger] work@[k] == sv[idx + 1
                + k] by {
                assert(work@[k] == work0[k + 1]);
            }
            assert(outs.drop_last() =~= outs0);
            assert(outs.last() == o);
            assert forall|k: int|
                0 <= k < idx + 1 implies outcome_matches_script(sv[k], #[trigger] outs[k]) by {
                if k < idx {
                    assert(outs[k] == outs0[k]);
                }
            }
            assert(names.take(idx + 1).drop_last() =~= names.take(idx as int));
            assert(names.take(idx + 1).last() == names[idx as int]);
            assert(names[idx as int] == mods@[idx as int].path);
        }
        diags.append(&mut d);
        proof {
            assert(diags@ == diags0 + d0);
            assert forall|k: int|
                0 <= k < diags@.len() implies #[trigger] diags_view(diags@)[k] == (diags_view(
                diags0,
            ) + diags_view(d0))[k] by {
                if k < diags0.len() {
                    assert(diags@[k] == diags0[k]);
                } else {
                    assert(diags@[k] == d0[k - diags0.len()]);
                }
            }
            assert(diags_view(diags@) =~= diags_view(diags0) + diags_view(d0));
            assert(diags_view(diags@) =~= spec_load_diags(
                paths0,
                vals0,
                names.take(idx + 1),
                outs,
            ));
        }
        idx = idx + 1;
    }
    proof {
        assert(names.take(n as int) =~= names);
    }
    (diags, Ghost(outs))
}

/// Load fault isolation: with two packages, the first failing to compile
/// and the second running its registration requests to completion, the
/// load phase leaves the registry exactly as if only the second package
/// had run — the first contributed nothing.
pub proof fn lemma_load_fault_isolation<T>(
    paths: Seq<Seq<char>>,
    vals: Seq<Option<T>>,
    msgs: Seq<Seq<char>>,
    regs: Seq<(Seq<char>, T)>,
)
    ensures
        ({
            let outs = seq![
                OutcomeView::<T>::CompileFailed(msgs),
                OutcomeView::<T>::Ran(regs, None),
            ];
            let after = spec_load(paths, vals, outs);
            let only_second = spec_apply_regs(paths, vals, regs);
            after.0 == only_second.0 && after.1 == only_second.1
        }),
{
    let outs = seq![OutcomeView::<T>::CompileFailed(msgs), OutcomeView::<T>::Ran(regs, None)];
    let first = seq![OutcomeView::<T>::CompileFailed(msgs)];
    assert(outs.drop_last() =~= first);
    assert(first.drop_last() =~= Seq::<OutcomeView<T>>::empty());
    assert(spec_load(paths, vals, first.drop_last()) == (paths, vals));
    assert(spec_load(paths, vals, first) == (paths, vals));
    assert(outs.last() == OutcomeView::<T>::Ran(regs, None));
}

} // verus!
