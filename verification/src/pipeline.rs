//! The boot pipeline: three strictly ordered phases, each run exactly
//! once, all before the host's steady-state loop. Discovery fills the
//! catalog and touches no registry; load is the only stage in which
//! registrations happen; binds are possible only after load, and see its
//! full result. The ordering is enforced by construction: each transition
//! requires the phase that precedes it.

use vstd::prelude::*;

use crate::Id;
use crate::loader::{
    Candidate, Diagnostic, Mods, OutcomeView, ScriptFile, ScriptHost, cands_view, diags_view,
    load_mods, mod_paths, outcome_matches_script, preload_mods, spec_discovered, spec_failed,
    spec_fault_matches, spec_load, spec_load_diags,
};
use crate::registry::{Registry, spec_lookup, spec_resolve};

verus! {

/// Where the boot pipeline stands.
pub enum BootPhase {
    /// Discovery has not run yet; the catalog is untouched.
    PreModLoad,
    /// Discovery is complete; the load phase has not run.
    ModLoad,
    /// The load phase is complete; binds may now be performed.
    PostModLoad,
}

/// The pipeline's state: the phase reached, the catalog, and the registry
/// that load-phase registrations go into.
pub struct BootPipeline<T> {
    phase: BootPhase,
    mods: Mods,
    registry: Registry<T>,
}

impl<T> BootPipeline<T> {
    /// The phase the pipeline stands in.
    pub closed spec fn phase(&self) -> BootPhase {
        self.phase
    }

    /// The catalog's contents.
    pub closed spec fn catalog(&self) -> Seq<crate::loader::ModView> {
        self.mods@
    }

    /// The registry's interned paths.
    pub closed spec fn reg_paths(&self) -> Seq<Seq<char>> {
        self.registry.paths()
    }

    /// The registry's stored values.
    pub closed spec fn reg_vals(&self) -> Seq<Option<T>> {
        self.registry.vals()
    }

    /// Well-formedness of the underlying registry.
    pub closed spec fn wf(&self) -> bool {
        self.registry.wf()
    }

    /// A fresh pipeline: nothing discovered, nothing registered.
    pub fn new() -> (r: BootPipeline<T>)
        ensures
            r.wf(),
            r.phase() is PreModLoad,
            r.catalog() == Seq::<crate::loader::ModView>::empty(),
            r.reg_paths() == Seq::<Seq<char>>::empty(),
            r.reg_vals() == Seq::<Option<T>>::empty(),
    {
        BootPipeline { phase: BootPhase::PreModLoad, mods: Mods::new(), registry: Registry::new() }
    }

    /// Phase one, run exactly once: discovery. Fills the catalog from the
    /// candidate directories and reports a diagnostic per malformed
    /// candidate. No registry is touched: nothing becomes visible to later
    /// binds from this phase.
    pub fn run_discovery(&mut self, candidates: &Vec<Candidate>) -> (diags: Vec<Diagnostic>)
        requires
            old(self).wf(),
            old(self).phase() is PreModLoad,
        ensures
            final(self).wf(),
            final(self).phase() is ModLoad,
            final(self).catalog() == old(self).catalog() + spec_discovered(
                cands_view(candidates@),
            ),
            final(self).reg_paths() == old(self).reg_paths(),
            final(self).reg_vals() == old(self).reg_vals(),
            diags@.len() == spec_failed(cands_view(candidates@)).len(),
            forall|k: int|
                0 <= k < diags@.len() ==> {
                    &&& (#[trigger] diags@[k])@.path == spec_failed(
                        cands_view(candidates@),
                    )[k].path
                    &&& spec_fault_matches(spec_failed(cands_view(candidates@))[k], diags@[k]@.fault)
                },
    {
        let diags = preload_mods(&mut self.mods, candidates);
        self.phase = BootPhase::ModLoad;
        diags
    }

    /// Phase two, run exactly once: load. Drives the execution engine over
    /// the catalog in order, one entry script text per cataloged package,
    /// and returns the per-package outcomes alongside the diagnostics. The
    /// registry's contents afterwards are exactly the fold of those
    /// outcomes over what it held before, each outcome matches its
    /// package's script file, and no package's failure aborts the phase.
    pub fn run_load<H: ScriptHost<T>>(&mut self, scripts: Vec<ScriptFile>, host: &mut H) -> (r: (
        Vec<Diagnostic>,
        Ghost<Seq<OutcomeView<T>>>,
    ))
        requires
            old(self).wf(),
            old(self).phase() is ModLoad,
            scripts@.len() == old(self).catalog().len(),
        ensures
            final(self).wf(),
            final(self).phase() is PostModLoad,
            final(self).catalog() == old(self).catalog(),
            r.1@.len() == old(self).catalog().len(),
            forall|k: int|
                0 <= k < r.1@.len() ==> outcome_matches_script(scripts@[k], #[trigger] r.1@[k]),
            (final(self).reg_paths(), final(self).reg_vals()) == spec_load(
                old(self).reg_paths(),
                old(self).reg_vals(),
                r.1@,
            ),
            diags_view(r.0@) == spec_load_diags(
                old(self).reg_paths(),
                old(self).reg_vals(),
                mod_paths(old(self).catalog()),
                r.1@,
            ),
    {
        let r = load_mods(&mut self.registry, &self.mods, scripts, host);
        self.phase = BootPhase::PostModLoad;
        r
    }

    /// Phase three: a post-load bind. Resolves a path a feature system
    /// depends on into its handle; sees the full result of the load phase.
    /// Absence is a configuration defect for the caller to treat as fatal,
    /// not a transient condition.
    pub fn bind(&self, path: &str) -> (r: Option<Id>)
        requires
            self.wf(),
            self.phase() is PostModLoad,
        ensures
            match r {
                Some(id) => Some(id.0 as int) == spec_lookup(self.reg_paths(), path@),
                None => spec_lookup(self.reg_paths(), path@) is None,
            },
    {
        self.registry.lookup(path)
    }

    /// The catalog, for phases after discovery.
    pub fn loaded_mods(&self) -> (r: &Mods)
        requires
            !(self.phase() is PreModLoad),
        ensures
            r@ == self.catalog(),
    {
        &self.mods
    }

    /// The registry, for consumers in the post-load phase.
    pub fn loaded_registry(&self) -> (r: &Registry<T>)
        requires
            self.phase() is PostModLoad,
        ensures
            r.paths() == self.reg_paths(),
            r.vals() == self.reg_vals(),
            r.wf() == self.wf(),
    {
        &self.registry
    }
}

/// Phase ordering, first half: a probe against a registry that the load
/// phase has not yet filled (a fresh pipeline's registry is empty, and
/// discovery leaves it untouched) sees no registration at all.
pub proof fn lemma_empty_registry_sees_nothing(p: Seq<char>, id: int)
    ensures
        spec_lookup(Seq::<Seq<char>>::empty(), p) is None,
        spec_resolve(Seq::<Seq<char>>::empty(), id) is None,
{
    if Seq::<Seq<char>>::empty().contains(p) {
        let i = choose|i: int|
            0 <= i < Seq::<Seq<char>>::empty().len() && Seq::<Seq<char>>::empty()[i] == p;
        assert(false);
    }
}

} // verus!
