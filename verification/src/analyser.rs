//! The one-shot entry point: walk a whole tree from a provider's root
//! and return the finished component tree.

use vstd::prelude::*;

use crate::loader::Compiled;
use crate::payload::{pv_wf, Payload};
use crate::provider::BaseProvider;
use crate::register::Registry;

verus! {

/// How deep the walk will follow nested subdirectories. The walk's
/// termination measure is this bound: a tree nested deeper is cut off
/// there, where directories that deep hold no further listings. The
/// bound is far beyond any realistic repository nesting.
pub const MAX_DEPTH: u32 = 4096;

/// What a scan needs beside the catalog: the provider to read from.
pub struct AnalyserOptions<P: BaseProvider> {
    pub provider: P,
}

/// Scan one tree: a root component named `main` at the provider's
/// base path, filled by one walk from the provider's root listing —
/// the detector pass, then the level's evidence and languages on the
/// root or its freshly detected component.
pub fn analyser<P: BaseProvider>(
    registry: &Registry,
    compiled: &Compiled,
    opts: AnalyserOptions<P>,
) -> (r: Payload)
    requires
        registry.wf(),
        compiled.wf(),
    ensures
        r@.name == "main"@,
        r@.path =~= seq!["/"@],
        r@.tech is None,
        r.parent is None,
        pv_wf(r@),
        exists|
            start: crate::payload::PayloadView,
            fs: Seq<crate::provider::ProviderFile>,
            mid: crate::payload::PayloadView,
        |
            {
                &&& start.name == "main"@
                &&& start.path == seq!["/"@]
                &&& start.tech is None
                &&& start.languages == Seq::<(Seq<char>, int)>::empty()
                &&& start.childs == Seq::<crate::payload::PayloadView>::empty()
                &&& start.techs == Seq::<Seq<char>>::empty()
                &&& start.dependencies == Seq::<Seq<Seq<char>>>::empty()
                &&& start.edges == Seq::<crate::payload::EdgeView>::empty()
                &&& start.reason == Seq::<Seq<char>>::empty()
                &&& crate::provider::pf_views(fs) == opts.provider.list_dir_spec(
                    opts.provider.base_path_spec(),
                )
                &&& #[trigger] crate::payload::detector_chain_ok(
                    &opts.provider,
                    registry.registered_rules@,
                    crate::matching::dm_views(compiled.dependencies@),
                    compiled.components@,
                    fs,
                    start,
                    mid,
                )
                &&& ({
                    let evidence = crate::matching::spec_match_all(
                        registry.registered_rules@,
                        compiled.techs@,
                        compiled.extensions@,
                        fs,
                        opts.provider.base_path_spec(),
                    );
                    ||| (exists|mid2: crate::payload::PayloadView|
                        #[trigger] crate::payload::add_techs_rel(
                            mid,
                            registry.registered_rules@,
                            evidence,
                            mid2,
                        ) && crate::payload::level_files_ok(
                            registry.registered_rules@,
                            crate::provider::pf_views(fs),
                            MAX_DEPTH as int,
                            mid2,
                            r@,
                        ))
                    ||| (exists|
                        ix: int,
                        mid2: crate::payload::PayloadView,
                        c2: crate::payload::PayloadView,
                    |
                        #![trigger crate::payload::add_techs_rel(mid.childs[ix], registry.registered_rules@, evidence, mid2), crate::payload::level_files_ok(registry.registered_rules@, crate::provider::pf_views(fs), MAX_DEPTH as int, mid2, c2)]
                        {
                            &&& 0 <= ix < mid.childs.len()
                            &&& crate::payload::add_techs_rel(
                                mid.childs[ix],
                                registry.registered_rules@,
                                evidence,
                                mid2,
                            )
                            &&& crate::payload::level_files_ok(
                                registry.registered_rules@,
                                crate::provider::pf_views(fs),
                                MAX_DEPTH as int,
                                mid2,
                                c2,
                            )
                            &&& r@ == (crate::payload::PayloadView {
                                childs: mid.childs.update(ix, c2),
                                ..mid
                            })
                        })
                })
            },
{
    let provider = opts.provider;
    let mut pl = Payload::new("main", "/");
    let ghost start = pl@;
    let base = provider.base_path();
    pl.recurse(registry, compiled, &provider, base.as_str(), MAX_DEPTH);
    proof {
        assert(base@ == provider.base_path_spec());
    }
    pl
}

} // verus!
