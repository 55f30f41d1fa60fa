//! The pipeline: call-graph rewriting, entry-point fixup, and dead-code
//! elimination, in that fixed order, with the module invariant carried
//! through every pass.

use vstd::prelude::*;

use crate::entry::{
    find_named, find_named_from, install_start, install_start_spec, remove_init_export,
    remove_init_export_spec,
};
use crate::ir::{
    declares_fn, func_refs, func_wf, ids_distinct, instr_target, is_import_fn_id, is_local_id,
    kind_fn_id, lemma_filter_member_index, lemma_filter_two_indices, wf, Instr, Module, ModuleV,
};
use crate::rewrite::{
    call_replace, dup_import_names, dup_replacement_names, import_candidate, is_dup_import_name,
    is_dup_replacement_name, lemma_redirect_endpoints, lemma_subst_leaves_no_key, pair_at,
    redirect_map, redirected, redirects, rewrite_ok, rewrite_spec, subst_func, subst_id,
    subst_instr, subst_seq, StripError,
};
use crate::sweep::{
    import_live, is_root, lemma_reachable_step, reach, reachable, remove_unused, sweep_spec,
};

verus! {

/// What the whole pipeline does to a module, given an unambiguous
/// correspondence: rewrite, install the start function, remove the
/// initializer export, then sweep what is unreachable.
pub open spec fn pipeline_spec(v: ModuleV, prefixes: Seq<Seq<char>>) -> ModuleV {
    sweep_spec(remove_init_export_spec(install_start_spec(rewrite_spec(v, prefixes))))
}

/// Rewriting changes no id that substitution maps to: the map's values are
/// ids of local functions of `v`.
proof fn lemma_subst_id_declared(v: ModuleV, prefixes: Seq<Seq<char>>, t: u32)
    requires
        declares_fn(v, t),
    ensures
        declares_fn(v, subst_id(redirect_map(v, prefixes), t)),
{
    let rm = redirect_map(v, prefixes);
    if rm.dom().contains(t) {
        assert(redirects(v, prefixes, t, rm[t]));
        lemma_redirect_endpoints(v, prefixes, t, rm[t]);
    }
}

/// The rewriter declares exactly the ids the input module declares.
proof fn lemma_rewrite_same_decls(v: ModuleV, prefixes: Seq<Seq<char>>, id: u32)
    ensures
        declares_fn(rewrite_spec(v, prefixes), id) == declares_fn(v, id),
{
    let v2 = rewrite_spec(v, prefixes);
    assert(v2.imports == v.imports);
    assert(v2.funcs.len() == v.funcs.len());
    assert forall|i: int| 0 <= i < v.funcs.len() implies (#[trigger] v2.funcs[i]).id
        == v.funcs[i].id by {
        assert(v2.funcs[i] == subst_func(redirect_map(v, prefixes), v.funcs[i]));
    }
    if is_local_id(v, id) {
        let i = choose|i: int| 0 <= i < v.funcs.len() && #[trigger] v.funcs[i].id == id;
        assert(v2.funcs[i].id == id);
    }
    if is_local_id(v2, id) {
        let i = choose|i: int| 0 <= i < v2.funcs.len() && #[trigger] v2.funcs[i].id == id;
        assert(v.funcs[i].id == id);
    }
}

/// The call-graph rewriter preserves the module invariant.
pub proof fn lemma_rewrite_preserves_wf(v: ModuleV, prefixes: Seq<Seq<char>>)
    requires
        wf(v),
    ensures
        wf(rewrite_spec(v, prefixes)),
{
    let rm = redirect_map(v, prefixes);
    let v2 = rewrite_spec(v, prefixes);
    assert forall|i: int| 0 <= i < v.funcs.len() implies #[trigger] v2.funcs[i] == subst_func(
        rm,
        v.funcs[i],
    ) by {}
    assert forall|i: int| 0 <= i < v.funcs.len() implies (#[trigger] v2.funcs[i]).id
        == v.funcs[i].id && v2.funcs[i].name == v.funcs[i].name by {}
    // ids stay distinct
    assert(ids_distinct(v2));
    // bodies stay well-formed
    assert forall|fi: int| 0 <= fi < v2.funcs.len() implies func_wf(#[trigger] v2.funcs[fi]) by {
        let f = v.funcs[fi];
        let g = v2.funcs[fi];
        assert(g.seqs == f.seqs.map_values(|s: Seq<crate::ir::Instr>| subst_seq(rm, s)));
        assert forall|s: int, k: int|
            0 <= s < g.seqs.len() && 0 <= k < g.seqs[s].len() implies crate::ir::instr_children_ok(
            #[trigger] g.seqs[s][k],
            g.seqs.len() as int,
        ) by {
            assert(g.seqs[s] == subst_seq(rm, f.seqs[s]));
            assert(g.seqs[s][k] == subst_instr(rm, f.seqs[s][k]));
            assert(crate::ir::instr_children_ok(f.seqs[s][k], f.seqs.len() as int));
        }
    }
    // references still resolve
    assert forall|fi: int, id: u32|
        0 <= fi < v2.funcs.len() && #[trigger] func_refs(v2.funcs[fi], id) implies declares_fn(
        v2,
        id,
    ) by {
        let g = v2.funcs[fi];
        let f = v.funcs[fi];
        let (s, k) = choose|s: int, k: int|
            0 <= s < g.seqs.len() && 0 <= k < g.seqs[s].len() && instr_target(
                #[trigger] g.seqs[s][k],
            ) == Some(id);
        assert(g.seqs[s] == subst_seq(rm, f.seqs[s]));
        assert(g.seqs[s][k] == subst_instr(rm, f.seqs[s][k]));
        let t = instr_target(f.seqs[s][k])->Some_0;
        assert(instr_target(f.seqs[s][k]) == Some(t));
        assert(id == subst_id(rm, t));
        assert(func_refs(f, t));
        assert(declares_fn(v, t));
        lemma_subst_id_declared(v, prefixes, t);
        lemma_rewrite_same_decls(v, prefixes, id);
    }
    assert forall|e: int, k: int|
        0 <= e < v2.elements.len() && 0 <= k < v2.elements[e].len() implies declares_fn(
        v2,
        #[trigger] v2.elements[e][k],
    ) by {
        assert(v2.elements[e] == v.elements[e].map_values(|id: u32| subst_id(rm, id)));
        let t = v.elements[e][k];
        assert(v2.elements[e][k] == subst_id(rm, t));
        assert(declares_fn(v, t));
        lemma_subst_id_declared(v, prefixes, t);
        lemma_rewrite_same_decls(v, prefixes, subst_id(rm, t));
    }
    assert forall|i: int| 0 <= i < v2.exports.len() implies match kind_fn_id(
        #[trigger] v2.exports[i].kind,
    ) {
        Some(id) => declares_fn(v2, id),
        None => true,
    } by {
        match kind_fn_id(v2.exports[i].kind) {
            Some(id) => {
                lemma_rewrite_same_decls(v, prefixes, id);
            },
            None => {},
        }
    }
    assert forall|g: int| 0 <= g < v2.globals.len() implies match #[trigger] v2.globals[g] {
        Some(id) => declares_fn(v2, id),
        None => true,
    } by {
        match v2.globals[g] {
            Some(id) => {
                lemma_rewrite_same_decls(v, prefixes, id);
            },
            None => {},
        }
    }
    match v2.start {
        Some(id) => {
            lemma_rewrite_same_decls(v, prefixes, id);
        },
        None => {},
    }
}

/// A hit of the name search is a local function of the module.
proof fn lemma_find_named_is_local(funcs: Seq<crate::ir::FuncV>, n: Seq<char>, i: int, id: u32)
    requires
        0 <= i,
        find_named_from(funcs, n, i) == Some(id),
    ensures
        exists|j: int| 0 <= j < funcs.len() && #[trigger] funcs[j].id == id,
    decreases funcs.len() - i,
{
    if i < funcs.len() {
        if funcs[i].name == Some(n) {
            assert(funcs[i].id == id);
        } else {
            lemma_find_named_is_local(funcs, n, i + 1, id);
        }
    }
}

/// Entry-point installation preserves the module invariant.
pub proof fn lemma_install_start_preserves_wf(v: ModuleV)
    requires
        wf(v),
    ensures
        wf(install_start_spec(v)),
{
    let v2 = install_start_spec(v);
    match v.start {
        Some(_) => {},
        None => {
            match v2.start {
                Some(id) => {
                    lemma_find_named_is_local(v.funcs, crate::names::init_name(), 0, id);
                    assert(is_local_id(v, id));
                },
                None => {},
            }
        },
    }
}

/// Export removal preserves the module invariant.
pub proof fn lemma_remove_init_export_preserves_wf(v: ModuleV)
    requires
        wf(v),
    ensures
        wf(remove_init_export_spec(v)),
{
    let v2 = remove_init_export_spec(v);
    assert forall|i: int| 0 <= i < v2.exports.len() implies match kind_fn_id(
        #[trigger] v2.exports[i].kind,
    ) {
        Some(id) => declares_fn(v2, id),
        None => true,
    } by {
        lemma_filter_member_index(
            v.exports,
            |e: crate::ir::ExportV| crate::entry::keep_export(e),
            i,
        );
        let i0 = choose|i0: int| 0 <= i0 < v.exports.len() && v.exports[i0] == v2.exports[i];
        match kind_fn_id(v.exports[i0].kind) {
            Some(id) => {
                assert(declares_fn(v, id));
            },
            None => {},
        }
    }
}

/// A declared id that is reachable stays declared after the sweep.
proof fn lemma_kept_declared(v: ModuleV, id: u32)
    requires
        declares_fn(v, id),
        reachable(v, id),
    ensures
        declares_fn(sweep_spec(v), id),
{
    let v2 = sweep_spec(v);
    if is_import_fn_id(v, id) {
        let i = choose|i: int|
            0 <= i < v.imports.len() && kind_fn_id(#[trigger] v.imports[i].kind) == Some(id);
        assert(import_live(v, v.imports[i]));
        v.imports.lemma_filter_contains(|iv: crate::ir::ImportV| import_live(v, iv), i);
        let j = choose|j: int| 0 <= j < v2.imports.len() && v2.imports[j] == v.imports[i];
        assert(kind_fn_id(v2.imports[j].kind) == Some(id));
    } else {
        let i = choose|i: int| 0 <= i < v.funcs.len() && #[trigger] v.funcs[i].id == id;
        v.funcs.lemma_filter_contains(|fv: crate::ir::FuncV| reachable(v, fv.id), i);
        let j = choose|j: int| 0 <= j < v2.funcs.len() && v2.funcs[j] == v.funcs[i];
        assert(v2.funcs[j].id == id);
    }
}

/// The sweep preserves the module invariant: what it keeps never references
/// what it deletes.
pub proof fn lemma_sweep_preserves_wf(v: ModuleV)
    requires
        wf(v),
    ensures
        wf(sweep_spec(v)),
{
    let v2 = sweep_spec(v);
    let ipred = |iv: crate::ir::ImportV| import_live(v, iv);
    let fpred = |fv: crate::ir::FuncV| reachable(v, fv.id);
    // ids stay distinct
    assert forall|i: int, j: int|
        0 <= i < v2.imports.len() && 0 <= j < v2.imports.len() && i != j && kind_fn_id(
            #[trigger] v2.imports[i].kind,
        ) is Some implies kind_fn_id(v2.imports[i].kind) != kind_fn_id(
        #[trigger] v2.imports[j].kind,
    ) by {
        if i < j {
            lemma_filter_two_indices(v.imports, ipred, i, j);
        } else {
            lemma_filter_two_indices(v.imports, ipred, j, i);
        }
    }
    assert forall|i: int, j: int|
        0 <= i < v2.funcs.len() && 0 <= j < v2.funcs.len() && i != j implies (
    #[trigger] v2.funcs[i]).id != (#[trigger] v2.funcs[j]).id by {
        if i < j {
            lemma_filter_two_indices(v.funcs, fpred, i, j);
        } else {
            lemma_filter_two_indices(v.funcs, fpred, j, i);
        }
    }
    assert forall|i: int, j: int|
        0 <= i < v2.imports.len() && 0 <= j < v2.funcs.len() implies kind_fn_id(
        #[trigger] v2.imports[i].kind,
    ) != Some((#[trigger] v2.funcs[j]).id) by {
        lemma_filter_member_index(v.imports, ipred, i);
        lemma_filter_member_index(v.funcs, fpred, j);
    }
    // kept bodies stay well-formed
    assert forall|fi: int| 0 <= fi < v2.funcs.len() implies func_wf(#[trigger] v2.funcs[fi]) by {
        lemma_filter_member_index(v.funcs, fpred, fi);
    }
    // references of kept functions resolve among what is kept
    assert forall|fi: int, id: u32|
        0 <= fi < v2.funcs.len() && #[trigger] func_refs(v2.funcs[fi], id) implies declares_fn(
        v2,
        id,
    ) by {
        lemma_filter_member_index(v.funcs, fpred, fi);
        let i0 = choose|i0: int| 0 <= i0 < v.funcs.len() && v.funcs[i0] == v2.funcs[fi];
        v.funcs.lemma_filter_pred(fpred, fi);
        assert(reachable(v, v.funcs[i0].id));
        assert(func_refs(v.funcs[i0], id));
        assert(declares_fn(v, id));
        lemma_reachable_step(v, i0, id);
        lemma_kept_declared(v, id);
    }
    assert forall|e: int, k: int|
        0 <= e < v2.elements.len() && 0 <= k < v2.elements[e].len() implies declares_fn(
        v2,
        #[trigger] v2.elements[e][k],
    ) by {
        let id = v.elements[e][k];
        assert(is_root(v, id));
        assert(reach(v, id, 0));
        assert(reachable(v, id));
        assert(declares_fn(v, id));
        lemma_kept_declared(v, id);
    }
    assert forall|i: int| 0 <= i < v2.exports.len() implies match kind_fn_id(
        #[trigger] v2.exports[i].kind,
    ) {
        Some(id) => declares_fn(v2, id),
        None => true,
    } by {
        match kind_fn_id(v.exports[i].kind) {
            Some(id) => {
                assert(is_root(v, id));
                assert(reach(v, id, 0));
                assert(reachable(v, id));
                lemma_kept_declared(v, id);
            },
            None => {},
        }
    }
    assert forall|g: int| 0 <= g < v2.globals.len() implies match #[trigger] v2.globals[g] {
        Some(id) => declares_fn(v2, id),
        None => true,
    } by {
        match v.globals[g] {
            Some(id) => {
                assert(is_root(v, id));
                assert(reach(v, id, 0));
                assert(reachable(v, id));
                lemma_kept_declared(v, id);
            },
            None => {},
        }
    }
    match v2.start {
        Some(id) => {
            assert(is_root(v, id));
            assert(reach(v, id, 0));
            assert(reachable(v, id));
            lemma_kept_declared(v, id);
        },
        None => {},
    }
}

/// Runs the full pipeline over one module: redirect every use of a
/// redirectable host import to its embedded replacement, install the
/// initializer as the start function, remove its export, and delete what is
/// no longer reachable. On a configuration error (an ambiguous name
/// correspondence) the module is left exactly as it was.
pub fn strip_module(m: &mut Module, prefixes: &Vec<String>) -> (r: Result<(), StripError>)
    requires
        wf(old(m)@),
    ensures
        match r {
            Ok(()) => ({
                &&& rewrite_ok(old(m)@, prefixes.deep_view())
                &&& final(m)@ == pipeline_spec(old(m)@, prefixes.deep_view())
                &&& wf(final(m)@)
            }),
            Err(e) => ({
                &&& *final(m) == *old(m)
                &&& !rewrite_ok(old(m)@, prefixes.deep_view())
                &&& match e {
                    StripError::DuplicateImportName { name } => is_dup_import_name(
                        old(m)@.imports,
                        name@,
                    ),
                    StripError::DuplicateReplacementName { name } => is_dup_replacement_name(
                        old(m)@.funcs,
                        prefixes.deep_view(),
                        name@,
                    ),
                }
            }),
        },
{
    let ghost v = old(m)@;
    let ghost pfx = prefixes.deep_view();
    match call_replace(m, prefixes) {
        Err(e) => {
            return Err(e);
        },
        Ok(()) => {},
    }
    proof {
        lemma_rewrite_preserves_wf(v, pfx);
    }
    let ghost v1 = rewrite_spec(v, pfx);
    install_start(m);
    proof {
        lemma_install_start_preserves_wf(v1);
    }
    let ghost v2 = install_start_spec(v1);
    remove_init_export(m);
    proof {
        lemma_remove_init_export_preserves_wf(v2);
    }
    let ghost v3 = remove_init_export_spec(v2);
    remove_unused(m);
    proof {
        lemma_sweep_preserves_wf(v3);
    }
    Ok(())
}

/// The name search misses exactly when no function bears the name.
proof fn lemma_find_named_none(funcs: Seq<crate::ir::FuncV>, n: Seq<char>, i: int)
    requires
        0 <= i <= funcs.len(),
    ensures
        (find_named_from(funcs, n, i) is None) == (forall|j: int|
            i <= j < funcs.len() ==> (#[trigger] funcs[j]).name != Some(n)),
    decreases funcs.len() - i,
{
    if i < funcs.len() {
        lemma_find_named_none(funcs, n, i + 1);
    }
}

/// The sweep does not change what is reachable: reachability restricted to
/// the kept functions reaches exactly the same ids.
proof fn lemma_sweep_same_reach(v: ModuleV, id: u32, k: nat)
    ensures
        reach(sweep_spec(v), id, k) == reach(v, id, k),
    decreases k,
{
    let v2 = sweep_spec(v);
    let fpred = |fv: crate::ir::FuncV| reachable(v, fv.id);
    assert(is_root(v2, id) == is_root(v, id)) by {
        assert(v2.exports == v.exports && v2.start == v.start && v2.elements == v.elements
            && v2.globals == v.globals);
    }
    if k > 0 {
        lemma_sweep_same_reach(v, id, (k - 1) as nat);
        if reach(v2, id, k) && !reach(v2, id, (k - 1) as nat) {
            let fi = choose|fi: int|
                0 <= fi < v2.funcs.len() && reach(v2, v2.funcs[fi].id, (k - 1) as nat)
                    && #[trigger] func_refs(v2.funcs[fi], id);
            lemma_filter_member_index(v.funcs, fpred, fi);
            let fi0 = choose|fi0: int| 0 <= fi0 < v.funcs.len() && v.funcs[fi0] == v2.funcs[fi];
            lemma_sweep_same_reach(v, v.funcs[fi0].id, (k - 1) as nat);
            assert(reach(v, v.funcs[fi0].id, (k - 1) as nat));
            assert(func_refs(v.funcs[fi0], id));
            assert(reach(v, id, k));
        }
        if reach(v, id, k) && !reach(v, id, (k - 1) as nat) {
            let fi0 = choose|fi0: int|
                0 <= fi0 < v.funcs.len() && reach(v, v.funcs[fi0].id, (k - 1) as nat)
                    && #[trigger] func_refs(v.funcs[fi0], id);
            assert(reachable(v, v.funcs[fi0].id)) by {
                assert(reach(v, v.funcs[fi0].id, (k - 1) as nat));
            }
            v.funcs.lemma_filter_contains(fpred, fi0);
            let fi = choose|fi: int| 0 <= fi < v2.funcs.len() && v2.funcs[fi] == v.funcs[fi0];
            lemma_sweep_same_reach(v, v2.funcs[fi].id, (k - 1) as nat);
            assert(reach(v2, v2.funcs[fi].id, (k - 1) as nat));
            assert(func_refs(v2.funcs[fi], id));
            assert(reach(v2, id, k));
        }
    }
}

/// Idempotence: running the pipeline a second time changes nothing. After one
/// run no matching name correspondence has a surviving use site, no
/// initializer export remains, the start slot is settled, and everything kept
/// is reachable, so each pass is the identity on the result.
pub proof fn lemma_pipeline_idempotent(v: ModuleV, prefixes: Seq<Seq<char>>)
    requires
        wf(v),
        rewrite_ok(v, prefixes),
    ensures
        rewrite_ok(pipeline_spec(v, prefixes), prefixes),
        pipeline_spec(pipeline_spec(v, prefixes), prefixes) == pipeline_spec(v, prefixes),
{
    let rm = redirect_map(v, prefixes);
    let v1 = rewrite_spec(v, prefixes);
    let v2 = install_start_spec(v1);
    let v3 = remove_init_export_spec(v2);
    let v4 = sweep_spec(v3);
    assert(v4 == pipeline_spec(v, prefixes));
    let ipred = |iv: crate::ir::ImportV| import_live(v3, iv);
    let fpred3 = |fv: crate::ir::FuncV| reachable(v3, fv.id);
    // field bookkeeping across the passes
    assert(v4.imports == v.imports.filter(ipred));
    assert(v3.funcs == v1.funcs && v2.funcs == v1.funcs);
    assert(v4.funcs == v1.funcs.filter(fpred3));
    assert(v4.elements == v1.elements && v4.start == v2.start && v4.globals == v.globals);
    assert(v4.exports == v2.exports.filter(|e: crate::ir::ExportV| crate::entry::keep_export(e)));
    assert(v2.exports == v.exports);
    assert forall|j: int| 0 <= j < v.funcs.len() implies (#[trigger] v1.funcs[j]).name
        == v.funcs[j].name && v1.funcs[j].id == v.funcs[j].id by {
        assert(v1.funcs[j] == subst_func(rm, v.funcs[j]));
    }
    // the second correspondence is unambiguous
    assert(!dup_import_names(v4.imports)) by {
        if dup_import_names(v4.imports) {
            let n = choose|n: Seq<char>| is_dup_import_name(v4.imports, n);
            let (i, j) = choose|i: int, j: int|
                0 <= i < j < v4.imports.len() && import_candidate(#[trigger] v4.imports[i])
                    && import_candidate(#[trigger] v4.imports[j]) && v4.imports[i].name == n
                    && v4.imports[j].name == n;
            lemma_filter_two_indices(v.imports, ipred, i, j);
            let (i0, j0) = choose|i0: int, j0: int|
                #![trigger v.imports[i0], v.imports[j0]]
                0 <= i0 < j0 < v.imports.len() && v.imports[i0] == v4.imports[i] && v.imports[j0]
                    == v4.imports[j];
            assert(is_dup_import_name(v.imports, n));
        }
    }
    assert(!dup_replacement_names(v4.funcs, prefixes)) by {
        if dup_replacement_names(v4.funcs, prefixes) {
            let n = choose|n: Seq<char>| is_dup_replacement_name(v4.funcs, prefixes, n);
            let (i, j) = choose|i: int, j: int|
                0 <= i < j < v4.funcs.len() && crate::names::replacement_name(
                    prefixes,
                    #[trigger] v4.funcs[i].name,
                ) == Some(n) && crate::names::replacement_name(
                    prefixes,
                    #[trigger] v4.funcs[j].name,
                ) == Some(n);
            lemma_filter_two_indices(v1.funcs, fpred3, i, j);
            let (i0, j0) = choose|i0: int, j0: int|
                #![trigger v1.funcs[i0], v1.funcs[j0]]
                0 <= i0 < j0 < v1.funcs.len() && v1.funcs[i0] == v4.funcs[i] && v1.funcs[j0]
                    == v4.funcs[j];
            assert(v.funcs[i0].name == v4.funcs[i].name);
            assert(v.funcs[j0].name == v4.funcs[j].name);
            assert(is_dup_replacement_name(v.funcs, prefixes, n));
        }
    }
    assert(rewrite_ok(v4, prefixes));
    // a redirect of the result was already a redirect of the input module
    assert forall|a: u32| #[trigger] redirected(v4, prefixes, a) implies redirected(
        v,
        prefixes,
        a,
    ) by {
        let b = choose|b: u32| redirects(v4, prefixes, a, b);
        let (i, j) = choose|i: int, j: int|
            #[trigger] pair_at(v4, prefixes, i, j) && kind_fn_id(v4.imports[i].kind) == Some(a)
                && v4.funcs[j].id == b;
        lemma_filter_member_index(v.imports, ipred, i);
        let i0 = choose|i0: int| 0 <= i0 < v.imports.len() && v.imports[i0] == v4.imports[i];
        lemma_filter_member_index(v1.funcs, fpred3, j);
        let j0 = choose|j0: int| 0 <= j0 < v1.funcs.len() && v1.funcs[j0] == v4.funcs[j];
        assert(v.funcs[j0].name == v4.funcs[j].name);
        assert(pair_at(v, prefixes, i0, j0));
        assert(redirects(v, prefixes, a, v.funcs[j0].id));
    }
    let rm4 = redirect_map(v4, prefixes);
    // rewriting again substitutes nothing
    let w1 = rewrite_spec(v4, prefixes);
    assert(w1 == v4) by {
        assert forall|fi: int| 0 <= fi < v4.funcs.len() implies #[trigger] w1.funcs[fi]
            == v4.funcs[fi] by {
            let f = v4.funcs[fi];
            assert(w1.funcs[fi] == subst_func(rm4, f));
            lemma_filter_member_index(v1.funcs, fpred3, fi);
            let fi0 = choose|fi0: int| 0 <= fi0 < v1.funcs.len() && v1.funcs[fi0] == v4.funcs[fi];
            assert(v1.funcs[fi0] == subst_func(rm, v.funcs[fi0]));
            assert forall|s: int| 0 <= s < f.seqs.len() implies #[trigger] subst_func(
                rm4,
                f,
            ).seqs[s] == f.seqs[s] by {
                assert(subst_func(rm4, f).seqs[s] == subst_seq(rm4, f.seqs[s]));
                assert(f.seqs[s] == subst_seq(rm, v.funcs[fi0].seqs[s]));
                assert forall|k: int| 0 <= k < f.seqs[s].len() implies #[trigger] subst_seq(
                    rm4,
                    f.seqs[s],
                )[k] == f.seqs[s][k] by {
                    assert(subst_seq(rm4, f.seqs[s])[k] == subst_instr(rm4, f.seqs[s][k]));
                    assert(f.seqs[s][k] == subst_instr(rm, v.funcs[fi0].seqs[s][k]));
                    match v.funcs[fi0].seqs[s][k] {
                        Instr::Call { func } => {
                            lemma_subst_leaves_no_key(v, prefixes, func);
                            assert(!redirected(v4, prefixes, subst_id(rm, func)));
                        },
                        Instr::ReturnCall { func } => {
                            lemma_subst_leaves_no_key(v, prefixes, func);
                            assert(!redirected(v4, prefixes, subst_id(rm, func)));
                        },
                        Instr::RefFunc { func } => {
                            lemma_subst_leaves_no_key(v, prefixes, func);
                            assert(!redirected(v4, prefixes, subst_id(rm, func)));
                        },
                        _ => {},
                    }
                }
                assert(subst_func(rm4, f).seqs[s] =~= f.seqs[s]);
            }
            assert(subst_func(rm4, f).seqs =~= f.seqs);
            assert(subst_func(rm4, f) =~= f);
        }
        assert forall|e: int| 0 <= e < v4.elements.len() implies #[trigger] w1.elements[e]
            == v4.elements[e] by {
            assert(w1.elements[e] == v4.elements[e].map_values(|id: u32| subst_id(rm4, id)));
            assert(v4.elements[e] == v.elements[e].map_values(|id: u32| subst_id(rm, id)));
            assert forall|k: int| 0 <= k < v4.elements[e].len() implies #[trigger] w1.elements[e][k]
                == v4.elements[e][k] by {
                assert(v4.elements[e][k] == subst_id(rm, v.elements[e][k]));
                lemma_subst_leaves_no_key(v, prefixes, v.elements[e][k]);
                assert(!redirected(v4, prefixes, v4.elements[e][k]));
            }
            assert(w1.elements[e] =~= v4.elements[e]);
        }
        assert(w1.funcs =~= v4.funcs);
        assert(w1.elements =~= v4.elements);
        assert(w1 =~= v4);
    }
    // the start slot is already settled
    let w2 = install_start_spec(v4);
    assert(w2 == v4) by {
        match v4.start {
            Some(_) => {},
            None => {
                assert(v2.start is None);
                assert(v1.start is None);
                assert(find_named(v1.funcs, crate::names::init_name()) is None);
                lemma_find_named_none(v1.funcs, crate::names::init_name(), 0);
                assert forall|j: int| 0 <= j < v4.funcs.len() implies (
                #[trigger] v4.funcs[j]).name != Some(crate::names::init_name()) by {
                    lemma_filter_member_index(v1.funcs, fpred3, j);
                }
                lemma_find_named_none(v4.funcs, crate::names::init_name(), 0);
                assert(w2 =~= v4);
            },
        }
    }
    // no initializer export remains
    let w3 = remove_init_export_spec(v4);
    assert(w3 == v4) by {
        let kpred = |e: crate::ir::ExportV| crate::entry::keep_export(e);
        crate::ir::lemma_filter_idem(v.exports, kpred);
        assert(w3 =~= v4);
    }
    // everything kept is reachable, so the sweep keeps everything
    let w4 = sweep_spec(v4);
    assert(w4 == v4) by {
        let ipred4 = |iv: crate::ir::ImportV| import_live(v4, iv);
        let fpred4 = |fv: crate::ir::FuncV| reachable(v4, fv.id);
        assert forall|id: u32| #[trigger] reachable(v4, id) == reachable(v3, id) by {
            if reachable(v4, id) {
                let k = choose|k: nat| reach(v4, id, k);
                lemma_sweep_same_reach(v3, id, k);
            }
            if reachable(v3, id) {
                let k = choose|k: nat| reach(v3, id, k);
                lemma_sweep_same_reach(v3, id, k);
                assert(reach(v4, id, k));
            }
        }
        assert forall|i: int| 0 <= i < v4.imports.len() implies ipred4(#[trigger] v4.imports[i])
            == ipred(v4.imports[i]) by {
            match kind_fn_id(v4.imports[i].kind) {
                Some(id) => {
                    assert(reachable(v4, id) == reachable(v3, id));
                },
                None => {},
            }
        }
        crate::ir::lemma_filter_congruence(v4.imports, ipred4, ipred);
        assert(v4.imports.filter(ipred) == v.imports.filter(ipred).filter(ipred)) by {
            assert(v4.imports == v.imports.filter(ipred));
        }
        crate::ir::lemma_filter_idem(v.imports, ipred);
        assert(w4.imports == v4.imports);
        assert forall|j: int| 0 <= j < v4.funcs.len() implies fpred4(#[trigger] v4.funcs[j])
            == fpred3(v4.funcs[j]) by {
            assert(reachable(v4, v4.funcs[j].id) == reachable(v3, v4.funcs[j].id));
        }
        crate::ir::lemma_filter_congruence(v4.funcs, fpred4, fpred3);
        assert(v4.funcs.filter(fpred3) == v1.funcs.filter(fpred3).filter(fpred3)) by {
            assert(v4.funcs == v1.funcs.filter(fpred3));
        }
        crate::ir::lemma_filter_idem(v1.funcs, fpred3);
        assert(w4.funcs == v4.funcs);
        assert(w4 =~= v4);
    }
    assert(pipeline_spec(v4, prefixes) == sweep_spec(remove_init_export_spec(install_start_spec(
        rewrite_spec(v4, prefixes),
    ))));
    assert(pipeline_spec(v4, prefixes) == v4);
}

} // verus!
