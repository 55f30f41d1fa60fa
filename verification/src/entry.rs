//! Entry-point fixup: make the conventional initializer run automatically at
//! instantiation, and withdraw it from the public export surface.

use vstd::prelude::*;

use crate::ir::{kind_fn_id, lemma_filter_step, Export, ExportV, FuncV, ItemKind, Module, ModuleV};
use crate::names::{init_name, init_name_string};

verus! {

/// The id of the first function at index `i` or later whose debug name is `n`.
pub open spec fn find_named_from(funcs: Seq<FuncV>, n: Seq<char>, i: int) -> Option<u32>
    decreases funcs.len() - i,
{
    if i < 0 || i >= funcs.len() {
        None
    } else if funcs[i].name == Some(n) {
        Some(funcs[i].id)
    } else {
        find_named_from(funcs, n, i + 1)
    }
}

/// The id of the first function whose debug name is `n`, if any.
pub open spec fn find_named(funcs: Seq<FuncV>, n: Seq<char>) -> Option<u32> {
    find_named_from(funcs, n, 0)
}

/// What installing the start function does: an explicit start always wins;
/// otherwise the first function named like the initializer becomes the start.
pub open spec fn install_start_spec(v: ModuleV) -> ModuleV {
    match v.start {
        Some(_) => v,
        None => (ModuleV { start: find_named(v.funcs, init_name()), ..v }),
    }
}

/// If the module declares no start function and a local function carries the
/// conventional initializer name, install the first such function as the
/// start. A module that already declares a start function is left unchanged,
/// whether or not an initializer-named function exists.
pub fn install_start(m: &mut Module)
    ensures
        final(m)@ == install_start_spec(old(m)@),
        old(m).start is Some ==> *final(m) == *old(m),
{
    let ghost v = old(m)@;
    if m.start.is_some() {
        return ;
    }
    let nm = init_name_string();
    let n = m.funcs.len();
    let mut i: usize = 0;
    while i < n
        invariant
            0 <= i <= n,
            *m == *old(m),
            v == old(m)@,
            old(m).start is None,
            n == m.funcs@.len(),
            nm@ == init_name(),
            find_named(v.funcs, init_name()) == find_named_from(v.funcs, init_name(), i as int),
        decreases n - i,
    {
        let hit = match &m.funcs[i].name {
            Some(s) => s.eq(&nm),
            None => false,
        };
        proof {
            assert(v.funcs[i as int] == m.funcs@[i as int]@);
        }
        if hit {
            m.start = Some(m.funcs[i].id);
            proof {
                assert(v.funcs[i as int].name == Some(init_name()));
                assert(m@ =~= install_start_spec(v));
            }
            return ;
        }
        i += 1;
    }
    proof {
        assert(m@ =~= install_start_spec(v));
    }
}

/// An export survives the fixup unless it targets a function and bears
/// exactly the initializer name.
pub open spec fn keep_export(e: ExportV) -> bool {
    !(kind_fn_id(e.kind) is Some && e.name == init_name())
}

/// What removing the initializer export does: precisely the function-targeted
/// exports named like the initializer disappear; every other export stays, in
/// order, and nothing else of the module moves.
pub open spec fn remove_init_export_spec(v: ModuleV) -> ModuleV {
    ModuleV { exports: v.exports.filter(|e: ExportV| keep_export(e)), ..v }
}

/// Deletes every function-targeted export whose name equals the conventional
/// initializer name, so the initializer is reachable only through automatic
/// instantiation.
pub fn remove_init_export(m: &mut Module)
    ensures
        final(m)@ == remove_init_export_spec(old(m)@),
{
    let ghost v = old(m)@;
    let nm = init_name_string();
    let mut out: Vec<Export> = Vec::new();
    let n = m.exports.len();
    let mut i: usize = 0;
    while i < n
        invariant
            0 <= i <= n,
            *m == *old(m),
            v == old(m)@,
            n == m.exports@.len(),
            nm@ == init_name(),
            out@.map_values(|e: Export| e@) == v.exports.subrange(0, i as int).filter(
                |e: ExportV| keep_export(e),
            ),
        decreases n - i,
    {
        let keep = match m.exports[i].kind {
            ItemKind::Function { .. } => !m.exports[i].name.eq(&nm),
            _ => true,
        };
        proof {
            assert(v.exports[i as int] == m.exports@[i as int]@);
            lemma_filter_step(v.exports, i as int, |e: ExportV| keep_export(e));
        }
        if keep {
            let e = Export { name: m.exports[i].name.clone(), kind: m.exports[i].kind };
            proof {
                assert(e@ == v.exports[i as int]);
            }
            out.push(e);
            proof {
                assert(out@.map_values(|e: Export| e@) =~= v.exports.subrange(
                    0,
                    i as int + 1,
                ).filter(|e: ExportV| keep_export(e)));
            }
        } else {
            proof {
                assert(out@.map_values(|e: Export| e@) =~= v.exports.subrange(
                    0,
                    i as int + 1,
                ).filter(|e: ExportV| keep_export(e)));
            }
        }
        i += 1;
    }
    m.exports = out;
    proof {
        assert(v.exports.subrange(0, n as int) =~= v.exports);
        assert(m@ =~= remove_init_export_spec(v));
    }
}

} // verus!
