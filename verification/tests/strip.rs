use wasi_strip::entry::{install_start, remove_init_export};
use wasi_strip::ir::{Export, Func, Import, Instr, ItemKind, Module};
use wasi_strip::names::{is_recognized_namespace, strip_marker};
use wasi_strip::pipeline::strip_module;
use wasi_strip::rewrite::{call_replace, StripError};
use wasi_strip::sweep::remove_unused;

fn nop_func(id: u32, name: &str) -> Func {
    Func { id, name: Some(name.to_string()), seqs: vec![vec![Instr::Other]] }
}

fn proc_exit_import(id: u32) -> Import {
    Import {
        namespace: "wasi_snapshot_preview1".to_string(),
        name: "proc_exit".to_string(),
        kind: ItemKind::Function { func: id },
    }
}

fn has_import(m: &Module, namespace: &str, name: &str) -> bool {
    m.imports.iter().any(|i| i.namespace == namespace && i.name == name)
}

fn instr_eq(a: &Instr, b: &Instr) -> bool {
    a == b
}

fn func_eq(a: &Func, b: &Func) -> bool {
    a.id == b.id && a.name == b.name && a.seqs.len() == b.seqs.len()
        && a.seqs.iter().zip(b.seqs.iter()).all(|(x, y)| {
            x.len() == y.len() && x.iter().zip(y.iter()).all(|(i, j)| instr_eq(i, j))
        })
}

fn module_eq(a: &Module, b: &Module) -> bool {
    a.imports.len() == b.imports.len()
        && a.imports.iter().zip(b.imports.iter()).all(|(x, y)| {
            x.namespace == y.namespace && x.name == y.name && x.kind == y.kind
        })
        && a.funcs.len() == b.funcs.len()
        && a.funcs.iter().zip(b.funcs.iter()).all(|(x, y)| func_eq(x, y))
        && a.elements == b.elements
        && a.globals == b.globals
        && a.exports.len() == b.exports.len()
        && a.exports.iter().zip(b.exports.iter()).all(|(x, y)| {
            x.name == y.name && x.kind == y.kind
        })
        && a.start == b.start
}

/// No instruction anywhere in the module, at any nesting depth, targets `id`.
fn targets_id(m: &Module, id: u32) -> bool {
    let in_funcs = m.funcs.iter().any(|f| {
        f.seqs.iter().any(|s| {
            s.iter().any(|i| match i {
                Instr::Call { func } => *func == id,
                Instr::ReturnCall { func } => *func == id,
                Instr::RefFunc { func } => *func == id,
                _ => false,
            })
        })
    });
    let in_elements = m.elements.iter().any(|e| e.iter().any(|f| *f == id));
    in_funcs || in_elements
}

#[test]
fn test_add_start_entry() {
    let mut m = Module {
        imports: vec![],
        funcs: vec![nop_func(0, "_initialize")],
        elements: vec![],
        globals: vec![],
        exports: vec![],
        start: None,
    };

    assert!(m.start.is_none());
    install_start(&mut m);
    assert!(m.start.is_some());
}

#[test]
fn test_remove_start_export() {
    let mut m = Module {
        imports: vec![],
        funcs: vec![nop_func(0, "_initialize")],
        elements: vec![],
        globals: vec![],
        exports: vec![Export {
            name: "_initialize".to_string(),
            kind: ItemKind::Function { func: 0 },
        }],
        start: None,
    };

    remove_init_export(&mut m);

    for e in m.exports.iter() {
        if e.name.starts_with("_initialize") {
            panic!("module still contains _initialize export");
        }
    }
}

#[test]
fn test_remove_unsued() {
    let mut m = Module {
        imports: vec![proc_exit_import(0)],
        funcs: vec![nop_func(1, "_initialize")],
        elements: vec![],
        globals: vec![],
        exports: vec![],
        start: None,
    };

    remove_unused(&mut m);

    assert!(!has_import(&m, "wasi_snapshot_preview1", "proc_exit"));
}

#[test]
fn test_replacement() {
    let mut m = Module {
        imports: vec![proc_exit_import(0)],
        funcs: vec![
            nop_func(1, "__prefix_proc_exit"),
            Func {
                id: 2,
                name: Some("_initialize".to_string()),
                seqs: vec![vec![Instr::Other, Instr::Call { func: 0 }]],
            },
        ],
        elements: vec![],
        globals: vec![],
        exports: vec![],
        start: None,
    };

    let r = call_replace(&mut m, &vec!["__prefix_".to_string()]);
    assert!(r.is_ok());
}

#[test]
fn test_rewrite_noop_without_correspondence() {
    let make = || Module {
        imports: vec![proc_exit_import(0)],
        funcs: vec![
            nop_func(1, "helper"),
            Func {
                id: 2,
                name: Some("_start".to_string()),
                seqs: vec![vec![Instr::Call { func: 0 }]],
            },
        ],
        elements: vec![vec![2]],
        globals: vec![None],
        exports: vec![Export { name: "_start".to_string(), kind: ItemKind::Function { func: 2 } }],
        start: None,
    };
    let mut m = make();
    let r = call_replace(&mut m, &vec!["__shim_".to_string()]);
    assert!(r.is_ok());
    assert!(module_eq(&m, &make()));
}

#[test]
fn test_rewrite_substitutes_every_use_site() {
    let mut m = Module {
        imports: vec![proc_exit_import(0)],
        funcs: vec![
            nop_func(1, "__shim_proc_exit"),
            Func {
                id: 2,
                name: Some("main".to_string()),
                seqs: vec![
                    vec![
                        Instr::Call { func: 0 },
                        Instr::Block { seq: 1 },
                        Instr::IfElse { consequent: 2, alternative: 3 },
                    ],
                    vec![Instr::ReturnCall { func: 0 }, Instr::Loop { seq: 4 }],
                    vec![Instr::RefFunc { func: 0 }],
                    vec![Instr::Other, Instr::Call { func: 0 }],
                    vec![Instr::Call { func: 0 }],
                ],
            },
        ],
        elements: vec![vec![0, 2]],
        globals: vec![],
        exports: vec![Export { name: "main".to_string(), kind: ItemKind::Function { func: 2 } }],
        start: None,
    };
    let r = call_replace(&mut m, &vec!["__shim_".to_string()]);
    assert!(r.is_ok());
    assert!(!targets_id(&m, 0));
    assert_eq!(m.elements[0], vec![1, 2]);
    assert!(matches!(m.funcs[1].seqs[1][0], Instr::ReturnCall { func: 1 }));
    assert!(matches!(m.funcs[1].seqs[2][0], Instr::RefFunc { func: 1 }));
    assert!(matches!(m.funcs[1].seqs[4][0], Instr::Call { func: 1 }));
    // the import list itself is untouched by the rewriter
    assert!(has_import(&m, "wasi_snapshot_preview1", "proc_exit"));
}

#[test]
fn test_unmatched_import_survives_while_referenced() {
    // fd_write has no replacement and is still called by an exported function
    let mut m = Module {
        imports: vec![Import {
            namespace: "wasi_snapshot_preview1".to_string(),
            name: "fd_write".to_string(),
            kind: ItemKind::Function { func: 0 },
        }],
        funcs: vec![Func {
            id: 1,
            name: Some("main".to_string()),
            seqs: vec![vec![Instr::Call { func: 0 }]],
        }],
        elements: vec![],
        globals: vec![],
        exports: vec![Export { name: "main".to_string(), kind: ItemKind::Function { func: 1 } }],
        start: None,
    };
    let r = strip_module(&mut m, &vec!["__shim_".to_string()]);
    assert!(r.is_ok());
    assert!(has_import(&m, "wasi_snapshot_preview1", "fd_write"));
    assert_eq!(m.funcs.len(), 1);
}

#[test]
fn test_start_installation_prefers_explicit_start() {
    let mut m = Module {
        imports: vec![],
        funcs: vec![nop_func(3, "main"), nop_func(7, "_initialize")],
        elements: vec![],
        globals: vec![],
        exports: vec![],
        start: Some(3),
    };
    install_start(&mut m);
    assert_eq!(m.start, Some(3));
}

#[test]
fn test_start_installation_uses_initializer() {
    let mut m = Module {
        imports: vec![],
        funcs: vec![nop_func(3, "main"), nop_func(7, "_initialize")],
        elements: vec![],
        globals: vec![],
        exports: vec![],
        start: None,
    };
    install_start(&mut m);
    assert_eq!(m.start, Some(7));
}

#[test]
fn test_start_installation_without_initializer() {
    let mut m = Module {
        imports: vec![],
        funcs: vec![nop_func(3, "main")],
        elements: vec![],
        globals: vec![],
        exports: vec![],
        start: None,
    };
    install_start(&mut m);
    assert_eq!(m.start, None);
}

#[test]
fn test_export_removal_is_precise() {
    let mut m = Module {
        imports: vec![],
        funcs: vec![nop_func(0, "_initialize"), nop_func(1, "_initialized_state")],
        elements: vec![],
        globals: vec![],
        exports: vec![
            Export { name: "_initialize".to_string(), kind: ItemKind::Function { func: 0 } },
            // shares the prefix only: must survive under the exact-name policy
            Export { name: "_initialized_state".to_string(), kind: ItemKind::Function { func: 1 } },
            // same name but not a function: must survive
            Export { name: "_initialize".to_string(), kind: ItemKind::Table },
            Export { name: "memory".to_string(), kind: ItemKind::Memory },
        ],
        start: None,
    };
    remove_init_export(&mut m);
    assert_eq!(m.exports.len(), 3);
    assert_eq!(m.exports[0].name, "_initialized_state");
    assert_eq!(m.exports[1].name, "_initialize");
    assert!(matches!(m.exports[1].kind, ItemKind::Table));
    assert_eq!(m.exports[2].name, "memory");
}

#[test]
fn test_duplicate_import_name_is_rejected() {
    let make = || Module {
        imports: vec![
            proc_exit_import(0),
            Import {
                namespace: "wasi_unstable".to_string(),
                name: "proc_exit".to_string(),
                kind: ItemKind::Function { func: 4 },
            },
        ],
        funcs: vec![nop_func(1, "__shim_proc_exit")],
        elements: vec![],
        globals: vec![],
        exports: vec![],
        start: None,
    };
    let mut m = make();
    let r = call_replace(&mut m, &vec!["__shim_".to_string()]);
    match r {
        Err(StripError::DuplicateImportName { name }) => assert_eq!(name, "proc_exit"),
        _ => panic!("expected a duplicate import name error"),
    }
    // the module is left exactly as it was
    assert!(module_eq(&m, &make()));
}

#[test]
fn test_duplicate_replacement_name_is_rejected() {
    let mut m = Module {
        imports: vec![proc_exit_import(0)],
        funcs: vec![nop_func(1, "__shim_proc_exit"), nop_func(2, "__also_proc_exit")],
        elements: vec![],
        globals: vec![],
        exports: vec![],
        start: None,
    };
    let r = call_replace(&mut m, &vec!["__shim_".to_string(), "__also_".to_string()]);
    match r {
        Err(StripError::DuplicateReplacementName { name }) => assert_eq!(name, "proc_exit"),
        _ => panic!("expected a duplicate replacement name error"),
    }
}

#[test]
fn test_first_matching_prefix_wins() {
    let prefixes = vec!["__shim_".to_string(), "__".to_string()];
    let r = strip_marker(&prefixes, &"__shim_proc_exit".to_string());
    assert_eq!(r, Some("proc_exit".to_string()));
    let r2 = strip_marker(&prefixes, &"__other".to_string());
    assert_eq!(r2, Some("other".to_string()));
    let r3 = strip_marker(&prefixes, &"plain".to_string());
    assert_eq!(r3, None);
}

#[test]
fn test_recognized_namespaces() {
    assert!(is_recognized_namespace(&"wasi_snapshot_preview1".to_string()));
    assert!(is_recognized_namespace(&"wasi_unstable".to_string()));
    assert!(!is_recognized_namespace(&"env".to_string()));
    assert!(!is_recognized_namespace(&"wasi_snapshot_preview2".to_string()));
}

fn end_to_end_module() -> Module {
    Module {
        imports: vec![proc_exit_import(0)],
        funcs: vec![
            Func {
                id: 1,
                name: Some("__shim_proc_exit".to_string()),
                seqs: vec![vec![Instr::Other]],
            },
            Func {
                id: 2,
                name: Some("_initialize".to_string()),
                seqs: vec![vec![Instr::Other, Instr::Call { func: 0 }]],
            },
        ],
        elements: vec![],
        globals: vec![],
        exports: vec![Export {
            name: "_initialize".to_string(),
            kind: ItemKind::Function { func: 2 },
        }],
        start: None,
    }
}

#[test]
fn test_end_to_end_redirection() {
    let mut m = end_to_end_module();
    let r = strip_module(&mut m, &vec!["__shim_".to_string()]);
    assert!(r.is_ok());
    // the proc_exit import is gone
    assert!(!has_import(&m, "wasi_snapshot_preview1", "proc_exit"));
    assert!(m.imports.is_empty());
    // the initializer became the start function
    assert_eq!(m.start, Some(2));
    // its export is gone
    assert!(m.exports.is_empty());
    // its call now targets the embedded replacement directly
    let init = m.funcs.iter().find(|f| f.id == 2).expect("initializer kept");
    assert!(matches!(init.seqs[0][1], Instr::Call { func: 1 }));
    // the replacement itself is kept: the initializer calls it
    assert!(m.funcs.iter().any(|f| f.id == 1));
}

#[test]
fn test_pipeline_runs_twice_without_change() {
    let mut m = end_to_end_module();
    let prefixes = vec!["__shim_".to_string()];
    let r1 = strip_module(&mut m, &prefixes);
    assert!(r1.is_ok());
    let mut n = Module {
        imports: m.imports.iter().map(|i| Import {
            namespace: i.namespace.clone(),
            name: i.name.clone(),
            kind: i.kind,
        }).collect(),
        funcs: m.funcs.iter().map(|f| Func {
            id: f.id,
            name: f.name.clone(),
            seqs: f.seqs.clone(),
        }).collect(),
        elements: m.elements.clone(),
        globals: m.globals.clone(),
        exports: m.exports.iter().map(|e| Export { name: e.name.clone(), kind: e.kind }).collect(),
        start: m.start,
    };
    let r2 = strip_module(&mut n, &prefixes);
    assert!(r2.is_ok());
    assert!(module_eq(&m, &n));
}

#[test]
fn test_sweep_keeps_everything_reachable_from_roots() {
    // start -> a -> b, element segment -> c, global initializer -> d; e dies
    let mut m = Module {
        imports: vec![],
        funcs: vec![
            Func { id: 10, name: Some("a".to_string()), seqs: vec![vec![Instr::Call { func: 11 }]] },
            nop_func(11, "b"),
            nop_func(12, "c"),
            nop_func(13, "d"),
            nop_func(14, "e"),
        ],
        elements: vec![vec![12]],
        globals: vec![Some(13), None],
        exports: vec![],
        start: Some(10),
    };
    remove_unused(&mut m);
    let kept: Vec<u32> = m.funcs.iter().map(|f| f.id).collect();
    assert_eq!(kept, vec![10, 11, 12, 13]);
}
