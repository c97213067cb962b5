use json2splunk::engine::{
    plan_script, resolve_path, ChainOutcome, ChainRun, PlanStep, ScriptCache, TransformChain,
};

#[test]
fn script_paths_resolve_against_the_base() {
    assert_eq!(resolve_path(None, "a.vrl"), "a.vrl");
    assert_eq!(resolve_path(Some("/base"), "a.vrl"), "/base/a.vrl");
    assert_eq!(resolve_path(Some("/base/"), "a.vrl"), "/base/a.vrl");
    assert_eq!(resolve_path(Some("/base"), "/abs/a.vrl"), "/abs/a.vrl");
    assert_eq!(resolve_path(Some(""), "a.vrl"), "a.vrl");
}

#[test]
fn second_compile_of_a_path_reuses_the_cache() {
    let mut cache = ScriptCache::new();
    let mut chain = TransformChain::new();
    let mut file_reads = 0;
    let paths = ["norm.vrl".to_string(), "norm.vrl".to_string()];

    for p in &paths {
        let resolved = resolve_path(Some("/etc/scripts"), p);
        match plan_script(&cache, &resolved) {
            PlanStep::NeedCompile => {
                // stands for the file read and compile the caller performs
                file_reads += 1;
                let id = 41 + file_reads;
                chain.push_compiled(&mut cache, resolved, id, "source text".to_string());
            }
            PlanStep::Cached(id) => {
                chain.push_cached(id, p.clone());
            }
        }
    }

    assert_eq!(file_reads, 1, "the same path is read and compiled once");
    assert_eq!(chain.len(), 2);
    assert_eq!(chain.programs[0].0, chain.programs[1].0);
    // the first caller keeps the source; the cache hit carries the path
    assert_eq!(chain.programs[0].1, "source text");
    assert_eq!(chain.programs[1].1, "norm.vrl");
}

#[test]
fn distinct_paths_compile_separately() {
    let mut cache = ScriptCache::new();
    let a = resolve_path(None, "a.vrl");
    let b = resolve_path(None, "b.vrl");
    assert!(matches!(plan_script(&cache, &a), PlanStep::NeedCompile));
    cache.record_compiled(a.clone(), 1);
    assert!(matches!(plan_script(&cache, &a), PlanStep::Cached(1)));
    assert!(matches!(plan_script(&cache, &b), PlanStep::NeedCompile));
}

#[test]
fn a_runtime_failure_drops_the_record_and_halts_the_chain() {
    let mut run = ChainRun::new(3);
    assert_eq!(run.next_program(), Some(0));
    run.on_success();
    assert_eq!(run.next_program(), Some(1));
    run.on_failure();
    assert_eq!(run.next_program(), None, "no further program runs");
    assert!(matches!(run.outcome(), ChainOutcome::Dropped));
}

#[test]
fn a_full_walk_completes() {
    let mut run = ChainRun::new(2);
    run.on_success();
    run.on_success();
    assert_eq!(run.next_program(), None);
    assert!(matches!(run.outcome(), ChainOutcome::Completed));
}

#[test]
fn an_empty_chain_passes_the_record_through() {
    let run = ChainRun::new(0);
    assert_eq!(run.next_program(), None);
    assert!(matches!(run.outcome(), ChainOutcome::Completed));
}
