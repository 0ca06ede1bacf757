//! The environment of a task's container: the variables of the task and of
//! the run, merged by owner, with the engine's own on top.

use crate::models::{RunStatus, Variable, VariableOwner, VariableView};
use crate::string_map::{bind, lemma_deep_bind, StringMap};
use crate::text::{decimal, decimal_of, owned};
use vstd::prelude::*;
use vstd::string::*;

verus! {

/// An environment: keys and their values.
pub type Env = Seq<(Seq<char>, Seq<char>)>;

/// `env` after every variable of `vars` that `owner` owns is bound, in order.
pub open spec fn bind_owned(env: Env, vars: Seq<VariableView>, owner: VariableOwner) -> Env
    decreases vars.len(),
{
    if vars.len() == 0 {
        env
    } else {
        let before = bind_owned(env, vars.drop_last(), owner);
        if vars.last().owner == owner {
            bind(before, vars.last().key, vars.last().value)
        } else {
            before
        }
    }
}

/// The variables of a task and of its run, merged: of two variables with
/// one key, that of the higher owner wins, the system above the user and the
/// user above an unknown owner; between equal owners the run's variable wins
/// over the task's, and a later one over an earlier.
pub open spec fn merged(task: Seq<VariableView>, run: Seq<VariableView>) -> Env {
    let all = task + run;
    bind_owned(
        bind_owned(bind_owned(Seq::empty(), all, VariableOwner::Unknown), all, VariableOwner::User),
        all,
        VariableOwner::System,
    )
}

/// The name of the container of a task run: namespace, pipeline, run number
/// and task, joined by underscores.
pub open spec fn container_name_of(
    namespace: Seq<char>,
    pipeline: Seq<char>,
    run: u64,
    task: Seq<char>,
) -> Seq<char> {
    namespace + seq!['_'] + pipeline + seq!['_'] + decimal_of(run as nat) + seq!['_'] + task
}

/// The environment of a task's container: the merged variables, and over
/// them what the engine says of the task run itself.
pub open spec fn environment_of(
    task: Seq<VariableView>,
    run: Seq<VariableView>,
    namespace: Seq<char>,
    pipeline: Seq<char>,
    run_id: u64,
    task_id: Seq<char>,
    image: Seq<char>,
) -> Env {
    let e0 = merged(task, run);
    let e1 = bind(e0, "GOFER_NAMESPACE_ID"@, namespace);
    let e2 = bind(e1, "GOFER_PIPELINE_ID"@, pipeline);
    let e3 = bind(e2, "GOFER_RUN_ID"@, decimal_of(run_id as nat));
    let e4 = bind(e3, "GOFER_TASK_ID"@, task_id);
    bind(e4, "GOFER_TASK_IMAGE"@, image)
}

/// The key under which a task is told how a task it depends on ended.
pub open spec fn parent_status_key(parent: Seq<char>) -> Seq<char> {
    "GOFER_TASK_STATUS_"@ + parent
}

fn bind_by_owner(env: &mut StringMap<String>, vars: &Vec<Variable>, owner: VariableOwner)
    ensures
        final(env).deep_view() == bind_owned(old(env).deep_view(), vars.deep_view(), owner),
{
    let n: usize = vars.len();
    let mut i: usize = 0;
    assert(vars.deep_view().take(0) =~= Seq::empty());
    while i < n
        invariant
            n == vars@.len(),
            i <= n,
            env.deep_view() == bind_owned(old(env).deep_view(), vars.deep_view().take(i as int), owner),
        decreases n - i,
    {
        proof {
            let next = vars.deep_view().take(i as int + 1);
            assert(next.drop_last() =~= vars.deep_view().take(i as int));
            assert(next.last() == vars@[i as int].deep_view());
        }
        if vars[i].owner == owner {
            let key = vars[i].key.clone();
            let value = vars[i].value.clone();
            proof {
                use_type_invariant(&*env);
                lemma_deep_bind(env@, key@, value);
            }
            env.insert(key, value);
        }
        i += 1;
    }
    assert(vars.deep_view().take(n as int) =~= vars.deep_view());
}

fn bind_text(env: &mut StringMap<String>, key: &str, value: String)
    ensures
        final(env).deep_view() == bind(old(env).deep_view(), key@, value@),
{
    let key = owned(key);
    proof {
        use_type_invariant(&*env);
        lemma_deep_bind(env@, key@, value);
    }
    env.insert(key, value);
}

/// Writes the name of the container of a task run.
pub fn container_name(namespace: &str, pipeline: &str, run: u64, task: &str) -> (r: String)
    ensures
        r@ == container_name_of(namespace@, pipeline@, run, task@),
{
    proof {
        reveal_strlit("_");
    }
    assert("_"@ =~= seq!['_']);
    let number = decimal(run);
    owned(namespace).concat("_").concat(pipeline).concat("_").concat(number.as_str()).concat(
        "_",
    ).concat(task)
}

/// Assembles the environment of a task's container.
pub fn environment(
    task: &Vec<Variable>,
    run: &Vec<Variable>,
    namespace: &str,
    pipeline: &str,
    run_id: u64,
    task_id: &str,
    image: &str,
) -> (r: StringMap<String>)
    ensures
        r.deep_view() == environment_of(
            task.deep_view(),
            run.deep_view(),
            namespace@,
            pipeline@,
            run_id,
            task_id@,
            image@,
        ),
{
    let mut all: Vec<Variable> = task.clone();
    assert(all.deep_view() =~= task.deep_view());
    let n: usize = run.len();
    let mut i: usize = 0;
    assert(run.deep_view().take(0) =~= Seq::empty());
    assert(task.deep_view() + Seq::empty() =~= task.deep_view());
    while i < n
        invariant
            n == run@.len(),
            i <= n,
            all.deep_view() == task.deep_view() + run.deep_view().take(i as int),
        decreases n - i,
    {
        let item = run[i].clone();
        let ghost before = all.deep_view();
        all.push(item);
        assert(all.deep_view() =~= before.push(run@[i as int].deep_view()));
        assert(run.deep_view().take(i as int + 1) =~= run.deep_view().take(i as int).push(
            run@[i as int].deep_view(),
        ));
        assert(all.deep_view() =~= task.deep_view() + run.deep_view().take(i as int + 1));
        i += 1;
    }
    assert(run.deep_view().take(n as int) =~= run.deep_view());
    let mut env: StringMap<String> = StringMap::new();
    assert(env.deep_view() =~= Seq::empty());
    bind_by_owner(&mut env, &all, VariableOwner::Unknown);
    bind_by_owner(&mut env, &all, VariableOwner::User);
    bind_by_owner(&mut env, &all, VariableOwner::System);
    bind_text(&mut env, "GOFER_NAMESPACE_ID", owned(namespace));
    bind_text(&mut env, "GOFER_PIPELINE_ID", owned(pipeline));
    bind_text(&mut env, "GOFER_RUN_ID", decimal(run_id));
    bind_text(&mut env, "GOFER_TASK_ID", owned(task_id));
    bind_text(&mut env, "GOFER_TASK_IMAGE", owned(image));
    env
}

/// Tells a task how a task it depends on ended: binds the parent's status
/// key to the name of the outcome.
pub fn record_parent_status(env: &mut StringMap<String>, parent: &str, status: RunStatus)
    ensures
        final(env).deep_view() == bind(
            old(env).deep_view(),
            parent_status_key(parent@),
            status.name(),
        ),
{
    let key = owned("GOFER_TASK_STATUS_").concat(parent);
    bind_text(env, key.as_str(), status.to_string());
}

} // verus!
