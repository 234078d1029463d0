use vstd::prelude::*;

use crate::steps::{AndroidNormalStep, AndroidStep, copy_normal_step, same_normal_step};

verus! {

/// A parsed script file: its path, as include steps name it, and its steps.
pub struct ScriptFile {
    pub path: String,
    pub steps: Vec<AndroidStep>,
}

#[derive(PartialEq, Eq, Structural, Clone, Copy, Debug)]
pub enum ScriptErrorKind {
    /// No loaded file has the path that an include step names.
    MissingFile,
    /// A file includes itself, directly or through other files.
    InclusionCycle,
    /// The file could not be read or parsed as a script.
    Malformed,
}

/// A fault that ends a run: what went wrong and the file it concerns.
pub struct ScriptError {
    pub kind: ScriptErrorKind,
    pub path: String,
    /// Line and column in the file, where the fault has one (a parse error).
    pub location: Option<(usize, usize)>,
}

/// A step's place: the index of its file and its index in that file.
pub type StepPos = (int, int);

/// The index of the first file whose path is `p`.
pub open spec fn find_file(files: Seq<ScriptFile>, p: Seq<char>) -> Option<int> {
    if exists|i: int| #![auto] 0 <= i < files.len() && files[i].path@ == p
        && forall|j: int| 0 <= j < i ==> files[j].path@ != p {
        Some(choose|i: int| #![auto] 0 <= i < files.len() && files[i].path@ == p
            && forall|j: int| 0 <= j < i ==> files[j].path@ != p)
    } else {
        None
    }
}

/// Expands the file at path `p` depth first into the places of its steps, each
/// include replaced by the expansion of the file it names. `stack` holds the
/// files being expanded; `fuel` bounds the depth, and a chain deeper than the
/// number of files can only come from a cycle.
pub open spec fn expand_file(
    files: Seq<ScriptFile>,
    p: Seq<char>,
    stack: Seq<Seq<char>>,
    fuel: nat,
) -> Result<Seq<StepPos>, (ScriptErrorKind, Seq<char>)>
    decreases fuel, 0nat, 0nat,
{
    match find_file(files, p) {
        None => Err((ScriptErrorKind::MissingFile, p)),
        Some(f) => if stack.contains(p) || fuel == 0 {
            Err((ScriptErrorKind::InclusionCycle, p))
        } else {
            expand_steps(files, f, files[f].steps@.len() as nat, stack.push(p), (fuel - 1) as nat)
        },
    }
}

/// Expands the first `n` steps of file `f`.
pub open spec fn expand_steps(
    files: Seq<ScriptFile>,
    f: int,
    n: nat,
    stack: Seq<Seq<char>>,
    fuel: nat,
) -> Result<Seq<StepPos>, (ScriptErrorKind, Seq<char>)>
    decreases fuel, 1nat, n,
{
    if n == 0 {
        Ok(seq![])
    } else {
        match expand_steps(files, f, (n - 1) as nat, stack, fuel) {
            Err(e) => Err(e),
            Ok(prefix) => match files[f].steps@[n - 1] {
                AndroidStep::AndroidNormalStep(_) => Ok(prefix.push((f, n - 1))),
                AndroidStep::AndroidStepFile { step_file } => match expand_file(
                    files,
                    step_file@,
                    stack,
                    fuel,
                ) {
                    Err(e) => Err(e),
                    Ok(inner) => Ok(prefix + inner),
                },
            },
        }
    }
}

pub open spec fn path_views(v: Seq<String>) -> Seq<Seq<char>> {
    v.map_values(|s: String| s@)
}

/// The expansion of a run that starts at the file with path `root`.
pub open spec fn expand_script(files: Seq<ScriptFile>, root: Seq<char>) -> Result<
    Seq<StepPos>,
    (ScriptErrorKind, Seq<char>),
> {
    expand_file(files, root, seq![], files.len())
}

pub open spec fn pos_views(v: Seq<(usize, usize)>) -> Seq<StepPos> {
    v.map_values(|x: (usize, usize)| (x.0 as int, x.1 as int))
}

/// Every place in `ps` holds a step that is not an include.
pub open spec fn all_normal(files: Seq<ScriptFile>, ps: Seq<StepPos>) -> bool {
    forall|k: int| #![auto] 0 <= k < ps.len() ==> {
        &&& 0 <= ps[k].0 < files.len()
        &&& 0 <= ps[k].1 < files[ps[k].0].steps@.len()
        &&& files[ps[k].0].steps@[ps[k].1] is AndroidNormalStep
    }
}

proof fn lemma_find_file(files: Seq<ScriptFile>, p: Seq<char>)
    ensures
        find_file(files, p) matches Some(f) ==> 0 <= f < files.len() && files[f].path@ == p,
{
}

proof fn lemma_file_normal(files: Seq<ScriptFile>, p: Seq<char>, stack: Seq<Seq<char>>, fuel: nat)
    ensures
        expand_file(files, p, stack, fuel) matches Ok(ps) ==> all_normal(files, ps),
    decreases fuel, 0nat, 0nat,
{
    lemma_find_file(files, p);
    if let Some(f) = find_file(files, p) {
        if !(stack.contains(p) || fuel == 0) {
            lemma_steps_normal(files, f, files[f].steps@.len() as nat, stack.push(p), (fuel - 1) as nat);
        }
    }
}

proof fn lemma_steps_normal(
    files: Seq<ScriptFile>,
    f: int,
    n: nat,
    stack: Seq<Seq<char>>,
    fuel: nat,
)
    requires
        0 <= f < files.len(),
        n <= files[f].steps@.len(),
    ensures
        expand_steps(files, f, n, stack, fuel) matches Ok(ps) ==> all_normal(files, ps),
    decreases fuel, 1nat, n,
{
    if n > 0 {
        lemma_steps_normal(files, f, (n - 1) as nat, stack, fuel);
        if let Ok(prefix) = expand_steps(files, f, (n - 1) as nat, stack, fuel) {
            if let AndroidStep::AndroidStepFile { step_file } = files[f].steps@[n - 1] {
                lemma_file_normal(files, step_file@, stack, fuel);
                if let Ok(inner) = expand_file(files, step_file@, stack, fuel) {
                    let ps = prefix + inner;
                    assert forall|k: int| #![auto] 0 <= k < ps.len() implies {
                        &&& 0 <= ps[k].0 < files.len()
                        &&& 0 <= ps[k].1 < files[ps[k].0].steps@.len()
                        &&& files[ps[k].0].steps@[ps[k].1] is AndroidNormalStep
                    } by {
                        if k < prefix.len() {
                            assert(ps[k] == prefix[k]);
                        } else {
                            assert(ps[k] == inner[k - prefix.len()]);
                        }
                    }
                }
            } else {
                let ps = prefix.push((f, n - 1));
                assert forall|k: int| #![auto] 0 <= k < ps.len() implies {
                    &&& 0 <= ps[k].0 < files.len()
                    &&& 0 <= ps[k].1 < files[ps[k].0].steps@.len()
                    &&& files[ps[k].0].steps@[ps[k].1] is AndroidNormalStep
                } by {
                    if k < prefix.len() {
                        assert(ps[k] == prefix[k]);
                    }
                }
            }
        }
    }
}

/// Once a prefix of a file fails to expand, every longer prefix fails the same way.
proof fn lemma_error_persists(
    files: Seq<ScriptFile>,
    f: int,
    i: nat,
    n: nat,
    stack: Seq<Seq<char>>,
    fuel: nat,
)
    requires
        i <= n,
        expand_steps(files, f, i, stack, fuel) is Err,
    ensures
        expand_steps(files, f, n, stack, fuel) == expand_steps(files, f, i, stack, fuel),
    decreases n,
{
    if i < n {
        lemma_error_persists(files, f, i, (n - 1) as nat, stack, fuel);
    }
}

fn find_file_index(files: &Vec<ScriptFile>, p: &String) -> (r: Option<usize>)
    ensures
        match r {
            None => find_file(files@, p@) is None,
            Some(i) => find_file(files@, p@) == Some(i as int),
        },
{
    let mut i: usize = 0;
    while i < files.len()
        invariant
            i <= files@.len(),
            forall|j: int| 0 <= j < i ==> files@[j].path@ != p@,
        decreases files@.len() - i,
    {
        if files[i].path == *p {
            proof {
                let k = choose|k: int| #![auto] 0 <= k < files@.len() && files@[k].path@ == p@
                    && forall|j: int| 0 <= j < k ==> files@[j].path@ != p@;
                assert(k == i as int) by {
                    if k < i as int {
                    } else if k > i as int {
                        assert(files@[i as int].path@ != p@);
                    }
                }
            }
            return Some(i);
        }
        i = i + 1;
    }
    None
}

fn stack_contains(stack: &Vec<String>, p: &String) -> (r: bool)
    ensures
        r == path_views(stack@).contains(p@),
{
    let mut i: usize = 0;
    while i < stack.len()
        invariant
            i <= stack@.len(),
            forall|j: int| 0 <= j < i ==> stack@[j]@ != p@,
        decreases stack@.len() - i,
    {
        if stack[i] == *p {
            assert(path_views(stack@)[i as int] == p@);
            return true;
        }
        i = i + 1;
    }
    proof {
        if path_views(stack@).contains(p@) {
            let j = choose|j: int| 0 <= j < path_views(stack@).len() && path_views(stack@)[j] == p@;
            assert(stack@[j]@ == p@);
        }
    }
    false
}

fn expand_file_into(
    files: &Vec<ScriptFile>,
    p: &String,
    stack: &mut Vec<String>,
    fuel: usize,
    out: &mut Vec<(usize, usize)>,
) -> (r: Result<(), ScriptError>)
    ensures
        final(stack)@ == old(stack)@,
        match expand_file(files@, p@, path_views(old(stack)@), fuel as nat) {
            Ok(ps) => r is Ok && pos_views(final(out)@) == pos_views(old(out)@) + ps,
            Err((k, q)) => r is Err && r->Err_0.kind == k && r->Err_0.path@ == q
                && r->Err_0.location is None,
        },
    decreases fuel, 0nat, 0nat,
{
    let f = match find_file_index(files, p) {
        None => {
            return Err(ScriptError { kind: ScriptErrorKind::MissingFile, path: p.clone(), location: None });
        },
        Some(f) => f,
    };
    if stack_contains(stack, p) || fuel == 0 {
        return Err(ScriptError { kind: ScriptErrorKind::InclusionCycle, path: p.clone(), location: None });
    }
    stack.push(p.clone());
    assert(path_views(stack@) =~= path_views(old(stack)@).push(p@));
    let steps = &files[f].steps;
    let mut i: usize = 0;
    while i < steps.len()
        invariant
            steps == &files@[f as int].steps,
            (f as int) < files@.len(),
            fuel > 0,
            find_file(files@, p@) == Some(f as int),
            !path_views(old(stack)@).contains(p@),
            i <= steps@.len(),
            path_views(stack@) == path_views(old(stack)@).push(p@),
            stack@ == old(stack)@.push(*p),
            match expand_steps(
                files@,
                f as int,
                i as nat,
                path_views(old(stack)@).push(p@),
                (fuel - 1) as nat,
            ) {
                Ok(ps) => pos_views(out@) == pos_views(old(out)@) + ps,
                Err(_) => false,
            },
        decreases steps@.len() - i,
    {
        match &steps[i] {
            AndroidStep::AndroidNormalStep(_) => {
                let ghost before = out@;
                out.push((f, i));
                assert(pos_views(out@) =~= pos_views(before).push((f as int, i as int)));
                proof {
                    let ps = expand_steps(files@, f as int, i as nat, path_views(old(stack)@).push(p@), (fuel - 1) as nat)->Ok_0;
                    assert(pos_views(out@) =~= pos_views(old(out)@) + ps.push((f as int, i as int)));
                }
            },
            AndroidStep::AndroidStepFile { step_file } => {
                let ghost before = out@;
                let ghost st = path_views(old(stack)@).push(p@);
                let r = expand_file_into(files, step_file, stack, fuel - 1, out);
                match r {
                    Err(e) => {
                        stack.pop();
                        proof {
                            assert(stack@ =~= old(stack)@);
                            assert(files@[f as int].steps@[i as int] == steps@[i as int]);
                            assert(expand_steps(files@, f as int, (i + 1) as nat, st, (fuel - 1) as nat)
                                == expand_file(files@, step_file@, st, (fuel - 1) as nat));
                            lemma_error_persists(files@, f as int, (i + 1) as nat, steps@.len() as nat, st, (fuel - 1) as nat);
                            assert(expand_file(files@, p@, path_views(old(stack)@), fuel as nat)
                                == expand_steps(files@, f as int, steps@.len() as nat, st, (fuel - 1) as nat));
                        }
                        return Err(e);
                    },
                    Ok(()) => {},
                }
                proof {
                    let ps = expand_steps(files@, f as int, i as nat, st, (fuel - 1) as nat)->Ok_0;
                    let inner = expand_file(files@, step_file@, st, (fuel - 1) as nat)->Ok_0;
                    assert(pos_views(out@) =~= pos_views(old(out)@) + (ps + inner));
                }
            },
        }
        i = i + 1;
    }
    stack.pop();
    assert(stack@ =~= old(stack)@);
    Ok(())
}

/// Expands the script that starts at the file with path `root` into the places
/// of the steps it runs, in order: each include step is replaced, depth first,
/// by the steps of the file it names. A path that no file has, or a file that
/// includes itself directly or through others, ends the expansion with an error.
pub fn expand_script_steps(files: &Vec<ScriptFile>, root: &String) -> (r: Result<
    Vec<(usize, usize)>,
    ScriptError,
>)
    ensures
        match expand_script(files@, root@) {
            Ok(ps) => r is Ok && pos_views(r->Ok_0@) == ps,
            Err((k, q)) => r is Err && r->Err_0.kind == k && r->Err_0.path@ == q
                && r->Err_0.location is None,
        },
{
    let mut stack: Vec<String> = Vec::new();
    let mut out: Vec<(usize, usize)> = Vec::new();
    assert(path_views(stack@) =~= seq![]);
    let r = expand_file_into(files, root, &mut stack, files.len(), &mut out);
    assert(pos_views(seq![]) =~= seq![]);
    match r {
        Ok(()) => {
            assert(pos_views(out@) =~= seq![] + pos_views(out@));
            Ok(out)
        },
        Err(e) => Err(e),
    }
}

/// Expands the script that starts at `root` into the steps it runs, in order:
/// the steps at the places that `expand_script` gives, copied out of their files.
pub fn flatten_script(files: &Vec<ScriptFile>, root: &String) -> (r: Result<
    Vec<AndroidNormalStep>,
    ScriptError,
>)
    ensures
        match expand_script(files@, root@) {
            Ok(ps) => r is Ok && r->Ok_0@.len() == ps.len() && forall|k: int|
                0 <= k < ps.len() ==> (#[trigger] files@[ps[k].0].steps@[ps[k].1] matches
                    AndroidStep::AndroidNormalStep(s) && same_normal_step(r->Ok_0@[k], s)),
            Err((kind, q)) => r is Err && r->Err_0.kind == kind && r->Err_0.path@ == q
                && r->Err_0.location is None,
        },
{
    let ps = match expand_script_steps(files, root) {
        Ok(ps) => ps,
        Err(e) => return Err(e),
    };
    proof {
        lemma_file_normal(files@, root@, seq![], files@.len());
    }
    let ghost pv = pos_views(ps@);
    let mut out: Vec<AndroidNormalStep> = Vec::new();
    let mut k: usize = 0;
    while k < ps.len()
        invariant
            pv == pos_views(ps@),
            all_normal(files@, pv),
            k <= ps@.len(),
            out@.len() == k,
            forall|j: int|
                0 <= j < k ==> (#[trigger] files@[pv[j].0].steps@[pv[j].1] matches
                    AndroidStep::AndroidNormalStep(s) && same_normal_step(out@[j], s)),
        decreases ps@.len() - k,
    {
        let (f, i) = ps[k];
        assert(pv[k as int] == (f as int, i as int));
        match &files[f].steps[i] {
            AndroidStep::AndroidNormalStep(s) => {
                out.push(copy_normal_step(s));
            },
            AndroidStep::AndroidStepFile { .. } => {
                assert(false);
            },
        }
        k = k + 1;
    }
    Ok(out)
}

} // verus!

verus! {

/// The file at path `a` has an include step that names path `b`.
pub open spec fn includes(files: Seq<ScriptFile>, a: Seq<char>, b: Seq<char>) -> bool {
    match find_file(files, a) {
        None => false,
        Some(f) => exists|j: int|
            0 <= j < files[f].steps@.len() && (#[trigger] files[f].steps@[j] matches
                AndroidStep::AndroidStepFile { step_file } && step_file@ == b),
    }
}

/// A chain of `k + 1` includes leads from path `a` to path `b`.
pub open spec fn reaches(files: Seq<ScriptFile>, a: Seq<char>, b: Seq<char>, k: nat) -> bool
    decreases k,
{
    if k == 0 {
        includes(files, a, b)
    } else {
        exists|c: Seq<char>| #[trigger] includes(files, a, c) && reaches(files, c, b, (k - 1) as nat)
    }
}

proof fn lemma_ok_prefix(
    files: Seq<ScriptFile>,
    f: int,
    j: nat,
    n: nat,
    stack: Seq<Seq<char>>,
    fuel: nat,
)
    requires
        j <= n,
        expand_steps(files, f, n, stack, fuel) is Ok,
    ensures
        expand_steps(files, f, j, stack, fuel) is Ok,
{
    if expand_steps(files, f, j, stack, fuel) is Err {
        lemma_error_persists(files, f, j, n, stack, fuel);
    }
}

/// No file is expanded inside its own expansion: a file that expands without
/// error reaches no file that is being expanded around it, nor itself. So the
/// files open at once are all different, and include nesting is never deeper
/// than the number of files.
pub proof fn lemma_expanded_reaches_no_open_file(
    files: Seq<ScriptFile>,
    p: Seq<char>,
    stack: Seq<Seq<char>>,
    fuel: nat,
    q: Seq<char>,
    k: nat,
)
    requires
        expand_file(files, p, stack, fuel) is Ok,
        reaches(files, p, q, k),
    ensures
        !stack.push(p).contains(q),
    decreases k,
{
    lemma_find_file(files, p);
    let f = find_file(files, p)->Some_0;
    let st = stack.push(p);
    let c = if k == 0 {
        q
    } else {
        choose|c: Seq<char>| #[trigger] includes(files, p, c) && reaches(files, c, q, (k - 1) as nat)
    };
    assert(includes(files, p, c));
    let j = choose|j: int|
        0 <= j < files[f].steps@.len() && (#[trigger] files[f].steps@[j] matches
            AndroidStep::AndroidStepFile { step_file } && step_file@ == c);
    lemma_ok_prefix(files, f, (j + 1) as nat, files[f].steps@.len() as nat, st, (fuel - 1) as nat);
    assert(expand_file(files, c, st, (fuel - 1) as nat) is Ok);
    assert(!st.contains(c));
    if k > 0 {
        lemma_expanded_reaches_no_open_file(files, c, st, (fuel - 1) as nat, q, (k - 1) as nat);
        assert(!st.contains(q)) by {
            if st.contains(q) {
                let i = choose|i: int| 0 <= i < st.len() && st[i] == q;
                assert(st.push(c)[i] == q);
            }
        }
    }
}

/// A script whose root file includes itself, directly or through a chain of
/// other files, never expands: the run ends with a script error.
pub proof fn lemma_self_inclusion_fails(files: Seq<ScriptFile>, root: Seq<char>, k: nat)
    requires
        reaches(files, root, root, k),
    ensures
        expand_script(files, root) is Err,
{
    if expand_script(files, root) is Ok {
        lemma_expanded_reaches_no_open_file(files, root, seq![], files.len(), root, k);
        assert(seq![].push(root)[0] == root);
    }
}

/// Every file that an expanded file reaches was expanded too, under some stack
/// of open files and some fuel.
proof fn lemma_reached_expands(
    files: Seq<ScriptFile>,
    p: Seq<char>,
    stack: Seq<Seq<char>>,
    fuel: nat,
    q: Seq<char>,
    k: nat,
) -> (r: (Seq<Seq<char>>, nat))
    requires
        expand_file(files, p, stack, fuel) is Ok,
        reaches(files, p, q, k),
    ensures
        expand_file(files, q, r.0, r.1) is Ok,
    decreases k,
{
    lemma_find_file(files, p);
    let f = find_file(files, p)->Some_0;
    let st = stack.push(p);
    let c = if k == 0 {
        q
    } else {
        choose|c: Seq<char>| #[trigger] includes(files, p, c) && reaches(files, c, q, (k - 1) as nat)
    };
    assert(includes(files, p, c));
    let j = choose|j: int|
        0 <= j < files[f].steps@.len() && (#[trigger] files[f].steps@[j] matches
            AndroidStep::AndroidStepFile { step_file } && step_file@ == c);
    lemma_ok_prefix(files, f, (j + 1) as nat, files[f].steps@.len() as nat, st, (fuel - 1) as nat);
    assert(expand_file(files, c, st, (fuel - 1) as nat) is Ok);
    if k == 0 {
        (st, (fuel - 1) as nat)
    } else {
        lemma_reached_expands(files, c, st, (fuel - 1) as nat, q, (k - 1) as nat)
    }
}

/// A script in which any file reachable from the root file includes itself,
/// directly or through a chain of other files, never expands: the run ends
/// with a script error instead of recursing without end.
pub proof fn lemma_reachable_cycle_fails(
    files: Seq<ScriptFile>,
    root: Seq<char>,
    q: Seq<char>,
    j: nat,
    k: nat,
)
    requires
        reaches(files, root, q, j),
        reaches(files, q, q, k),
    ensures
        expand_script(files, root) is Err,
{
    if expand_script(files, root) is Ok {
        let (st, fuel) = lemma_reached_expands(files, root, seq![], files.len(), q, j);
        lemma_expanded_reaches_no_open_file(files, q, st, fuel, q, k);
        assert(st.push(q)[st.len() as int] == q);
    }
}

/// The expansion of a file's first `i` steps begins the expansion of its
/// first `n` steps, for `i <= n`.
pub proof fn lemma_expansion_prefix(
    files: Seq<ScriptFile>,
    f: int,
    i: nat,
    n: nat,
    stack: Seq<Seq<char>>,
    fuel: nat,
)
    requires
        i <= n,
        expand_steps(files, f, n, stack, fuel) is Ok,
    ensures
        expand_steps(files, f, i, stack, fuel) is Ok,
        ({
            let a = expand_steps(files, f, i, stack, fuel)->Ok_0;
            let b = expand_steps(files, f, n, stack, fuel)->Ok_0;
            a.len() <= b.len() && b.subrange(0, a.len() as int) == a
        }),
    decreases n,
{
    lemma_ok_prefix(files, f, i, n, stack, fuel);
    if i < n {
        lemma_ok_prefix(files, f, (n - 1) as nat, n, stack, fuel);
        lemma_expansion_prefix(files, f, i, (n - 1) as nat, stack, fuel);
        let a = expand_steps(files, f, i, stack, fuel)->Ok_0;
        let m = expand_steps(files, f, (n - 1) as nat, stack, fuel)->Ok_0;
        let b = expand_steps(files, f, n, stack, fuel)->Ok_0;
        assert(b.subrange(0, m.len() as int) =~= m);
        assert(b.subrange(0, a.len() as int) =~= m.subrange(0, a.len() as int));
    } else {
        let a = expand_steps(files, f, i, stack, fuel)->Ok_0;
        assert(a.subrange(0, a.len() as int) =~= a);
    }
}

/// Expansion is depth first and in place: where step `j` of a file includes
/// path `b`, the expansion of the file runs its first `j` steps, then the whole
/// expansion of `b` (with `b`'s own includes expanded in place), and only then
/// the steps after `j`.
pub proof fn lemma_include_splices(
    files: Seq<ScriptFile>,
    f: int,
    j: nat,
    n: nat,
    stack: Seq<Seq<char>>,
    fuel: nat,
)
    requires
        j < n,
        expand_steps(files, f, n, stack, fuel) is Ok,
        files[f].steps@[j as int] is AndroidStepFile,
    ensures
        ({
            let b = files[f].steps@[j as int]->step_file@;
            let before = expand_steps(files, f, j, stack, fuel)->Ok_0;
            let inner = expand_file(files, b, stack, fuel)->Ok_0;
            let all = expand_steps(files, f, n, stack, fuel)->Ok_0;
            &&& expand_file(files, b, stack, fuel) is Ok
            &&& before.len() + inner.len() <= all.len()
            &&& all.subrange(0, (before.len() + inner.len()) as int) == before + inner
        }),
{
    lemma_expansion_prefix(files, f, (j + 1) as nat, n, stack, fuel);
    lemma_ok_prefix(files, f, j, (j + 1) as nat, stack, fuel);
}

/// The places of steps `i` to `n` (excluded) of file `f`.
pub open spec fn leaf_places(f: int, i: int, n: int) -> Seq<StepPos> {
    Seq::new((n - i) as nat, |k: int| (f, i + k))
}

/// Steps `i` to `n` (excluded) of file `f` are all leaves: none is an include.
pub open spec fn all_leaves(files: Seq<ScriptFile>, f: int, i: int, n: int) -> bool {
    forall|k: int| i <= k < n ==> #[trigger] files[f].steps@[k] is AndroidNormalStep
}

proof fn lemma_leaves_expand(
    files: Seq<ScriptFile>,
    f: int,
    i: nat,
    n: nat,
    stack: Seq<Seq<char>>,
    fuel: nat,
)
    requires
        i <= n,
        all_leaves(files, f, i as int, n as int),
    ensures
        expand_steps(files, f, n, stack, fuel) == match expand_steps(files, f, i, stack, fuel) {
            Ok(ps) => Ok(ps + leaf_places(f, i as int, n as int)),
            Err(e) => Err::<Seq<StepPos>, (ScriptErrorKind, Seq<char>)>(e),
        },
    decreases n,
{
    if i < n {
        lemma_leaves_expand(files, f, i, (n - 1) as nat, stack, fuel);
        assert(files[f].steps@[n - 1] is AndroidNormalStep);
        if let Ok(ps) = expand_steps(files, f, i, stack, fuel) {
            assert(ps + leaf_places(f, i as int, n as int) =~= (ps + leaf_places(
                f,
                i as int,
                n - 1,
            )).push((f, n - 1)));
        }
    } else {
        if let Ok(ps) = expand_steps(files, f, i, stack, fuel) {
            assert(ps + leaf_places(f, i as int, n as int) =~= ps);
        }
    }
}

/// A file whose only include is step `j`, naming `b`, expands to its steps
/// before `j`, then `b`'s expansion, then its steps after `j`.
proof fn lemma_one_include(
    files: Seq<ScriptFile>,
    f: int,
    j: nat,
    b: Seq<char>,
    stack: Seq<Seq<char>>,
    fuel: nat,
)
    requires
        0 <= f < files.len(),
        j < files[f].steps@.len(),
        files[f].steps@[j as int] matches AndroidStep::AndroidStepFile { step_file } && step_file@
            == b,
        all_leaves(files, f, 0, j as int),
        all_leaves(files, f, (j + 1) as int, files[f].steps@.len() as int),
    ensures
        expand_steps(files, f, files[f].steps@.len() as nat, stack, fuel) == match expand_file(
            files,
            b,
            stack,
            fuel,
        ) {
            Ok(inner) => Ok(
                leaf_places(f, 0, j as int) + inner + leaf_places(
                    f,
                    (j + 1) as int,
                    files[f].steps@.len() as int,
                ),
            ),
            Err(e) => Err::<Seq<StepPos>, (ScriptErrorKind, Seq<char>)>(e),
        },
{
    let m = files[f].steps@.len() as nat;
    lemma_leaves_expand(files, f, 0, j, stack, fuel);
    assert(seq![] + leaf_places(f, 0, j as int) =~= leaf_places(f, 0, j as int));
    lemma_leaves_expand(files, f, j + 1, m, stack, fuel);
}

/// Two levels of includes expand depth first, each file once: where file `a`
/// is `a1 ++ [include b] ++ a2`, file `b` is `b1 ++ [include c] ++ b2`, file
/// `c` holds leaves only, and `a`, `b`, `c` are three different files, the
/// script rooted at `a` runs `a1`, `b1`, `c`, `b2`, `a2` in that order, and
/// as many steps as those five hold together.
pub proof fn lemma_two_level_order(
    files: Seq<ScriptFile>,
    a: Seq<char>,
    b: Seq<char>,
    c: Seq<char>,
    ja: nat,
    jb: nat,
)
    requires
        a != b && b != c && a != c,
        find_file(files, a) is Some,
        find_file(files, b) is Some,
        find_file(files, c) is Some,
        ({
            let fa = find_file(files, a)->Some_0;
            let fb = find_file(files, b)->Some_0;
            let fc = find_file(files, c)->Some_0;
            &&& ja < files[fa].steps@.len()
            &&& files[fa].steps@[ja as int] matches AndroidStep::AndroidStepFile { step_file }
                && step_file@ == b
            &&& all_leaves(files, fa, 0, ja as int)
            &&& all_leaves(files, fa, (ja + 1) as int, files[fa].steps@.len() as int)
            &&& jb < files[fb].steps@.len()
            &&& files[fb].steps@[jb as int] matches AndroidStep::AndroidStepFile { step_file }
                && step_file@ == c
            &&& all_leaves(files, fb, 0, jb as int)
            &&& all_leaves(files, fb, (jb + 1) as int, files[fb].steps@.len() as int)
            &&& all_leaves(files, fc, 0, files[fc].steps@.len() as int)
        }),
    ensures
        ({
            let fa = find_file(files, a)->Some_0;
            let fb = find_file(files, b)->Some_0;
            let fc = find_file(files, c)->Some_0;
            expand_script(files, a) == Ok::<Seq<StepPos>, (ScriptErrorKind, Seq<char>)>(
                leaf_places(fa, 0, ja as int) + leaf_places(fb, 0, jb as int) + leaf_places(
                    fc,
                    0,
                    files[fc].steps@.len() as int,
                ) + leaf_places(fb, (jb + 1) as int, files[fb].steps@.len() as int) + leaf_places(
                    fa,
                    (ja + 1) as int,
                    files[fa].steps@.len() as int,
                ),
            )
        }),
{
    lemma_find_file(files, a);
    lemma_find_file(files, b);
    lemma_find_file(files, c);
    let fa = find_file(files, a)->Some_0;
    let fb = find_file(files, b)->Some_0;
    let fc = find_file(files, c)->Some_0;
    assert(fa != fb && fb != fc && fa != fc);
    let n = files.len();
    assert(n >= 3);
    let s0: Seq<Seq<char>> = seq![];
    let s1 = s0.push(a);
    let s2 = s1.push(b);
    assert(!s0.contains(a));
    assert(!s1.contains(b)) by {
        if s1.contains(b) {
            let i = choose|i: int| 0 <= i < s1.len() && s1[i] == b;
            assert(s1[i] == a);
        }
    }
    assert(!s2.contains(c)) by {
        if s2.contains(c) {
            let i = choose|i: int| 0 <= i < s2.len() && s2[i] == c;
            assert(s2[i] == a || s2[i] == b);
        }
    }
    let mc = files[fc].steps@.len() as nat;
    let s3 = s2.push(c);
    lemma_leaves_expand(files, fc, 0, mc, s3, (n - 3) as nat);
    assert(seq![] + leaf_places(fc, 0, mc as int) =~= leaf_places(fc, 0, mc as int));
    assert(expand_file(files, c, s2, (n - 2) as nat) == expand_steps(files, fc, mc, s3, (n - 3) as nat));
    lemma_one_include(files, fb, jb, c, s2, (n - 2) as nat);
    assert(expand_file(files, b, s1, (n - 1) as nat) == expand_steps(
        files,
        fb,
        files[fb].steps@.len() as nat,
        s2,
        (n - 2) as nat,
    ));
    lemma_one_include(files, fa, ja, b, s1, (n - 1) as nat);
    assert(expand_script(files, a) == expand_steps(
        files,
        fa,
        files[fa].steps@.len() as nat,
        s1,
        (n - 1) as nat,
    ));
    let inner_c = leaf_places(fc, 0, mc as int);
    let lb = leaf_places(fb, 0, jb as int);
    let rb = leaf_places(fb, (jb + 1) as int, files[fb].steps@.len() as int);
    let la = leaf_places(fa, 0, ja as int);
    let ra = leaf_places(fa, (ja + 1) as int, files[fa].steps@.len() as int);
    assert(la + (lb + inner_c + rb) + ra =~= la + lb + inner_c + rb + ra);
}

} // verus!
