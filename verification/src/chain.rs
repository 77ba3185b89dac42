//! A chain of guest modules: the text goes through each module in turn, the
//! output of one becoming the input of the next.
use vstd::prelude::*;

verus! {

/// The module of a chain that failed, and why.
#[derive(Debug)]
pub struct ChainError<E> {
    /// Its position in the chain, counted from zero.
    pub module: usize,
    /// The path it was given as.
    pub path: String,
    /// What running it reported.
    pub cause: E,
}

/// The text handed to the module at position `i` of a chain that started
/// from `input` and whose first `i` runs are `runs`: the input for the first
/// module, and the text that the module before returned for the others.
pub open spec fn handed_in(runs: Seq<(String, String)>, input: Seq<char>, i: int) -> Seq<char> {
    if i == 0 {
        input
    } else {
        runs[i - 1].1@
    }
}

/// `runs` records the first `k` module runs of a chain over `files` that
/// started from `input`: run `i` handed the module at `files[i]` the text
/// `runs[i].0`, which is the text handed on to it, and the module answered
/// `Ok(runs[i].1)`.
pub open spec fn chain_trace<F, E>(
    run_module: F,
    files: Seq<String>,
    runs: Seq<(String, String)>,
    input: Seq<char>,
    k: int,
) -> bool where F: Fn(&String, &String) -> Result<String, E> {
    &&& 0 <= k <= files.len()
    &&& runs.len() == k
    &&& forall|i: int|
        0 <= i < k ==> #[trigger] call_ensures(
            run_module,
            (&files[i], &runs[i].0),
            Ok::<String, E>(runs[i].1),
        )
    &&& forall|i: int| 0 <= i < k ==> (#[trigger] runs[i]).0@ == handed_in(runs, input, i)
}

/// Running the modules of `files` in order, from `input`, can end with the
/// text `out`.
pub open spec fn chain_reaches<F, E>(
    run_module: F,
    files: Seq<String>,
    input: Seq<char>,
    out: Seq<char>,
) -> bool where F: Fn(&String, &String) -> Result<String, E> {
    exists|runs: Seq<(String, String)>|
        {
            &&& #[trigger] chain_trace(run_module, files, runs, input, files.len() as int)
            &&& handed_in(runs, input, files.len() as int) == out
        }
}

/// Running the modules of `files` in order, from `input`, can reach the
/// module at position `module` and have it, given the text handed on to it,
/// report `cause`.
pub open spec fn chain_fails_at<F, E>(
    run_module: F,
    files: Seq<String>,
    input: Seq<char>,
    module: int,
    cause: E,
) -> bool where F: Fn(&String, &String) -> Result<String, E> {
    exists|runs: Seq<(String, String)>, text: String|
        {
            &&& #[trigger] chain_trace(run_module, files, runs, input, module)
            &&& module < files.len()
            &&& text@ == handed_in(runs, input, module)
            &&& #[trigger] call_ensures(run_module, (&files[module], &text), Err::<String, E>(cause))
        }
}

/// The module at `path` can answer `Ok(out)`, the very text value, for some
/// text handed to it.
pub open spec fn returned_by<F, E>(run_module: F, path: String, out: String) -> bool where
    F: Fn(&String, &String) -> Result<String, E>,
 {
    exists|t: String| #[trigger] call_ensures(run_module, (&path, &t), Ok::<String, E>(out))
}

/// Runs the modules at `wasm_files` in order, starting from `input`: each
/// module gets the text that the one before it returned, and the text of the
/// last module is the result. With no module, the result is the input.
/// `run_module(path, text)` runs one module.
///
/// On success, there is a record of module runs from the input through every
/// module, in order, that ends with the result. On failure, the modules
/// before the failing one ran in order from the input, and the failing one,
/// given the text that the module before it returned, reported the cause.
pub fn run_wasm_chain<F, E>(wasm_files: &[String], input: &str, run_module: F) -> (r: Result<
    String,
    ChainError<E>,
>) where F: Fn(&String, &String) -> Result<String, E>
    requires
        forall|path: &String, text: &String| call_requires(run_module, (path, text)),
    ensures
        r matches Ok(out) ==> chain_reaches(run_module, wasm_files@, input@, out@),
        r matches Ok(out) ==> wasm_files@.len() == 0 ==> out@ == input@,
        r matches Ok(out) ==> wasm_files@.len() > 0 ==> returned_by(
            run_module,
            wasm_files@.last(),
            out,
        ),
        r matches Err(e) ==> {
            &&& e.module < wasm_files@.len()
            &&& e.path == wasm_files@[e.module as int]
            &&& chain_fails_at(run_module, wasm_files@, input@, e.module as int, e.cause)
        },
{
    let mut current: String = input.to_owned();
    let ghost mut runs: Seq<(String, String)> = Seq::empty();
    let mut i: usize = 0;
    while i < wasm_files.len()
        invariant
            forall|path: &String, text: &String| call_requires(run_module, (path, text)),
            i <= wasm_files@.len(),
            chain_trace(run_module, wasm_files@, runs, input@, i as int),
            handed_in(runs, input@, i as int) == current@,
            i > 0 ==> runs[i - 1].1 == current,
        decreases wasm_files@.len() - i,
    {
        match run_module(&wasm_files[i], &current) {
            Ok(next) => {
                proof {
                    let before = runs;
                    runs = runs.push((current, next));
                    assert forall|k: int| 0 <= k < i + 1 implies #[trigger] call_ensures(
                        run_module,
                        (&wasm_files@[k], &runs[k].0),
                        Ok::<String, E>(runs[k].1),
                    ) by {
                        if k < i {
                            assert(runs[k] == before[k]);
                        }
                    }
                    assert forall|k: int| 0 <= k < i + 1 implies (#[trigger] runs[k]).0@
                        == handed_in(runs, input@, k) by {
                        if k < i {
                            assert(runs[k] == before[k]);
                            if k > 0 {
                                assert(runs[k - 1] == before[k - 1]);
                            }
                        }
                    }
                }
                current = next;
                i = i + 1;
            },
            Err(cause) => {
                proof {
                    assert(chain_trace(run_module, wasm_files@, runs, input@, i as int));
                    assert(call_ensures(
                        run_module,
                        (&wasm_files@[i as int], &current),
                        Err::<String, E>(cause),
                    ));
                    assert(chain_fails_at(run_module, wasm_files@, input@, i as int, cause));
                }
                let path = wasm_files[i].clone();
                return Err(ChainError { module: i, path, cause });
            },
        }
    }
    proof {
        assert(chain_trace(run_module, wasm_files@, runs, input@, wasm_files@.len() as int));
        if wasm_files@.len() > 0 {
            let j = wasm_files@.len() - 1;
            assert(call_ensures(run_module, (&wasm_files@[j], &runs[j].0), Ok::<String, E>(runs[j].1)));
            assert(wasm_files@.last() == wasm_files@[j]);
            assert(call_ensures(run_module, (&wasm_files@.last(), &runs[j].0), Ok::<String, E>(current)));
            assert(returned_by(run_module, wasm_files@.last(), current));
        }
    }
    Ok(current)
}

/// A chain of no module hands back its input.
pub proof fn lemma_empty_chain<F, E>(run_module: F, input: Seq<char>, out: Seq<char>)
    where F: Fn(&String, &String) -> Result<String, E>
    requires
        chain_reaches(run_module, Seq::<String>::empty(), input, out),
    ensures
        out == input,
{
}

/// What a chain of at least one module reaches: the text that its last
/// module returned when handed a text that the chain without that module
/// reaches.
pub proof fn lemma_chain_last_step<F, E>(
    run_module: F,
    files: Seq<String>,
    input: Seq<char>,
    out: Seq<char>,
)
    where F: Fn(&String, &String) -> Result<String, E>
    requires
        files.len() > 0,
    ensures
        chain_reaches(run_module, files, input, out) <==> exists|mid: Seq<char>, t: String, r: String|
            {
                &&& #[trigger] chain_reaches(run_module, files.drop_last(), input, mid)
                &&& t@ == mid
                &&& #[trigger] call_ensures(run_module, (&files.last(), &t), Ok::<String, E>(r))
                &&& r@ == out
            },
{
    let n = files.len() as int;
    let front = files.drop_last();
    if chain_reaches(run_module, files, input, out) {
        let runs = choose|runs: Seq<(String, String)>|
            {
                &&& #[trigger] chain_trace(run_module, files, runs, input, files.len() as int)
                &&& handed_in(runs, input, files.len() as int) == out
            };
        let p = runs.take(n - 1);
        assert forall|i: int| 0 <= i < n - 1 implies #[trigger] call_ensures(
            run_module,
            (&front[i], &p[i].0),
            Ok::<String, E>(p[i].1),
        ) by {
            assert(call_ensures(run_module, (&files[i], &runs[i].0), Ok::<String, E>(runs[i].1)));
        }
        assert forall|i: int| 0 <= i < n - 1 implies (#[trigger] p[i]).0@ == handed_in(p, input, i)
            by {
            assert(runs[i].0@ == handed_in(runs, input, i));
        }
        let mid = handed_in(p, input, n - 1);
        assert(chain_trace(run_module, front, p, input, n - 1));
        assert(chain_reaches(run_module, front, input, mid));
        let j = n - 1;
        assert(runs[j].0@ == handed_in(runs, input, j));
        assert(call_ensures(run_module, (&files[j], &runs[j].0), Ok::<String, E>(runs[j].1)));
        assert(runs[j].0@ == mid);
        assert(files.last() == files[j]);
        assert(call_ensures(run_module, (&files.last(), &runs[j].0), Ok::<String, E>(runs[j].1)));
        assert(chain_reaches(run_module, files.drop_last(), input, mid));
        assert(runs[j].1@ == out);
    }
    if exists|mid: Seq<char>, t: String, r: String|
        {
            &&& #[trigger] chain_reaches(run_module, front, input, mid)
            &&& t@ == mid
            &&& #[trigger] call_ensures(run_module, (&files.last(), &t), Ok::<String, E>(r))
            &&& r@ == out
        } {
        let (mid, t, r) = choose|mid: Seq<char>, t: String, r: String|
            {
                &&& #[trigger] chain_reaches(run_module, front, input, mid)
                &&& t@ == mid
                &&& #[trigger] call_ensures(run_module, (&files.last(), &t), Ok::<String, E>(r))
                &&& r@ == out
            };
        let p = choose|runs: Seq<(String, String)>|
            {
                &&& #[trigger] chain_trace(run_module, front, runs, input, front.len() as int)
                &&& handed_in(runs, input, front.len() as int) == mid
            };
        let runs = p.push((t, r));
        assert(files.last() == files[n - 1]);
        assert forall|i: int| 0 <= i < n implies #[trigger] call_ensures(
            run_module,
            (&files[i], &runs[i].0),
            Ok::<String, E>(runs[i].1),
        ) by {
            if i < n - 1 {
                assert(files[i] == front[i]);
                assert(runs[i] == p[i]);
                assert(call_ensures(run_module, (&front[i], &p[i].0), Ok::<String, E>(p[i].1)));
            }
        }
        assert forall|i: int| 0 <= i < n implies (#[trigger] runs[i]).0@ == handed_in(
            runs,
            input,
            i,
        ) by {
            if i < n - 1 {
                assert(runs[i] == p[i]);
                assert(p[i].0@ == handed_in(p, input, i));
                if i > 0 {
                    assert(runs[i - 1] == p[i - 1]);
                }
            } else if i > 0 {
                assert(runs[i - 1] == p[i - 1]);
            }
        }
        assert(chain_trace(run_module, files, runs, input, n));
        assert(handed_in(runs, input, n) == out);
    }
}

/// A chain of one module reaches exactly the texts that the module returns
/// when handed the input.
pub proof fn lemma_single_module_chain<F, E>(
    run_module: F,
    path: String,
    input: Seq<char>,
    out: Seq<char>,
)
    where F: Fn(&String, &String) -> Result<String, E>
    ensures
        chain_reaches(run_module, seq![path], input, out) <==> exists|t: String, r: String|
            {
                &&& t@ == input
                &&& #[trigger] call_ensures(run_module, (&path, &t), Ok::<String, E>(r))
                &&& r@ == out
            },
{
    let files = seq![path];
    lemma_chain_last_step(run_module, files, input, out);
    assert(files.drop_last() =~= Seq::<String>::empty());
    assert(files.last() == path);
    let runs0 = Seq::<(String, String)>::empty();
    assert(chain_trace(run_module, files.drop_last(), runs0, input, 0));
    assert(chain_reaches(run_module, files.drop_last(), input, input));
    if chain_reaches(run_module, files, input, out) {
        let (mid, t, r) = choose|mid: Seq<char>, t: String, r: String|
            {
                &&& #[trigger] chain_reaches(run_module, files.drop_last(), input, mid)
                &&& t@ == mid
                &&& #[trigger] call_ensures(run_module, (&files.last(), &t), Ok::<String, E>(r))
                &&& r@ == out
            };
        lemma_empty_chain(run_module, input, mid);
        assert(call_ensures(run_module, (&path, &t), Ok::<String, E>(r)));
    }
    if exists|t: String, r: String|
        {
            &&& t@ == input
            &&& #[trigger] call_ensures(run_module, (&path, &t), Ok::<String, E>(r))
            &&& r@ == out
        } {
        let (t, r) = choose|t: String, r: String|
            {
                &&& t@ == input
                &&& #[trigger] call_ensures(run_module, (&path, &t), Ok::<String, E>(r))
                &&& r@ == out
            };
        assert(call_ensures(run_module, (&files.last(), &t), Ok::<String, E>(r)));
    }
}

/// Chaining `first` and then `second` is running `first` and handing what it
/// returns to `second`: a text can come out of the whole chain exactly when
/// some text can come out of `first` from which `second` can reach it.
pub proof fn lemma_chain_append<F, E>(
    run_module: F,
    first: Seq<String>,
    second: Seq<String>,
    input: Seq<char>,
    out: Seq<char>,
)
    where F: Fn(&String, &String) -> Result<String, E>
    ensures
        chain_reaches(run_module, first + second, input, out) <==> exists|mid: Seq<char>|
            #[trigger] chain_reaches(run_module, first, input, mid) && chain_reaches(
                run_module,
                second,
                mid,
                out,
            ),
{
    let files = first + second;
    let n = first.len() as int;
    let m = second.len() as int;
    if chain_reaches(run_module, files, input, out) {
        let r = choose|runs: Seq<(String, String)>|
            {
                &&& #[trigger] chain_trace(run_module, files, runs, input, files.len() as int)
                &&& handed_in(runs, input, files.len() as int) == out
            };
        let mid = handed_in(r, input, n);
        let ra = r.take(n);
        let rb = r.skip(n);
        assert forall|i: int| 0 <= i < n implies #[trigger] call_ensures(
            run_module,
            (&first[i], &ra[i].0),
            Ok::<String, E>(ra[i].1),
        ) by {
            assert(files[i] == first[i]);
            assert(call_ensures(run_module, (&files[i], &r[i].0), Ok::<String, E>(r[i].1)));
        }
        assert forall|i: int| 0 <= i < n implies (#[trigger] ra[i]).0@ == handed_in(ra, input, i) by {
            assert(r[i].0@ == handed_in(r, input, i));
        }
        assert(chain_trace(run_module, first, ra, input, n));
        assert(handed_in(ra, input, n) == mid);
        assert forall|i: int| 0 <= i < m implies #[trigger] call_ensures(
            run_module,
            (&second[i], &rb[i].0),
            Ok::<String, E>(rb[i].1),
        ) by {
            let j = n + i;
            assert(files[j] == second[i]);
            assert(call_ensures(run_module, (&files[j], &r[j].0), Ok::<String, E>(r[j].1)));
        }
        assert forall|i: int| 0 <= i < m implies (#[trigger] rb[i]).0@ == handed_in(rb, mid, i) by {
            let j = n + i;
            assert(r[j].0@ == handed_in(r, input, j));
        }
        assert(chain_trace(run_module, second, rb, mid, m));
        assert(handed_in(rb, mid, m) == out);
        assert(chain_reaches(run_module, first, input, mid));
        assert(chain_reaches(run_module, second, mid, out));
    }
    if exists|mid: Seq<char>|
        #[trigger] chain_reaches(run_module, first, input, mid) && chain_reaches(
            run_module,
            second,
            mid,
            out,
        ) {
        let mid = choose|mid: Seq<char>|
            #[trigger] chain_reaches(run_module, first, input, mid) && chain_reaches(
                run_module,
                second,
                mid,
                out,
            );
        let ra = choose|runs: Seq<(String, String)>|
            {
                &&& #[trigger] chain_trace(run_module, first, runs, input, first.len() as int)
                &&& handed_in(runs, input, first.len() as int) == mid
            };
        let rb = choose|runs: Seq<(String, String)>|
            {
                &&& #[trigger] chain_trace(run_module, second, runs, mid, second.len() as int)
                &&& handed_in(runs, mid, second.len() as int) == out
            };
        let r = ra + rb;
        assert forall|i: int| 0 <= i < n + m implies #[trigger] call_ensures(
            run_module,
            (&files[i], &r[i].0),
            Ok::<String, E>(r[i].1),
        ) by {
            if i < n {
                assert(files[i] == first[i]);
                assert(call_ensures(run_module, (&first[i], &ra[i].0), Ok::<String, E>(ra[i].1)));
            } else {
                let j = i - n;
                assert(files[i] == second[j]);
                assert(r[i] == rb[j]);
                assert(call_ensures(run_module, (&second[j], &rb[j].0), Ok::<String, E>(rb[j].1)));
            }
        }
        assert forall|i: int| 0 <= i < n + m implies (#[trigger] r[i]).0@ == handed_in(
            r,
            input,
            i,
        ) by {
            if i < n {
                assert(ra[i].0@ == handed_in(ra, input, i));
            } else {
                let j = i - n;
                assert(rb[j].0@ == handed_in(rb, mid, j));
            }
        }
        assert(chain_trace(run_module, files, r, input, files.len() as int));
        assert(handed_in(r, input, n + m) == out);
    }
}

/// Running a module is a function of the module's path and the characters of
/// the text it is given: such runs have one result.
pub open spec fn runs_deterministic<F, E>(run_module: F) -> bool where
    F: Fn(&String, &String) -> Result<String, E>,
 {
    forall|p: String, t1: String, t2: String, r1: Result<String, E>, r2: Result<String, E>|
        t1@ == t2@ && #[trigger] call_ensures(run_module, (&p, &t1), r1) && #[trigger] call_ensures(
            run_module,
            (&p, &t2),
            r2,
        ) ==> r1 == r2
}

/// With deterministic module runs, two records of the same chain from the
/// same input agree.
proof fn lemma_traces_agree<F, E>(
    run_module: F,
    files: Seq<String>,
    r1: Seq<(String, String)>,
    r2: Seq<(String, String)>,
    input: Seq<char>,
    k: int,
    i: int,
)
    where F: Fn(&String, &String) -> Result<String, E>
    requires
        runs_deterministic(run_module),
        chain_trace(run_module, files, r1, input, k),
        chain_trace(run_module, files, r2, input, k),
        0 <= i <= k,
    ensures
        handed_in(r1, input, i) == handed_in(r2, input, i),
    decreases i,
{
    if i > 0 {
        let j = i - 1;
        lemma_traces_agree(run_module, files, r1, r2, input, k, j);
        assert(r1[j].0@ == handed_in(r1, input, j));
        assert(r2[j].0@ == handed_in(r2, input, j));
        assert(call_ensures(run_module, (&files[j], &r1[j].0), Ok::<String, E>(r1[j].1)));
        assert(call_ensures(run_module, (&files[j], &r2[j].0), Ok::<String, E>(r2[j].1)));
    }
}

/// The first `k` runs of a record of `steps` runs are a record of `k` runs.
proof fn lemma_trace_prefix<F, E>(
    run_module: F,
    files: Seq<String>,
    runs: Seq<(String, String)>,
    input: Seq<char>,
    steps: int,
    k: int,
)
    where F: Fn(&String, &String) -> Result<String, E>
    requires
        chain_trace(run_module, files, runs, input, steps),
        0 <= k <= steps,
    ensures
        chain_trace(run_module, files, runs.take(k), input, k),
        k < steps ==> handed_in(runs.take(k), input, k) == runs[k].0@,
{
    let p = runs.take(k);
    assert forall|i: int| 0 <= i < k implies #[trigger] call_ensures(
        run_module,
        (&files[i], &p[i].0),
        Ok::<String, E>(p[i].1),
    ) by {
        assert(call_ensures(run_module, (&files[i], &runs[i].0), Ok::<String, E>(runs[i].1)));
    }
    assert forall|i: int| 0 <= i < k implies (#[trigger] p[i]).0@ == handed_in(p, input, i) by {
        assert(runs[i].0@ == handed_in(runs, input, i));
    }
    if k < steps {
        assert(runs[k].0@ == handed_in(runs, input, k));
    }
}

/// With deterministic module runs, a chain has one outcome: the text it
/// reaches is unique, it cannot both succeed and fail, and when it fails it
/// fails at one module with one cause: the first module that fails.
pub proof fn lemma_deterministic_chain<F, E>(
    run_module: F,
    files: Seq<String>,
    input: Seq<char>,
    out1: Seq<char>,
    out2: Seq<char>,
    k1: int,
    cause1: E,
    k2: int,
    cause2: E,
)
    where F: Fn(&String, &String) -> Result<String, E>
    requires
        runs_deterministic(run_module),
    ensures
        chain_reaches(run_module, files, input, out1) && chain_reaches(run_module, files, input, out2)
            ==> out1 == out2,
        chain_reaches(run_module, files, input, out1) ==> !chain_fails_at(
            run_module,
            files,
            input,
            k1,
            cause1,
        ),
        chain_fails_at(run_module, files, input, k1, cause1) && chain_fails_at(
            run_module,
            files,
            input,
            k2,
            cause2,
        ) ==> k1 == k2 && cause1 == cause2,
{
    let n = files.len() as int;
    if chain_reaches(run_module, files, input, out1) && chain_reaches(run_module, files, input, out2) {
        let r1 = choose|runs: Seq<(String, String)>|
            {
                &&& #[trigger] chain_trace(run_module, files, runs, input, files.len() as int)
                &&& handed_in(runs, input, files.len() as int) == out1
            };
        let r2 = choose|runs: Seq<(String, String)>|
            {
                &&& #[trigger] chain_trace(run_module, files, runs, input, files.len() as int)
                &&& handed_in(runs, input, files.len() as int) == out2
            };
        lemma_traces_agree(run_module, files, r1, r2, input, n, n);
    }
    if chain_reaches(run_module, files, input, out1) && chain_fails_at(
        run_module,
        files,
        input,
        k1,
        cause1,
    ) {
        let r1 = choose|runs: Seq<(String, String)>|
            {
                &&& #[trigger] chain_trace(run_module, files, runs, input, files.len() as int)
                &&& handed_in(runs, input, files.len() as int) == out1
            };
        let (r2, t) = choose|runs: Seq<(String, String)>, text: String|
            {
                &&& #[trigger] chain_trace(run_module, files, runs, input, k1)
                &&& k1 < files.len()
                &&& text@ == handed_in(runs, input, k1)
                &&& #[trigger] call_ensures(run_module, (&files[k1], &text), Err::<String, E>(cause1))
            };
        lemma_trace_prefix(run_module, files, r1, input, n, k1);
        lemma_traces_agree(run_module, files, r1.take(k1), r2, input, k1, k1);
        assert(call_ensures(run_module, (&files[k1], &r1[k1].0), Ok::<String, E>(r1[k1].1)));
    }
    if chain_fails_at(run_module, files, input, k1, cause1) && chain_fails_at(
        run_module,
        files,
        input,
        k2,
        cause2,
    ) {
        let (r1, t1) = choose|runs: Seq<(String, String)>, text: String|
            {
                &&& #[trigger] chain_trace(run_module, files, runs, input, k1)
                &&& k1 < files.len()
                &&& text@ == handed_in(runs, input, k1)
                &&& #[trigger] call_ensures(run_module, (&files[k1], &text), Err::<String, E>(cause1))
            };
        let (r2, t2) = choose|runs: Seq<(String, String)>, text: String|
            {
                &&& #[trigger] chain_trace(run_module, files, runs, input, k2)
                &&& k2 < files.len()
                &&& text@ == handed_in(runs, input, k2)
                &&& #[trigger] call_ensures(run_module, (&files[k2], &text), Err::<String, E>(cause2))
            };
        if k1 < k2 {
            lemma_trace_prefix(run_module, files, r2, input, k2, k1);
            lemma_traces_agree(run_module, files, r1, r2.take(k1), input, k1, k1);
            assert(call_ensures(run_module, (&files[k1], &r2[k1].0), Ok::<String, E>(r2[k1].1)));
        } else if k2 < k1 {
            lemma_trace_prefix(run_module, files, r1, input, k1, k2);
            lemma_traces_agree(run_module, files, r2, r1.take(k2), input, k2, k2);
            assert(call_ensures(run_module, (&files[k2], &r1[k2].0), Ok::<String, E>(r1[k2].1)));
        } else {
            lemma_traces_agree(run_module, files, r1, r2, input, k1, k1);
        }
    }
}

/// Every result that the module at `echo` can give is `Ok` of the text it
/// was handed.
pub open spec fn echoes<F, E>(run_module: F, echo: String) -> bool where
    F: Fn(&String, &String) -> Result<String, E>,
 {
    forall|t: String, r: Result<String, E>|
        #[trigger] call_ensures(run_module, (&echo, &t), r) ==> (r matches Ok(s) && s@ == t@)
}

/// An echo module anywhere in a chain changes nothing and never fails: any
/// text that the chain with it reaches, the chain without it reaches too, and
/// the chain cannot fail at the echo module.
pub proof fn lemma_echo_module_is_identity<F, E>(
    run_module: F,
    before: Seq<String>,
    echo: String,
    after: Seq<String>,
    input: Seq<char>,
    out: Seq<char>,
    cause: E,
)
    where F: Fn(&String, &String) -> Result<String, E>
    requires
        echoes(run_module, echo),
    ensures
        chain_reaches(run_module, before + seq![echo] + after, input, out) ==> chain_reaches(
            run_module,
            before + after,
            input,
            out,
        ),
        !chain_fails_at(run_module, before + seq![echo] + after, input, before.len() as int, cause),
{
    let with = before + seq![echo] + after;
    let without = before + after;
    let n = before.len() as int;
    let m = after.len() as int;
    assert(with.len() == n + 1 + m);
    assert(without.len() == n + m);
    assert(with[n] == echo);
    if chain_reaches(run_module, with, input, out) {
        let r = choose|runs: Seq<(String, String)>|
            {
                &&& #[trigger] chain_trace(run_module, with, runs, input, with.len() as int)
                &&& handed_in(runs, input, with.len() as int) == out
            };
        assert(call_ensures(run_module, (&with[n], &r[n].0), Ok::<String, E>(r[n].1)));
        assert(r[n].1@ == r[n].0@);
        assert(r[n].0@ == handed_in(r, input, n));
        let u = r.take(n) + r.skip(n + 1);
        assert(u.len() == n + m);
        assert forall|i: int| 0 <= i < n + m implies #[trigger] call_ensures(
            run_module,
            (&without[i], &u[i].0),
            Ok::<String, E>(u[i].1),
        ) by {
            if i < n {
                assert(without[i] == with[i]);
                assert(u[i] == r[i]);
                assert(call_ensures(run_module, (&with[i], &r[i].0), Ok::<String, E>(r[i].1)));
            } else {
                let k = i + 1;
                assert(without[i] == with[k]);
                assert(u[i] == r[k]);
                assert(call_ensures(run_module, (&with[k], &r[k].0), Ok::<String, E>(r[k].1)));
            }
        }
        assert forall|i: int| 0 <= i < n + m implies (#[trigger] u[i]).0@ == handed_in(
            u,
            input,
            i,
        ) by {
            if i < n {
                assert(u[i] == r[i]);
                assert(r[i].0@ == handed_in(r, input, i));
                if i > 0 {
                    assert(u[i - 1] == r[i - 1]);
                }
            } else {
                let k = i + 1;
                assert(u[i] == r[k]);
                assert(r[k].0@ == handed_in(r, input, k));
                if i > n {
                    assert(u[i - 1] == r[k - 1]);
                } else if i > 0 {
                    assert(u[i - 1] == r[i - 1]);
                }
            }
        }
        assert(chain_trace(run_module, without, u, input, without.len() as int));
        if m > 0 {
            assert(u[n + m - 1] == r[n + m]);
        } else if n > 0 {
            assert(u[n - 1] == r[n - 1]);
        }
        assert(handed_in(u, input, n + m) == out);
    }
    if chain_fails_at(run_module, with, input, n, cause) {
        let (r, t) = choose|runs: Seq<(String, String)>, text: String|
            {
                &&& #[trigger] chain_trace(run_module, with, runs, input, n)
                &&& n < with.len()
                &&& text@ == handed_in(runs, input, n)
                &&& #[trigger] call_ensures(run_module, (&with[n], &text), Err::<String, E>(cause))
            };
        assert(call_ensures(run_module, (&echo, &t), Err::<String, E>(cause)));
    }
}

/// A chain of just the echo module hands back its input.
pub proof fn lemma_echo_alone<F, E>(run_module: F, echo: String, input: Seq<char>, out: Seq<char>)
    where F: Fn(&String, &String) -> Result<String, E>
    requires
        echoes(run_module, echo),
        chain_reaches(run_module, seq![echo], input, out),
    ensures
        out == input,
{
    let empty = Seq::<String>::empty();
    assert(empty + seq![echo] + empty =~= seq![echo]);
    assert(empty + empty =~= empty);
    lemma_echo_module_is_identity(run_module, empty, echo, empty, input, out, arbitrary::<E>());
    lemma_empty_chain(run_module, input, out);
}

} // verus!
