//! Planning the launch of a pipeline: which stages start a process, where
//! each one reads from and where it writes to.

use vstd::prelude::*;

verus! {

/// How one process of a pipeline is to be started, over plain sequences.
pub struct LaunchPlan {
    pub stage: int,
    pub program: Seq<char>,
    pub args: Seq<Seq<char>>,
    pub from_previous: bool,
    pub piped: bool,
}

/// How one process of a pipeline is to be started.
#[derive(Debug, PartialEq, Eq)]
pub struct Launch {
    /// Position of the stage in the pipeline, blank stages counted.
    pub stage: usize,
    pub program: String,
    pub args: Vec<String>,
    /// Read from the output pipe of the process launched just before;
    /// otherwise inherit the interpreter's input.
    pub from_previous: bool,
    /// Write into a new pipe for the next process; otherwise inherit the
    /// interpreter's output.
    pub piped: bool,
}

impl View for Launch {
    type V = LaunchPlan;

    open spec fn view(&self) -> LaunchPlan {
        LaunchPlan {
            stage: self.stage as int,
            program: self.program@,
            args: self.args.deep_view(),
            from_previous: self.from_previous,
            piped: self.piped,
        }
    }
}

/// The launches for the first `n` stages of `stages`: a stage without words
/// is skipped and leaves the carried pipe alone; a stage reads from the
/// previous pipe exactly when a process was launched before it, and writes
/// into a new pipe exactly when it is not the last stage.
pub open spec fn plan_upto(stages: Seq<Seq<Seq<char>>>, n: nat) -> Seq<LaunchPlan>
    decreases n,
{
    if n == 0 {
        Seq::empty()
    } else {
        let p = plan_upto(stages, (n - 1) as nat);
        let st = stages[n - 1];
        if st.len() == 0 {
            p
        } else {
            p.push(
                LaunchPlan {
                    stage: n - 1,
                    program: st[0],
                    args: st.skip(1),
                    from_previous: p.len() > 0,
                    piped: n < stages.len(),
                },
            )
        }
    }
}

/// The launches for a whole pipeline, left to right.
pub open spec fn plan_of(stages: Seq<Seq<Seq<char>>>) -> Seq<LaunchPlan> {
    plan_upto(stages, stages.len())
}

/// A launch without its stage position: what is run and how it is wired.
pub open spec fn wiring(l: LaunchPlan) -> (Seq<char>, Seq<Seq<char>>, bool, bool) {
    (l.program, l.args, l.from_previous, l.piped)
}

/// The launches of a plan without their stage positions.
pub open spec fn wirings(p: Seq<LaunchPlan>) -> Seq<(Seq<char>, Seq<Seq<char>>, bool, bool)> {
    p.map_values(|l: LaunchPlan| wiring(l))
}

proof fn lemma_wirings_push(p: Seq<LaunchPlan>, l: LaunchPlan)
    ensures
        wirings(p.push(l)) == wirings(p).push(wiring(l)),
{
    assert(wirings(p.push(l)) =~= wirings(p).push(wiring(l)));
}

proof fn lemma_blank_inside(a: Seq<Seq<Seq<char>>>, b: Seq<Seq<Seq<char>>>, n: nat)
    requires
        a.len() > 0,
        b.len() > 0,
        n <= a.len() + 1 + b.len(),
    ensures
        wirings(plan_upto(a + seq![Seq::empty()] + b, n)) == wirings(
            plan_upto(a + b, if n <= a.len() { n } else { (n - 1) as nat }),
        ),
    decreases n,
{
    let x = a + seq![Seq::<Seq<char>>::empty()] + b;
    let y = a + b;
    if n == 0 {
    } else if n == a.len() + 1 {
        lemma_blank_inside(a, b, (n - 1) as nat);
        assert(x[n - 1].len() == 0);
    } else {
        lemma_blank_inside(a, b, (n - 1) as nat);
        let m: nat = if n <= a.len() { n } else { (n - 1) as nat };
        assert(x[n - 1] == y[m - 1]);
        let px = plan_upto(x, (n - 1) as nat);
        let py = plan_upto(y, (m - 1) as nat);
        assert(px.len() == wirings(px).len());
        assert(py.len() == wirings(py).len());
        let st = x[n - 1];
        if st.len() > 0 {
            lemma_wirings_push(
                px,
                LaunchPlan {
                    stage: n - 1,
                    program: st[0],
                    args: st.skip(1),
                    from_previous: px.len() > 0,
                    piped: n < x.len(),
                },
            );
            lemma_wirings_push(
                py,
                LaunchPlan {
                    stage: m - 1,
                    program: st[0],
                    args: st.skip(1),
                    from_previous: py.len() > 0,
                    piped: m < y.len(),
                },
            );
        }
    }
}

/// A blank stage between two others starts no process and leaves the
/// wiring of the others as it would be without it: the stage after it still
/// reads from the one before it.
pub proof fn law_blank_stage_skipped(a: Seq<Seq<Seq<char>>>, b: Seq<Seq<Seq<char>>>)
    requires
        a.len() > 0,
        b.len() > 0,
    ensures
        wirings(plan_of(a + seq![Seq::empty()] + b)) == wirings(plan_of(a + b)),
{
    lemma_blank_inside(a, b, a.len() + 1 + b.len());
}

proof fn lemma_plan_upto(stages: Seq<Seq<Seq<char>>>, n: nat)
    requires
        n <= stages.len(),
    ensures
        forall|k: int|
            0 <= k < plan_upto(stages, n).len() ==> {
                let l = #[trigger] plan_upto(stages, n)[k];
                &&& 0 <= l.stage < n
                &&& stages[l.stage].len() > 0
                &&& l.program == stages[l.stage][0]
                &&& l.args == stages[l.stage].skip(1)
                &&& l.from_previous == (k > 0)
                &&& l.piped == (l.stage + 1 < stages.len())
            },
        forall|k: int|
            0 < k < plan_upto(stages, n).len() ==> plan_upto(stages, n)[k - 1].stage
                < #[trigger] plan_upto(stages, n)[k].stage,
        forall|i: int|
            0 <= i < n && #[trigger] stages[i].len() > 0 ==> exists|k: int|
                0 <= k < plan_upto(stages, n).len() && plan_upto(stages, n)[k].stage == i,
    decreases n,
{
    if n > 0 {
        lemma_plan_upto(stages, (n - 1) as nat);
        let p = plan_upto(stages, (n - 1) as nat);
        if stages[n - 1].len() > 0 {
            let q = plan_upto(stages, n);
            assert(q.len() == p.len() + 1);
            assert forall|k: int| 0 <= k < p.len() implies q[k] == p[k] by {}
            assert forall|i: int| 0 <= i < n && #[trigger] stages[i].len() > 0 implies exists|k: int|
                0 <= k < q.len() && q[k].stage == i by {
                if i == n - 1 {
                    assert(q[p.len() as int].stage == i);
                } else {
                    let k = choose|k: int| 0 <= k < p.len() && p[k].stage == i;
                    assert(q[k].stage == i);
                }
            }
        }
    }
}

/// How a plan wires its processes: every launch is a stage with words, run
/// with its first word as the program; the stages with words are launched
/// each once, left to right; the first launch inherits the interpreter's
/// input and each later one reads the pipe of the launch just before it, so
/// every pipe has exactly one reader; only a launch of the last stage writes
/// to the interpreter's output.
pub proof fn law_plan_wiring(stages: Seq<Seq<Seq<char>>>)
    ensures
        forall|k: int|
            0 <= k < plan_of(stages).len() ==> {
                let l = #[trigger] plan_of(stages)[k];
                &&& 0 <= l.stage < stages.len()
                &&& stages[l.stage].len() > 0
                &&& l.program == stages[l.stage][0]
                &&& l.args == stages[l.stage].skip(1)
                &&& l.from_previous == (k > 0)
                &&& l.piped == (l.stage + 1 < stages.len())
            },
        forall|k: int|
            0 < k < plan_of(stages).len() ==> plan_of(stages)[k - 1].stage
                < #[trigger] plan_of(stages)[k].stage,
        forall|k: int|
            0 <= k < plan_of(stages).len() - 1 ==> #[trigger] plan_of(stages)[k].piped
                && plan_of(stages)[k + 1].from_previous,
        forall|i: int|
            0 <= i < stages.len() && #[trigger] stages[i].len() > 0 ==> exists|k: int|
                0 <= k < plan_of(stages).len() && plan_of(stages)[k].stage == i,
{
    lemma_plan_upto(stages, stages.len());
    let p = plan_of(stages);
    assert forall|k: int| 0 <= k < p.len() - 1 implies #[trigger] p[k].piped && p[k + 1].from_previous by {
        assert(p[k].stage < p[k + 1].stage);
    }
}

/// A copy of the words of `w` from position `from` on.
fn copy_from(w: &Vec<String>, from: usize) -> (r: Vec<String>)
    requires
        from <= w.len(),
    ensures
        r.deep_view() == w.deep_view().skip(from as int),
{
    let mut out: Vec<String> = Vec::new();
    let mut i: usize = from;
    while i < w.len()
        invariant
            from <= i <= w.len(),
            out.len() == i - from,
            forall|k: int| 0 <= k < out.len() ==> #[trigger] out[k]@ == w[from + k]@,
        decreases w.len() - i,
    {
        let s = w[i].clone();
        out.push(s);
        i = i + 1;
    }
    assert(out.deep_view() =~= w.deep_view().skip(from as int));
    out
}

/// Plans the launches of a pipeline given as the words of each stage.
pub fn plan_pipeline(stages: &Vec<Vec<String>>) -> (r: Vec<Launch>)
    ensures
        r@.map_values(|l: Launch| l@) == plan_of(stages.deep_view()),
{
    let ghost sv = stages.deep_view();
    let mut out: Vec<Launch> = Vec::new();
    let mut i: usize = 0;
    assert(out@.map_values(|l: Launch| l@) =~= plan_upto(sv, 0));
    while i < stages.len()
        invariant
            i <= stages.len(),
            sv == stages.deep_view(),
            out@.map_values(|l: Launch| l@) == plan_upto(sv, i as nat),
        decreases stages.len() - i,
    {
        let st = &stages[i];
        assert(st.deep_view() == sv[i as int]);
        if st.len() > 0 {
            let launched = out.len() > 0;
            let l = Launch {
                stage: i,
                program: st[0].clone(),
                args: copy_from(st, 1),
                from_previous: launched,
                piped: i + 1 < stages.len(),
            };
            let ghost before = out@;
            out.push(l);
            assert(out@.map_values(|l: Launch| l@) =~= before.map_values(|l: Launch| l@).push(l@));
        }
        i = i + 1;
    }
    out
}

} // verus!
