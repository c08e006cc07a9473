//! Middleware pipelines: the walk of one event through a service's
//! pipeline, the assembly of pipelines from configured names, and the set of
//! middleware instances to start.

use vstd::prelude::*;
use crate::config::ConfigError;
use crate::text::texts;

verus! {

/// What a middleware decided about an event.
#[derive(Debug, Clone, Copy, PartialEq, Eq, Structural)]
pub enum Verdict {
    /// Hand the event on to the next middleware.
    Continue,
    /// End the pipeline for this event.
    Stop,
}

/// How one middleware's inspection of an event ended.
#[derive(Debug, Clone, Copy, PartialEq, Eq, Structural)]
pub enum Outcome {
    Decided(Verdict),
    /// The middleware reported an error; this is no `Stop`.
    Failed,
}

/// Progress of one event through a pipeline of `len` middlewares: `next` is
/// the position of the middleware to invoke next, unless `finished`.
#[derive(Debug, Clone, Copy)]
pub struct PipelinePass {
    pub len: usize,
    pub next: usize,
    pub finished: bool,
}

pub open spec fn pass_start(len: usize) -> PipelinePass {
    PipelinePass { len, next: 0, finished: len == 0 }
}

pub open spec fn pass_step(p: PipelinePass, o: Outcome) -> PipelinePass {
    if o == Outcome::Decided(Verdict::Stop) {
        PipelinePass { finished: true, ..p }
    } else {
        PipelinePass { next: (p.next + 1) as usize, finished: p.next + 1 == p.len, ..p }
    }
}

/// Position of the first `Stop` among the outcomes, or their number.
pub open spec fn first_stop(v: Seq<Outcome>) -> nat
    decreases v.len(),
{
    if v.len() == 0 {
        0
    } else if v[0] == Outcome::Decided(Verdict::Stop) {
        0
    } else {
        1 + first_stop(v.drop_first())
    }
}

/// How many middlewares see an event when the middlewares, in order, would
/// end their inspection with the outcomes `v`.
pub open spec fn observers(v: Seq<Outcome>) -> nat {
    if first_stop(v) < v.len() {
        first_stop(v) + 1
    } else {
        v.len()
    }
}

/// The pass after the first `k` outcomes of `v` were recorded.
pub open spec fn pass_after(len: usize, v: Seq<Outcome>, k: nat) -> PipelinePass
    decreases k,
{
    if k == 0 {
        pass_start(len)
    } else {
        pass_step(pass_after(len, v, (k - 1) as nat), v[k - 1])
    }
}

impl PipelinePass {
    pub open spec fn wf(self) -> bool {
        self.next <= self.len && (!self.finished ==> self.next < self.len)
    }

    /// A pass of an event through a pipeline of `len` middlewares.
    pub fn new(len: usize) -> (r: PipelinePass)
        ensures
            r == pass_start(len),
            r.wf(),
    {
        PipelinePass { len, next: 0, finished: len == 0 }
    }

    /// The position of the middleware that should inspect the event next, if
    /// any.
    pub fn next_middleware(&self) -> (r: Option<usize>)
        ensures
            r == (if self.finished { None } else { Some(self.next) }),
    {
        if self.finished {
            None
        } else {
            Some(self.next)
        }
    }

    /// Records how the middleware at `next` ended its inspection.
    pub fn record(&mut self, outcome: Outcome)
        requires
            old(self).wf(),
            !old(self).finished,
        ensures
            *final(self) == pass_step(*old(self), outcome),
            final(self).wf(),
    {
        if outcome == Outcome::Decided(Verdict::Stop) {
            self.finished = true;
        } else {
            self.next = self.next + 1;
            self.finished = self.next == self.len;
        }
    }
}

proof fn lemma_first_stop_bound(v: Seq<Outcome>)
    ensures
        first_stop(v) <= v.len(),
        forall|j: int| 0 <= j < first_stop(v) ==> v[j] != Outcome::Decided(Verdict::Stop),
        first_stop(v) < v.len() ==> v[first_stop(v) as int] == Outcome::Decided(Verdict::Stop),
    decreases v.len(),
{
    if v.len() > 0 && v[0] != Outcome::Decided(Verdict::Stop) {
        lemma_first_stop_bound(v.drop_first());
        assert forall|j: int| 0 <= j < first_stop(v) implies v[j] != Outcome::Decided(Verdict::Stop) by {
            if j > 0 {
                assert(v[j] == v.drop_first()[j - 1]);
            }
        }
    }
}

proof fn lemma_pass_prefix(len: usize, v: Seq<Outcome>, k: nat)
    requires
        v.len() == len,
        k <= first_stop(v),
        k < len,
    ensures
        pass_after(len, v, k) == (PipelinePass { len, next: k as usize, finished: false }),
    decreases k,
{
    lemma_first_stop_bound(v);
    if k > 0 {
        lemma_pass_prefix(len, v, (k - 1) as nat);
    }
}

/// The middlewares of a pipeline inspect an event in their declared order, up
/// to and including the first that returns `Stop`; none after it sees the
/// event, and a pipeline with no `Stop` is walked to its end. `v` holds the
/// outcome that each middleware would give.
pub proof fn lemma_pipeline_order(len: usize, v: Seq<Outcome>)
    requires
        v.len() == len,
    ensures
        forall|k: nat| k < observers(v) ==> #[trigger] pass_after(len, v, k) == (PipelinePass {
            len,
            next: k as usize,
            finished: false,
        }),
        pass_after(len, v, observers(v)).finished,
{
    lemma_first_stop_bound(v);
    assert forall|k: nat| k < observers(v) implies #[trigger] pass_after(len, v, k) == (PipelinePass {
        len,
        next: k as usize,
        finished: false,
    }) by {
        lemma_pass_prefix(len, v, k);
    }
    if len > 0 {
        let last = (observers(v) - 1) as nat;
        lemma_pass_prefix(len, v, last);
    }
}

/// An event whose service has an empty pipeline is handed to no middleware.
pub proof fn lemma_empty_pipeline()
    ensures
        pass_start(0).finished,
{
}

/// When the first middleware stops every event, no later middleware of the
/// pipeline is ever handed one.
pub proof fn lemma_stop_first_shields_rest(len: usize, v: Seq<Outcome>)
    requires
        v.len() == len,
        len > 0,
        v[0] == Outcome::Decided(Verdict::Stop),
    ensures
        observers(v) == 1,
        !pass_after(len, v, 0).finished && pass_after(len, v, 0).next == 0,
        pass_after(len, v, 1).finished,
{
    lemma_pipeline_order(len, v);
}


/// Position of the first entry of `defined` equal to `name`, or its length.
pub open spec fn position_of(defined: Seq<Seq<char>>, name: Seq<char>) -> nat
    decreases defined.len(),
{
    if defined.len() == 0 {
        0
    } else if defined[0] == name {
        0
    } else {
        1 + position_of(defined.drop_first(), name)
    }
}

proof fn lemma_position_of(defined: Seq<Seq<char>>, name: Seq<char>)
    ensures
        position_of(defined, name) <= defined.len(),
        position_of(defined, name) < defined.len() ==> defined[position_of(defined, name) as int]
            == name,
        forall|j: int| 0 <= j < position_of(defined, name) ==> defined[j] != name,
    decreases defined.len(),
{
    if defined.len() > 0 && defined[0] != name {
        lemma_position_of(defined.drop_first(), name);
        assert forall|j: int| 0 <= j < position_of(defined, name) implies defined[j] != name by {
            if j > 0 {
                assert(defined[j] == defined.drop_first()[j - 1]);
            }
        }
    }
}

/// Position of the first name of `names` that `defined` lacks, or the number
/// of names.
pub open spec fn first_undefined(names: Seq<Seq<char>>, defined: Seq<Seq<char>>) -> nat
    decreases names.len(),
{
    if names.len() == 0 {
        0
    } else if !defined.contains(names[0]) {
        0
    } else {
        1 + first_undefined(names.drop_first(), defined)
    }
}

proof fn lemma_first_undefined(names: Seq<Seq<char>>, defined: Seq<Seq<char>>)
    ensures
        first_undefined(names, defined) <= names.len(),
        first_undefined(names, defined) < names.len() ==> !defined.contains(
            names[first_undefined(names, defined) as int],
        ),
        forall|j: int|
            0 <= j < first_undefined(names, defined) ==> defined.contains(#[trigger] names[j]),
    decreases names.len(),
{
    if names.len() > 0 && defined.contains(names[0]) {
        lemma_first_undefined(names.drop_first(), defined);
        assert forall|j: int| 0 <= j < first_undefined(names, defined) implies defined.contains(
            names[j],
        ) by {
            if j > 0 {
                assert(names[j] == names.drop_first()[j - 1]);
            }
        }
    }
}

fn find_name(defined: &Vec<String>, name: &String) -> (r: usize)
    ensures
        r == position_of(texts(defined@), name@),
{
    proof {
        lemma_position_of(texts(defined@), name@);
    }
    let mut j: usize = 0;
    while j < defined.len()
        invariant
            j <= defined.len(),
            forall|i: int| 0 <= i < j ==> texts(defined@)[i] != name@,
            j <= position_of(texts(defined@), name@),
        decreases defined.len() - j,
    {
        proof {
            lemma_position_of(texts(defined@), name@);
        }
        assert(texts(defined@)[j as int] == defined@[j as int]@);
        if defined[j] == *name {
            return j;
        }
        j = j + 1;
    }
    j
}

/// The pipeline that `names` configures: for each name, in order, the
/// position in `defined` of the middleware of that name. A name that no
/// middleware has is an error that names the first such name.
pub fn build_middleware_pipeline(names: &Vec<String>, defined: &Vec<String>) -> (r: Result<
    Vec<usize>,
    ConfigError,
>)
    ensures
        first_undefined(texts(names@), texts(defined@)) == names@.len() <==> r is Ok,
        r matches Ok(p) ==> p@.len() == names@.len() && forall|i: int|
            0 <= i < names@.len() ==> #[trigger] p@[i] == position_of(
                texts(defined@),
                names@[i]@,
            ) && p@[i] < defined@.len() && defined@[p@[i] as int]@ == names@[i]@,
        r matches Err(e) ==> e == (ConfigError::UndefinedMiddleware {
            name: names@[first_undefined(texts(names@), texts(defined@)) as int],
        }),
{
    proof {
        lemma_first_undefined(texts(names@), texts(defined@));
    }
    let mut pipeline: Vec<usize> = Vec::new();
    let mut i: usize = 0;
    while i < names.len()
        invariant
            i <= names.len(),
            i <= first_undefined(texts(names@), texts(defined@)),
            pipeline@.len() == i,
            forall|k: int|
                0 <= k < i ==> #[trigger] pipeline@[k] == position_of(texts(defined@), names@[k]@)
                    && pipeline@[k] < defined@.len() && defined@[pipeline@[k] as int]@
                    == names@[k]@,
        decreases names.len() - i,
    {
        let j = find_name(defined, &names[i]);
        proof {
            lemma_first_undefined(texts(names@), texts(defined@));
            lemma_position_of(texts(defined@), names@[i as int]@);
        }
        assert(texts(names@)[i as int] == names@[i as int]@);
        if j == defined.len() {
            proof {
                if texts(defined@).contains(names@[i as int]@) {
                    let w = choose|w: int| 0 <= w < texts(defined@).len() && texts(defined@)[w]
                        == names@[i as int]@;
                    assert(w < position_of(texts(defined@), names@[i as int]@));
                }
                if i < first_undefined(texts(names@), texts(defined@)) {
                    assert(texts(defined@).contains(texts(names@)[i as int]));
                }
            }
            return Err(ConfigError::UndefinedMiddleware { name: names[i].clone() });
        }
        proof {
            assert(texts(defined@)[j as int] == defined@[j as int]@);
            assert(texts(defined@)[j as int] == names@[i as int]@);
            assert(texts(defined@).contains(texts(names@)[i as int]));
            if i == first_undefined(texts(names@), texts(defined@)) {
                assert(false);
            }
        }
        pipeline.push(j);
        i = i + 1;
    }
    Ok(pipeline)
}

/// Whether `m` stands in one of the first `n` pipelines.
pub open spec fn referenced_within(pipelines: Seq<Vec<usize>>, n: int, m: usize) -> bool {
    exists|p: int| 0 <= p < n && #[trigger] pipelines[p]@.contains(m)
}

/// Whether `m` stands in one of the pipelines.
pub open spec fn referenced(pipelines: Seq<Vec<usize>>, m: usize) -> bool {
    referenced_within(pipelines, pipelines.len() as int, m)
}

/// The middleware instances that the pipelines reference, each once, in the
/// order of first reference: every referenced instance is started exactly
/// once, however many pipelines list it.
pub fn middlewares_to_start(pipelines: &Vec<Vec<usize>>) -> (r: Vec<usize>)
    ensures
        forall|a: int, b: int| 0 <= a < b < r@.len() ==> r@[a] != r@[b],
        forall|m: usize| r@.contains(m) <==> referenced(pipelines@, m),
{
    let mut started: Vec<usize> = Vec::new();
    let mut i: usize = 0;
    while i < pipelines.len()
        invariant
            i <= pipelines.len(),
            forall|a: int, b: int| 0 <= a < b < started@.len() ==> started@[a] != started@[b],
            forall|m: usize| started@.contains(m) <==> referenced_within(pipelines@, i as int, m),
        decreases pipelines.len() - i,
    {
        let pipeline = &pipelines[i];
        let mut j: usize = 0;
        while j < pipeline.len()
            invariant
                i < pipelines.len(),
                pipeline == pipelines@[i as int],
                j <= pipeline.len(),
                forall|a: int, b: int| 0 <= a < b < started@.len() ==> started@[a] != started@[b],
                forall|m: usize| started@.contains(m) <==> (referenced_within(pipelines@, i as int, m)
                    || exists|q: int| 0 <= q < j && pipeline@[q] == m),
            decreases pipeline.len() - j,
        {
            let m = pipeline[j];
            let mut seen = false;
            let mut k: usize = 0;
            while k < started.len()
                invariant
                    k <= started.len(),
                    seen <==> exists|w: int| 0 <= w < k && started@[w] == m,
                decreases started.len() - k,
            {
                if started[k] == m {
                    seen = true;
                }
                k = k + 1;
            }
            let ghost before = started@;
            if !seen {
                started.push(m);
            }
            proof {
                assert forall|x: usize| started@.contains(x) <==> (referenced_within(pipelines@, i as int, x)
                    || exists|q: int| 0 <= q < j + 1 && pipeline@[q] == x) by {
                    if started@.contains(x) && x != m {
                        let w = choose|w: int| 0 <= w < started@.len() && started@[w] == x;
                        assert(before[w] == x);
                        assert(before.contains(x));
                    }
                    if before.contains(x) {
                        let w = choose|w: int| 0 <= w < before.len() && before[w] == x;
                        assert(started@[w] == x);
                    }
                    if x == m {
                        assert(pipeline@[j as int] == x);
                        if !seen {
                            assert(started@[before.len() as int] == m);
                        } else {
                            let w = choose|w: int| 0 <= w < before.len() && before[w] == m;
                            assert(started@[w] == m);
                        }
                    }
                }
            }
            j = j + 1;
        }
        proof {
            assert forall|x: usize| started@.contains(x) <==> referenced_within(pipelines@, i + 1, x) by {
                if referenced_within(pipelines@, i + 1, x) && !referenced_within(pipelines@, i as int, x) {
                    let p = choose|p: int| 0 <= p < i + 1 && #[trigger] pipelines@[p]@.contains(x);
                    assert(p == i);
                    let q = choose|q: int| 0 <= q < pipeline@.len() && pipeline@[q] == x;
                }
                if exists|q: int| 0 <= q < pipeline@.len() && pipeline@[q] == x {
                    assert(pipelines@[i as int]@.contains(x));
                }
                if referenced_within(pipelines@, i as int, x) {
                    let p = choose|p: int| 0 <= p < i && #[trigger] pipelines@[p]@.contains(x);
                    assert(pipelines@[p]@.contains(x));
                }
            }
        }
        i = i + 1;
    }
    started
}

} // verus!
