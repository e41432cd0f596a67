use vstd::prelude::*;
use crate::error::Error;
use crate::raster::Raster;

verus! {

/// What a cached run waits for.
#[derive(Debug, Clone, Copy, PartialEq, Eq, Structural)]
pub enum Awaiting {
    /// The answer to a cache lookup for the current job.
    LookUp,
    /// The image of the current job, made by the host.
    Production,
    /// The outcome of writing the last image to the cache.
    Storage,
    /// Nothing: the run is over.
    Finished,
}

/// What the host reports back.
#[derive(Debug)]
pub enum Event {
    /// The cache holds this image under the key asked for.
    Found(Raster),
    /// The cache holds nothing under the key asked for.
    Missing,
    /// The image made for the current job.
    Produced(Raster),
    /// The last image was written to the cache.
    Stored,
    /// Writing the last image failed, for this reason.
    StoreFailed(String),
}

/// What the host must do next.
#[derive(Debug)]
pub enum Step {
    /// Look this key up in the cache and answer `Found` or `Missing`.
    LookUp(Vec<u8>),
    /// Make the image of job `k` and answer `Produced`.
    Produce(usize),
    /// Write the last image under this key and answer `Stored` or
    /// `StoreFailed`.
    Store(Vec<u8>),
    /// Every job has its image.
    Done,
    /// The run failed.
    Failed(Error),
}

/// The state of a run: the jobs' keys, whether a cache is used, the images
/// gathered so far and what is awaited.
pub struct RunModel {
    pub keys: Seq<Seq<u8>>,
    pub use_cache: bool,
    pub results: Seq<Raster>,
    pub awaiting: Awaiting,
}

/// A step without its payload's representation.
pub enum StepModel {
    LookUp(Seq<u8>),
    Produce(nat),
    Store(Seq<u8>),
    Done,
    Failed,
}

/// The model of a step.
pub open spec fn step_model(s: &Step) -> StepModel {
    match s {
        Step::LookUp(k) => StepModel::LookUp(k@),
        Step::Produce(k) => StepModel::Produce(*k as nat),
        Step::Store(k) => StepModel::Store(k@),
        Step::Done => StepModel::Done,
        Step::Failed(_) => StepModel::Failed,
    }
}

/// The state and step once `results` holds the images of the jobs before
/// job `results.len()`: ask for the next job, from the cache when there is
/// one, or finish.
pub open spec fn after_job(m: RunModel, results: Seq<Raster>) -> (RunModel, StepModel) {
    let j = results.len();
    if j >= m.keys.len() {
        (RunModel { results, awaiting: Awaiting::Finished, ..m }, StepModel::Done)
    } else if m.use_cache {
        (RunModel { results, awaiting: Awaiting::LookUp, ..m }, StepModel::LookUp(m.keys[j as int]))
    } else {
        (RunModel { results, awaiting: Awaiting::Production, ..m }, StepModel::Produce(j))
    }
}

/// How a run answers an event. A cached image is taken as it is; a
/// missing one is made by the host and then written to the cache; an
/// event that does not answer what was asked ends the run.
pub open spec fn transition(m: RunModel, e: Event) -> (RunModel, StepModel) {
    match (m.awaiting, e) {
        (Awaiting::LookUp, Event::Found(img)) => after_job(m, m.results.push(img)),
        (Awaiting::LookUp, Event::Missing) => (
            RunModel { awaiting: Awaiting::Production, ..m },
            StepModel::Produce(m.results.len()),
        ),
        (Awaiting::Production, Event::Produced(img)) => if m.use_cache {
            (
                RunModel { results: m.results.push(img), awaiting: Awaiting::Storage, ..m },
                StepModel::Store(m.keys[m.results.len() as int]),
            )
        } else {
            after_job(m, m.results.push(img))
        },
        (Awaiting::Storage, Event::Stored) => after_job(m, m.results),
        _ => (RunModel { awaiting: Awaiting::Finished, ..m }, StepModel::Failed),
    }
}

/// A run whose jobs are keyed for a cache: it decides, event by event,
/// whether the host looks an image up, makes it, or stores it.
pub struct CachedRun {
    keys: Vec<Vec<u8>>,
    use_cache: bool,
    results: Vec<Raster>,
    awaiting: Awaiting,
}

/// A copy of `v`.
fn copy_bytes(v: &Vec<u8>) -> (r: Vec<u8>)
    ensures
        r@ == v@,
{
    let mut r: Vec<u8> = Vec::new();
    let mut i: usize = 0;
    while i < v.len()
        invariant
            i <= v@.len(),
            r@ =~= v@.subrange(0, i as int),
        decreases v@.len() - i,
    {
        r.push(v[i]);
        i = i + 1;
    }
    r
}

impl CachedRun {
    /// The run's state.
    pub closed spec fn model(&self) -> RunModel {
        RunModel {
            keys: self.keys@.map_values(|k: Vec<u8>| k@),
            use_cache: self.use_cache,
            results: self.results@,
            awaiting: self.awaiting,
        }
    }

    /// The images gathered so far never outnumber the jobs, and a job is
    /// pending unless the run is over.
    pub open spec fn wf(&self) -> bool {
        let m = self.model();
        &&& m.results.len() <= m.keys.len()
        &&& (m.awaiting is LookUp || m.awaiting is Production) ==> m.results.len() < m.keys.len()
        &&& m.awaiting is Storage ==> 0 < m.results.len() <= m.keys.len()
    }

    fn next_step(&mut self) -> (r: Step)
        requires
            old(self).model().results.len() <= old(self).model().keys.len(),
        ensures
            (final(self).model(), step_model(&r)) == after_job(old(self).model(), old(self).model().results),
            final(self).wf(),
    {
        let j = self.results.len();
        if j >= self.keys.len() {
            self.awaiting = Awaiting::Finished;
            Step::Done
        } else if self.use_cache {
            self.awaiting = Awaiting::LookUp;
            let k = copy_bytes(&self.keys[j]);
            Step::LookUp(k)
        } else {
            self.awaiting = Awaiting::Production;
            Step::Produce(j)
        }
    }

    /// A run over jobs with these keys, and its first step.
    pub fn start(keys: Vec<Vec<u8>>, use_cache: bool) -> (r: (CachedRun, Step))
        ensures
            (r.0.model(), step_model(&r.1)) == after_job(
                RunModel {
                    keys: keys@.map_values(|k: Vec<u8>| k@),
                    use_cache,
                    results: Seq::empty(),
                    awaiting: Awaiting::Finished,
                },
                Seq::empty(),
            ),
            r.0.wf(),
    {
        let mut run = CachedRun { keys, use_cache, results: Vec::new(), awaiting: Awaiting::Finished };
        let s = run.next_step();
        (run, s)
    }

    /// Answers the last step with `e` and returns the next one.
    pub fn on_event(&mut self, e: Event) -> (r: Step)
        requires
            old(self).wf(),
        ensures
            (final(self).model(), step_model(&r)) == transition(old(self).model(), e),
            final(self).wf(),
            old(self).model().awaiting is Storage ==> (e matches Event::StoreFailed(msg) ==> r matches Step::Failed(
                Error::General(inner, why),
            ) && *inner == Error::Io(msg) && why@ == "Fail to save an image to the cache"@),
            r matches Step::Failed(err) ==> (err is InvalidInput <==> !(old(self).model().awaiting is Storage
                && e is StoreFailed)),
    {
        let ghost m = self.model();
        match (self.awaiting, e) {
            (Awaiting::LookUp, Event::Found(img)) => {
                self.results.push(img);
                self.next_step()
            },
            (Awaiting::LookUp, Event::Missing) => {
                self.awaiting = Awaiting::Production;
                Step::Produce(self.results.len())
            },
            (Awaiting::Production, Event::Produced(img)) => {
                let j = self.results.len();
                self.results.push(img);
                if self.use_cache {
                    self.awaiting = Awaiting::Storage;
                    assert(self.keys@[j as int]@ == m.keys[j as int]);
                    Step::Store(copy_bytes(&self.keys[j]))
                } else {
                    self.next_step()
                }
            },
            (Awaiting::Storage, Event::Stored) => self.next_step(),
            (Awaiting::Storage, Event::StoreFailed(msg)) => {
                self.awaiting = Awaiting::Finished;
                proof {
                    reveal_strlit("Fail to save an image to the cache");
                }
                let why = "Fail to save an image to the cache".to_owned();
                Step::Failed(Error::General(Box::new(Error::Io(msg)), why))
            },
            _ => {
                self.awaiting = Awaiting::Finished;
                Step::Failed(Error::InvalidInput("The event does not answer the last step".to_owned()))
            },
        }
    }

    /// The image gathered for job `k`.
    pub fn result(&self, k: usize) -> (r: &Raster)
        requires
            k < self.model().results.len(),
        ensures
            *r == self.model().results[k as int],
    {
        &self.results[k]
    }

    /// The images gathered, one per job in order once the run is done.
    pub fn into_results(self) -> (r: Vec<Raster>)
        ensures
            r@ == self.model().results,
    {
        self.results
    }
}

/// The state and the steps after answering each lookup, in turn, with the
/// images of `imgs`.
pub open spec fn answer_found(m: RunModel, imgs: Seq<Raster>) -> (RunModel, Seq<StepModel>)
    decreases imgs.len(),
{
    if imgs.len() == 0 {
        (m, Seq::empty())
    } else {
        let (m1, s1) = transition(m, Event::Found(imgs[0]));
        let (m2, rest) = answer_found(m1, imgs.drop_first());
        (m2, seq![s1] + rest)
    }
}

/// A run against a cache that already holds the image of every job asks
/// the host to make nothing and to store nothing: each step is a lookup
/// until the last, which is `Done`, and the images gathered are exactly the
/// cached ones, in order.
pub proof fn lemma_cached_run_makes_nothing(m: RunModel, imgs: Seq<Raster>)
    requires
        m.use_cache,
        m.awaiting is LookUp,
        imgs.len() > 0,
        m.results.len() + imgs.len() == m.keys.len(),
    ensures
        answer_found(m, imgs).0.results == m.results + imgs,
        answer_found(m, imgs).0.awaiting is Finished,
        answer_found(m, imgs).1.len() == imgs.len(),
        forall|i: int|
            0 <= i < imgs.len() ==> !(#[trigger] answer_found(m, imgs).1[i] is Produce) && !(answer_found(
                m,
                imgs,
            ).1[i] is Store) && !(answer_found(m, imgs).1[i] is Failed),
        answer_found(m, imgs).1.last() is Done,
    decreases imgs.len(),
{
    let (m1, s1) = transition(m, Event::Found(imgs[0]));
    let rest = imgs.drop_first();
    if rest.len() > 0 {
        lemma_cached_run_makes_nothing(m1, rest);
        let (m2, ss) = answer_found(m1, rest);
        assert(m1.results + rest =~= m.results + imgs);
        assert forall|i: int| 0 <= i < imgs.len() implies !(#[trigger] answer_found(m, imgs).1[i] is Produce)
            && !(answer_found(m, imgs).1[i] is Store) && !(answer_found(m, imgs).1[i] is Failed) by {
            if i > 0 {
                assert(answer_found(m, imgs).1[i] == ss[i - 1]);
            }
        }
    } else {
        assert(m.results.push(imgs[0]) =~= m.results + imgs);
        assert(answer_found(m, imgs).1 =~= seq![s1]);
    }
}

} // verus!
