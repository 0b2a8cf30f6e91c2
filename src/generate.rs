//! Autoregressive generation: starting from an all-boundary window, ask a
//! predictor for a distribution, draw a symbol, and either stop (boundary
//! drawn, or the step bound reached) or emit the symbol and slide the window.
use crate::corpus::{slid, slide_window};
use crate::sampler::{draw_sample, lemma_positive_total, rejects, valid_distribution, SampleError};
use crate::vocab::{char_of, itos, BOUNDARY, VOCAB_SIZE};
use rand::rngs::StdRng;
use vstd::prelude::*;

verus! {

/// The state of one generation run.
pub struct Generator {
    /// The most recent `width` codes, oldest first; boundary codes at the start.
    pub context: Vec<u32>,
    /// The characters emitted so far.
    pub name: Vec<char>,
    /// The most characters this run emits.
    pub max_steps: usize,
    /// Whether the run is over.
    pub finished: bool,
}

/// All weights but the boundary's are zero, and the boundary's is positive.
pub open spec fn boundary_only(w: Seq<u32>) -> bool {
    &&& w.len() == VOCAB_SIZE
    &&& w[0] > 0
    &&& forall|j: int| 1 <= j < VOCAB_SIZE ==> #[trigger] w[j] == 0
}

/// A valid distribution that gives the boundary symbol no weight.
pub open spec fn never_boundary(w: Seq<u32>) -> bool {
    valid_distribution(w) && w[0] == 0
}

/// A lowercase letter.
pub open spec fn is_letter(c: char) -> bool {
    'a' <= c && c <= 'z'
}

impl Generator {
    /// The run has emitted at most `max_steps` letters and goes on only
    /// below that bound.
    pub open spec fn wf(&self) -> bool {
        &&& self.name@.len() <= self.max_steps
        &&& !self.finished ==> self.name@.len() < self.max_steps
        &&& forall|i: int| 0 <= i < self.name@.len() ==> is_letter(#[trigger] self.name@[i])
    }

    /// A run with a window of `width` boundary codes and no output yet.
    pub fn new(width: usize, max_steps: usize) -> (g: Self)
        ensures
            g.wf(),
            g.context@ == Seq::new(width as nat, |i: int| BOUNDARY),
            g.name@.len() == 0,
            g.max_steps == max_steps,
            g.finished == (max_steps == 0),
    {
        let mut context: Vec<u32> = Vec::new();
        let mut k: usize = 0;
        while k < width
            invariant
                0 <= k <= width,
                context@ == Seq::new(k as nat, |i: int| BOUNDARY),
            decreases width - k,
        {
            context.push(BOUNDARY);
            k += 1;
            assert(context@ =~= Seq::new(k as nat, |i: int| BOUNDARY));
        }
        Generator { context, name: Vec::new(), max_steps, finished: max_steps == 0 }
    }

    /// Takes the symbol drawn for the current window. The boundary ends the
    /// run; any other symbol is emitted and enters the window, and the run
    /// ends when it reaches its step bound.
    pub fn advance(&mut self, idx: usize)
        requires
            old(self).wf(),
            !old(self).finished,
            idx < VOCAB_SIZE,
        ensures
            final(self).wf(),
            final(self).max_steps == old(self).max_steps,
            idx == BOUNDARY ==> {
                &&& final(self).finished
                &&& final(self).name@ == old(self).name@
                &&& final(self).context@ == old(self).context@
            },
            idx != BOUNDARY ==> {
                &&& final(self).name@ == old(self).name@.push(char_of(idx as u32))
                &&& final(self).context@ == slid(old(self).context@, idx as u32)
                &&& final(self).finished == (final(self).name@.len() == final(self).max_steps)
            },
    {
        if idx == 0 {
            self.finished = true;
            return;
        }
        let c = itos(idx as u32);
        self.name.push(c);
        self.context = slide_window(&self.context, idx as u32);
        self.finished = self.name.len() == self.max_steps;
    }
}

/// Relies on std's `FromIterator<&char> for String`: the string holds the
/// characters in order.
#[verifier::external_body]
fn collect_string(chars: &Vec<char>) -> (s: String)
    ensures
        s@ == chars@,
{
    chars.iter().collect()
}

/// Generates one name: windows of `width` codes go to `predict`, symbols are
/// drawn from its distributions with `rng`, and at most `max_steps` letters
/// are emitted. A distribution that cannot be sampled ends the run with its
/// error.
pub fn generate<F: Fn(&Vec<u32>) -> Vec<u32>>(
    predict: &F,
    rng: &mut StdRng,
    width: usize,
    max_steps: usize,
) -> (r: Result<String, SampleError>)
    requires
        forall|c: &Vec<u32>| #[trigger] predict.requires((c,)),
    ensures
        r is Ok ==> r->Ok_0@.len() <= max_steps,
        r is Ok ==> forall|i: int| 0 <= i < r->Ok_0@.len() ==> is_letter(#[trigger] r->Ok_0@[i]),
        r is Err ==> exists|c: &Vec<u32>, d: Vec<u32>|
            #[trigger] predict.ensures((c,), d) && rejects(d@, r->Err_0),
        (forall|c: &Vec<u32>, d: Vec<u32>| #[trigger]
            predict.ensures((c,), d) ==> valid_distribution(d@)) ==> r is Ok,
        (forall|c: &Vec<u32>, d: Vec<u32>| #[trigger]
            predict.ensures((c,), d) ==> boundary_only(d@)) ==> r is Ok && r->Ok_0@.len() == 0,
        (forall|c: &Vec<u32>, d: Vec<u32>| #[trigger]
            predict.ensures((c,), d) ==> never_boundary(d@)) ==> r is Ok && r->Ok_0@.len()
            == max_steps,
{
    let mut g = Generator::new(width, max_steps);
    while !g.finished
        invariant
            g.wf(),
            g.max_steps == max_steps,
            forall|c: &Vec<u32>| #[trigger] predict.requires((c,)),
            (forall|c: &Vec<u32>, d: Vec<u32>| #[trigger]
                predict.ensures((c,), d) ==> boundary_only(d@)) ==> g.name@.len() == 0,
            (forall|c: &Vec<u32>, d: Vec<u32>| #[trigger]
                predict.ensures((c,), d) ==> never_boundary(d@)) ==> (g.finished
                ==> g.name@.len() == max_steps),
        decreases max_steps - g.name@.len() + (if g.finished { 0int } else { 1int }),
    {
        let dist = predict(&g.context);
        let idx = match draw_sample(&dist, rng) {
            Ok(i) => i,
            Err(e) => {
                proof {
                    if dist@.len() == VOCAB_SIZE && dist@[0] > 0 {
                        lemma_positive_total(dist@, 0);
                    }
                }
                return Err(e);
            },
        };
        g.advance(idx);
    }
    Ok(collect_string(&g.name))
}

} // verus!
