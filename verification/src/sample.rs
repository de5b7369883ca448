//! Sampling parameters of the local model runner.

use vstd::prelude::*;
use vstd::string::*;

verus! {

/// How many candidates nucleus sampling always keeps.
pub const TOP_P_MIN_KEEP: usize = 8;

/// The sampling parameters that a request may set. Fractions are held as
/// the bit patterns of IEEE 754 single-precision numbers.
#[derive(Debug, Clone, Copy, PartialEq, Eq, Structural)]
pub struct SimpleSamplingParams {
    pub top_p_bits: Option<u32>,
    pub top_k: Option<i32>,
    pub temperature_bits: Option<u32>,
    pub seed: Option<u32>,
}

impl SimpleSamplingParams {
    /// The parameters of a request that sets none.
    pub open spec fn plain() -> SimpleSamplingParams {
        SimpleSamplingParams { top_p_bits: None, top_k: None, temperature_bits: None, seed: None }
    }
}

impl Default for SimpleSamplingParams {
    fn default() -> (out: Self)
        ensures
            out == SimpleSamplingParams::plain(),
    {
        SimpleSamplingParams { top_p_bits: None, top_k: None, temperature_bits: None, seed: None }
    }
}

/// One sampler of a chain.
#[derive(Debug, Clone, Copy, PartialEq, Eq, Structural)]
pub enum SamplerStep {
    /// Draw from the distribution with this seed.
    Dist(u32),
    /// Keep the `k` most likely candidates.
    TopK(i32),
    /// Keep the most likely candidates up to this probability mass, and at
    /// least `min_keep` of them.
    TopP { p_bits: u32, min_keep: usize },
    /// Take the most likely candidate.
    Greedy,
}

/// Calls `rand::random::<u32>`. Nothing is claimed of the number that comes back.
#[verifier::external_body]
fn random_seed() -> u32 {
    rand::random::<u32>()
}

impl SimpleSamplingParams {
    /// The chain of samplers for these parameters when the draw is seeded
    /// with `seed`: the draw, then top-k and top-p where they are set, then
    /// the greedy pick.
    pub open spec fn chain(&self, seed: u32) -> Seq<SamplerStep> {
        seq![SamplerStep::Dist(seed)] + (match self.top_k {
            Some(k) => seq![SamplerStep::TopK(k)],
            None => Seq::empty(),
        }) + (match self.top_p_bits {
            Some(p) => seq![SamplerStep::TopP { p_bits: p, min_keep: TOP_P_MIN_KEEP }],
            None => Seq::empty(),
        }) + seq![SamplerStep::Greedy]
    }

    /// The chain of samplers for these parameters when the draw is seeded
    /// with `seed`.
    pub fn chain_with_seed(&self, seed: u32) -> (steps: Vec<SamplerStep>)
        ensures
            steps@ == self.chain(seed),
    {
        let mut steps: Vec<SamplerStep> = Vec::new();
        steps.push(SamplerStep::Dist(seed));
        if let Some(k) = self.top_k {
            steps.push(SamplerStep::TopK(k));
        }
        if let Some(p) = self.top_p_bits {
            steps.push(SamplerStep::TopP { p_bits: p, min_keep: TOP_P_MIN_KEEP });
        }
        steps.push(SamplerStep::Greedy);
        assert(steps@ =~= self.chain(seed));
        steps
    }

    /// The chain of samplers for these parameters. The draw is seeded with
    /// the seed that is set, or with a random one if none is.
    pub fn to_llama(&self) -> (steps: Vec<SamplerStep>)
        ensures
            match self.seed {
                Some(seed) => steps@ == self.chain(seed),
                None => exists|seed: u32| steps@ == self.chain(seed),
            },
    {
        let seed = match self.seed {
            Some(seed) => seed,
            None => random_seed(),
        };
        self.chain_with_seed(seed)
    }
}

/// The kind of grammar that constrains an answer.
#[derive(Debug, Clone, Copy, PartialEq, Eq, Structural)]
pub enum LlguidanceSchema {
    Json,
    Lark,
}

impl LlguidanceSchema {
    /// The name of the kind.
    pub open spec fn name(&self) -> Seq<char> {
        match self {
            LlguidanceSchema::Json => "json"@,
            LlguidanceSchema::Lark => "lark"@,
        }
    }

    pub fn to_string(&self) -> (out: String)
        ensures
            out@ == self.name(),
    {
        match self {
            LlguidanceSchema::Json => String::from_str("json"),
            LlguidanceSchema::Lark => String::from_str("lark"),
        }
    }
}

/// A grammar that constrains an answer: its kind and its text.
#[derive(Debug, PartialEq, Eq)]
pub struct LlguidanceSamplingParams {
    pub schema: LlguidanceSchema,
    pub data: String,
}

impl Clone for LlguidanceSamplingParams {
    fn clone(&self) -> (out: Self)
        ensures
            out == *self,
    {
        LlguidanceSamplingParams { schema: self.schema, data: self.data.clone() }
    }
}

} // verus!
