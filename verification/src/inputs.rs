//! Labelled inputs for a timing experiment.
//!
//! A timing runner times one operation on many inputs and sorts the samples
//! into two populations. This module draws the inputs and their labels from
//! the runner's seeded generator. What the generator hands out is not known
//! in advance, so the contracts state what holds of the inputs whatever was
//! drawn.

use dudect_bencher::BenchRng;
use rand::{Rng, RngCore};
use vstd::prelude::*;

verus! {

/// The seeded generator that the timing runner hands to every benchmark.
#[verifier::external_type_specification]
#[verifier::external_body]
pub struct ExBenchRng(BenchRng);

/// Number of testing samples to generate.
pub const NUMBER_OF_SAMPLES: usize = 1_000_000;

/// The pairs of operands that a benchmark runs its operation on.
pub type DudectInput = Vec<(Vec<u8>, Vec<u8>)>;

/// The population that a sample belongs to.
///
/// The runner groups its timings by this label before it compares the two
/// groups: `Same` is its left population, `Different` its right one. The
/// names say what the label means for a pair of operands.
#[derive(Clone, Copy, Debug, PartialEq, Eq, Structural)]
pub enum Class {
    /// In a pair, the two operands are equal.
    Same,
    /// In a pair, the second operand is the all-zero string.
    Different,
}

/// The label that a coin flip selects.
pub open spec fn class_of(coin: bool) -> Class {
    if coin {
        Class::Same
    } else {
        Class::Different
    }
}

/// The all-zero byte string of length `len`.
pub open spec fn zeros(len: nat) -> Seq<u8> {
    Seq::new(len, |i: int| 0u8)
}

/// The second operand that goes with a first operand `u` under a label.
pub open spec fn partner_of(class: Class, u: Seq<u8>) -> Seq<u8> {
    match class {
        Class::Same => u,
        Class::Different => zeros(u.len()),
    }
}

/// A pair and its label agree: both operands have `len` bytes, and the second
/// is what the label says it is.
pub open spec fn pair_matches(pair: (Vec<u8>, Vec<u8>), class: Class, len: nat) -> bool {
    &&& pair.0@.len() == len
    &&& pair.1@ == partner_of(class, pair.0@)
}

/// Overwrites `dest` with bytes from the generator, by `RngCore::fill_bytes`.
///
/// The call fills the slice it is given in place, so the length stays; which
/// bytes arrive depends on the generator's state and is left open.
#[verifier::external_body]
fn fill_bytes(rng: &mut BenchRng, dest: &mut Vec<u8>)
    ensures
        final(dest)@.len() == old(dest)@.len(),
{
    rng.fill_bytes(dest.as_mut_slice())
}

/// Draws one `bool` from the generator, by `Rng::gen`. Either value may come.
#[verifier::external_body]
fn flip_coin(rng: &mut BenchRng) -> bool {
    rng.gen::<bool>()
}

/// Draws one value from `0..bound`, by `Rng::gen_range`, which panics on an
/// empty range and otherwise returns a member of the range.
#[verifier::external_body]
fn sample_below(rng: &mut BenchRng, bound: u32) -> (value: u32)
    requires
        bound > 0,
    ensures
        value < bound,
{
    rng.gen_range(0..bound)
}

/// Return a random input vector of `len` bytes.
pub fn rand_input_vector(len: usize, rng: &mut BenchRng) -> (arr: Vec<u8>)
    ensures
        arr@.len() == len,
{
    let mut arr = vec![0u8; len];
    fill_bytes(rng, &mut arr);
    arr
}

/// The label that a coin flip selects: `Same` on `true`.
pub fn label(coin: bool) -> (class: Class)
    ensures
        class == class_of(coin),
{
    if coin {
        Class::Same
    } else {
        Class::Different
    }
}

/// Builds the sample that a coin flip and a first operand determine.
///
/// On `true` the second operand is a copy of the first and the label is
/// `Same`. On `false` it is zero-filled, of the same length, and the label is
/// `Different`: the two populations then differ in nothing but the bytes.
pub fn make_sample(coin: bool, u: Vec<u8>) -> (sample: ((Vec<u8>, Vec<u8>), Class))
    ensures
        sample.0.0@ == u@,
        sample.1 == class_of(coin),
        sample.0.1@ == partner_of(class_of(coin), u@),
        pair_matches(sample.0, sample.1, u@.len()),
{
    if coin {
        let v = u.clone();
        ((u, v), Class::Same)
    } else {
        let v = vec![0u8; u.len()];
        assert(v@ =~= zeros(u@.len()));
        ((u, v), Class::Different)
    }
}

/// Generates `sample_count` labelled pairs of `vector_length`-byte operands.
///
/// Each sample takes one coin flip and one random vector from the generator,
/// in that order. The pairs and the labels come back in the order drawn, so
/// that the label of a pair stands at the pair's own index.
pub fn generate(rng: &mut BenchRng, sample_count: usize, vector_length: usize) -> (out: (
    DudectInput,
    Vec<Class>,
))
    ensures
        out.0@.len() == sample_count,
        out.1@.len() == sample_count,
        forall|i: int|
            0 <= i < sample_count ==> pair_matches(#[trigger] out.0@[i], out.1@[i], vector_length as nat),
{
    let mut inputs: DudectInput = Vec::new();
    let mut classes: Vec<Class> = Vec::new();
    let mut done: usize = 0;
    while done < sample_count
        invariant
            done <= sample_count,
            inputs@.len() == done,
            classes@.len() == done,
            forall|i: int|
                0 <= i < done ==> pair_matches(#[trigger] inputs@[i], classes@[i], vector_length as nat),
        decreases sample_count - done,
    {
        let coin = flip_coin(rng);
        let u = rand_input_vector(vector_length, rng);
        let (pair, class) = make_sample(coin, u);
        inputs.push(pair);
        classes.push(class);
        done += 1;
    }
    (inputs, classes)
}

/// Generate dudect input classes: `NUMBER_OF_SAMPLES` labelled pairs of
/// `input_len`-byte operands.
pub fn generate_input_classes(rng: &mut BenchRng, input_len: usize) -> (out: (
    DudectInput,
    Vec<Class>,
))
    ensures
        out.0@.len() == NUMBER_OF_SAMPLES,
        out.1@.len() == NUMBER_OF_SAMPLES,
        forall|i: int|
            0 <= i < NUMBER_OF_SAMPLES ==> pair_matches(
                #[trigger] out.0@[i],
                out.1@[i],
                input_len as nat,
            ),
{
    generate(rng, NUMBER_OF_SAMPLES, input_len)
}

/// Generates `sample_count` random vectors of `vector_length` bytes, each
/// with a label drawn by a coin flip.
///
/// This is for operations that take one operand: the label sorts the
/// timings into two populations of inputs that are drawn alike. Each sample
/// takes a vector and then a coin flip from the generator.
pub fn generate_labelled_vectors(rng: &mut BenchRng, sample_count: usize, vector_length: usize) -> (out:
    (Vec<Vec<u8>>, Vec<Class>))
    ensures
        out.0@.len() == sample_count,
        out.1@.len() == sample_count,
        forall|i: int| 0 <= i < sample_count ==> (#[trigger] out.0@[i])@.len() == vector_length,
{
    let mut inputs: Vec<Vec<u8>> = Vec::new();
    let mut classes: Vec<Class> = Vec::new();
    let mut done: usize = 0;
    while done < sample_count
        invariant
            done <= sample_count,
            inputs@.len() == done,
            classes@.len() == done,
            forall|i: int| 0 <= i < done ==> (#[trigger] inputs@[i])@.len() == vector_length,
        decreases sample_count - done,
    {
        inputs.push(rand_input_vector(vector_length, rng));
        classes.push(label(flip_coin(rng)));
        done += 1;
    }
    (inputs, classes)
}

/// Generates `sample_count` random values below `bound`, each with a label
/// drawn by a coin flip.
///
/// Each sample takes a value and then a coin flip from the generator.
pub fn generate_labelled_values(rng: &mut BenchRng, sample_count: usize, bound: u32) -> (out: (
    Vec<u32>,
    Vec<Class>,
))
    requires
        bound > 0,
    ensures
        out.0@.len() == sample_count,
        out.1@.len() == sample_count,
        forall|i: int| 0 <= i < sample_count ==> #[trigger] out.0@[i] < bound,
{
    let mut inputs: Vec<u32> = Vec::new();
    let mut classes: Vec<Class> = Vec::new();
    let mut done: usize = 0;
    while done < sample_count
        invariant
            bound > 0,
            done <= sample_count,
            inputs@.len() == done,
            classes@.len() == done,
            forall|i: int| 0 <= i < done ==> #[trigger] inputs@[i] < bound,
        decreases sample_count - done,
    {
        inputs.push(sample_below(rng, bound));
        classes.push(label(flip_coin(rng)));
        done += 1;
    }
    (inputs, classes)
}

} // verus!
