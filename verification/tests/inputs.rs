use dudect_bencher::BenchRng;
use orion_dudect::inputs::{generate_labelled_values, generate_labelled_vectors, make_sample};
use orion_dudect::{generate, generate_input_classes, rand_input_vector, Class, NUMBER_OF_SAMPLES};
use rand::SeedableRng;

#[test]
fn rand_input_vector_has_the_length_asked_for() {
    let mut rng = BenchRng::seed_from_u64(1);
    assert_eq!(rand_input_vector(0, &mut rng).len(), 0);
    assert_eq!(rand_input_vector(1, &mut rng).len(), 1);
    assert_eq!(rand_input_vector(32, &mut rng).len(), 32);
    assert_eq!(rand_input_vector(1000, &mut rng).len(), 1000);
}

#[test]
fn rand_input_vector_is_filled_from_the_generator() {
    let mut rng = BenchRng::seed_from_u64(2);
    let first = rand_input_vector(64, &mut rng);
    let second = rand_input_vector(64, &mut rng);
    assert_ne!(first, vec![0u8; 64]);
    assert_ne!(second, vec![0u8; 64]);
    assert_ne!(first, second);
}

#[test]
fn make_sample_on_true_copies_the_operand() {
    let ((u, v), class) = make_sample(true, vec![1, 2, 3]);
    assert_eq!(u, vec![1, 2, 3]);
    assert_eq!(v, vec![1, 2, 3]);
    assert_eq!(class, Class::Same);
}

#[test]
fn make_sample_on_false_pairs_with_zeros() {
    let ((u, v), class) = make_sample(false, vec![1, 2, 3]);
    assert_eq!(u, vec![1, 2, 3]);
    assert_eq!(v, vec![0, 0, 0]);
    assert_eq!(class, Class::Different);
}

#[test]
fn make_sample_of_an_empty_operand() {
    let ((u, v), class) = make_sample(false, Vec::new());
    assert_eq!(u, Vec::<u8>::new());
    assert_eq!(v, Vec::<u8>::new());
    assert_eq!(class, Class::Different);
}

#[test]
fn generate_returns_index_aligned_sequences() {
    let mut rng = BenchRng::seed_from_u64(3);
    for count in [0usize, 1, 2, 17, 1000] {
        let (inputs, classes) = generate(&mut rng, count, 16);
        assert_eq!(inputs.len(), count);
        assert_eq!(classes.len(), count);
    }
}

#[test]
fn generate_pairs_agree_with_their_labels() {
    let mut rng = BenchRng::seed_from_u64(4);
    let (inputs, classes) = generate(&mut rng, 5000, 24);
    let mut same = 0;
    let mut different = 0;
    for ((u, v), class) in inputs.iter().zip(classes.iter()) {
        assert_eq!(u.len(), 24);
        assert_eq!(v.len(), 24);
        match class {
            Class::Same => {
                assert_eq!(u, v);
                same += 1;
            }
            Class::Different => {
                assert_eq!(v, &vec![0u8; 24]);
                different += 1;
            }
        }
    }
    assert!(same > 0);
    assert!(different > 0);
}

#[test]
fn generate_of_no_samples_is_empty() {
    let mut rng = BenchRng::seed_from_u64(5);
    let (inputs, classes) = generate(&mut rng, 0, 32);
    assert!(inputs.is_empty());
    assert!(classes.is_empty());
}

#[test]
fn generate_of_empty_vectors() {
    let mut rng = BenchRng::seed_from_u64(6);
    let (inputs, classes) = generate(&mut rng, 10, 0);
    assert_eq!(inputs.len(), 10);
    assert_eq!(classes.len(), 10);
    for (u, v) in inputs.iter() {
        assert!(u.is_empty());
        assert!(v.is_empty());
    }
}

#[test]
fn generate_is_determined_by_the_seed() {
    let mut first_rng = BenchRng::seed_from_u64(0xdead_beef);
    let mut second_rng = BenchRng::seed_from_u64(0xdead_beef);
    let first = generate(&mut first_rng, 2000, 32);
    let second = generate(&mut second_rng, 2000, 32);
    assert_eq!(first, second);
    let mut other_rng = BenchRng::seed_from_u64(0xdead_bef0);
    let other = generate(&mut other_rng, 2000, 32);
    assert_ne!(first, other);
}

#[test]
fn generate_input_classes_is_unbiased() {
    let mut rng = BenchRng::seed_from_u64(7);
    let (inputs, classes) = generate_input_classes(&mut rng, 4);
    assert_eq!(inputs.len(), NUMBER_OF_SAMPLES);
    assert_eq!(classes.len(), NUMBER_OF_SAMPLES);
    assert_eq!(NUMBER_OF_SAMPLES, 1_000_000);
    let same = classes.iter().filter(|c| **c == Class::Same).count();
    assert!(same >= 490_000);
    assert!(same <= 510_000);
    for ((u, v), class) in inputs.iter().zip(classes.iter()) {
        match class {
            Class::Same => assert_eq!(u, v),
            Class::Different => assert_eq!(v, &vec![0u8; 4]),
        }
    }
}

#[test]
fn labelled_vectors_have_length_and_labels() {
    let mut rng = BenchRng::seed_from_u64(8);
    let (inputs, classes) = generate_labelled_vectors(&mut rng, 300, 32);
    assert_eq!(inputs.len(), 300);
    assert_eq!(classes.len(), 300);
    assert!(inputs.iter().all(|u| u.len() == 32));
    assert!(classes.iter().any(|c| *c == Class::Same));
    assert!(classes.iter().any(|c| *c == Class::Different));
    assert!(inputs.iter().any(|u| u != &vec![0u8; 32]));
}

#[test]
fn labelled_values_stay_below_the_bound() {
    let mut rng = BenchRng::seed_from_u64(9);
    let (inputs, classes) = generate_labelled_values(&mut rng, 5000, 3329 * 3329);
    assert_eq!(inputs.len(), 5000);
    assert_eq!(classes.len(), 5000);
    assert!(inputs.iter().all(|x| *x < 3329 * 3329));
    assert!(inputs.iter().any(|x| *x != 0));
    let (small, _) = generate_labelled_values(&mut rng, 100, 1);
    assert!(small.iter().all(|x| *x == 0));
    let (bits, _) = generate_labelled_values(&mut rng, 1000, 2);
    assert!(bits.iter().any(|x| *x == 0));
    assert!(bits.iter().any(|x| *x == 1));
}
