use rsort::data_generator::{DataGenerator, DataGeneratorConfig};

#[test]
fn the_same_seed_gives_byte_identical_streams() {
    let mut first = DataGenerator::new(DataGeneratorConfig::new(15, (1, 10), Some(42)));
    let mut second = DataGenerator::new(DataGeneratorConfig::new(15, (1, 10), Some(42)));
    let a = first.generate_vec();
    let b = second.generate_vec();
    assert_eq!(a.len(), 15);
    assert_eq!(a, b);
}

#[test]
fn different_seeds_are_allowed_to_differ() {
    let mut first = DataGenerator::new(DataGeneratorConfig::new(64, (1, 1000), Some(1)));
    let mut second = DataGenerator::new(DataGeneratorConfig::new(64, (1, 1000), Some(2)));
    // not a certainty in principle, but a fixed property of these two seeds
    assert_ne!(first.generate_vec(), second.generate_vec());
}

#[test]
fn generated_values_stay_inside_the_half_open_range() {
    let mut generator = DataGenerator::new(DataGeneratorConfig::new(200, (3, 7), Some(7)));
    let values = generator.generate_vec();
    assert_eq!(values.len(), 200);
    for v in values {
        assert!((3u32..7u32).contains(&v));
    }
}

#[test]
fn a_literal_seed_sequence_is_used_verbatim() {
    let mut generator =
        DataGenerator::new(DataGeneratorConfig::new_with_seed_arr(vec![9, 1, 4, 4]));
    assert_eq!(generator.generate_vec(), vec![9, 1, 4, 4]);
}

#[test]
fn an_unseeded_generator_still_respects_length_and_range() {
    let mut generator = DataGenerator::new(DataGeneratorConfig::new(10, (1, 10), None));
    let values = generator.generate_vec();
    assert_eq!(values.len(), 10);
    for v in values {
        assert!((1u32..10u32).contains(&v));
    }
}
