use implicit_factorization::{train_test_split, Interaction, UnweightedInteraction};
use rand::{Rng, XorShiftRng};

fn split_sample(len: usize) -> Vec<UnweightedInteraction> {
    (0..len).map(|k| UnweightedInteraction::new(k, 2 * k)).collect()
}

fn id_pairs_of(data: &[UnweightedInteraction]) -> Vec<(usize, usize)> {
    data.iter().map(|x| (x.user_id(), x.item_id())).collect()
}

#[test]
fn split_has_the_lengths_asked_for() {
    let data = split_sample(50);
    for test_len in [0usize, 1, 10, 49, 50] {
        let mut rng = XorShiftRng::new_unseeded();
        let (train, test) = train_test_split(&data, &mut rng, test_len);
        assert_eq!(test.len(), test_len);
        assert_eq!(train.len(), 50 - test_len);
    }
}

#[test]
fn split_puts_each_interaction_in_one_set() {
    let data = split_sample(200);
    let mut rng = XorShiftRng::new_unseeded();
    let (train, test) = train_test_split(&data, &mut rng, 40);
    let mut all = id_pairs_of(&test);
    all.extend(id_pairs_of(&train));
    all.sort();
    assert_eq!(all, id_pairs_of(&data));
}

#[test]
fn split_is_the_shuffle_of_the_generator() {
    let data = split_sample(100);
    let mut rng = XorShiftRng::new_unseeded();
    let (train, test) = train_test_split(&data, &mut rng, 20);
    let mut expected = data.clone();
    XorShiftRng::new_unseeded().shuffle(&mut expected[..]);
    let expected_train = expected.split_off(20);
    assert_eq!(id_pairs_of(&test), id_pairs_of(&expected));
    assert_eq!(id_pairs_of(&train), id_pairs_of(&expected_train));
    // The shuffle moved something.
    assert_ne!(id_pairs_of(&test), id_pairs_of(&data[..20]));
}

#[test]
fn split_of_nothing() {
    let data: Vec<UnweightedInteraction> = Vec::new();
    let mut rng = XorShiftRng::new_unseeded();
    let (train, test) = train_test_split(&data, &mut rng, 0);
    assert!(train.is_empty() && test.is_empty());
}
