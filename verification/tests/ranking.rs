use implicit_factorization::ranking::count_scores_at_least;
use implicit_factorization::{
    evaluated_users, item_ranks, suppress_train_items, user_ranks, InteractionMatrix, ModelError,
    UnweightedInteraction,
};

fn bits(scores: &[f32]) -> Vec<u32> {
    scores.iter().map(|score| score.to_bits()).collect()
}

fn matrix_of(num_users: usize, num_items: usize, pairs: &[(usize, usize)]) -> InteractionMatrix {
    let data: Vec<UnweightedInteraction> =
        pairs.iter().map(|&(user, item)| UnweightedInteraction::new(user, item)).collect();
    InteractionMatrix::from_interactions(num_users, num_items, &data)
}

// The mean reciprocal rank, from the ranks of each user that counts.
fn mean_reciprocal_rank(ranks: &[Vec<usize>]) -> f32 {
    let per_user: Vec<f32> = ranks
        .iter()
        .map(|user| user.iter().map(|&rank| 1.0 / rank as f32).sum::<f32>() / user.len() as f32)
        .collect();
    per_user.iter().sum::<f32>() / per_user.len() as f32
}

#[test]
fn count_scores_at_least_counts_ties_and_skips_nans() {
    let scores = bits(&[1.0, 2.0, -1.0, 1.0, f32::NAN, 0.0, -0.0]);
    assert_eq!(count_scores_at_least(&scores, 1.0f32.to_bits()), 3);
    assert_eq!(count_scores_at_least(&scores, 2.0f32.to_bits()), 1);
    assert_eq!(count_scores_at_least(&scores, 2.5f32.to_bits()), 0);
    assert_eq!(count_scores_at_least(&scores, 0.0f32.to_bits()), 5);
    assert_eq!(count_scores_at_least(&scores, (-0.0f32).to_bits()), 5);
    assert_eq!(count_scores_at_least(&scores, f32::NEG_INFINITY.to_bits()), 6);
    assert_eq!(count_scores_at_least(&scores, f32::NAN.to_bits()), 0);
    assert_eq!(count_scores_at_least(&[], 0), 0);
}

#[test]
fn suppress_sets_train_items_to_the_lowest_finite_score() {
    let mut scores = bits(&[0.5, 9.0, -3.0, 4.0]);
    suppress_train_items(&mut scores, &[1, 3]);
    assert_eq!(scores, bits(&[0.5, f32::MIN, -3.0, f32::MIN]));
    suppress_train_items(&mut scores, &[]);
    assert_eq!(scores, bits(&[0.5, f32::MIN, -3.0, f32::MIN]));
}

#[test]
fn ranks_count_the_items_at_or_above() {
    let scores = bits(&[0.1, 0.9, 0.5, 0.7, 0.3]);
    assert_eq!(item_ranks(&scores, &[1, 2, 4, 0]), vec![1, 3, 4, 5]);
    assert_eq!(item_ranks(&scores, &[]), Vec::<usize>::new());
}

#[test]
fn tied_items_share_the_rank_of_the_last_of_them() {
    let scores = bits(&[0.5, 0.5, 0.5, 0.1]);
    assert_eq!(item_ranks(&scores, &[0, 1, 2, 3]), vec![3, 3, 3, 4]);
    let all_equal = bits(&[0.0; 6]);
    assert_eq!(item_ranks(&all_equal, &[4]), vec![6]);
}

#[test]
fn unique_best_test_item_ranks_first_and_the_mean_is_one() {
    // For each user the single test item has the highest score among the
    // items that the user was not trained on.
    let train = matrix_of(3, 4, &[(0, 0), (1, 1), (1, 2)]);
    let test = matrix_of(3, 4, &[(0, 2), (1, 3), (2, 0)]);
    let predictions = vec![
        bits(&[7.0, 0.1, 0.9, 0.3]),
        bits(&[-5.0, 3.0, 2.0, -1.0]),
        bits(&[0.0, -0.0, -1.0, -2.0]),
    ];
    // Item 1 ties item 0 for user 2: +0 and -0 are the same number.
    assert_eq!(user_ranks(predictions[2].clone(), &test, &train, 2), Ok(vec![2]));
    let predictions = vec![
        predictions[0].clone(),
        predictions[1].clone(),
        bits(&[0.5, -0.0, -1.0, -2.0]),
    ];
    let mut ranks = Vec::new();
    for user in evaluated_users(&test) {
        ranks.push(user_ranks(predictions[user].clone(), &test, &train, user).unwrap());
    }
    assert_eq!(ranks, vec![vec![1], vec![1], vec![1]]);
    assert_eq!(mean_reciprocal_rank(&ranks), 1.0);
}

#[test]
fn train_items_never_count_against_a_test_item() {
    let train = matrix_of(1, 5, &[(0, 0), (0, 4)]);
    let test = matrix_of(1, 5, &[(0, 2), (0, 3)]);
    // The train items 0 and 4 would outrank every test item.
    let high = bits(&[100.0, 0.2, 0.6, 0.4, f32::MAX]);
    let low = bits(&[-100.0, 0.2, 0.6, 0.4, f32::MIN]);
    let odd = bits(&[f32::INFINITY, 0.2, 0.6, 0.4, f32::NAN]);
    assert_eq!(user_ranks(high.clone(), &test, &train, 0), Ok(vec![1, 2]));
    assert_eq!(user_ranks(low, &test, &train, 0), Ok(vec![1, 2]));
    assert_eq!(user_ranks(odd, &test, &train, 0), Ok(vec![1, 2]));
    // Without the train row they do count.
    let nothing = InteractionMatrix::new(1, 5);
    assert_eq!(user_ranks(high, &test, &nothing, 0), Ok(vec![3, 4]));
}

#[test]
fn a_test_item_that_was_trained_on_ranks_last() {
    let train = matrix_of(1, 4, &[(0, 1)]);
    let test = matrix_of(1, 4, &[(0, 1)]);
    assert_eq!(user_ranks(bits(&[0.1, 0.9, 0.5, 0.7]), &test, &train, 0), Ok(vec![4]));
}

#[test]
fn a_nan_score_has_rank_zero() {
    let scores = bits(&[0.1, f32::NAN, 0.5]);
    assert_eq!(item_ranks(&scores, &[1, 0]), vec![0, 2]);
}

#[test]
fn users_without_test_items_are_left_out() {
    let test = matrix_of(4, 5, &[(0, 2), (1, 0)]);
    assert_eq!(evaluated_users(&test), vec![0, 1]);
    let test = matrix_of(5, 2, &[(4, 1), (1, 0), (1, 1)]);
    assert_eq!(evaluated_users(&test), vec![1, 4]);
    assert_eq!(evaluated_users(&InteractionMatrix::new(3, 3)), Vec::<usize>::new());
    assert_eq!(evaluated_users(&InteractionMatrix::new(0, 3)), Vec::<usize>::new());
}

#[test]
fn four_users_five_items_scenario() {
    let train = matrix_of(4, 5, &[(0, 0), (0, 1), (1, 2)]);
    let test = matrix_of(4, 5, &[(0, 2), (1, 0)]);
    // Scores of a model that was never trained: any will do.
    let predictions = vec![
        bits(&[0.11, -0.32, 0.05, 0.27, -0.18]),
        bits(&[-0.21, 0.14, 0.33, -0.02, 0.08]),
        bits(&[0.0; 5]),
        bits(&[0.0; 5]),
    ];
    let users = evaluated_users(&test);
    assert_eq!(users, vec![0, 1]);
    let mut ranks = Vec::new();
    for user in users {
        ranks.push(user_ranks(predictions[user].clone(), &test, &train, user).unwrap());
    }
    // User 0: items 0 and 1 are out; item 2 (0.05) is below item 3 (0.27) only.
    // User 1: item 2 is out; item 0 (-0.21) is the lowest of the other four.
    assert_eq!(ranks, vec![vec![2], vec![4]]);
    let score = mean_reciprocal_rank(&ranks);
    assert_eq!(score, (0.5 + 0.25) / 2.0);
    assert!(0.0 <= score && score <= 1.0);
    // Users 2 and 3 have no test items: were they counted as zero, the mean
    // would be a half of this.
    assert!(score > 0.3);
    assert_eq!(user_ranks(predictions[2].clone(), &test, &train, 2), Ok(vec![]));
}

#[test]
fn mismatched_dimensions_are_refused() {
    let train = matrix_of(2, 3, &[(0, 0)]);
    let test = matrix_of(2, 3, &[(1, 1)]);
    assert_eq!(user_ranks(bits(&[0.0; 3]), &test, &train, 1), Ok(vec![3]));
    assert_eq!(user_ranks(bits(&[0.0; 3]), &test, &train, 2), Err(ModelError::InvalidIndex));
    assert_eq!(user_ranks(bits(&[0.0; 2]), &test, &train, 1), Err(ModelError::InvalidIndex));
    assert_eq!(user_ranks(bits(&[0.0; 4]), &test, &train, 1), Err(ModelError::InvalidIndex));
    let wider = matrix_of(2, 4, &[(0, 0)]);
    assert_eq!(user_ranks(bits(&[0.0; 3]), &test, &wider, 1), Err(ModelError::InvalidIndex));
    let fewer = matrix_of(1, 3, &[(0, 0)]);
    assert_eq!(user_ranks(bits(&[0.0; 3]), &test, &fewer, 1), Err(ModelError::InvalidIndex));
}
