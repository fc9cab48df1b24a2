use implicit_factorization::{
    Interaction, InteractionMatrix, ModelError, UnweightedInteraction,
};

fn rows_of(matrix: &InteractionMatrix) -> Vec<Vec<usize>> {
    matrix.rows().to_vec()
}

#[test]
fn new_matrix_has_one_empty_row_per_user() {
    let matrix = InteractionMatrix::new(3, 7);
    assert_eq!(matrix.num_users(), 3);
    assert_eq!(matrix.num_items(), 7);
    assert_eq!(rows_of(&matrix), vec![Vec::<usize>::new(); 3]);
    assert!(matrix.get(2).is_empty());
}

#[test]
fn new_matrix_without_users_has_no_rows() {
    let matrix = InteractionMatrix::new(0, 4);
    assert!(matrix.rows().is_empty());
}

#[test]
fn add_keeps_rows_ascending_in_any_insertion_order() {
    let orders: Vec<Vec<usize>> = vec![
        vec![0, 1, 2, 3, 4],
        vec![4, 3, 2, 1, 0],
        vec![2, 0, 4, 1, 3],
        vec![3, 3, 0, 4, 0, 2, 1, 1],
    ];
    for order in orders {
        let mut matrix = InteractionMatrix::new(2, 5);
        for item in order {
            matrix.add(1, item);
        }
        assert_eq!(matrix.get(1), &[0, 1, 2, 3, 4]);
        assert!(matrix.get(0).is_empty());
    }
}

#[test]
fn add_is_idempotent() {
    for user in 0..3 {
        for item in 0..4 {
            let mut once = InteractionMatrix::new(3, 4);
            once.add(1, 2);
            once.add(user, item);
            let mut twice = InteractionMatrix::new(3, 4);
            twice.add(1, 2);
            twice.add(user, item);
            twice.add(user, item);
            assert_eq!(rows_of(&once), rows_of(&twice));
        }
    }
}

#[test]
fn add_touches_one_row_only() {
    let mut matrix = InteractionMatrix::new(3, 10);
    matrix.add(0, 9);
    matrix.add(2, 4);
    matrix.add(0, 3);
    assert_eq!(rows_of(&matrix), vec![vec![3, 9], vec![], vec![4]]);
}

#[test]
fn try_add_refuses_ids_outside_the_dimensions() {
    let mut matrix = InteractionMatrix::new(2, 3);
    assert_eq!(matrix.try_add(1, 2), Ok(()));
    assert_eq!(matrix.try_add(2, 0), Err(ModelError::InvalidIndex));
    assert_eq!(matrix.try_add(0, 3), Err(ModelError::InvalidIndex));
    assert_eq!(matrix.try_add(usize::MAX, usize::MAX), Err(ModelError::InvalidIndex));
    assert_eq!(rows_of(&matrix), vec![vec![], vec![2]]);
}

#[test]
fn from_interactions_collects_the_pairs() {
    let data = vec![
        UnweightedInteraction::new(1, 4),
        UnweightedInteraction::new(0, 2),
        UnweightedInteraction::new(1, 0),
        UnweightedInteraction::new(1, 4),
        UnweightedInteraction::new(3, 3),
    ];
    let matrix = InteractionMatrix::from_interactions(4, 5, &data);
    assert_eq!(matrix.num_users(), 4);
    assert_eq!(matrix.num_items(), 5);
    assert_eq!(rows_of(&matrix), vec![vec![2], vec![0, 4], vec![], vec![3]]);
}

#[test]
fn from_interactions_of_nothing_is_the_empty_matrix() {
    let data: Vec<UnweightedInteraction> = Vec::new();
    let matrix = InteractionMatrix::from_interactions(2, 2, &data);
    assert_eq!(rows_of(&matrix), vec![Vec::<usize>::new(); 2]);
}

#[test]
fn from_interactions_is_independent_of_the_order() {
    let data = vec![
        UnweightedInteraction::new(0, 0),
        UnweightedInteraction::new(0, 1),
        UnweightedInteraction::new(1, 2),
        UnweightedInteraction::new(2, 2),
        UnweightedInteraction::new(2, 0),
        UnweightedInteraction::new(0, 4),
    ];
    let expected = rows_of(&InteractionMatrix::from_interactions(3, 5, &data));
    assert_eq!(expected, vec![vec![0, 1, 4], vec![2], vec![0, 2]]);
    // Every rotation, and the reverse of each.
    for shift in 0..data.len() {
        let mut rotated = data.clone();
        rotated.rotate_left(shift);
        assert_eq!(rows_of(&InteractionMatrix::from_interactions(3, 5, &rotated)), expected);
        rotated.reverse();
        assert_eq!(rows_of(&InteractionMatrix::from_interactions(3, 5, &rotated)), expected);
    }
}

#[test]
fn try_from_interactions_refuses_ids_outside_the_dimensions() {
    let data = vec![UnweightedInteraction::new(0, 1), UnweightedInteraction::new(2, 0)];
    assert!(InteractionMatrix::try_from_interactions(3, 2, &data).is_ok());
    let built = InteractionMatrix::try_from_interactions(3, 2, &data).unwrap();
    assert_eq!(rows_of(&built), vec![vec![1], vec![], vec![0]]);
    assert_eq!(
        InteractionMatrix::try_from_interactions(2, 2, &data).err(),
        Some(ModelError::InvalidIndex)
    );
    assert_eq!(
        InteractionMatrix::try_from_interactions(3, 1, &data).err(),
        Some(ModelError::InvalidIndex)
    );
}

#[test]
fn unweighted_interaction_reports_its_ids_and_unit_weight() {
    let interaction = UnweightedInteraction::new(7, 11);
    assert_eq!(interaction.user_id(), 7);
    assert_eq!(interaction.item_id(), 11);
    assert_eq!(interaction.weight_bits(), 1.0f32.to_bits());
    let copy = interaction.clone();
    assert_eq!(copy.user_id(), 7);
    assert_eq!(copy.item_id(), 11);
}

#[derive(Clone)]
struct WeightedInteraction {
    user: usize,
    item: usize,
    weight: f32,
}

impl Interaction for WeightedInteraction {
    fn spec_user_id(&self) -> usize {
        self.user
    }

    fn spec_item_id(&self) -> usize {
        self.item
    }

    fn spec_weight_bits(&self) -> u32 {
        self.weight.to_bits()
    }

    fn user_id(&self) -> usize {
        self.user
    }

    fn item_id(&self) -> usize {
        self.item
    }

    fn weight_bits(&self) -> u32 {
        self.weight.to_bits()
    }
}

#[test]
fn interactions_of_another_kind_fill_a_matrix_too() {
    let data = vec![
        WeightedInteraction { user: 1, item: 1, weight: 0.5 },
        WeightedInteraction { user: 0, item: 2, weight: 2.0 },
        WeightedInteraction { user: 1, item: 0, weight: 1.5 },
    ];
    assert_eq!(f32::from_bits(data[1].weight_bits()), 2.0);
    let matrix = InteractionMatrix::from_interactions(2, 3, &data);
    assert_eq!(rows_of(&matrix), vec![vec![2], vec![0, 1]]);
    assert_eq!(implicit_factorization::get_dimensions(&data), Ok((2, 3)));
}
