use planetensimulation::field::{
    AnimalStatus, Field, FieldType, FISH_BREED_TIME, MAX_SHARK_LIFETIME, SHARK_BREED_TIME,
};

fn ocean(rows: u32, columns: u32, kind: FieldType) -> Vec<Vec<Field>> {
    let mut fields = Vec::new();
    for y in 0..rows {
        let mut row = Vec::new();
        for x in 0..columns {
            let status = match kind {
                FieldType::Plankton => None,
                FieldType::Fish => Some(AnimalStatus { life: None, breed_counter: 2 }),
                FieldType::Shark => Some(AnimalStatus { life: Some(4), breed_counter: 5 }),
            };
            row.push(Field::new(kind, x, y, status));
        }
        fields.push(row);
    }
    fields
}

fn fish(x: u32, y: u32, breed_counter: u32) -> Field {
    Field::new(FieldType::Fish, x, y, Some(AnimalStatus { life: None, breed_counter }))
}

fn shark(x: u32, y: u32, life: u32, breed_counter: u32) -> Field {
    Field::new(FieldType::Shark, x, y, Some(AnimalStatus { life: Some(life), breed_counter }))
}

fn water(x: u32, y: u32) -> Field {
    Field::new(FieldType::Plankton, x, y, None)
}

fn place(fields: &mut Vec<Vec<Field>>, field: Field) -> Field {
    fields[field.y as usize][field.x as usize] = field;
    field
}

#[test]
fn constants_are_those_of_the_rules() {
    assert_eq!(FISH_BREED_TIME, 3);
    assert_eq!(SHARK_BREED_TIME, 8);
    assert_eq!(MAX_SHARK_LIFETIME, 8);
}

#[test]
fn new_field_keeps_a_given_status() {
    let status = AnimalStatus { life: Some(5), breed_counter: 1 };
    let field = Field::new(FieldType::Shark, 3, 4, Some(status));
    assert_eq!(field.kind, FieldType::Shark);
    assert_eq!(field.x, 3);
    assert_eq!(field.y, 4);
    assert_eq!(field.status, Some(status));
    let odd = Field::new(FieldType::Plankton, 0, 1, Some(status));
    assert_eq!(odd.status, Some(status));
}

#[test]
fn new_fish_is_fresh() {
    let field = Field::new(FieldType::Fish, 1, 2, None);
    assert_eq!(
        field,
        Field {
            kind: FieldType::Fish,
            x: 1,
            y: 2,
            status: Some(AnimalStatus { life: None, breed_counter: 3 }),
        }
    );
    assert_eq!(AnimalStatus::new_fish(), AnimalStatus { life: None, breed_counter: 3 });
}

#[test]
fn new_plankton_has_no_status() {
    let field = Field::new(FieldType::Plankton, 7, 9, None);
    assert_eq!(field, Field { kind: FieldType::Plankton, x: 7, y: 9, status: None });
}

#[test]
fn new_shark_draws_its_energy() {
    let mut seen = [false; 9];
    for _ in 0..400 {
        let field = Field::new(FieldType::Shark, 2, 3, None);
        assert_eq!(field.kind, FieldType::Shark);
        assert_eq!((field.x, field.y), (2, 3));
        let status = field.status.unwrap();
        assert_eq!(status.breed_counter, 8);
        let life = status.life.unwrap();
        assert!(1 <= life && life < 8);
        seen[life as usize] = true;
    }
    assert!(seen.iter().filter(|&&hit| hit).count() > 1);
    assert!(!seen[0] && !seen[8]);
}

#[test]
fn shark_with_takes_the_energy() {
    assert_eq!(AnimalStatus::shark_with(5), AnimalStatus { life: Some(5), breed_counter: 8 });
}

#[test]
fn status_clock_and_energy() {
    let mut status = AnimalStatus { life: Some(3), breed_counter: 2 };
    assert!(!status.has_to_breed());
    status.reduce_breet();
    assert_eq!(status, AnimalStatus { life: Some(3), breed_counter: 1 });
    status.reduce_breet();
    assert!(status.has_to_breed());
    status.reset_breed(&FieldType::Plankton);
    assert_eq!(status.breed_counter, 0);
    status.reset_breed(&FieldType::Shark);
    assert_eq!(status.breed_counter, 8);
    status.reset_breed(&FieldType::Fish);
    assert_eq!(status.breed_counter, 3);

    status.reduce_life();
    assert_eq!(status.life, Some(2));
    assert!(!status.is_dead());
    status.reduce_life();
    status.reduce_life();
    assert_eq!(status.life, Some(0));
    assert!(status.is_dead());
    status.reset_life();
    assert_eq!(status.life, Some(8));

    let mut fish = AnimalStatus::new_fish();
    fish.reduce_life();
    fish.reset_life();
    assert_eq!(fish, AnimalStatus { life: None, breed_counter: 3 });
    assert!(!fish.is_dead());
}

#[test]
fn age_restarts_a_counter_at_zero() {
    let fish = AnimalStatus { life: None, breed_counter: 0 };
    assert_eq!(fish.age(FieldType::Fish), AnimalStatus { life: None, breed_counter: 2 });
    let shark = AnimalStatus { life: Some(4), breed_counter: 0 };
    assert_eq!(shark.age(FieldType::Shark), AnimalStatus { life: Some(4), breed_counter: 7 });
    let young = AnimalStatus { life: Some(4), breed_counter: 8 };
    assert_eq!(young.age(FieldType::Shark), AnimalStatus { life: Some(4), breed_counter: 7 });
    let old = AnimalStatus { life: None, breed_counter: 1 };
    assert_eq!(old.age(FieldType::Fish), AnimalStatus { life: None, breed_counter: 0 });
}

#[test]
fn symbols() {
    assert_eq!(water(0, 0).symbol(), '_');
    assert_eq!(fish(0, 0, 3).symbol(), 'F');
    assert_eq!(shark(0, 0, 3, 3).symbol(), 'S');
    assert!(water(0, 0).check_field_empty());
    assert!(!fish(0, 0, 3).check_field_empty());
    assert!(fish(0, 0, 3).check_field_for_type(FieldType::Fish));
    assert!(!fish(0, 0, 3).check_field_for_type(FieldType::Shark));
}

#[test]
fn fish_goes_where_the_draw_says() {
    let mut fields = ocean(3, 3, FieldType::Plankton);
    let fish = place(&mut fields, fish(1, 1, 3));
    let status = Some(AnimalStatus { life: None, breed_counter: 2 });
    assert_eq!(fish.step_with(&fields, 0), Some(((1, 0), status)));
    assert_eq!(fish.step_with(&fields, 1), Some(((1, 2), status)));
    assert_eq!(fish.step_with(&fields, 2), Some(((0, 1), status)));
    assert_eq!(fish.step_with(&fields, 3), Some(((2, 1), status)));
    assert_eq!(fish.step_with(&fields, 6), Some(((0, 1), status)));
    assert_eq!(fish.get_next_fish_position(&fields, 7), ((2, 1), status));
    assert_eq!(fish.find_targets(&fields), vec![(1, 0), (1, 2), (0, 1), (2, 1)]);
}

#[test]
fn fish_in_the_first_row_looks_up_to_the_last() {
    let mut fields = ocean(4, 3, FieldType::Shark);
    let fish = place(&mut fields, fish(1, 0, 3));
    place(&mut fields, water(1, 3));
    assert_eq!(fish.find_targets(&fields), vec![(1, 3)]);
    let status = Some(AnimalStatus { life: None, breed_counter: 2 });
    assert_eq!(fish.step_with(&fields, 0), Some(((1, 3), status)));
    assert_eq!(fish.step_with(&fields, 9), Some(((1, 3), status)));
}

#[test]
fn fish_in_the_last_row_looks_down_to_the_first() {
    let mut fields = ocean(4, 3, FieldType::Shark);
    let fish = place(&mut fields, fish(2, 3, 3));
    place(&mut fields, water(2, 0));
    assert_eq!(fish.find_targets(&fields), vec![(2, 0)]);
}

#[test]
fn fish_in_the_last_column_looks_right_to_the_first() {
    let mut fields = ocean(2, 5, FieldType::Shark);
    let fish = place(&mut fields, fish(4, 1, 1));
    place(&mut fields, water(0, 1));
    assert_eq!(fish.find_targets(&fields), vec![(0, 1)]);
    let status = Some(AnimalStatus { life: None, breed_counter: 0 });
    assert_eq!(fish.step_with(&fields, 3), Some(((0, 1), status)));
}

#[test]
fn fish_in_the_first_column_looks_left_to_the_last() {
    let mut fields = ocean(2, 5, FieldType::Shark);
    let fish = place(&mut fields, fish(0, 0, 2));
    place(&mut fields, water(4, 0));
    assert_eq!(fish.find_targets(&fields), vec![(4, 0)]);
}

#[test]
fn columns_wrap_by_the_number_of_columns() {
    let mut fields = ocean(2, 5, FieldType::Plankton);
    let fish = place(&mut fields, fish(4, 0, 3));
    assert_eq!(
        fish.look_around(&fields, FieldType::Plankton),
        vec![(4, 1), (4, 1), (3, 0), (0, 0)]
    );
    let other = place(&mut fields, Field::new(FieldType::Fish, 2, 1, None));
    assert_eq!(
        other.look_around(&fields, FieldType::Plankton),
        vec![(2, 0), (2, 0), (1, 1), (3, 1)]
    );
}

#[test]
fn a_single_field_is_its_own_neighbour() {
    let mut fields = ocean(1, 1, FieldType::Plankton);
    let fish = place(&mut fields, fish(0, 0, 3));
    assert_eq!(fish.look_around(&fields, FieldType::Plankton), vec![]);
    assert_eq!(
        fish.look_around(&fields, FieldType::Fish),
        vec![(0, 0), (0, 0), (0, 0), (0, 0)]
    );
    let status = Some(AnimalStatus { life: None, breed_counter: 2 });
    assert_eq!(fish.step_with(&fields, 5), Some(((0, 0), status)));
}

#[test]
fn fish_without_room_stays() {
    let mut fields = ocean(3, 3, FieldType::Fish);
    let fish = place(&mut fields, fish(1, 1, 2));
    assert_eq!(fish.find_targets(&fields), vec![]);
    let status = Some(AnimalStatus { life: None, breed_counter: 1 });
    assert_eq!(fish.step_with(&fields, 0), Some(((1, 1), status)));
    assert_eq!(fish.step_with(&fields, 3), Some(((1, 1), status)));
    assert_eq!(fish.step(&fields), Some(((1, 1), status)));
}

#[test]
fn fish_with_counter_zero_starts_again() {
    let mut fields = ocean(3, 3, FieldType::Plankton);
    let fish = place(&mut fields, fish(0, 0, 0));
    let status = Some(AnimalStatus { life: None, breed_counter: 2 });
    assert_eq!(fish.step_with(&fields, 1), Some(((0, 1), status)));
}

#[test]
fn shark_goes_for_the_fish() {
    let mut fields = ocean(3, 3, FieldType::Plankton);
    let shark = place(&mut fields, shark(1, 1, 3, 5));
    place(&mut fields, fish(1, 2, 3));
    let status = AnimalStatus { life: Some(8), breed_counter: 4 };
    assert_eq!(shark.find_targets(&fields), vec![(1, 2)]);
    for draw in 0..5 {
        assert_eq!(shark.step_with(&fields, draw), Some(((1, 2), Some(status))));
        assert_eq!(shark.get_next_shark_position(&fields, draw), Some(((1, 2), status)));
    }
    assert_eq!(shark.step(&fields), Some(((1, 2), Some(status))));
}

#[test]
fn shark_chooses_among_the_fish() {
    let mut fields = ocean(3, 3, FieldType::Plankton);
    let shark = place(&mut fields, shark(1, 1, 1, 0));
    place(&mut fields, fish(1, 0, 3));
    place(&mut fields, fish(2, 1, 3));
    let status = Some(AnimalStatus { life: Some(8), breed_counter: 7 });
    assert_eq!(shark.find_targets(&fields), vec![(1, 0), (2, 1)]);
    assert_eq!(shark.step_with(&fields, 0), Some(((1, 0), status)));
    assert_eq!(shark.step_with(&fields, 1), Some(((2, 1), status)));
    assert_eq!(shark.step_with(&fields, 2), Some(((1, 0), status)));
}

#[test]
fn hungry_shark_swims_on_and_loses_energy() {
    let mut fields = ocean(3, 3, FieldType::Plankton);
    let shark = place(&mut fields, shark(0, 0, 3, 8));
    let status = Some(AnimalStatus { life: Some(2), breed_counter: 7 });
    assert_eq!(shark.find_targets(&fields), vec![(0, 2), (0, 1), (2, 0), (1, 0)]);
    assert_eq!(shark.step_with(&fields, 0), Some(((0, 2), status)));
    assert_eq!(shark.step_with(&fields, 1), Some(((0, 1), status)));
    assert_eq!(shark.step_with(&fields, 2), Some(((2, 0), status)));
    assert_eq!(shark.step_with(&fields, 3), Some(((1, 0), status)));
    assert_eq!(shark.step_with(&fields, 4), Some(((0, 2), status)));
}

#[test]
fn shark_with_its_last_energy_starves() {
    let mut fields = ocean(3, 3, FieldType::Plankton);
    let shark = place(&mut fields, shark(1, 1, 1, 4));
    assert_eq!(shark.find_targets(&fields), vec![]);
    assert_eq!(shark.step_with(&fields, 0), None);
    assert_eq!(shark.step_with(&fields, 3), None);
    assert_eq!(shark.get_next_shark_position(&fields, 2), None);
    assert_eq!(shark.step(&fields), None);
}

#[test]
fn shark_among_sharks_stays_and_loses_energy() {
    let mut fields = ocean(3, 3, FieldType::Shark);
    let shark = place(&mut fields, shark(1, 1, 5, 1));
    let status = Some(AnimalStatus { life: Some(4), breed_counter: 0 });
    assert_eq!(shark.step_with(&fields, 2), Some(((1, 1), status)));
}

#[test]
fn water_stays_water() {
    let fields = ocean(3, 3, FieldType::Plankton);
    let field = fields[2][1];
    assert_eq!(field.step_with(&fields, 4), Some(((1, 2), None)));
    assert_eq!(field.step(&fields), Some(((1, 2), None)));
    assert_eq!(field.find_targets(&fields), vec![]);
    let nowhere: Vec<Vec<Field>> = Vec::new();
    assert_eq!(water(7, 9).step_with(&nowhere, 1), Some(((7, 9), None)));
    assert_eq!(water(7, 9).step(&nowhere), Some(((7, 9), None)));
}

#[test]
fn random_step_lands_on_a_target() {
    let mut fields = ocean(3, 3, FieldType::Plankton);
    let fish = place(&mut fields, fish(1, 1, 3));
    place(&mut fields, shark(1, 0, 4, 4));
    let targets = vec![(1, 2), (0, 1), (2, 1)];
    assert_eq!(fish.find_targets(&fields), targets);
    let mut hits = [0usize; 3];
    for _ in 0..600 {
        let (to, status) = fish.step(&fields).unwrap();
        assert_eq!(status, Some(AnimalStatus { life: None, breed_counter: 2 }));
        let index = targets.iter().position(|&target| target == to).unwrap();
        hits[index] += 1;
    }
    assert!(hits.iter().all(|&count| count > 0));
}
