use planetensimulation::field::{AnimalStatus, Field, FieldType};
use planetensimulation::{Board, SimulationError};

fn fish(x: u32, y: u32, breed_counter: u32) -> Field {
    Field { kind: FieldType::Fish, x, y, status: Some(AnimalStatus { life: None, breed_counter }) }
}

fn shark(x: u32, y: u32, life: u32, breed_counter: u32) -> Field {
    Field {
        kind: FieldType::Shark,
        x,
        y,
        status: Some(AnimalStatus { life: Some(life), breed_counter }),
    }
}

fn water(x: u32, y: u32) -> Field {
    Field { kind: FieldType::Plankton, x, y, status: None }
}

/// The fields of a board that are not open water, in reading order.
fn animals(board: &Board) -> Vec<Field> {
    board
        .fields()
        .iter()
        .flatten()
        .filter(|field| field.kind != FieldType::Plankton)
        .copied()
        .collect()
}

fn picture(board: &Board) -> Vec<String> {
    board
        .fields()
        .iter()
        .map(|row| row.iter().map(|field| field.symbol()).collect())
        .collect()
}

/// Every field is in its place, and every animal within the bounds of its kind.
fn assert_sound(board: &Board) {
    let fields = board.fields();
    assert_eq!(fields.len(), board.rows() as usize);
    for (y, row) in fields.iter().enumerate() {
        assert_eq!(row.len(), board.columns() as usize);
        for (x, field) in row.iter().enumerate() {
            assert_eq!((field.x as usize, field.y as usize), (x, y));
            match field.kind {
                FieldType::Plankton => assert_eq!(field.status, None),
                FieldType::Fish => {
                    let status = field.status.unwrap();
                    assert_eq!(status.life, None);
                    assert!(status.breed_counter <= 3);
                }
                FieldType::Shark => {
                    let status = field.status.unwrap();
                    let life = status.life.unwrap();
                    assert!(1 <= life && life <= 8);
                    assert!(status.breed_counter <= 8);
                }
            }
        }
    }
}

/// A reproducible stream of draws for the tests.
fn script(seed: u64, len: usize) -> Vec<u64> {
    let mut state = seed;
    let mut draws = Vec::new();
    for _ in 0..len {
        state = state.wrapping_mul(6364136223846793005).wrapping_add(1442695040888963407);
        draws.push(state >> 33);
    }
    draws
}

#[test]
fn test_bla() {
    let mut board = Board::new(10, 5, 5, 5);
    board.generate_random_animals();
    println!("{:?}", picture(&board));
    board.step().unwrap();
    println!("{:?}", picture(&board));

    assert_eq!(true, true);
}

#[test]
fn new_board_is_not_seeded() {
    let mut board = Board::new(10, 5, 5, 5);
    assert_eq!(board.rows(), 5);
    assert_eq!(board.columns(), 5);
    assert!(board.fields().is_empty());
    assert_eq!(board.count_animals(), (0, 0));
    assert_eq!(
        board.step(),
        Err(SimulationError("No fishes or sharks left on the board".to_string()))
    );
    assert!(board.fields().is_empty());
}

#[test]
fn try_new_refuses_more_animals_than_fields() {
    assert!(Board::try_new(20, 6, 5, 5).is_none());
    assert!(Board::try_new(26, 0, 5, 5).is_none());
    assert!(Board::try_new(0, 1, 0, 7).is_none());
    assert!(Board::try_new(1, 0, 7, 0).is_none());
    assert!(Board::try_new(u32::MAX, u32::MAX, 3, 3).is_none());
    assert!(Board::try_new(20, 5, 5, 5).is_some());
    assert!(Board::try_new(0, 0, 0, 0).is_some());
    assert!(Board::try_new(0, 0, 65535, 65537).is_some());
    let board = Board::try_new(3, 4, 2, 6).unwrap();
    assert_eq!((board.rows(), board.columns()), (2, 6));
}

#[test]
fn try_new_refuses_more_fields_than_32_bits_count() {
    assert!(Board::try_new(0, 0, 65536, 65536).is_none());
    assert!(Board::try_new(1, 1, u32::MAX, u32::MAX).is_none());
    assert!(Board::try_new(1, 1, u32::MAX, 1).is_some());
}

#[test]
fn seeding_places_the_requested_animals() {
    let mut board = Board::new(10, 5, 5, 5);
    board.generate_random_animals();
    assert_eq!(board.count_animals(), (10, 5));
    assert_sound(&board);
    let animals = animals(&board);
    assert_eq!(animals.len(), 15);
    for animal in animals {
        let status = animal.status.unwrap();
        match animal.kind {
            FieldType::Fish => assert_eq!(status, AnimalStatus { life: None, breed_counter: 3 }),
            _ => {
                assert_eq!(status.breed_counter, 8);
                assert!(1 <= status.life.unwrap() && status.life.unwrap() < 8);
            }
        }
    }
}

#[test]
fn fifty_steps_on_a_small_board() {
    let mut board = Board::new(10, 5, 5, 5);
    board.generate_random_animals();
    assert_eq!(board.count_animals(), (10, 5));
    for _ in 0..50 {
        let before = board.count_animals();
        match board.step() {
            Ok(()) => {
                assert!(before.0 > 0 && before.1 > 0);
                let (fishes, sharks) = board.count_animals();
                assert!(fishes + sharks <= 25);
                assert_sound(&board);
            }
            Err(error) => {
                assert!(before.0 == 0 || before.1 == 0);
                assert_eq!(error.message(), "No fishes or sharks left on the board");
                assert_eq!(board.count_animals(), before);
                break;
            }
        }
    }
}

#[test]
fn seeding_fills_a_large_board() {
    let mut board = Board::new(200, 100, 40, 40);
    board.generate_random_animals();
    assert_eq!(board.count_animals(), (200, 100));
    assert_sound(&board);
    for _ in 0..20 {
        if board.step().is_err() {
            break;
        }
        let (fishes, sharks) = board.count_animals();
        assert!(fishes + sharks <= 1600);
        assert_sound(&board);
    }
}

#[test]
fn seeding_can_fill_every_field() {
    let mut board = Board::new(5, 4, 3, 3);
    board.generate_random_animals();
    assert_eq!(board.count_animals(), (5, 4));
    assert_eq!(animals(&board).len(), 9);
    let mut empty = Board::new(0, 0, 3, 4);
    empty.generate_random_animals();
    assert_eq!(empty.count_animals(), (0, 0));
    assert_eq!(picture(&empty), vec!["____", "____", "____"]);
    let mut none = Board::new(0, 0, 0, 0);
    none.generate_random_animals();
    assert!(none.fields().is_empty());
}

#[test]
fn seeding_again_starts_over() {
    let mut board = Board::new(6, 2, 4, 4);
    board.generate_random_animals();
    for _ in 0..5 {
        let _ = board.step();
    }
    board.generate_random_animals();
    assert_eq!(board.count_animals(), (6, 2));
}

#[test]
fn random_seeding_does_not_repeat_itself() {
    let mut places = Vec::new();
    for _ in 0..60 {
        let mut board = Board::new(1, 0, 5, 5);
        board.generate_random_animals();
        let animals = animals(&board);
        assert_eq!(animals.len(), 1);
        let place = (animals[0].x, animals[0].y);
        if !places.contains(&place) {
            places.push(place);
        }
    }
    assert!(places.len() > 1);
}

#[test]
fn scripted_seeding_puts_each_animal_on_the_chosen_free_field() {
    let mut board = Board::new(1, 1, 3, 3);
    board.generate_animals_with(&vec![4, 0, 3]);
    assert_eq!(picture(&board), vec!["S__", "_F_", "___"]);
    assert_eq!(animals(&board), vec![shark(0, 0, 4, 8), fish(1, 1, 3)]);
    assert_eq!(board.count_animals(), (1, 1));

    // The draws are counted round: 13 of 9 free fields is the fifth, and 25
    // of the 8 that are left the second.
    let mut board = Board::new(1, 1, 3, 3);
    board.generate_animals_with(&vec![13, 25, 20]);
    assert_eq!(picture(&board), vec!["_S_", "_F_", "___"]);
    assert_eq!(animals(&board), vec![shark(1, 0, 7, 8), fish(1, 1, 3)]);
}

#[test]
fn a_script_that_runs_out_goes_on_with_zeros() {
    let mut board = Board::new(2, 2, 2, 3);
    board.generate_animals_with(&vec![]);
    assert_eq!(picture(&board), vec!["FFS", "S__"]);
    assert_eq!(
        animals(&board),
        vec![fish(0, 0, 3), fish(1, 0, 3), shark(2, 0, 1, 8), shark(0, 1, 1, 8)]
    );
    let mut board = Board::new(2, 1, 2, 3);
    board.generate_animals_with(&vec![5]);
    assert_eq!(picture(&board), vec!["FS_", "__F"]);
}

#[test]
fn step_without_sharks_fails_and_changes_nothing() {
    let mut board = Board::new(3, 0, 3, 3);
    board.generate_animals_with(&vec![0, 3, 5]);
    let before = board.fields().clone();
    assert_eq!(board.count_animals(), (3, 0));
    let error = board.step().unwrap_err();
    assert_eq!(error, SimulationError("No fishes or sharks left on the board".to_string()));
    assert_eq!(error.message(), "No fishes or sharks left on the board");
    assert_eq!(board.fields(), &before);
    assert_eq!(board.step_with(&vec![1, 2, 3]), Err(error));
    assert_eq!(board.fields(), &before);
}

#[test]
fn step_without_fish_fails_and_changes_nothing() {
    let mut board = Board::new(0, 2, 3, 3);
    board.generate_random_animals();
    let before = board.fields().clone();
    assert_eq!(board.count_animals(), (0, 2));
    assert!(board.step().is_err());
    assert_eq!(board.fields(), &before);
    assert!(board.step_with(&vec![]).is_err());
    assert_eq!(board.fields(), &before);
}

#[test]
fn a_trajectory_on_a_ring() {
    // One row of eight fields: a fish on the first, a shark with energy 7 on
    // the fifth.
    let mut board = Board::new(1, 1, 1, 8);
    board.generate_animals_with(&vec![0, 3, 6]);
    assert_eq!(animals(&board), vec![fish(0, 0, 3), shark(4, 0, 7, 8)]);

    // The fish swims right, the shark swims right and loses energy.
    assert_eq!(board.step_with(&vec![1, 1]), Ok(()));
    assert_eq!(animals(&board), vec![fish(1, 0, 2), shark(5, 0, 6, 7)]);
    assert_eq!(board.step_with(&vec![0, 0]), Ok(()));
    assert_eq!(animals(&board), vec![fish(0, 0, 1), shark(4, 0, 5, 6)]);
    assert_eq!(board.step_with(&vec![1, 1]), Ok(()));
    assert_eq!(animals(&board), vec![fish(1, 0, 0), shark(5, 0, 4, 5)]);
    assert_eq!(board.count_animals(), (1, 1));

    // The breed counter of the fish stands at zero: it leaves a newborn
    // behind and starts again.
    assert_eq!(board.step_with(&vec![0, 0]), Ok(()));
    assert_eq!(animals(&board), vec![fish(0, 0, 2), fish(1, 0, 3), shark(4, 0, 3, 4)]);
    assert_eq!(board.count_animals(), (2, 1));

    // The first fish crosses the border to the last field; the second takes
    // the field that the first has just left.
    assert_eq!(board.step_with(&vec![0, 0, 1]), Ok(()));
    assert_eq!(animals(&board), vec![fish(0, 0, 2), shark(5, 0, 2, 3), fish(7, 0, 1)]);

    // A fish comes next to the shark and is eaten.
    assert_eq!(board.step_with(&vec![0, 0, 0]), Ok(()));
    assert_eq!(animals(&board), vec![fish(1, 0, 1), shark(6, 0, 8, 2)]);
    assert_eq!(board.count_animals(), (1, 1));
    assert_eq!(picture(&board), vec!["_F____S_"]);

    assert_eq!(board.step_with(&vec![0, 0]), Ok(()));
    assert_eq!(animals(&board), vec![fish(0, 0, 0), shark(5, 0, 7, 1)]);
    assert_eq!(board.step_with(&vec![1, 1]), Ok(()));
    assert_eq!(animals(&board), vec![fish(0, 0, 3), fish(1, 0, 2), shark(6, 0, 6, 0)]);

    // The breed counter of the shark stands at zero: it eats the fish that
    // has come next to it and leaves a newborn with energy 5 behind.
    assert_eq!(board.step_with(&vec![0, 1, 0, 4]), Ok(()));
    assert_eq!(animals(&board), vec![fish(2, 0, 1), shark(6, 0, 5, 8), shark(7, 0, 8, 7)]);
    assert_eq!(board.count_animals(), (1, 2));
    assert_eq!(board.fields()[0][0], water(0, 0));
}

#[test]
fn a_shark_starves_on_the_board() {
    let mut board = Board::new(1, 1, 1, 8);
    board.generate_animals_with(&vec![0, 3, 0]);
    assert_eq!(animals(&board), vec![fish(0, 0, 3), shark(4, 0, 1, 8)]);
    assert_eq!(board.step_with(&vec![1]), Ok(()));
    assert_eq!(animals(&board), vec![fish(1, 0, 2)]);
    assert_eq!(board.fields()[0][4], water(4, 0));
    assert_eq!(board.count_animals(), (1, 0));
    let before = board.fields().clone();
    assert!(board.step_with(&vec![1]).is_err());
    assert_eq!(board.fields(), &before);
}

#[test]
fn a_fish_without_room_stays_and_is_eaten() {
    let mut board = Board::new(1, 1, 1, 2);
    board.generate_animals_with(&vec![0, 0, 2]);
    assert_eq!(animals(&board), vec![fish(0, 0, 3), shark(1, 0, 3, 8)]);
    // The fish has no free neighbour and stays; the shark eats it.
    assert_eq!(board.step_with(&vec![]), Ok(()));
    assert_eq!(animals(&board), vec![shark(0, 0, 8, 7)]);
    assert_eq!(board.fields()[0][1], water(1, 0));
}

#[test]
fn replaying_a_script_gives_the_same_trajectory() {
    let seeding = script(7, 400);
    let mut first = Board::new(40, 20, 12, 9);
    let mut second = Board::new(40, 20, 12, 9);
    first.generate_animals_with(&seeding);
    second.generate_animals_with(&seeding);
    assert_eq!(first.fields(), second.fields());
    assert_eq!(first.count_animals(), (40, 20));
    assert_sound(&first);
    for tick in 0..40 {
        let draws = script(100 + tick, 300);
        let one = first.step_with(&draws);
        let two = second.step_with(&draws);
        assert_eq!(one, two);
        assert_eq!(first.fields(), second.fields());
        assert_eq!(first, second);
        assert_sound(&first);
        if one.is_err() {
            break;
        }
    }
}

#[test]
fn draws_past_those_that_a_tick_reads_do_not_matter() {
    let mut first = Board::new(1, 1, 1, 8);
    let mut second = Board::new(1, 1, 1, 8);
    first.generate_animals_with(&vec![0, 3, 6]);
    second.generate_animals_with(&vec![0, 3, 6, 99, 98]);
    assert_eq!(first, second);
    assert_eq!(first.step_with(&vec![1, 1]), Ok(()));
    assert_eq!(second.step_with(&vec![1, 1, 5, 6, 7]), Ok(()));
    assert_eq!(first, second);
    // A draw counts by its remainder: 3 of two targets is the second.
    assert_eq!(first.step_with(&vec![0, 1]), Ok(()));
    assert_eq!(second.step_with(&vec![2, 3]), Ok(()));
    assert_eq!(first, second);
}

#[test]
fn count_animals_counts_every_field() {
    let mut board = Board::new(7, 3, 4, 5);
    board.generate_animals_with(&script(3, 40));
    let fields = board.fields();
    let fishes = fields.iter().flatten().filter(|f| f.kind == FieldType::Fish).count();
    let sharks = fields.iter().flatten().filter(|f| f.kind == FieldType::Shark).count();
    assert_eq!((fishes, sharks), (7, 3));
    assert_eq!(board.count_animals(), (7, 3));
    assert_eq!(Board::get_fishes(fields).len(), 7);
    assert_eq!(Board::get_sharks(fields).len(), 3);
    assert_eq!(Board::collect(fields, FieldType::Plankton).len(), 10);
}

#[test]
fn animals_are_listed_in_reading_order() {
    let mut board = Board::new(3, 2, 2, 3);
    board.generate_animals_with(&vec![5, 0, 2, 0, 0, 1, 1]);
    // Fishes on the last field, the first, and the third of the free ones
    // left; sharks on the first free field and then on the second.
    assert_eq!(picture(&board), vec!["FS_", "FSF"]);
    assert_eq!(
        Board::get_fishes(board.fields()),
        vec![fish(0, 0, 3), fish(0, 1, 3), fish(2, 1, 3)]
    );
    assert_eq!(
        Board::get_sharks(board.fields()),
        vec![shark(1, 0, 1, 8), shark(1, 1, 2, 8)]
    );
    assert_eq!(Board::collect(board.fields(), FieldType::Plankton), vec![water(2, 0)]);
}

#[test]
fn field_looks_up_a_place() {
    let mut board = Board::new(1, 1, 2, 3);
    assert_eq!(board.field(0, 0), None);
    board.generate_animals_with(&vec![5, 0, 2]);
    assert_eq!(board.field(2, 1), Some(fish(2, 1, 3)));
    assert_eq!(board.field(0, 0), Some(shark(0, 0, 3, 8)));
    assert_eq!(board.field(1, 0), Some(water(1, 0)));
    assert_eq!(board.field(3, 0), None);
    assert_eq!(board.field(0, 2), None);
    assert_eq!(board.field(1, 2), None);
}

#[test]
fn open_water_knows_its_places() {
    let fields = Board::open_water(2, 3);
    assert_eq!(
        fields,
        vec![
            vec![water(0, 0), water(1, 0), water(2, 0)],
            vec![water(0, 1), water(1, 1), water(2, 1)],
        ]
    );
    assert!(Board::open_water(0, 3).is_empty());
    assert_eq!(Board::open_water(2, 0), vec![Vec::<Field>::new(), Vec::new()]);
}
