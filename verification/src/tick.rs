//! The rules of the simulation as functions of an ocean and a script of draws.
//!
//! A turn is what one animal does, a tick is the turn of every fish followed
//! by the turn of every shark, and seeding fills an empty ocean. Each rule
//! reads the draws it needs from the script, front to back, and says how many
//! it has read.
use crate::chance::{agree, draw_at};
use crate::field::{
    breed_time, lemma_landing_on_grid, AnimalStatus, Field, FieldType, Position, SHARK_BREED_TIME,
};
use crate::model::{
    around, blank, cell, fields_of, is_ocean, is_torus, lemma_blank, lemma_census,
    lemma_fields_of_apart, lemma_fields_of_member, lemma_population_put, lemma_put_cell,
    lemma_put_keeps, neighbours, on_grid, population, put,
};
use vstd::prelude::*;

verus! {

/// The energy that a draw gives to a shark at its birth: at least 1, and
/// less than the breed time of a shark.
pub open spec fn energy_of(draw: nat) -> u32 {
    (1 + draw % ((SHARK_BREED_TIME - 1) as nat)) as u32
}

/// What an animal leaves on its field when it moves on: a young one of its
/// kind if it breeds, and open water if not.
pub open spec fn wake(animal: Field, young: AnimalStatus) -> Field {
    if animal.status.unwrap().breeds() {
        Field::animal(animal.kind, animal.at(), young)
    } else {
        Field::water(animal.x, animal.y)
    }
}

/// The ocean after an animal has done what its turn came to. An animal that
/// died leaves open water. One that lives first leaves its wake on its old
/// field and then takes the field it goes to, so that one that stays is found
/// where it was, with its new status.
pub open spec fn settle(
    g: Seq<Seq<Field>>,
    animal: Field,
    outcome: Option<(Position, Option<AnimalStatus>)>,
    young: AnimalStatus,
) -> Seq<Seq<Field>> {
    match outcome {
        None => put(g, Field::water(animal.x, animal.y)),
        Some((to, status)) => put(
            put(g, wake(animal, young)),
            Field { kind: animal.kind, x: to.0, y: to.1, status },
        ),
    }
}

/// The turn of one animal, reading the script from place `at`: the ocean
/// after the turn, and the place that the script has been read up to.
///
/// The animal reads one draw to choose among its targets, if it has any. A
/// shark that lives and breeds reads one more, for the energy of its young.
pub open spec fn turn(g: Seq<Seq<Field>>, animal: Field, draws: Seq<u64>, at: nat) -> (
    Seq<Seq<Field>>,
    nat,
) {
    if animal.kind == FieldType::Plankton {
        (g, at)
    } else {
        let chosen = if animal.targets(g).len() > 0 {
            at + 1
        } else {
            at
        };
        let outcome = animal.next(g, draw_at(draws, at));
        let born = animal.kind == FieldType::Shark && outcome is Some
            && animal.status.unwrap().breeds();
        let young = if animal.kind == FieldType::Shark {
            AnimalStatus::fresh_shark(energy_of(draw_at(draws, chosen)))
        } else {
            AnimalStatus::fresh_fish()
        };
        (settle(g, animal, outcome, young), if born {
            chosen + 1
        } else {
            chosen
        })
    }
}

/// The turns of the first `k` animals of a list, one after the other.
pub open spec fn turns(
    g: Seq<Seq<Field>>,
    animals: Seq<Field>,
    draws: Seq<u64>,
    at: nat,
    k: nat,
) -> (Seq<Seq<Field>>, nat)
    decreases k,
{
    if k == 0 {
        (g, at)
    } else {
        let so_far = turns(g, animals, draws, at, (k - 1) as nat);
        turn(so_far.0, animals[k - 1], draws, so_far.1)
    }
}

/// One tick, reading the script from place `at`. The fish that the ocean
/// holds at the start take their turns in reading order; then the sharks that
/// it holds after that take theirs.
pub open spec fn tick_from(g: Seq<Seq<Field>>, draws: Seq<u64>, at: nat) -> (
    Seq<Seq<Field>>,
    nat,
) {
    let fishes = fields_of(g, FieldType::Fish);
    let swum = turns(g, fishes, draws, at, fishes.len());
    let sharks = fields_of(swum.0, FieldType::Shark);
    turns(swum.0, sharks, draws, swum.1, sharks.len())
}

/// The ocean after one tick that reads the script from its start.
pub open spec fn tick(g: Seq<Seq<Field>>, draws: Seq<u64>) -> Seq<Seq<Field>> {
    tick_from(g, draws, 0).0
}

/// One animal of the given kind is put on open water: on the free field that
/// the draw selects, counted in reading order. A shark reads one more draw,
/// for its energy.
pub open spec fn plant(g: Seq<Seq<Field>>, kind: FieldType, draws: Seq<u64>, at: nat) -> (
    Seq<Seq<Field>>,
    nat,
) {
    let free = fields_of(g, FieldType::Plankton);
    if free.len() == 0 {
        (g, at)
    } else {
        let spot = free[(draw_at(draws, at) % free.len()) as int];
        match kind {
            FieldType::Plankton => (g, at),
            FieldType::Fish => (
                put(g, Field::animal(kind, spot.at(), AnimalStatus::fresh_fish())),
                at + 1,
            ),
            FieldType::Shark => (
                put(
                    g,
                    Field::animal(
                        kind,
                        spot.at(),
                        AnimalStatus::fresh_shark(energy_of(draw_at(draws, at + 1))),
                    ),
                ),
                at + 2,
            ),
        }
    }
}

/// `n` animals of the given kind are put on open water, one after the other.
pub open spec fn sow(g: Seq<Seq<Field>>, kind: FieldType, draws: Seq<u64>, at: nat, n: nat) -> (
    Seq<Seq<Field>>,
    nat,
)
    decreases n,
{
    if n == 0 {
        (g, at)
    } else {
        let so_far = sow(g, kind, draws, at, (n - 1) as nat);
        plant(so_far.0, kind, draws, so_far.1)
    }
}

/// Seeding, reading the script from its start: open water, on which first
/// the fish and then the sharks are put.
pub open spec fn seeding(rows: nat, columns: nat, fishes: nat, sharks: nat, draws: Seq<u64>) -> (
    Seq<Seq<Field>>,
    nat,
) {
    let with_fish = sow(blank(rows, columns), FieldType::Fish, draws, 0, fishes);
    sow(with_fish.0, FieldType::Shark, draws, with_fish.1, sharks)
}

/// The ocean that seeding makes.
pub open spec fn seeded(
    rows: nat,
    columns: nat,
    fishes: nat,
    sharks: nat,
    draws: Seq<u64>,
) -> Seq<Seq<Field>> {
    seeding(rows, columns, fishes, sharks, draws).0
}

/// A turn reads the script forwards.
pub proof fn lemma_turn_reads_on(g: Seq<Seq<Field>>, animal: Field, draws: Seq<u64>, at: nat)
    ensures
        at <= turn(g, animal, draws, at).1 <= at + 2,
{
}

/// A run of turns reads the script forwards.
pub proof fn lemma_turns_read_on(
    g: Seq<Seq<Field>>,
    animals: Seq<Field>,
    draws: Seq<u64>,
    at: nat,
    k: nat,
)
    ensures
        at <= turns(g, animals, draws, at, k).1,
    decreases k,
{
    if k > 0 {
        lemma_turns_read_on(g, animals, draws, at, (k - 1) as nat);
    }
}

/// A turn depends on the script only through the draws that it reads.
pub proof fn lemma_turn_agrees(
    g: Seq<Seq<Field>>,
    animal: Field,
    a: Seq<u64>,
    b: Seq<u64>,
    at: nat,
)
    requires
        forall|i: nat| at <= i < turn(g, animal, a, at).1 ==> draw_at(a, i) == draw_at(b, i),
    ensures
        turn(g, animal, b, at) == turn(g, animal, a, at),
{
    if animal.kind != FieldType::Plankton {
        let chosen = if animal.targets(g).len() > 0 {
            at + 1
        } else {
            at
        };
        if animal.targets(g).len() > 0 {
            assert(draw_at(a, at) == draw_at(b, at));
        }
        let outcome = animal.next(g, draw_at(a, at));
        assert(animal.next(g, draw_at(b, at)) == outcome);
        let born = animal.kind == FieldType::Shark && outcome is Some
            && animal.status.unwrap().breeds();
        if born {
            assert(draw_at(a, chosen as nat) == draw_at(b, chosen as nat));
        }
    }
}

/// A run of turns depends on the script only through the draws that it reads.
pub proof fn lemma_turns_agree(
    g: Seq<Seq<Field>>,
    animals: Seq<Field>,
    a: Seq<u64>,
    b: Seq<u64>,
    at: nat,
    k: nat,
)
    requires
        forall|i: nat| at <= i < turns(g, animals, a, at, k).1 ==> draw_at(a, i) == draw_at(b, i),
    ensures
        turns(g, animals, b, at, k) == turns(g, animals, a, at, k),
    decreases k,
{
    if k > 0 {
        let so_far = turns(g, animals, a, at, (k - 1) as nat);
        lemma_turns_read_on(g, animals, a, at, (k - 1) as nat);
        lemma_turn_reads_on(so_far.0, animals[k - 1], a, so_far.1);
        lemma_turns_agree(g, animals, a, b, at, (k - 1) as nat);
        lemma_turn_agrees(so_far.0, animals[k - 1], a, b, so_far.1);
    }
}

/// Replaying a tick gives the same ocean: a tick is a function of the ocean
/// and of the draws that it reads, whatever else the script holds.
pub proof fn lemma_tick_agrees(g: Seq<Seq<Field>>, a: Seq<u64>, b: Seq<u64>, at: nat)
    requires
        forall|i: nat| at <= i < tick_from(g, a, at).1 ==> draw_at(a, i) == draw_at(b, i),
    ensures
        tick_from(g, b, at) == tick_from(g, a, at),
{
    let fishes = fields_of(g, FieldType::Fish);
    let swum = turns(g, fishes, a, at, fishes.len());
    let sharks = fields_of(swum.0, FieldType::Shark);
    lemma_turns_read_on(g, fishes, a, at, fishes.len());
    lemma_turns_read_on(swum.0, sharks, a, swum.1, sharks.len());
    lemma_turns_agree(g, fishes, a, b, at, fishes.len());
    lemma_turns_agree(swum.0, sharks, a, b, swum.1, sharks.len());
}

/// Two scripts that hold the same draws give the same tick.
pub proof fn lemma_tick_replays(g: Seq<Seq<Field>>, a: Seq<u64>, b: Seq<u64>)
    requires
        agree(a, b, tick_from(g, a, 0).1),
    ensures
        tick(g, b) == tick(g, a),
{
    lemma_tick_agrees(g, a, b, 0);
}

/// Planting reads the script forwards.
pub proof fn lemma_sow_reads_on(
    g: Seq<Seq<Field>>,
    kind: FieldType,
    draws: Seq<u64>,
    at: nat,
    n: nat,
)
    ensures
        at <= sow(g, kind, draws, at, n).1,
    decreases n,
{
    if n > 0 {
        lemma_sow_reads_on(g, kind, draws, at, (n - 1) as nat);
    }
}

/// Planting depends on the script only through the draws that it reads.
pub proof fn lemma_sow_agrees(
    g: Seq<Seq<Field>>,
    kind: FieldType,
    a: Seq<u64>,
    b: Seq<u64>,
    at: nat,
    n: nat,
)
    requires
        forall|i: nat| at <= i < sow(g, kind, a, at, n).1 ==> draw_at(a, i) == draw_at(b, i),
    ensures
        sow(g, kind, b, at, n) == sow(g, kind, a, at, n),
    decreases n,
{
    if n > 0 {
        let so_far = sow(g, kind, a, at, (n - 1) as nat);
        lemma_sow_reads_on(g, kind, a, at, (n - 1) as nat);
        lemma_sow_agrees(g, kind, a, b, at, (n - 1) as nat);
        let free = fields_of(so_far.0, FieldType::Plankton);
        if free.len() > 0 && kind != FieldType::Plankton {
            assert(draw_at(a, so_far.1) == draw_at(b, so_far.1));
            if kind == FieldType::Shark {
                assert(draw_at(a, so_far.1 + 1) == draw_at(b, so_far.1 + 1));
            }
        }
    }
}

/// Two scripts that hold the same draws give the same seeding.
pub proof fn lemma_seeding_replays(
    rows: nat,
    columns: nat,
    fishes: nat,
    sharks: nat,
    a: Seq<u64>,
    b: Seq<u64>,
)
    requires
        agree(a, b, seeding(rows, columns, fishes, sharks, a).1),
    ensures
        seeding(rows, columns, fishes, sharks, b) == seeding(rows, columns, fishes, sharks, a),
{
    let water = blank(rows, columns);
    let with_fish = sow(water, FieldType::Fish, a, 0, fishes);
    lemma_sow_reads_on(water, FieldType::Fish, a, 0, fishes);
    lemma_sow_reads_on(with_fish.0, FieldType::Shark, a, with_fish.1, sharks);
    lemma_sow_agrees(water, FieldType::Fish, a, b, 0, fishes);
    lemma_sow_agrees(with_fish.0, FieldType::Shark, a, b, with_fish.1, sharks);
}

/// An animal that has just been born, or open water.
pub open spec fn newborn(f: Field) -> bool {
    match f.kind {
        FieldType::Plankton => f.status is None,
        FieldType::Fish => f.status == Some(AnimalStatus::fresh_fish()),
        FieldType::Shark => f.status matches Some(status) && status.breed_counter
            == SHARK_BREED_TIME && (status.life matches Some(energy) && 1 <= energy
            < SHARK_BREED_TIME),
    }
}

/// Every animal of the ocean has just been born.
pub open spec fn nursery(g: Seq<Seq<Field>>) -> bool {
    forall|p: Position| on_grid(g, p) ==> newborn(#[trigger] cell(g, p))
}

/// Planting one animal on an ocean with open water takes one free field for
/// it and leaves the rest as it was.
pub proof fn lemma_plant_counts(
    g: Seq<Seq<Field>>,
    kind: FieldType,
    draws: Seq<u64>,
    at: nat,
    rows: nat,
    columns: nat,
)
    requires
        is_ocean(g, rows, columns),
        kind != FieldType::Plankton,
        population(g, FieldType::Plankton) > 0,
    ensures
        is_ocean(plant(g, kind, draws, at).0, rows, columns),
        nursery(g) ==> nursery(plant(g, kind, draws, at).0),
        population(plant(g, kind, draws, at).0, FieldType::Plankton) == population(
            g,
            FieldType::Plankton,
        ) - 1,
        population(plant(g, kind, draws, at).0, FieldType::Fish) == population(g, FieldType::Fish)
            + (if kind == FieldType::Fish {
            1int
        } else {
            0int
        }),
        population(plant(g, kind, draws, at).0, FieldType::Shark) == population(
            g,
            FieldType::Shark,
        ) + (if kind == FieldType::Shark {
            1int
        } else {
            0int
        }),
{
    let free = fields_of(g, FieldType::Plankton);
    let i = (draw_at(draws, at) % free.len()) as int;
    let spot = free[i];
    lemma_fields_of_member(g, FieldType::Plankton, i);
    let status = if kind == FieldType::Fish {
        AnimalStatus::fresh_fish()
    } else {
        AnimalStatus::fresh_shark(energy_of(draw_at(draws, at + 1)))
    };
    let f = Field::animal(kind, spot.at(), status);
    assert(plant(g, kind, draws, at).0 == put(g, f));
    lemma_put_keeps(g, f, rows, columns);
    lemma_population_put(g, f, FieldType::Plankton);
    lemma_population_put(g, f, FieldType::Fish);
    lemma_population_put(g, f, FieldType::Shark);
    if nursery(g) {
        assert forall|p: Position| on_grid(put(g, f), p) implies newborn(
            #[trigger] cell(put(g, f), p),
        ) by {
            if p != f.at() {
                assert(newborn(cell(g, p)));
            }
        }
    }
}

/// Planting `n` animals on an ocean that has the open water for them takes
/// `n` free fields for them and leaves the rest as it was.
pub proof fn lemma_sow_counts(
    g: Seq<Seq<Field>>,
    kind: FieldType,
    draws: Seq<u64>,
    at: nat,
    n: nat,
    rows: nat,
    columns: nat,
)
    requires
        is_ocean(g, rows, columns),
        kind != FieldType::Plankton,
        n <= population(g, FieldType::Plankton),
    ensures
        is_ocean(sow(g, kind, draws, at, n).0, rows, columns),
        nursery(g) ==> nursery(sow(g, kind, draws, at, n).0),
        population(sow(g, kind, draws, at, n).0, FieldType::Plankton) == population(
            g,
            FieldType::Plankton,
        ) - n,
        population(sow(g, kind, draws, at, n).0, FieldType::Fish) == population(g, FieldType::Fish)
            + (if kind == FieldType::Fish {
            n as int
        } else {
            0int
        }),
        population(sow(g, kind, draws, at, n).0, FieldType::Shark) == population(
            g,
            FieldType::Shark,
        ) + (if kind == FieldType::Shark {
            n as int
        } else {
            0int
        }),
    decreases n,
{
    if n > 0 {
        lemma_sow_counts(g, kind, draws, at, (n - 1) as nat, rows, columns);
        let so_far = sow(g, kind, draws, at, (n - 1) as nat);
        lemma_plant_counts(so_far.0, kind, draws, so_far.1, rows, columns);
    }
}

/// Seeding places exactly the fishes and sharks that it is asked for, each on
/// a field of its own and each just born, on an ocean of the size asked for.
pub proof fn lemma_seeded_counts(
    rows: nat,
    columns: nat,
    fishes: nat,
    sharks: nat,
    draws: Seq<u64>,
)
    requires
        rows <= u32::MAX,
        columns <= u32::MAX,
        fishes + sharks <= rows * columns,
    ensures
        is_ocean(seeded(rows, columns, fishes, sharks, draws), rows, columns),
        nursery(seeded(rows, columns, fishes, sharks, draws)),
        population(seeded(rows, columns, fishes, sharks, draws), FieldType::Fish) == fishes,
        population(seeded(rows, columns, fishes, sharks, draws), FieldType::Shark) == sharks,
        population(seeded(rows, columns, fishes, sharks, draws), FieldType::Plankton) == rows
            * columns - fishes - sharks,
{
    let water = blank(rows, columns);
    lemma_blank(rows, columns);
    assert(nursery(water));
    lemma_sow_counts(water, FieldType::Fish, draws, 0, fishes, rows, columns);
    let with_fish = sow(water, FieldType::Fish, draws, 0, fishes);
    lemma_sow_counts(with_fish.0, FieldType::Shark, draws, with_fish.1, sharks, rows, columns);
}

/// Breeding: an animal whose breed counter stands at zero at the start of
/// its turn, and that moves, leaves a newborn of its kind on the field it
/// came from. The newborn has the full breed time before it; the animal
/// itself goes on with one tick less than that.
pub proof fn lemma_breeding(g: Seq<Seq<Field>>, animal: Field, draws: Seq<u64>, at: nat)
    requires
        is_torus(g),
        on_grid(g, animal.at()),
        animal.kind != FieldType::Plankton,
        animal.status matches Some(status) && status.breeds(),
        animal.next(g, draw_at(draws, at)) matches Some((to, _)) && to != animal.at(),
    ensures
        ({
            let after = turn(g, animal, draws, at).0;
            let to = animal.landing(g, draw_at(draws, at));
            let left = cell(after, animal.at());
            let moved = cell(after, to);
            &&& left.kind == animal.kind
            &&& newborn(left)
            &&& left.status matches Some(young) && young.breed_counter == breed_time(animal.kind)
            &&& moved.kind == animal.kind
            &&& moved.status matches Some(status) && status.breed_counter == breed_time(
                animal.kind,
            ) - 1
        }),
{
    let draw = draw_at(draws, at);
    let to = animal.landing(g, draw);
    lemma_landing_on_grid(animal, g, draw);
    let chosen = if animal.targets(g).len() > 0 {
        at + 1
    } else {
        at
    };
    let young = if animal.kind == FieldType::Shark {
        AnimalStatus::fresh_shark(energy_of(draw_at(draws, chosen)))
    } else {
        AnimalStatus::fresh_fish()
    };
    let left = wake(animal, young);
    let status = animal.next(g, draw).unwrap().1;
    let moved = Field { kind: animal.kind, x: to.0, y: to.1, status };
    lemma_put_cell(g, left, to);
    lemma_put_cell(g, left, animal.at());
    lemma_put_cell(put(g, left), moved, animal.at());
    lemma_put_cell(put(g, left), moved, to);
}

/// Starvation: a shark with no fish next to it and one unit of energy left
/// dies on its turn. Its field becomes open water, nothing else changes, no
/// draw is read, and the ocean holds one shark less.
pub proof fn lemma_starvation(g: Seq<Seq<Field>>, shark: Field, draws: Seq<u64>, at: nat)
    requires
        is_torus(g),
        on_grid(g, shark.at()),
        cell(g, shark.at()) == shark,
        shark.kind == FieldType::Shark,
        shark.status matches Some(status) && status.life == Some(1u32),
        around(g, shark.at(), FieldType::Fish).len() == 0,
    ensures
        turn(g, shark, draws, at) == (put(g, Field::water(shark.x, shark.y)), at),
        cell(turn(g, shark, draws, at).0, shark.at()) == Field::water(shark.x, shark.y),
        forall|p: Position|
            on_grid(g, p) && p != shark.at() ==> cell(turn(g, shark, draws, at).0, p) == cell(
                g,
                p,
            ),
        population(turn(g, shark, draws, at).0, FieldType::Shark) == population(
            g,
            FieldType::Shark,
        ) - 1,
        population(turn(g, shark, draws, at).0, FieldType::Fish) == population(
            g,
            FieldType::Fish,
        ),
{
    let water = Field::water(shark.x, shark.y);
    lemma_population_put(g, water, FieldType::Shark);
    lemma_population_put(g, water, FieldType::Fish);
    assert forall|p: Position| on_grid(g, p) && p != shark.at() implies cell(put(g, water), p)
        == cell(g, p) by {
        lemma_put_cell(g, water, p);
    }
    lemma_put_cell(g, water, shark.at());
}

/// A turn leaves an ocean an ocean: of the same size, with every field in
/// its place and well formed.
pub proof fn lemma_turn_keeps_ocean(
    g: Seq<Seq<Field>>,
    animal: Field,
    draws: Seq<u64>,
    at: nat,
    rows: nat,
    columns: nat,
)
    requires
        is_ocean(g, rows, columns),
        rows <= u32::MAX,
        columns <= u32::MAX,
        on_grid(g, animal.at()),
        animal.wf(),
    ensures
        is_ocean(turn(g, animal, draws, at).0, rows, columns),
{
    if animal.kind != FieldType::Plankton {
        let draw = draw_at(draws, at);
        assert(g[animal.y as int].len() == columns);
        assert(g[0].len() == columns);
        lemma_landing_on_grid(animal, g, draw);
        let chosen = if animal.targets(g).len() > 0 {
            at + 1
        } else {
            at
        };
        let young = if animal.kind == FieldType::Shark {
            AnimalStatus::fresh_shark(energy_of(draw_at(draws, chosen)))
        } else {
            AnimalStatus::fresh_fish()
        };
        match animal.next(g, draw) {
            None => {
                lemma_put_keeps(g, Field::water(animal.x, animal.y), rows, columns);
            },
            Some((to, status)) => {
                let left = wake(animal, young);
                let moved = Field { kind: animal.kind, x: to.0, y: to.1, status };
                lemma_put_keeps(g, left, rows, columns);
                lemma_put_keeps(put(g, left), moved, rows, columns);
            },
        }
    }
}

/// A run of turns of animals that stand on the ocean leaves it an ocean.
pub proof fn lemma_turns_keep_ocean(
    g: Seq<Seq<Field>>,
    animals: Seq<Field>,
    draws: Seq<u64>,
    at: nat,
    k: nat,
    rows: nat,
    columns: nat,
)
    requires
        is_ocean(g, rows, columns),
        rows <= u32::MAX,
        columns <= u32::MAX,
        k <= animals.len(),
        forall|i: int|
            0 <= i < k ==> {
                let animal = #[trigger] animals[i];
                animal.wf() && animal.x < columns && animal.y < rows
            },
    ensures
        is_ocean(turns(g, animals, draws, at, k).0, rows, columns),
    decreases k,
{
    if k > 0 {
        lemma_turns_keep_ocean(g, animals, draws, at, (k - 1) as nat, rows, columns);
        let so_far = turns(g, animals, draws, at, (k - 1) as nat);
        let animal = animals[k - 1];
        assert(so_far.0[animal.y as int].len() == columns);
        lemma_turn_keeps_ocean(so_far.0, animal, draws, so_far.1, rows, columns);
    }
}

/// A tick leaves an ocean an ocean: its size stays, every field holds one
/// animal or open water, and fishes and sharks together are never more than
/// the fields.
pub proof fn lemma_tick_keeps_ocean(g: Seq<Seq<Field>>, draws: Seq<u64>, rows: nat, columns: nat)
    requires
        is_ocean(g, rows, columns),
        rows <= u32::MAX,
        columns <= u32::MAX,
    ensures
        is_ocean(tick(g, draws), rows, columns),
        population(tick(g, draws), FieldType::Fish) + population(tick(g, draws), FieldType::Shark)
            <= rows * columns,
{
    let fishes = fields_of(g, FieldType::Fish);
    assert forall|i: int| 0 <= i < fishes.len() implies {
        let animal = #[trigger] fishes[i];
        animal.wf() && animal.x < columns && animal.y < rows
    } by {
        lemma_fields_of_member(g, FieldType::Fish, i);
    }
    lemma_turns_keep_ocean(g, fishes, draws, 0, fishes.len(), rows, columns);
    let swum = turns(g, fishes, draws, 0, fishes.len());
    let sharks = fields_of(swum.0, FieldType::Shark);
    assert forall|i: int| 0 <= i < sharks.len() implies {
        let animal = #[trigger] sharks[i];
        animal.wf() && animal.x < columns && animal.y < rows
    } by {
        lemma_fields_of_member(swum.0, FieldType::Shark, i);
    }
    lemma_turns_keep_ocean(swum.0, sharks, draws, swum.1, sharks.len(), rows, columns);
    lemma_census(tick(g, draws), rows, columns);
}

/// A turn changes at most two fields: the one that the animal stands on, and
/// the one that it goes to, which was open water or, for a shark, a fish, and
/// then holds the animal.
pub proof fn lemma_turn_frame(
    g: Seq<Seq<Field>>,
    animal: Field,
    draws: Seq<u64>,
    at: nat,
    p: Position,
)
    requires
        is_torus(g),
        on_grid(g, animal.at()),
        on_grid(g, p),
        p != animal.at(),
    ensures
        ({
            let after = cell(turn(g, animal, draws, at).0, p);
            let before = cell(g, p);
            ||| after == before
            ||| after.kind == animal.kind && animal.kind != FieldType::Plankton && (before.kind
                == FieldType::Plankton || animal.kind == FieldType::Shark && before.kind
                == FieldType::Fish)
        }),
{
    if animal.kind != FieldType::Plankton {
        let draw = draw_at(draws, at);
        lemma_landing_on_grid(animal, g, draw);
        let chosen = if animal.targets(g).len() > 0 {
            at + 1
        } else {
            at
        };
        let young = if animal.kind == FieldType::Shark {
            AnimalStatus::fresh_shark(energy_of(draw_at(draws, chosen)))
        } else {
            AnimalStatus::fresh_fish()
        };
        match animal.next(g, draw) {
            None => {
                lemma_put_cell(g, Field::water(animal.x, animal.y), p);
            },
            Some((to, status)) => {
                let left = wake(animal, young);
                let moved = Field { kind: animal.kind, x: to.0, y: to.1, status };
                lemma_put_cell(g, left, p);
                lemma_put_cell(g, left, to);
                lemma_put_cell(put(g, left), moved, p);
                if p == to {
                    let targets = animal.targets(g);
                    let i = (draw % targets.len()) as int;
                    if animal.kind == FieldType::Fish || around(
                        g,
                        animal.at(),
                        FieldType::Fish,
                    ).len() == 0 {
                        neighbours(g, animal.at()).lemma_filter_pred(
                            |q: Position| cell(g, q).kind == FieldType::Plankton,
                            i,
                        );
                    } else {
                        neighbours(g, animal.at()).lemma_filter_pred(
                            |q: Position| cell(g, q).kind == FieldType::Fish,
                            i,
                        );
                    }
                }
            },
        }
    }
}

/// While fish take their turns, a field that is not open water and on which
/// none of them stands stays as it is.
pub proof fn lemma_fish_pass_by(
    g: Seq<Seq<Field>>,
    fishes: Seq<Field>,
    draws: Seq<u64>,
    at: nat,
    from: nat,
    k: nat,
    rows: nat,
    columns: nat,
    p: Position,
)
    requires
        is_ocean(g, rows, columns),
        rows <= u32::MAX,
        columns <= u32::MAX,
        from <= k <= fishes.len(),
        forall|i: int|
            0 <= i < k ==> {
                let fish = #[trigger] fishes[i];
                fish.kind == FieldType::Fish && fish.wf() && fish.x < columns && fish.y < rows
            },
        p.0 < columns && p.1 < rows,
        forall|j: int| from <= j < k ==> (#[trigger] fishes[j]).at() != p,
        cell(turns(g, fishes, draws, at, from).0, p).kind != FieldType::Plankton,
    ensures
        cell(turns(g, fishes, draws, at, k).0, p) == cell(
            turns(g, fishes, draws, at, from).0,
            p,
        ),
    decreases k,
{
    if k > from {
        lemma_fish_pass_by(g, fishes, draws, at, from, (k - 1) as nat, rows, columns, p);
        lemma_turns_keep_ocean(g, fishes, draws, at, (k - 1) as nat, rows, columns);
        let so_far = turns(g, fishes, draws, at, (k - 1) as nat);
        let fish = fishes[k - 1];
        assert(so_far.0[fish.y as int].len() == columns);
        assert(so_far.0[p.1 as int].len() == columns);
        assert(so_far.0[0].len() == columns);
        lemma_turn_frame(so_far.0, fish, draws, so_far.1, p);
    }
}

/// While animals take their turns, a field that is not open water and on
/// which none of them stands does not become open water.
pub proof fn lemma_turns_pass_by(
    g: Seq<Seq<Field>>,
    animals: Seq<Field>,
    draws: Seq<u64>,
    at: nat,
    from: nat,
    k: nat,
    rows: nat,
    columns: nat,
    p: Position,
)
    requires
        is_ocean(g, rows, columns),
        rows <= u32::MAX,
        columns <= u32::MAX,
        from <= k <= animals.len(),
        forall|i: int|
            0 <= i < k ==> {
                let animal = #[trigger] animals[i];
                animal.wf() && animal.x < columns && animal.y < rows
            },
        p.0 < columns && p.1 < rows,
        forall|j: int| from <= j < k ==> (#[trigger] animals[j]).at() != p,
        cell(turns(g, animals, draws, at, from).0, p).kind != FieldType::Plankton,
    ensures
        cell(turns(g, animals, draws, at, k).0, p).kind != FieldType::Plankton,
    decreases k,
{
    if k > from {
        lemma_turns_pass_by(g, animals, draws, at, from, (k - 1) as nat, rows, columns, p);
        lemma_turns_keep_ocean(g, animals, draws, at, (k - 1) as nat, rows, columns);
        let so_far = turns(g, animals, draws, at, (k - 1) as nat);
        let animal = animals[k - 1];
        assert(so_far.0[animal.y as int].len() == columns);
        assert(so_far.0[p.1 as int].len() == columns);
        assert(so_far.0[0].len() == columns);
        lemma_turn_frame(so_far.0, animal, draws, so_far.1, p);
    }
}

/// Breeding, seen when the tick is over: the field on which a fish has left
/// its young is not open water then. It holds the young fish, or the shark
/// that has eaten it.
pub proof fn lemma_young_fish_stays(
    g: Seq<Seq<Field>>,
    draws: Seq<u64>,
    rows: nat,
    columns: nat,
    k: int,
)
    requires
        is_ocean(g, rows, columns),
        rows <= u32::MAX,
        columns <= u32::MAX,
        0 <= k < fields_of(g, FieldType::Fish).len(),
        ({
            let fishes = fields_of(g, FieldType::Fish);
            let so_far = turns(g, fishes, draws, 0, k as nat);
            &&& fishes[k].status.unwrap().breeds()
            &&& fishes[k].next(so_far.0, draw_at(draws, so_far.1)) matches Some((to, _)) && to
                != fishes[k].at()
        }),
    ensures
        cell(tick(g, draws), fields_of(g, FieldType::Fish)[k].at()).kind != FieldType::Plankton,
{
    let fishes = fields_of(g, FieldType::Fish);
    let fish = fishes[k];
    let p = fish.at();
    assert forall|i: int| 0 <= i < fishes.len() implies {
        let animal = #[trigger] fishes[i];
        animal.kind == FieldType::Fish && animal.wf() && animal.x < columns && animal.y < rows
    } by {
        lemma_fields_of_member(g, FieldType::Fish, i);
    }
    assert forall|j: int| k + 1 <= j < fishes.len() implies (#[trigger] fishes[j]).at() != p by {
        lemma_fields_of_apart(g, FieldType::Fish, k, j);
    }
    let so_far = turns(g, fishes, draws, 0, k as nat);
    lemma_turns_keep_ocean(g, fishes, draws, 0, k as nat, rows, columns);
    assert(so_far.0[fish.y as int].len() == columns);
    assert(so_far.0[0].len() == columns);
    lemma_breeding(so_far.0, fish, draws, so_far.1);
    assert(turns(g, fishes, draws, 0, (k + 1) as nat) == turn(so_far.0, fish, draws, so_far.1));
    lemma_fish_pass_by(g, fishes, draws, 0, (k + 1) as nat, fishes.len(), rows, columns, p);
    lemma_turns_keep_ocean(g, fishes, draws, 0, fishes.len(), rows, columns);
    let swum = turns(g, fishes, draws, 0, fishes.len());
    assert(cell(swum.0, p).kind == FieldType::Fish);
    let sharks = fields_of(swum.0, FieldType::Shark);
    assert forall|i: int| 0 <= i < sharks.len() implies {
        let animal = #[trigger] sharks[i];
        animal.wf() && animal.x < columns && animal.y < rows && animal.at() != p
    } by {
        lemma_fields_of_member(swum.0, FieldType::Shark, i);
    }
    lemma_turns_pass_by(swum.0, sharks, draws, swum.1, 0, sharks.len(), rows, columns, p);
}

/// Breeding, seen when the tick is over: the field on which a shark has left
/// its young is not open water then.
pub proof fn lemma_young_shark_stays(
    g: Seq<Seq<Field>>,
    draws: Seq<u64>,
    rows: nat,
    columns: nat,
    k: int,
)
    requires
        is_ocean(g, rows, columns),
        rows <= u32::MAX,
        columns <= u32::MAX,
        ({
            let fishes = fields_of(g, FieldType::Fish);
            let swum = turns(g, fishes, draws, 0, fishes.len());
            let sharks = fields_of(swum.0, FieldType::Shark);
            let so_far = turns(swum.0, sharks, draws, swum.1, k as nat);
            &&& 0 <= k < sharks.len()
            &&& sharks[k].status.unwrap().breeds()
            &&& sharks[k].next(so_far.0, draw_at(draws, so_far.1)) matches Some((to, _)) && to
                != sharks[k].at()
        }),
    ensures
        ({
            let fishes = fields_of(g, FieldType::Fish);
            let swum = turns(g, fishes, draws, 0, fishes.len());
            let sharks = fields_of(swum.0, FieldType::Shark);
            cell(tick(g, draws), sharks[k].at()).kind != FieldType::Plankton
        }),
{
    let fishes = fields_of(g, FieldType::Fish);
    assert forall|i: int| 0 <= i < fishes.len() implies {
        let animal = #[trigger] fishes[i];
        animal.wf() && animal.x < columns && animal.y < rows
    } by {
        lemma_fields_of_member(g, FieldType::Fish, i);
    }
    lemma_turns_keep_ocean(g, fishes, draws, 0, fishes.len(), rows, columns);
    let swum = turns(g, fishes, draws, 0, fishes.len());
    let sharks = fields_of(swum.0, FieldType::Shark);
    let shark = sharks[k];
    let p = shark.at();
    assert forall|i: int| 0 <= i < sharks.len() implies {
        let animal = #[trigger] sharks[i];
        animal.wf() && animal.x < columns && animal.y < rows
    } by {
        lemma_fields_of_member(swum.0, FieldType::Shark, i);
    }
    assert forall|j: int| k + 1 <= j < sharks.len() implies (#[trigger] sharks[j]).at() != p by {
        lemma_fields_of_apart(swum.0, FieldType::Shark, k, j);
    }
    let so_far = turns(swum.0, sharks, draws, swum.1, k as nat);
    lemma_turns_keep_ocean(swum.0, sharks, draws, swum.1, k as nat, rows, columns);
    assert(so_far.0[shark.y as int].len() == columns);
    assert(so_far.0[0].len() == columns);
    lemma_breeding(so_far.0, shark, draws, so_far.1);
    assert(turns(swum.0, sharks, draws, swum.1, (k + 1) as nat) == turn(
        so_far.0,
        shark,
        draws,
        so_far.1,
    ));
    lemma_turns_pass_by(
        swum.0,
        sharks,
        draws,
        swum.1,
        (k + 1) as nat,
        sharks.len(),
        rows,
        columns,
        p,
    );
}

} // verus!
