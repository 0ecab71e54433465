//! The cells of the ocean and the animals that live on them.
use crate::chance::random_in;
use crate::model::{around, cell, is_torus, lemma_wraps_around, neighbours, ocean_of, on_grid};
use vstd::prelude::*;

verus! {

/// A place on the grid: the column first, then the row.
pub type Position = (u32, u32);

/// The energy of a shark that has just eaten.
pub const MAX_SHARK_LIFETIME: u32 = 8;

/// The breed counter of a new shark, and of one that has just bred.
pub const SHARK_BREED_TIME: u32 = 8;

/// The breed counter of a new fish, and of one that has just bred.
pub const FISH_BREED_TIME: u32 = 3;

/// Represents a type of a field
#[derive(Clone, Copy, Debug, PartialEq, Eq, Structural)]
pub enum FieldType {
    Shark,
    Fish,
    Plankton,
}

/// The breed counter that an animal of the given kind starts a cycle with.
pub open spec fn breed_time(kind: FieldType) -> nat {
    match kind {
        FieldType::Fish => FISH_BREED_TIME as nat,
        FieldType::Shark => SHARK_BREED_TIME as nat,
        FieldType::Plankton => 0,
    }
}

/// What an animal carries from tick to tick.
#[derive(Clone, Copy, Debug, PartialEq, Eq, Structural)]
pub struct AnimalStatus {
    /// The energy of a shark; a fish has none.
    pub life: Option<u32>,
    /// The ticks left until the animal breeds.
    pub breed_counter: u32,
}

impl AnimalStatus {
    /// The status of a fish that has just been born.
    pub open spec fn fresh_fish() -> AnimalStatus {
        AnimalStatus { life: None, breed_counter: FISH_BREED_TIME }
    }

    /// The status of a shark that has just been born with the given energy.
    pub open spec fn fresh_shark(energy: u32) -> AnimalStatus {
        AnimalStatus { life: Some(energy), breed_counter: SHARK_BREED_TIME }
    }

    /// The animal breeds on its next move.
    pub open spec fn breeds(self) -> bool {
        self.breed_counter == 0
    }

    /// The animal is a shark that has used up its energy.
    pub open spec fn dead(self) -> bool {
        self.life == Some(0u32)
    }

    /// The status after one tick of the breeding clock: a counter at zero
    /// starts a new cycle, and the counter then goes down by one.
    pub open spec fn aged(self, kind: FieldType) -> AnimalStatus {
        let from = if self.breed_counter == 0 {
            breed_time(kind)
        } else {
            self.breed_counter as nat
        };
        AnimalStatus { life: self.life, breed_counter: (from - 1) as u32 }
    }

    /// The status after a meal: a shark is back at full energy.
    pub open spec fn fed(self) -> AnimalStatus {
        match self.life {
            Some(_) => AnimalStatus { life: Some(MAX_SHARK_LIFETIME), ..self },
            None => self,
        }
    }

    /// The status after a tick without a meal: a shark loses one unit of energy.
    pub open spec fn starved(self) -> AnimalStatus {
        match self.life {
            Some(energy) => AnimalStatus { life: Some((energy - 1) as u32), ..self },
            None => self,
        }
    }

    /// What holds of every fish in an ocean.
    pub open spec fn fish_wf(self) -> bool {
        self.life is None && self.breed_counter <= FISH_BREED_TIME
    }

    /// What holds of every shark in an ocean: it is alive, and neither its
    /// energy nor its breed counter is above the value it is reset to.
    pub open spec fn shark_wf(self) -> bool {
        &&& self.life matches Some(energy) && 1 <= energy <= MAX_SHARK_LIFETIME
        &&& self.breed_counter <= SHARK_BREED_TIME
    }

    /// The status of a shark that is born now: its energy is drawn at random
    /// from 1 up to, but not including, the breed time of a shark.
    pub fn new_shark() -> (status: AnimalStatus)
        ensures
            status.breed_counter == SHARK_BREED_TIME,
            status.life matches Some(energy) && 1 <= energy < SHARK_BREED_TIME,
    {
        let energy = random_in(1, SHARK_BREED_TIME as u64);
        AnimalStatus { life: Some(energy as u32), breed_counter: SHARK_BREED_TIME }
    }

    /// The status of a fish that is born now.
    pub fn new_fish() -> (status: AnimalStatus)
        ensures
            status == Self::fresh_fish(),
    {
        AnimalStatus { life: None, breed_counter: FISH_BREED_TIME }
    }

    /// A new shark with the given energy.
    pub fn shark_with(energy: u32) -> (status: AnimalStatus)
        ensures
            status == Self::fresh_shark(energy),
    {
        AnimalStatus { life: Some(energy), breed_counter: SHARK_BREED_TIME }
    }

    /// One tick less until the animal breeds.
    pub fn reduce_breet(&mut self)
        requires
            old(self).breed_counter > 0,
        ensures
            final(self).breed_counter == old(self).breed_counter - 1,
            final(self).life == old(self).life,
    {
        self.breed_counter -= 1;
    }

    /// A shark loses one unit of energy; a fish has none to lose.
    pub fn reduce_life(&mut self)
        requires
            !old(self).dead(),
        ensures
            *final(self) == old(self).starved(),
    {
        if let Some(life) = self.life {
            self.life = Some(life - 1);
        }
    }

    /// A shark is back at full energy; a fish has none.
    pub fn reset_life(&mut self)
        ensures
            *final(self) == old(self).fed(),
    {
        if let Some(_) = self.life {
            self.life = Some(MAX_SHARK_LIFETIME)
        }
    }

    /// The breed counter starts a new cycle, of the length that the kind of
    /// animal has. For open water nothing changes.
    pub fn reset_breed(&mut self, kind: &FieldType)
        ensures
            final(self).life == old(self).life,
            final(self).breed_counter == (if *kind == FieldType::Plankton {
                old(self).breed_counter as nat
            } else {
                breed_time(*kind)
            }),
    {
        match kind {
            FieldType::Fish => self.breed_counter = FISH_BREED_TIME,
            FieldType::Shark => self.breed_counter = SHARK_BREED_TIME,
            _ => (),
        }
    }

    /// A shark without energy is dead. A fish never is.
    pub fn is_dead(&self) -> (dead: bool)
        ensures
            dead == self.dead(),
    {
        if let Some(life) = self.life {
            return life == 0;
        }
        false
    }

    /// The breed counter stands at zero: the animal breeds on its next move.
    pub fn has_to_breed(&self) -> (breeds: bool)
        ensures
            breeds == self.breeds(),
    {
        self.breed_counter == 0
    }

    /// One tick of the breeding clock for an animal of the given kind.
    pub fn age(&self, kind: FieldType) -> (status: AnimalStatus)
        requires
            kind != FieldType::Plankton,
        ensures
            status == self.aged(kind),
    {
        let mut status = *self;
        if status.has_to_breed() {
            status.reset_breed(&kind);
        }
        status.reduce_breet();
        status
    }
}

/// Represents a field on the board
#[derive(Clone, Copy, Debug, PartialEq, Eq, Structural)]
pub struct Field {
    /// What lives on the field.
    pub kind: FieldType,
    /// The column of the field.
    pub x: u32,
    /// The row of the field.
    pub y: u32,
    /// The status of the animal; open water has none.
    pub status: Option<AnimalStatus>,
}

impl Field {
    /// An empty field at the given place.
    pub open spec fn water(x: u32, y: u32) -> Field {
        Field { kind: FieldType::Plankton, x, y, status: None }
    }

    /// A field at the given place that holds an animal.
    pub open spec fn animal(kind: FieldType, at: Position, status: AnimalStatus) -> Field {
        Field { kind, x: at.0, y: at.1, status: Some(status) }
    }

    /// The place of the field.
    pub open spec fn at(self) -> Position {
        (self.x, self.y)
    }

    /// What holds of every field of an ocean: water carries no status, a fish
    /// the status of a fish, a shark that of a living shark.
    pub open spec fn wf(self) -> bool {
        match self.kind {
            FieldType::Plankton => self.status is None,
            FieldType::Fish => self.status matches Some(status) && status.fish_wf(),
            FieldType::Shark => self.status matches Some(status) && status.shark_wf(),
        }
    }

    /// The field can take its turn on the grid. Open water always can. For an
    /// animal the grid can be walked on and holds the animal's place, the
    /// animal has a status, and a shark that finds no fish has energy left to
    /// lose.
    pub open spec fn ready(self, g: Seq<Seq<Field>>) -> bool {
        self.kind != FieldType::Plankton ==> {
            &&& is_torus(g)
            &&& on_grid(g, self.at())
            &&& self.status is Some
            &&& self.kind == FieldType::Shark && around(g, self.at(), FieldType::Fish).len() == 0
                ==> !self.status.unwrap().dead()
        }
    }

    /// The places among which the animal chooses where to go. A fish chooses
    /// among the free neighbours. A shark chooses among the neighbours that
    /// hold a fish; where there is none, among the free ones, unless it starves
    /// this turn.
    pub open spec fn targets(self, g: Seq<Seq<Field>>) -> Seq<Position> {
        match self.kind {
            FieldType::Plankton => Seq::empty(),
            FieldType::Fish => around(g, self.at(), FieldType::Plankton),
            FieldType::Shark => {
                let prey = around(g, self.at(), FieldType::Fish);
                if prey.len() > 0 {
                    prey
                } else if self.status.unwrap().aged(FieldType::Shark).starved().dead() {
                    Seq::empty()
                } else {
                    around(g, self.at(), FieldType::Plankton)
                }
            },
        }
    }

    /// Where the animal goes: to the target that the draw selects, and nowhere
    /// if it has no target.
    pub open spec fn landing(self, g: Seq<Seq<Field>>, draw: nat) -> Position {
        let targets = self.targets(g);
        if targets.len() == 0 {
            self.at()
        } else {
            targets[(draw % targets.len()) as int]
        }
    }

    /// The turn of a fish: its breeding clock ticks, and it swims to the free
    /// neighbour that the draw selects, or stays where none is free.
    pub open spec fn next_fish(self, g: Seq<Seq<Field>>, draw: nat) -> (Position, Option<
        AnimalStatus,
    >) {
        (self.landing(g, draw), Some(self.status.unwrap().aged(self.kind)))
    }

    /// The turn of a shark: its breeding clock ticks. With a fish next to it,
    /// it moves onto the fish that the draw selects and is back at full energy.
    /// Otherwise it loses one unit of energy; with none left it dies, which is
    /// `None`, and else it swims on like a fish.
    pub open spec fn next_shark(self, g: Seq<Seq<Field>>, draw: nat) -> Option<
        (Position, AnimalStatus),
    > {
        let aged = self.status.unwrap().aged(self.kind);
        if around(g, self.at(), FieldType::Fish).len() > 0 {
            Some((self.landing(g, draw), aged.fed()))
        } else if aged.starved().dead() {
            None
        } else {
            Some((self.landing(g, draw), aged.starved()))
        }
    }

    /// The turn of whatever lives on the field. Open water stays as it is.
    pub open spec fn next(self, g: Seq<Seq<Field>>, draw: nat) -> Option<
        (Position, Option<AnimalStatus>),
    > {
        match self.kind {
            FieldType::Plankton => Some((self.at(), None)),
            FieldType::Fish => Some(self.next_fish(g, draw)),
            FieldType::Shark => match self.next_shark(g, draw) {
                Some((to, status)) => Some((to, Some(status))),
                None => None,
            },
        }
    }

    /// Creates a new field
    ///
    /// # Arguments
    /// * `kind` - The type of the field
    /// * `x` - The x coordinate of the field
    /// * `y` - The y coordinate of the field
    /// * `status` - The status of the animal; without one, an animal is born
    ///   now, and a shark then draws its energy at random
    pub fn new(kind: FieldType, x: u32, y: u32, status: Option<AnimalStatus>) -> (field: Field)
        ensures
            field.kind == kind,
            field.x == x,
            field.y == y,
            status is Some ==> field.status == status,
            status is None ==> match kind {
                FieldType::Plankton => field.status is None,
                FieldType::Fish => field.status == Some(AnimalStatus::fresh_fish()),
                FieldType::Shark => field.status matches Some(born) && born.breed_counter
                    == SHARK_BREED_TIME && (born.life matches Some(energy) && 1 <= energy
                    < SHARK_BREED_TIME),
            },
    {
        if let Some(status) = status {
            return Field { kind, x, y, status: Some(status) };
        }
        match kind {
            FieldType::Fish => Field { kind, x, y, status: Some(AnimalStatus::new_fish()) },
            FieldType::Shark => Field { kind, x, y, status: Some(AnimalStatus::new_shark()) },
            FieldType::Plankton => Field { kind, x, y, status: None },
        }
    }

    /// Finds the next position and status of the field, choosing at random
    /// among the places it can go to.
    ///
    /// # Arguments
    /// * `animals` - The board as it stands
    ///
    /// # Returns
    /// The new position and status, or `None` for a shark that starves
    pub fn step(&self, animals: &Vec<Vec<Field>>) -> (next: Option<
        (Position, Option<AnimalStatus>),
    >)
        requires
            self.ready(ocean_of(animals@)),
        ensures
            exists|draw: nat| next == #[trigger] self.next(ocean_of(animals@), draw),
            self.targets(ocean_of(animals@)).len() == 0 ==> next == self.next(
                ocean_of(animals@),
                0,
            ),
            next is None <==> self.next(ocean_of(animals@), 0) is None,
            next matches Some((to, _)) ==> to == self.landing(ocean_of(animals@), 0)
                || self.targets(ocean_of(animals@)).contains(to),
    {
        let targets = self.find_targets(animals);
        let draw = if targets.len() > 0 {
            random_in(0, targets.len() as u64)
        } else {
            0
        };
        let next = self.step_with(animals, draw);
        assert(next == self.next(ocean_of(animals@), draw as nat));
        next
    }

    /// Finds the next position and status of the field, with the choice among
    /// the places it can go to made by `draw`.
    pub fn step_with(&self, animals: &Vec<Vec<Field>>, draw: u64) -> (next: Option<
        (Position, Option<AnimalStatus>),
    >)
        requires
            self.ready(ocean_of(animals@)),
        ensures
            next == self.next(ocean_of(animals@), draw as nat),
    {
        match self.kind {
            FieldType::Fish => Some(self.get_next_fish_position(animals, draw)),
            FieldType::Shark => match self.get_next_shark_position(animals, draw) {
                Some((to, status)) => Some((to, Some(status))),
                None => None,
            },
            _ => Some(((self.x, self.y), None)),
        }
    }

    /// The turn of a fish, with the choice among its free neighbours made by
    /// `draw`.
    pub fn get_next_fish_position(&self, animals: &Vec<Vec<Field>>, draw: u64) -> (next: (
        Position,
        Option<AnimalStatus>,
    ))
        requires
            self.ready(ocean_of(animals@)),
            self.kind == FieldType::Fish,
        ensures
            next == self.next_fish(ocean_of(animals@), draw as nat),
    {
        let new_status = self.status.unwrap().age(self.kind);
        let possible_moves = self.look_around(animals, FieldType::Plankton);
        if possible_moves.len() == 0 {
            return ((self.x, self.y), Some(new_status));
        }
        let move_index = (draw % (possible_moves.len() as u64)) as usize;
        (possible_moves[move_index], Some(new_status))
    }

    /// The turn of a shark, with the choice among the fish next to it, or
    /// else among its free neighbours, made by `draw`.
    pub fn get_next_shark_position(&self, animals: &Vec<Vec<Field>>, draw: u64) -> (next: Option<
        (Position, AnimalStatus),
    >)
        requires
            self.ready(ocean_of(animals@)),
            self.kind == FieldType::Shark,
        ensures
            next == self.next_shark(ocean_of(animals@), draw as nat),
    {
        let mut new_status = self.status.unwrap().age(self.kind);
        let prioritized_moves = self.look_around(animals, FieldType::Fish);
        let possible_moves = self.look_around(animals, FieldType::Plankton);

        // If prioritized_moves is not empty then select a move from it
        if prioritized_moves.len() > 0 {
            let index = (draw % (prioritized_moves.len() as u64)) as usize;
            new_status.reset_life();
            return Some((prioritized_moves[index], new_status));
        }
        // Shark did not get any food so its life gets reduced

        new_status.reduce_life();
        if new_status.is_dead() {
            return None;
        }
        if possible_moves.len() == 0 {
            return Some(((self.x, self.y), new_status));
        }
        let index = (draw % (possible_moves.len() as u64)) as usize;
        Some((possible_moves[index], new_status))
    }

    /// The places among which the field chooses where to go.
    pub fn find_targets(&self, animals: &Vec<Vec<Field>>) -> (targets: Vec<Position>)
        requires
            self.ready(ocean_of(animals@)),
        ensures
            targets@ == self.targets(ocean_of(animals@)),
            targets.len() <= 4,
    {
        proof {
            lemma_around_len(ocean_of(animals@), self.at(), FieldType::Fish);
            lemma_around_len(ocean_of(animals@), self.at(), FieldType::Plankton);
        }
        match self.kind {
            FieldType::Plankton => Vec::new(),
            FieldType::Fish => self.look_around(animals, FieldType::Plankton),
            FieldType::Shark => {
                let prey = self.look_around(animals, FieldType::Fish);
                if prey.len() > 0 {
                    return prey;
                }
                let mut status = self.status.unwrap().age(self.kind);
                status.reduce_life();
                if status.is_dead() {
                    Vec::new()
                } else {
                    self.look_around(animals, FieldType::Plankton)
                }
            },
        }
    }

    /// The neighbours of the field that hold the given kind, in the order
    /// above, below, left, right.
    pub fn look_around(&self, animals: &Vec<Vec<Field>>, kind: FieldType) -> (found: Vec<
        Position,
    >)
        requires
            is_torus(ocean_of(animals@)),
            on_grid(ocean_of(animals@), self.at()),
        ensures
            found@ == around(ocean_of(animals@), self.at(), kind),
    {
        let ghost g = ocean_of(animals@);
        let ghost wanted = |q: Position| cell(g, q).kind == kind;
        proof {
            lemma_wraps_around(g, self.at());
        }
        let rows = animals.len() as u64;
        let columns = animals[0].len() as u64;
        let x = self.x as u64;
        let y = self.y as u64;
        let up = (self.x, ((y + rows - 1) % rows) as u32);
        let down = (self.x, ((y + 1) % rows) as u32);
        let left = (((x + columns - 1) % columns) as u32, self.y);
        let right = (((x + 1) % columns) as u32, self.y);
        let near = vec![up, down, left, right];
        assert(near@ =~= neighbours(g, self.at()));
        let mut found: Vec<Position> = Vec::new();
        let mut i: usize = 0;
        assert(near@.take(0).filter(wanted) =~= Seq::<Position>::empty()) by {
            reveal(Seq::filter);
        }
        while i < 4
            invariant
                i <= 4,
                near.len() == 4,
                g == ocean_of(animals@),
                is_torus(g),
                forall|j: int| 0 <= j < 4 ==> on_grid(g, #[trigger] near@[j]),
                wanted == |q: Position| cell(g, q).kind == kind,
                found@ == near@.take(i as int).filter(wanted),
            decreases 4 - i,
        {
            let q = near[i];
            assert(on_grid(g, near@[i as int]));
            assert(g[q.1 as int] == animals@[q.1 as int]@);
            proof {
                near@.take(i as int).lemma_filter_push(q, wanted);
                assert(near@.take(i + 1) =~= near@.take(i as int).push(q));
            }
            if animals[q.1 as usize][q.0 as usize].check_field_for_type(kind) {
                found.push(q);
            }
            i = i + 1;
        }
        assert(near@.take(4) =~= near@);
        found
    }

    /// Check if the field has a specific type
    ///
    /// # Arguments
    /// * `kind` - The type to check
    ///
    /// # Returns
    /// `true` if the field has the type, `false` otherwise
    pub fn check_field_for_type(&self, kind: FieldType) -> (same: bool)
        ensures
            same == (self.kind == kind),
    {
        self.kind == kind
    }

    /// Check if the field is empty
    pub fn check_field_empty(&self) -> (empty: bool)
        ensures
            empty == (self.kind == FieldType::Plankton),
    {
        self.check_field_for_type(FieldType::Plankton)
    }

    /// The character that stands for the field in a picture of the board.
    pub fn symbol(&self) -> (symbol: char)
        ensures
            symbol == match self.kind {
                FieldType::Plankton => '_',
                FieldType::Fish => 'F',
                FieldType::Shark => 'S',
            },
    {
        match self.kind {
            FieldType::Plankton => '_',
            FieldType::Fish => 'F',
            FieldType::Shark => 'S',
        }
    }
}

/// A place has at most four neighbours of a kind.
pub proof fn lemma_around_len(g: Seq<Seq<Field>>, p: Position, kind: FieldType)
    ensures
        around(g, p, kind).len() <= 4,
{
    neighbours(g, p).lemma_filter_len(|q: Position| cell(g, q).kind == kind);
}

/// An animal lands on the grid.
pub proof fn lemma_landing_on_grid(animal: Field, g: Seq<Seq<Field>>, draw: nat)
    requires
        is_torus(g),
        on_grid(g, animal.at()),
    ensures
        on_grid(g, animal.landing(g, draw)),
{
    let targets = animal.targets(g);
    if targets.len() > 0 {
        let i = (draw % targets.len()) as int;
        let near = neighbours(g, animal.at());
        let kind = if animal.kind == FieldType::Fish {
            FieldType::Plankton
        } else if around(g, animal.at(), FieldType::Fish).len() > 0 {
            FieldType::Fish
        } else {
            FieldType::Plankton
        };
        let wanted = |q: Position| cell(g, q).kind == kind;
        assert(targets == near.filter(wanted));
        assert(near.filter(wanted).contains(targets[i]));
        near.lemma_filter_contains_rev(wanted, targets[i]);
        lemma_wraps_around(g, animal.at());
    }
}

/// An animal looks at all four of its neighbours, across the borders of the
/// grid too: a neighbour that holds what the animal looks for is found.
pub proof fn lemma_looks_across(g: Seq<Seq<Field>>, p: Position, kind: FieldType, i: int)
    requires
        0 <= i < 4,
        cell(g, neighbours(g, p)[i]).kind == kind,
    ensures
        around(g, p, kind).contains(neighbours(g, p)[i]),
{
    let wanted = |q: Position| cell(g, q).kind == kind;
    neighbours(g, p).lemma_filter_contains(wanted, i);
}

/// A fish in the first row takes the field of the last row in its column for
/// the one above it, and a fish in the last column the field of the first
/// column in its row for the one to its right: where that field is free, the
/// fish may swim there.
pub proof fn lemma_fish_wraps(fish: Field, g: Seq<Seq<Field>>)
    requires
        is_torus(g),
        on_grid(g, fish.at()),
        fish.kind == FieldType::Fish,
    ensures
        fish.y == 0 && cell(g, (fish.x, (g.len() - 1) as u32)).kind == FieldType::Plankton
            ==> fish.targets(g).contains((fish.x, (g.len() - 1) as u32)),
        fish.x == g[0].len() - 1 && cell(g, (0u32, fish.y)).kind == FieldType::Plankton
            ==> fish.targets(g).contains((0u32, fish.y)),
{
    lemma_wraps_around(g, fish.at());
    if fish.y == 0 && cell(g, (fish.x, (g.len() - 1) as u32)).kind == FieldType::Plankton {
        lemma_looks_across(g, fish.at(), FieldType::Plankton, 0);
    }
    if fish.x == g[0].len() - 1 && cell(g, (0u32, fish.y)).kind == FieldType::Plankton {
        lemma_looks_across(g, fish.at(), FieldType::Plankton, 3);
    }
}

} // verus!
