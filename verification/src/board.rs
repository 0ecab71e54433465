//! Contains the board struct. A board contains all the necessary information and controls the simulation.
use crate::chance::{agree, draw_at, Dice};
use crate::field::{lemma_landing_on_grid, AnimalStatus, Field, FieldType, SHARK_BREED_TIME};
use crate::model::{
    before, blank, cell, charted, fields_of, is_grid, is_ocean, lemma_before_count,
    lemma_before_row, lemma_before_step, lemma_blank, lemma_census, lemma_fields_of_member,
    lemma_put_keeps, ocean_of, on_grid, population, put,
};
use crate::tick::{
    energy_of, lemma_seeded_counts, lemma_sow_agrees, lemma_sow_counts, lemma_turns_agree,
    nursery, plant, seeded, sow, tick, tick_from, turn, turns,
};
use crate::SimulationError;
use vstd::prelude::*;

verus! {

/// What a board is to the rules: its size, the animals it starts with, and
/// its ocean. Until the board has been seeded the ocean has no rows.
pub struct BoardView {
    pub amount_fishes: nat,
    pub amount_sharks: nat,
    pub rows: nat,
    pub columns: nat,
    pub fields: Seq<Seq<Field>>,
}

impl BoardView {
    /// The board has room for its animals, its number of fields fits into 32
    /// bits, and its ocean, once seeded, has the board's size and holds only
    /// fields that know their places and are well formed.
    pub open spec fn wf(self) -> bool {
        &&& self.rows * self.columns <= u32::MAX
        &&& self.amount_fishes + self.amount_sharks <= self.rows * self.columns
        &&& self.fields.len() == 0 || is_grid(self.fields, self.rows, self.columns)
        &&& charted(self.fields)
    }

    /// The board with another ocean.
    pub open spec fn with(self, fields: Seq<Seq<Field>>) -> BoardView {
        BoardView { fields, ..self }
    }
}

/// Holds all the fields and information of the simulation
#[derive(Debug, PartialEq, Eq)]
pub struct Board {
    amount_fishes: u32,
    amount_sharks: u32,
    rows: u32,
    columns: u32,
    fields: Vec<Vec<Field>>,
}

impl View for Board {
    type V = BoardView;

    closed spec fn view(&self) -> BoardView {
        BoardView {
            amount_fishes: self.amount_fishes as nat,
            amount_sharks: self.amount_sharks as nat,
            rows: self.rows as nat,
            columns: self.columns as nat,
            fields: ocean_of(self.fields@),
        }
    }
}

impl Board {
    /// The board is well formed. Every board that this library hands out is.
    pub open spec fn wf(&self) -> bool {
        self@.wf()
    }

    /// Creates a new board
    ///
    /// # Arguments
    /// * `rows` - The amount of rows
    /// * `columns` - The amount of columns
    /// * `amount_fishes` - The amount of fishes that are placed on the board initially
    /// * `amount_sharks` - The amount of sharks that are placed on the board initially
    ///
    /// The animals must fit on the board, and the number of its fields into
    /// 32 bits; `try_new` tests both.
    pub fn new(amount_fishes: u32, amount_sharks: u32, rows: u32, columns: u32) -> (board: Self)
        requires
            rows * columns <= u32::MAX,
            amount_fishes + amount_sharks <= rows * columns,
        ensures
            board.wf(),
            board@ == (BoardView {
                amount_fishes: amount_fishes as nat,
                amount_sharks: amount_sharks as nat,
                rows: rows as nat,
                columns: columns as nat,
                fields: Seq::empty(),
            }),
    {
        let board = Board {
            amount_fishes,
            amount_sharks,
            rows,
            columns,
            fields: Vec::with_capacity((amount_fishes + amount_sharks) as usize),
        };
        assert(board@.fields =~= Seq::empty());
        board
    }

    /// Creates a new board if the animals fit on it: there is none with more
    /// fishes and sharks than fields, and none with more fields than 32 bits
    /// can count.
    pub fn try_new(amount_fishes: u32, amount_sharks: u32, rows: u32, columns: u32) -> (board:
        Option<Self>)
        ensures
            board is Some <==> rows * columns <= u32::MAX && amount_fishes + amount_sharks <= rows
                * columns,
            board matches Some(b) ==> b.wf() && b@ == (BoardView {
                amount_fishes: amount_fishes as nat,
                amount_sharks: amount_sharks as nat,
                rows: rows as nat,
                columns: columns as nat,
                fields: Seq::empty(),
            }),
    {
        assert(rows * columns <= 0xffff_ffff * 0xffff_ffff) by (nonlinear_arith)
            requires
                rows <= 0xffff_ffff,
                columns <= 0xffff_ffff,
        ;
        let room = (rows as u64) * (columns as u64);
        let animals = (amount_fishes as u64) + (amount_sharks as u64);
        if room > u32::MAX as u64 || animals > room {
            None
        } else {
            Some(Board::new(amount_fishes, amount_sharks, rows, columns))
        }
    }

    /// The amount of rows
    pub fn rows(&self) -> (rows: u32)
        ensures
            rows == self@.rows,
    {
        self.rows
    }

    /// The amount of columns
    pub fn columns(&self) -> (columns: u32)
        ensures
            columns == self@.columns,
    {
        self.columns
    }

    /// The fields of the board, row by row; none before the board is seeded.
    pub fn fields(&self) -> (fields: &Vec<Vec<Field>>)
        ensures
            ocean_of(fields@) == self@.fields,
    {
        &self.fields
    }

    /// The field in column `x` of row `y`, if the board has one there.
    pub fn field(&self, x: u32, y: u32) -> (field: Option<Field>)
        ensures
            field is Some <==> on_grid(self@.fields, (x, y)),
            field matches Some(found) ==> found == cell(self@.fields, (x, y)),
    {
        if (y as usize) < self.fields.len() && (x as usize) < self.fields[y as usize].len() {
            Some(self.fields[y as usize][x as usize])
        } else {
            None
        }
    }

    /// The fishes of an ocean in reading order.
    pub fn get_fishes(animals: &Vec<Vec<Field>>) -> (fishes: Vec<Field>)
        ensures
            fishes@ == fields_of(ocean_of(animals@), FieldType::Fish),
    {
        Self::collect(animals, FieldType::Fish)
    }

    /// The sharks of an ocean in reading order.
    pub fn get_sharks(animals: &Vec<Vec<Field>>) -> (sharks: Vec<Field>)
        ensures
            sharks@ == fields_of(ocean_of(animals@), FieldType::Shark),
    {
        Self::collect(animals, FieldType::Shark)
    }

    /// The fields of one kind in reading order.
    pub fn collect(animals: &Vec<Vec<Field>>, kind: FieldType) -> (found: Vec<Field>)
        ensures
            found@ == fields_of(ocean_of(animals@), kind),
    {
        let ghost g = ocean_of(animals@);
        let ghost wanted = |f: Field| f.kind == kind;
        let mut found: Vec<Field> = Vec::new();
        let mut r: usize = 0;
        proof {
            reveal(Seq::filter);
            assert(g.take(0) =~= Seq::<Seq<Field>>::empty());
            assert(g.take(0).flatten() =~= Seq::<Field>::empty());
        }
        while r < animals.len()
            invariant
                r <= animals.len(),
                g == ocean_of(animals@),
                wanted == |f: Field| f.kind == kind,
                found@ == g.take(r as int).flatten().filter(wanted),
            decreases animals.len() - r,
        {
            let row = &animals[r];
            let mut c: usize = 0;
            assert(before(g, r as int, 0) =~= g.take(r as int).flatten());
            while c < row.len()
                invariant
                    r < animals.len(),
                    c <= row.len(),
                    *row == animals@[r as int],
                    g == ocean_of(animals@),
                    wanted == |f: Field| f.kind == kind,
                    found@ == before(g, r as int, c as int).filter(wanted),
                decreases row.len() - c,
            {
                proof {
                    lemma_before_step(g, r as int, c as int);
                    before(g, r as int, c as int).lemma_filter_push(row@[c as int], wanted);
                }
                if row[c].check_field_for_type(kind) {
                    found.push(row[c]);
                }
                c = c + 1;
            }
            proof {
                lemma_before_row(g, r as int);
            }
            r = r + 1;
        }
        assert(g.take(r as int) =~= g);
        found
    }

    /// Count the animals that are currently on the board
    pub fn count_animals(&self) -> (count: (u32, u32))
        requires
            self.wf(),
        ensures
            count.0 == population(self@.fields, FieldType::Fish),
            count.1 == population(self@.fields, FieldType::Shark),
            count.0 + count.1 <= self@.rows * self@.columns,
    {
        let ghost g = ocean_of(self.fields@);
        let ghost fish = |f: Field| f.kind == FieldType::Fish;
        let ghost shark = |f: Field| f.kind == FieldType::Shark;
        let mut fishes: u32 = 0;
        let mut sharks: u32 = 0;
        let mut r: usize = 0;
        proof {
            reveal(Seq::filter);
            assert(g.take(0) =~= Seq::<Seq<Field>>::empty());
            assert(g.take(0).flatten() =~= Seq::<Field>::empty());
            if g.len() > 0 {
                lemma_census(g, self@.rows, self@.columns);
            } else {
                assert(g.flatten() =~= Seq::<Field>::empty());
            }
        }
        while r < self.fields.len()
            invariant
                r <= self.fields.len(),
                g == ocean_of(self.fields@),
                fish == |f: Field| f.kind == FieldType::Fish,
                shark == |f: Field| f.kind == FieldType::Shark,
                population(g, FieldType::Fish) <= u32::MAX,
                population(g, FieldType::Shark) <= u32::MAX,
                fishes == g.take(r as int).flatten().filter(fish).len(),
                sharks == g.take(r as int).flatten().filter(shark).len(),
            decreases self.fields.len() - r,
        {
            let row = &self.fields[r];
            let mut c: usize = 0;
            assert(before(g, r as int, 0) =~= g.take(r as int).flatten());
            while c < row.len()
                invariant
                    r < self.fields.len(),
                    c <= row.len(),
                    *row == self.fields@[r as int],
                    g == ocean_of(self.fields@),
                    fish == |f: Field| f.kind == FieldType::Fish,
                    shark == |f: Field| f.kind == FieldType::Shark,
                    population(g, FieldType::Fish) <= u32::MAX,
                    population(g, FieldType::Shark) <= u32::MAX,
                    fishes == before(g, r as int, c as int).filter(fish).len(),
                    sharks == before(g, r as int, c as int).filter(shark).len(),
                decreases row.len() - c,
            {
                proof {
                    lemma_before_step(g, r as int, c as int);
                    before(g, r as int, c as int).lemma_filter_push(row@[c as int], fish);
                    before(g, r as int, c as int).lemma_filter_push(row@[c as int], shark);
                    lemma_before_count(g, r as int, c + 1, FieldType::Fish);
                    lemma_before_count(g, r as int, c + 1, FieldType::Shark);
                }
                match row[c].kind {
                    FieldType::Fish => fishes += 1,
                    FieldType::Shark => sharks += 1,
                    _ => (),
                }
                c = c + 1;
            }
            proof {
                lemma_before_row(g, r as int);
            }
            r = r + 1;
        }
        assert(g.take(r as int) =~= g);
        (fishes, sharks)
    }

    /// Replaces the field at the place that the new field names.
    fn put(&mut self, field: Field)
        requires
            old(self).wf(),
            on_grid(old(self)@.fields, field.at()),
            field.wf(),
        ensures
            final(self).wf(),
            final(self)@ == old(self)@.with(put(old(self)@.fields, field)),
            is_grid(final(self)@.fields, old(self)@.rows, old(self)@.columns),
    {
        proof {
            lemma_put_keeps(self@.fields, field, self@.rows, self@.columns);
        }
        self.fields[field.y as usize][field.x as usize] = field;
        assert(self@.fields =~= put(old(self)@.fields, field));
    }

    /// The energy of a shark that is born now.
    fn energy(dice: &mut Dice) -> (energy: u32)
        requires
            old(dice).wf(),
        ensures
            final(dice).wf(),
            final(dice).used() == old(dice).used() + 1,
            energy == energy_of(draw_at(final(dice).source(), old(dice).used())),
            agree(old(dice).source(), final(dice).source(), old(dice).used()),
            final(dice).scripted() == old(dice).scripted(),
            old(dice).scripted() ==> final(dice).source() == old(dice).source(),
    {
        let span = (SHARK_BREED_TIME - 1) as u64;
        (1 + dice.roll(span) % span) as u32
    }

    /// The animals of a list take their turns, one after the other, each
    /// against the ocean as the turns before it have left it.
    fn run(&mut self, animals: &Vec<Field>, dice: &mut Dice)
        requires
            old(self).wf(),
            is_grid(old(self)@.fields, old(self)@.rows, old(self)@.columns),
            old(dice).wf(),
            forall|i: int|
                0 <= i < animals.len() ==> {
                    let animal = #[trigger] animals[i];
                    &&& animal.kind != FieldType::Plankton
                    &&& animal.wf()
                    &&& animal.x < old(self)@.columns
                    &&& animal.y < old(self)@.rows
                },
        ensures
            final(self).wf(),
            final(self)@ == old(self)@.with(final(self)@.fields),
            is_grid(final(self)@.fields, old(self)@.rows, old(self)@.columns),
            final(dice).wf(),
            final(dice).scripted() == old(dice).scripted(),
            old(dice).scripted() ==> final(dice).source() == old(dice).source(),
            agree(old(dice).source(), final(dice).source(), old(dice).used()),
            old(dice).used() <= final(dice).used(),
            (final(self)@.fields, final(dice).used()) == turns(
                old(self)@.fields,
                animals@,
                final(dice).source(),
                old(dice).used(),
                animals.len() as nat,
            ),
    {
        let ghost start = self@.fields;
        let ghost first = dice.used();
        let mut k: usize = 0;
        while k < animals.len()
            invariant
                k <= animals.len(),
                self.wf(),
                self@ == old(self)@.with(self@.fields),
                is_grid(self@.fields, self@.rows, self@.columns),
                dice.wf(),
                dice.scripted() == old(dice).scripted(),
                old(dice).scripted() ==> dice.source() == old(dice).source(),
                agree(old(dice).source(), dice.source(), first),
                first == old(dice).used(),
                first <= dice.used(),
                start == old(self)@.fields,
                forall|i: int|
                    0 <= i < animals.len() ==> {
                        let animal = #[trigger] animals[i];
                        &&& animal.kind != FieldType::Plankton
                        &&& animal.wf()
                        &&& animal.x < self@.columns
                        &&& animal.y < self@.rows
                    },
                (self@.fields, dice.used()) == turns(start, animals@, dice.source(), first, k as nat),
            decreases animals.len() - k,
        {
            let animal = animals[k];
            let ghost g = self@.fields;
            let ghost at = dice.used();
            let ghost before_turn = dice.source();
            assert(g[animal.y as int].len() == self@.columns);
            assert(g[0].len() == self@.columns);
            let targets = animal.find_targets(&self.fields);
            let draw = if targets.len() > 0 {
                dice.roll(targets.len() as u64)
            } else {
                0
            };
            let ghost after_choice = dice.source();
            proof {
                lemma_landing_on_grid(animal, g, draw as nat);
            }
            match animal.step_with(&self.fields, draw) {
                Some((to, status)) => {
                    let left = if animal.status.unwrap().has_to_breed() {
                        let young = match animal.kind {
                            FieldType::Shark => AnimalStatus::shark_with(Self::energy(dice)),
                            _ => AnimalStatus::new_fish(),
                        };
                        Field::new(animal.kind, animal.x, animal.y, Some(young))
                    } else {
                        Field::new(FieldType::Plankton, animal.x, animal.y, None)
                    };
                    self.put(left);
                    self.put(Field::new(animal.kind, to.0, to.1, status));
                },
                None => {
                    self.put(Field::new(FieldType::Plankton, animal.x, animal.y, None));
                },
            }
            proof {
                let now = dice.source();
                assert(agree(before_turn, now, at));
                lemma_turns_agree(start, animals@, before_turn, now, first, k as nat);
                if targets.len() > 0 {
                    assert(draw_at(now, at) == draw_at(after_choice, at));
                }
                assert((self@.fields, dice.used()) == turn(g, animal, now, at));
            }
            k = k + 1;
        }
    }

    /// One tick with the draws of the given source.
    fn advance(&mut self, dice: &mut Dice) -> (result: Result<(), SimulationError>)
        requires
            old(self).wf(),
            old(dice).wf(),
        ensures
            final(self).wf(),
            final(dice).wf(),
            final(dice).scripted() == old(dice).scripted(),
            old(dice).scripted() ==> final(dice).source() == old(dice).source(),
            result is Err <==> population(old(self)@.fields, FieldType::Fish) == 0 || population(
                old(self)@.fields,
                FieldType::Shark,
            ) == 0,
            result matches Err(error) ==> *final(self) == *old(self) && error.0@
                == "No fishes or sharks left on the board"@,
            result is Ok ==> final(self)@ == old(self)@.with(final(self)@.fields) && (
                final(self)@.fields,
                final(dice).used(),
            ) == tick_from(old(self)@.fields, final(dice).source(), old(dice).used()),
    {
        let ghost start = self@.fields;
        let ghost first = dice.used();
        let fishes = Self::get_fishes(&self.fields);
        let sharks = Self::get_sharks(&self.fields);

        if fishes.len() == 0 || sharks.len() == 0 {
            return Err(SimulationError("No fishes or sharks left on the board".to_owned()));
        }
        assert forall|i: int| 0 <= i < fishes.len() implies {
            let animal = #[trigger] fishes[i];
            &&& animal.kind != FieldType::Plankton
            &&& animal.wf()
            &&& animal.x < self@.columns
            &&& animal.y < self@.rows
        } by {
            lemma_fields_of_member(start, FieldType::Fish, i);
        }
        self.run(&fishes, dice);

        // The sharks take their turns on the ocean as the fish have left it.
        let ghost swum = self@.fields;
        let ghost after_fish = dice.source();
        let sharks = Self::get_sharks(&self.fields);
        assert forall|i: int| 0 <= i < sharks.len() implies {
            let animal = #[trigger] sharks[i];
            &&& animal.kind != FieldType::Plankton
            &&& animal.wf()
            &&& animal.x < self@.columns
            &&& animal.y < self@.rows
        } by {
            lemma_fields_of_member(swum, FieldType::Shark, i);
        }
        self.run(&sharks, dice);
        proof {
            lemma_turns_agree(
                start,
                fishes@,
                after_fish,
                dice.source(),
                first,
                fishes.len() as nat,
            );
        }
        Ok(())
    }

    /// Simulates one step of the simulation, with every choice made at
    /// random: the board then stands as one tick leaves it for some script of
    /// draws.
    ///
    /// # Errors
    /// If there are no sharks or fishes on the board; the board then stays
    /// as it is.
    pub fn step(&mut self) -> (result: Result<(), SimulationError>)
        requires
            old(self).wf(),
        ensures
            final(self).wf(),
            result is Err <==> population(old(self)@.fields, FieldType::Fish) == 0 || population(
                old(self)@.fields,
                FieldType::Shark,
            ) == 0,
            result matches Err(error) ==> *final(self) == *old(self) && error.0@
                == "No fishes or sharks left on the board"@,
            result is Ok ==> exists|draws: Seq<u64>|
                final(self)@ == old(self)@.with(#[trigger] tick(old(self)@.fields, draws)),
    {
        let mut dice = Dice::live();
        let result = self.advance(&mut dice);
        proof {
            if result is Ok {
                assert(self@ == old(self)@.with(tick(old(self)@.fields, dice.source())));
            }
        }
        result
    }

    /// Simulates one step of the simulation, with the choices made by the
    /// given script of draws.
    ///
    /// # Errors
    /// If there are no sharks or fishes on the board; the board then stays
    /// as it is.
    pub fn step_with(&mut self, draws: &Vec<u64>) -> (result: Result<(), SimulationError>)
        requires
            old(self).wf(),
        ensures
            final(self).wf(),
            result is Err <==> population(old(self)@.fields, FieldType::Fish) == 0 || population(
                old(self)@.fields,
                FieldType::Shark,
            ) == 0,
            result matches Err(error) ==> *final(self) == *old(self) && error.0@
                == "No fishes or sharks left on the board"@,
            result is Ok ==> final(self)@ == old(self)@.with(tick(old(self)@.fields, draws@)),
    {
        let mut dice = Dice::replay(draws);
        self.advance(&mut dice)
    }

    /// An ocean of open water.
    pub fn open_water(rows: u32, columns: u32) -> (animals: Vec<Vec<Field>>)
        ensures
            ocean_of(animals@) == blank(rows as nat, columns as nat),
    {
        let mut animals: Vec<Vec<Field>> = Vec::new();
        let mut y: u32 = 0;
        while y < rows
            invariant
                y <= rows,
                animals.len() == y,
                forall|r: int|
                    0 <= r < y ==> (#[trigger] animals[r])@ == blank(rows as nat, columns as nat)[r],
            decreases rows - y,
        {
            let mut animals_row: Vec<Field> = Vec::new();
            let mut x: u32 = 0;
            while x < columns
                invariant
                    x <= columns,
                    y < rows,
                    animals_row.len() == x,
                    forall|c: int|
                        0 <= c < x ==> (#[trigger] animals_row[c]) == Field::water(
                            c as u32,
                            y,
                        ),
                decreases columns - x,
            {
                animals_row.push(Field::new(FieldType::Plankton, x, y, None));
                x = x + 1;
            }
            assert(animals_row@ =~= blank(rows as nat, columns as nat)[y as int]);
            animals.push(animals_row);
            y = y + 1;
        }
        assert(ocean_of(animals@) =~= blank(rows as nat, columns as nat));
        animals
    }

    /// Puts `amount` animals of a kind on free fields, one after the other.
    fn sow(&mut self, kind: FieldType, amount: u32, dice: &mut Dice)
        requires
            old(self).wf(),
            is_grid(old(self)@.fields, old(self)@.rows, old(self)@.columns),
            old(dice).wf(),
            kind != FieldType::Plankton,
            amount <= population(old(self)@.fields, FieldType::Plankton),
        ensures
            final(self).wf(),
            final(self)@ == old(self)@.with(final(self)@.fields),
            is_grid(final(self)@.fields, old(self)@.rows, old(self)@.columns),
            final(dice).wf(),
            final(dice).scripted() == old(dice).scripted(),
            old(dice).scripted() ==> final(dice).source() == old(dice).source(),
            agree(old(dice).source(), final(dice).source(), old(dice).used()),
            old(dice).used() <= final(dice).used(),
            (final(self)@.fields, final(dice).used()) == sow(
                old(self)@.fields,
                kind,
                final(dice).source(),
                old(dice).used(),
                amount as nat,
            ),
    {
        let ghost start = self@.fields;
        let ghost first = dice.used();
        let mut i: u32 = 0;
        while i < amount
            invariant
                i <= amount,
                self.wf(),
                self@ == old(self)@.with(self@.fields),
                is_grid(self@.fields, self@.rows, self@.columns),
                is_ocean(start, self@.rows, self@.columns),
                dice.wf(),
                dice.scripted() == old(dice).scripted(),
                old(dice).scripted() ==> dice.source() == old(dice).source(),
                agree(old(dice).source(), dice.source(), first),
                first == old(dice).used(),
                first <= dice.used(),
                start == old(self)@.fields,
                kind != FieldType::Plankton,
                amount <= population(start, FieldType::Plankton),
                (self@.fields, dice.used()) == sow(start, kind, dice.source(), first, i as nat),
            decreases amount - i,
        {
            let ghost g = self@.fields;
            let ghost at = dice.used();
            let ghost before_plant = dice.source();
            proof {
                lemma_sow_counts(
                    start,
                    kind,
                    before_plant,
                    first,
                    i as nat,
                    self@.rows,
                    self@.columns,
                );
                lemma_census(g, self@.rows, self@.columns);
            }
            let free = Self::collect(&self.fields, FieldType::Plankton);
            let raw = dice.roll(free.len() as u64);
            let ghost after_choice = dice.source();
            let index = (raw % (free.len() as u64)) as usize;
            let spot = free[index];
            proof {
                lemma_fields_of_member(g, FieldType::Plankton, index as int);
            }
            let status = match kind {
                FieldType::Shark => AnimalStatus::shark_with(Self::energy(dice)),
                _ => AnimalStatus::new_fish(),
            };
            self.put(Field::new(kind, spot.x, spot.y, Some(status)));
            proof {
                let now = dice.source();
                assert(agree(before_plant, now, at));
                lemma_sow_agrees(start, kind, before_plant, now, first, i as nat);
                assert(draw_at(now, at) == draw_at(after_choice, at));
                assert((self@.fields, dice.used()) == plant(g, kind, now, at));
            }
            i = i + 1;
        }
    }

    /// Fills the board with open water, its fishes and its sharks.
    fn seed(&mut self, dice: &mut Dice)
        requires
            old(self).wf(),
            old(dice).wf(),
            old(dice).used() == 0,
        ensures
            final(self).wf(),
            final(dice).wf(),
            final(dice).scripted() == old(dice).scripted(),
            old(dice).scripted() ==> final(dice).source() == old(dice).source(),
            final(self)@ == old(self)@.with(
                seeded(
                    old(self)@.rows,
                    old(self)@.columns,
                    old(self)@.amount_fishes,
                    old(self)@.amount_sharks,
                    final(dice).source(),
                ),
            ),
    {
        let ghost rows = self@.rows;
        let ghost columns = self@.columns;
        let ghost water = blank(rows, columns);
        proof {
            lemma_blank(rows, columns);
        }
        self.fields = Self::open_water(self.rows, self.columns);
        self.sow(FieldType::Fish, self.amount_fishes, dice);
        let ghost after_fish = dice.source();
        proof {
            lemma_sow_counts(
                water,
                FieldType::Fish,
                after_fish,
                0,
                self@.amount_fishes,
                rows,
                columns,
            );
        }
        self.sow(FieldType::Shark, self.amount_sharks, dice);
        proof {
            lemma_sow_agrees(
                water,
                FieldType::Fish,
                after_fish,
                dice.source(),
                0,
                self@.amount_fishes,
            );
        }
    }

    /// Generate a new board with the amount of fishes and sharks: every
    /// animal is put on a field that is drawn at random among the free ones,
    /// first the fishes, then the sharks. The board then stands as seeding
    /// leaves it for some script of draws, and holds exactly its fishes and
    /// sharks.
    pub fn generate_random_animals(&mut self)
        requires
            old(self).wf(),
        ensures
            final(self).wf(),
            exists|draws: Seq<u64>|
                final(self)@ == old(self)@.with(
                    #[trigger] seeded(
                        old(self)@.rows,
                        old(self)@.columns,
                        old(self)@.amount_fishes,
                        old(self)@.amount_sharks,
                        draws,
                    ),
                ),
            is_grid(final(self)@.fields, old(self)@.rows, old(self)@.columns),
            nursery(final(self)@.fields),
            population(final(self)@.fields, FieldType::Fish) == old(self)@.amount_fishes,
            population(final(self)@.fields, FieldType::Shark) == old(self)@.amount_sharks,
    {
        let mut dice = Dice::live();
        self.seed(&mut dice);
        proof {
            lemma_seeded_counts(
                self@.rows,
                self@.columns,
                self@.amount_fishes,
                self@.amount_sharks,
                dice.source(),
            );
        }
    }

    /// Generate a new board with the amount of fishes and sharks, with the
    /// fields and the energy of the sharks chosen by the given script of
    /// draws.
    pub fn generate_animals_with(&mut self, draws: &Vec<u64>)
        requires
            old(self).wf(),
        ensures
            final(self).wf(),
            final(self)@ == old(self)@.with(
                seeded(
                    old(self)@.rows,
                    old(self)@.columns,
                    old(self)@.amount_fishes,
                    old(self)@.amount_sharks,
                    draws@,
                ),
            ),
            is_grid(final(self)@.fields, old(self)@.rows, old(self)@.columns),
            nursery(final(self)@.fields),
            population(final(self)@.fields, FieldType::Fish) == old(self)@.amount_fishes,
            population(final(self)@.fields, FieldType::Shark) == old(self)@.amount_sharks,
    {
        let mut dice = Dice::replay(draws);
        self.seed(&mut dice);
        proof {
            lemma_seeded_counts(
                self@.rows,
                self@.columns,
                self@.amount_fishes,
                self@.amount_sharks,
                draws@,
            );
        }
    }
}

} // verus!
