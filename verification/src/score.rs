//! The score accumulator: a point table and the log of recorded events.
use crate::tally::{lemma_sum_prefix, lemma_sum_take_next, sum};
use vstd::prelude::*;

verus! {

/// One row of the point table: an event name and what it is worth.
pub struct PointEntry {
    pub name: String,
    pub unit: usize,
}

impl Clone for PointEntry {
    fn clone(&self) -> (copy: PointEntry)
        ensures
            copy.name@ == self.name@,
            copy.unit == self.unit,
    {
        PointEntry { name: self.name.clone(), unit: self.unit }
    }
}

/// The mathematical content of a [`Score`].
pub struct ScoreView {
    /// Event name to point value.
    pub point_table: Map<Seq<char>, usize>,
    /// The recorded event names, oldest first.
    pub records: Seq<Seq<char>>,
}

/// What one recorded event is worth under `table`. An event that the table
/// does not name is worth nothing.
pub open spec fn unit_of(table: Map<Seq<char>, usize>, name: Seq<char>) -> nat {
    if table.contains_key(name) {
        table[name] as nat
    } else {
        0
    }
}

/// What each recorded event is worth under `table`, in the order of the log.
pub open spec fn units_of(table: Map<Seq<char>, usize>, records: Seq<Seq<char>>) -> Seq<nat> {
    records.map_values(|name: Seq<char>| unit_of(table, name))
}

impl ScoreView {
    /// The sum of the table's values over all recorded events.
    pub open spec fn total(self) -> nat {
        sum(units_of(self.point_table, self.records))
    }
}

/// The table that a list of rows stands for: a later row replaces an earlier
/// one of the same name.
pub open spec fn table_of(entries: Seq<PointEntry>) -> Map<Seq<char>, usize>
    decreases entries.len(),
{
    if entries.len() == 0 {
        Map::empty()
    } else {
        table_of(entries.drop_last()).insert(entries.last().name@, entries.last().unit)
    }
}

/// `row` is the last row of `entries` that carries `name`.
pub open spec fn is_last_row(entries: Seq<PointEntry>, name: Seq<char>, row: int) -> bool {
    &&& 0 <= row < entries.len()
    &&& entries[row].name@ == name
    &&& forall|j: int| row < j < entries.len() ==> entries[j].name@ != name
}

/// A name is in the table exactly if some row carries it, and its value is
/// that of the last such row.
pub proof fn lemma_table_of(entries: Seq<PointEntry>, name: Seq<char>)
    ensures
        table_of(entries).contains_key(name) <==> exists|j: int|
            0 <= j < entries.len() && #[trigger] entries[j].name@ == name,
        forall|row: int|
            is_last_row(entries, name, row) ==> table_of(entries).contains_key(name) && table_of(
                entries,
            )[name] == entries[row].unit,
    decreases entries.len(),
{
    if entries.len() > 0 {
        let front = entries.drop_last();
        let last = entries.len() - 1;
        lemma_table_of(front, name);
        if entries[last].name@ != name {
            if table_of(front).contains_key(name) {
                let j = choose|j: int| 0 <= j < front.len() && #[trigger] front[j].name@ == name;
                assert(entries[j].name@ == name);
            }
            if exists|j: int| 0 <= j < entries.len() && #[trigger] entries[j].name@ == name {
                let j = choose|j: int|
                    0 <= j < entries.len() && #[trigger] entries[j].name@ == name;
                assert(front[j].name@ == name);
            }
            assert forall|row: int| is_last_row(entries, name, row) implies table_of(
                entries,
            ).contains_key(name) && table_of(entries)[name] == entries[row].unit by {
                assert(front[row].name@ == name);
                assert(is_last_row(front, name, row));
            }
        } else {
            assert(entries[last].name@ == name);
        }
    }
}

/// Replacing the value in the last row of a name sets that name in the table.
pub proof fn lemma_table_of_update(entries: Seq<PointEntry>, row: int, entry: PointEntry)
    requires
        is_last_row(entries, entry.name@, row),
    ensures
        table_of(entries.update(row, entry)) == table_of(entries).insert(entry.name@, entry.unit),
    decreases entries.len(),
{
    let front = entries.drop_last();
    let changed = entries.update(row, entry);
    if row == entries.len() - 1 {
        assert(changed.drop_last() =~= front);
        assert(table_of(changed) =~= table_of(entries).insert(entry.name@, entry.unit));
    } else {
        assert(changed.drop_last() =~= front.update(row, entry));
        assert(is_last_row(front, entry.name@, row));
        lemma_table_of_update(front, row, entry);
        assert(entries.last().name@ != entry.name@);
        assert(table_of(changed) =~= table_of(entries).insert(entry.name@, entry.unit));
    }
}

/// Rows that agree name by name and value by value stand for the same table.
pub proof fn lemma_table_of_same_rows(left: Seq<PointEntry>, right: Seq<PointEntry>)
    requires
        left.len() == right.len(),
        forall|i: int|
            0 <= i < left.len() ==> left[i].name@ == right[i].name@ && left[i].unit
                == right[i].unit,
    ensures
        table_of(left) == table_of(right),
    decreases left.len(),
{
    if left.len() > 0 {
        lemma_table_of_same_rows(left.drop_last(), right.drop_last());
    }
}

/// Point table and event log of one benchmark run.
pub struct Score {
    point_table: Vec<PointEntry>,
    records: Vec<String>,
}

impl View for Score {
    type V = ScoreView;

    closed spec fn view(&self) -> ScoreView {
        ScoreView {
            point_table: table_of(self.point_table@),
            records: self.records@.map_values(|name: String| name@),
        }
    }
}

impl Clone for Score {
    fn clone(&self) -> (copy: Score)
        ensures
            copy@ == self@,
    {
        let copy = Score { point_table: self.point_table.clone(), records: self.records.clone() };
        proof {
            lemma_table_of_same_rows(self.point_table@, copy.point_table@);
            assert(copy@.records =~= self@.records);
        }
        copy
    }
}

impl Score {
    /// An empty table and an empty log.
    pub fn new() -> (score: Score)
        ensures
            score@.point_table == Map::<Seq<char>, usize>::empty(),
            score@.records == Seq::<Seq<char>>::empty(),
    {
        let score = Score { point_table: Vec::new(), records: Vec::new() };
        assert(score@.point_table =~= Map::<Seq<char>, usize>::empty());
        assert(score@.records =~= Seq::<Seq<char>>::empty());
        score
    }

    /// The last row that carries `point_name`, if any row does.
    fn find_row(&self, point_name: &str) -> (found: Option<usize>)
        ensures
            match found {
                Some(row) => is_last_row(self.point_table@, point_name@, row as int),
                None => forall|j: int|
                    0 <= j < self.point_table@.len() ==> self.point_table@[j].name@ != point_name@,
            },
    {
        let wanted = String::from_str(point_name);
        let mut i: usize = self.point_table.len();
        while i > 0
            invariant
                i <= self.point_table.len(),
                wanted@ == point_name@,
                forall|j: int|
                    i <= j < self.point_table@.len() ==> self.point_table@[j].name@ != point_name@,
            decreases i,
        {
            i -= 1;
            if self.point_table[i].name == wanted {
                return Some(i);
            }
        }
        None
    }

    /// Sets what the event `point_name` is worth, replacing an earlier value.
    pub fn add_point_table(&mut self, point_name: &str, point_unit: usize)
        ensures
            final(self)@.point_table == old(self)@.point_table.insert(point_name@, point_unit),
            final(self)@.records == old(self)@.records,
    {
        let entry = PointEntry { name: String::from_str(point_name), unit: point_unit };
        match self.find_row(point_name) {
            Some(row) => {
                proof {
                    lemma_table_of_update(self.point_table@, row as int, entry);
                }
                self.point_table.set(row, entry);
            },
            None => {
                self.point_table.push(entry);
                assert(self.point_table@.drop_last() =~= old(self).point_table@);
            },
        }
    }

    /// What the table says `point_name` is worth, if it names it.
    pub fn point(&self, point_name: &str) -> (unit: Option<usize>)
        ensures
            unit == if self@.point_table.contains_key(point_name@) {
                Some(self@.point_table[point_name@])
            } else {
                None
            },
    {
        proof {
            lemma_table_of(self.point_table@, point_name@);
        }
        match self.find_row(point_name) {
            Some(row) => Some(self.point_table[row].unit),
            None => None,
        }
    }

    /// Appends the event `point_name` to the log.
    pub fn record(&mut self, point_name: &str)
        ensures
            final(self)@.records == old(self)@.records.push(point_name@),
            final(self)@.point_table == old(self)@.point_table,
    {
        self.records.push(String::from_str(point_name));
        assert(final(self)@.records =~= old(self)@.records.push(point_name@));
    }

    /// The recorded event names, oldest first.
    pub fn records(&self) -> (records: &Vec<String>)
        ensures
            records@.map_values(|name: String| name@) == self@.records,
    {
        &self.records
    }

    /// The total if it fits a `usize`, and `None` if it does not.
    pub fn checked_total(&self) -> (total: Option<usize>)
        ensures
            total == if self@.total() <= usize::MAX {
                Some(self@.total() as usize)
            } else {
                None
            },
    {
        let ghost units = units_of(self@.point_table, self@.records);
        let mut total: usize = 0;
        let mut i: usize = 0;
        while i < self.records.len()
            invariant
                i <= self.records.len(),
                units == units_of(self@.point_table, self@.records),
                units.len() == self.records.len(),
                total == sum(units.take(i as int)),
            decreases self.records.len() - i,
        {
            let unit = match self.point(self.records[i].as_str()) {
                Some(unit) => unit,
                None => 0,
            };
            proof {
                lemma_sum_take_next(units, i as int);
                lemma_sum_prefix(units, i + 1);
            }
            total = match total.checked_add(unit) {
                Some(next) => next,
                None => { return None; },
            };
            i += 1;
        }
        assert(units.take(i as int) =~= units);
        Some(total)
    }

    /// The sum of the table's values over all recorded events. An event
    /// that the table does not name counts as zero.
    pub fn total(&self) -> (total: usize)
        requires
            self@.total() <= usize::MAX,
        ensures
            total == self@.total(),
    {
        self.checked_total().unwrap()
    }
}

} // verus!
