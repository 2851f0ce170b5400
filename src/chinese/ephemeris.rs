//! The ephemeris table in civil form: for each sui, the Beijing dates of its
//! solar terms and new moons.

use crate::date::Date;
use vstd::prelude::*;

verus! {

/// The Beijing dates of one sui's instants.
#[derive(Debug, Clone)]
pub struct Annus {
    /// The year in which most of the sui falls.
    pub annus: i32,
    /// The 25 solar terms from the winter solstice to the next one.
    pub solar_term: Vec<Date>,
    /// The 15 new moons from the one before the winter solstice.
    pub new_moon: Vec<Date>,
}

/// The table, one row per sui in increasing order of year.
#[derive(Debug, Clone)]
pub struct Table {
    pub rows: Vec<Annus>,
}

/// A row that can make a sui: 25 solar terms, 15 new moons, and a year whose
/// neighbours are representable.
pub open spec fn row_ok(r: Annus) -> bool {
    &&& i32::MIN < r.annus < i32::MAX
    &&& r.solar_term.len() == 25
    &&& r.new_moon.len() == 15
}

/// Whether rows are well formed and in strictly increasing order of year.
pub open spec fn rows_ok(rows: Seq<Annus>) -> bool {
    &&& forall|i: int| 0 <= i < rows.len() ==> row_ok(#[trigger] rows[i])
    &&& forall|i: int, j: int| 0 <= i < j < rows.len() ==> rows[i].annus < rows[j].annus
}

/// The row of year `y`, if `rows` has one.
pub open spec fn row_of(rows: Seq<Annus>, y: int) -> Option<Annus> {
    if exists|i: int| 0 <= i < rows.len() && rows[i].annus == y {
        Some(rows[choose|i: int| 0 <= i < rows.len() && rows[i].annus == y])
    } else {
        None
    }
}

impl Table {
    /// Well formed: see `rows_ok`.
    pub open spec fn wf(&self) -> bool {
        rows_ok(self.rows@)
    }

    /// The table of the given rows, or `None` where a row has not 25 solar
    /// terms and 15 new moons, or a year at the edge of `i32`, or where the
    /// years do not strictly increase.
    pub fn new(rows: Vec<Annus>) -> (r: Option<Table>)
        ensures
            r is Some <==> rows_ok(rows@),
            r matches Some(t) ==> t.rows@ == rows@,
    {
        let mut i: usize = 0;
        while i < rows.len()
            invariant
                i <= rows.len(),
                forall|k: int| 0 <= k < i ==> row_ok(#[trigger] rows@[k]),
                forall|a: int, b: int| 0 <= a < b < i ==> rows@[a].annus < rows@[b].annus,
            decreases rows.len() - i,
        {
            let row = &rows[i];
            if row.annus == i32::MIN || row.annus == i32::MAX || row.solar_term.len() != 25
                || row.new_moon.len() != 15 {
                assert(!row_ok(rows@[i as int]));
                return None;
            }
            if i > 0 && rows[i - 1].annus >= row.annus {
                return None;
            }
            i = i + 1;
        }
        Some(Table { rows })
    }

    /// The row of year `annus`, if the table has one.
    pub fn get(&self, annus: i32) -> (r: Option<&Annus>)
        requires
            self.wf(),
        ensures
            r matches Some(a) ==> row_of(self.rows@, annus as int) == Some(*a),
            r is None <==> row_of(self.rows@, annus as int) is None,
    {
        let mut lo: usize = 0;
        let mut hi: usize = self.rows.len();
        while lo < hi
            invariant
                self.wf(),
                lo <= hi <= self.rows.len(),
                forall|i: int| 0 <= i < lo ==> self.rows@[i].annus < annus,
                forall|i: int| hi <= i < self.rows.len() ==> self.rows@[i].annus > annus,
            decreases hi - lo,
        {
            let mid = lo + (hi - lo) / 2;
            let y = self.rows[mid].annus;
            if y == annus {
                proof {
                    let j = choose|i: int|
                        0 <= i < self.rows@.len() && self.rows@[i].annus == annus as int;
                    assert(0 <= mid < self.rows@.len() && self.rows@[mid as int].annus == annus as int);
                    assert(j == mid as int) by {
                        if j < mid {
                            assert(self.rows@[j].annus < self.rows@[mid as int].annus);
                        } else if j > mid {
                            assert(self.rows@[mid as int].annus < self.rows@[j].annus);
                        }
                    }
                }
                return Some(&self.rows[mid]);
            } else if y < annus {
                lo = mid + 1;
            } else {
                hi = mid;
            }
        }
        None
    }
}

} // verus!
