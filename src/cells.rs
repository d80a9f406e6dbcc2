//! Resolution of live cells: of the cells that the ledger reports for a
//! search, exactly the matching ones count, and more than one is an error.

use vstd::prelude::*;

use crate::scripts::{script_view, same_script, CellDep, Delegate, NetworkContext, OutPoint, Script};

verus! {

/// A live cell.
#[derive(Clone, Debug, PartialEq, Eq)]
pub struct Cell {
    pub out_point: OutPoint,
    pub capacity: u64,
    pub lock: Script,
    pub type_: Option<Script>,
    pub data: Vec<u8>,
}

/// Why a cell could not be resolved.
#[derive(Clone, Copy, Debug, PartialEq, Eq, Structural)]
pub enum LookupError {
    /// No live cell matches.
    NotFound,
    /// More than one live cell matches.
    Ambiguous,
}

/// Dependency type of a cell dependency on a code cell.
pub const DEP_TYPE_CODE: u8 = 0;

/// The cell carries a type script whose view is `v`.
pub open spec fn type_is(c: Cell, v: (Seq<u8>, u8, Seq<u8>)) -> bool {
    c.type_ matches Some(t) && script_view(t) == v
}

/// The cell carries type script `ty`.
pub open spec fn has_type(c: Cell, ty: Script) -> bool {
    type_is(c, script_view(ty))
}

/// The cell carries lock `lock` and type script `ty`.
pub open spec fn has_scripts(c: Cell, lock: Script, ty: Script) -> bool {
    script_view(c.lock) == script_view(lock) && has_type(c, ty)
}

/// The cells of `cells` that carry `lock` and `ty`, in order.
pub open spec fn matching_scripts(cells: Seq<Cell>, lock: Script, ty: Script) -> Seq<Cell> {
    cells.filter(|c: Cell| has_scripts(c, lock, ty))
}

/// The cells of `cells` whose type script has view `v`, in order.
pub open spec fn matching_view(cells: Seq<Cell>, v: (Seq<u8>, u8, Seq<u8>)) -> Seq<Cell> {
    cells.filter(|c: Cell| type_is(c, v))
}

/// The cells of `cells` that carry `ty`, in order.
pub open spec fn matching_type(cells: Seq<Cell>, ty: Script) -> Seq<Cell> {
    matching_view(cells, script_view(ty))
}

/// The outcome of resolving at most one cell among `found`.
pub open spec fn at_most_one(found: Seq<Cell>) -> Result<Option<Cell>, LookupError> {
    if found.len() == 0 {
        Ok(None)
    } else if found.len() == 1 {
        Ok(Some(found[0]))
    } else {
        Err(LookupError::Ambiguous)
    }
}

/// The outcome of resolving exactly one cell among `found`.
pub open spec fn exactly_one(found: Seq<Cell>) -> Result<Cell, LookupError> {
    if found.len() == 0 {
        Err(LookupError::NotFound)
    } else if found.len() == 1 {
        Ok(found[0])
    } else {
        Err(LookupError::Ambiguous)
    }
}

fn cell_has_type(c: &Cell, ty: &Script) -> (r: bool)
    ensures
        r == has_type(*c, *ty),
{
    match &c.type_ {
        Some(t) => same_script(t, ty),
        None => false,
    }
}

fn cell_has_scripts(c: &Cell, lock: &Script, ty: &Script) -> (r: bool)
    ensures
        r == has_scripts(*c, *lock, *ty),
{
    same_script(&c.lock, lock) && cell_has_type(c, ty)
}

/// The number of matching cells and the index of the first one.
fn scan(cells: &Vec<Cell>, lock: Option<&Script>, ty: &Script) -> (r: (usize, usize))
    ensures
        ({
            let found = match lock {
                Some(l) => matching_scripts(cells@, *l, *ty),
                None => matching_type(cells@, *ty),
            };
            &&& r.0 == found.len()
            &&& r.0 > 0 ==> r.1 < cells@.len() && cells@[r.1 as int] == found[0]
        }),
{
    let ghost pred = match lock {
        Some(l) => |c: Cell| has_scripts(c, *l, *ty),
        None => |c: Cell| type_is(c, script_view(*ty)),
    };
    let mut count: usize = 0;
    let mut first: usize = 0;
    let mut i: usize = 0;
    while i < cells.len()
        invariant
            i <= cells@.len(),
            pred == (match lock {
                Some(l) => |c: Cell| has_scripts(c, *l, *ty),
                None => |c: Cell| type_is(c, script_view(*ty)),
            }),
            count == cells@.take(i as int).filter(pred).len(),
            count <= i,
            count > 0 ==> first < i && cells@[first as int] == cells@.take(i as int).filter(
                pred,
            )[0],
        decreases cells@.len() - i,
    {
        let hit = match lock {
            Some(l) => cell_has_scripts(&cells[i], l, ty),
            None => cell_has_type(&cells[i], ty),
        };
        proof {
            let pre = cells@.take(i as int);
            let next = cells@.take(i + 1);
            assert(next.drop_last() =~= pre);
            assert(next.last() == cells@[i as int]);
            reveal_with_fuel(Seq::filter, 1);
            assert(hit == pred(cells@[i as int]));
            if hit {
                assert(next.filter(pred) == pre.filter(pred).push(cells@[i as int]));
            } else {
                assert(next.filter(pred) == pre.filter(pred));
            }
        }
        if hit {
            if count == 0 {
                first = i;
            }
            count = count + 1;
        }
        i = i + 1;
    }
    assert(cells@.take(cells@.len() as int) =~= cells@);
    (count, first)
}

impl Delegate {
    /// The one cell among the live cells `cells` (what the ledger reports
    /// for the search) that carries both `stake_lock` and `xudt`: none is not
    /// an error, two or more are.
    pub fn get_cell(cells: Vec<Cell>, stake_lock: &Script, xudt: &Script) -> (r: Result<
        Option<Cell>,
        LookupError,
    >)
        ensures
            r == at_most_one(matching_scripts(cells@, *stake_lock, *xudt)),
    {
        let mut cells = cells;
        let (count, first) = scan(&cells, Some(stake_lock), xudt);
        if count == 0 {
            Ok(None)
        } else if count == 1 {
            Ok(Some(cells.remove(first)))
        } else {
            Err(LookupError::Ambiguous)
        }
    }

    /// The one live cell among `cells` that carries `ty`.
    pub fn get_cell_by_type(cells: Vec<Cell>, ty: &Script) -> (r: Result<Cell, LookupError>)
        ensures
            r == exactly_one(matching_type(cells@, *ty)),
    {
        let mut cells = cells;
        let (count, first) = scan(&cells, None, ty);
        if count == 0 {
            Err(LookupError::NotFound)
        } else if count == 1 {
            Ok(cells.remove(first))
        } else {
            Err(LookupError::Ambiguous)
        }
    }

    /// The requirement cell: the one live cell carrying the requirement type.
    pub fn get_requirement_cell(cells: Vec<Cell>, delegate_requirement_type: &Script) -> (r:
        Result<Cell, LookupError>)
        ensures
            r == exactly_one(matching_type(cells@, *delegate_requirement_type)),
    {
        Self::get_cell_by_type(cells, delegate_requirement_type)
    }

    /// The delegation tree cell: the one live cell carrying the tree type.
    pub fn get_smt_cell(cells: Vec<Cell>, delegate_smt_type: &Script) -> (r: Result<
        Cell,
        LookupError,
    >)
        ensures
            r == exactly_one(matching_type(cells@, *delegate_smt_type)),
    {
        Self::get_cell_by_type(cells, delegate_smt_type)
    }

    /// A code dependency on the one live cell that carries the tree type of
    /// `type_id`.
    pub fn smt_cell_dep(ctx: &NetworkContext, type_id: &[u8; 32], cells: Vec<Cell>) -> (r: Result<
        CellDep,
        LookupError,
    >)
        ensures
            ({
                let found = matching_view(
                    cells@,
                    (ctx.delegate_smt_type.code_hash@, ctx.delegate_smt_type.hash_type, type_id@),
                );
                &&& found.len() == 0 ==> r == Err::<CellDep, LookupError>(LookupError::NotFound)
                &&& found.len() >= 2 ==> r == Err::<CellDep, LookupError>(LookupError::Ambiguous)
                &&& found.len() == 1 ==> r == Ok::<CellDep, LookupError>(
                    CellDep { out_point: found[0].out_point, dep_type: DEP_TYPE_CODE },
                )
            }),
    {
        let ty = Self::smt_type(ctx, type_id);
        match Self::get_cell_by_type(cells, &ty) {
            Ok(c) => Ok(CellDep { out_point: c.out_point, dep_type: DEP_TYPE_CODE }),
            Err(e) => Err(e),
        }
    }
}

} // verus!
