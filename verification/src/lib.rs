pub mod exact;
pub mod extremum;
pub mod fanout;
pub mod min_max_deque;
pub mod number;
pub mod order;
pub mod registry;
pub mod stats;
pub mod symbol;
pub mod window;

use crate::extremum::is_extremum;
use crate::min_max_deque::Extremum;
use crate::number::{specified, Number};
use crate::order::ordered;
use crate::symbol::{size, Symbol, SymbolView};
use crate::window::recent;
use vstd::prelude::*;

verus! {

/// The window sizes, `K1` for `k = 1` up to `K8` for `k = 8`.
pub const K1: usize = 10;

pub const K2: usize = 100;

pub const K3: usize = 1000;

pub const K4: usize = 10000;

pub const K5: usize = 100000;

pub const K6: usize = 1000000;

pub const K7: usize = 10000000;

pub const K8: usize = 100000000;

/// An ingest: `values` for `symbol`, in the order to apply them.
#[derive(Debug)]
pub struct AddBatchPayload<T> {
    pub symbol: String,
    pub values: Vec<T>,
}

/// A query: the stats of `symbol` over its `10^k` most recent values.
#[derive(Debug)]
pub struct StatsQuery {
    pub symbol: String,
    pub k: usize,
}

/// The answer to a query.
#[derive(Debug)]
pub struct StatsResponse<T> {
    pub min: T,
    pub max: T,
    pub last: T,
    pub avg: T,
    pub var: T,
}

/// Why a query has no answer.
#[derive(Debug, Clone, Copy, PartialEq, Eq, Structural)]
pub enum QueryError {
    /// `k` is not one of 1 to 8.
    InvalidK,
    /// The symbol has no values yet.
    Empty,
}

impl QueryError {
    /// The text of each error.
    pub open spec fn text(self) -> Seq<char> {
        match self {
            QueryError::InvalidK => "Invalid `k`"@,
            QueryError::Empty => "No values for this symbol"@,
        }
    }

    /// Returns what to tell the caller.
    pub fn message(&self) -> (message: &'static str)
        ensures
            message@ == self.text(),
    {
        match self {
            QueryError::InvalidK => "Invalid `k`",
            QueryError::Empty => "No values for this symbol",
        }
    }

    /// Returns the HTTP status to answer with: 418 for both errors.
    pub fn status(&self) -> (status: u16)
        ensures
            status == 418,
    {
        418
    }
}

/// Returns `true` if `k` selects a window: it is one of 1 to 8.
pub fn selects(k: usize) -> (valid: bool)
    ensures
        valid == (1 <= k <= 8),
{
    1 <= k && k <= 8
}

/// What a query for `k` returns on a symbol in state `symbol`.
pub open spec fn answer<T: Number>(symbol: SymbolView<T>, k: usize) -> Result<
    StatsResponse<T>,
    QueryError,
> {
    if !(1 <= k <= 8) {
        Err(QueryError::InvalidK)
    } else {
        match symbol.summary(k as int) {
            None => Err(QueryError::Empty),
            Some(numbers) => Ok(
                StatsResponse {
                    min: numbers[0],
                    max: numbers[1],
                    last: numbers[2],
                    avg: numbers[3],
                    var: numbers[4],
                },
            ),
        }
    }
}

impl StatsQuery {
    /// Rejects a `k` that selects no window, before any symbol is looked up.
    pub fn check(&self) -> (result: Result<(), QueryError>)
        ensures
            result == if 1 <= self.k <= 8 {
                Ok::<(), QueryError>(())
            } else {
                Err::<(), QueryError>(QueryError::InvalidK)
            },
    {
        if selects(self.k) {
            Ok(())
        } else {
            Err(QueryError::InvalidK)
        }
    }
}

/// Answers `request` on `symbol`.
pub fn query<T: Number>(symbol: &Symbol<T>, request: &StatsQuery) -> (result: Result<
    StatsResponse<T>,
    QueryError,
>)
    requires
        specified::<T>(),
        symbol.wf(),
        1 <= request.k <= 8 ==> symbol@.can_summarize(request.k as int),
    ensures
        result == answer(symbol@, request.k),
        result == Err::<StatsResponse<T>, QueryError>(QueryError::InvalidK) <==> !(1 <= request.k
            <= 8),
        result == Err::<StatsResponse<T>, QueryError>(QueryError::Empty) <==> 1 <= request.k <= 8
            && symbol@.values.len() == 0,
        result matches Ok(response) ==> {
            &&& response.last == symbol@.values.first()
            &&& ordered::<T>() ==> is_extremum(
                Extremum::Min,
                response.min,
                recent(symbol@.values, size(request.k as int)),
            ) && is_extremum(
                Extremum::Max,
                response.max,
                recent(symbol@.values, size(request.k as int)),
            )
        },
{
    if !selects(request.k) {
        return Err(QueryError::InvalidK);
    }
    match symbol.stats(request.k) {
        None => Err(QueryError::Empty),
        Some(numbers) => Ok(
            StatsResponse {
                min: numbers[0],
                max: numbers[1],
                last: numbers[2],
                avg: numbers[3],
                var: numbers[4],
            },
        ),
    }
}

/// Applies `payload` to `symbol`.
pub fn ingest<T: Number>(symbol: &mut Symbol<T>, payload: &AddBatchPayload<T>)
    requires
        specified::<T>(),
        old(symbol).wf(),
        old(symbol)@.can_ingest(payload.values@),
    ensures
        final(symbol).wf(),
        final(symbol)@ == old(symbol)@.ingested(payload.values@),
        final(symbol)@.values == recent(
            payload.values@.reverse() + old(symbol)@.values,
            K8 as nat,
        ),
{
    symbol.add_batch(payload.values.as_slice());
}

} // verus!
