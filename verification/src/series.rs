//! Requests that are made one after the other, until one fails.
use crate::session::Request;
use vstd::prelude::*;

verus! {

/// A series of requests: those that are still to be made, and what came of those that were.
/// The request that was made last is in neither.
pub struct Series<T> {
    pending: Vec<Request>,
    results: Vec<T>,
}

/// A series as a mathematical value.
#[verifier::ext_equal]
pub struct SeriesView<T> {
    pub pending: Seq<Request>,
    pub results: Seq<T>,
}

impl<T> View for Series<T> {
    type V = SeriesView<T>;

    closed spec fn view(&self) -> SeriesView<T> {
        SeriesView { pending: self.pending@, results: self.results@ }
    }
}

/// What to do next in a series.
#[derive(Debug)]
pub enum Turn<T, E> {
    /// Make this request.
    Ask(Request),
    /// All requests were made; this came of them, in order.
    Done(Vec<T>),
    /// A request failed, and no other is made.
    Failed(E),
}

/// `turn` is what to do next in the series `before`, where no request is under way, and
/// `after` is the series then.
pub open spec fn turned<T, E>(
    before: SeriesView<T>,
    turn: Turn<T, E>,
    after: SeriesView<T>,
) -> bool {
    if before.pending.len() > 0 {
        &&& turn == Turn::<T, E>::Ask(before.pending[0])
        &&& after == (SeriesView { pending: before.pending.drop_first(), ..before })
    } else {
        &&& turn matches Turn::Done(results) && results@ == before.results
        &&& after == (SeriesView { pending: Seq::empty(), results: Seq::<T>::empty() })
    }
}

/// `turn` is what to do next in the series `before`, where `outcome` came of the request
/// under way, and `after` is the series then.
pub open spec fn went_on<T, E>(
    before: SeriesView<T>,
    outcome: Result<T, E>,
    turn: Turn<T, E>,
    after: SeriesView<T>,
) -> bool {
    match outcome {
        Ok(result) => turned(
            SeriesView { results: before.results.push(result), ..before },
            turn,
            after,
        ),
        Err(e) => {
            &&& turn == Turn::<T, E>::Failed(e)
            &&& after == (SeriesView { pending: Seq::empty(), ..before })
        },
    }
}

impl<T> Series<T> {
    /// Starts a series of `requests`.
    pub fn begin<E>(requests: Vec<Request>) -> (r: (Series<T>, Turn<T, E>))
        ensures
            turned(
                SeriesView { pending: requests@, results: Seq::<T>::empty() },
                r.1,
                r.0@,
            ),
    {
        let mut series: Series<T> = Series { pending: requests, results: Vec::new() };
        let turn: Turn<T, E> = series.turn();
        (series, turn)
    }

    /// Goes on after a request: with the next one, or, where there is none, with all that
    /// came of them. Where the request failed, no other is made.
    pub fn go_on<E>(&mut self, outcome: Result<T, E>) -> (r: Turn<T, E>)
        ensures
            went_on(old(self)@, outcome, r, final(self)@),
    {
        match outcome {
            Ok(result) => {
                self.results.push(result);
                self.turn()
            },
            Err(e) => {
                self.pending = Vec::new();
                assert(self@ =~= (SeriesView { pending: Seq::empty(), ..old(self)@ }));
                Turn::Failed(e)
            },
        }
    }

    fn turn<E>(&mut self) -> (r: Turn<T, E>)
        ensures
            turned(old(self)@, r, final(self)@),
    {
        if self.pending.len() > 0 {
            let request: Request = self.pending.remove(0);
            assert(self.pending@ =~= old(self).pending@.drop_first());
            Turn::Ask(request)
        } else {
            let mut results: Vec<T> = Vec::new();
            results.append(&mut self.results);
            assert(results@ =~= old(self).results@);
            assert(self@ =~= (SeriesView { pending: Seq::empty(), results: Seq::<T>::empty() }));
            Turn::Done(results)
        }
    }
}

/// A series that is in the state `views[0]` while a request is under way goes through
/// `views` as `outcomes` come of one request after the other, with `turns`. Only where the
/// turn is to make a request does another outcome follow.
pub open spec fn plays_out<T, E>(
    outcomes: Seq<Result<T, E>>,
    turns: Seq<Turn<T, E>>,
    views: Seq<SeriesView<T>>,
) -> bool {
    &&& views.len() == outcomes.len() + 1
    &&& turns.len() == outcomes.len()
    &&& forall|i: int|
        0 <= i < outcomes.len() ==> went_on(
            views[i],
            #[trigger] outcomes[i],
            turns[i],
            views[i + 1],
        )
    &&& forall|i: int| 0 <= i < turns.len() - 1 ==> #[trigger] turns[i] is Ask
}

proof fn lemma_played_so_far<T, E>(
    outcomes: Seq<Result<T, E>>,
    turns: Seq<Turn<T, E>>,
    views: Seq<SeriesView<T>>,
    n: int,
)
    requires
        plays_out(outcomes, turns, views),
        0 <= n < outcomes.len(),
    ensures
        n <= views[0].pending.len(),
        forall|i: int| 0 <= i < n ==> #[trigger] outcomes[i] is Ok,
        forall|i: int|
            0 <= i < n ==> #[trigger] turns[i] == Turn::<T, E>::Ask(views[0].pending[i]),
        views[n].pending == views[0].pending.skip(n),
        views[n].results == views[0].results + Seq::new(n as nat, |i: int| outcomes[i]->Ok_0),
    decreases n,
{
    if n == 0 {
        assert(views[0].pending.skip(0) =~= views[0].pending);
        assert(views[0].results =~= views[0].results + Seq::new(
            0nat,
            |i: int| outcomes[i]->Ok_0,
        ));
    } else {
        lemma_played_so_far(outcomes, turns, views, n - 1);
        assert(went_on(views[n - 1], outcomes[n - 1], turns[n - 1], views[n]));
        assert(turns[n - 1] is Ask);
        assert(views[0].pending.skip(n - 1).drop_first() =~= views[0].pending.skip(n));
        assert(views[n].results =~= views[0].results + Seq::new(
            n as nat,
            |i: int| outcomes[i]->Ok_0,
        ));
    }
}

/// The requests of a series are made one after the other, in order, and each is made only
/// once all before it have succeeded. The first failure ends the series: it is what the
/// series comes to, and no later request is made. Where none fails, the series ends after
/// the last request, with all that came of them, in order.
pub proof fn law_failure_ends_a_series<T, E>(
    outcomes: Seq<Result<T, E>>,
    turns: Seq<Turn<T, E>>,
    views: Seq<SeriesView<T>>,
)
    requires
        plays_out(outcomes, turns, views),
        outcomes.len() > 0,
    ensures
        outcomes.len() <= views[0].pending.len() + 1,
        forall|i: int|
            0 <= i < outcomes.len() - 1 ==> #[trigger] outcomes[i] is Ok && turns[i] == Turn::<
                T,
                E,
            >::Ask(views[0].pending[i]),
        match outcomes.last() {
            Err(e) => turns.last() == Turn::<T, E>::Failed(e) && views.last().pending
                == Seq::<Request>::empty(),
            Ok(_) => if outcomes.len() <= views[0].pending.len() {
                turns.last() == Turn::<T, E>::Ask(views[0].pending[outcomes.len() - 1])
            } else {
                turns.last() matches Turn::Done(results) && results@ == views[0].results
                    + Seq::new(outcomes.len(), |i: int| outcomes[i]->Ok_0)
            },
        },
{
    let n = outcomes.len() - 1;
    lemma_played_so_far(outcomes, turns, views, n);
    assert(went_on(views[n], outcomes[n], turns[n], views[n + 1]));
    assert forall|i: int| 0 <= i < n implies #[trigger] outcomes[i] is Ok && turns[i] == Turn::<
        T,
        E,
    >::Ask(views[0].pending[i]) by {
        assert(turns[i] is Ask);
    }
    if outcomes[n] is Ok && views[n].pending.len() == 0 {
        assert((views[0].results + Seq::new(n as nat, |i: int| outcomes[i]->Ok_0)).push(
            outcomes[n]->Ok_0,
        ) =~= views[0].results + Seq::new(outcomes.len(), |i: int| outcomes[i]->Ok_0));
    }
}

/// A series begins with its first request, with the others still to be made; one without
/// requests is done at once, with nothing.
pub proof fn law_series_begins_with_its_first_request<T, E>(
    requests: Seq<Request>,
    turn: Turn<T, E>,
    after: SeriesView<T>,
)
    requires
        turned(SeriesView { pending: requests, results: Seq::<T>::empty() }, turn, after),
    ensures
        requests.len() > 0 ==> turn == Turn::<T, E>::Ask(requests[0]) && requests == seq![
            requests[0],
        ] + after.pending && after.results.len() == 0,
        requests.len() == 0 ==> (turn matches Turn::Done(results) && results@.len() == 0)
            && after.pending.len() == 0,
{
    if requests.len() > 0 {
        assert(requests =~= seq![requests[0]] + after.pending);
    }
}

} // verus!
