//! Queries that wait to be written, and when they are.

use crate::database::queries::StoredQuery;
use vstd::prelude::*;

verus! {

/// How many queries are written at the latest in one go.
pub const BATCH_SIZE: usize = 100;

/// What happens to the writer.
pub enum WriterEvent {
    /// A query arrived.
    Query(StoredQuery),
    /// No more queries will arrive.
    Closed,
    /// The time for a write has come.
    Tick,
    /// The server stops.
    Shutdown,
}

/// What the writer does: write the queries, and then stop or go on.
pub struct WriterAction {
    pub write: Vec<StoredQuery>,
    pub stop: bool,
}

/// The queries that wait.
pub struct Batch {
    pub queries: Vec<StoredQuery>,
}

/// What an event does: the queries `before` waited, `write` are written, `after` wait then, and the
/// writer stops or does not. Nothing that arrived is lost, and it keeps its order; a query is written
/// at once only together with those before it, when there are a hundred of them; anything else that
/// happens writes all.
pub open spec fn is_handled(
    before: Seq<StoredQuery>,
    event: WriterEvent,
    write: Seq<StoredQuery>,
    stop: bool,
    after: Seq<StoredQuery>,
) -> bool {
    let all = match event {
        WriterEvent::Query(q) => before.push(q),
        _ => before,
    };
    let due = all.len() >= 100 || !(event is Query);
    &&& write == (if due {
        all
    } else {
        Seq::empty()
    })
    &&& after == (if due {
        Seq::empty()
    } else {
        all
    })
    &&& stop == (event is Closed || event is Shutdown)
}

impl Batch {
    /// No query waits.
    pub fn new() -> (r: Batch)
        ensures
            r.queries@ == Seq::<StoredQuery>::empty(),
    {
        Batch { queries: Vec::new() }
    }

    /// Takes the queries that wait.
    fn take(&mut self) -> (r: Vec<StoredQuery>)
        ensures
            r@ == old(self).queries@,
            final(self).queries@ == Seq::<StoredQuery>::empty(),
    {
        let mut out: Vec<StoredQuery> = Vec::new();
        out.append(&mut self.queries);
        out
    }

    /// Handles an event. Queries wait until there are enough of them, until the next tick, or until
    /// the writer stops; what is written does not wait any more.
    pub fn handle(&mut self, event: WriterEvent) -> (r: WriterAction)
        requires
            old(self).queries@.len() < BATCH_SIZE,
        ensures
            final(self).queries@.len() < BATCH_SIZE,
            r.stop == (event is Closed || event is Shutdown),
            match event {
                WriterEvent::Query(q) => if old(self).queries@.len() + 1 >= BATCH_SIZE {
                    r.write@ == old(self).queries@.push(q) && final(self).queries@.len() == 0
                } else {
                    r.write@.len() == 0 && final(self).queries@ == old(self).queries@.push(q)
                },
                _ => r.write@ == old(self).queries@ && final(self).queries@.len() == 0,
            },
            is_handled(old(self).queries@, event, r.write@, r.stop, final(self).queries@),
    {
        match event {
            WriterEvent::Query(q) => {
                self.queries.push(q);
                if self.queries.len() >= BATCH_SIZE {
                    WriterAction { write: self.take(), stop: false }
                } else {
                    let none: Vec<StoredQuery> = Vec::new();
                    assert(none@ =~= Seq::empty());
                    WriterAction { write: none, stop: false }
                }
            },
            WriterEvent::Tick => WriterAction { write: self.take(), stop: false },
            WriterEvent::Closed => WriterAction { write: self.take(), stop: true },
            WriterEvent::Shutdown => WriterAction { write: self.take(), stop: true },
        }
    }
}

/// What the queries that have arrived so far make together: those that were written, then those
/// that wait.
pub open spec fn arrived(written: Seq<StoredQuery>, waiting: Seq<StoredQuery>) -> Seq<StoredQuery> {
    written + waiting
}

/// No query is lost or written twice: an event adds to what has arrived the query that it brings,
/// and nothing else.
pub proof fn law_every_query_is_written_once(
    written: Seq<StoredQuery>,
    before: Seq<StoredQuery>,
    event: WriterEvent,
    write: Seq<StoredQuery>,
    after: Seq<StoredQuery>,
)
    requires
        match event {
            WriterEvent::Query(q) => if before.len() + 1 >= BATCH_SIZE {
                write == before.push(q) && after.len() == 0
            } else {
                write.len() == 0 && after == before.push(q)
            },
            _ => write == before && after.len() == 0,
        },
    ensures
        match event {
            WriterEvent::Query(q) => arrived(written + write, after) == arrived(
                written,
                before,
            ).push(q),
            _ => arrived(written + write, after) == arrived(written, before),
        },
{
    match event {
        WriterEvent::Query(q) => {
            assert(arrived(written + write, after) =~= arrived(written, before).push(q));
        },
        _ => {
            assert(arrived(written + write, after) =~= arrived(written, before));
        },
    }
}

/// A writer never keeps a hundred queries waiting, writes at most a hundred in one go, loses none and
/// writes none twice, keeps their order, and leaves none behind when it stops.
pub proof fn law_writer_keeps_every_query(
    written: Seq<StoredQuery>,
    before: Seq<StoredQuery>,
    event: WriterEvent,
    write: Seq<StoredQuery>,
    stop: bool,
    after: Seq<StoredQuery>,
)
    requires
        is_handled(before, event, write, stop, after),
        before.len() < 100,
    ensures
        after.len() < 100,
        write.len() <= 100,
        stop ==> after.len() == 0,
        stop <==> event is Closed || event is Shutdown,
        event is Tick ==> after.len() == 0,
        event is Query && before.len() < 99 ==> write.len() == 0,
        event matches WriterEvent::Query(q) ==> (written + write) + after == (written + before).push(
            q,
        ),
        !(event is Query) ==> (written + write) + after == written + before,
{
    match event {
        WriterEvent::Query(q) => {
            assert((written + write) + after =~= (written + before).push(q));
        },
        _ => {
            assert((written + write) + after =~= written + before);
        },
    }
}

} // verus!
