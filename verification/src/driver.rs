//! The stream driver: it numbers the messages of a run, feeds them to the
//! engine file by file, counts for every file the peers that were seen
//! without a ledger, and closes the run.

use vstd::prelude::*;
use crate::engine::{EngineSimulation, IngestResult};
use crate::error::EngineError;
use crate::model::{
    after_ingest,
    flush_rows,
    ingest_error,
    ingest_outcome,
    total_wanted,
    EngineView,
    IngestView,
};
use crate::naming::{decimal, decimal_string, signed_decimal, signed_decimal_string};
use crate::text::texts;
use crate::timestamp::Timestamp;
use crate::wantlist::{rows_view, CSVWantlistEntry, JSONMessage, MessageView};

verus! {

/// One row of the ledger count output: how many ledgers there were when a
/// file was done, and how many of them the file had to start for peers that
/// were seen without one.
#[derive(Clone, Copy, Debug, PartialEq, Eq, Structural)]
pub struct CSVLedgerCount {
    pub ts_secs: i64,
    pub missing_ledgers: u64,
    pub total_ledgers: usize,
}

impl CSVLedgerCount {
    /// The columns of the row in the order in which they are written, the
    /// numbers in decimal digits.
    pub open spec fn record(self) -> Seq<Seq<char>> {
        seq![
            signed_decimal(self.ts_secs as int),
            decimal(self.missing_ledgers as nat),
            decimal(self.total_ledgers as nat),
        ]
    }

    /// The columns of the row as they are written.
    pub fn to_record(&self) -> (r: Vec<String>)
        ensures
            texts(r@) == self.record(),
    {
        let mut record: Vec<String> = Vec::new();
        record.push(signed_decimal_string(self.ts_secs));
        record.push(decimal_string(self.missing_ledgers));
        record.push(decimal_string(self.total_ledgers as u64));
        assert(texts(record@) =~= self.record());
        record
    }
}

/// The stream driver as contracts see it.
pub struct DriverView {
    pub engine: EngineView,
    /// The id of the last message that was accepted; zero before the first.
    pub current_message_id: i64,
    /// The time of the last message of the current file.
    pub last_message_ts: Option<Timestamp>,
    /// How many messages of the current file started a ledger for a peer
    /// that was seen without one.
    pub missing_ledgers: u64,
    /// The time of the last message of the last file that had one.
    pub final_ts: Option<Timestamp>,
}

impl DriverView {
    /// The invariant of the driver: the engine is well formed, and the count
    /// of missing ledgers is not larger than the count of messages.
    pub open spec fn wf(self) -> bool {
        &&& self.engine.wf()
        &&& 0 <= self.missing_ledgers <= self.current_message_id
    }

    /// Why the driver refuses a message, if it does: no id is left for it,
    /// or the engine refuses it.
    pub open spec fn message_error(self, m: MessageView) -> Option<EngineError> {
        if self.current_message_id == i64::MAX {
            Some(EngineError::MessageIdOverflow)
        } else {
            ingest_error(self.engine, m)
        }
    }

    /// The id that the next message gets.
    pub open spec fn next_id(self) -> i64 {
        (self.current_message_id + 1) as i64
    }

    /// The outcome of a message that is not refused.
    pub open spec fn message_outcome(self, m: MessageView) -> IngestView {
        ingest_outcome(self.engine, m, self.next_id())
    }

    /// The driver after a message that is not refused.
    pub open spec fn after_message(self, m: MessageView) -> DriverView {
        DriverView {
            engine: after_ingest(self.engine, m),
            current_message_id: self.next_id(),
            last_message_ts: Some(m.timestamp),
            missing_ledgers: if self.message_outcome(m).missing_ledger {
                (self.missing_ledgers + 1) as u64
            } else {
                self.missing_ledgers
            },
            final_ts: self.final_ts,
        }
    }

    /// The driver at the start of a file.
    pub open spec fn at_file_start(self) -> DriverView {
        DriverView {
            engine: self.engine,
            current_message_id: self.current_message_id,
            last_message_ts: None,
            missing_ledgers: 0,
            final_ts: self.final_ts,
        }
    }

    /// The driver at the end of a file.
    pub open spec fn at_file_end(self) -> DriverView {
        DriverView {
            engine: self.engine,
            current_message_id: self.current_message_id,
            last_message_ts: self.last_message_ts,
            missing_ledgers: self.missing_ledgers,
            final_ts: if self.last_message_ts is Some {
                self.last_message_ts
            } else {
                self.final_ts
            },
        }
    }

    /// The row of the ledger counts for the file that ends, if the file had
    /// a message.
    pub open spec fn ledger_count(self) -> Option<CSVLedgerCount> {
        match self.last_message_ts {
            Some(last) => Some(
                CSVLedgerCount {
                    ts_secs: last.seconds,
                    missing_ledgers: self.missing_ledgers,
                    total_ledgers: self.engine.peers.len() as usize,
                },
            ),
            None => None,
        }
    }
}

/// The state of a run over a series of files.
#[derive(Clone, Debug)]
pub struct StreamDriver {
    engine: EngineSimulation,
    current_message_id: i64,
    last_message_ts: Option<Timestamp>,
    missing_ledgers: u64,
    final_ts: Option<Timestamp>,
}

impl View for StreamDriver {
    type V = DriverView;

    closed spec fn view(&self) -> DriverView {
        DriverView {
            engine: self.engine@,
            current_message_id: self.current_message_id,
            last_message_ts: self.last_message_ts,
            missing_ledgers: self.missing_ledgers,
            final_ts: self.final_ts,
        }
    }
}

impl StreamDriver {
    /// The invariant of the driver.
    pub open spec fn wf(&self) -> bool {
        self@.wf()
    }

    /// A driver for a run that is about to start, around the engine that it
    /// feeds. No message has an id yet.
    pub fn new(engine: EngineSimulation) -> (r: StreamDriver)
        requires
            engine.wf(),
        ensures
            r.wf(),
            r@ == (DriverView {
                engine: engine@,
                current_message_id: 0,
                last_message_ts: None,
                missing_ledgers: 0,
                final_ts: None,
            }),
    {
        StreamDriver {
            engine,
            current_message_id: 0,
            last_message_ts: None,
            missing_ledgers: 0,
            final_ts: None,
        }
    }

    /// The engine that the driver feeds.
    pub fn engine(&self) -> (r: &EngineSimulation)
        ensures
            r@ == self@.engine,
    {
        &self.engine
    }

    /// The id of the last message that was accepted; zero before the first.
    pub fn current_message_id(&self) -> (r: i64)
        ensures
            r == self@.current_message_id,
    {
        self.current_message_id
    }

    /// Starts a file: the counts of the file before are forgotten.
    pub fn begin_file(&mut self)
        requires
            old(self).wf(),
        ensures
            final(self).wf(),
            final(self)@ == old(self)@.at_file_start(),
    {
        self.last_message_ts = None;
        self.missing_ledgers = 0;
    }

    /// Takes in the next message of the current file. The message gets the
    /// id after that of the message before it, and every row that it yields
    /// carries that id. A message that is refused changes nothing, and its
    /// id is not used up.
    pub fn next_message(&mut self, msg: &JSONMessage) -> (r: Result<IngestResult, EngineError>)
        requires
            old(self).wf(),
        ensures
            final(self).wf(),
            match old(self)@.message_error(msg@) {
                Some(e) => r == Err::<IngestResult, EngineError>(e) && final(self)@ == old(self)@,
                None => r is Ok && r->Ok_0@ == old(self)@.message_outcome(msg@) && final(self)@
                    == old(self)@.after_message(msg@),
            },
    {
        if self.current_message_id == i64::MAX {
            return Err(EngineError::MessageIdOverflow);
        }
        let id = self.current_message_id + 1;
        let result = match self.engine.ingest(msg, id) {
            Ok(result) => result,
            Err(e) => {
                return Err(e);
            },
        };
        self.current_message_id = id;
        self.last_message_ts = Some(msg.timestamp);
        if result.missing_ledger {
            self.missing_ledgers = self.missing_ledgers + 1;
        }
        Ok(result)
    }

    /// Ends the current file. A file that had a message yields a row of
    /// ledger counts, at the time of its last message, and that time becomes
    /// the time at which the run would end.
    pub fn end_file(&mut self) -> (r: Option<CSVLedgerCount>)
        requires
            old(self).wf(),
        ensures
            final(self).wf(),
            final(self)@ == old(self)@.at_file_end(),
            r == old(self)@.ledger_count(),
    {
        match self.last_message_ts {
            Some(last) => {
                self.final_ts = Some(last);
                Some(
                    CSVLedgerCount {
                        ts_secs: last.timestamp(),
                        missing_ledgers: self.missing_ledgers,
                        total_ledgers: self.engine.num_ledgers(),
                    },
                )
            },
            None => None,
        }
    }

    /// Closes the run: the synthetic cancels for everything that is still
    /// wanted, at the time of the last message of the run, with ids that
    /// follow the id of the last message. A run without a message has no
    /// such time and yields nothing.
    pub fn finish(&self) -> (r: Result<Option<Vec<CSVWantlistEntry>>, EngineError>)
        requires
            self.wf(),
        ensures
            self@.final_ts is None ==> r is Ok && r->Ok_0 is None,
            self@.final_ts is Some && self@.current_message_id + 1 + total_wanted(
                self@.engine.peers,
            ) > i64::MAX + 1 ==> r is Err && r->Err_0 == EngineError::MessageIdOverflow,
            self@.final_ts is Some && self@.current_message_id + 1 + total_wanted(
                self@.engine.peers,
            ) <= i64::MAX + 1 ==> r is Ok && r->Ok_0 is Some && rows_view(r->Ok_0->0@)
                == flush_rows(
                self@.engine.peers,
                self@.final_ts->0,
                self@.current_message_id + 1,
            ),
    {
        let ts = match self.final_ts {
            Some(ts) => ts,
            None => {
                return Ok(None);
            },
        };
        if self.current_message_id == i64::MAX {
            return Self::finish_at_last_id(&self.engine, ts);
        }
        match self.engine.generate_end_of_simulation_entries(ts, self.current_message_id + 1) {
            Ok(rows) => Ok(Some(rows)),
            Err(e) => Err(e),
        }
    }

    /// Closes a run whose last message has the last id there is: nothing
    /// may be left to cancel.
    fn finish_at_last_id(engine: &EngineSimulation, ts: Timestamp) -> (r: Result<
        Option<Vec<CSVWantlistEntry>>,
        EngineError,
    >)
        ensures
            total_wanted(engine@.peers) > 0 ==> r is Err && r->Err_0
                == EngineError::MessageIdOverflow,
            total_wanted(engine@.peers) == 0 ==> r is Ok && r->Ok_0 is Some && rows_view(
                r->Ok_0->0@,
            ) == flush_rows(engine@.peers, ts, i64::MAX + 1),
    {
        match engine.generate_end_of_simulation_entries(ts, i64::MAX) {
            Ok(rows) => {
                if rows.len() == 0 {
                    proof {
                        crate::laws::lemma_flush_rows(engine@.peers, ts, i64::MAX as int, 0);
                        crate::laws::lemma_flush_rows(engine@.peers, ts, i64::MAX + 1, 0);
                        assert(rows_view(rows@) =~= flush_rows(engine@.peers, ts, i64::MAX + 1));
                    }
                    Ok(Some(rows))
                } else {
                    proof {
                        crate::laws::lemma_flush_rows(engine@.peers, ts, i64::MAX as int, 0);
                    }
                    Err(EngineError::MessageIdOverflow)
                }
            },
            Err(e) => {
                Err(e)
            },
        }
    }
}

/// Messages that follow each other get ids that follow each other: every
/// row of the later message has a larger id than every row of the earlier
/// one.
pub proof fn lemma_message_ids_ascend(
    d: DriverView,
    first: MessageView,
    second: MessageView,
    i: int,
    j: int,
)
    requires
        d.wf(),
        d.message_error(first) is None,
        d.after_message(first).message_error(second) is None,
        d.message_outcome(first).wantlist_entries is Some,
        d.after_message(first).message_outcome(second).wantlist_entries is Some,
        0 <= i < d.message_outcome(first).wantlist_entries->0.len(),
        0 <= j < d.after_message(first).message_outcome(second).wantlist_entries->0.len(),
    ensures
        d.after_message(first).current_message_id == d.current_message_id + 1,
        d.message_outcome(first).wantlist_entries->0[i].message_id == d.current_message_id + 1,
        d.after_message(first).message_outcome(second).wantlist_entries->0[j].message_id
            == d.current_message_id + 2,
{
    crate::laws::lemma_rows_carry_message_id(d.engine, first, d.next_id(), i);
    crate::laws::lemma_rows_carry_message_id(
        d.after_message(first).engine,
        second,
        d.after_message(first).next_id(),
        j,
    );
}

} // verus!
