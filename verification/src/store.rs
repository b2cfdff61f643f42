//! The key-value store.  Mutations are recorded in the durability history
//! strictly before the in-memory map changes; the well-formedness invariant
//! says the map is exactly what replaying that history from empty builds, so
//! crash recovery by replay can never disagree with the memory it replaces.
use vstd::prelude::*;
use crate::smap::SMap;
use crate::aof::{
    LogRecord,
    LogRecView,
    apply_all,
    apply_rec,
    clean_rec,
    parse_line,
    parse_line_spec,
    parsed_records,
    record_line,
    replay_map,
    lemma_log_replay,
};

verus! {

/// The key→value map of one store instance, with the ghost history of every
/// mutation it has logged.
pub struct Store {
    kv: SMap<String>,
    history: Ghost<Seq<LogRecView>>,
}

impl Store {
    /// The records this store has appended to its durability log, oldest
    /// first, recovered records included.
    pub closed spec fn log(&self) -> Seq<LogRecView> {
        self.history@
    }

    /// The key→value map this store holds.
    pub closed spec fn view(&self) -> Map<Seq<char>, Seq<char>> {
        self.kv@
    }

    /// The map is exactly what replaying the history from empty builds.
    pub closed spec fn wf(&self) -> bool {
        &&& self.kv.wf()
        &&& self@ == apply_all(Map::<Seq<char>, Seq<char>>::empty(), self.log())
    }

    /// An empty store with an empty history.
    pub fn new() -> (s: Store)
        ensures
            s.wf(),
            s@ == Map::<Seq<char>, Seq<char>>::empty(),
            s.log() == Seq::<LogRecView>::empty(),
    {
        Store { kv: SMap::new(), history: Ghost(Seq::empty()) }
    }

    /// Rebuild a store from the lines of its durability log, in file order,
    /// skipping unrecognised lines: last write wins, a delete removes
    /// regardless of prior state.
    pub fn recover(lines: &Vec<String>) -> (s: Store)
        ensures
            s.wf(),
            s.log() == parsed_records(lines.deep_view()),
            s@ == replay_map(lines.deep_view()),
    {
        let mut s = Store::new();
        let n = lines.len();
        let mut i: usize = 0;
        while i < n
            invariant
                i <= n == lines@.len(),
                s.wf(),
                s.log() == parsed_records(lines.deep_view().take(i as int)),
                s@ == replay_map(lines.deep_view().take(i as int)),
            decreases n - i,
        {
            proof {
                assert(lines.deep_view().take(i + 1).drop_last() =~= lines.deep_view().take(
                    i as int,
                ));
                assert(lines.deep_view().take(i + 1).last() == lines.deep_view()[i as int]);
                assert(lines.deep_view()[i as int] == lines@[i as int]@);
            }
            match parse_line(&lines[i]) {
                Option::Some(rec) => {
                    s.apply_record(rec);
                    proof {
                        let lv = lines.deep_view();
                        let r = parse_line_spec(lv[i as int])->0;
                        assert(parsed_records(lv.take(i + 1)) == parsed_records(lv.take(i as int))
                            + seq![r]);
                        assert(s.log() == parsed_records(lv.take(i as int)).push(r));
                        assert(parsed_records(lv.take(i as int)) + seq![r] =~= parsed_records(
                            lv.take(i as int),
                        ).push(r));
                        assert(parsed_records(lv.take(i + 1)) == s.log());
                    }
                },
                Option::None => {
                    proof {
                        let lv = lines.deep_view();
                        assert(parsed_records(lv.take(i + 1)) == parsed_records(lv.take(i as int))
                            + Seq::<LogRecView>::empty());
                        assert(parsed_records(lv.take(i + 1)) =~= s.log());
                    }
                },
            }
            i = i + 1;
        }
        proof {
            assert(lines.deep_view().take(n as int) =~= lines.deep_view());
        }
        s
    }

    /// Apply one recovered record: a set binds its key, a delete removes its
    /// key whether or not it was bound.  The record joins the history either
    /// way — it stands in the log file already.
    fn apply_record(&mut self, rec: LogRecord)
        requires
            old(self).wf(),
        ensures
            final(self).wf(),
            final(self).log() == old(self).log().push(rec@),
            final(self)@ == apply_rec(old(self)@, rec@),
    {
        proof {
            assert(self.history@.push(rec@).drop_last() =~= self.history@);
        }
        self.history = Ghost(self.history@.push(rec@));
        match rec {
            LogRecord::SetOp { key, value } => {
                self.kv.insert(key, value);
            },
            LogRecord::DelOp { key } => {
                self.kv.remove(&key);
            },
        }
    }

    /// The value bound to a key, if any.  Reading changes nothing.
    pub fn get(&self, key: &String) -> (r: Option<&String>)
        requires
            self.wf(),
        ensures
            match r {
                Option::Some(v) => self@.contains_key(key@) && v@ == self@[key@],
                Option::None => !self@.contains_key(key@),
            },
    {
        self.kv.get(key)
    }

    /// Unconditional upsert: bind the key to the value, recording the
    /// mutation in the history first.
    pub fn set(&mut self, key: String, value: String)
        requires
            old(self).wf(),
        ensures
            final(self).wf(),
            final(self)@ == old(self)@.insert(key@, value@),
            final(self).log() == old(self).log().push(LogRecView::SetOp { key: key@, value: value@ }),
    {
        proof {
            let r = LogRecView::SetOp { key: key@, value: value@ };
            assert(self.history@.push(r).drop_last() =~= self.history@);
        }
        self.history = Ghost(self.history@.push(LogRecView::SetOp { key: key@, value: value@ }));
        self.kv.insert(key, value);
    }

    /// Remove a key; report whether it was bound.  Only a delete that found
    /// the key is recorded in the history — deleting an absent key mutates
    /// nothing.
    pub fn del(&mut self, key: &String) -> (existed: bool)
        requires
            old(self).wf(),
        ensures
            final(self).wf(),
            existed == old(self)@.contains_key(key@),
            final(self)@ == old(self)@.remove(key@),
            existed ==> final(self).log() == old(self).log().push(
                LogRecView::DelOp { key: key@ },
            ),
            !existed ==> final(self).log() == old(self).log() && final(self)@ == old(self)@,
    {
        if self.kv.contains(key) {
            proof {
                let r = LogRecView::DelOp { key: key@ };
                assert(self.history@.push(r).drop_last() =~= self.history@);
            }
            self.history = Ghost(self.history@.push(LogRecView::DelOp { key: key@ }));
            self.kv.remove(key);
            true
        } else {
            proof {
                assert(old(self)@.remove(key@) =~= old(self)@);
            }
            false
        }
    }

    /// Durability: replaying the lines this store has logged reproduces its
    /// current map exactly, provided every logged key and value fits the
    /// line grammar (no spaces, no line breaks).
    pub proof fn lemma_durable(&self)
        requires
            self.wf(),
            forall|i: int| 0 <= i < self.log().len() ==> clean_rec(#[trigger] self.log()[i]),
        ensures
            replay_map(self.log().map_values(|r: LogRecView| record_line(r))) == self@,
    {
        lemma_log_replay(self.log());
    }
}

} // verus!
