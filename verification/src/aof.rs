//! The append-only durability log.  Every committed mutation is written as
//! one line, `SET <key> <value>` or `DEL <key>`, before the in-memory map
//! changes; replaying the lines in file order reconstructs the map at
//! startup.  Unrecognised lines are skipped, not fatal.
use vstd::prelude::*;
use vstd::string::StringExecFns;
use crate::text::{split_chars, split_string, free_of, lemma_split_join};

verus! {

/// One durable mutation.
pub enum LogRecord {
    SetOp { key: String, value: String },
    DelOp { key: String },
}

/// The mathematical shape of one durable mutation.
#[verifier::ext_equal]
pub enum LogRecView {
    SetOp { key: Seq<char>, value: Seq<char> },
    DelOp { key: Seq<char> },
}

impl View for LogRecord {
    type V = LogRecView;

    open spec fn view(&self) -> LogRecView {
        match self {
            LogRecord::SetOp { key, value } => LogRecView::SetOp { key: key@, value: value@ },
            LogRecord::DelOp { key } => LogRecView::DelOp { key: key@ },
        }
    }
}

impl DeepView for LogRecord {
    type V = LogRecView;

    open spec fn deep_view(&self) -> LogRecView {
        self.view()
    }
}

/// The keyword that opens a `SET` line.
pub open spec fn set_word() -> Seq<char> {
    seq!['S', 'E', 'T']
}

/// The keyword that opens a `DEL` line.
pub open spec fn del_word() -> Seq<char> {
    seq!['D', 'E', 'L']
}

/// The log line for one record, without its terminating newline.
pub open spec fn record_line(r: LogRecView) -> Seq<char> {
    match r {
        LogRecView::SetOp { key, value } => set_word() + seq![' '] + key + seq![' '] + value,
        LogRecView::DelOp { key } => del_word() + seq![' '] + key,
    }
}

/// Whether a record can be framed on one line: its strings hold neither the
/// separating space nor a line break.  The log grammar requires this of keys
/// and values.
pub open spec fn clean_rec(r: LogRecView) -> bool {
    match r {
        LogRecView::SetOp { key, value } => free_of(key, ' ') && free_of(key, '\n') && free_of(
            value,
            ' ',
        ) && free_of(value, '\n'),
        LogRecView::DelOp { key } => free_of(key, ' ') && free_of(key, '\n'),
    }
}

/// The record a line denotes: exactly `SET <key> <value>` or `DEL <key>`,
/// anything else is unrecognised.
pub open spec fn parse_line_spec(line: Seq<char>) -> Option<LogRecView> {
    let p = split_chars(line, ' ');
    if p.len() == 3 && p[0] == set_word() {
        Option::Some(LogRecView::SetOp { key: p[1], value: p[2] })
    } else if p.len() == 2 && p[0] == del_word() {
        Option::Some(LogRecView::DelOp { key: p[1] })
    } else {
        Option::None
    }
}

/// One record applied to a map: a set binds, a delete removes regardless of
/// prior state.
pub open spec fn apply_rec(m: Map<Seq<char>, Seq<char>>, r: LogRecView) -> Map<
    Seq<char>,
    Seq<char>,
> {
    match r {
        LogRecView::SetOp { key, value } => m.insert(key, value),
        LogRecView::DelOp { key } => m.remove(key),
    }
}

/// A run of records applied in order.
pub open spec fn apply_all(m: Map<Seq<char>, Seq<char>>, rs: Seq<LogRecView>) -> Map<
    Seq<char>,
    Seq<char>,
>
    decreases rs.len(),
{
    if rs.len() == 0 {
        m
    } else {
        apply_rec(apply_all(m, rs.drop_last()), rs.last())
    }
}

/// The records recovered from a sequence of lines, unrecognised lines
/// skipped.
pub open spec fn parsed_records(lines: Seq<Seq<char>>) -> Seq<LogRecView>
    decreases lines.len(),
{
    if lines.len() == 0 {
        Seq::<LogRecView>::empty()
    } else {
        parsed_records(lines.drop_last()) + match parse_line_spec(lines.last()) {
            Option::Some(r) => seq![r],
            Option::None => Seq::<LogRecView>::empty(),
        }
    }
}

/// The map that replaying a log file reconstructs.
pub open spec fn replay_map(lines: Seq<Seq<char>>) -> Map<Seq<char>, Seq<char>> {
    apply_all(Map::<Seq<char>, Seq<char>>::empty(), parsed_records(lines))
}

/// Print one record as its log line.
pub fn format_record(r: &LogRecord) -> (s: String)
    ensures
        s@ == record_line(r@),
{
    proof {
        reveal_strlit("SET ");
        reveal_strlit("DEL ");
        reveal_strlit(" ");
    }
    let mut s = String::new();
    match r {
        LogRecord::SetOp { key, value } => {
            s.append("SET ");
            s.append(key.as_str());
            s.append(" ");
            s.append(value.as_str());
            proof {
                assert(s@ =~= record_line(r@));
            }
        },
        LogRecord::DelOp { key } => {
            s.append("DEL ");
            s.append(key.as_str());
            proof {
                assert(s@ =~= record_line(r@));
            }
        },
    }
    s
}

/// Read one log line back as a record, if it is well formed.
pub fn parse_line(line: &String) -> (r: Option<LogRecord>)
    ensures
        match r {
            Option::Some(rec) => parse_line_spec(line@) == Option::Some(rec@),
            Option::None => parse_line_spec(line@) is None,
        },
{
    let parts = split_string(line.as_str(), ' ');
    let set_w = String::from_str("SET");
    let del_w = String::from_str("DEL");
    proof {
        reveal_strlit("SET");
        reveal_strlit("DEL");
        assert(set_w@ =~= set_word());
        assert(del_w@ =~= del_word());
    }
    if parts.len() == 3 && parts[0].eq(&set_w) {
        Some(LogRecord::SetOp { key: parts[1].clone(), value: parts[2].clone() })
    } else if parts.len() == 2 && parts[0].eq(&del_w) {
        Some(LogRecord::DelOp { key: parts[1].clone() })
    } else {
        None
    }
}

/// A clean record's line parses back to exactly that record.
pub proof fn lemma_line_round_trip(r: LogRecView)
    requires
        clean_rec(r),
    ensures
        parse_line_spec(record_line(r)) == Option::Some(r),
{
    match r {
        LogRecView::SetOp { key, value } => {
            let pieces = seq![set_word(), key, value];
            lemma_split_join(pieces, ' ');
            assert(crate::text::join_chars(pieces, ' ') =~= record_line(r)) by {
                assert(pieces.drop_first() =~= seq![key, value]);
                assert(seq![key, value].drop_first() =~= seq![value]);
                assert(crate::text::join_chars(seq![value], ' ') == value);
                assert(crate::text::join_chars(seq![key, value], ' ') =~= key + seq![' ']
                    + value);
                assert(crate::text::join_chars(pieces, ' ') =~= set_word() + seq![' '] + (key
                    + seq![' '] + value));
            }
            assert(split_chars(record_line(r), ' ') =~~= pieces);
        },
        LogRecView::DelOp { key } => {
            let pieces = seq![del_word(), key];
            lemma_split_join(pieces, ' ');
            assert(crate::text::join_chars(pieces, ' ') =~= record_line(r)) by {
                assert(pieces.drop_first() =~= seq![key]);
                assert(crate::text::join_chars(seq![key], ' ') == key);
                assert(crate::text::join_chars(pieces, ' ') =~= del_word() + seq![' '] + key);
            }
            assert(split_chars(record_line(r), ' ') =~~= pieces);
            assert(split_chars(record_line(r), ' ')[0] != set_word());
        },
    }
}

/// Durability: the log lines written for a run of clean mutations replay to
/// exactly the map those mutations build from empty.
pub proof fn lemma_log_replay(recs: Seq<LogRecView>)
    requires
        forall|i: int| 0 <= i < recs.len() ==> clean_rec(#[trigger] recs[i]),
    ensures
        replay_map(recs.map_values(|r: LogRecView| record_line(r))) == apply_all(
            Map::<Seq<char>, Seq<char>>::empty(),
            recs,
        ),
    decreases recs.len(),
{
    let lines = recs.map_values(|r: LogRecView| record_line(r));
    if recs.len() == 0 {
        assert(parsed_records(lines) =~= Seq::<LogRecView>::empty());
    } else {
        lemma_log_replay(recs.drop_last());
        lemma_line_round_trip(recs.last());
        assert(lines.drop_last() =~= recs.drop_last().map_values(
            |r: LogRecView| record_line(r),
        ));
        assert(lines.last() == record_line(recs.last()));
        assert(parsed_records(lines) =~= parsed_records(lines.drop_last()) + seq![recs.last()]);
        assert(parsed_records(lines) =~= parsed_records(lines.drop_last()).push(recs.last()));
        assert(parsed_records(lines).drop_last() =~= parsed_records(lines.drop_last()));
        assert(parsed_records(lines).last() == recs.last());
    }
}

} // verus!
