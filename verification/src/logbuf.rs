//! The bounded log appender: accumulates child output lines under a
//! character budget, truncates at the budget boundary, and signals overflow
//! with a fixed sentinel message. Counting is in Unicode scalar values.
//!
//! Draining happens in rounds: a round gathers the lines that arrived while
//! the previous database flush was outstanding, joins them, and ships the
//! joined text as one segment. The model here takes the grouping of lines
//! into rounds as an input, since it is decided by timing.
use vstd::prelude::*;
use vstd::string::*;

verus! {

/// One item seen by the drain loop: a line of child output (newline already
/// stripped) or a read error from the pipe.
pub enum LineEvent {
    Line(String),
    IoError(String),
}

/// How many scalar values of a line of length `line_len` fit after the
/// newline is charged against a budget of `limit` (`limit >= 1`).
pub open spec fn payload_len(line_len: nat, limit: nat) -> nat
    recommends
        limit >= 1,
{
    if line_len <= limit - 1 {
        line_len
    } else {
        (limit - 1) as nat
    }
}

/// The character budget for a supervision's logs: the result-size ceiling
/// when running cloud-hosted, effectively unbounded otherwise.
pub open spec fn max_log_chars_spec(cloud_hosted: bool) -> nat {
    if cloud_hosted {
        crate::MAX_RESULT_SIZE as nat
    } else {
        usize::MAX as nat
    }
}

/// Picks the character budget for a supervision's logs.
pub fn max_log_chars(cloud_hosted: bool) -> (r: usize)
    ensures
        r as nat == max_log_chars_spec(cloud_hosted),
{
    if cloud_hosted {
        crate::MAX_RESULT_SIZE
    } else {
        usize::MAX
    }
}

/// The sentinel appended to the logs when the character budget runs out.
pub open spec fn overflow_sentinel_spec() -> Seq<char> {
    "Job logs or result reached character limit of "@.add(
        crate::text::dec_rep(crate::MAX_RESULT_SIZE as nat),
    ).add("; killing job."@)
}

/// Builds the overflow sentinel message.
pub fn overflow_sentinel() -> (r: String)
    ensures
        r@ == overflow_sentinel_spec(),
{
    let mut s = String::from_str("Job logs or result reached character limit of ");
    s.append(crate::text::u64_to_string(crate::MAX_RESULT_SIZE as u64).as_str());
    s.append("; killing job.");
    s
}

/// Appends `\n` then as much of `src` as the budget allows onto `dst`,
/// decrementing the budget by one for the newline and by one per payload
/// scalar value. A line that does not fit is truncated at a scalar-value
/// boundary and the budget reaches zero.
pub fn append_with_limit(dst: &mut String, src: &str, limit: &mut usize)
    requires
        *old(limit) > 0,
    ensures
        final(dst)@ == old(dst)@.add(seq!['\n']).add(
            src@.take(payload_len(src@.len(), *old(limit) as nat) as int),
        ),
        *final(limit) == *old(limit) - 1 - payload_len(src@.len(), *old(limit) as nat),
{
    proof {
        reveal_strlit("\n");
        assert("\n"@ =~= seq!['\n']);
    }
    dst.append("\n");
    *limit = *limit - 1;
    let n = src.unicode_len();
    if n <= *limit {
        dst.append(src);
        *limit = *limit - n;
        proof {
            assert(src@.take(src@.len() as int) =~= src@);
        }
    } else {
        let prefix = src.substring_char(0, *limit);
        dst.append(prefix);
        proof {
            assert(src@.subrange(0, *limit as int) =~= src@.take(*limit as int));
        }
        *limit = 0;
    }
}

/// What one drain round does, given the round's items and the budget at its
/// start: the joined text accumulated for this round's flush, the budget
/// afterwards, whether overflow was signalled, and the pipe error that ended
/// the round, if any.
///
/// A nonempty line is charged via `append_with_limit`; a line that does not
/// fit is truncated, the sentinel is appended and the round ends with the
/// overflow signalled. A line that exactly exhausts the budget is kept whole
/// with no sentinel. A nonempty line met with a zero budget would exceed it
/// by its newline alone: none of its content enters, the sentinel is
/// appended and the overflow is signalled. Empty lines are dropped. An
/// error ends the round and is reported, after the text gathered so far.
pub open spec fn round_model(items: Seq<LineEvent>, limit: nat) -> (Seq<char>, nat, bool, Option<
    Seq<char>,
>)
    decreases items.len(),
{
    if items.len() == 0 {
        (Seq::<char>::empty(), limit, false, None::<Seq<char>>)
    } else {
        match items[0] {
            LineEvent::IoError(e) => (Seq::<char>::empty(), limit, false, Some(e@)),
            LineEvent::Line(s) => {
                if s@.len() == 0 {
                    round_model(items.drop_first(), limit)
                } else if limit == 0 {
                    (overflow_sentinel_spec(), 0nat, true, None::<Seq<char>>)
                } else {
                    let appended = seq!['\n'].add(s@.take(payload_len(s@.len(), limit) as int));
                    let newlimit = (limit - 1 - payload_len(s@.len(), limit)) as nat;
                    if s@.len() > limit - 1 {
                        (appended.add(overflow_sentinel_spec()), 0nat, true, None::<Seq<char>>)
                    } else {
                        let rest = round_model(items.drop_first(), newlimit);
                        (appended.add(rest.0), rest.1, rest.2, rest.3)
                    }
                }
            },
        }
    }
}

/// The outcome of one drain round.
pub struct RoundResult {
    /// The text to ship to the database as this round's segment.
    pub joined: String,
    /// Whether the overflow one-shot was signalled during the round.
    pub overflow: bool,
    /// The pipe error that ended the round, if any.
    pub io_error: Option<String>,
}

fn drain_round_from(items: &Vec<LineEvent>, at: usize, limit: &mut usize) -> (r: RoundResult)
    requires
        at <= items@.len(),
    ensures
        ({
            let m = round_model(items@.skip(at as int), *old(limit) as nat);
            &&& r.joined@ == m.0
            &&& *final(limit) == m.1
            &&& r.overflow == m.2
            &&& (match (r.io_error, m.3) {
                (Some(e), Some(me)) => e@ == me,
                (None, None) => true,
                _ => false,
            })
        }),
    decreases items@.len() - at,
{
    proof {
        if at < items@.len() {
            assert(items@.skip(at as int).drop_first() =~= items@.skip(at as int + 1));
            assert(items@.skip(at as int)[0] == items@[at as int]);
        }
    }
    if at == items.len() {
        return RoundResult { joined: String::new(), overflow: false, io_error: None };
    }
    match &items[at] {
        LineEvent::IoError(e) => RoundResult {
            joined: String::new(),
            overflow: false,
            io_error: Some(e.clone()),
        },
        LineEvent::Line(s) => {
            if s.as_str().unicode_len() == 0 {
                drain_round_from(items, at + 1, limit)
            } else if *limit == 0 {
                RoundResult { joined: overflow_sentinel(), overflow: true, io_error: None }
            } else {
                let n = s.as_str().unicode_len();
                let lim0 = *limit;
                let mut joined = String::new();
                append_with_limit(&mut joined, s.as_str(), limit);
                if n > lim0 - 1 {
                    joined.append(overflow_sentinel().as_str());
                    RoundResult { joined, overflow: true, io_error: None }
                } else {
                    let rest = drain_round_from(items, at + 1, limit);
                    let mut out = joined;
                    out.append(rest.joined.as_str());
                    RoundResult { joined: out, overflow: rest.overflow, io_error: rest.io_error }
                }
            }
        },
    }
}

/// Runs one drain round over `items` with the budget in `limit`, returning
/// the joined segment, the overflow signal, and any pipe error, exactly as
/// `round_model` describes.
pub fn drain_round(items: &Vec<LineEvent>, limit: &mut usize) -> (r: RoundResult)
    ensures
        ({
            let m = round_model(items@, *old(limit) as nat);
            &&& r.joined@ == m.0
            &&& *final(limit) == m.1
            &&& r.overflow == m.2
            &&& (match (r.io_error, m.3) {
                (Some(e), Some(me)) => e@ == me,
                (None, None) => true,
                _ => false,
            })
        }),
{
    proof {
        assert(items@.skip(0) =~= items@);
    }
    drain_round_from(items, 0, limit)
}

/// The concatenation of a sequence of log segments, in order.
pub open spec fn concat_segments(segs: Seq<Seq<char>>) -> Seq<char>
    decreases segs.len(),
{
    if segs.len() == 0 {
        Seq::<char>::empty()
    } else {
        segs[0].add(concat_segments(segs.drop_first()))
    }
}

/// What the whole drain loop does, given the lines grouped into rounds and
/// the starting budget: the segments shipped to the database in order, the
/// final budget, the overflow signal, and the error that stopped the drain,
/// if any. The loop stops after the first round that signals overflow or
/// ends in a pipe error; that round's segment is still shipped.
pub open spec fn drain_model(rounds: Seq<Seq<LineEvent>>, limit: nat) -> (Seq<Seq<char>>, nat, bool, Option<
    Seq<char>,
>)
    decreases rounds.len(),
{
    if rounds.len() == 0 {
        (Seq::<Seq<char>>::empty(), limit, false, None::<Seq<char>>)
    } else {
        let m = round_model(rounds[0], limit);
        if m.2 || m.3 is Some {
            (seq![m.0], m.1, m.2, m.3)
        } else {
            let rest = drain_model(rounds.drop_first(), m.1);
            (seq![m.0].add(rest.0), rest.1, rest.2, rest.3)
        }
    }
}

/// The outcome of a whole drain.
pub struct DrainResult {
    /// The segments handed to the database writer, in arrival order.
    pub segments: Vec<String>,
    /// Whether the overflow one-shot was signalled.
    pub overflow: bool,
    /// The pipe error that stopped the drain, if any.
    pub io_error: Option<String>,
}

/// The views of the shipped segments.
pub open spec fn segment_views(segs: Seq<String>) -> Seq<Seq<char>> {
    segs.map_values(|s: String| s@)
}

fn drain_rounds_from(
    rounds: &Vec<Vec<LineEvent>>,
    at: usize,
    limit: &mut usize,
    logs: &mut String,
) -> (r: DrainResult)
    requires
        at <= rounds@.len(),
    ensures
        ({
            let m = drain_model(rounds@.skip(at as int).map_values(|v: Vec<LineEvent>| v@), *old(
                limit,
            ) as nat);
            &&& segment_views(r.segments@) == m.0
            &&& *final(limit) == m.1
            &&& r.overflow == m.2
            &&& (match (r.io_error, m.3) {
                (Some(e), Some(me)) => e@ == me,
                (None, None) => true,
                _ => false,
            })
            &&& final(logs)@ == old(logs)@.add(concat_segments(m.0))
        }),
    decreases rounds@.len() - at,
{
    proof {
        if at < rounds@.len() {
            let mapped = rounds@.skip(at as int).map_values(|v: Vec<LineEvent>| v@);
            assert(mapped[0] == rounds@[at as int]@);
            assert(mapped.drop_first() =~= rounds@.skip(at as int + 1).map_values(
                |v: Vec<LineEvent>| v@,
            ));
        }
    }
    if at == rounds.len() {
        proof {
            assert(segment_views(Seq::<String>::empty()) =~= Seq::<Seq<char>>::empty());
        }
        return DrainResult { segments: Vec::new(), overflow: false, io_error: None };
    }
    let round = drain_round(&rounds[at], limit);
    logs.append(round.joined.as_str());
    if round.overflow || round.io_error.is_some() {
        let mut segments: Vec<String> = Vec::new();
        segments.push(round.joined);
        proof {
            let m = round_model(rounds@.skip(at as int).map_values(|v: Vec<LineEvent>| v@)[0], *old(
                limit,
            ) as nat);
            assert(segment_views(segments@) =~= seq![m.0]);
            assert(seq![m.0].drop_first() =~= Seq::<Seq<char>>::empty());
            assert(concat_segments(seq![m.0]) == m.0.add(
                concat_segments(Seq::<Seq<char>>::empty()),
            ));
            assert(m.0.add(Seq::<char>::empty()) =~= m.0);
        }
        DrainResult { segments, overflow: round.overflow, io_error: round.io_error }
    } else {
        let rest = drain_rounds_from(rounds, at + 1, limit, logs);
        let mut segments: Vec<String> = Vec::new();
        segments.push(round.joined);
        let mut rest_segments = rest.segments;
        segments.append(&mut rest_segments);
        proof {
            let m = round_model(rounds@.skip(at as int).map_values(|v: Vec<LineEvent>| v@)[0], *old(
                limit,
            ) as nat);
            let restm = drain_model(
                rounds@.skip(at as int + 1).map_values(|v: Vec<LineEvent>| v@),
                m.1,
            );
            let all = seq![m.0].add(restm.0);
            assert(segment_views(segments@) =~= all);
            assert(all.drop_first() =~= restm.0);
            assert(all[0] == m.0);
            assert(concat_segments(all) == m.0.add(concat_segments(restm.0)));
            assert(old(logs)@.add(m.0).add(concat_segments(restm.0)) =~= old(logs)@.add(
                m.0.add(concat_segments(restm.0)),
            ));
        }
        DrainResult { segments, overflow: rest.overflow, io_error: rest.io_error }
    }
}

/// Runs the whole drain loop: processes each round in order, appends each
/// round's joined text to the caller's local `logs`, and returns the shipped
/// segments, exactly as `drain_model` describes. The local `logs` ends up
/// extended by precisely the concatenation of the shipped segments.
pub fn drain_rounds(rounds: &Vec<Vec<LineEvent>>, limit: &mut usize, logs: &mut String) -> (r:
    DrainResult)
    ensures
        ({
            let m = drain_model(rounds@.map_values(|v: Vec<LineEvent>| v@), *old(limit) as nat);
            &&& segment_views(r.segments@) == m.0
            &&& *final(limit) == m.1
            &&& r.overflow == m.2
            &&& (match (r.io_error, m.3) {
                (Some(e), Some(me)) => e@ == me,
                (None, None) => true,
                _ => false,
            })
            &&& final(logs)@ == old(logs)@.add(concat_segments(m.0))
        }),
{
    proof {
        assert(rounds@.skip(0) =~= rounds@);
    }
    drain_rounds_from(rounds, 0, limit, logs)
}

/// What the database's `logs` column holds after the writer has appended a
/// sequence of segments one at a time, in order: an empty segment is a no-op,
/// any other is concatenated once onto the column.
pub open spec fn db_logs_after(db: Seq<char>, segs: Seq<Seq<char>>) -> Seq<char>
    decreases segs.len(),
{
    if segs.len() == 0 {
        db
    } else if segs[0].len() == 0 {
        db_logs_after(db, segs.drop_first())
    } else {
        db_logs_after(db.add(segs[0]), segs.drop_first())
    }
}

/// The database column after the drain equals the starting column followed
/// by the concatenation, in arrival order, of all shipped segments — each
/// appended exactly once, none twice.
pub proof fn lemma_db_logs_match_drain(db: Seq<char>, segs: Seq<Seq<char>>)
    ensures
        db_logs_after(db, segs) == db.add(concat_segments(segs)),
    decreases segs.len(),
{
    if segs.len() == 0 {
        assert(db.add(concat_segments(segs)) =~= db);
    } else {
        if segs[0].len() == 0 {
            lemma_db_logs_match_drain(db, segs.drop_first());
            assert(db.add(concat_segments(segs)) =~= db.add(concat_segments(segs.drop_first())));
        } else {
            lemma_db_logs_match_drain(db.add(segs[0]), segs.drop_first());
            assert(db.add(concat_segments(segs)) =~= db.add(segs[0]).add(
                concat_segments(segs.drop_first()),
            ));
        }
    }
}

/// Appends one shipped segment onto the database's `logs` column: a no-op
/// when the segment is empty, one concatenation otherwise.
pub fn apply_append(db_logs: &mut String, segment: &str)
    ensures
        final(db_logs)@ == db_logs_after(old(db_logs)@, seq![segment@]),
{
    proof {
        let segs = seq![segment@];
        assert(segs.drop_first() =~= Seq::<Seq<char>>::empty());
        if segment@.len() == 0 {
            assert(db_logs_after(old(db_logs)@, segs) == db_logs_after(
                old(db_logs)@,
                Seq::<Seq<char>>::empty(),
            ));
        } else {
            assert(db_logs_after(old(db_logs)@, segs) == db_logs_after(
                old(db_logs)@.add(segment@),
                Seq::<Seq<char>>::empty(),
            ));
        }
    }
    if segment.unicode_len() == 0 {
        return ;
    }
    db_logs.append(segment);
}

/// Once the budget is exhausted, no further line content enters the logs:
/// a round entered with a zero budget appends at most the sentinel — that,
/// exactly when a nonempty line arrives and the overflow is signalled — and
/// leaves the budget at zero.
pub proof fn lemma_zero_budget_admits_no_content(items: Seq<LineEvent>)
    ensures
        round_model(items, 0).1 == 0,
        round_model(items, 0).2 ==> round_model(items, 0).0 == overflow_sentinel_spec(),
        !round_model(items, 0).2 ==> round_model(items, 0).0 == Seq::<char>::empty(),
    decreases items.len(),
{
    if items.len() > 0 {
        match items[0] {
            LineEvent::IoError(e) => {},
            LineEvent::Line(s) => {
                if s@.len() == 0 {
                    lemma_zero_budget_admits_no_content(items.drop_first());
                }
            },
        }
    }
}

/// Once the budget is exhausted, the rest of the drain adds no line
/// content to the logs or the database: it ships at most the one sentinel,
/// on the first nonempty line to arrive, and stops there.
pub proof fn lemma_drain_zero_budget(rounds: Seq<Seq<LineEvent>>)
    ensures
        drain_model(rounds, 0).1 == 0,
        concat_segments(drain_model(rounds, 0).0) == Seq::<char>::empty() || concat_segments(
            drain_model(rounds, 0).0,
        ) == overflow_sentinel_spec(),
    decreases rounds.len(),
{
    if rounds.len() == 0 {
    } else {
        lemma_zero_budget_admits_no_content(rounds[0]);
        let m = round_model(rounds[0], 0);
        if m.2 || m.3 is Some {
            assert(seq![m.0].drop_first() =~= Seq::<Seq<char>>::empty());
            assert(concat_segments(seq![m.0]) == m.0.add(
                concat_segments(Seq::<Seq<char>>::empty()),
            ));
            assert(m.0.add(Seq::<char>::empty()) =~= m.0);
        } else {
            lemma_drain_zero_budget(rounds.drop_first());
            let rest = drain_model(rounds.drop_first(), 0);
            let all = seq![m.0].add(rest.0);
            assert(all.drop_first() =~= rest.0);
            assert(all[0] == m.0);
            assert(concat_segments(all) == m.0.add(concat_segments(rest.0)));
            assert(Seq::<char>::empty().add(concat_segments(rest.0)) =~= concat_segments(rest.0));
        }
    }
}

/// The budget never goes negative and never grows: a round leaves it no
/// larger than it found it. (Non-negativity is inherent: the budget is a
/// natural number throughout.)
pub proof fn lemma_budget_never_grows(items: Seq<LineEvent>, limit: nat)
    ensures
        round_model(items, limit).1 <= limit,
    decreases items.len(),
{
    if items.len() > 0 {
        match items[0] {
            LineEvent::IoError(e) => {},
            LineEvent::Line(s) => {
                if s@.len() == 0 {
                    lemma_budget_never_grows(items.drop_first(), limit);
                } else if limit == 0 {
                } else {
                    let newlimit = (limit - 1 - payload_len(s@.len(), limit)) as nat;
                    if !(s@.len() > limit - 1) {
                        lemma_budget_never_grows(items.drop_first(), newlimit);
                    }
                }
            },
        }
    }
}

} // verus!
