use vstd::prelude::*;

use crate::infer::{infer_marks, inferred, keeps, Kind, Record};
use crate::mark::Mark;
use crate::render::string_from_chars;
use crate::time::{parse_rfc3339, rfc3339_instant, Timestamp};
use crate::window::Window;

verus! {

/// Why a log cannot be read; `line` counts the log's lines from 0.
#[derive(Clone, Copy, Debug, PartialEq, Eq, Structural)]
pub enum LogError {
    /// The text before the first `|` is not an RFC 3339 date and time.
    BadTimestamp { line: usize },
    /// The line has no `|` after its timestamp.
    MissingAction { line: usize },
    /// The action is neither `start` nor `stop`.
    UnknownAction { line: usize },
    /// The entry lies before the entry preceding it.
    OutOfOrder { line: usize },
}

/// The first `|` in `s` at or after `from`, or the length of `s`.
pub open spec fn bar_from(s: Seq<char>, from: int) -> int
    decreases s.len() - from,
{
    if from >= s.len() {
        s.len() as int
    } else if s[from] == '|' {
        from
    } else {
        bar_from(s, from + 1)
    }
}

pub open spec fn kind_named(a: Seq<char>) -> Option<Kind> {
    if a == "start"@ {
        Some(Kind::Start)
    } else if a == "stop"@ {
        Some(Kind::Stop)
    } else {
        None
    }
}

/// The fields of one log line `time|action|message`; the message is all
/// that follows the second `|`, and may hold `|` itself.
pub open spec fn parse_line_spec(l: Seq<char>, line: int) -> Result<(Timestamp, Kind, Seq<char>), LogError> {
    let b1 = bar_from(l, 0);
    let b2 = bar_from(l, b1 + 1);
    match rfc3339_instant(l.take(b1)) {
        None => Err(LogError::BadTimestamp { line: line as usize }),
        Some(t) => if b1 >= l.len() {
            Err(LogError::MissingAction { line: line as usize })
        } else {
            match kind_named(l.subrange(b1 + 1, b2)) {
                None => Err(LogError::UnknownAction { line: line as usize }),
                Some(k) => Ok(
                    (
                        t,
                        k,
                        if b2 < l.len() {
                            l.subrange(b2 + 1, l.len() as int)
                        } else {
                            seq![]
                        },
                    ),
                ),
            }
        },
    }
}

pub open spec fn record_view(r: Record) -> (Timestamp, Kind, Seq<char>) {
    (r.time, r.kind, r.message@)
}

/// The entries of a log given as its lines: empty lines are skipped, the
/// first bad line or the first entry earlier than its predecessor is an error.
pub open spec fn parse_log_spec(lines: Seq<Seq<char>>) -> Result<Seq<(Timestamp, Kind, Seq<char>)>, LogError>
    decreases lines.len(),
{
    if lines.len() == 0 {
        Ok(seq![])
    } else {
        match parse_log_spec(lines.drop_last()) {
            Err(e) => Err(e),
            Ok(v) => if lines.last().len() == 0 {
                Ok(v)
            } else {
                match parse_line_spec(lines.last(), lines.len() - 1) {
                    Err(e) => Err(e),
                    Ok(rec) => if v.len() > 0 && rec.0.spec_before(&v.last().0) {
                        Err(LogError::OutOfOrder { line: (lines.len() - 1) as usize })
                    } else {
                        Ok(v.push(rec))
                    },
                }
            },
        }
    }
}

pub open spec fn line_views(lines: Seq<String>) -> Seq<Seq<char>> {
    lines.map_values(|l: String| l@)
}

/// Relies on std's `str::chars`, collected into a vector: the characters of
/// `s`, in order.
#[verifier::external_body]
fn chars_of(s: &str) -> (r: Vec<char>)
    ensures
        r@ == s@,
{
    s.chars().collect()
}

fn find_bar(v: &Vec<char>, from: usize) -> (r: usize)
    requires
        from <= v@.len(),
    ensures
        r as int == bar_from(v@, from as int),
        from <= r <= v@.len(),
{
    let mut i = from;
    while i < v.len() && v[i] != '|'
        invariant
            from <= i <= v@.len(),
            bar_from(v@, from as int) == bar_from(v@, i as int),
        decreases v@.len() - i,
    {
        i = i + 1;
    }
    i
}

fn sub_chars(v: &Vec<char>, from: usize, to: usize) -> (r: Vec<char>)
    requires
        from <= to <= v@.len(),
    ensures
        r@ == v@.subrange(from as int, to as int),
{
    let mut r: Vec<char> = Vec::new();
    let mut i = from;
    while i < to
        invariant
            from <= i <= to <= v@.len(),
            r@ == v@.subrange(from as int, i as int),
        decreases to - i,
    {
        r.push(v[i]);
        i = i + 1;
        assert(r@ =~= v@.subrange(from as int, i as int));
    }
    r
}

fn chars_equal(v: &Vec<char>, from: usize, to: usize, lit: &str) -> (r: bool)
    requires
        from <= to <= v@.len(),
    ensures
        r == (v@.subrange(from as int, to as int) == lit@),
{
    let n = lit.unicode_len();
    if to - from != n {
        assert(v@.subrange(from as int, to as int).len() != lit@.len());
        return false;
    }
    let mut i: usize = 0;
    while i < n
        invariant
            n == lit@.len(),
            to - from == n,
            from <= to <= v@.len(),
            i <= n,
            forall|k: int| 0 <= k < i ==> v@[from + k] == lit@[k],
        decreases n - i,
    {
        if v[from + i] != lit.get_char(i) {
            assert(v@.subrange(from as int, to as int)[i as int] != lit@[i as int]);
            return false;
        }
        i = i + 1;
    }
    assert(v@.subrange(from as int, to as int) =~= lit@);
    true
}

/// Reads one non-empty log line, line number `line` of the log.
pub fn parse_line(text: &str, line: usize) -> (r: Result<Record, LogError>)
    ensures
        match r {
            Ok(rec) => parse_line_spec(text@, line as int) == Ok::<_, LogError>(record_view(rec)),
            Err(e) => parse_line_spec(text@, line as int) == Err::<(Timestamp, Kind, Seq<char>), _>(e),
        },
        r matches Ok(rec) ==> rec.time.wf(),
{
    let chars = chars_of(text);
    let b1 = find_bar(&chars, 0);
    let time_text = string_from_chars(&sub_chars(&chars, 0, b1));
    assert(chars@.subrange(0, b1 as int) =~= chars@.take(b1 as int));
    let time = match parse_rfc3339(time_text.as_str()) {
        None => {
            return Err(LogError::BadTimestamp { line });
        },
        Some(t) => t,
    };
    if b1 >= chars.len() {
        return Err(LogError::MissingAction { line });
    }
    let b2 = find_bar(&chars, b1 + 1);
    let kind = if chars_equal(&chars, b1 + 1, b2, "start") {
        Kind::Start
    } else if chars_equal(&chars, b1 + 1, b2, "stop") {
        Kind::Stop
    } else {
        return Err(LogError::UnknownAction { line });
    };
    let message_chars = if b2 < chars.len() {
        sub_chars(&chars, b2 + 1, chars.len())
    } else {
        Vec::new()
    };
    let message = string_from_chars(&message_chars);
    proof {
        if b2 >= chars@.len() {
            assert(message@ =~= seq![]);
        }
    }
    Ok(Record { time, kind, message })
}

proof fn lemma_error_persists(lines: Seq<Seq<char>>, j: int, e: LogError)
    requires
        0 <= j <= lines.len(),
        parse_log_spec(lines.take(j)) == Err::<Seq<(Timestamp, Kind, Seq<char>)>, _>(e),
    ensures
        parse_log_spec(lines) == Err::<Seq<(Timestamp, Kind, Seq<char>)>, _>(e),
    decreases lines.len(),
{
    if j == lines.len() {
        assert(lines.take(j) =~= lines);
    } else {
        assert(lines.drop_last().take(j) =~= lines.take(j));
        lemma_error_persists(lines.drop_last(), j, e);
    }
}

/// Reads the entries of a log given as its lines.
pub fn parse_log(lines: &Vec<String>) -> (r: Result<Vec<Record>, LogError>)
    ensures
        match r {
            Ok(recs) => parse_log_spec(line_views(lines@)) == Ok::<_, LogError>(
                recs@.map_values(|x: Record| record_view(x)),
            ),
            Err(e) => parse_log_spec(line_views(lines@)) == Err::<Seq<(Timestamp, Kind, Seq<char>)>, _>(e),
        },
        r matches Ok(recs) ==> forall|k: int| 0 <= k < recs@.len() ==> (#[trigger] recs@[k]).time.wf(),
{
    let ghost views = line_views(lines@);
    let mut recs: Vec<Record> = Vec::new();
    let mut i: usize = 0;
    assert(views.take(0) =~= seq![]);
    assert(recs@.map_values(|x: Record| record_view(x)) =~= seq![]);
    while i < lines.len()
        invariant
            views == line_views(lines@),
            i <= lines@.len(),
            parse_log_spec(views.take(i as int)) == Ok::<_, LogError>(
                recs@.map_values(|x: Record| record_view(x)),
            ),
            forall|k: int| 0 <= k < recs@.len() ==> (#[trigger] recs@[k]).time.wf(),
        decreases lines@.len() - i,
    {
        let ghost t = views.take(i as int + 1);
        assert(t.drop_last() =~= views.take(i as int));
        assert(t.last() == lines@[i as int]@);
        let line = lines[i].as_str();
        if line.is_empty() {
            assert(line@.len() == 0);
        } else {
            let rec = match parse_line(line, i) {
                Err(e) => {
                    proof {
                        lemma_error_persists(views, i as int + 1, e);
                    }
                    return Err(e);
                },
                Ok(rec) => rec,
            };
            let n = recs.len();
            if n > 0 && rec.time.before(&recs[n - 1].time) {
                proof {
                    let v = recs@.map_values(|x: Record| record_view(x));
                    assert(v.last().0 == recs@[n - 1].time);
                    lemma_error_persists(views, i as int + 1, LogError::OutOfOrder { line: i });
                }
                return Err(LogError::OutOfOrder { line: i });
            }
            let ghost old_recs = recs@;
            recs.push(rec);
            assert(recs@.map_values(|x: Record| record_view(x)) =~= old_recs.map_values(
                |x: Record| record_view(x),
            ).push(record_view(rec)));
        }
        i = i + 1;
    }
    assert(views.take(i as int) =~= views);
    Ok(recs)
}

} // verus!
