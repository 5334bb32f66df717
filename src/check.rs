use vstd::prelude::*;

use crate::infer::{infer_marks, inferred, inferred_marks_wf, keeps, Record};
use crate::log::{line_views, parse_log, parse_log_spec, record_view, LogError};
use crate::mark::Mark;
use crate::render::{grid, in_order, render_grid, RenderError};
use crate::time::{now, Timestamp};
use crate::window::Window;

verus! {

/// Length of the trailing window a search selects, in seconds.
pub const TRAILING_WINDOW_SECS: i64 = 5400;

/// Why the grid of a log cannot be drawn.
#[derive(Clone, Copy, Debug, PartialEq, Eq, Structural)]
pub enum CheckError {
    Log(LogError),
    Render(RenderError),
}

/// The marks of a log given as its lines that lie within `window`, in order.
pub fn collect_marks(lines: &Vec<String>, window: &Window<Timestamp>) -> (r: Result<Vec<Mark>, LogError>)
    ensures
        match r {
            Ok(ms) => exists|recs: Seq<Record>|
                #![trigger inferred(recs)]
                parse_log_spec(line_views(lines@)) == Ok::<_, LogError>(
                    recs.map_values(|x: Record| record_view(x)),
                ) && ms@ == inferred(recs).filter(keeps(window)),
            Err(e) => parse_log_spec(line_views(lines@)) == Err::<
                Seq<(Timestamp, crate::infer::Kind, Seq<char>)>,
                _,
            >(e),
        },
        r matches Ok(ms) ==> forall|k: int| 0 <= k < ms@.len() ==> (#[trigger] ms@[k]).wf(),
{
    match parse_log(lines) {
        Err(e) => Err(e),
        Ok(recs) => {
            let ghost s = recs@;
            let ms = infer_marks(recs, window);
            proof {
                inferred_marks_wf(s, window);
            }
            Ok(ms)
        },
    }
}

/// The open interval of `TRAILING_WINDOW_SECS` seconds ending at `end`.
pub open spec fn trailing_window(end: Timestamp) -> Window<Timestamp> {
    Window::Bound { start: Timestamp { secs: (end.secs - TRAILING_WINDOW_SECS) as i64, ..end }, end }
}

/// The window a search selects at instant `now`: everything for an empty
/// search, else the open interval of the trailing 90 minutes up to `now`.
pub fn build_time_window(search_spec: &Vec<String>, now: Timestamp) -> (r: Window<Timestamp>)
    requires
        now.wf(),
    ensures
        search_spec@.len() == 0 ==> r == Window::<Timestamp>::Unbound,
        search_spec@.len() > 0 ==> r == trailing_window(now),
{
    if search_spec.len() == 0 {
        return Window::Unbound;
    }
    let start = Timestamp { secs: now.secs - TRAILING_WINDOW_SECS, ..now };
    Window::new(start, now)
}

/// The window a search selects at the present instant.
pub fn current_window(search_spec: &Vec<String>) -> (r: Window<Timestamp>)
    ensures
        search_spec@.len() == 0 ==> r == Window::<Timestamp>::Unbound,
        search_spec@.len() > 0 ==> (exists|t: Timestamp| t.wf() && r == #[trigger] trailing_window(t)),
{
    build_time_window(search_spec, now())
}

/// The grid of the marks of a log, given as its lines, that lie within
/// `window`.
pub fn check_lines(lines: &Vec<String>, window: &Window<Timestamp>) -> (r: Result<String, CheckError>)
    ensures
        match r {
            Ok(text) => exists|recs: Seq<Record>|
                #![trigger inferred(recs)]
                parse_log_spec(line_views(lines@)) == Ok::<_, LogError>(
                    recs.map_values(|x: Record| record_view(x)),
                ) && in_order(inferred(recs).filter(keeps(window))) && text@ == grid(
                    inferred(recs).filter(keeps(window)),
                ),
            Err(CheckError::Log(e)) => parse_log_spec(line_views(lines@)) == Err::<
                Seq<(Timestamp, crate::infer::Kind, Seq<char>)>,
                _,
            >(e),
            Err(CheckError::Render(_)) => exists|recs: Seq<Record>|
                #![trigger inferred(recs)]
                parse_log_spec(line_views(lines@)) == Ok::<_, LogError>(
                    recs.map_values(|x: Record| record_view(x)),
                ) && !in_order(inferred(recs).filter(keeps(window))),
        },
{
    let marks = match collect_marks(lines, window) {
        Err(e) => {
            return Err(CheckError::Log(e));
        },
        Ok(ms) => ms,
    };
    match render_grid(&marks) {
        Ok(text) => Ok(text),
        Err(e) => Err(CheckError::Render(e)),
    }
}

} // verus!
