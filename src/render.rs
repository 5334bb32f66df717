use vstd::prelude::*;

use crate::mark::Mark;
use crate::time::weekday_of_day;
use crate::time::weekday_name_spec;

verus! {

/// Body columns of a day row: one per bucket.
pub const COLUMNS: usize = 192;

/// Width of the weekday column.
pub const DAY_WIDTH: usize = 11;

/// Seconds covered by one bucket.
pub const BUCKET_SECS: u32 = 480;

/// Why a mark sequence cannot be drawn.
#[derive(Clone, Copy, Debug, PartialEq, Eq, Structural)]
pub enum RenderError {
    /// The mark at `index` lies before the one preceding it.
    OutOfOrder { index: usize },
}

/// The bucket a mark is drawn up to: its end bound's time of day in
/// eight-minute steps.
pub open spec fn position(m: Mark) -> int {
    m.spec_end_bound().spec_seconds_of_day() / (BUCKET_SECS as int)
}

/// The glyph that fills the buckets leading up to a mark.
pub open spec fn glyph(m: Mark) -> char {
    match m {
        Mark::Start { .. } => ' ',
        Mark::Stop { .. } => '=',
        Mark::InferredStart { .. } => 'S',
        Mark::InferredStop { .. } => 'E',
    }
}

/// The glyph a mark leaves behind it, up to the end of its row.
pub open spec fn carry(m: Mark) -> char {
    match m {
        Mark::Start { .. } => '=',
        Mark::Stop { .. } => ' ',
        Mark::InferredStart { .. } => 'S',
        Mark::InferredStop { .. } => 'E',
    }
}

/// `b` follows `a`: a later day, or the same day at or after its position.
pub open spec fn follows(a: Mark, b: Mark) -> bool {
    a.spec_day() < b.spec_day() || (a.spec_day() == b.spec_day() && position(a) <= position(b))
}

/// Adjacent marks never go back in time.
pub open spec fn in_order(s: Seq<Mark>) -> bool {
    forall|i: int| 0 < i < s.len() ==> #[trigger] follows_at(s, i)
}

pub open spec fn follows_at(s: Seq<Mark>, i: int) -> bool {
    follows(s[i - 1], s[i])
}

/// The marks split into runs of one local day each, in order.
pub open spec fn group_days(s: Seq<Mark>) -> Seq<Seq<Mark>>
    decreases s.len(),
{
    if s.len() == 0 {
        seq![]
    } else {
        let g = group_days(s.drop_last());
        let m = s.last();
        if g.len() > 0 && g.last().len() > 0 && g.last().last().spec_day() == m.spec_day() {
            g.update(g.len() - 1, g.last().push(m))
        } else {
            g.push(seq![m])
        }
    }
}

/// The glyph in bucket `b` of the row of one day's marks `g`: that of the
/// first mark positioned after `b`, or the carry of the last mark when none is.
pub open spec fn cell(g: Seq<Mark>, b: int) -> char
    decreases g.len(),
{
    if g.len() == 0 {
        ' '
    } else {
        let m = g.last();
        let p = g.drop_last();
        if p.len() > 0 && b < position(p.last()) {
            cell(p, b)
        } else if b < position(m) {
            glyph(m)
        } else {
            carry(m)
        }
    }
}

pub open spec fn repeat(c: char, n: int) -> Seq<char> {
    Seq::new(n as nat, |_i: int| c)
}

/// The body of one day's row.
pub open spec fn row_body(g: Seq<Mark>) -> Seq<char> {
    Seq::new(COLUMNS as nat, |b: int| cell(g, b))
}

/// `name` centred in the weekday column, any odd space going right.
pub open spec fn centred(name: Seq<char>) -> Seq<char> {
    let left = (DAY_WIDTH - name.len()) / 2;
    repeat(' ', left) + name + repeat(' ', DAY_WIDTH - name.len() - left)
}

pub open spec fn day_label(day: int) -> Seq<char> {
    centred(weekday_name_spec(weekday_of_day(day)))
}

pub open spec fn row_text(g: Seq<Mark>) -> Seq<char> {
    seq!['\n', '│'] + day_label(g[0].spec_day()) + seq!['│'] + row_body(g) + seq!['│']
}

pub open spec fn top_border() -> Seq<char> {
    seq!['┌'] + repeat('─', DAY_WIDTH as int) + seq!['┬'] + repeat('─', COLUMNS as int) + seq!['┐']
}

pub open spec fn divider() -> Seq<char> {
    seq!['\n', '├'] + repeat('─', DAY_WIDTH as int) + seq!['┼'] + repeat('─', COLUMNS as int) + seq!['┤']
}

pub open spec fn bottom_border() -> Seq<char> {
    seq!['\n', '└'] + repeat('─', DAY_WIDTH as int) + seq!['┴'] + repeat('─', COLUMNS as int)
        + seq!['┘', '\n']
}

/// The rows of `gs`, a divider between each two.
pub open spec fn rows_text(gs: Seq<Seq<Mark>>) -> Seq<char>
    decreases gs.len(),
{
    if gs.len() == 0 {
        seq![]
    } else {
        rows_text(gs.drop_last()) + (if gs.len() > 1 {
            divider()
        } else {
            seq![]
        }) + row_text(gs.last())
    }
}

/// The whole grid of a mark sequence.
pub open spec fn grid(s: Seq<Mark>) -> Seq<char> {
    top_border() + rows_text(group_days(s)) + bottom_border()
}

} // verus!

verus! {

/// The English name of weekday `w`, Monday being 0.
pub fn weekday_name(w: u8) -> (r: &'static str)
    requires
        w < 7,
    ensures
        r@ == weekday_name_spec(w as int),
        r@.len() <= 9,
{
    proof {
        reveal_strlit("Monday");
        reveal_strlit("Tuesday");
        reveal_strlit("Wednesday");
        reveal_strlit("Thursday");
        reveal_strlit("Friday");
        reveal_strlit("Saturday");
        reveal_strlit("Sunday");
    }
    if w == 0 {
        "Monday"
    } else if w == 1 {
        "Tuesday"
    } else if w == 2 {
        "Wednesday"
    } else if w == 3 {
        "Thursday"
    } else if w == 4 {
        "Friday"
    } else if w == 5 {
        "Saturday"
    } else {
        "Sunday"
    }
}

fn push_str(out: &mut Vec<char>, s: &str)
    ensures
        final(out)@ == old(out)@ + s@,
{
    let n = s.unicode_len();
    let mut i: usize = 0;
    while i < n
        invariant
            n == s@.len(),
            i <= n,
            out@ == old(out)@ + s@.take(i as int),
        decreases n - i,
    {
        let c = s.get_char(i);
        out.push(c);
        i = i + 1;
        assert(out@ =~= old(out)@ + s@.take(i as int));
    }
    assert(s@.take(n as int) =~= s@);
}

fn push_repeat(out: &mut Vec<char>, c: char, n: usize)
    ensures
        final(out)@ == old(out)@ + repeat(c, n as int),
{
    let mut i: usize = 0;
    while i < n
        invariant
            i <= n,
            out@ == old(out)@ + repeat(c, i as int),
        decreases n - i,
    {
        out.push(c);
        i = i + 1;
        assert(out@ =~= old(out)@ + repeat(c, i as int));
    }
}

/// Appends the horizontal line `left`, weekday column, `mid`, body, `right`.
fn push_rule(out: &mut Vec<char>, left: char, mid: char, right: char)
    ensures
        final(out)@ == old(out)@ + seq![left] + repeat('─', DAY_WIDTH as int) + seq![mid] + repeat(
            '─',
            COLUMNS as int,
        ) + seq![right],
{
    out.push(left);
    push_repeat(out, '─', DAY_WIDTH);
    out.push(mid);
    push_repeat(out, '─', COLUMNS);
    out.push(right);
}

fn push_label(out: &mut Vec<char>, w: u8)
    requires
        w < 7,
    ensures
        final(out)@ == old(out)@ + centred(weekday_name_spec(w as int)),
{
    let name = weekday_name(w);
    let len = name.unicode_len();
    let left = (DAY_WIDTH - len) / 2;
    push_repeat(out, ' ', left);
    push_str(out, name);
    push_repeat(out, ' ', DAY_WIDTH - len - left);
}

/// Fills `row` up to bucket `upto` with `c`.
fn fill_to(row: &mut Vec<char>, upto: usize, c: char)
    requires
        old(row)@.len() <= upto,
    ensures
        final(row)@ == old(row)@ + repeat(c, upto - old(row)@.len()),
{
    let n = upto - row.len();
    push_repeat(row, c, n);
}

/// Appends a finished row: the divider unless it is the first, then the
/// weekday column and the body.
fn push_row(out: &mut Vec<char>, first: bool, w: u8, body: &Vec<char>)
    requires
        w < 7,
    ensures
        final(out)@ == old(out)@ + (if first {
            seq![]
        } else {
            divider()
        }) + seq!['\n', '│'] + centred(weekday_name_spec(w as int)) + seq!['│'] + body@ + seq!['│'],
{
    let ghost start = out@;
    if !first {
        out.push('\n');
        push_rule(out, '├', '┼', '┤');
        assert(out@ =~= start + divider());
    } else {
        assert(out@ =~= start + seq![]);
    }
    let ghost head = out@;
    out.push('\n');
    out.push('│');
    push_label(out, w);
    out.push('│');
    let mut i: usize = 0;
    while i < body.len()
        invariant
            i <= body@.len(),
            out@ == head + seq!['\n', '│'] + centred(weekday_name_spec(w as int)) + seq!['│']
                + body@.take(i as int),
        decreases body@.len() - i,
    {
        out.push(body[i]);
        i = i + 1;
        assert(out@ =~= head + seq!['\n', '│'] + centred(weekday_name_spec(w as int)) + seq!['│']
            + body@.take(i as int));
    }
    assert(body@.take(i as int) =~= body@);
    out.push('│');
    assert(out@ =~= start + (if first {
        seq![]
    } else {
        divider()
    }) + seq!['\n', '│'] + centred(weekday_name_spec(w as int)) + seq!['│'] + body@ + seq!['│']);
}

/// Relies on std's `FromIterator<char>` for `String`: the characters, in order.
#[verifier::external_body]
pub(crate) fn string_from_chars(chars: &Vec<char>) -> (r: String)
    ensures
        r@ == chars@,
{
    chars.iter().collect()
}

fn glyph_of(m: &Mark) -> (r: char)
    ensures
        r == glyph(*m),
{
    match m {
        Mark::Start { .. } => ' ',
        Mark::Stop { .. } => '=',
        Mark::InferredStart { .. } => 'S',
        Mark::InferredStop { .. } => 'E',
    }
}

fn carry_of(m: &Mark) -> (r: char)
    ensures
        r == carry(*m),
{
    match m {
        Mark::Start { .. } => '=',
        Mark::Stop { .. } => ' ',
        Mark::InferredStart { .. } => 'S',
        Mark::InferredStop { .. } => 'E',
    }
}

/// The bucket a mark is drawn up to.
pub fn mark_position(m: &Mark) -> (r: usize)
    requires
        m.wf(),
    ensures
        r as int == position(*m),
        r < 180,
{
    (m.end_bound().seconds_of_day() / BUCKET_SECS) as usize
}

/// Checks that each mark follows the one before it; on failure names the
/// first mark that does not.
pub fn check_order(marks: &Vec<Mark>) -> (r: Result<(), RenderError>)
    requires
        forall|i: int| 0 <= i < marks@.len() ==> (#[trigger] marks@[i]).wf(),
    ensures
        r is Ok <==> in_order(marks@),
        r matches Err(RenderError::OutOfOrder { index }) ==> 0 < index < marks@.len()
            && !follows_at(marks@, index as int)
            && forall|j: int| 0 < j < index ==> #[trigger] follows_at(marks@, j),
{
    let mut i: usize = 1;
    while i < marks.len()
        invariant
            1 <= i,
            forall|j: int| 0 <= j < marks@.len() ==> (#[trigger] marks@[j]).wf(),
            forall|j: int| 0 < j < i && j < marks@.len() ==> #[trigger] follows_at(marks@, j),
        decreases marks@.len() - i,
    {
        let a = &marks[i - 1];
        let b = &marks[i];
        let da = a.start_of_day();
        let db = b.start_of_day();
        let pa = mark_position(a);
        let pb = mark_position(b);
        if !(da < db || (da == db && pa <= pb)) {
            assert(!follows_at(marks@, i as int));
            return Err(RenderError::OutOfOrder { index: i });
        }
        assert(follows_at(marks@, i as int));
        i = i + 1;
    }
    Ok(())
}

/// Finishes the row of day marks `g`, drawn so far up to the last mark, and
/// appends it to `out`.
fn close_row(
    out: &mut Vec<char>,
    row: &mut Vec<char>,
    fill: char,
    first: bool,
    w: u8,
    Ghost(g): Ghost<Seq<Mark>>,
)
    requires
        g.len() > 0,
        position(g.last()) < 180,
        old(row)@ == Seq::new(position(g.last()) as nat, |b: int| cell(g, b)),
        fill == carry(g.last()),
        g.len() > 1 ==> position(g[g.len() - 2]) <= position(g.last()),
        w < 7,
        w as int == weekday_of_day(g[0].spec_day()),
    ensures
        final(out)@ == old(out)@ + (if first {
            seq![]
        } else {
            divider()
        }) + row_text(g),
{
    let ghost before = row@;
    fill_to(row, COLUMNS, fill);
    assert forall|b: int| 0 <= b < COLUMNS implies #[trigger] row@[b] == cell(g, b) by {
        if b >= before.len() {
            assert(row@[b] == fill);
        } else {
            assert(row@[b] == before[b]);
        }
    }
    assert(row@ =~= row_body(g));
    push_row(out, first, w, row);
}

/// Draws the grid of `marks`: a row per local day present, in order, each
/// with its weekday and a body of one glyph per eight-minute bucket, between
/// box-drawing borders.  Fails when a mark goes back in time.
pub fn render_grid(marks: &Vec<Mark>) -> (r: Result<String, RenderError>)
    requires
        forall|i: int| 0 <= i < marks@.len() ==> (#[trigger] marks@[i]).wf(),
    ensures
        r is Ok <==> in_order(marks@),
        r matches Ok(text) ==> text@ == grid(marks@),
        r matches Err(RenderError::OutOfOrder { index }) ==> 0 < index < marks@.len()
            && !follows_at(marks@, index as int)
            && forall|j: int| 0 < j < index ==> #[trigger] follows_at(marks@, j),
{
    match check_order(marks) {
        Err(e) => {
            return Err(e);
        },
        Ok(()) => {},
    }
    let ghost s = marks@;
    let mut out: Vec<char> = Vec::new();
    push_rule(&mut out, '┌', '┬', '┐');
    assert(out@ =~= top_border());
    let mut row: Vec<char> = Vec::new();
    let mut cur_day: i64 = 0;
    let mut cur_week: u8 = 0;
    let mut fill: char = ' ';
    let mut has_rows = false;
    let mut i: usize = 0;
    while i < marks.len()
        invariant
            s == marks@,
            in_order(s),
            forall|j: int| 0 <= j < s.len() ==> (#[trigger] s[j]).wf(),
            i <= s.len(),
            i == 0 ==> out@ == top_border() && group_days(s.take(i as int)).len() == 0 && !has_rows,
            i > 0 ==> ({
                let gs = group_days(s.take(i as int));
                let g = gs.last();
                &&& gs.len() > 0
                &&& g.len() > 0
                &&& g.last() == s[i - 1]
                &&& cur_day as int == g[0].spec_day()
                &&& cur_day as int == g.last().spec_day()
                &&& cur_week < 7
                &&& cur_week as int == weekday_of_day(cur_day as int)
                &&& row@ == Seq::new(position(g.last()) as nat, |b: int| cell(g, b))
                &&& fill == carry(g.last())
                &&& (g.len() > 1 ==> position(g[g.len() - 2]) <= position(g.last()))
                &&& out@ == top_border() + rows_text(gs.drop_last())
                &&& has_rows == (gs.len() > 1)
            }),
        decreases s.len() - i,
    {
        let m = &marks[i];
        let d = m.start_of_day();
        let p = mark_position(m);
        let ghost gs = group_days(s.take(i as int));
        let ghost t = s.take(i as int + 1);
        assert(t.drop_last() =~= s.take(i as int));
        assert(t.last() == s[i as int]);
        if i == 0 || d != cur_day {
            if i > 0 {
                close_row(&mut out, &mut row, fill, !has_rows, cur_week, Ghost(gs.last()));
                assert(out@ =~= top_border() + rows_text(gs));
                has_rows = true;
            }
            row = Vec::new();
            cur_day = d;
            cur_week = m.start_bound().weekday();
            let ghost ns = group_days(t);
            assert(ns == gs.push(seq![s[i as int]]));
            assert(ns.drop_last() =~= gs);
        } else {
            assert(follows_at(s, i as int));
            let ghost ns = group_days(t);
            assert(ns == gs.update(gs.len() - 1, gs.last().push(s[i as int])));
            assert(ns.drop_last() =~= gs.drop_last());
        }
        let ghost old_row = row@;
        fill_to(&mut row, p, glyph_of(m));
        fill = carry_of(m);
        proof {
            let ns = group_days(t);
            let g = ns.last();
            assert(g.drop_last().len() > 0 ==> g.drop_last() == gs.last());
            assert forall|b: int| 0 <= b < p implies #[trigger] row@[b] == cell(g, b) by {
                if b >= old_row.len() {
                    assert(row@[b] == glyph(s[i as int]));
                } else {
                    assert(row@[b] == old_row[b]);
                }
            }
            assert(row@ =~= Seq::new(position(g.last()) as nat, |b: int| cell(g, b)));
        }
        i = i + 1;
    }
    assert(s.take(i as int) =~= s);
    if i > 0 {
        let ghost gs = group_days(s);
        close_row(&mut out, &mut row, fill, !has_rows, cur_week, Ghost(gs.last()));
        assert(out@ =~= top_border() + rows_text(gs));
    } else {
        assert(rows_text(group_days(s)) =~= seq![]);
    }
    out.push('\n');
    push_rule(&mut out, '└', '┴', '┘');
    out.push('\n');
    assert(out@ =~= grid(s));
    Ok(string_from_chars(&out))
}

/// Every weekday label fills the weekday column exactly.
pub proof fn day_label_width(day: int)
    ensures
        day_label(day).len() == DAY_WIDTH,
{
    reveal_strlit("Monday");
    reveal_strlit("Tuesday");
    reveal_strlit("Wednesday");
    reveal_strlit("Thursday");
    reveal_strlit("Friday");
    reveal_strlit("Saturday");
    reveal_strlit("Sunday");
    assert(weekday_name_spec(weekday_of_day(day)).len() <= 9);
}

/// Every row of a grid holds a weekday label of exactly `DAY_WIDTH`
/// characters and a body of exactly `COLUMNS` characters, each closed by a
/// border character.
pub proof fn grid_row_widths(s: Seq<Mark>)
    ensures
        forall|k: int|
            0 <= k < group_days(s).len() ==> {
                let g = #[trigger] group_days(s)[k];
                &&& day_label(g[0].spec_day()).len() == DAY_WIDTH
                &&& row_body(g).len() == COLUMNS
                &&& row_text(g) == seq!['\n', '│'] + day_label(g[0].spec_day()) + seq!['│']
                    + row_body(g) + seq!['│']
            },
{
    assert forall|k: int| 0 <= k < group_days(s).len() implies
        day_label((#[trigger] group_days(s)[k])[0].spec_day()).len() == DAY_WIDTH by {
        day_label_width(group_days(s)[k][0].spec_day());
    }
}

/// Drawing no marks gives the top border directly followed by the bottom
/// border, with no row between.
pub proof fn empty_grid_is_borders()
    ensures
        grid(seq![]) == top_border() + bottom_border(),
{
    assert(group_days(seq![]) =~= seq![]);
    assert(grid(seq![]) =~= top_border() + bottom_border());
}

} // verus!
