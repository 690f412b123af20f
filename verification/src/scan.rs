//! The event extractor: scans added log text, line by line, for the
//! entity-creation and entity-removal patterns and turns matches into typed
//! events. Within one added span all removal events come before all creation
//! events, so that a name freed and immediately reused never shows twice.
use vstd::prelude::*;
use crate::event::{events_view, string_views, Event, EventView};

verus! {

/// An ASCII decimal digit.
pub open spec fn is_digit(c: char) -> bool {
    48 <= c as u32 <= 57
}

/// Position of the first occurrence of `c` in `text` at or after `i`, or
/// `text.len()` when there is none.
pub open spec fn find_from(text: Seq<char>, c: char, i: int) -> int
    decreases text.len() - i,
{
    if i < 0 || i >= text.len() {
        text.len() as int
    } else if text[i] == c {
        i
    } else {
        find_from(text, c, i + 1)
    }
}

/// Position of the first character at or after `i` that is not a digit, or
/// `text.len()` when digits run to the end.
pub open spec fn digits_end(text: Seq<char>, i: int) -> int
    decreases text.len() - i,
{
    if i < 0 || i >= text.len() {
        text.len() as int
    } else if !is_digit(text[i]) {
        i
    } else {
        digits_end(text, i + 1)
    }
}

/// The fixed text that announces an entity entering, up to its numeric id.
pub open spec fn enter_marker() -> Seq<char> {
    "Creating physical player "@
}

/// The fixed text that announces an entity leaving, up to its numeric id.
pub open spec fn exit_marker() -> Seq<char> {
    "Processing removal for player "@
}

/// The pattern `<marker><digits> (<name>)` matches in `line` starting at
/// position `i`: the marker, one or more digits, a space and an opening
/// parenthesis, then a non-empty name closed by the first closing
/// parenthesis that leaves the name non-empty.
pub open spec fn pattern_at(line: Seq<char>, marker: Seq<char>, i: int) -> bool {
    let m = i + marker.len();
    let d = digits_end(line, m);
    let e = find_from(line, ')', d + 3);
    &&& 0 <= i
    &&& m <= line.len()
    &&& line.subrange(i, m) == marker
    &&& m < d
    &&& d + 1 < line.len()
    &&& line[d] == ' '
    &&& line[d + 1] == '('
    &&& e < line.len()
}

/// The name captured by a match of the pattern at position `i`.
pub open spec fn match_name(line: Seq<char>, marker: Seq<char>, i: int) -> Seq<char> {
    let d = digits_end(line, i + marker.len());
    let e = find_from(line, ')', d + 3);
    line.subrange(d + 2, e)
}

/// The name captured by the leftmost match of the pattern at or after
/// position `i`, or `None` when the pattern does not match in `line`.
pub open spec fn first_match_from(line: Seq<char>, marker: Seq<char>, i: int) -> Option<Seq<char>>
    decreases line.len() + 1 - i,
{
    if i < 0 || i + marker.len() > line.len() {
        None
    } else if pattern_at(line, marker, i) {
        Some(match_name(line, marker, i))
    } else {
        first_match_from(line, marker, i + 1)
    }
}

/// Classification of one log line: a removal line yields an exit event, a
/// creation line an enter event, anything else no event. A line that could
/// be read both ways counts as a removal, matching the policy that exits are
/// processed first.
pub open spec fn line_event(line: Seq<char>) -> Option<EventView> {
    match first_match_from(line, exit_marker(), 0) {
        Some(n) => Some(EventView::Exit(n)),
        None => match first_match_from(line, enter_marker(), 0) {
            Some(n) => Some(EventView::Enter(n)),
            None => None,
        },
    }
}

/// `text` split at every newline; the separators are dropped.
pub open spec fn split_lines(text: Seq<char>) -> Seq<Seq<char>>
    decreases text.len() via split_lines_decreases
{
    let p = find_from(text, '\n', 0);
    if p >= text.len() {
        seq![text]
    } else {
        seq![text.subrange(0, p)] + split_lines(text.subrange(p + 1, text.len() as int))
    }
}

#[via_fn]
proof fn split_lines_decreases(text: Seq<char>) {
    lemma_find_from_bounds(text, '\n', 0);
}

/// The exit event of one line, if it is a removal line.
pub open spec fn exit_part(line: Seq<char>) -> Seq<EventView> {
    match line_event(line) {
        Some(EventView::Exit(n)) => seq![EventView::Exit(n)],
        _ => Seq::empty(),
    }
}

/// The enter event of one line, if it is a creation line.
pub open spec fn enter_part(line: Seq<char>) -> Seq<EventView> {
    match line_event(line) {
        Some(EventView::Enter(n)) => seq![EventView::Enter(n)],
        _ => Seq::empty(),
    }
}

/// All exit events of a span's lines, in line order.
pub open spec fn exits_of(lines: Seq<Seq<char>>) -> Seq<EventView>
    decreases lines.len(),
{
    if lines.len() == 0 {
        Seq::empty()
    } else {
        exit_part(lines[0]) + exits_of(lines.drop_first())
    }
}

/// All enter events of a span's lines, in line order.
pub open spec fn enters_of(lines: Seq<Seq<char>>) -> Seq<EventView>
    decreases lines.len(),
{
    if lines.len() == 0 {
        Seq::empty()
    } else {
        enter_part(lines[0]) + enters_of(lines.drop_first())
    }
}

/// The events of one added span: all its exit events, in line order, then
/// all its enter events, in line order.
pub open spec fn span_events(text: Seq<char>) -> Seq<EventView> {
    exits_of(split_lines(text)) + enters_of(split_lines(text))
}

/// `find_from` stays within bounds, lands on `c`, and skips no earlier `c`.
pub proof fn lemma_find_from_bounds(text: Seq<char>, c: char, i: int)
    requires
        0 <= i <= text.len(),
    ensures
        i <= find_from(text, c, i) <= text.len(),
        find_from(text, c, i) < text.len() ==> text[find_from(text, c, i)] == c,
        forall|k: int| i <= k < find_from(text, c, i) ==> text[k] != c,
    decreases text.len() - i,
{
    if i < text.len() && text[i] != c {
        lemma_find_from_bounds(text, c, i + 1);
    }
}

/// `find_from` is pinned by the absence of `c` before `r` and its presence
/// (or the end of the text) at `r`.
proof fn lemma_find_from_is(text: Seq<char>, c: char, start: int, r: int)
    requires
        0 <= start <= r <= text.len(),
        forall|t: int| start <= t < r ==> text[t] != c,
        r == text.len() || text[r] == c,
    ensures
        find_from(text, c, start) == r,
    decreases r - start,
{
    if start < r {
        lemma_find_from_is(text, c, start + 1, r);
    }
}

/// `digits_end` is pinned by digits before `r` and a non-digit (or the end
/// of the text) at `r`.
proof fn lemma_digits_end_is(text: Seq<char>, start: int, r: int)
    requires
        0 <= start <= r <= text.len(),
        forall|t: int| start <= t < r ==> is_digit(text[t]),
        r == text.len() || !is_digit(text[r]),
    ensures
        digits_end(text, start) == r,
    decreases r - start,
{
    if start < r {
        lemma_digits_end_is(text, start + 1, r);
    }
}

/// Whether `c` is an ASCII decimal digit.
fn is_digit_exec(c: char) -> (r: bool)
    ensures
        r == is_digit(c),
{
    let u = c as u32;
    48 <= u && u <= 57
}

/// First occurrence of `c` in `text` at or after `start`, or the length.
fn find_char(text: &str, c: char, start: usize, n: usize) -> (r: usize)
    requires
        n == text@.len(),
        start <= n,
    ensures
        r == find_from(text@, c, start as int),
        start <= r <= n,
{
    let mut j = start;
    while j < n
        invariant
            start <= j <= n,
            n == text@.len(),
            forall|t: int| start <= t < j ==> text@[t] != c,
        decreases n - j,
    {
        if text.get_char(j) == c {
            proof {
                lemma_find_from_is(text@, c, start as int, j as int);
            }
            return j;
        }
        j = j + 1;
    }
    proof {
        lemma_find_from_is(text@, c, start as int, n as int);
    }
    n
}

/// Try the pattern at position `i`; returns the captured name on a match.
fn try_match_at(line: &str, marker: &str, i: usize, n: usize, mlen: usize) -> (r: Option<String>)
    requires
        n == line@.len(),
        mlen == marker@.len(),
        i + mlen <= n,
    ensures
        match r {
            Some(name) => pattern_at(line@, marker@, i as int) && name@ == match_name(
                line@,
                marker@,
                i as int,
            ),
            None => !pattern_at(line@, marker@, i as int),
        },
{
    let mut k: usize = 0;
    while k < mlen
        invariant
            n == line@.len(),
            mlen == marker@.len(),
            i + mlen <= n,
            k <= mlen,
            forall|t: int| 0 <= t < k ==> line@[i + t] == marker@[t],
        decreases mlen - k,
    {
        if line.get_char(i + k) != marker.get_char(k) {
            proof {
                assert(line@.subrange(i as int, i + mlen)[k as int] == line@[i + k]);
            }
            return None;
        }
        k = k + 1;
    }
    proof {
        assert(line@.subrange(i as int, i + mlen) =~= marker@);
    }
    let m = i + mlen;
    let mut d: usize = m;
    while d < n && is_digit_exec(line.get_char(d))
        invariant
            m <= d <= n,
            n == line@.len(),
            forall|t: int| m <= t < d ==> is_digit(line@[t]),
        decreases n - d,
    {
        d = d + 1;
    }
    proof {
        lemma_digits_end_is(line@, m as int, d as int);
    }
    if d == m {
        return None;
    }
    if n - d <= 1 {
        return None;
    }
    if line.get_char(d) != ' ' {
        return None;
    }
    if line.get_char(d + 1) != '(' {
        return None;
    }
    let start = if n - d >= 3 {
        d + 3
    } else {
        n
    };
    let e = find_char(line, ')', start, n);
    proof {
        if n - d < 3 {
            assert(find_from(line@, ')', d + 3) == n as int);
        }
    }
    if e == n {
        return None;
    }
    proof {
        lemma_find_from_bounds(line@, ')', start as int);
    }
    let name = line.substring_char(d + 2, e).to_owned();
    Some(name)
}

/// The name captured by the leftmost match of the pattern in `line`.
fn scan_first_match(line: &str, marker: &str) -> (r: Option<String>)
    requires
        marker@.len() >= 1,
    ensures
        match r {
            Some(name) => first_match_from(line@, marker@, 0) == Some(name@),
            None => first_match_from(line@, marker@, 0) is None,
        },
{
    let n = line.unicode_len();
    let mlen = marker.unicode_len();
    if mlen > n {
        return None;
    }
    let mut i: usize = 0;
    while i <= n - mlen
        invariant
            n == line@.len(),
            mlen == marker@.len(),
            1 <= mlen <= n,
            i <= n - mlen + 1,
            first_match_from(line@, marker@, 0) == first_match_from(line@, marker@, i as int),
        decreases n - mlen + 1 - i,
    {
        match try_match_at(line, marker, i, n, mlen) {
            Some(name) => {
                return Some(name);
            },
            None => {
            },
        }
        i = i + 1;
    }
    None
}

/// Classify one log line: an exit event for a removal line, an enter event
/// for a creation line, nothing for any other line. A truncated pattern
/// (no closing parenthesis) yields nothing.
pub fn classify_line(line: &str) -> (r: Option<Event>)
    ensures
        match r {
            Some(e) => line_event(line@) == Some(e@),
            None => line_event(line@) is None,
        },
{
    proof {
        reveal_strlit("Processing removal for player ");
        reveal_strlit("Creating physical player ");
    }
    match scan_first_match(line, "Processing removal for player ") {
        Some(name) => Some(Event::Exit(name)),
        None => match scan_first_match(line, "Creating physical player ") {
            Some(name) => Some(Event::Enter(name)),
            None => None,
        },
    }
}

/// `text` split at every newline.
fn split_lines_exec(text: &str) -> (r: Vec<String>)
    ensures
        string_views(r@) == split_lines(text@),
{
    let n = text.unicode_len();
    let mut out: Vec<String> = Vec::new();
    let mut start: usize = 0;
    let mut finished = false;
    proof {
        assert(string_views(out@) =~= Seq::<Seq<char>>::empty());
        assert(text@.subrange(0, n as int) =~= text@);
        assert(string_views(out@) + split_lines(text@) =~= split_lines(text@));
    }
    while !finished
        invariant
            start <= n,
            n == text@.len(),
            !finished ==> split_lines(text@) == string_views(out@) + split_lines(
                text@.subrange(start as int, n as int),
            ),
            finished ==> string_views(out@) == split_lines(text@),
        decreases n - start + (if finished { 0int } else { 1int }),
    {
        let p = find_char(text, '\n', start, n);
        let ghost suffix = text@.subrange(start as int, n as int);
        let ghost ps = p as int - start as int;
        proof {
            lemma_find_from_bounds(text@, '\n', start as int);
            assert forall|t: int| 0 <= t < ps implies suffix[t] != '\n' by {
                assert(suffix[t] == text@[start + t]);
            }
            if p < n {
                assert(suffix[ps] == text@[p as int]);
            }
            lemma_find_from_is(suffix, '\n', 0, ps);
        }
        let line = text.substring_char(start, p).to_owned();
        let ghost lview = line@;
        let ghost out_before = out@;
        out.push(line);
        proof {
            crate::event::lemma_string_views_push(out_before, out@.last());
            assert(lview =~= suffix.subrange(0, ps));
        }
        if p == n {
            proof {
                assert(suffix.subrange(0, ps) =~= suffix);
                assert(split_lines(suffix) == seq![suffix]);
                assert(string_views(out@) =~= string_views(out_before) + seq![suffix]);
            }
            finished = true;
        } else {
            proof {
                let rest = text@.subrange(p + 1, n as int);
                assert(suffix.subrange(ps + 1, suffix.len() as int) =~= rest);
                assert(split_lines(suffix) == seq![suffix.subrange(0, ps)] + split_lines(rest));
                assert(string_views(out@) + split_lines(rest) =~= string_views(out_before)
                    + split_lines(suffix));
            }
            start = p + 1;
        }
    }
    out
}

/// All events of one added span: exits first, then enters, each in line
/// order.
pub fn scan_span(text: &str) -> (r: Vec<Event>)
    ensures
        events_view(r@) == span_events(text@),
{
    let lines = split_lines_exec(text);
    let ghost lv = split_lines(text@);
    let mut out: Vec<Event> = Vec::new();
    let mut i: usize = 0;
    while i < lines.len()
        invariant
            i <= lines.len(),
            string_views(lines@) == lv,
            events_view(out@) == exits_of(lv.subrange(0, i as int)),
        decreases lines.len() - i,
    {
        let ghost prefix = lv.subrange(0, i as int);
        let ghost out_before = out@;
        match classify_line(lines[i].as_str()) {
            Some(e) => {
                match e {
                    Event::Exit(_) => {
                        out.push(e);
                    },
                    Event::Enter(_) => {
                    },
                }
            },
            None => {
            },
        }
        proof {
            assert(lv[i as int] == lines@[i as int]@);
            assert(lv.subrange(0, i + 1) =~= prefix.push(lv[i as int]));
            lemma_exits_of_push(prefix, lv[i as int]);
            if out@ != out_before {
                crate::event::lemma_events_view_push(out_before, out@[out@.len() - 1]);
            }
            assert(events_view(out@) =~= exits_of(lv.subrange(0, i + 1)));
        }
        i = i + 1;
    }
    proof {
        assert(lv.subrange(0, lines@.len() as int) =~= lv);
    }
    let mut j: usize = 0;
    while j < lines.len()
        invariant
            j <= lines.len(),
            string_views(lines@) == lv,
            events_view(out@) == exits_of(lv) + enters_of(lv.subrange(0, j as int)),
        decreases lines.len() - j,
    {
        let ghost prefix = lv.subrange(0, j as int);
        let ghost out_before = out@;
        match classify_line(lines[j].as_str()) {
            Some(e) => {
                match e {
                    Event::Enter(_) => {
                        out.push(e);
                    },
                    Event::Exit(_) => {
                    },
                }
            },
            None => {
            },
        }
        proof {
            assert(lv[j as int] == lines@[j as int]@);
            assert(lv.subrange(0, j + 1) =~= prefix.push(lv[j as int]));
            lemma_enters_of_push(prefix, lv[j as int]);
            if out@ != out_before {
                crate::event::lemma_events_view_push(out_before, out@[out@.len() - 1]);
            }
            assert(events_view(out@) =~= exits_of(lv) + enters_of(lv.subrange(0, j + 1)));
        }
        j = j + 1;
    }
    proof {
        assert(lv.subrange(0, lines@.len() as int) =~= lv);
    }
    out
}

/// Extending a span by one line appends that line's exit event, if any.
proof fn lemma_exits_of_push(lines: Seq<Seq<char>>, l: Seq<char>)
    ensures
        exits_of(lines.push(l)) == exits_of(lines) + exit_part(l),
    decreases lines.len(),
{
    reveal_with_fuel(exits_of, 3);
    if lines.len() == 0 {
        assert(lines.push(l)[0] == l);
        assert(lines.push(l).drop_first() =~= lines);
        assert(exits_of(lines.push(l)) =~= exits_of(lines) + exit_part(l));
    } else {
        assert(lines.push(l)[0] == lines[0]);
        assert(lines.push(l).drop_first() =~= lines.drop_first().push(l));
        lemma_exits_of_push(lines.drop_first(), l);
        assert(exits_of(lines.push(l)) =~= exits_of(lines) + exit_part(l));
    }
}

/// Extending a span by one line appends that line's enter event, if any.
proof fn lemma_enters_of_push(lines: Seq<Seq<char>>, l: Seq<char>)
    ensures
        enters_of(lines.push(l)) == enters_of(lines) + enter_part(l),
    decreases lines.len(),
{
    reveal_with_fuel(enters_of, 3);
    if lines.len() == 0 {
        assert(lines.push(l)[0] == l);
        assert(lines.push(l).drop_first() =~= lines);
        assert(enters_of(lines.push(l)) =~= enters_of(lines) + enter_part(l));
    } else {
        assert(lines.push(l)[0] == lines[0]);
        assert(lines.push(l).drop_first() =~= lines.drop_first().push(l));
        lemma_enters_of_push(lines.drop_first(), l);
        assert(enters_of(lines.push(l)) =~= enters_of(lines) + enter_part(l));
    }
}

} // verus!
