use vstd::prelude::*;

use vstd::string::StringSliceAdditionalSpecFns;
use crate::json::{parse_json, parsed_json, JsonValue, JsonView};
use crate::text::{
    char_index_exec, char_index_from, chars_of, has_char, is_digit, lemma_char_index_from,
    occurs_at, occurs_at_exec, skip_line_breaks_exec, skip_line_breaks_from, starts_with_seq,
    str_contains, contains_seq, string_of, string_of_range, trim_end_len, trim_ws, trim_ws_range,
    utf8_width, utf8_width_exec, utf8_len, utf8_len_from,
};

verus! {

/// The line header that opens every entry of Arena's log.
pub const HEADER: &'static str = "[UnityCrossThreadLogger]";

/// The characters of `HEADER`.
pub open spec fn header_seq() -> Seq<char> {
    seq![
        '[', 'U', 'n', 'i', 't', 'y', 'C', 'r', 'o', 's', 's', 'T', 'h', 'r', 'e', 'a', 'd',
        'L', 'o', 'g', 'g', 'e', 'r', ']',
    ]
}

/// The characters of `HEADER`, built.
pub fn header_chars() -> (v: Vec<char>)
    ensures
        v@ == header_seq(),
{
    let v = vec![
        '[', 'U', 'n', 'i', 't', 'y', 'C', 'r', 'o', 's', 's', 'T', 'h', 'r', 'e', 'a', 'd',
        'L', 'o', 'g', 'g', 'e', 'r', ']',
    ];
    assert(v@ =~= header_seq());
    v
}

/// One entry of the log: its timestamp line, when it had one, and the text after it.
#[derive(Debug)]
pub struct LogEntry {
    pub timestamp: Option<String>,
    pub body: String,
}

/// The model of a log entry.
pub struct LogEntryView {
    pub timestamp: Option<Seq<char>>,
    pub body: Seq<char>,
}

impl View for LogEntry {
    type V = LogEntryView;

    open spec fn view(&self) -> LogEntryView {
        LogEntryView {
            timestamp: match self.timestamp {
                Some(t) => Some(t@),
                None => None,
            },
            body: self.body@,
        }
    }
}

// ---------------------------------------------------------------------------
// Specification of an entry
// ---------------------------------------------------------------------------

/// `s` without a leading `HEADER`, when it has one.
pub open spec fn strip_header(s: Seq<char>) -> Seq<char> {
    if starts_with_seq(s, header_seq()) {
        s.skip(header_seq().len() as int)
    } else {
        s
    }
}

/// Number of ASCII digits in `s.take(n)`.
pub open spec fn digits_in(s: Seq<char>, n: int) -> nat
    decreases n,
{
    if n <= 0 {
        0
    } else {
        digits_in(s, n - 1) + if is_digit(s[n - 1]) {
            1nat
        } else {
            0nat
        }
    }
}

/// Number of slashes in `s.take(n)`.
pub open spec fn slashes_in(s: Seq<char>, n: int) -> nat
    decreases n,
{
    if n <= 0 {
        0
    } else {
        slashes_in(s, n - 1) + if s[n - 1] == '/' {
            1nat
        } else {
            0nat
        }
    }
}

/// A line reads as a timestamp: it is not empty, does not open a JSON object or an arrow
/// marker, and its first twenty characters hold at least four digits and two slashes.
pub open spec fn looks_like_timestamp(line: Seq<char>) -> bool {
    let n: int = if line.len() < 20 {
        line.len() as int
    } else {
        20
    };
    if line.len() == 0 || line[0] == '{' || starts_with_seq(line, seq!['=', '=', '>'])
        || starts_with_seq(line, seq!['<', '=', '=']) {
        false
    } else {
        digits_in(line, n) >= 4 && slashes_in(line, n) >= 2
    }
}

/// Splits what follows the header into the timestamp line (when the first line reads as
/// one) and the body.
pub open spec fn split_header_spec(rest: Seq<char>) -> LogEntryView {
    let line_end = char_index_from(rest, '\n', 0);
    let first_line = rest.take(trim_end_len(rest, '\r', line_end));
    if looks_like_timestamp(first_line) {
        LogEntryView {
            timestamp: Some(trim_ws(first_line)),
            body: rest.skip(skip_line_breaks_from(rest, line_end)),
        }
    } else {
        LogEntryView { timestamp: None, body: rest.skip(skip_line_breaks_from(rest, 0)) }
    }
}

/// The entry that a chunk of the log makes.
pub open spec fn entry_of(chunk: Seq<char>) -> LogEntryView {
    split_header_spec(strip_header(chunk))
}

// ---------------------------------------------------------------------------
// Specification of balanced JSON objects in text
// ---------------------------------------------------------------------------

/// Scans for the `}` that closes the object open at nesting `depth`, skipping braces inside
/// string literals; gives the index just past it.
pub open spec fn object_end(s: Seq<char>, i: int, depth: int, in_string: bool, escape: bool) -> Option<
    int,
>
    decreases s.len() - i,
{
    if i < 0 || i >= s.len() {
        None
    } else {
        let ch = s[i];
        if in_string {
            if escape {
                object_end(s, i + 1, depth, true, false)
            } else if ch == '\\' {
                object_end(s, i + 1, depth, true, true)
            } else if ch == '"' {
                object_end(s, i + 1, depth, false, false)
            } else {
                object_end(s, i + 1, depth, true, false)
            }
        } else if ch == '"' {
            object_end(s, i + 1, depth, true, false)
        } else if ch == '{' {
            object_end(s, i + 1, depth + 1, false, false)
        } else if ch == '}' {
            if depth - 1 == 0 {
                Some(i + 1)
            } else {
                object_end(s, i + 1, depth - 1, false, false)
            }
        } else {
            object_end(s, i + 1, depth, false, false)
        }
    }
}

/// The JSON object that starts at `start`: its end index and its parsed value, when the
/// balanced text there parses.
pub open spec fn take_object_at(s: Seq<char>, start: int) -> Option<(int, JsonView)> {
    match object_end(s, start, 0, false, false) {
        Some(e) => match parsed_json(s.subrange(start, e)) {
            Some(v) => Some((e, v)),
            None => None,
        },
        None => None,
    }
}

/// The JSON objects found from index `i` on, stopping at the first that does not parse.
pub open spec fn values_from(s: Seq<char>, i: int) -> Seq<JsonView>
    decreases s.len() - i,
{
    if i < 0 || i >= s.len() {
        Seq::empty()
    } else if s[i] == '{' {
        match take_object_at(s, i) {
            Some((e, v)) => if i < e && e <= s.len() {
                seq![v] + values_from(s, e)
            } else {
                Seq::empty()
            },
            None => Seq::empty(),
        }
    } else {
        values_from(s, i + 1)
    }
}

/// Every `{` from index `i` on opens an object that closes and parses, and at least one
/// was seen (counting `saw`).
pub open spec fn objects_complete_from(s: Seq<char>, i: int, saw: bool) -> bool
    decreases s.len() - i,
{
    if i < 0 || i >= s.len() {
        saw
    } else if s[i] == '{' {
        match take_object_at(s, i) {
            Some((e, v)) => if i < e && e <= s.len() {
                objects_complete_from(s, e, true)
            } else {
                false
            },
            None => false,
        }
    } else {
        objects_complete_from(s, i + 1, saw)
    }
}

/// A chunk is complete when its body, lacking any `{`, holds a line break, or else when all
/// its JSON objects close and parse.
pub open spec fn entry_complete(chunk: Seq<char>) -> bool {
    let body = strip_header(chunk);
    if !has_char(body, '{') {
        has_char(body, '\n')
    } else {
        objects_complete_from(body, 0, false)
    }
}

// ---------------------------------------------------------------------------
// Specification of splitting a buffer into entries
// ---------------------------------------------------------------------------

/// The indices below `n` at which `HEADER` starts, in increasing order.
pub open spec fn header_starts(s: Seq<char>, n: int) -> Seq<int>
    decreases n,
{
    if n <= 0 {
        Seq::empty()
    } else {
        let before = header_starts(s, n - 1);
        if occurs_at(s, header_seq(), n - 1) {
            before.push(n - 1)
        } else {
            before
        }
    }
}

/// The longest amount of trailing text kept when a buffer holds no header.
pub open spec fn max_headerless_bytes() -> nat {
    65536
}

/// The first index at or after `i` from which the rest of `s` takes at most `limit` bytes.
pub open spec fn first_fit_from(s: Seq<char>, i: int, limit: nat) -> int
    decreases s.len() - i,
{
    if i < 0 || i >= s.len() {
        s.len() as int
    } else if utf8_len_from(s, i) <= limit {
        i
    } else {
        first_fit_from(s, i + 1, limit)
    }
}

/// What a buffer without any header keeps: its longest suffix of at most 65536 bytes.
pub open spec fn headerless_tail(s: Seq<char>) -> Seq<char> {
    s.skip(first_fit_from(s, 0, max_headerless_bytes()))
}

/// Text before the first header is kept only when it holds a `{`.
pub open spec fn kept_prefix(s: Seq<char>, first: int) -> Seq<char> {
    let p = s.take(first);
    if p.len() > 0 && has_char(p, '{') {
        p
    } else {
        Seq::empty()
    }
}

/// The chunk between the `k`-th and the next header, with the kept prefix in front of the
/// first one.
pub open spec fn chunk_at(s: Seq<char>, starts: Seq<int>, k: int) -> Seq<char> {
    let body = s.subrange(starts[k], starts[k + 1]);
    if k == 0 {
        kept_prefix(s, starts[0]) + body
    } else {
        body
    }
}

/// The text from the last header on, with the kept prefix in front when it is the only one.
pub open spec fn last_chunk(s: Seq<char>, starts: Seq<int>) -> Seq<char> {
    let body = s.skip(starts[starts.len() - 1]);
    if starts.len() == 1 {
        kept_prefix(s, starts[0]) + body
    } else {
        body
    }
}

/// Splits a buffer into the complete entries it holds and the text still to be completed.
pub open spec fn split_entries_spec(s: Seq<char>) -> (Seq<LogEntryView>, Seq<char>) {
    let starts = header_starts(s, s.len() as int);
    if starts.len() == 0 {
        (Seq::empty(), headerless_tail(s))
    } else {
        let entries = Seq::new(
            (starts.len() - 1) as nat,
            |k: int| entry_of(chunk_at(s, starts, k)),
        );
        let last = last_chunk(s, starts);
        if entry_complete(last) {
            (entries.push(entry_of(last)), Seq::empty())
        } else {
            (entries, last)
        }
    }
}

/// The models of a sequence of entries.
pub open spec fn entries_view(entries: Seq<LogEntry>) -> Seq<LogEntryView> {
    entries.map_values(|e: LogEntry| e@)
}

// ---------------------------------------------------------------------------
// Lemmas
// ---------------------------------------------------------------------------

/// Lemma: an object that closes ends after the index the scan started from.
pub proof fn lemma_object_end_bounds(s: Seq<char>, i: int, depth: int, in_string: bool, escape: bool)
    ensures
        object_end(s, i, depth, in_string, escape) matches Some(e) ==> i < e <= s.len(),
    decreases s.len() - i,
{
    if 0 <= i < s.len() {
        lemma_object_end_bounds(s, i + 1, depth, true, false);
        lemma_object_end_bounds(s, i + 1, depth, true, true);
        lemma_object_end_bounds(s, i + 1, depth, false, false);
        lemma_object_end_bounds(s, i + 1, depth + 1, false, false);
        lemma_object_end_bounds(s, i + 1, depth - 1, false, false);
    }
}

/// Lemma: the model of a sequence of values grows by one model when a value is pushed.
pub proof fn lemma_items_view_push(items: Seq<JsonValue>, x: JsonValue)
    ensures
        crate::json::items_view(items.push(x)) == crate::json::items_view(items).push(x@),
{
    assert(items.push(x).subrange(0, items.len() as int) =~= items);
}

// ---------------------------------------------------------------------------
// Executable scanning
// ---------------------------------------------------------------------------

/// A copy of `v[lo..hi]`.
pub fn copy_range(v: &Vec<char>, lo: usize, hi: usize) -> (r: Vec<char>)
    requires
        lo <= hi <= v.len(),
    ensures
        r@ == v@.subrange(lo as int, hi as int),
{
    let mut r: Vec<char> = Vec::new();
    let mut i = lo;
    while i < hi
        invariant
            lo <= i <= hi <= v.len(),
            r@ == v@.subrange(lo as int, i as int),
        decreases hi - i,
    {
        r.push(v[i]);
        i = i + 1;
        assert(r@ =~= v@.subrange(lo as int, i as int));
    }
    r
}

/// The JSON object that starts at `start`: how far it reaches and its value.
fn take_json_object(v: &Vec<char>, start: usize) -> (r: Option<(usize, JsonValue)>)
    requires
        start < v.len(),
    ensures
        match r {
            Some((e, j)) => take_object_at(v@, start as int) == Some((e as int, j@)),
            None => take_object_at(v@, start as int) is None,
        },
{
    let mut i = start;
    let mut depth: i128 = 0;
    let mut in_string = false;
    let mut escape = false;
    while i < v.len()
        invariant
            start <= i <= v.len(),
            -(i - start) <= depth <= i - start,
            escape ==> in_string,
            object_end(v@, i as int, depth as int, in_string, escape) == object_end(
                v@,
                start as int,
                0,
                false,
                false,
            ),
        decreases v.len() - i,
    {
        let ch = v[i];
        if in_string {
            if escape {
                escape = false;
            } else if ch == '\\' {
                escape = true;
            } else if ch == '"' {
                in_string = false;
            }
        } else if ch == '"' {
            in_string = true;
        } else if ch == '{' {
            depth = depth + 1;
        } else if ch == '}' {
            depth = depth - 1;
            if depth == 0 {
                let end = i + 1;
                let text = string_of_range(v, start, end);
                return match parse_json(&text) {
                    Some(j) => Some((end, j)),
                    None => None,
                };
            }
        }
        i = i + 1;
    }
    None
}

/// The JSON values that follow one another in `v` (see `values_from`).
fn json_values_in(v: &Vec<char>) -> (r: Vec<JsonValue>)
    ensures
        crate::json::items_view(r@) == values_from(v@, 0),
{
    let mut out: Vec<JsonValue> = Vec::new();
    let mut i: usize = 0;
    while i < v.len()
        invariant
            i <= v.len(),
            crate::json::items_view(out@) + values_from(v@, i as int) == values_from(v@, 0),
        decreases v.len() - i,
    {
        if v[i] == '{' {
            match take_json_object(v, i) {
                Some((e, j)) => {
                    proof {
                        lemma_object_end_bounds(v@, i as int, 0, false, false);
                        lemma_items_view_push(out@, j);
                        assert(crate::json::items_view(out@.push(j)) + values_from(v@, e as int)
                            =~= crate::json::items_view(out@) + values_from(v@, i as int));
                    }
                    out.push(j);
                    i = e;
                },
                None => {
                    assert(crate::json::items_view(out@) + values_from(v@, i as int)
                        =~= crate::json::items_view(out@));
                    return out;
                },
            }
        } else {
            i = i + 1;
        }
    }
    assert(crate::json::items_view(out@) + values_from(v@, i as int)
        =~= crate::json::items_view(out@));
    out
}

/// The JSON objects in `text`, in order, up to the first that does not close or parse.
pub fn extract_json_values(text: &str) -> (r: Vec<JsonValue>)
    ensures
        crate::json::items_view(r@) == values_from(text@, 0),
{
    let v = chars_of(text);
    json_values_in(&v)
}

/// Whether every object in `v` closes and parses and there is at least one.
fn json_objects_complete(v: &Vec<char>) -> (r: bool)
    ensures
        r == objects_complete_from(v@, 0, false),
{
    let mut saw = false;
    let mut i: usize = 0;
    while i < v.len()
        invariant
            i <= v.len(),
            objects_complete_from(v@, i as int, saw) == objects_complete_from(v@, 0, false),
        decreases v.len() - i,
    {
        if v[i] == '{' {
            saw = true;
            match take_json_object(v, i) {
                Some((e, _)) => {
                    proof {
                        lemma_object_end_bounds(v@, i as int, 0, false, false);
                    }
                    i = e;
                },
                None => {
                    return false;
                },
            }
        } else {
            i = i + 1;
        }
    }
    saw
}

/// Index just past a leading `HEADER` in `v`, or 0 when `v` does not start with it.
fn header_end(v: &Vec<char>) -> (r: usize)
    ensures
        v@.skip(r as int) == strip_header(v@),
        r <= v.len(),
{
    let h = header_chars();
    if occurs_at_exec(v, &h, 0) {
        24
    } else {
        assert(v@.skip(0) =~= v@);
        0
    }
}

/// Whether `v[0..hi]` holds `c`.
fn has_char_before(v: &Vec<char>, c: char, hi: usize) -> (r: bool)
    requires
        hi <= v.len(),
    ensures
        r == has_char(v@.take(hi as int), c),
{
    let mut i: usize = 0;
    while i < hi
        invariant
            i <= hi <= v.len(),
            forall|j: int| 0 <= j < i ==> v@[j] != c,
        decreases hi - i,
    {
        if v[i] == c {
            assert(v@.take(hi as int)[i as int] == c);
            return true;
        }
        i = i + 1;
    }
    false
}

/// Whether a chunk of log text is complete (see `entry_complete`).
fn entry_complete_chars(work: &Vec<char>) -> (r: bool)
    ensures
        r == entry_complete(work@),
{
    let lo = header_end(work);
    let body = copy_range(work, lo, work.len());
    assert(body@ =~= strip_header(work@));
    assert(body@.take(body@.len() as int) =~= body@);
    if !has_char_before(&body, '{', body.len()) {
        has_char_before(&body, '\n', body.len())
    } else {
        json_objects_complete(&body)
    }
}

/// Whether `v[0..n]` reads as a timestamp line.
fn looks_like_timestamp_exec(v: &Vec<char>, n: usize) -> (r: bool)
    requires
        n <= v.len(),
    ensures
        r == looks_like_timestamp(v@.take(n as int)),
{
    let ghost line = v@.take(n as int);
    if n == 0 || v[0] == '{' {
        return false;
    }
    let arrow_in = vec!['=', '=', '>'];
    let arrow_out = vec!['<', '=', '='];
    let line_v = copy_range(v, 0, n);
    assert(line_v@ =~= line);
    assert(arrow_in@ =~= seq!['=', '=', '>']);
    assert(arrow_out@ =~= seq!['<', '=', '=']);
    if occurs_at_exec(&line_v, &arrow_in, 0) || occurs_at_exec(&line_v, &arrow_out, 0) {
        return false;
    }
    let limit: usize = if n < 20 {
        n
    } else {
        20
    };
    let mut digits: usize = 0;
    let mut slashes: usize = 0;
    let mut i: usize = 0;
    while i < limit
        invariant
            i <= limit <= n <= v.len(),
            line == v@.take(n as int),
            digits as nat == digits_in(line, i as int),
            slashes as nat == slashes_in(line, i as int),
            digits <= i,
            slashes <= i,
        decreases limit - i,
    {
        let ch = v[i];
        assert(line[i as int] == ch);
        if '0' <= ch && ch <= '9' {
            digits = digits + 1;
        }
        if ch == '/' {
            slashes = slashes + 1;
        }
        i = i + 1;
    }
    digits >= 4 && slashes >= 2
}

/// Splits what follows the header into timestamp and body (see `split_header_spec`).
fn split_header(rest: &Vec<char>) -> (r: LogEntry)
    ensures
        r@ == split_header_spec(rest@),
{
    let line_end = char_index_exec(rest, '\n', 0);
    let k = crate::text::trim_end_len_exec(rest, '\r', line_end);
    if looks_like_timestamp_exec(rest, k) {
        assert(rest@.subrange(0, k as int) =~= rest@.take(k as int));
        let timestamp = trim_ws_range(rest, 0, k);
        let from = skip_line_breaks_exec(rest, line_end);
        let body = string_of_range(rest, from, rest.len());
        assert(body@ =~= rest@.skip(from as int));
        LogEntry { timestamp: Some(timestamp), body }
    } else {
        let from = skip_line_breaks_exec(rest, 0);
        let body = string_of_range(rest, from, rest.len());
        assert(body@ =~= rest@.skip(from as int));
        LogEntry { timestamp: None, body }
    }
}

/// The entry that a chunk makes (see `entry_of`).
fn entry_from_chars(work: &Vec<char>) -> (r: LogEntry)
    ensures
        r@ == entry_of(work@),
{
    let lo = header_end(work);
    let rest = copy_range(work, lo, work.len());
    assert(rest@ =~= strip_header(work@));
    split_header(&rest)
}

impl LogEntry {
    /// The entry that a chunk of the log makes: the header is dropped, then a first line
    /// that reads as a timestamp becomes the timestamp.
    pub fn from_chunk(chunk: &str) -> (r: LogEntry)
        ensures
            r@ == entry_of(chunk@),
    {
        let v = chars_of(chunk);
        entry_from_chars(&v)
    }
}


// ---------------------------------------------------------------------------
// Splitting a buffer
// ---------------------------------------------------------------------------

/// The integers that a sequence of indices stands for.
pub open spec fn as_ints(s: Seq<usize>) -> Seq<int> {
    s.map_values(|x: usize| x as int)
}

/// Lemma: header starts are increasing and lie below `n`.
pub proof fn lemma_header_starts(s: Seq<char>, n: int)
    ensures
        forall|k: int|
            0 <= k < header_starts(s, n).len() ==> 0 <= #[trigger] header_starts(s, n)[k] < n,
        forall|j: int, k: int|
            #![trigger header_starts(s, n)[j], header_starts(s, n)[k]]
            0 <= j < k < header_starts(s, n).len() ==> header_starts(s, n)[j] < header_starts(
                s,
                n,
            )[k],
    decreases n,
{
    if n > 0 {
        lemma_header_starts(s, n - 1);
        let before = header_starts(s, n - 1);
        let now = header_starts(s, n);
        if occurs_at(s, header_seq(), n - 1) {
            assert(now == before.push(n - 1));
            assert forall|k: int| 0 <= k < now.len() implies 0 <= #[trigger] now[k] < n by {
                if k < before.len() {
                    assert(now[k] == before[k]);
                }
            }
            assert forall|j: int, k: int|
                #![trigger now[j], now[k]]
                0 <= j < k < now.len() implies now[j] < now[k] by {
                assert(now[j] == before[j]);
                if k < before.len() {
                    assert(now[k] == before[k]);
                }
            }
        } else {
            assert(now == before);
        }
    }
}

/// Appends `v[lo..hi]` to `w`.
fn append_range(w: &mut Vec<char>, v: &Vec<char>, lo: usize, hi: usize)
    requires
        lo <= hi <= v.len(),
    ensures
        final(w)@ == old(w)@ + v@.subrange(lo as int, hi as int),
{
    let ghost start = w@;
    let mut i = lo;
    while i < hi
        invariant
            lo <= i <= hi <= v.len(),
            w@ == start + v@.subrange(lo as int, i as int),
        decreases hi - i,
    {
        w.push(v[i]);
        i = i + 1;
        assert(w@ =~= start + v@.subrange(lo as int, i as int));
    }
}

/// The indices at which `HEADER` starts in `v`.
fn header_starts_exec(v: &Vec<char>) -> (r: Vec<usize>)
    ensures
        as_ints(r@) == header_starts(v@, v.len() as int),
{
    let h = header_chars();
    let mut r: Vec<usize> = Vec::new();
    let mut i: usize = 0;
    while i < v.len()
        invariant
            i <= v.len(),
            h@ == header_seq(),
            as_ints(r@) == header_starts(v@, i as int),
        decreases v.len() - i,
    {
        if occurs_at_exec(v, &h, i) {
            r.push(i);
            assert(as_ints(r@) =~= header_starts(v@, i as int + 1));
        } else {
            assert(as_ints(r@) =~= header_starts(v@, i as int + 1));
        }
        i = i + 1;
    }
    r
}

/// Lemma: the bytes that the rest of `s` takes shrink as the start moves right.
pub proof fn lemma_utf8_len_from_monotone(s: Seq<char>, j: int, m: int)
    requires
        0 <= j <= m,
    ensures
        utf8_len_from(s, j) >= utf8_len_from(s, m),
    decreases m - j,
{
    if j < m {
        lemma_utf8_len_from_monotone(s, j + 1, m);
    }
}

/// Lemma: `first_fit_from` finds `k` when nothing between `i` and `k` fits and `k` does.
proof fn lemma_first_fit(s: Seq<char>, i: int, k: int, limit: nat)
    requires
        0 <= i <= k <= s.len(),
        forall|j: int| i <= j < k ==> utf8_len_from(s, j) > limit,
        utf8_len_from(s, k) <= limit,
    ensures
        first_fit_from(s, i, limit) == k,
    decreases k - i,
{
    if i < k {
        lemma_first_fit(s, i + 1, k, limit);
    }
}

/// Lemma: the bytes of `s` from `n + i` on are the bytes of `s.skip(n)` from `i` on.
proof fn lemma_utf8_len_skip(s: Seq<char>, n: int, i: int)
    requires
        0 <= n <= s.len(),
        0 <= i,
    ensures
        utf8_len_from(s.skip(n), i) == utf8_len_from(s, n + i),
    decreases s.len() - n - i,
{
    if n + i < s.len() {
        lemma_utf8_len_skip(s, n, i + 1);
        assert(s.skip(n)[i] == s[n + i]);
    }
}

/// Lemma: `first_fit_from` stops on a start whose rest fits, or at the end.
proof fn lemma_first_fit_fits(s: Seq<char>, i: int, limit: nat)
    requires
        0 <= i <= s.len(),
    ensures
        i <= first_fit_from(s, i, limit) <= s.len(),
        utf8_len_from(s, first_fit_from(s, i, limit)) <= limit,
    decreases s.len() - i,
{
    if i < s.len() && utf8_len_from(s, i) > limit {
        lemma_first_fit_fits(s, i + 1, limit);
    }
}

/// What is left over after splitting is always an end piece of the buffer, in whole
/// characters; a buffer with no header gives no entry and leaves at most 65536 bytes.
pub proof fn law_remainder_is_buffer_end(s: Seq<char>)
    ensures
        exists|n: int| 0 <= n <= s.len() && split_entries_spec(s).1 == #[trigger] s.skip(n),
        header_starts(s, s.len() as int).len() == 0 ==> split_entries_spec(s).0.len() == 0
            && utf8_len(split_entries_spec(s).1) <= max_headerless_bytes(),
{
    let starts = header_starts(s, s.len() as int);
    lemma_header_starts(s, s.len() as int);
    if starts.len() == 0 {
        let n = first_fit_from(s, 0, max_headerless_bytes());
        lemma_first_fit_fits(s, 0, max_headerless_bytes());
        lemma_utf8_len_skip(s, n, 0);
        assert(split_entries_spec(s).1 == s.skip(n));
    } else {
        let last = last_chunk(s, starts);
        let first = starts[0];
        if entry_complete(last) {
            assert(split_entries_spec(s).1 =~= s.skip(s.len() as int));
        } else if starts.len() == 1 && kept_prefix(s, first).len() > 0 {
            assert(last =~= s.skip(0));
        } else {
            assert(last =~= s.skip(starts[starts.len() - 1]));
        }
    }
}

/// What a buffer without any header keeps (see `headerless_tail`).
fn headerless_tail_exec(v: &Vec<char>) -> (r: String)
    ensures
        r@ == headerless_tail(v@),
{
    let mut k = v.len();
    let mut acc: u64 = 0;
    while k > 0 && acc + (utf8_width_exec(v[k - 1]) as u64) <= 65536
        invariant
            k <= v.len(),
            acc as nat == utf8_len_from(v@, k as int),
            acc <= 65536,
        decreases k,
    {
        acc = acc + (utf8_width_exec(v[k - 1]) as u64);
        k = k - 1;
    }
    proof {
        assert forall|j: int| 0 <= j < k implies utf8_len_from(v@, j) > max_headerless_bytes() by {
            lemma_utf8_len_from_monotone(v@, j, k - 1);
        }
        lemma_first_fit(v@, 0, k as int, max_headerless_bytes());
    }
    let r = string_of_range(v, k, v.len());
    assert(r@ =~= v@.skip(k as int));
    r
}

/// Splits a buffer into the complete entries it holds and the text still to be completed
/// (see `split_entries_spec`).
pub fn split_entries(buffer: &str) -> (r: (Vec<LogEntry>, String))
    ensures
        entries_view(r.0@) == split_entries_spec(buffer@).0,
        r.1@ == split_entries_spec(buffer@).1,
{
    let v = chars_of(buffer);
    let starts = header_starts_exec(&v);
    let ghost st = header_starts(v@, v@.len() as int);
    proof {
        lemma_header_starts(v@, v@.len() as int);
    }
    assert(starts@.len() == st.len());
    assert(forall|k: int| 0 <= k < st.len() ==> #[trigger] st[k] == starts@[k] as int) by {
        assert forall|k: int| 0 <= k < st.len() implies #[trigger] st[k] == starts@[k] as int by {
            assert(as_ints(starts@)[k] == starts@[k] as int);
        }
    }
    if starts.len() == 0 {
        let tail = headerless_tail_exec(&v);
        let entries: Vec<LogEntry> = Vec::new();
        assert(entries_view(entries@) =~= Seq::<LogEntryView>::empty());
        return (entries, tail);
    }
    let first = starts[0];
    assert(st[0] == starts@[0] as int);
    assert(0 <= st[0] < v@.len());
    let keep = first > 0 && has_char_before(&v, '{', first);
    assert(keep == (v@.take(first as int).len() > 0 && has_char(v@.take(first as int), '{')));
    let ghost spec_entries = Seq::new(
        (st.len() - 1) as nat,
        |k: int| entry_of(chunk_at(v@, st, k)),
    );
    let mut entries: Vec<LogEntry> = Vec::new();
    let mut k: usize = 0;
    while k + 1 < starts.len()
        invariant
            starts@.len() == st.len(),
            st.len() >= 1,
            k + 1 <= starts@.len(),
            forall|j: int| 0 <= j < st.len() ==> #[trigger] st[j] == starts@[j] as int,
            forall|j: int| 0 <= j < st.len() ==> 0 <= #[trigger] st[j] < v@.len(),
            forall|a: int, b: int| 0 <= a < b < st.len() ==> st[a] < st[b],
            first == starts@[0],
            first as int == st[0],
            first < v@.len(),
            keep == (v@.take(first as int).len() > 0 && has_char(v@.take(first as int), '{')),
            spec_entries == Seq::new(
                (st.len() - 1) as nat,
                |j: int| entry_of(chunk_at(v@, st, j)),
            ),
            entries_view(entries@) == spec_entries.take(k as int),
        decreases starts.len() - k,
    {
        let mut work: Vec<char> = if k == 0 && keep {
            copy_range(&v, 0, first)
        } else {
            Vec::new()
        };
        assert(st[k as int] == starts@[k as int] as int);
        assert(st[k as int + 1] == starts@[k as int + 1] as int);
        assert(st[k as int] < st[k as int + 1]);
        assert(st[k as int + 1] < v@.len());
        append_range(&mut work, &v, starts[k], starts[k + 1]);
        assert(work@ =~= chunk_at(v@, st, k as int));
        let entry = entry_from_chars(&work);
        let ghost ev = entry@;
        let ghost before = entries@;
        entries.push(entry);
        assert(entries_view(entries@) =~= entries_view(before).push(ev));
        assert(spec_entries[k as int] == entry_of(chunk_at(v@, st, k as int)));
        assert(spec_entries.take(k + 1) =~= spec_entries.take(k as int).push(spec_entries[k as int]));
        k = k + 1;
    }
    let n = starts.len();
    let mut work: Vec<char> = if n == 1 && keep {
        copy_range(&v, 0, first)
    } else {
        Vec::new()
    };
    assert(st[n - 1] == starts@[n - 1] as int);
    assert(st[n - 1] < v@.len());
    append_range(&mut work, &v, starts[n - 1], v.len());
    assert(work@ =~= last_chunk(v@, st));
    assert(spec_entries.take(k as int) =~= spec_entries);
    if entry_complete_chars(&work) {
        let entry = entry_from_chars(&work);
        let ghost ev = entry@;
        let ghost before = entries@;
        entries.push(entry);
        assert(entries_view(entries@) =~= entries_view(before).push(ev));
        (entries, String::new())
    } else {
        (entries, string_of(&work))
    }
}

// ---------------------------------------------------------------------------
// Detailed logs
// ---------------------------------------------------------------------------

/// Whether Arena writes the detailed (plugin support) log.
#[derive(Debug, Clone, Copy, PartialEq, Eq, Structural)]
pub enum DetailedLogs {
    On,
    Off,
    Unknown,
}

/// Event names mean detailed logs are on; Arena's own notice means they are off.
pub open spec fn detect_spec(text: Seq<char>) -> DetailedLogs {
    if contains_seq(text, "greToClientEvent"@) || contains_seq(
        text,
        "matchGameRoomStateChangedEvent"@,
    ) {
        DetailedLogs::On
    } else if contains_seq(text, "DETAILED LOGS: DISABLED"@) {
        DetailedLogs::Off
    } else {
        DetailedLogs::Unknown
    }
}

/// Reads from a sample of the log whether detailed logs are on.
pub fn detect_detailed_logs(text: &str) -> (r: DetailedLogs)
    ensures
        r == detect_spec(text@),
{
    if str_contains(text, "greToClientEvent") || str_contains(
        text,
        "matchGameRoomStateChangedEvent",
    ) {
        DetailedLogs::On
    } else if str_contains(text, "DETAILED LOGS: DISABLED") {
        DetailedLogs::Off
    } else {
        DetailedLogs::Unknown
    }
}


// ---------------------------------------------------------------------------
// Following the log file
// ---------------------------------------------------------------------------

/// Where reading of a log file stands: the file, how many bytes of it were read, the text
/// read that does not yet make a complete entry, and the identity of the file last seen.
/// The reading itself is done by the caller, which hands each piece of text it read to
/// `accept`.
pub struct LogFollower {
    path: String,
    offset: u64,
    incomplete: String,
    file_key: Option<(u64, u64)>,
}

/// The model of a follower.
pub struct FollowerView {
    pub path: Seq<char>,
    pub offset: nat,
    pub incomplete: Seq<char>,
    pub file_key: Option<(u64, u64)>,
}

impl View for LogFollower {
    type V = FollowerView;

    closed spec fn view(&self) -> FollowerView {
        FollowerView {
            path: self.path@,
            offset: self.offset as nat,
            incomplete: self.incomplete@,
            file_key: self.file_key,
        }
    }
}

/// What `accept` makes of the text read: no entry and nothing kept when nothing new came and
/// nothing was pending; otherwise the split of the pending text followed by the new text.
pub open spec fn accept_spec(incomplete: Seq<char>, chunk: Seq<char>) -> (Seq<LogEntryView>, Seq<
    char,
>) {
    if chunk.len() == 0 && incomplete.len() == 0 {
        (Seq::empty(), incomplete)
    } else {
        split_entries_spec(incomplete + chunk)
    }
}

impl LogFollower {
    /// A follower that reads `path` from its first byte.
    pub fn from_start(path: String) -> (r: LogFollower)
        ensures
            r@ == (FollowerView {
                path: path@,
                offset: 0,
                incomplete: Seq::empty(),
                file_key: None,
            }),
    {
        LogFollower { path, offset: 0, incomplete: String::new(), file_key: None }
    }

    /// A follower that reads only what is written after the current end of the file: `len` and
    /// `key` are the file's length and identity when it exists.
    pub fn at_end(path: String, len: Option<u64>, key: Option<(u64, u64)>) -> (r: LogFollower)
        ensures
            r@ == (FollowerView {
                path: path@,
                offset: match len {
                    Some(n) => n as nat,
                    None => 0,
                },
                incomplete: Seq::empty(),
                file_key: key,
            }),
    {
        let offset = match len {
            Some(n) => n,
            None => 0,
        };
        LogFollower { path, offset, incomplete: String::new(), file_key: key }
    }

    /// The file this follower reads.
    pub fn path(&self) -> (r: &str)
        ensures
            r@ == self@.path,
    {
        self.path.as_str()
    }

    /// How many bytes of the file were read.
    pub fn offset(&self) -> (r: u64)
        ensures
            r as nat == self@.offset,
    {
        self.offset
    }

    /// The file was replaced (another identity) or truncated (shorter than what was read) since
    /// it was last seen; never on the first look.
    pub fn is_rotated(&self, key: (u64, u64), len: u64) -> (r: bool)
        ensures
            r == (self@.file_key is Some && (self@.file_key != Some(key) || (len as nat)
                < self@.offset)),
    {
        match self.file_key {
            Some(k) => k.0 != key.0 || k.1 != key.1 || len < self.offset,
            None => false,
        }
    }

    /// A follower for the rotated-out file at `prev_path` that resumes where this one stopped.
    pub fn rotated_reader(&self, prev_path: String) -> (r: LogFollower)
        ensures
            r@ == (FollowerView {
                path: prev_path@,
                offset: self@.offset,
                incomplete: self@.incomplete,
                file_key: None,
            }),
    {
        LogFollower {
            path: prev_path,
            offset: self.offset,
            incomplete: self.incomplete.clone(),
            file_key: None,
        }
    }

    /// Starts over on a new file with identity `key`.
    pub fn restart(&mut self, key: (u64, u64))
        ensures
            final(self)@ == (FollowerView {
                path: old(self)@.path,
                offset: 0,
                incomplete: Seq::empty(),
                file_key: Some(key),
            }),
    {
        self.offset = 0;
        self.incomplete = String::new();
        self.file_key = Some(key);
    }

    /// Records the identity of the file just looked at.
    pub fn observe(&mut self, key: (u64, u64))
        ensures
            final(self)@ == (FollowerView { file_key: Some(key), ..old(self)@ }),
    {
        self.file_key = Some(key);
    }

    /// Takes the text read from the current offset to the end of the file: the offset moves
    /// past its bytes, and the complete entries of the pending text followed by it come out,
    /// the rest stays pending (see `accept_spec`).
    pub fn accept(&mut self, chunk: &str) -> (r: Vec<LogEntry>)
        requires
            chunk.spec_bytes().len() <= usize::MAX,
            old(self)@.offset + chunk.spec_bytes().len() <= u64::MAX,
        ensures
            final(self)@.path == old(self)@.path,
            final(self)@.file_key == old(self)@.file_key,
            final(self)@.offset == old(self)@.offset + chunk.spec_bytes().len(),
            entries_view(r@) == accept_spec(old(self)@.incomplete, chunk@).0,
            final(self)@.incomplete == accept_spec(old(self)@.incomplete, chunk@).1,
    {
        let n = chunk.len();
        self.offset = self.offset + (n as u64);
        if chunk.is_empty() && self.incomplete.as_str().is_empty() {
            let out: Vec<LogEntry> = Vec::new();
            assert(entries_view(out@) =~= Seq::<LogEntryView>::empty());
            return out;
        }
        let mut buffer = self.incomplete.clone();
        buffer.append(chunk);
        let (entries, remainder) = split_entries(buffer.as_str());
        self.incomplete = remainder;
        entries
    }
}

} // verus!
